//! The ordered chain of sources and its resolution into one layer.
use vstd::prelude::*;
use vstd::string::*;
use crate::layer::{layer_view, lookup, merge, merged, later_layer_wins, Leaf, Setting};
use crate::profile::Profile;
use crate::variables::{environment_layer, last_variable_wins, maps_to_path, variables_layer, vars_view};
use crate::text::lower_of;

verus! {

/// Why a configuration could not be resolved.
#[derive(Debug)]
pub enum ConfigError {
    /// The working directory could not be determined.
    WorkingDirectory,
    /// A required file is missing.
    SourceNotFound { path: String },
    /// A file that is present could not be parsed.
    Parse { path: String, message: String },
    /// The merged settings do not fit the settings type.
    Decode { message: String },
}

/// One source of settings. Earlier sources have lower precedence.
#[derive(Debug)]
pub enum Source {
    /// A file, named without its extension, and whether it must exist.
    File { path: String, required: bool },
    /// The environment variables under a prefix, split on a separator.
    Variables { prefix: String, separator: String },
}

/// A source seen through plain values.
pub enum SourceView {
    File(Seq<char>, bool),
    Variables(Seq<char>, Seq<char>),
}

impl View for Source {
    type V = SourceView;

    open spec fn view(&self) -> SourceView {
        match self {
            Source::File { path, required } => SourceView::File(path@, *required),
            Source::Variables { prefix, separator } => SourceView::Variables(prefix@, separator@),
        }
    }
}

/// The sources of a chain.
pub open spec fn chain_view(v: Seq<Source>) -> Seq<SourceView> {
    v.map_values(|s: Source| s@)
}

/// The path of the file `name` in the configuration directory under `working_dir`.
pub open spec fn file_path(working_dir: Seq<char>, configuration_dir: Seq<char>, name: Seq<char>) -> Seq<char> {
    working_dir + "/"@ + configuration_dir + "/"@ + name
}

/// The chain for a profile, a working directory and an environment: the base
/// file (required), the environment's file, then the environment variables.
pub open spec fn chain_of(profile: Profile, working_dir: Seq<char>, environment: Seq<char>) -> Seq<SourceView> {
    seq![
        SourceView::File(file_path(working_dir, profile.configuration_dir@, "base"@), true),
        SourceView::File(
            file_path(working_dir, profile.configuration_dir@, environment),
            profile.environment_file_required,
        ),
        SourceView::Variables(profile.prefix@, profile.separator@),
    ]
}

/// Builds the chain of sources; fails only when the working directory is unknown.
pub fn source_chain(profile: &Profile, working_dir: Option<String>, environment: &String) -> (r: Result<
    Vec<Source>,
    ConfigError,
>)
    ensures
        match r {
            Ok(v) => working_dir is Some && chain_view(v@) == chain_of(
                *profile,
                working_dir->Some_0@,
                environment@,
            ),
            Err(e) => working_dir is None && e is WorkingDirectory,
        },
{
    match working_dir {
        None => Err(ConfigError::WorkingDirectory),
        Some(dir) => {
            let mut d = dir;
            d.append("/");
            d.append(profile.configuration_dir.as_str());
            d.append("/");
            let base = d.clone().concat("base");
            let env = d.concat(environment.as_str());
            let v: Vec<Source> = vec![
                Source::File { path: base, required: true },
                Source::File { path: env, required: profile.environment_file_required },
                Source::Variables {
                    prefix: profile.prefix.clone(),
                    separator: profile.separator.clone(),
                },
            ];
            assert(chain_view(v@) =~= chain_of(*profile, dir@, environment@));
            Ok(v)
        },
    }
}

/// What was read for one file of the chain.
#[derive(Debug)]
pub enum FileContents {
    /// No file of a known format is there.
    Missing,
    /// The file's leaves.
    Found(Vec<Setting>),
    /// The file is there but could not be parsed; the parser's message.
    Unparsable(String),
}

/// What was read for a file, seen through plain values.
pub enum ContentsView {
    Missing,
    Found(Seq<Leaf>),
    Unparsable(Seq<char>),
}

impl View for FileContents {
    type V = ContentsView;

    open spec fn view(&self) -> ContentsView {
        match self {
            FileContents::Missing => ContentsView::Missing,
            FileContents::Found(l) => ContentsView::Found(layer_view(l@)),
            FileContents::Unparsable(m) => ContentsView::Unparsable(m@),
        }
    }
}

/// Why the resolution of a chain stopped.
pub enum Failure {
    /// The required file at this path is missing.
    NotFound(Seq<char>),
    /// The file at this path could not be parsed, with the parser's message.
    Unparsable(Seq<char>, Seq<char>),
}

/// What was read for the file at position `i` of the chain; a position with
/// no entry counts as a missing file.
pub open spec fn loaded(files: Seq<ContentsView>, i: int) -> ContentsView {
    if 0 <= i < files.len() {
        files[i]
    } else {
        ContentsView::Missing
    }
}

/// What was read for the files.
pub open spec fn files_view(f: Seq<FileContents>) -> Seq<ContentsView> {
    f.map_values(|c: FileContents| c@)
}

/// One source laid over the accumulated layer, or why it stops the chain.
pub open spec fn step(
    acc: Seq<Leaf>,
    source: SourceView,
    file: ContentsView,
    vars: Seq<(Seq<char>, Seq<char>)>,
) -> Result<Seq<Leaf>, Failure> {
    match source {
        SourceView::File(path, required) => match file {
            ContentsView::Found(l) => Ok(merged(acc, l)),
            ContentsView::Missing => if required {
                Err(Failure::NotFound(path))
            } else {
                Ok(acc)
            },
            ContentsView::Unparsable(m) => Err(Failure::Unparsable(path, m)),
        },
        SourceView::Variables(prefix, separator) => Ok(
            merged(acc, variables_layer(prefix, separator, vars)),
        ),
    }
}

/// The first `n` sources merged in order, or the first source that stops the chain.
pub open spec fn resolved(
    sources: Seq<SourceView>,
    files: Seq<ContentsView>,
    vars: Seq<(Seq<char>, Seq<char>)>,
    n: nat,
) -> Result<Seq<Leaf>, Failure>
    decreases n,
{
    if n == 0 {
        Ok(seq![])
    } else {
        match resolved(sources, files, vars, (n - 1) as nat) {
            Err(f) => Err(f),
            Ok(acc) => step(acc, sources[n - 1], loaded(files, n - 1), vars),
        }
    }
}

/// The library's error for a failure.
pub open spec fn reports(e: ConfigError, f: Failure) -> bool {
    match f {
        Failure::NotFound(p) => e matches ConfigError::SourceNotFound { path } && path@ == p,
        Failure::Unparsable(p, m) => e matches ConfigError::Parse { path, message } && path@ == p
            && message@ == m,
    }
}

proof fn lemma_failure_stays(
    sources: Seq<SourceView>,
    files: Seq<ContentsView>,
    vars: Seq<(Seq<char>, Seq<char>)>,
    n: nat,
    m: nat,
)
    requires
        n <= m,
        resolved(sources, files, vars, n) is Err,
    ensures
        resolved(sources, files, vars, m) == resolved(sources, files, vars, n),
    decreases m - n,
{
    if n < m {
        lemma_failure_stays(sources, files, vars, n, (m - 1) as nat);
    }
}

/// Merges the chain `sources` in order, stopping at the first required file
/// that is missing or the first file that could not be parsed. `files[i]` is
/// what was read for the file at position `i` (no entry counts as missing);
/// `vars` are the environment variables as (name, value) pairs.
pub fn resolve(
    sources: &Vec<Source>,
    files: &Vec<FileContents>,
    vars: &Vec<(String, String)>,
) -> (r: Result<Vec<Setting>, ConfigError>)
    ensures
        match r {
            Ok(t) => resolved(chain_view(sources@), files_view(files@), vars_view(vars@), sources@.len())
                == Ok::<Seq<Leaf>, Failure>(layer_view(t@)),
            Err(e) => resolved(
                chain_view(sources@),
                files_view(files@),
                vars_view(vars@),
                sources@.len(),
            ) is Err && reports(
                e,
                resolved(chain_view(sources@), files_view(files@), vars_view(vars@), sources@.len())->Err_0,
            ),
        },
{
    let ghost cs = chain_view(sources@);
    let ghost fs = files_view(files@);
    let ghost vs = vars_view(vars@);
    let mut acc: Vec<Setting> = Vec::new();
    let mut i: usize = 0;
    assert(layer_view(acc@) =~= seq![]);
    while i < sources.len()
        invariant
            i <= sources.len(),
            cs == chain_view(sources@),
            fs == files_view(files@),
            vs == vars_view(vars@),
            resolved(cs, fs, vs, i as nat) == Ok::<Seq<Leaf>, Failure>(layer_view(acc@)),
        decreases sources.len() - i,
    {
        match &sources[i] {
            Source::File { path, required } => {
                let mut found: Option<&Vec<Setting>> = None;
                if i < files.len() {
                    match &files[i] {
                        FileContents::Found(l) => {
                            found = Some(l);
                        },
                        FileContents::Missing => {},
                        FileContents::Unparsable(m) => {
                            proof {
                                lemma_failure_stays(cs, fs, vs, (i + 1) as nat, sources@.len());
                            }
                            return Err(ConfigError::Parse { path: path.clone(), message: m.clone() });
                        },
                    }
                }
                match found {
                    Some(l) => {
                        acc = merge(&acc, l);
                    },
                    None => {
                        if *required {
                            proof {
                                lemma_failure_stays(cs, fs, vs, (i + 1) as nat, sources@.len());
                            }
                            return Err(ConfigError::SourceNotFound { path: path.clone() });
                        }
                    },
                }
            },
            Source::Variables { prefix, separator } => {
                let l = environment_layer(prefix, separator, vars);
                acc = merge(&acc, &l);
            },
        }
        i += 1;
    }
    Ok(acc)
}

/// The source is a file that must exist.
pub open spec fn is_required_file(s: SourceView) -> bool {
    match s {
        SourceView::File(_, required) => required,
        SourceView::Variables(_, _) => false,
    }
}

/// The source stops the chain with the failure `f`, given what was read for it.
pub open spec fn fails_with(source: SourceView, file: ContentsView, f: Failure) -> bool {
    match source {
        SourceView::File(path, required) => match file {
            ContentsView::Missing => required && f == Failure::NotFound(path),
            ContentsView::Unparsable(m) => f == Failure::Unparsable(path, m),
            ContentsView::Found(_) => false,
        },
        SourceView::Variables(_, _) => false,
    }
}

/// A chain with a required file that was not found fails, and every failure
/// names a file of the chain that is missing though required, or that could
/// not be parsed: no partly merged settings come out.
pub proof fn missing_required_file_fails(
    sources: Seq<SourceView>,
    files: Seq<ContentsView>,
    vars: Seq<(Seq<char>, Seq<char>)>,
    n: nat,
)
    requires
        n <= sources.len(),
    ensures
        (exists|i: int|
            0 <= i < n && is_required_file(#[trigger] sources[i]) && loaded(files, i) is Missing)
            ==> resolved(sources, files, vars, n) is Err,
        resolved(sources, files, vars, n) is Err ==> exists|i: int|
            0 <= i < n && fails_with(
                #[trigger] sources[i],
                loaded(files, i),
                resolved(sources, files, vars, n)->Err_0,
            ),
    decreases n,
{
    if n > 0 {
        missing_required_file_fails(sources, files, vars, (n - 1) as nat);
        if resolved(sources, files, vars, (n - 1) as nat) is Ok && resolved(sources, files, vars, n) is Err {
            assert(fails_with(sources[n - 1], loaded(files, n - 1), resolved(sources, files, vars, n)->Err_0));
        }
    }
}

/// Environment variables have the last word: where the last source of a chain
/// is the variables' layer and it has a leaf at `p`, the resolved settings hold
/// that leaf's value at `p`, whatever the files say.
pub proof fn variables_override_files(
    sources: Seq<SourceView>,
    files: Seq<ContentsView>,
    vars: Seq<(Seq<char>, Seq<char>)>,
    p: Seq<Seq<char>>,
)
    requires
        sources.len() > 0,
        resolved(sources, files, vars, sources.len()) is Ok,
        sources.last() matches SourceView::Variables(prefix, separator) && lookup(
            variables_layer(prefix, separator, vars),
            p,
        ) is Some,
    ensures
        sources.last() matches SourceView::Variables(prefix, separator) && lookup(
            resolved(sources, files, vars, sources.len())->Ok_0,
            p,
        ) == lookup(variables_layer(prefix, separator, vars), p),
{
    let acc = resolved(sources, files, vars, (sources.len() - 1) as nat)->Ok_0;
    if let SourceView::Variables(prefix, separator) = sources.last() {
        later_layer_wins(acc, variables_layer(prefix, separator, vars), p);
    }
}

/// An environment variable sets its key path: where the last source of a
/// chain is the variables' layer, the variable at position `i` maps to the
/// path `p`, and no later variable maps to `p`, the resolved settings hold that
/// variable's value at `p`, whatever the files and the other variables hold.
pub proof fn variable_sets_resolved_value(
    sources: Seq<SourceView>,
    files: Seq<ContentsView>,
    vars: Seq<(Seq<char>, Seq<char>)>,
    i: int,
    p: Seq<Seq<char>>,
)
    requires
        sources.len() > 0,
        resolved(sources, files, vars, sources.len()) is Ok,
        0 <= i < vars.len(),
        sources.last() matches SourceView::Variables(prefix, separator) && maps_to_path(
            lower_of(prefix + separator),
            separator,
            vars[i],
            p,
        ) && forall|j: int|
            i < j < vars.len() ==> !maps_to_path(lower_of(prefix + separator), separator, #[trigger] vars[j], p),
    ensures
        lookup(resolved(sources, files, vars, sources.len())->Ok_0, p) == Some(vars[i].1),
{
    if let SourceView::Variables(prefix, separator) = sources.last() {
        last_variable_wins(lower_of(prefix + separator), separator, vars, i, p);
        variables_override_files(sources, files, vars, p);
    }
}

} // verus!
