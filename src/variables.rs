//! The layer that environment variables make: those whose lower-cased name
//! starts with the lower-cased prefix and separator, each split into a key
//! path on the separator.
use vstd::prelude::*;
use vstd::string::*;
use crate::layer::{layer_view, lookup, Leaf, Setting};
use crate::text::{is_prefix, lower_of, lowercase, split, split_spec, starts_with, strings_view};

verus! {

/// The key path that the rest of a variable's name makes.
pub open spec fn key_path(rest: Seq<char>, separator: Seq<char>) -> Seq<Seq<char>> {
    if separator.len() == 0 {
        seq![rest]
    } else {
        split_spec(rest, separator)
    }
}

/// The leaf that one variable makes, if its name carries the pattern.
pub open spec fn variable_leaf(
    pattern: Seq<char>,
    separator: Seq<char>,
    name: Seq<char>,
    value: Seq<char>,
) -> Option<Leaf> {
    let key = lower_of(name);
    if is_prefix(pattern, key) {
        Some((key_path(key.subrange(pattern.len() as int, key.len() as int), separator), value))
    } else {
        None
    }
}

/// The leaves that the variables `vars` (name, value) make, in their order.
pub open spec fn variables_leaves(
    pattern: Seq<char>,
    separator: Seq<char>,
    vars: Seq<(Seq<char>, Seq<char>)>,
) -> Seq<Leaf>
    decreases vars.len(),
{
    if vars.len() == 0 {
        seq![]
    } else {
        let rest = variables_leaves(pattern, separator, vars.drop_last());
        match variable_leaf(pattern, separator, vars.last().0, vars.last().1) {
            Some(l) => rest.push(l),
            None => rest,
        }
    }
}

/// The variable maps to a leaf at the path `p`.
pub open spec fn maps_to_path(
    pattern: Seq<char>,
    separator: Seq<char>,
    var: (Seq<char>, Seq<char>),
    p: Seq<Seq<char>>,
) -> bool {
    match variable_leaf(pattern, separator, var.0, var.1) {
        Some(l) => l.0 == p,
        None => false,
    }
}

/// The variable at position `i` decides the value at its path `p` unless a
/// later variable maps to `p` too.
pub proof fn last_variable_wins(
    pattern: Seq<char>,
    separator: Seq<char>,
    vars: Seq<(Seq<char>, Seq<char>)>,
    i: int,
    p: Seq<Seq<char>>,
)
    requires
        0 <= i < vars.len(),
        maps_to_path(pattern, separator, vars[i], p),
        forall|j: int| i < j < vars.len() ==> !maps_to_path(pattern, separator, #[trigger] vars[j], p),
    ensures
        lookup(variables_leaves(pattern, separator, vars), p) == Some(vars[i].1),
    decreases vars.len(),
{
    let rest = variables_leaves(pattern, separator, vars.drop_last());
    if i < vars.len() - 1 {
        assert(!maps_to_path(pattern, separator, vars[vars.len() - 1], p));
        last_variable_wins(pattern, separator, vars.drop_last(), i, p);
        if let Some(l) = variable_leaf(pattern, separator, vars.last().0, vars.last().1) {
            assert(rest.push(l).drop_last() =~= rest);
        }
    }
}

/// The layer of the variables `vars` under `prefix` and `separator`.
pub open spec fn variables_layer(
    prefix: Seq<char>,
    separator: Seq<char>,
    vars: Seq<(Seq<char>, Seq<char>)>,
) -> Seq<Leaf> {
    variables_leaves(lower_of(prefix + separator), separator, vars)
}

/// The views of a list of (name, value) pairs.
pub open spec fn vars_view(v: Seq<(String, String)>) -> Seq<(Seq<char>, Seq<char>)> {
    v.map_values(|x: (String, String)| (x.0@, x.1@))
}

/// Builds the layer of the variables `vars`, given as (name, value) pairs.
pub fn environment_layer(prefix: &String, separator: &String, vars: &Vec<(String, String)>) -> (r: Vec<
    Setting,
>)
    ensures
        layer_view(r@) == variables_layer(prefix@, separator@, vars_view(vars@)),
{
    let joined = prefix.clone().concat(separator.as_str());
    let pattern = lowercase(joined.as_str());
    let plen = pattern.as_str().unicode_len();
    let ghost vs = vars_view(vars@);
    let mut r: Vec<Setting> = Vec::new();
    let mut i: usize = 0;
    while i < vars.len()
        invariant
            i <= vars.len(),
            vs == vars_view(vars@),
            pattern@ == lower_of(prefix@ + separator@),
            plen == pattern@.len(),
            layer_view(r@) == variables_leaves(pattern@, separator@, vs.subrange(0, i as int)),
        decreases vars.len() - i,
    {
        let ghost before = layer_view(r@);
        assert(vs.subrange(0, i + 1).drop_last() =~= vs.subrange(0, i as int));
        let key = lowercase(vars[i].0.as_str());
        if starts_with(key.as_str(), pattern.as_str()) {
            let klen = key.as_str().unicode_len();
            let rest = key.as_str().substring_char(plen, klen);
            let path: Vec<String> = if separator.as_str().unicode_len() == 0 {
                let v: Vec<String> = vec![String::from_str(rest)];
                assert(strings_view(v@) =~= seq![rest@]);
                v
            } else {
                split(rest, separator.as_str())
            };
            r.push(Setting::new(path, vars[i].1.clone()));
            assert(layer_view(r@) =~= before.push(
                variable_leaf(pattern@, separator@, vs[i as int].0, vs[i as int].1)->Some_0,
            ));
        }
        i += 1;
    }
    assert(vs.subrange(0, vars.len() as int) =~= vs);
    r
}

} // verus!
