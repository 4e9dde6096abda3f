//! The knobs that govern how one settings type is resolved, and the choice
//! of the active deployment environment.
use vstd::prelude::*;
use vstd::string::*;
use crate::text::{ascii_lowered, is_ascii_text, lower_of, lowercase};

verus! {

/// The prefix of the overriding environment variables, unless a type sets its own.
pub const DEFAULT_PREFIX: &'static str = "app";

/// The separator of key-path segments in variable names, unless a type sets its own.
pub const DEFAULT_SEPARATOR: &'static str = "__";

/// The directory of the configuration files, unless a type sets its own.
pub const DEFAULT_CONFIGURATION_DIR: &'static str = "configuration";

/// The environment used when the detector variable is unset, unless a type sets its own.
pub const DEFAULT_ENVIRONMENT: &'static str = "dev";

/// The variable that selects the environment, unless a type sets its own.
pub const DEFAULT_ENVIRONMENT_DETECTOR: &'static str = "APP_ENVIRONMENT";

/// The knobs of one settings type.
#[derive(Debug)]
pub struct Profile {
    /// Environment variables whose names start with this prefix (then the
    /// separator) override settings.
    pub prefix: String,
    /// Separates the segments of a key path in an environment variable's name.
    pub separator: String,
    /// The directory, under the working directory, that holds the files.
    pub configuration_dir: String,
    /// The environment used when the detector variable is unset.
    pub default_environment: String,
    /// The name of the variable that selects the environment.
    pub environment_detector: String,
    /// Whether the file of the active environment must exist.
    pub environment_file_required: bool,
}

impl Profile {
    /// The default knobs: prefix `app`, separator `__`, directory
    /// `configuration`, environment `dev`, detector `APP_ENVIRONMENT`, and an
    /// environment file that may be absent.
    pub fn new() -> (p: Profile)
        ensures
            p.prefix@ == "app"@,
            p.separator@ == "__"@,
            p.configuration_dir@ == "configuration"@,
            p.default_environment@ == "dev"@,
            p.environment_detector@ == "APP_ENVIRONMENT"@,
            !p.environment_file_required,
    {
        Profile {
            prefix: String::from_str(DEFAULT_PREFIX),
            separator: String::from_str(DEFAULT_SEPARATOR),
            configuration_dir: String::from_str(DEFAULT_CONFIGURATION_DIR),
            default_environment: String::from_str(DEFAULT_ENVIRONMENT),
            environment_detector: String::from_str(DEFAULT_ENVIRONMENT_DETECTOR),
            environment_file_required: false,
        }
    }
}

/// The knobs of a settings type; each has a default that the type may override.
pub trait Environment {
    /// The prefix of the overriding environment variables.
    fn default_prefix() -> &'static str {
        DEFAULT_PREFIX
    }

    /// The separator of key-path segments in variable names.
    fn default_separator() -> &'static str {
        DEFAULT_SEPARATOR
    }

    /// The directory that holds the configuration files.
    fn default_configuration_dir() -> &'static str {
        DEFAULT_CONFIGURATION_DIR
    }

    /// The environment used when the detector variable is unset.
    fn default_environment() -> &'static str {
        DEFAULT_ENVIRONMENT
    }

    /// The variable that selects the environment.
    fn default_environment_detector() -> &'static str {
        DEFAULT_ENVIRONMENT_DETECTOR
    }

    /// Whether the active environment's file must exist.
    fn environment_file_required() -> bool {
        false
    }

    /// The knobs gathered into one value.
    fn profile() -> Profile {
        Profile {
            prefix: String::from_str(Self::default_prefix()),
            separator: String::from_str(Self::default_separator()),
            configuration_dir: String::from_str(Self::default_configuration_dir()),
            default_environment: String::from_str(Self::default_environment()),
            environment_detector: String::from_str(Self::default_environment_detector()),
            environment_file_required: Self::environment_file_required(),
        }
    }
}

/// The active environment, given what the detector variable holds: its value
/// as it stands when set, else the default environment lower-cased.
pub open spec fn environment_of(default_environment: Seq<char>, detected: Option<Seq<char>>) -> Seq<char> {
    match detected {
        Some(v) => v,
        None => lower_of(default_environment),
    }
}

/// The active environment, given the value of the detector variable (`None`
/// when it is unset or not valid Unicode). A value that is set is taken as it
/// stands, with no change of case: the environment names are lower-case
/// (`local`, `dev`, `staging`, `production`), and a name given in another case
/// selects the file of that exact name. Only the default is lower-cased.
pub fn current_environment(profile: &Profile, detected: Option<String>) -> (r: String)
    ensures
        r@ == environment_of(profile.default_environment@, match detected {
            Some(v) => Some(v@),
            None => None,
        }),
        detected is None && is_ascii_text(profile.default_environment@) ==> r@ == ascii_lowered(
            profile.default_environment@,
        ),
{
    match detected {
        Some(v) => v,
        None => lowercase(profile.default_environment.as_str()),
    }
}

/// The default environment `dev` is ASCII text that lower-casing keeps as it
/// is, so with the detector variable unset `current_environment` returns `dev`.
pub proof fn default_environment_is_dev()
    ensures
        is_ascii_text("dev"@),
        ascii_lowered("dev"@) == "dev"@,
{
    reveal_strlit("dev");
    assert(ascii_lowered("dev"@) =~= "dev"@);
}

} // verus!
