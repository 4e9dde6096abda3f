use layered_config::layer::{get, merge, paths_conflict, Setting};
use layered_config::profile::{
    current_environment, Environment, Profile, DEFAULT_ENVIRONMENT, DEFAULT_PREFIX,
};
use layered_config::sources::{resolve, source_chain, ConfigError, FileContents, Source};
use layered_config::variables::environment_layer;

struct Settings;

impl Environment for Settings {}

struct Staged;

impl Environment for Staged {
    fn default_prefix() -> &'static str {
        "svc"
    }

    fn environment_file_required() -> bool {
        true
    }
}

fn path(keys: &[&str]) -> Vec<String> {
    keys.iter().map(|k| k.to_string()).collect()
}

fn leaf(keys: &[&str], value: &str) -> Setting {
    Setting::new(path(keys), value.to_string())
}

fn var(name: &str, value: &str) -> (String, String) {
    (name.to_string(), value.to_string())
}

fn base_layer() -> Vec<Setting> {
    vec![
        leaf(&["stage"], "base"),
        leaf(&["application", "address"], "0.0.0.0"),
        leaf(&["application", "port"], "8000"),
    ]
}

fn value_at(tree: &Vec<Setting>, keys: &[&str]) -> Option<String> {
    get(tree, &path(keys))
}

fn resolve_default(
    detected: Option<&str>,
    files: Vec<FileContents>,
    vars: Vec<(String, String)>,
) -> Result<Vec<Setting>, ConfigError> {
    let profile = Settings::profile();
    let environment = current_environment(&profile, detected.map(|d| d.to_string()));
    let chain = source_chain(&profile, Some("/srv/app".to_string()), &environment)?;
    resolve(&chain, &files, &vars)
}

#[test]
fn test_default_prefix() {
    assert_eq!("app", Settings::default_prefix());
}

#[test]
fn test_current_environment() {
    let profile = Settings::profile();
    assert_eq!("dev", current_environment(&profile, Some("dev".to_string())));
}

#[test]
fn test_parse_configuration() {
    let setting = resolve_default(
        Some("dev"),
        vec![FileContents::Found(base_layer()), FileContents::Missing],
        vec![var("APP_ENVIRONMENT", "dev")],
    );
    assert_eq!(true, setting.is_ok())
}

#[test]
fn test_parse_configuration_stage() {
    let setting = resolve_default(
        Some("dev"),
        vec![FileContents::Found(base_layer()), FileContents::Missing],
        vec![var("APP_ENVIRONMENT", "dev"), var("APP__STAGE", "abc")],
    )
    .ok()
    .unwrap();
    assert_eq!(Some("abc".to_string()), value_at(&setting, &["stage"]));
}

#[test]
fn test_parse_configuration_application_port() {
    let setting = resolve_default(
        None,
        vec![FileContents::Found(base_layer()), FileContents::Missing],
        vec![var("APP__APPLICATION__PORT", "80")],
    )
    .ok()
    .unwrap();
    let port: i32 = value_at(&setting, &["application", "port"]).unwrap().parse().unwrap();
    assert_eq!(80, port);
}

#[test]
fn unset_detector_selects_default_environment() {
    assert_eq!("dev", current_environment(&Profile::new(), None));
    assert_eq!("dev", current_environment(&Settings::profile(), None));
}

#[test]
fn default_environment_is_lower_cased() {
    let mut profile = Profile::new();
    profile.default_environment = "PRODUCTION".to_string();
    assert_eq!("production", current_environment(&profile, None));
}

#[test]
fn detector_value_is_used_as_given() {
    let profile = Profile::new();
    for token in ["local", "dev", "staging", "production"] {
        assert_eq!(token, current_environment(&profile, Some(token.to_string())));
    }
}

#[test]
fn default_knobs() {
    let profile = Profile::new();
    assert_eq!("app", profile.prefix);
    assert_eq!("__", profile.separator);
    assert_eq!("configuration", profile.configuration_dir);
    assert_eq!("dev", profile.default_environment);
    assert_eq!("APP_ENVIRONMENT", profile.environment_detector);
    assert!(!profile.environment_file_required);
    assert_eq!("__", Settings::default_separator());
    assert_eq!("configuration", Settings::default_configuration_dir());
    assert_eq!("dev", Settings::default_environment());
    assert_eq!("APP_ENVIRONMENT", Settings::default_environment_detector());
}

#[test]
fn overridden_knobs_reach_the_profile() {
    let profile = Staged::profile();
    assert_eq!("svc", profile.prefix);
    assert!(profile.environment_file_required);
}

#[test]
fn chain_lists_base_environment_file_and_variables() {
    let profile = Profile::new();
    let chain = source_chain(&profile, Some("/srv/app".to_string()), &"staging".to_string())
        .ok()
        .unwrap();
    assert_eq!(3, chain.len());
    assert!(matches!(&chain[0], Source::File { path, required: true }
        if path == "/srv/app/configuration/base"));
    assert!(matches!(&chain[1], Source::File { path, required: false }
        if path == "/srv/app/configuration/staging"));
    assert!(matches!(&chain[2], Source::Variables { prefix, separator }
        if prefix == "app" && separator == "__"));
}

#[test]
fn unknown_working_directory_is_an_error() {
    let result = source_chain(&Profile::new(), None, &"dev".to_string());
    assert!(matches!(result, Err(ConfigError::WorkingDirectory)));
}

#[test]
fn environment_file_overrides_base() {
    let present = resolve_default(
        Some("dev"),
        vec![FileContents::Found(vec![leaf(&["stage"], "x")]), FileContents::Found(vec![leaf(&["stage"], "y")])],
        vec![],
    )
    .ok()
    .unwrap();
    assert_eq!(Some("y".to_string()), value_at(&present, &["stage"]));
    let absent = resolve_default(Some("dev"), vec![FileContents::Found(vec![leaf(&["stage"], "x")]), FileContents::Missing], vec![])
        .ok()
        .unwrap();
    assert_eq!(Some("x".to_string()), value_at(&absent, &["stage"]));
}

#[test]
fn required_environment_file_missing_is_an_error() {
    let profile = Staged::profile();
    let chain = source_chain(&profile, Some("/srv".to_string()), &"dev".to_string()).ok().unwrap();
    let result = resolve(&chain, &vec![FileContents::Found(base_layer()), FileContents::Missing], &vec![]);
    assert!(matches!(result, Err(ConfigError::SourceNotFound { path })
        if path == "/srv/configuration/dev"));
}

#[test]
fn variable_overrides_both_files() {
    let tree = resolve_default(
        Some("dev"),
        vec![FileContents::Found(base_layer()), FileContents::Found(vec![leaf(&["application", "port"], "9000")])],
        vec![var("APP__APPLICATION__PORT", "80")],
    )
    .ok()
    .unwrap();
    assert_eq!(Some("80".to_string()), value_at(&tree, &["application", "port"]));
}

#[test]
fn missing_base_file_is_an_error() {
    let result = resolve_default(
        Some("dev"),
        vec![FileContents::Missing, FileContents::Found(vec![leaf(&["stage"], "y")])],
        vec![var("APP__STAGE", "abc")],
    );
    assert!(matches!(result, Err(ConfigError::SourceNotFound { path })
        if path == "/srv/app/configuration/base"));
    let nothing_read = resolve_default(Some("dev"), vec![], vec![]);
    assert!(matches!(nothing_read, Err(ConfigError::SourceNotFound { .. })));
}

#[test]
fn disjoint_layers_merge_into_their_union() {
    let a = vec![leaf(&["stage"], "a"), leaf(&["application", "address"], "::1")];
    let b = vec![leaf(&["application", "port"], "1"), leaf(&["name"], "b")];
    let ab = merge(&merge(&vec![], &a), &b);
    let ba = merge(&merge(&vec![], &b), &a);
    assert_eq!(4, ab.len());
    assert_eq!(4, ba.len());
    for keys in [&["stage"][..], &["application", "address"], &["application", "port"], &["name"]] {
        assert!(value_at(&ab, keys).is_some());
        assert_eq!(value_at(&ab, keys), value_at(&ba, keys));
    }
}

#[test]
fn resolved_scenario() {
    let tree = resolve_default(
        None,
        vec![FileContents::Found(base_layer()), FileContents::Found(vec![])],
        vec![var("APP__STAGE", "abc")],
    )
    .ok()
    .unwrap();
    assert_eq!(Some("abc".to_string()), value_at(&tree, &["stage"]));
    assert_eq!(Some("8000".to_string()), value_at(&tree, &["application", "port"]));
    assert_eq!(Some("0.0.0.0".to_string()), value_at(&tree, &["application", "address"]));
}

#[test]
fn later_leaf_replaces_earlier_table_and_scalar() {
    let earlier = vec![leaf(&["application", "port"], "1"), leaf(&["stage"], "s")];
    let later = vec![leaf(&["application"], "flat"), leaf(&["stage", "name"], "deep")];
    let tree = merge(&earlier, &later);
    assert_eq!(2, tree.len());
    assert_eq!(None, value_at(&tree, &["application", "port"]));
    assert_eq!(None, value_at(&tree, &["stage"]));
    assert_eq!(Some("flat".to_string()), value_at(&tree, &["application"]));
    assert_eq!(Some("deep".to_string()), value_at(&tree, &["stage", "name"]));
}

#[test]
fn conflicting_paths() {
    assert!(paths_conflict(&path(&["a"]), &path(&["a", "b"])));
    assert!(paths_conflict(&path(&["a", "b"]), &path(&["a"])));
    assert!(paths_conflict(&path(&["a", "b"]), &path(&["a", "b"])));
    assert!(!paths_conflict(&path(&["a", "b"]), &path(&["a", "c"])));
    assert!(!paths_conflict(&path(&["a"]), &path(&["b"])));
}

#[test]
fn variables_are_filtered_folded_and_split() {
    let vars = vec![
        var("APP_ENVIRONMENT", "dev"),
        var("App__Application__Port", "80"),
        var("APP__STAGE", "abc"),
        var("OTHER__STAGE", "no"),
        var("APP__A___B", "split"),
    ];
    let layer = environment_layer(&"app".to_string(), &"__".to_string(), &vars);
    assert_eq!(3, layer.len());
    assert_eq!(path(&["application", "port"]), layer[0].path);
    assert_eq!("80", layer[0].value);
    assert_eq!(path(&["stage"]), layer[1].path);
    assert_eq!(path(&["a", "_b"]), layer[2].path);
}

#[test]
fn empty_separator_keeps_the_whole_name() {
    let vars = vec![var("APPSTAGE__X", "1"), var("OTHER", "2")];
    let layer = environment_layer(&"APP".to_string(), &"".to_string(), &vars);
    assert_eq!(1, layer.len());
    assert_eq!(path(&["stage__x"]), layer[0].path);
}

#[test]
fn lookup_takes_the_last_leaf() {
    let tree = vec![leaf(&["k"], "1"), leaf(&["k"], "2")];
    assert_eq!(Some("2".to_string()), value_at(&tree, &["k"]));
    assert_eq!(None, value_at(&tree, &["j"]));
}

fn hosts(values: &[&str]) -> Vec<Setting> {
    values
        .iter()
        .enumerate()
        .map(|(i, v)| leaf(&["hosts", &format!("[{}]", i)], v))
        .collect()
}

#[test]
fn later_array_replaces_earlier_array_wholesale() {
    let mut base = hosts(&["a", "b", "c"]);
    base.push(leaf(&["stage"], "base"));
    let tree = resolve_default(
        Some("dev"),
        vec![FileContents::Found(base), FileContents::Found(hosts(&["x"]))],
        vec![],
    )
    .ok()
    .unwrap();
    assert_eq!(Some("x".to_string()), value_at(&tree, &["hosts", "[0]"]));
    assert_eq!(None, value_at(&tree, &["hosts", "[1]"]));
    assert_eq!(None, value_at(&tree, &["hosts", "[2]"]));
    assert_eq!(Some("base".to_string()), value_at(&tree, &["stage"]));
}

#[test]
fn later_empty_array_clears_earlier_array() {
    let tree = merge(&hosts(&["a", "b"]), &vec![leaf(&["hosts", "[]"], "")]);
    assert_eq!(1, tree.len());
    assert_eq!(path(&["hosts", "[]"]), tree[0].path);
    assert!(paths_conflict(&path(&["hosts", "[0]", "name"]), &path(&["hosts", "[3]"])));
    assert!(!paths_conflict(&path(&["hosts", "[0]"]), &path(&["ports", "[0]"])));
}

#[test]
fn unparsable_file_is_an_error() {
    let result = resolve_default(
        Some("dev"),
        vec![FileContents::Found(base_layer()), FileContents::Unparsable("bad line 3".to_string())],
        vec![],
    );
    assert!(matches!(result, Err(ConfigError::Parse { path, message })
        if path == "/srv/app/configuration/dev" && message == "bad line 3"));
}

#[test]
fn missing_base_is_reported_before_unparsable_environment_file() {
    let result = resolve_default(
        Some("dev"),
        vec![FileContents::Missing, FileContents::Unparsable("bad".to_string())],
        vec![],
    );
    assert!(matches!(result, Err(ConfigError::SourceNotFound { path })
        if path == "/srv/app/configuration/base"));
}

#[test]
fn port_variable_wins_among_other_variables() {
    let tree = resolve_default(
        Some("dev"),
        vec![FileContents::Found(base_layer()), FileContents::Found(vec![leaf(&["application", "port"], "1")])],
        vec![
            var("APP__STAGE", "abc"),
            var("APP__APPLICATION__PORT", "80"),
            var("APP__APPLICATION__ADDRESS", "127.0.0.1"),
            var("HOME", "/root"),
        ],
    )
    .ok()
    .unwrap();
    assert_eq!(Some("80".to_string()), value_at(&tree, &["application", "port"]));
    assert_eq!(Some("127.0.0.1".to_string()), value_at(&tree, &["application", "address"]));
}

#[test]
fn default_constants_feed_both_profiles() {
    assert_eq!(DEFAULT_PREFIX, Profile::new().prefix);
    assert_eq!(DEFAULT_PREFIX, Settings::profile().prefix);
    assert_eq!(DEFAULT_ENVIRONMENT, Settings::profile().default_environment);
}
