use typos::args::{resolve_bool_arg, ConfigArgs, FileArgs, Format, WalkArgs};
use typos::config::{
    Config, DictConfig, EngineConfig, GlobEngineConfig, Locale, TokenizerConfig, TypeEngineConfig,
    Walk,
};

#[test]
fn test_from_defaults() {
    let null = Config::default();
    let defaulted = Config::from_defaults();
    assert_ne!(defaulted, null);
    assert_ne!(defaulted.files, null.files);
    assert_ne!(defaulted.default, null.default);
    assert_ne!(defaulted.default.tokenizer, null.default.tokenizer);
    assert_ne!(defaulted.default.dict, null.default.dict);
}

#[test]
fn test_update_from_nothing() {
    let null = Config::default();
    let defaulted = Config::from_defaults();

    let mut actual = Config::from_defaults();
    actual.update(&null);

    assert_eq!(actual, defaulted);
}

#[test]
fn test_update_from_defaults() {
    let null = Config::default();
    let defaulted = Config::from_defaults();

    let mut actual = null;
    actual.update(&defaulted);

    assert_eq!(actual.files, defaulted.files);
    assert_eq!(actual.default, defaulted.default);
    assert_eq!(actual.overrides, defaulted.overrides);
    for name in ["cert", "lock", "cpp", "rust", "py"] {
        assert_eq!(actual.type_.get(name), defaulted.type_.get(name));
    }
}

#[test]
fn test_extend_glob_updates() {
    let null = GlobEngineConfig::default();
    let extended = GlobEngineConfig { extend_glob: vec!["*.foo".into()], engine: EngineConfig::default() };

    let mut actual = null;
    actual.update(&extended);

    assert_eq!(actual, extended);
}

#[test]
fn test_extend_glob_extends() {
    let base = GlobEngineConfig { extend_glob: vec!["*.foo".into()], engine: EngineConfig::default() };
    let extended = GlobEngineConfig { extend_glob: vec!["*.bar".into()], engine: EngineConfig::default() };

    let mut actual = base;
    actual.update(&extended);

    let expected: Vec<String> = vec!["*.foo".into(), "*.bar".into()];
    assert_eq!(actual.extend_glob, expected);
}

#[test]
fn type_defaults_skip_locks_and_allow_language_terms() {
    let types = TypeEngineConfig::from_defaults();
    assert_eq!(types.get("lock").unwrap().engine.check_file, Some(false));
    let rust = types.get("rust").unwrap();
    let dict = rust.engine.dict.as_ref().unwrap();
    assert_eq!(dict.extend_identifiers, vec![("flate2".to_owned(), "flate2".to_owned())]);
    assert_eq!(dict.extend_words, vec![("ser".to_owned(), "ser".to_owned())]);
    assert!(types.get("md").is_none());
}

#[test]
fn type_update_merges_into_defaults() {
    let mut user = TypeEngineConfig::default();
    let mut po = GlobEngineConfig::default();
    po.extend_glob.push("*.po".to_owned());
    po.engine.check_file = Some(true);
    user.insert("po", po);
    let mut lock = GlobEngineConfig::default();
    lock.extend_glob.push("*.lck".to_owned());
    user.insert("lock", lock);
    let merged = user.patterns();
    assert_eq!(merged.get("po").unwrap().engine.check_file, Some(true));
    let lock = merged.get("lock").unwrap();
    assert_eq!(lock.extend_glob, vec!["*.lck".to_owned()]);
    assert_eq!(lock.engine.check_file, Some(false));
}

#[test]
fn walk_update_ignore_files_resets_finer_settings() {
    let mut base = Walk::from_defaults();
    let mut source = Walk::default();
    source.ignore_files = Some(false);
    base.update(&source);
    assert_eq!(base.ignore_files, Some(false));
    assert_eq!(base.ignore_dot, None);
    assert!(!base.ignore_dot());
    assert!(!base.ignore_vcs());
    assert!(base.ignore_hidden());
}

#[test]
fn engine_update_nested() {
    let mut base = EngineConfig::from_defaults();
    let mut source = EngineConfig::default();
    let mut tok = TokenizerConfig::default();
    tok.ignore_hex = Some(false);
    source.tokenizer = Some(tok);
    let mut dict = DictConfig::default();
    dict.locale = Some(Locale::EnGb);
    source.dict = Some(dict);
    source.extend_ignore_re.push("x".to_owned());
    base.update(&source);
    let t = base.tokenizer.unwrap();
    assert_eq!(t.ignore_hex, Some(false));
    assert_eq!(t.unicode, Some(true));
    assert_eq!(base.dict.as_ref().unwrap().locale(), Locale::EnGb);
    assert_eq!(base.extend_ignore_re(), &["x".to_owned()][..]);
}

#[test]
fn resolve_bool_arg_values() {
    assert_eq!(resolve_bool_arg(true, false), Some(true));
    assert_eq!(resolve_bool_arg(false, true), Some(false));
    assert_eq!(resolve_bool_arg(false, false), None);
}

fn file_args() -> FileArgs {
    FileArgs {
        binary: false,
        no_binary: true,
        no_check_filenames: false,
        check_filenames: false,
        no_check_files: false,
        check_files: true,
        unicode: false,
        no_unicode: true,
        locale: Some(Locale::EnUs),
    }
}

fn walk_args() -> WalkArgs {
    WalkArgs {
        exclude: vec!["target".to_owned()],
        hidden: true,
        no_hidden: false,
        no_ignore: false,
        ignore: false,
        no_ignore_dot: true,
        ignore_dot: false,
        no_ignore_global: false,
        ignore_global: false,
        no_ignore_parent: false,
        ignore_parent: false,
        no_ignore_vcs: false,
        ignore_vcs: false,
    }
}

#[test]
fn file_args_to_config() {
    let c = file_args().to_config();
    assert_eq!(c.binary, Some(false));
    assert_eq!(c.check_filename, None);
    assert_eq!(c.check_file, Some(true));
    assert_eq!(c.tokenizer.unwrap().unicode, Some(false));
    assert_eq!(c.dict.as_ref().unwrap().locale, Some(Locale::EnUs));
}

#[test]
fn walk_args_to_config() {
    let w = walk_args().to_config();
    assert_eq!(w.extend_exclude, vec!["target".to_owned()]);
    assert_eq!(w.ignore_hidden, Some(false));
    assert_eq!(w.ignore_files, None);
    assert_eq!(w.ignore_dot, Some(false));
}

#[test]
fn config_args_to_config() {
    let args = ConfigArgs { walk: walk_args(), overrides: file_args() };
    let c = args.to_config();
    assert_eq!(c.files, walk_args().to_config());
    assert_eq!(c.overrides, file_args().to_config());
    assert_eq!(c.default, EngineConfig::default());
    assert_eq!(Format::default(), Format::Long);
}

#[test]
fn locale_categories() {
    assert_eq!(Locale::En.category(), None);
    assert_eq!(Locale::EnGb.category(), Some(typos::varcon::Category::BritishIse));
    assert_eq!(Locale::variants(), ["en", "en-us", "en-gb", "en-ca", "en-au"]);
}
