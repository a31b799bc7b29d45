use typos::builtin::Variants;
use typos::varcon::Category;
use typos::config::{Config, DictConfig, EngineConfig, GlobEngineConfig, Locale, TokenizerConfig};
use typos::dict::{Dictionary, Status};
use typos::engine::{engine_settings, file_engine};
use typos::tokens::{Case, Identifier, Word};

#[test]
fn engine_settings_default_then_type_then_overrides() {
    let mut config = Config::default();
    config.default.binary = Some(true);
    config.default.check_file = Some(false);
    let mut po = GlobEngineConfig::default();
    po.extend_glob.push("*.po".to_owned());
    po.engine.check_file = Some(true);
    po.engine.check_filename = Some(false);
    config.type_.insert("po", po);
    config.overrides.binary = Some(false);

    let plain = engine_settings(&config, None);
    assert_eq!(plain.binary, Some(false));
    assert_eq!(plain.check_file, Some(false));
    assert_eq!(plain.check_filename, None);

    let typed = engine_settings(&config, Some("po"));
    assert_eq!(typed.binary, Some(false));
    assert_eq!(typed.check_file, Some(true));
    assert_eq!(typed.check_filename, Some(false));

    let unknown = engine_settings(&config, Some("nonesuch"));
    assert_eq!(unknown.check_file, Some(false));
}

#[test]
fn file_engine_from_empty_settings() {
    let engine = file_engine(&EngineConfig::default(), vec![], vec![]).unwrap();
    assert!(!engine.binary);
    assert!(engine.check_filenames);
    assert!(engine.check_files);
    assert!(engine.ignore.is_empty());
    let ident = Identifier::new_unchecked("O_WRONLY", Case::NoCase, 0);
    assert_eq!(Dictionary::correct_ident(&engine.dict, &ident), Some(Status::Valid));
}

#[test]
fn file_engine_carries_dictionary_overrides() {
    let mut settings = EngineConfig::default();
    let mut tokenizer = TokenizerConfig::default();
    tokenizer.ignore_hex = Some(false);
    settings.tokenizer = Some(tokenizer);
    let mut dict = DictConfig::default();
    dict.locale = Some(Locale::EnGb);
    dict.extend_words = vec![("teh".to_owned(), "the".to_owned())];
    dict.extend_ignore_identifiers_re = vec!["^foo_.*".to_owned()];
    settings.dict = Some(dict);
    settings.extend_ignore_re = vec!["x+".to_owned()];
    let engine = file_engine(&settings, vec![], vec![]).unwrap();
    assert_eq!(engine.ignore.len(), 1);
    let word = Word::new_unchecked("teh", Case::Lower, 0);
    assert_eq!(
        Dictionary::correct_word(&engine.dict, &word),
        Some(Status::Corrections(vec!["the".to_owned()]))
    );
    let ident = Identifier::new_unchecked("foo_bar", Case::NoCase, 0);
    assert_eq!(Dictionary::correct_ident(&engine.dict, &ident), Some(Status::Valid));
}

#[test]
fn file_engine_refuses_a_bad_pattern() {
    let mut settings = EngineConfig::default();
    settings.extend_ignore_re = vec!["(".to_owned()];
    assert!(file_engine(&settings, vec![], vec![]).is_err());
    let mut settings = EngineConfig::default();
    let mut dict = DictConfig::default();
    dict.extend_ignore_identifiers_re = vec!["[".to_owned()];
    settings.dict = Some(dict);
    assert!(file_engine(&settings, vec![], vec![]).is_err());
}

#[test]
fn file_engine_uses_the_supplied_tables() {
    let mut settings = EngineConfig::default();
    let mut dict = DictConfig::default();
    dict.locale = Some(Locale::EnGb);
    settings.dict = Some(dict);
    let words = vec![("finallizes".to_owned(), vec!["finalizes".to_owned()])];
    let vars = vec![(
        "finalizes".to_owned(),
        Variants {
            valid_in: vec![Category::American],
            spellings: vec![
                (Category::American, vec!["finalizes".to_owned()]),
                (Category::BritishIse, vec!["finalises".to_owned()]),
            ],
        },
    )];
    let engine = file_engine(&settings, words, vars).unwrap();
    let word = Word::new_unchecked("finallizes", Case::Lower, 0);
    assert_eq!(
        Dictionary::correct_word(&engine.dict, &word),
        Some(Status::Corrections(vec!["finalises".to_owned()]))
    );
}
