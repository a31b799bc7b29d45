use typos::builtin::{case_correct, status_case_correct, BuiltIn, Override, Variants};
use typos::varcon::Category;
use typos::config::Locale;
use typos::dict::{Dictionary, NullDictionary, Status};
use typos::pattern::Pattern;
use typos::tokens::{Case, Identifier, Word};

#[test]
fn test_case_correct() {
    let cases = [
        ("foo", Case::Lower, "foo"),
        ("foo", Case::NoCase, "foo"),
        ("foo", Case::Title, "Foo"),
        ("foo", Case::Upper, "FOO"),
        ("fOo", Case::NoCase, "fOo"),
    ];
    for (correction, case, expected) in cases.iter() {
        let mut actual = String::from(*correction);
        case_correct(&mut actual, *case);
        assert_eq!(*expected, actual);
    }
}

#[test]
fn case_correct_keeps_non_ascii() {
    let mut s = String::from("éa");
    case_correct(&mut s, Case::Upper);
    assert_eq!(s, "éA");
}

#[test]
fn status_case_correct_each_correction() {
    let s = Status::Corrections(vec!["foo".to_owned(), "bar".to_owned()]);
    assert_eq!(
        status_case_correct(s, Case::Title),
        Status::Corrections(vec!["Foo".to_owned(), "Bar".to_owned()])
    );
    assert_eq!(status_case_correct(Status::Invalid, Case::Upper), Status::Invalid);
}

fn spellings(pairs: &[(Category, &str)]) -> Vec<(Category, Vec<String>)> {
    pairs.iter().map(|(c, s)| (*c, vec![s.to_string()])).collect()
}

fn sample_dict(locale: Locale) -> BuiltIn {
    let words = vec![
        ("finallizes".to_string(), vec!["finalizes".to_string()]),
        ("abandonned".to_string(), vec![]),
        ("colr".to_string(), vec!["color".to_string(), "collar".to_string(), "colour".to_string()]),
    ];
    let finalize_spellings = spellings(&[
        (Category::American, "finalizes"),
        (Category::BritishIse, "finalises"),
        (Category::BritishIze, "finalizes"),
        (Category::Canadian, "finalizes"),
        (Category::Australian, "finalises"),
    ]);
    let color_spellings = spellings(&[
        (Category::American, "color"),
        (Category::BritishIse, "colour"),
        (Category::BritishIze, "colour"),
        (Category::Canadian, "colour"),
        (Category::Australian, "colour"),
    ]);
    let vars = vec![
        (
            "finalizes".to_string(),
            Variants {
                valid_in: vec![Category::American, Category::BritishIze, Category::Canadian],
                spellings: finalize_spellings.clone(),
            },
        ),
        (
            "finalises".to_string(),
            Variants {
                valid_in: vec![Category::BritishIse, Category::Australian],
                spellings: finalize_spellings,
            },
        ),
        (
            "color".to_string(),
            Variants { valid_in: vec![Category::American], spellings: color_spellings.clone() },
        ),
        (
            "colour".to_string(),
            Variants {
                valid_in: vec![
                    Category::BritishIse,
                    Category::BritishIze,
                    Category::Canadian,
                    Category::Australian,
                ],
                spellings: color_spellings.clone(),
            },
        ),
        (
            "colur".to_string(),
            Variants { valid_in: vec![], spellings: color_spellings },
        ),
    ];
    BuiltIn::new(locale, words, vars)
}

fn corrections(list: &[&str]) -> Option<Status> {
    Some(Status::Corrections(list.iter().map(|s| s.to_string()).collect()))
}

fn lower(s: &str) -> Word {
    Word::new_unchecked(s, Case::Lower, 0)
}

#[test]
fn test_dict_correct() {
    let dict = sample_dict(Locale::default());
    let correction = dict.correct_word(&lower("finallizes"));
    assert_eq!(correction, corrections(&["finalizes"]));
}

#[test]
fn test_varcon_no_locale() {
    let dict = sample_dict(Locale::En);
    let correction = dict.correct_word(&lower("finalizes"));
    assert_eq!(correction, None);
}

#[test]
fn test_varcon_same_locale() {
    let dict = sample_dict(Locale::EnUs);
    let correction = dict.correct_word(&lower("finalizes"));
    assert_eq!(correction, Some(Status::Valid));
}

#[test]
fn test_varcon_different_locale() {
    let dict = sample_dict(Locale::EnGb);
    let correction = dict.correct_word(&lower("finalizes"));
    assert_eq!(correction, corrections(&["finalises"]));
}

#[test]
fn test_dict_to_varcon() {
    let dict = sample_dict(Locale::EnGb);
    let correction = dict.correct_word(&lower("finallizes"));
    assert_eq!(correction, corrections(&["finalises"]));
}

#[test]
fn builtin_ident_o_wronly_is_valid() {
    for locale in [Locale::En, Locale::EnUs, Locale::EnGb] {
        let dict = sample_dict(locale);
        let ident = Identifier::new_unchecked("O_WRONLY", Case::NoCase, 0);
        assert_eq!(dict.correct_ident(&ident), Some(Status::Valid));
        let other = Identifier::new_unchecked("O_RDONLY", Case::NoCase, 0);
        assert_eq!(dict.correct_ident(&other), None);
    }
    let empty = BuiltIn::new(Locale::EnGb, vec![], vec![]);
    let ident = Identifier::new_unchecked("O_WRONLY", Case::NoCase, 3);
    assert_eq!(empty.correct_ident(&ident), Some(Status::Valid));
}

#[test]
fn builtin_word_without_corrections_is_invalid() {
    let dict = sample_dict(Locale::EnUs);
    assert_eq!(dict.correct_word(&lower("abandonned")), Some(Status::Invalid));
    assert_eq!(dict.correct_word(&lower("unknownword")), None);
}

#[test]
fn builtin_chained_corrections_sorted_and_deduplicated() {
    // color -> colour, collar kept, colour stays: sorted, each once.
    let dict = sample_dict(Locale::EnGb);
    assert_eq!(dict.correct_word(&lower("colr")), corrections(&["collar", "colour"]));
    // Without a locale the list is kept as it is.
    let dict = sample_dict(Locale::En);
    assert_eq!(dict.correct_word(&lower("colr")), corrections(&["color", "collar", "colour"]));
    let dict = sample_dict(Locale::EnUs);
    assert_eq!(dict.correct_word(&lower("colr")), corrections(&["collar", "color"]));
}

#[test]
fn builtin_never_valid_variant_without_locale() {
    let dict = sample_dict(Locale::En);
    assert_eq!(dict.correct_word(&lower("colur")), None);
    let dict = sample_dict(Locale::EnCa);
    assert_eq!(dict.correct_word(&lower("colur")), corrections(&["colour"]));
}

#[test]
fn builtin_keeps_word_case_and_ignores_case_in_lookup() {
    let dict = sample_dict(Locale::EnGb);
    let title = Word::new_unchecked("Finallizes", Case::Title, 0);
    assert_eq!(dict.correct_word(&title), corrections(&["Finalises"]));
    let upper = Word::new_unchecked("FINALLIZES", Case::Upper, 0);
    assert_eq!(dict.correct_word(&upper), corrections(&["FINALISES"]));
    let none = Word::new_unchecked("finallizes", Case::NoCase, 0);
    assert_eq!(dict.correct_word(&none), None);
}

#[test]
fn builtin_through_dictionary_trait() {
    let dict = sample_dict(Locale::EnGb);
    assert_eq!(Dictionary::correct_word(&dict, &lower("finallizes")), corrections(&["finalises"]));
    let ident = Identifier::new_unchecked("O_WRONLY", Case::NoCase, 0);
    assert_eq!(Dictionary::correct_ident(&dict, &ident), Some(Status::Valid));
}

#[test]
fn override_words_ignore_case_and_last_wins() {
    let mut dict = Override::new(NullDictionary);
    dict.words(&vec![
        ("teh".to_owned(), "the".to_owned()),
        ("TEH".to_owned(), "thee".to_owned()),
        ("ok".to_owned(), "ok".to_owned()),
        ("bad".to_owned(), "".to_owned()),
    ]);
    let w = |s: &str| Word::new_unchecked(s, Case::Lower, 0);
    assert_eq!(
        Dictionary::correct_word(&dict, &w("Teh")),
        Some(Status::Corrections(vec!["thee".to_owned()]))
    );
    assert_eq!(Dictionary::correct_word(&dict, &w("ok")), Some(Status::Valid));
    assert_eq!(Dictionary::correct_word(&dict, &w("bad")), Some(Status::Invalid));
    assert_eq!(Dictionary::correct_word(&dict, &w("other")), None);
    let none_case = Word::new_unchecked("teh", Case::NoCase, 0);
    assert_eq!(Dictionary::correct_word(&dict, &none_case), None);
}

#[test]
fn override_identifiers_exact_and_patterns() {
    let mut dict = Override::new(NullDictionary);
    dict.identifiers(&vec![("Foo".to_owned(), "Bar".to_owned())]);
    dict.ignored_identifiers(vec![Pattern::new("^x[0-9]+$".to_owned()).unwrap()]);
    let i = |s: &str| Identifier::new_unchecked(s, Case::NoCase, 0);
    assert_eq!(
        Dictionary::correct_ident(&dict, &i("Foo")),
        Some(Status::Corrections(vec!["Bar".to_owned()]))
    );
    assert_eq!(Dictionary::correct_ident(&dict, &i("foo")), None);
    assert_eq!(Dictionary::correct_ident(&dict, &i("x12")), Some(Status::Valid));
}

#[test]
fn pattern_rejects_bad_regex() {
    assert!(Pattern::new("(".to_owned()).is_err());
    let p = Pattern::new("a+".to_owned()).unwrap();
    assert_eq!(p.as_str(), "a+");
    assert_eq!(p.find_spans("baab aa"), vec![(1, 3), (5, 7)]);
    assert!(p.is_match("xa"));
    assert!(!p.is_match("xyz"));
}
