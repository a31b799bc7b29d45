use typos::file_type::{Types, TypesBuilder};

fn types() -> &'static [(&'static str, &'static [&'static str])] {
    &[
        ("html", &["*.html", "*.htm"]),
        ("js", &["*.js"]),
        ("json", &["*.json"]),
        ("lock", &["package-lock.json", "*.lock"]),
        ("js-in", &["*.js.in"]),
    ]
}

fn in_types() -> &'static [(&'static str, &'static [&'static str])] {
    &[("html", &["*.html", "*.htm"]), ("in-canary", &["*.in"])]
}

fn build(defs: &[(&str, &[&str])]) -> Types {
    let mut btypes = TypesBuilder::new();
    for (name, globs) in defs {
        for glob in *globs {
            btypes.add(name, glob);
        }
    }
    btypes.build().unwrap()
}

fn matched(defs: &[(&str, &[&str])], path: &str, expected: Option<&str>) {
    let types = build(defs);
    let actual = types.file_matched(path);
    assert_eq!(expected, actual, "{}", path);
}

#[test]
fn basic_match() {
    matched(types(), "leftpad.js", Some("js"));
}

#[test]
fn multi_def_1() {
    matched(types(), "index.html", Some("html"));
}

#[test]
fn multi_def_2() {
    matched(types(), "index.htm", Some("html"));
}

#[test]
fn no_match() {
    matched(types(), "leftpad.ada", None);
}

#[test]
fn more_specific() {
    matched(types(), "package-lock.json", Some("lock"));
}

#[test]
fn basic_in() {
    matched(types(), "index.html.in", Some("html"));
}

#[test]
fn basic_in_in() {
    matched(types(), "index.html.in.in", Some("html"));
}

#[test]
fn ext_plus_in() {
    matched(types(), "foo.js.in", Some("js-in"));
}

#[test]
fn toplevel_in() {
    matched(in_types(), "index.html.in", Some("in-canary"));
}

#[test]
fn match_uses_the_file_name_of_a_path() {
    matched(types(), "src/lib/leftpad.js", Some("js"));
    matched(types(), "deps/package-lock.json", Some("lock"));
}

#[test]
fn no_file_name_no_type() {
    matched(types(), "..", None);
    matched(types(), "", None);
}

#[test]
fn dot_in_alone_is_no_extension() {
    matched(types(), ".in", None);
}

#[test]
fn equal_globs_order_by_when_their_type_came() {
    // the same glob for two types: the type added later wins
    matched(&[("b", &["x"]), ("a", &["x"])], "x", Some("a"));
}

#[test]
fn partial_wildcard_is_less_specific_than_literal() {
    matched(&[("literal", &["a_specific"]), ("partial", &["a_spec*"])], "a_specific", Some("literal"));
}

#[test]
fn nested_globs_order_from_the_last_part() {
    matched(
        &[("one", &["z.partial*"]), ("two", &["z*.partial"]), ("three", &["a.specific"])],
        "z.partial",
        Some("two"),
    );
}

#[test]
fn longer_extension_is_more_specific() {
    matched(&[("txt-in", &["*.txt.in"]), ("in", &["*.in"])], "a.txt.in", Some("txt-in"));
}

#[test]
fn contains_name_after_add() {
    let mut b = TypesBuilder::new();
    assert!(!b.contains_name("js"));
    b.add("js", "*.js");
    assert!(b.contains_name("js"));
    assert!(!b.contains_name("j"));
}

#[test]
fn definitions_group_globs_by_owner() {
    let types = build(types());
    let defs: Vec<(String, Vec<String>)> = types.definitions().clone();
    let expected: Vec<(String, Vec<String>)> = vec![
        ("html".to_owned(), vec!["*.htm".to_owned(), "*.html".to_owned()]),
        ("js".to_owned(), vec!["*.js".to_owned()]),
        ("js-in".to_owned(), vec!["*.js.in".to_owned()]),
        ("json".to_owned(), vec!["*.json".to_owned()]),
        ("lock".to_owned(), vec!["*.lock".to_owned(), "package-lock.json".to_owned()]),
    ];
    assert_eq!(defs, expected);
}

#[test]
fn definitions_give_a_shared_glob_to_its_last_owner() {
    let types = build(&[("a", &["*.x", "*.a"]), ("b", &["*.x"])]);
    let defs: Vec<(String, Vec<String>)> = types.definitions().clone();
    let expected: Vec<(String, Vec<String>)> = vec![
        ("a".to_owned(), vec!["*.a".to_owned()]),
        ("b".to_owned(), vec!["*.x".to_owned()]),
    ];
    assert_eq!(defs, expected);
}

#[test]
fn bad_glob_is_an_error() {
    let mut b = TypesBuilder::new();
    b.add("bad", "a[");
    assert!(b.build().is_err());
}
