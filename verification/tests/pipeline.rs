use bac_nickname::aggregate::{parse_and_merge, SourceFile};
use bac_nickname::json::{merge, Json};
use bac_nickname::resolve::{get_progress, ResolveError};
use bac_nickname::template::{replace_with_progress, to_decimal};

fn num(text: &str) -> Json {
    Json::Number(text.to_string())
}

fn obj(entries: Vec<(&str, Json)>) -> Json {
    Json::Object(entries.into_iter().map(|(k, v)| (k.to_string(), v)).collect())
}

fn file(name: &str, content: &str) -> SourceFile {
    SourceFile {
        name: name.to_string(),
        content: content.to_string(),
    }
}

fn test_json() -> Json {
    obj(vec![(
        "advancement",
        obj(vec![("criteria", obj(vec![("one", num("0")), ("two", num("0"))]))]),
    )])
}

#[test]
fn get_progress_test() {
    let j = test_json();

    assert!(get_progress(&j, "advancement").is_ok_and(|x| x == 2usize));
    assert!(get_progress(&j, "blah").is_err());
}

#[test]
fn replace_test() {
    let input: &str = "Name (advancement)/69";
    let output = String::from("Name 2/69");

    assert_eq!(replace_with_progress(input, &test_json()), output);
}

#[test]
fn parse_and_merge_test() {
    let files = vec![
        file("file1.json", "{\"advancement\": {\"criteria\": {\"first\": 0}}}"),
        file("file2.json", "{\"advancement\": {\"criteria\": {\"second\": 0}}}"),
        file("non-json-file.txt", "Hello world!"),
    ];

    let expected = obj(vec![(
        "advancement",
        obj(vec![(
            "criteria",
            obj(vec![("first", num("0")), ("second", num("0"))]),
        )]),
    )]);

    assert_eq!(parse_and_merge(&files).unwrap(), expected);
}

#[test]
fn round_trip_scenario() {
    let tree = obj(vec![(
        "adv",
        obj(vec![("criteria", obj(vec![("one", num("0")), ("two", num("0"))]))]),
    )]);

    assert_eq!(replace_with_progress("Name (adv)/69", &tree), "Name 2/69");
}

#[test]
fn unresolvable_identifier_leaves_template_unchanged() {
    let tree = obj(vec![]);

    assert_eq!(
        replace_with_progress("Name (missing)/1", &tree),
        "Name (missing)/1"
    );
}

#[test]
fn template_without_parentheses_is_unchanged() {
    let tree = test_json();

    assert_eq!(replace_with_progress("plain text", &tree), "plain text");
    assert_eq!(replace_with_progress("", &tree), "");
}

#[test]
fn resolve_error_variants() {
    let no_criteria = obj(vec![("adv", obj(vec![("done", num("1"))]))]);
    let scalar_criteria = obj(vec![("adv", obj(vec![("criteria", num("3"))]))]);
    let scalar_node = obj(vec![("adv", num("3"))]);

    assert_eq!(
        get_progress(&test_json(), "blah"),
        Err(ResolveError::UnknownIdentifier)
    );
    assert_eq!(
        get_progress(&no_criteria, "adv"),
        Err(ResolveError::MissingCriteria)
    );
    assert_eq!(
        get_progress(&scalar_criteria, "adv"),
        Err(ResolveError::MissingCriteria)
    );
    assert_eq!(
        get_progress(&scalar_node, "adv"),
        Err(ResolveError::MissingCriteria)
    );
}

#[test]
fn malformed_file_fails_whole_pass() {
    let files = vec![
        file("good.json", "{\"a\": 1}"),
        file("bad.json", "{ this is not json"),
        file("later.json", "{\"b\": 2}"),
    ];

    let err = parse_and_merge(&files).unwrap_err();
    assert_eq!(err.file, "bad.json");
    assert!(!err.message.is_empty());
}

#[test]
fn non_json_extensions_are_skipped() {
    let files = vec![
        file("notes.txt", "not json at all"),
        file("data.JSON", "also skipped: wrong case"),
        file(".json", "hidden file without a stem"),
        file("real.json", "{\"a\": {\"criteria\": {\"x\": 0}}}"),
    ];

    let merged = parse_and_merge(&files).unwrap();
    assert!(get_progress(&merged, "a").is_ok_and(|x| x == 1));
}

#[test]
fn later_document_wins_on_conflicting_leaves() {
    let files = vec![
        file("one.json", "{\"a\": {\"x\": 1}, \"keep\": 7}"),
        file("two.json", "{\"a\": 5}"),
    ];

    // the merged entry with the replaced value moves to the end of the
    // object's entry list; key order carries no meaning
    let merged = parse_and_merge(&files).unwrap();
    assert_eq!(merged, obj(vec![("keep", num("7")), ("a", num("5"))]));
}

#[test]
fn merge_unites_keys_in_any_order() {
    let a = || obj(vec![("a", num("1"))]);
    let b = || obj(vec![("b", num("2"))]);
    let c = || obj(vec![("c", num("3"))]);

    let abc = merge(merge(a(), b()), c());
    let cba = merge(merge(c(), b()), a());

    for want in ["a", "b", "c"] {
        let keyed = |j: &Json| match j {
            Json::Object(entries) => entries.iter().any(|(k, _)| k == want),
            _ => false,
        };
        assert!(keyed(&abc));
        assert!(keyed(&cba));
    }
}

#[test]
fn merge_recurses_into_shared_objects() {
    let a = obj(vec![("k", obj(vec![("x", num("1"))]))]);
    let b = obj(vec![("k", obj(vec![("y", num("2"))]))]);

    let m = merge(a, b);
    assert_eq!(
        m,
        obj(vec![("k", obj(vec![("x", num("1")), ("y", num("2"))]))])
    );
}

#[test]
fn empty_directory_aggregates_to_null() {
    assert_eq!(parse_and_merge(&vec![]).unwrap(), Json::Null);
}

#[test]
fn decimal_rendering() {
    assert_eq!(to_decimal(0), "0");
    assert_eq!(to_decimal(7), "7");
    assert_eq!(to_decimal(10), "10");
    assert_eq!(to_decimal(12345), "12345");
}

#[test]
fn greedy_span_covers_outermost_parentheses() {
    // Two seeming identifiers are one greedy span: "(a) and (b" is resolved
    // as a whole, fails, and the template stays as it is.
    let tree = obj(vec![
        ("a", obj(vec![("criteria", obj(vec![("x", num("0"))]))])),
        ("b", obj(vec![("criteria", obj(vec![("y", num("0"))]))])),
    ]);

    assert_eq!(replace_with_progress("(a) (b)", &tree), "(a) (b)");
}
