use json_shape_stats::backend::{parse_line, Backend};
use json_shape_stats::error::MyError;
use json_shape_stats::pipeline::{count_known, process_line, run_lines};
use json_shape_stats::stats::{walk, ColStats, StatsTable};
use json_shape_stats::value::{classify, JValue, Kind};

fn s(text: &str) -> JValue {
    JValue::Str(text.to_string())
}

fn obj(fields: Vec<(&str, JValue)>) -> JValue {
    JValue::Object(fields.into_iter().map(|(k, v)| (k.to_string(), v)).collect())
}

fn tally(short: usize, long: usize, number: usize, object: usize, array: usize) -> ColStats {
    ColStats {
        num_short_str: short,
        num_long_str: long,
        num_number: number,
        num_object: object,
        num_array: array,
    }
}

fn lines(texts: &[&str]) -> Vec<String> {
    texts.iter().map(|t| t.to_string()).collect()
}

const EXAMPLE: &str = "{\"a\":\"hi\",\"b\":12,\"c\":{\"a\":\"a string longer than ten chars\"}}";

#[test]
fn ten_characters_are_short_eleven_are_long() {
    assert_eq!(classify(&s("abcdefghij")), Kind::ShortStr);
    assert_eq!(classify(&s("abcdefghijk")), Kind::LongStr);
    assert_eq!(classify(&s("")), Kind::ShortStr);
}

#[test]
fn string_length_counts_characters_not_bytes() {
    // ten characters, twenty bytes
    assert_eq!(classify(&s("éééééééééé")), Kind::ShortStr);
    assert_eq!(classify(&s("ééééééééééé")), Kind::LongStr);
}

#[test]
fn classify_other_kinds() {
    assert_eq!(classify(&JValue::Number), Kind::Number);
    assert_eq!(classify(&JValue::Array(vec![])), Kind::Array);
    assert_eq!(classify(&obj(vec![])), Kind::Object);
    assert_eq!(classify(&JValue::Bool(true)), Kind::Unknown);
    assert_eq!(classify(&JValue::Null), Kind::Unknown);
}

#[test]
fn walk_example_document() {
    let v = obj(vec![
        ("a", s("hi")),
        ("b", JValue::Number),
        ("c", obj(vec![("a", s("a string longer than ten chars"))])),
    ]);
    let mut t = StatsTable::new();
    walk(&v, &mut t);
    assert_eq!(t.len(), 3);
    assert_eq!(t.get("a"), Some(tally(1, 1, 0, 0, 0)));
    assert_eq!(t.get("b"), Some(tally(0, 0, 1, 0, 0)));
    assert_eq!(t.get("c"), Some(tally(0, 0, 0, 1, 0)));
    assert_eq!(t.total(), 4);
}

#[test]
fn nested_field_shares_the_top_level_tally() {
    let v = obj(vec![("x", JValue::Number), ("o", obj(vec![("x", JValue::Number)]))]);
    let mut t = StatsTable::new();
    walk(&v, &mut t);
    assert_eq!(t.len(), 2);
    assert_eq!(t.get("x"), Some(tally(0, 0, 2, 0, 0)));
    assert_eq!(t.get("o"), Some(tally(0, 0, 0, 1, 0)));
}

#[test]
fn booleans_and_nulls_get_an_entry_but_no_count() {
    let v = obj(vec![("f", JValue::Bool(false)), ("n", JValue::Null)]);
    let mut t = StatsTable::new();
    walk(&v, &mut t);
    assert_eq!(t.len(), 2);
    assert_eq!(t.get("f"), Some(tally(0, 0, 0, 0, 0)));
    assert_eq!(t.get("n"), Some(tally(0, 0, 0, 0, 0)));
    assert_eq!(t.total(), 0);
}

#[test]
fn arrays_are_counted_not_entered() {
    let v = obj(vec![("l", JValue::Array(vec![obj(vec![("inner", JValue::Number)])]))]);
    let mut t = StatsTable::new();
    walk(&v, &mut t);
    assert_eq!(t.len(), 1);
    assert_eq!(t.get("l"), Some(tally(0, 0, 0, 0, 1)));
    assert_eq!(t.get("inner"), None);
}

#[test]
fn walking_a_non_object_adds_nothing() {
    let mut t = StatsTable::new();
    walk(&JValue::Number, &mut t);
    walk(&JValue::Array(vec![obj(vec![("k", JValue::Number)])]), &mut t);
    assert_eq!(t.len(), 0);
    assert_eq!(t.total(), 0);
}

#[test]
fn walks_accumulate_in_one_table() {
    let mut t = StatsTable::new();
    walk(&obj(vec![("k", s("short"))]), &mut t);
    walk(&obj(vec![("k", JValue::Number), ("j", JValue::Null)]), &mut t);
    assert_eq!(t.get("k"), Some(tally(1, 0, 1, 0, 0)));
    assert_eq!(t.field_names(), vec!["k".to_string(), "j".to_string()]);
}

#[test]
fn count_known_counts_nested_tallied_fields() {
    let v = obj(vec![
        ("a", s("hi")),
        ("b", JValue::Null),
        ("c", obj(vec![("a", JValue::Number), ("d", JValue::Bool(true))])),
    ]);
    assert_eq!(count_known(&v), Some(3));
    assert_eq!(count_known(&JValue::Number), Some(0));
}

#[test]
fn parse_line_keeps_field_names_and_strings() {
    for backend in [Backend::SerdeJson, Backend::Json] {
        let v = parse_line("{\"key\":\"value\",\"n\":1.5,\"z\":null}", backend).unwrap();
        match v {
            JValue::Object(fields) => {
                assert_eq!(fields.len(), 3);
                let (k, x) = &fields[0];
                assert_eq!(k, "key");
                assert!(matches!(x, JValue::Str(t) if t == "value"));
                assert!(fields.iter().any(|(k, x)| k == "n" && matches!(x, JValue::Number)));
                assert!(fields.iter().any(|(k, x)| k == "z" && matches!(x, JValue::Null)));
            }
            _ => panic!("expected an object"),
        }
    }
}

#[test]
fn parse_line_long_strings_of_json_backend_stay_strings() {
    let v = parse_line("{\"k\":\"a string well over thirty bytes long, surely\"}", Backend::Json)
        .unwrap();
    match v {
        JValue::Object(fields) => {
            assert!(matches!(&fields[0].1, JValue::Str(t) if t == "a string well over thirty bytes long, surely"));
        }
        _ => panic!("expected an object"),
    }
}

#[test]
fn example_line_with_each_backend() {
    for backend in [Backend::SerdeJson, Backend::Json] {
        let t = run_lines(&lines(&[EXAMPLE]), backend).unwrap();
        assert_eq!(t.len(), 3);
        assert_eq!(t.get("a"), Some(tally(1, 1, 0, 0, 0)));
        assert_eq!(t.get("b"), Some(tally(0, 0, 1, 0, 0)));
        assert_eq!(t.get("c"), Some(tally(0, 0, 0, 1, 0)));
    }
}

#[test]
fn empty_input_gives_empty_table() {
    for backend in [Backend::SerdeJson, Backend::Json] {
        let t = run_lines(&Vec::new(), backend).unwrap();
        assert_eq!(t.len(), 0);
        assert_eq!(t.total(), 0);
        assert!(t.field_names().is_empty());
    }
}

#[test]
fn malformed_line_aborts_with_parse_error() {
    let input = lines(&[EXAMPLE, "{\"a\":}", EXAMPLE]);
    assert!(matches!(run_lines(&input, Backend::SerdeJson), Err(MyError::SerdeJsonError(_))));
    assert!(matches!(run_lines(&input, Backend::Json), Err(MyError::JsonError(_))));
}

#[test]
fn malformed_line_leaves_table_unchanged() {
    let mut t = StatsTable::new();
    process_line(EXAMPLE, Backend::Json, &mut t).unwrap();
    let r = process_line("{\"a\":}", Backend::Json, &mut t);
    assert!(matches!(r, Err(MyError::JsonError(_))));
    assert_eq!(t.len(), 3);
    assert_eq!(t.get("a"), Some(tally(1, 1, 0, 0, 0)));
    assert_eq!(t.total(), 4);
}

#[test]
fn blank_line_is_a_parse_error() {
    assert!(matches!(run_lines(&lines(&[""]), Backend::SerdeJson), Err(MyError::SerdeJsonError(_))));
    assert!(matches!(run_lines(&lines(&["\n"]), Backend::Json), Err(MyError::JsonError(_))));
}

#[test]
fn lines_with_newlines_parse() {
    let t = run_lines(&lines(&["{\"a\":1}\n", "{\"a\":\"x\"}\n"]), Backend::Json).unwrap();
    assert_eq!(t.get("a"), Some(tally(1, 0, 1, 0, 0)));
}

#[test]
fn both_backends_give_the_same_table() {
    let input = lines(&[
        EXAMPLE,
        "{\"z\":[1,2,{\"q\":3}],\"b\":\"\",\"t\":true,\"n\":null}",
        "{\"c\":{\"c\":{\"c\":\"deeply nested long string\"}},\"y\":-1e5}",
        "{\"u\":\"ünïcödé ten\",\"b\":0}",
    ]);
    let a = run_lines(&input, Backend::SerdeJson).unwrap();
    let b = run_lines(&input, Backend::Json).unwrap();
    assert_eq!(a.len(), b.len());
    assert_eq!(a.total(), b.total());
    let mut names_a = a.field_names();
    let mut names_b = b.field_names();
    names_a.sort();
    names_b.sort();
    assert_eq!(names_a, names_b);
    for name in names_a {
        assert_eq!(a.get(&name), b.get(&name));
    }
    assert_eq!(a.get("c"), Some(tally(0, 1, 0, 3, 0)));
    assert_eq!(a.get("u"), Some(tally(0, 1, 0, 0, 0)));
}

#[test]
fn io_error_converts() {
    let e = MyError::from(std::io::Error::new(std::io::ErrorKind::Other, "gone"));
    assert!(matches!(e, MyError::IOError(_)));
}
