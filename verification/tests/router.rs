use dynatos::location::join_location;
use dynatos::query::{
    collect_parsed, keep_parsed, query_values, replace_key_pairs, replace_query_values, rewrite_key_pairs,
    values_for_key, write_query_values, QueryPair,
};

fn pair(key: &str, value: &str) -> QueryPair {
    QueryPair { key: key.to_owned(), value: value.to_owned() }
}

fn strings(values: &[&str]) -> Vec<String> {
    values.iter().map(|v| v.to_string()).collect()
}

fn flat(pairs: &[QueryPair]) -> Vec<(String, String)> {
    pairs.iter().map(|p| (p.key.clone(), p.value.clone())).collect()
}

#[test]
fn values_of_one_key() {
    let pairs = vec![pair("a", "1"), pair("b", "2"), pair("a", "3")];
    assert_eq!(values_for_key(&pairs, &"a".to_owned()), strings(&["1", "3"]));
    assert_eq!(values_for_key(&pairs, &"c".to_owned()), Vec::<String>::new());
}

#[test]
fn rewrite_takes_place_of_first() {
    let pairs = vec![pair("x", "0"), pair("a", "1"), pair("b", "2"), pair("a", "3")];
    let res = rewrite_key_pairs(&pairs, &"a".to_owned(), &strings(&["7", "8"]));
    assert_eq!(
        flat(&res),
        vec![
            ("x".to_owned(), "0".to_owned()),
            ("a".to_owned(), "7".to_owned()),
            ("a".to_owned(), "8".to_owned()),
            ("b".to_owned(), "2".to_owned()),
        ]
    );
}

#[test]
fn rewrite_appends_missing_key() {
    let pairs = vec![pair("x", "0")];
    let res = rewrite_key_pairs(&pairs, &"a".to_owned(), &strings(&["1"]));
    assert_eq!(flat(&res), vec![("x".to_owned(), "0".to_owned()), ("a".to_owned(), "1".to_owned())]);

    // Writing no values removes the key
    let res = rewrite_key_pairs(&vec![pair("a", "1"), pair("x", "0")], &"a".to_owned(), &vec![]);
    assert_eq!(flat(&res), vec![("x".to_owned(), "0".to_owned())]);
}

#[test]
fn replace_moves_key_to_end() {
    let pairs = vec![pair("a", "1"), pair("b", "2")];
    let res = replace_key_pairs(&pairs, &"a".to_owned(), &strings(&["5"]));
    assert_eq!(flat(&res), vec![("b".to_owned(), "2".to_owned()), ("a".to_owned(), "5".to_owned())]);
}

#[test]
fn query_values_of_url() {
    let url = "https://example.com/path?a=1&b=2&a=x%20y";
    assert_eq!(query_values(url, &"a".to_owned()), Some(strings(&["1", "x y"])));
    assert_eq!(query_values(url, &"b".to_owned()), Some(strings(&["2"])));
    assert_eq!(query_values("not a url", &"a".to_owned()), None);
}

#[test]
fn write_then_read_back() {
    let url = "https://example.com/path?a=1&b=2&a=3";
    let new_url = write_query_values(url, &"a".to_owned(), &strings(&["7", "8 9"])).expect("Url parses");
    assert_eq!(new_url, "https://example.com/path?a=7&a=8+9&b=2");
    assert_eq!(query_values(&new_url, &"a".to_owned()), Some(strings(&["7", "8 9"])));
    assert_eq!(query_values(&new_url, &"b".to_owned()), Some(strings(&["2"])));
    assert_eq!(write_query_values("::", &"a".to_owned(), &vec![]), None);
}

#[test]
fn replace_then_read_back() {
    let url = "https://example.com/?a=1&b=2";
    let new_url = replace_query_values(url, &"a".to_owned(), &strings(&["3"])).expect("Url parses");
    assert_eq!(new_url, "https://example.com/?b=2&a=3");
    assert_eq!(query_values(&new_url, &"a".to_owned()), Some(strings(&["3"])));
}

#[test]
fn parse_errors_report_first() {
    let values = strings(&["1", "x", "y"]);
    let results: Vec<Result<u32, String>> = vec![Ok(1), Err("bad x".to_owned()), Err("bad y".to_owned())];
    let err = collect_parsed(&values, results).expect_err("Second value fails");
    assert_eq!(err.idx(), 1);
    assert_eq!(err.value(), "x");
    assert_eq!(err.err(), "bad x");

    let results: Vec<Result<u32, String>> = vec![Ok(1), Ok(2)];
    assert_eq!(collect_parsed(&strings(&["1", "2"]), results).ok(), Some(vec![1, 2]));
}

#[test]
fn unparsed_values_are_skipped() {
    let results: Vec<Result<u32, ()>> = vec![Ok(1), Err(()), Ok(3)];
    assert_eq!(keep_parsed(results), vec![1, 3]);
}

#[test]
fn anchor_joins_location() {
    assert_eq!(
        join_location("https://example.com/a/b?q=1", "c").as_deref(),
        Some("https://example.com/a/c")
    );
    assert_eq!(
        join_location("https://example.com/a/b", "/root?x=2").as_deref(),
        Some("https://example.com/root?x=2")
    );
    assert_eq!(join_location("not a url", "c"), None);
}
