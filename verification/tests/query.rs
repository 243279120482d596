use std::str::FromStr;

use kono::decimal::parse_u64;
use kono::decimal::parse_usize;
use kono::query::parse_num;
use kono::query::parse_params;
use kono::query::parse_query_str;
use kono::query::query_str_to_map;
use kono::query::QueryParams;

fn pairs(list: &[(&str, &str)]) -> Vec<(String, String)> {
    list.iter().map(|(k, v)| (k.to_string(), v.to_string())).collect()
}

#[test]
fn parse_u64_accepts_what_std_accepts() {
    let cases = [
        "0", "42", "+7", "007", "", "+", "-1", "-0", " 1", "1 ", "1a", "++1", "18446744073709551615",
        "18446744073709551616", "99999999999999999999", "+18446744073709551615", "１",
    ];
    for s in cases {
        assert_eq!(parse_u64(s), u64::from_str(s).ok(), "{}", s);
        assert_eq!(parse_usize(s), usize::from_str(s).ok(), "{}", s);
    }
}

#[test]
fn parse_u64_values() {
    assert_eq!(parse_u64("42"), Some(42));
    assert_eq!(parse_u64("+7"), Some(7));
    assert_eq!(parse_u64("18446744073709551615"), Some(u64::MAX));
    assert_eq!(parse_u64("18446744073709551616"), None);
    assert_eq!(parse_u64(""), None);
    assert_eq!(parse_u64("x"), None);
}

#[test]
fn query_params_keep_last_value() {
    let params = QueryParams::from_pairs(pairs(&[("num", "2"), ("a", "x"), ("num", "5")]));
    assert_eq!(params.get("num"), Some(&"5".to_string()));
    assert_eq!(params.get("a"), Some(&"x".to_string()));
    assert_eq!(params.get("b"), None);
}

#[test]
fn parse_num_defaults_to_one() {
    assert_eq!(parse_num(&QueryParams::from_pairs(pairs(&[]))), 1);
    assert_eq!(parse_num(&QueryParams::from_pairs(pairs(&[("num", "abc")]))), 1);
    assert_eq!(parse_num(&QueryParams::from_pairs(pairs(&[("num", "12")]))), 12);
    assert_eq!(parse_num(&QueryParams::from_pairs(pairs(&[("num", "0")]))), 0);
}

#[test]
fn parse_params_needs_sharding_id() {
    assert_eq!(parse_params(&QueryParams::from_pairs(pairs(&[("num", "3")]))), None);
    assert_eq!(parse_params(&QueryParams::from_pairs(pairs(&[("sharding_id", "-3")]))), None);
    assert_eq!(
        parse_params(&QueryParams::from_pairs(pairs(&[("sharding_id", "8"), ("num", "3")]))),
        Some((8, 3))
    );
    assert_eq!(parse_params(&QueryParams::from_pairs(pairs(&[("sharding_id", "8")]))), Some((8, 1)));
}

#[test]
fn query_str_to_map_decodes() {
    let params = query_str_to_map(Some("sharding_id=%31%32&num=4&&x=a+b&flag"));
    assert_eq!(params.get("sharding_id"), Some(&"12".to_string()));
    assert_eq!(params.get("num"), Some(&"4".to_string()));
    assert_eq!(params.get("x"), Some(&"a b".to_string()));
    assert_eq!(params.get("flag"), Some(&"".to_string()));
    assert_eq!(query_str_to_map(None).get("num"), None);
}

#[test]
fn parse_query_str_cases() {
    assert_eq!(parse_query_str(Some("sharding_id=5&num=3")), Some((5, 3)));
    assert_eq!(parse_query_str(Some("sharding_id=5")), Some((5, 1)));
    assert_eq!(parse_query_str(Some("sharding_id=5&num=many")), Some((5, 1)));
    assert_eq!(parse_query_str(Some("num=3")), None);
    assert_eq!(parse_query_str(Some("sharding_id=five")), None);
    assert_eq!(parse_query_str(Some("sharding_id=1&sharding_id=2")), Some((2, 1)));
    assert_eq!(parse_query_str(None), None);
}
