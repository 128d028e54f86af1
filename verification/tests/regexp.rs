use route_regexp::find_first_query_key;
use route_regexp::RegexpType;

#[test]
fn test_regexp_type() {
    assert_eq!(RegexpType::Path as u8, 0);
    assert_eq!(RegexpType::Host as u8, 1);
    assert_eq!(RegexpType::Prefix as u8, 2);
    assert_eq!(RegexpType::Query as u8, 3);
}

#[test]
fn test_find_first_query_key() {
    assert_eq!(find_first_query_key("a=1&a=3&b=2", "a"), ("1".to_string(), true));
    assert_eq!(find_first_query_key("a=1&a=3&b=2", "b"), ("2".to_string(), true));
}
