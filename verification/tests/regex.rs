use regex::Regex;
use regex::RegexSet;

fn match_date(text: &str) -> bool {
    let date = Regex::new(r"\d{4}-\d{2}-\d{2}").unwrap();
    date.is_match(text)
}

fn find_dates(text: &str) -> Vec<&str> {
    let date = Regex::new(r"\d{4}-\d{2}-\d{2}").unwrap();
    let mut dates: Vec<&str> = Vec::new();
    for cap in date.captures_iter(text) {
        dates.push(cap.get(0).map_or("", |m| m.as_str()));
    }
    dates
}

#[test]
fn regex_examples() {
    assert!(match_date("2014-01-01"));
    assert_eq!(
        find_dates("2012-03-14, 2013-01-01 and 2014-07-05"),
        vec!["2012-03-14", "2013-01-01", "2014-07-05"]
    );
    let ymd = Regex::new(r"(?P<y>\d{4})-(?P<m>\d{2})-(?P<d>\d{2})").unwrap();
    assert_eq!(ymd.replace_all("2012-03-14, 2013-01-01", "$m/$d/$y"), "03/14/2012, 01/01/2013");
    let dateset = RegexSet::new(&[r"\d{4}-\d{2}-\d{2}", r"\d{2}/\d{2}/\d{4}"]).unwrap();
    assert!(dateset.is_match("2012-03-14"));
    assert!(dateset.is_match("03/14/2012"));
}
