use tarot::format::{parse_affinity, parse_line, parse_score};
use tarot::table::AffinityTable;

#[test]
fn example_file_parses() {
    let t = parse_affinity("The Fool,5\nbadline\nMagician,notanumber\nMagician,10");
    assert_eq!(t.get("The Fool"), Some(5));
    assert_eq!(t.get("Magician"), Some(10));
    assert_eq!(t.get("badline"), None);
}

#[test]
fn well_formed_lines_give_their_scores() {
    let t = parse_affinity("a,1\nb,-2\nc,+3\n");
    assert_eq!(t.get("a"), Some(1));
    assert_eq!(t.get("b"), Some(-2));
    assert_eq!(t.get("c"), Some(3));
}

#[test]
fn short_line_skipped_neighbours_applied() {
    let t = parse_affinity("a,1\njustaname\nb,2");
    assert_eq!(t.get("a"), Some(1));
    assert_eq!(t.get("b"), Some(2));
    assert_eq!(t.get("justaname"), None);
}

#[test]
fn bad_score_skipped() {
    let t = parse_affinity("a,x\nb,1.5\nc,\nd,2");
    assert_eq!(t.get("a"), None);
    assert_eq!(t.get("b"), None);
    assert_eq!(t.get("c"), None);
    assert_eq!(t.get("d"), Some(2));
}

#[test]
fn later_line_overwrites_earlier() {
    let t = parse_affinity("a,1\nb,2\na,7");
    assert_eq!(t.get("a"), Some(7));
    assert_eq!(t.get("b"), Some(2));
}

#[test]
fn bad_later_line_keeps_earlier_score() {
    let t = parse_affinity("a,1\na,oops");
    assert_eq!(t.get("a"), Some(1));
}

#[test]
fn absent_name_not_in_table() {
    let t = parse_affinity("a,1\nb,2");
    assert_eq!(t.get("c"), None);
    assert_eq!(t.get("a,1"), None);
}

#[test]
fn empty_text_gives_empty_table() {
    let t = parse_affinity("");
    assert_eq!(t.get(""), None);
    assert_eq!(AffinityTable::new().get("a"), None);
}

#[test]
fn crlf_line_endings_stripped() {
    let t = parse_affinity("a,1\r\nb,2\r\n");
    assert_eq!(t.get("a"), Some(1));
    assert_eq!(t.get("b"), Some(2));
}

#[test]
fn extra_fields_ignored() {
    assert_eq!(parse_line("a,4,extra"), Some(("a".to_string(), 4)));
}

#[test]
fn empty_name_allowed() {
    assert_eq!(parse_line(",9"), Some(("".to_string(), 9)));
}

#[test]
fn line_without_comma_has_no_record() {
    assert_eq!(parse_line("abc"), None);
    assert_eq!(parse_line(""), None);
}

#[test]
fn score_limits() {
    assert_eq!(parse_line("a,2147483647"), Some(("a".to_string(), i32::MAX)));
    assert_eq!(parse_line("a,-2147483648"), Some(("a".to_string(), i32::MIN)));
    assert_eq!(parse_line("a,2147483648"), None);
    assert_eq!(parse_line("a,-2147483649"), None);
    assert_eq!(parse_line("a,99999999999999999999"), None);
}

#[test]
fn score_grammar() {
    let p = |s: &str| parse_score(&s.chars().collect::<Vec<char>>());
    assert_eq!(p("0"), Some(0));
    assert_eq!(p("-0"), Some(0));
    assert_eq!(p("+12"), Some(12));
    assert_eq!(p("007"), Some(7));
    assert_eq!(p(""), None);
    assert_eq!(p("-"), None);
    assert_eq!(p("+"), None);
    assert_eq!(p(" 5"), None);
    assert_eq!(p("5 "), None);
    assert_eq!(p("--5"), None);
    assert_eq!(p("1a"), None);
}
