use tinyre::Regex;
use tinyre::Runtime;
use tinyre::chars_of;
use tinyre::parse::parse;

fn compiled(pattern: &str) -> Regex {
    Regex::new(pattern).unwrap()
}

#[test]
fn literal_whole_string() {
    let re = compiled("abc");
    assert!(re.matches("abc"));
    assert!(!re.matches("abcd"));
    assert!(!re.matches("ab"));
    assert!(!re.matches(""));
}

#[test]
fn greedy_star() {
    let re = compiled("a*");
    assert!(re.matches(""));
    assert!(re.matches("a"));
    assert!(re.matches("aa"));
    assert!(!re.matches("ab"));
}

#[test]
fn plus_and_optional() {
    let plus = compiled("a+");
    assert!(!plus.matches(""));
    assert!(plus.matches("a"));
    assert!(plus.matches("aa"));
    let opt = compiled("a?");
    assert!(opt.matches(""));
    assert!(opt.matches("a"));
    assert!(!opt.matches("aa"));
}

#[test]
fn alternation_under_repetition() {
    let re = compiled("(a|b)+(c|d)+");
    assert!(re.matches("aabadddc"));
    assert!(!re.matches("aab"));
    // Repetition is bounded-greedy: the first group consumes "aab" and is
    // never retried with fewer repetitions, so the "c" taken by the second
    // group leaves "adddc" unconsumed and the whole match is rejected.
    assert!(!re.matches("aabcadddc"));
}

#[test]
fn wildcard() {
    let re = compiled(".");
    assert!(!re.matches(""));
    assert!(re.matches("a"));
    assert!(!re.matches("aa"));
}

#[test]
fn character_class() {
    let re = compiled("[a-c]");
    assert!(re.matches("a"));
    assert!(re.matches("b"));
    assert!(re.matches("c"));
    assert!(!re.matches("d"));
}

#[test]
fn class_with_several_members() {
    let re = compiled("[ax-z]+");
    assert!(re.matches("axzy"));
    assert!(!re.matches("ab"));
}

#[test]
fn inverted_class() {
    let re = compiled("[^ab]");
    assert!(re.matches("c"));
    assert!(!re.matches("a"));
    assert!(!re.matches("b"));
    // The caret marks inversion but is also read as a class member.
    assert!(!re.matches("^"));
}

#[test]
fn bounded_repetition() {
    let re = compiled("a{2,3}");
    assert!(!re.matches("a"));
    assert!(re.matches("aa"));
    assert!(re.matches("aaa"));
    assert!(!re.matches("aaaa"));
}

#[test]
fn open_ended_bounds() {
    let at_least = compiled("a{2,}");
    assert!(!at_least.matches("a"));
    assert!(at_least.matches("aaaa"));
    let at_most = compiled("a{,2}");
    assert!(at_most.matches(""));
    assert!(at_most.matches("aa"));
    assert!(!at_most.matches("aaa"));
}

#[test]
fn lookahead_consumes_nothing() {
    assert!(compiled("(?=a)a").matches("a"));
    assert!(!compiled("(?=a)").matches("a"));
    assert!(!compiled("(?=b)a").matches("a"));
}

#[test]
fn negative_lookahead() {
    assert!(compiled("(?!b)a").matches("a"));
    assert!(!compiled("(?!a)a").matches("a"));
}

#[test]
fn digit_escape() {
    let re = compiled("\\d+");
    assert!(re.matches("0129"));
    assert!(!re.matches("12a"));
}

#[test]
fn control_escapes() {
    assert!(compiled("\\t").matches("\t"));
    assert!(compiled("\\r\\n").matches("\r\n"));
    assert!(compiled("\\0").matches("\0"));
}

#[test]
fn empty_alternative() {
    let re = compiled("a|");
    assert!(re.matches("a"));
    assert!(re.matches(""));
    assert!(!re.matches("b"));
}

#[test]
fn non_capturing_group() {
    let re = compiled("(?:ab)+");
    assert!(re.matches("abab"));
    assert!(!re.matches("aba"));
}

#[test]
fn compiling_twice_matches_identically() {
    let subjects = ["", "a", "ab", "abc", "abab", "zzz"];
    let first = compiled("(a|b)*c?");
    let second = compiled("(a|b)*c?");
    for s in subjects {
        assert_eq!(first.matches(s), second.matches(s));
    }
}

#[test]
fn runtime_reports_captures() {
    let ast = parse("(a+)b").unwrap();
    let mut rt = Runtime::new(chars_of("aab"));
    assert!(rt.run(&ast));
    let caps = rt.captured();
    assert_eq!(caps.len(), 1);
    assert_eq!(caps[0], "aa");
}

#[test]
fn empty_pattern_matches_only_empty_subject() {
    let re = compiled("");
    assert!(re.matches(""));
    assert!(!re.matches("a"));
}

#[test]
fn nested_groups() {
    let re = compiled("((a|b)c)+");
    assert!(re.matches("acbc"));
    assert!(!re.matches("acb"));
}

#[test]
fn captures_inside_lookahead_are_discarded() {
    let ast = parse("(?=(a))(.)").unwrap();
    let mut rt = Runtime::new(chars_of("a"));
    assert!(rt.run(&ast));
    let caps = rt.captured();
    assert_eq!(caps.len(), 1);
    assert_eq!(caps[0], "a");
}

#[test]
fn repeated_captures_are_reported_in_completion_order() {
    let ast = parse("(a|b)*").unwrap();
    let mut rt = Runtime::new(chars_of("ab"));
    assert!(rt.run(&ast));
    let caps = rt.captured();
    assert_eq!(caps.len(), 2);
    assert_eq!(caps[0], "a");
    assert_eq!(caps[1], "b");
}

#[test]
fn failed_branch_keeps_no_cursor_progress() {
    // The first alternative consumes "ab" and then fails; the second must
    // start again from the beginning.
    let re = compiled("(?:abd|abc)");
    assert!(re.matches("abc"));
}

#[test]
fn repetition_is_bounded_greedy() {
    // The star consumes every "a"; no retry with fewer repetitions is made
    // for the trailing literal.
    assert!(!compiled("a*a").matches("aaa"));
}

#[test]
fn captures_of_rejected_alternatives_are_discarded() {
    // The first alternative's group captures "a" before the alternative
    // fails; the rejected attempt leaves no record.
    let ast = parse("(a)b|ac").unwrap();
    let mut rt = Runtime::new(chars_of("ac"));
    assert!(rt.run(&ast));
    assert_eq!(rt.captured().len(), 0);
}

#[test]
fn captures_of_failed_matches_are_discarded() {
    let ast = parse("(ab)c").unwrap();
    let mut rt = Runtime::new(chars_of("abd"));
    assert!(!rt.run(&ast));
    assert_eq!(rt.captured().len(), 0);
}
