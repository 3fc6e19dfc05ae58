use native_regex_lib::ehir::Ehir;
use native_regex_lib::native_regex::{Engine, Matches};
use native_regex_lib::native_regex_set::NativeRegexSet;
use native_regex_lib::replacer::NoExpand;

fn engine(pattern: &str) -> Engine {
    Engine::new(Ehir::translate(pattern).unwrap())
}

fn spans(mut it: Matches) -> Vec<(usize, usize)> {
    let mut out = Vec::new();
    while let Some(m) = it.next() {
        out.push((m.start(), m.end()));
    }
    out
}

#[test]
fn empty_star_matches_at_every_boundary() {
    let e = engine("a*");
    let got = spans(e.find_iter("bbb"));
    assert_eq!(got, vec![(0, 0), (1, 1), (2, 2), (3, 3)]);
}

#[test]
fn empty_star_on_empty_text() {
    let e = engine("a*");
    let got = spans(e.find_iter(""));
    assert_eq!(got, vec![(0, 0)]);
}

#[test]
fn bounded_quantifier_is_greedy_without_backtracking() {
    let e = engine("a{2,4}");
    let m = e.find("aaaaaa").unwrap();
    assert_eq!((m.start(), m.end()), (0, 4));
}

#[test]
fn digit_runs_are_found_in_order() {
    let e = engine("[0-9]+");
    let got = spans(e.find_iter("foo 12 bar 345"));
    assert_eq!(got, vec![(4, 6), (11, 14)]);
}

#[test]
fn named_groups_are_captured() {
    let e = engine("(?P<y>[0-9]{4})-(?P<m>[0-9]{2})");
    let mut it = e.captures_iter("on 2020-07 and 1999-12");
    let c1 = it.next().unwrap();
    assert_eq!(c1.name("y").unwrap().as_str(), "2020");
    assert_eq!(c1.name("m").unwrap().as_str(), "07");
    let c2 = it.next().unwrap();
    assert_eq!(c2.name("y").unwrap().as_str(), "1999");
    assert_eq!(c2.name("m").unwrap().as_str(), "12");
    assert!(it.next().is_none());
}

#[test]
fn word_boundaries_pick_whole_words() {
    let e = engine("\\bword\\b");
    let got = spans(e.find_iter("word swordfish word."));
    assert_eq!(got, vec![(0, 4), (15, 19)]);
}

#[test]
fn start_anchor_matches_only_at_the_start() {
    let e = engine("^start");
    let m = e.find("start here").unwrap();
    assert_eq!((m.start(), m.end()), (0, 5));
    assert!(e.find("x start").is_none());
}

#[test]
fn end_anchor_matches_at_the_end() {
    let e = engine("end$");
    let m = e.find("the end").unwrap();
    assert_eq!((m.start(), m.end()), (4, 7));
    assert!(e.find("end x").is_none());
}

#[test]
fn is_match_find_captures_agree() {
    let e = engine("[a-z]+");
    for text in ["", "123", "abc", "1a2"] {
        assert_eq!(e.is_match(text), e.find(text).is_some());
        assert_eq!(e.is_match(text), e.captures(text).is_some());
    }
}

#[test]
fn captures_expose_group_spans() {
    let e = engine("(a+)(b+)?");
    let c = e.captures("aab").unwrap();
    assert_eq!(c.len(), 3);
    assert_eq!(c.first().as_str(), "aab");
    assert_eq!(c.get(1).unwrap().as_str(), "aa");
    assert_eq!(c.get(2).unwrap().as_str(), "b");
    assert!(c.get(7).is_none());
    let c2 = e.captures("aa").unwrap();
    assert!(c2.get(2).is_none());
    let listed = c2.iter();
    assert_eq!(listed.len(), 3);
    assert!(listed[0].is_some());
    assert!(listed[2].is_none());
}

#[test]
fn split_keeps_the_pieces_between_matches() {
    let e = engine(",");
    let mut it = e.split("a,b,c");
    let mut pieces = Vec::new();
    while let Some(p) = it.next() {
        pieces.push(p);
    }
    assert_eq!(pieces, vec!["a", "b", "c"]);
}

#[test]
fn split_reconstructs_the_text() {
    let e = engine("[0-9]+");
    let text = "foo 12 bar 345";
    let mut pieces = Vec::new();
    let mut it = e.split(text);
    while let Some(p) = it.next() {
        pieces.push(p.to_string());
    }
    let mut matched = Vec::new();
    let mut mt = e.find_iter(text);
    while let Some(m) = mt.next() {
        matched.push(m.as_str().to_string());
    }
    let mut rebuilt = String::new();
    for (i, p) in pieces.iter().enumerate() {
        rebuilt.push_str(p);
        if i < matched.len() {
            rebuilt.push_str(&matched[i]);
        }
    }
    assert_eq!(rebuilt, text);
}

#[test]
fn replace_expands_group_references() {
    let e = engine("h(e)llo");
    let got = e.replace("hello hello", "${1}!");
    assert_eq!(got, "e! e!");
}

#[test]
fn replace_with_whole_match_reference_is_identity() {
    let e = engine("[a-z]+");
    let text = "one 2 three";
    assert_eq!(e.replace(text, "${0}"), text);
}

#[test]
fn replace_without_matches_keeps_the_text() {
    let e = engine("[0-9]+");
    assert_eq!(e.replace("no digits", "X"), "no digits");
}

#[test]
fn replace_no_expand_is_verbatim() {
    let e = engine("[0-9]+");
    assert_eq!(e.replace("a 1 b 22", NoExpand("${1}")), "a ${1} b ${1}");
}

#[test]
fn expand_handles_escapes_names_and_missing_groups() {
    let e = engine("(?P<w>[a-z]+)");
    let c = e.captures("abc").unwrap();
    let mut out = String::new();
    c.expand("<${w}> $$ ${9} ${nope} tail", &mut out);
    assert_eq!(out, "<abc> $   tail");
}

#[test]
fn expand_copies_plain_templates() {
    let e = engine("a");
    let c = e.captures("a").unwrap();
    let mut out = String::new();
    c.expand("no forms here", &mut out);
    assert_eq!(out, "no forms here");
}

#[test]
fn positions_count_characters() {
    let e = engine("c");
    let m = e.find("αβc").unwrap();
    assert_eq!((m.start(), m.end()), (2, 3));
    assert_eq!(m.as_str(), "c");
}

#[test]
fn set_reports_which_patterns_match() {
    let set = NativeRegexSet::new(vec![engine("[0-9]+"), engine("[a-z]+")]);
    assert!(set.is_match("123 abc"));
    assert!(!set.is_match("???"));
    let found = set.matches("123 abc");
    let mut it = found.iter();
    let mut seen = Vec::new();
    while let Some((idx, caps)) = it.next().map(|e| (e.0, &e.1)) {
        seen.push((idx, caps.first().start(), caps.first().end()));
    }
    seen.sort();
    assert_eq!(seen, vec![(0, 0, 3), (1, 4, 7)]);
}

#[test]
fn set_matches_skip_engines_that_never_match() {
    let set = NativeRegexSet::new(vec![engine("z+"), engine("1")]);
    let found = set.matches("123");
    let mut it = found.iter();
    let first = it.next().unwrap();
    assert_eq!(first.0, 1);
    assert!(it.next().is_none());
}

#[test]
fn dot_matches_any_character_but_newline() {
    let e = engine("a.c");
    assert!(e.is_match("abc"));
    assert!(!e.is_match("a\nc"));
}

#[test]
fn optional_group_backtracking_is_refused() {
    let e = engine("ab?b");
    assert!(!e.is_match("ab"));
    assert!(e.is_match("abb"));
}

#[test]
fn empty_match_right_after_a_match_end_is_skipped() {
    let e = engine("a*");
    let got = spans(e.find_iter("bab"));
    assert_eq!(got, vec![(0, 0), (1, 2), (3, 3)]);
}

#[test]
fn captures_iter_keeps_the_named_groups() {
    let e = engine("(?P<d>[0-9])");
    let mut it = e.captures_iter("a1b2");
    let c = it.next().unwrap();
    assert_eq!(c.name("d").unwrap().as_str(), "1");
    assert!(c.name("missing").is_none());
    let c2 = it.next().unwrap();
    assert_eq!(c2.name("d").unwrap().as_str(), "2");
    assert!(it.next().is_none());
}
