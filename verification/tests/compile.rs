use native_regex_lib::character::{chars_of, AdvancerIterator, Previous};
use native_regex_lib::native_regex::Engine;
use native_regex_lib::characterset::{CharacterRange, CharacterSet, SubSet};
use native_regex_lib::ehir::Ehir;
use native_regex_lib::error::{Construct, Error};
use native_regex_lib::rust_translate::translate;
use native_regex_lib::vectormap::VectorMap;

#[test]
fn alternation_is_rejected() {
    let r = Ehir::translate("a|b");
    assert!(matches!(r, Err(Error::UnsupportedConstruct(Construct::Alternation))));
}

#[test]
fn non_greedy_repetition_is_rejected() {
    let r = Ehir::translate("a*?");
    assert!(matches!(r, Err(Error::UnsupportedConstruct(Construct::NonGreedyRepetition))));
}

#[test]
fn too_many_capture_groups_are_rejected() {
    let mut many = String::new();
    for _ in 0..63 {
        many.push_str("(a)");
    }
    let r = Ehir::translate(&many);
    assert!(matches!(r, Err(Error::CaptureLimitExceeded)));

    let mut fits = String::new();
    for _ in 0..62 {
        fits.push_str("(a)");
    }
    let ehir = Ehir::translate(&fits).unwrap();
    assert_eq!(ehir.capture_count(), 63);
}

#[test]
fn malformed_patterns_are_rejected() {
    let r = Ehir::translate("(unclosed");
    assert!(matches!(r, Err(Error::InvalidPattern(_))));
}

#[test]
fn error_messages_name_the_problem() {
    let e = Error::UnsupportedConstruct(Construct::Alternation);
    assert_eq!(e.message(), "unsupported construct: alternation");
    let e2 = Error::CaptureLimitExceeded;
    assert_eq!(e2.message(), "more than 63 capture slots");
}

#[test]
fn translate_emits_a_matcher_struct() {
    let code = translate("[0-9]{2}", "TwoDigits").unwrap();
    assert!(code.contains("pub struct TwoDigits"));
    assert!(code.contains("impl TwoDigits"));
    assert!(code.contains("pub fn step(mut chars: native_regex_lib::character::Advancer"));
    assert!(code.contains("pub fn capture_count(&self) -> usize { 1 }"));
    assert!(code.contains("match_count == 2"));
    assert!(code.contains("(character.current().unwrap() as u32) >= 48"));
}

#[test]
fn translate_emits_the_name_table() {
    let code = translate("(?P<year>[0-9]{4})", "Year").unwrap();
    assert!(code.contains("named_groups.push((String::from(\"year\"), 1));"));
    assert!(code.contains("pub fn capture_count(&self) -> usize { 2 }"));
}

#[test]
fn translate_rejects_bad_identifiers() {
    assert!(matches!(translate("a", "9lives"), Err(Error::InvalidIdentifier(_))));
    assert!(matches!(translate("a", ""), Err(Error::InvalidIdentifier(_))));
    assert!(matches!(translate("a", "has space"), Err(Error::InvalidIdentifier(_))));
    assert!(translate("a", "_fine_1").is_ok());
}

#[test]
fn translate_propagates_pattern_errors() {
    assert!(matches!(translate("a|b", "Ok_name"), Err(Error::UnsupportedConstruct(_))));
}

#[test]
fn character_range_renders_comparisons() {
    assert_eq!(CharacterRange::Single(48).code(false, "ch"), "ch == 48");
    assert_eq!(CharacterRange::Single(48).code(true, "ch"), "ch != 48");
    assert_eq!(CharacterRange::Multiple(48, 57).code(false, "ch"), "(ch >= 48 && ch <= 57)");
    assert_eq!(CharacterRange::Multiple(48, 57).code(true, "ch"), "(ch < 48 || ch > 57)");
}

#[test]
fn subset_joins_ranges_and_inversion_cancels() {
    let s = SubSet::new(
        false,
        vec![CharacterRange::Multiple(48, 57), CharacterRange::Single(95)],
    );
    assert_eq!(s.code(false, "ch"), "(ch >= 48 && ch <= 57) || ch == 95");
    assert_eq!(s.code(true, "ch"), "(ch < 48 || ch > 57) && ch != 95");
    let inverted = SubSet::new(true, vec![CharacterRange::Single(10)]);
    assert_eq!(inverted.code(true, "ch"), "ch == 10");
}

#[test]
fn character_set_renders_whole_classes() {
    let mut set = CharacterSet::new();
    set.add_subset(false, CharacterRange::Multiple(97, 122));
    assert_eq!(set.code("ch"), "(ch >= 97 && ch <= 122)");
    set.add_subset(false, CharacterRange::Single(95));
    assert_eq!(set.code("ch"), "((ch >= 97 && ch <= 122)) || (ch == 95)");
    set.invert(true);
    assert_eq!(set.code("ch"), "((ch < 97 || ch > 122)) && (ch != 95)");
}

#[test]
fn vector_map_inserts_and_clears_in_place() {
    let mut vm: VectorMap<(usize, usize)> = VectorMap::new(4);
    assert_eq!(vm.len(), 4);
    assert!(vm.get(2).is_none());
    vm.insert(2, (5, 7));
    assert_eq!(vm.get(2), Some(&(5, 7)));
    vm.insert(0, (1, 1));
    vm.remove(2);
    assert!(vm.get(2).is_none());
    assert_eq!(vm.get(0), Some(&(1, 1)));
    vm.clear();
    assert!(vm.get(0).is_none());
    assert_eq!(vm.len(), 4);
}

#[test]
fn vector_map_iterates_slots_in_order() {
    let mut vm: VectorMap<(usize, usize)> = VectorMap::new(3);
    vm.insert(1, (2, 3));
    let mut it = vm.iter();
    assert_eq!(it.next(), Some(None));
    assert_eq!(it.next(), Some(Some(&(2, 3))));
    assert_eq!(it.next(), Some(None));
    assert_eq!(it.next(), None);
    let copy = vm.duplicate();
    assert_eq!(copy.get(1), Some(&(2, 3)));
    assert!(copy.get(0).is_none());
}

#[test]
fn ehir_keeps_the_pattern_text() {
    let ehir = Ehir::translate("a{3}").unwrap();
    assert_eq!(ehir.regex(), "a{3}");
    assert_eq!(ehir.capture_count(), 1);
    assert!(ehir.capture_names().is_empty());
}

#[test]
fn cursor_walks_characters_with_lookback() {
    let chars = chars_of("ab");
    let mut it = AdvancerIterator::new(&chars, 0);
    let mut first = it.next().unwrap();
    assert!(matches!(first.prev(), Previous::Start));
    let info = first.advance();
    assert_eq!(info.index(), 0);
    assert_eq!(info.current(), Some('a'));
    assert!(matches!(info.previous(), Previous::Start));
    let info2 = first.advance();
    assert_eq!(info2.index(), 1);
    assert_eq!(info2.current(), Some('b'));
    assert_eq!(info2.previous().unwrap(), 'a');
    let info3 = first.advance();
    assert_eq!(info3.index(), 2);
    assert_eq!(info3.current(), None);
    assert_eq!(info3.previous().unwrap(), 'b');
    let second = it.next().unwrap();
    assert_eq!(second.prev().unwrap(), 'a');
    let third = it.next().unwrap();
    assert_eq!(third.prev().unwrap(), 'b');
    assert!(it.next().is_none());
}

#[test]
fn translate_emits_exactly_the_expected_matcher() {
    let code = translate("a", "A").unwrap();
    let mut expected = String::new();
    expected.push_str("pub struct A {\n    named_groups: Vec<(String, usize)>,\n}\n\n");
    expected.push_str("impl A {\n    #[allow(unused_mut)]\n    pub fn new() -> Self {\n");
    expected.push_str("        let mut named_groups: Vec<(String, usize)> = Vec::new();\n");
    expected.push_str("        A { named_groups }\n    }\n\n");
    expected.push_str("    // Matches the pattern 'a'\n");
    expected.push_str("    #[allow(unused_parens, unused_comparisons, unused_mut, unused_variables, unreachable_code)]\n");
    expected.push_str("    pub fn step(mut chars: native_regex_lib::character::Advancer, captures: &mut native_regex_lib::vectormap::VectorMap<(usize, usize)>) -> Option<()> {\n");
    expected.push_str("        let mut character = chars.advance();\n\n");
    expected.push_str("{\n\n");
    expected.push_str("let capture_0_start = character.index();\n\n");
    expected.push_str("if character.current().is_some() {  } else  { return None; }\n\n");
    expected.push_str("if (character.current().unwrap() as u32) == 97 {  } else  { return None; }\n\n");
    expected.push_str("character = chars.advance();\n\n");
    expected.push_str("captures.insert(0, (capture_0_start, character.index()));\n\n");
    expected.push_str("}\n\n");
    expected.push_str("\n        Some(())\n    }\n\n");
    expected.push_str("    pub fn capture_names(&self) -> &Vec<(String, usize)> {\n        &self.named_groups\n    }\n\n");
    expected.push_str("    pub fn capture_count(&self) -> usize { 1 }\n}\n");
    assert_eq!(code, expected);
}

#[test]
fn match_range_covers_the_span() {
    let e = Engine::new(Ehir::translate("b+").unwrap());
    let m = e.find("abbc").unwrap();
    assert_eq!(m.range(), 1..3);
}
