use vstd::prelude::*;

verus! {

use regex_syntax::hir::{RepetitionKind as RK, RepetitionRange as RR, GroupKind as GK, HirKind as HK, Literal as L};

/// How often a repeated subexpression may match.
#[derive(Clone, Debug)]
pub enum RepeatKind {
    ZeroOrOne,
    ZeroOrMore,
    OneOrMore,
    Exactly(u32),
    AtLeast(u32),
    Bounded(u32, u32),
}

/// Whether a group captures, and under which index or name.
#[derive(Clone, Debug)]
pub enum HirGroup {
    NonCapturing,
    CaptureIndex(u32),
    CaptureName(String, u32),
}

/// The position a text or line anchor asserts.
#[derive(Clone, Copy, Debug)]
pub enum AnchorKind {
    StartText,
    EndText,
    StartLine,
    EndLine,
}

/// The flavour of a word-boundary assertion.
#[derive(Clone, Copy, Debug)]
pub enum BoundaryKind {
    Unicode,
    Ascii,
    UnicodeNegate,
    AsciiNegate,
}

/// The canonical shape of a parsed pattern: the library's model of the
/// pattern parser's output, holding code points and plain ranges.
#[derive(Debug)]
pub enum HirExpr {
    /// Matches the empty string.
    Empty,
    /// Matches exactly one code point.
    Literal(u32),
    /// Matches one code point inside any of the inclusive ranges.
    Class(Vec<(u32, u32)>),
    /// A zero-width position assertion.
    Anchor(AnchorKind),
    /// A zero-width word-boundary assertion.
    WordBoundary(BoundaryKind),
    /// A repeated subexpression; the flag is true when the repetition is
    /// greedy.
    Repetition(RepeatKind, bool, Box<HirExpr>),
    /// A group around a subexpression.
    Group(HirGroup, Box<HirExpr>),
    /// Subexpressions matched one after the other.
    Concat(Vec<HirExpr>),
    /// A choice between branches; recorded only to be rejected later.
    Alternation,
}

/// What the pattern parser returns for a pattern: the model of its
/// high-level IR on success, the rendered parse error otherwise. The result
/// depends on the pattern text alone.
pub uninterp spec fn parsed_hir(pattern: Seq<char>) -> Result<HirExpr, Seq<char>>;

#[verifier::external_type_specification]
#[verifier::external_body]
pub struct ExRegexHir(regex_syntax::hir::Hir);

#[verifier::external_type_specification]
#[verifier::external_body]
pub struct ExRegexClass(regex_syntax::hir::Class);

#[verifier::external_type_specification]
#[verifier::external_body]
pub struct ExRegexAnchor(regex_syntax::hir::Anchor);

#[verifier::external_type_specification]
#[verifier::external_body]
pub struct ExRegexWordBoundary(regex_syntax::hir::WordBoundary);

#[verifier::external_type_specification]
#[verifier::external_body]
pub struct ExRegexRepetitionKind(regex_syntax::hir::RepetitionKind);

#[verifier::external_type_specification]
#[verifier::external_body]
pub struct ExRegexGroupKind(regex_syntax::hir::GroupKind);

#[verifier::external_type_specification]
#[verifier::external_body]
pub struct ExRegexRepetition(regex_syntax::hir::Repetition);

#[verifier::external_type_specification]
#[verifier::external_body]
pub struct ExRegexGroup(regex_syntax::hir::Group);

/// Carries a class of the outside IR into the model: each inclusive range
/// of the class, one for one, as a pair of code points.
#[verifier::external_body]
fn convert_class(c: &regex_syntax::hir::Class) -> Vec<(u32, u32)> {
    match c {
        regex_syntax::hir::Class::Unicode(u) => {
            u.iter().map(|r| (r.start() as u32, r.end() as u32)).collect()
        },
        regex_syntax::hir::Class::Bytes(b) => {
            b.iter().map(|r| (r.start() as u32, r.end() as u32)).collect()
        },
    }
}

/// Carries an anchor of the outside IR into the model, variant for variant.
#[verifier::external_body]
fn convert_anchor(a: &regex_syntax::hir::Anchor) -> AnchorKind {
    match a {
        regex_syntax::hir::Anchor::StartText => AnchorKind::StartText,
        regex_syntax::hir::Anchor::EndText => AnchorKind::EndText,
        regex_syntax::hir::Anchor::StartLine => AnchorKind::StartLine,
        regex_syntax::hir::Anchor::EndLine => AnchorKind::EndLine,
    }
}

/// Carries a word-boundary assertion of the outside IR into the model,
/// variant for variant.
#[verifier::external_body]
fn convert_boundary(w: &regex_syntax::hir::WordBoundary) -> BoundaryKind {
    match w {
        regex_syntax::hir::WordBoundary::Unicode => BoundaryKind::Unicode,
        regex_syntax::hir::WordBoundary::Ascii => BoundaryKind::Ascii,
        regex_syntax::hir::WordBoundary::UnicodeNegate => BoundaryKind::UnicodeNegate,
        regex_syntax::hir::WordBoundary::AsciiNegate => BoundaryKind::AsciiNegate,
    }
}

/// Carries a repetition kind of the outside IR into the model, variant for
/// variant.
#[verifier::external_body]
fn convert_repeat(k: &regex_syntax::hir::RepetitionKind) -> RepeatKind {
    match k {
        RK::ZeroOrOne => RepeatKind::ZeroOrOne,
        RK::ZeroOrMore => RepeatKind::ZeroOrMore,
        RK::OneOrMore => RepeatKind::OneOrMore,
        RK::Range(RR::Exactly(n)) => RepeatKind::Exactly(*n),
        RK::Range(RR::AtLeast(n)) => RepeatKind::AtLeast(*n),
        RK::Range(RR::Bounded(n, m)) => RepeatKind::Bounded(*n, *m),
    }
}

/// Carries a group kind of the outside IR into the model, moving the name
/// and index of a capturing group.
#[verifier::external_body]
fn convert_group(k: &regex_syntax::hir::GroupKind) -> HirGroup {
    match k {
        GK::NonCapturing => HirGroup::NonCapturing,
        GK::CaptureIndex(i) => HirGroup::CaptureIndex(*i),
        GK::CaptureName { name, index } => HirGroup::CaptureName(name.clone(), *index),
    }
}

/// Carries a repetition of the outside IR into the model, moving its kind
/// and greediness and carrying its child over recursively.
#[verifier::external_body]
fn convert_repetition(r: &regex_syntax::hir::Repetition) -> HirExpr {
    HirExpr::Repetition(convert_repeat(&r.kind), r.greedy, Box::new(convert_hir(&r.hir)))
}

/// Carries a group of the outside IR into the model, moving its kind and
/// carrying its child over recursively.
#[verifier::external_body]
fn convert_group_node(g: &regex_syntax::hir::Group) -> HirExpr {
    HirExpr::Group(convert_group(&g.kind), Box::new(convert_hir(&g.hir)))
}

/// Carries a node of the outside IR into the model, node for node; children
/// are carried over recursively.
#[verifier::external_body]
fn convert_hir(h: &regex_syntax::hir::Hir) -> HirExpr {
    match h.kind() {
        HK::Empty => HirExpr::Empty,
        HK::Literal(L::Unicode(c)) => HirExpr::Literal(*c as u32),
        HK::Literal(L::Byte(b)) => HirExpr::Literal(*b as u32),
        HK::Class(c) => HirExpr::Class(convert_class(c)),
        HK::Anchor(a) => HirExpr::Anchor(convert_anchor(a)),
        HK::WordBoundary(w) => HirExpr::WordBoundary(convert_boundary(w)),
        HK::Repetition(r) => convert_repetition(r),
        HK::Group(g) => convert_group_node(g),
        HK::Concat(hs) => HirExpr::Concat(hs.iter().map(convert_hir).collect()),
        HK::Alternation(_) => HirExpr::Alternation,
    }
}

/// Relies on `regex_syntax::Parser::parse` (with its default configuration):
/// it parses a pattern into the crate's high-level IR, deterministically in
/// the pattern text, and renders errors with the crate's error formatting.
/// The IR is carried into the library's model node for node.
#[verifier::external_body]
pub fn parse_pattern(pattern: &str) -> (r: Result<HirExpr, String>)
    ensures
        match r {
            Ok(h) => parsed_hir(pattern@) == Ok::<HirExpr, Seq<char>>(h),
            Err(m) => parsed_hir(pattern@) == Err::<HirExpr, Seq<char>>(m@),
        },
{
    match regex_syntax::Parser::new().parse(pattern) {
        Ok(h) => Ok(convert_hir(&h)),
        Err(e) => Err(e.to_string()),
    }
}

} // verus!
