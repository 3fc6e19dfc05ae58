use vstd::prelude::*;
use vstd::string::{StrSliceExecFns, StringExecFns};

use crate::ehir::{
    opt_or_zero, spec_capturing, token_view, tokens_view, AnchorLocation, AnchorType, Decision,
    Ehir, Modifier, NoMatch, Range, SpecDecision, SpecToken, Token, WordBoundaryType,
};
use crate::error::Error;
use crate::hir::parsed_hir;

verus! {

/// The decimal digit character of a value below ten.
pub open spec fn spec_digit(d: int) -> char {
    if d == 0 {
        '0'
    } else if d == 1 {
        '1'
    } else if d == 2 {
        '2'
    } else if d == 3 {
        '3'
    } else if d == 4 {
        '4'
    } else if d == 5 {
        '5'
    } else if d == 6 {
        '6'
    } else if d == 7 {
        '7'
    } else if d == 8 {
        '8'
    } else {
        '9'
    }
}

/// The decimal digits of a value, most significant first.
pub open spec fn spec_digits(n: int) -> Seq<char>
    decreases n,
{
    if n < 10 {
        seq![spec_digit(n)]
    } else {
        spec_digits(n / 10).push(spec_digit(n % 10))
    }
}

/// The decimal digit character of a value below ten.
fn digit_str(d: u32) -> (s: &'static str)
    requires
        d < 10,
    ensures
        s@ == seq![spec_digit(d as int)],
{
    proof {
        reveal_strlit("0");
        reveal_strlit("1");
        reveal_strlit("2");
        reveal_strlit("3");
        reveal_strlit("4");
        reveal_strlit("5");
        reveal_strlit("6");
        reveal_strlit("7");
        reveal_strlit("8");
        reveal_strlit("9");
    }
    match d {
        0 => "0",
        1 => "1",
        2 => "2",
        3 => "3",
        4 => "4",
        5 => "5",
        6 => "6",
        7 => "7",
        8 => "8",
        _ => "9",
    }
}

/// Appends the decimal digits of a value.
pub(crate) fn push_u32(n: u32, code: &mut String)
    ensures
        final(code)@ == old(code)@ + spec_digits(n as int),
    decreases n,
{
    if n < 10 {
        code.append(digit_str(n));
    } else {
        push_u32(n / 10, code);
        code.append(digit_str(n % 10));
        proof {
            assert(final(code)@ =~= old(code)@ + spec_digits(n as int));
        }
    }
}

/// The comparison a range lowers to in emitted code.
pub open spec fn emit_range(r: Range) -> Seq<char> {
    match r {
        Range::Single(n) => "(character.current().unwrap() as u32) == "@ + spec_digits(n as int),
        Range::Multiple(a, b) => "((character.current().unwrap() as u32) >= "@ + spec_digits(
            a as int,
        ) + " && (character.current().unwrap() as u32) <= "@ + spec_digits(b as int) + ")"@,
    }
}

/// The alternation of range comparisons a class lowers to.
pub open spec fn emit_ranges(rs: Seq<Range>) -> Seq<char>
    decreases rs.len(),
{
    if rs.len() == 0 {
        Seq::empty()
    } else if rs.len() == 1 {
        emit_range(rs[0])
    } else {
        emit_ranges(rs.subrange(0, rs.len() - 1)) + " || "@ + emit_range(rs.last())
    }
}

/// The test a decision is rendered as in emitted code.
pub open spec fn emit_decision(d: SpecDecision) -> Seq<char> {
    match d {
        SpecDecision::CharacterSet(rs) => emit_ranges(rs),
        SpecDecision::Literal(v) => "(character.current().unwrap() as u32) == "@ + spec_digits(
            v as int,
        ),
        SpecDecision::CountEquals(n) => "match_count == "@ + spec_digits(n as int),
        SpecDecision::CountLessThan(n) => "match_count < "@ + spec_digits(n as int),
        SpecDecision::Anchor(AnchorType::Regular, AnchorLocation::Start) => "matches!(character.previous(), native_regex_lib::character::Previous::Start)"@,
        SpecDecision::Anchor(AnchorType::Newline, AnchorLocation::Start) => "match character.previous() { native_regex_lib::character::Previous::Start => true, native_regex_lib::character::Previous::Character(c) => c == '\\n' }"@,
        SpecDecision::Anchor(AnchorType::Regular, AnchorLocation::End) => "character.current().is_none()"@,
        SpecDecision::Anchor(AnchorType::Newline, AnchorLocation::End) => "match character.current() { None => true, Some(c) => c == '\\n' }"@,
        SpecDecision::WordBoundary(WordBoundaryType::Byte) => "{ let wp = match character.previous() { native_regex_lib::character::Previous::Start => false, native_regex_lib::character::Previous::Character(c) => native_regex_lib::is_word_char_ascii(c) }; let wc = match character.current() { None => false, Some(c) => native_regex_lib::is_word_char_ascii(c) }; wp != wc }"@,
        SpecDecision::WordBoundary(WordBoundaryType::Character) => "{ let wp = match character.previous() { native_regex_lib::character::Previous::Start => false, native_regex_lib::character::Previous::Character(c) => native_regex_lib::is_word_character(c) }; let wc = match character.current() { None => false, Some(c) => native_regex_lib::is_word_character(c) }; wp != wc }"@,
        SpecDecision::Middle => "character.current().is_some()"@,
    }
}

/// The code a token is rendered as: a failing decision returns or breaks, a
/// loop wraps its body, and a capture records its span around its body.
pub open spec fn emit_token(t: SpecToken) -> Seq<char>
    decreases t, 1int,
{
    match t {
        SpecToken::If(m, d, nm) => "if "@ + emit_decision(d) + (if m is Not {
            " {  } else "@
        } else {
            Seq::empty()
        }) + " { "@ + (match nm {
            NoMatch::Stop => "return None;"@,
            NoMatch::Break => "break;"@,
        }) + " }\n\n"@,
        SpecToken::While(d, body) => "while "@ + emit_decision(d) + " "@ + emit_tokens(body),
        SpecToken::StartCount => "let mut match_count = 0;\n\n"@,
        SpecToken::IncrementCount => "match_count += 1;\n\n"@,
        SpecToken::Advance => "character = chars.advance();\n\n"@,
        SpecToken::Capture(i, body) => "let capture_"@ + spec_digits(i as int)
            + "_start = character.index();\n\n"@ + emit_tokens(body) + "captures.insert("@
            + spec_digits(i as int) + ", (capture_"@ + spec_digits(i as int)
            + "_start, character.index()));\n\n"@,
        SpecToken::Block(body) => "{\n\n"@ + emit_tokens(body) + "}\n\n"@,
        SpecToken::Empty => Seq::empty(),
    }
}

/// The code of a row of tokens, one after the other.
pub open spec fn emit_tokens(ts: Seq<SpecToken>) -> Seq<char>
    decreases ts, 2int,
{
    if ts.len() == 0 {
        Seq::empty()
    } else {
        emit_tokens(ts.subrange(0, ts.len() - 1)) + emit_token(ts.last())
    }
}

/// The lines that fill the capture-name table of an emitted matcher.
pub open spec fn emit_names(names: Seq<(Seq<char>, u32)>) -> Seq<char>
    decreases names.len(),
{
    if names.len() == 0 {
        Seq::empty()
    } else {
        emit_names(names.subrange(0, names.len() - 1))
            + "named_groups.push((String::from(\""@ + names.last().0 + "\"), "@ + spec_digits(
            names.last().1 as int,
        ) + "));\n"@
    }
}

/// Appends the comparison of one range.
fn range_to_snippet(range: &Range, code: &mut String)
    ensures
        final(code)@ == old(code)@ + emit_range(*range),
{
    match range {
        Range::Single(n) => {
            code.append("(character.current().unwrap() as u32) == ");
            push_u32(*n, code);
        },
        Range::Multiple(n, m) => {
            code.append("((character.current().unwrap() as u32) >= ");
            push_u32(*n, code);
            code.append(" && (character.current().unwrap() as u32) <= ");
            push_u32(*m, code);
            code.append(")");
        },
    }
    proof {
        assert(final(code)@ =~= old(code)@ + emit_range(*range));
    }
}


/// Appends the test of one decision.
fn decision_to_snippet(decision: &Decision, code: &mut String)
    ensures
        final(code)@ == old(code)@ + emit_decision(crate::ehir::decision_view(*decision)),
{
    match decision {
        Decision::CharacterSet(range_list) => {
            let n = range_list.len();
            proof {
                assert(range_list@.subrange(0, 0int) =~= Seq::<Range>::empty());
            }
            let mut k: usize = 0;
            while k < n
                invariant
                    k <= n,
                    n == range_list@.len(),
                    code@ == old(code)@ + emit_ranges(range_list@.subrange(0, k as int)),
                decreases n - k,
            {
                if k > 0 {
                    code.append(" || ");
                }
                range_to_snippet(&range_list[k], code);
                proof {
                    assert(range_list@.subrange(0, k + 1).subrange(0, k as int) =~= range_list@
                        .subrange(0, k as int));
                    assert(range_list@.subrange(0, k + 1).last() == range_list@[k as int]);
                    assert(code@ =~= old(code)@ + emit_ranges(range_list@.subrange(0, k + 1)));
                }
                k += 1;
            }
            proof {
                assert(range_list@.subrange(0, n as int) =~= range_list@);
            }
        },
        Decision::Literal(character) => {
            code.append("(character.current().unwrap() as u32) == ");
            push_u32(*character, code);
        },
        Decision::CountEquals(n) => {
            code.append("match_count == ");
            push_u32(*n, code);
        },
        Decision::CountLessThan(n) => {
            code.append("match_count < ");
            push_u32(*n, code);
        },
        Decision::Anchor(anchor_type, anchor_location) => {
            match (anchor_type, anchor_location) {
                (AnchorType::Regular, AnchorLocation::Start) => {
                    code.append(
                        "matches!(character.previous(), native_regex_lib::character::Previous::Start)",
                    );
                },
                (AnchorType::Newline, AnchorLocation::Start) => {
                    code.append(
                        "match character.previous() { native_regex_lib::character::Previous::Start => true, native_regex_lib::character::Previous::Character(c) => c == '\\n' }",
                    );
                },
                (AnchorType::Regular, AnchorLocation::End) => {
                    code.append("character.current().is_none()");
                },
                (AnchorType::Newline, AnchorLocation::End) => {
                    code.append(
                        "match character.current() { None => true, Some(c) => c == '\\n' }",
                    );
                },
            }
        },
        Decision::WordBoundary(boundary_type) => {
            match boundary_type {
                WordBoundaryType::Byte => {
                    code.append(
                        "{ let wp = match character.previous() { native_regex_lib::character::Previous::Start => false, native_regex_lib::character::Previous::Character(c) => native_regex_lib::is_word_char_ascii(c) }; let wc = match character.current() { None => false, Some(c) => native_regex_lib::is_word_char_ascii(c) }; wp != wc }",
                    );
                },
                WordBoundaryType::Character => {
                    code.append(
                        "{ let wp = match character.previous() { native_regex_lib::character::Previous::Start => false, native_regex_lib::character::Previous::Character(c) => native_regex_lib::is_word_character(c) }; let wc = match character.current() { None => false, Some(c) => native_regex_lib::is_word_character(c) }; wp != wc }",
                    );
                },
            }
        },
        Decision::Middle => {
            code.append("character.current().is_some()");
        },
    }
    proof {
        assert(final(code)@ =~= old(code)@ + emit_decision(crate::ehir::decision_view(*decision)));
    }
}

/// Appends the code of one token.
pub fn translate_token(token: &Token, code: &mut String)
    ensures
        final(code)@ == old(code)@ + emit_token(token_view(*token)),
    decreases *token, 1int,
{
    match token {
        Token::If(modifier, decision, stop_or_break) => {
            code.append("if ");
            decision_to_snippet(decision, code);
            match modifier {
                Modifier::Not => {
                    code.append(" {  } else ");
                },
                Modifier::Is => {},
            }
            code.append(" { ");
            match stop_or_break {
                NoMatch::Stop => {
                    code.append("return None;");
                },
                NoMatch::Break => {
                    code.append("break;");
                },
            }
            code.append(" }\n\n");
            proof {
                assert(final(code)@ =~= old(code)@ + emit_token(token_view(*token)));
            }
        },
        Token::While(decision, block) => {
            code.append("while ");
            decision_to_snippet(decision, code);
            code.append(" ");
            proof {
                assert(decreases_to!(*token => **block));
            }
            translate_token(block, code);
            proof {
                lemma_emit_tokens_singleton(token_view(**block));
                assert(final(code)@ =~= old(code)@ + emit_token(token_view(*token)));
            }
        },
        Token::StartCount => {
            code.append("let mut match_count = 0;\n\n");
        },
        Token::IncrementCount => {
            code.append("match_count += 1;\n\n");
        },
        Token::Advance => {
            code.append("character = chars.advance();\n\n");
        },
        Token::Capture(index, token_list) => {
            code.append("let capture_");
            push_u32(*index, code);
            code.append("_start = character.index();\n\n");
            translate_tokens(token_list, code);
            code.append("captures.insert(");
            push_u32(*index, code);
            code.append(", (capture_");
            push_u32(*index, code);
            code.append("_start, character.index()));\n\n");
            proof {
                assert(final(code)@ =~= old(code)@ + emit_token(token_view(*token)));
            }
        },
        Token::Block(token_list) => {
            code.append("{\n\n");
            translate_tokens(token_list, code);
            code.append("}\n\n");
            proof {
                assert(final(code)@ =~= old(code)@ + emit_token(token_view(*token)));
            }
        },
        Token::Empty => {
            proof {
                assert(final(code)@ =~= old(code)@ + emit_token(token_view(*token)));
            }
        },
    }
}

/// The code of a row of one token is the code of the token.
proof fn lemma_emit_tokens_singleton(t: SpecToken)
    ensures
        emit_tokens(seq![t]) == emit_token(t),
{
    reveal_with_fuel(emit_tokens, 2);
    assert(seq![t].subrange(0, 0) =~= Seq::<SpecToken>::empty());
    assert(emit_tokens(seq![t]) =~= emit_token(t));
}

/// Appends the code of a row of tokens, one after the other.
fn translate_tokens(tokens: &Vec<Token>, code: &mut String)
    ensures
        final(code)@ == old(code)@ + emit_tokens(tokens_view(tokens@)),
    decreases tokens@, 2int,
{
    broadcast use crate::ehir::group_tokens_view;

    let n = tokens.len();
    proof {
        assert(tokens_view(tokens@).subrange(0, 0int) =~= Seq::<SpecToken>::empty());
    }
    let mut k: usize = 0;
    while k < n
        invariant
            k <= n,
            n == tokens@.len(),
            code@ == old(code)@ + emit_tokens(tokens_view(tokens@).subrange(0, k as int)),
        decreases n - k,
    {
        proof {
            assert(decreases_to!(tokens@ => tokens@[k as int]));
        }
        translate_token(&tokens[k], code);
        proof {
            broadcast use crate::ehir::group_tokens_view;

            let tv = tokens_view(tokens@);
            assert(tv.subrange(0, k + 1).subrange(0, k as int) =~= tv.subrange(0, k as int));
            assert(tv.subrange(0, k + 1).last() == tv[k as int]);
            assert(tv[k as int] == token_view(tokens@[k as int]));
            assert(code@ =~= old(code)@ + emit_tokens(tv.subrange(0, k + 1)));
        }
        k += 1;
    }
    proof {
        broadcast use crate::ehir::group_tokens_view;

        assert(tokens_view(tokens@).subrange(0, n as int) =~= tokens_view(tokens@));
    }
}

/// Appends the lines that fill the capture-name table.
pub fn map_to_snippet(map: &Vec<(String, u32)>, code: &mut String)
    ensures
        final(code)@ == old(code)@ + emit_names(crate::ehir::names_view(map@)),
{
    let n = map.len();
    let ghost nv = crate::ehir::names_view(map@);
    proof {
        assert(nv.subrange(0, 0int) =~= Seq::<(Seq<char>, u32)>::empty());
    }
    let mut k: usize = 0;
    while k < n
        invariant
            k <= n,
            n == map@.len(),
            nv == crate::ehir::names_view(map@),
            nv.len() == n,
            code@ == old(code)@ + emit_names(nv.subrange(0, k as int)),
        decreases n - k,
    {
        code.append("named_groups.push((String::from(\"");
        code.append(map[k].0.as_str());
        code.append("\"), ");
        push_u32(map[k].1, code);
        code.append("));\n");
        proof {
            assert(nv.subrange(0, k + 1).subrange(0, k as int) =~= nv.subrange(0, k as int));
            assert(nv.subrange(0, k + 1).last() == nv[k as int]);
            assert(code@ =~= old(code)@ + emit_names(nv.subrange(0, k + 1)));
        }
        k += 1;
    }
    proof {
        assert(nv.subrange(0, n as int) =~= nv);
    }
}


/// The source text of an emitted matcher: a struct holding the capture-name
/// table, its constructor, the `step` function walking the program, and the
/// accessors for the names and the slot count.
pub open spec fn emit_matcher(
    prog: Seq<SpecToken>,
    names: Seq<(Seq<char>, u32)>,
    count: u32,
    name: Seq<char>,
    regex: Seq<char>,
) -> Seq<char> {
    "pub struct "@ + name + " {\n    named_groups: Vec<(String, usize)>,\n}\n\nimpl "@ + name
        + " {\n    #[allow(unused_mut)]\n    pub fn new() -> Self {\n        let mut named_groups: Vec<(String, usize)> = Vec::new();\n"@
        + emit_names(names) + "        "@ + name
        + " { named_groups }\n    }\n\n    // Matches the pattern '"@ + regex
        + "'\n    #[allow(unused_parens, unused_comparisons, unused_mut, unused_variables, unreachable_code)]\n    pub fn step(mut chars: native_regex_lib::character::Advancer, captures: &mut native_regex_lib::vectormap::VectorMap<(usize, usize)>) -> Option<()> {\n        let mut character = chars.advance();\n\n"@
        + emit_tokens(prog)
        + "\n        Some(())\n    }\n\n    pub fn capture_names(&self) -> &Vec<(String, usize)> {\n        &self.named_groups\n    }\n\n    pub fn capture_count(&self) -> usize { "@
        + spec_digits(count as int) + " }\n}\n"@
}

/// Renders the matcher of a lowered pattern under the given name.
fn translate_ehir(ehir: &Ehir, struct_name: &str) -> (code: String)
    ensures
        code@ == emit_matcher(
            ehir.program_view(),
            ehir.names_v(),
            ehir.count_view(),
            struct_name@,
            ehir.regex_view(),
        ),
{
    let mut code = String::new();
    code.append("pub struct ");
    code.append(struct_name);
    code.append(" {\n    named_groups: Vec<(String, usize)>,\n}\n\nimpl ");
    code.append(struct_name);
    code.append(
        " {\n    #[allow(unused_mut)]\n    pub fn new() -> Self {\n        let mut named_groups: Vec<(String, usize)> = Vec::new();\n",
    );
    map_to_snippet(ehir.capture_names(), &mut code);
    code.append("        ");
    code.append(struct_name);
    code.append(" { named_groups }\n    }\n\n    // Matches the pattern '");
    code.append(ehir.regex());
    code.append(
        "'\n    #[allow(unused_parens, unused_comparisons, unused_mut, unused_variables, unreachable_code)]\n    pub fn step(mut chars: native_regex_lib::character::Advancer, captures: &mut native_regex_lib::vectormap::VectorMap<(usize, usize)>) -> Option<()> {\n        let mut character = chars.advance();\n\n",
    );
    translate_tokens(ehir.tokens(), &mut code);
    code.append(
        "\n        Some(())\n    }\n\n    pub fn capture_names(&self) -> &Vec<(String, usize)> {\n        &self.named_groups\n    }\n\n    pub fn capture_count(&self) -> usize { ",
    );
    push_u32(ehir.capture_count(), &mut code);
    code.append(" }\n}\n");
    proof {
        assert(code@ =~= emit_matcher(
            ehir.program_view(),
            ehir.names_v(),
            ehir.count_view(),
            struct_name@,
            ehir.regex_view(),
        ));
    }
    code
}

/// Whether a character may open an identifier.
pub open spec fn ident_start(c: char) -> bool {
    ('a' <= c <= 'z') || ('A' <= c <= 'Z') || c == '_'
}

/// A valid matcher name: a letter or underscore followed by letters, digits
/// and underscores.
pub open spec fn is_valid_identifier(s: Seq<char>) -> bool {
    &&& s.len() > 0
    &&& ident_start(s[0])
    &&& forall|i: int| 1 <= i < s.len() ==> crate::spec_is_word_char_ascii(#[trigger] s[i])
}

/// Checks that a matcher name is a plain identifier.
fn name_identifier_validator(identifier: &str) -> (r: bool)
    ensures
        r == is_valid_identifier(identifier@),
{
    let n = identifier.unicode_len();
    if n == 0 {
        return false;
    }
    let c0 = identifier.get_char(0);
    if !(('a' <= c0 && c0 <= 'z') || ('A' <= c0 && c0 <= 'Z') || c0 == '_') {
        return false;
    }
    let mut k: usize = 1;
    while k < n
        invariant
            1 <= k <= n,
            n == identifier@.len(),
            ident_start(identifier@[0]),
            forall|i: int| 1 <= i < k ==> crate::spec_is_word_char_ascii(#[trigger] identifier@[i]),
        decreases n - k,
    {
        if !crate::is_word_char_ascii(identifier.get_char(k)) {
            return false;
        }
        k += 1;
    }
    true
}

/// Compiles a pattern into the source text of a standalone matcher named by
/// the identifier: the pattern is parsed and lowered, and the program is
/// rendered as code against the runtime library.
pub fn translate(regex: &str, identifier_name: &str) -> (r: Result<String, Error>)
    ensures
        match r {
            Ok(code) => {
                &&& is_valid_identifier(identifier_name@)
                &&& parsed_hir(regex@) matches Ok(h)
                &&& crate::ehir::lower_spec(h, false) matches Ok(out)
                &&& opt_or_zero(out.1) < 63
                &&& code@ == emit_matcher(
                    spec_capturing(0, out.0),
                    out.2,
                    (opt_or_zero(out.1) + 1) as u32,
                    identifier_name@,
                    regex@,
                )
            },
            Err(err) => match err {
                Error::InvalidIdentifier(m) => !is_valid_identifier(identifier_name@) && m@
                    == identifier_name@,
                Error::InvalidPattern(m) => is_valid_identifier(identifier_name@) && parsed_hir(
                    regex@,
                ) == Err::<crate::hir::HirExpr, Seq<char>>(m@),
                Error::UnsupportedConstruct(c) => {
                    &&& is_valid_identifier(identifier_name@)
                    &&& parsed_hir(regex@) matches Ok(h)
                    &&& crate::ehir::lower_spec(h, false) matches Err(c2) && c2 == c
                },
                Error::CaptureLimitExceeded => {
                    &&& is_valid_identifier(identifier_name@)
                    &&& parsed_hir(regex@) matches Ok(h)
                    &&& crate::ehir::lower_spec(h, false) matches Ok(out) && opt_or_zero(out.1)
                        >= 63
                },
            },
        },
{
    if !name_identifier_validator(identifier_name) {
        return Err(Error::InvalidIdentifier(identifier_name.to_owned()));
    }
    match Ehir::translate(regex) {
        Err(e) => Err(e),
        Ok(ehir) => Ok(translate_ehir(&ehir, identifier_name)),
    }
}

} // verus!
