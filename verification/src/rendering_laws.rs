//! What a line of output, rendered as an expectation, reads back as: the
//! expectation that the rendering parses to matches the line.
use vstd::prelude::*;

use crate::escaping::{
    ascii_chars, escaped_marker, is_other_char, is_printable_ascii, law_unescape_inverts_escape,
    lemma_byte_token, lemma_escape_bytes_ascii, spec_char_unicode, spec_escape_bytes,
    spec_escape_chars, spec_escaped_expectation_ascii, spec_escaped_expectation_unicode,
    spec_escaped_printable_ascii, spec_escaped_printable_unicode, spec_has_unprintable_ascii,
    spec_has_unprintable_unicode,
};
use crate::rules::spec_unescape;
use vstd::utf8::{decode_utf8, encode_utf8, valid_utf8};
use crate::expectation::{is_space, law_expression_string_parses_back, spec_parse_expectation, spec_suffix_start};
use crate::newline::{spec_trim_newlines, NL};
use crate::rules::{spec_expression_string, spec_quantifier, spec_rule_matches, RuleKind};
use crate::text::{ascii_bytes, lemma_encode_ascii};

verus! {

/// Whether a line of output (without its line feed) renders in the ASCII
/// flavour to an expectation that reads back unambiguously: it holds no
/// line feed; escaped, it does not end in a space; as it is, it does not end
/// in something that reads as a kind suffix.
pub open spec fn ascii_rendering_unambiguous(body: Seq<u8>) -> bool {
    &&& !body.contains(NL)
    &&& spec_has_unprintable_ascii(body) ==> body.last() != 32u8
    &&& !spec_has_unprintable_ascii(body) ==> spec_suffix_start(ascii_chars(body)) is None
}

/// Whether a line of output (without its line feed) renders in the Unicode
/// flavour to an expectation that reads back unambiguously: it holds no
/// line feed; escaped, it does not end in whitespace and, where it is valid
/// UTF-8, holds no backslash; as it is, it does not end in something that
/// reads as a kind suffix.
pub open spec fn unicode_rendering_unambiguous(body: Seq<u8>) -> bool {
    &&& !body.contains(NL)
    &&& spec_has_unprintable_unicode(body) ==> body.len() > 0 && !is_space(body.last() as char)
    &&& spec_has_unprintable_unicode(body) && valid_utf8(body) ==> !body.contains(92u8)
    &&& !spec_has_unprintable_unicode(body) ==> spec_suffix_start(decode_utf8(body)) is None
}

proof fn lemma_marker_is_escaped_suffix(e: Seq<char>)
    ensures
        e + escaped_marker() == spec_expression_string(RuleKind::Escaped, e, false, false),
{
    reveal_strlit(" (");
    reveal_strlit(")");
    reveal_strlit("");
    reveal_strlit("escaped");
    assert(spec_quantifier(false, false) == ""@);
    assert(e + escaped_marker() =~= e + " ("@ + "escaped"@ + ""@ + ")"@);
}

proof fn lemma_escape_ends_in_no_space(s: Seq<u8>)
    requires
        s.len() > 0,
        s.last() != 32u8,
    ensures
        !is_space(spec_escape_bytes(s).last()),
        spec_escape_bytes(s).len() > 0,
    decreases s.len(),
{
    if s.len() > 1 {
        let rest = s.drop_first();
        assert(rest.last() == s.last());
        lemma_escape_ends_in_no_space(rest);
        assert(spec_escape_bytes(s) == crate::escaping::spec_byte_to_ascii(s[0]) + spec_escape_bytes(
            rest,
        ));
    } else {
        assert(s.drop_first() =~= Seq::<u8>::empty());
        assert(spec_escape_bytes(s.drop_first()) =~= Seq::<char>::empty());
        assert(spec_escape_bytes(s) =~= crate::escaping::spec_byte_to_ascii(s[0]) + spec_escape_bytes(
            s.drop_first(),
        ));
        assert(spec_escape_bytes(s) =~= crate::escaping::spec_byte_to_ascii(s[0]));
    }
}

/// A line of output (with its line feed) that is rendered as an expectation
/// in the ASCII flavour reads back as an expectation, neither optional nor
/// multiline, that matches the line. The rendering must not be ambiguous:
/// an escaped line must not end in a space (the space before the marker
/// would swallow it), and a line rendered as it is must not itself end in
/// something that reads as a kind suffix.
pub proof fn law_ascii_rendering_reads_back(body: Seq<u8>)
    requires
        ascii_rendering_unambiguous(body),
    ensures
        spec_parse_expectation(spec_escaped_expectation_ascii(body.push(NL))) matches Some(v)
            && !v.optional && !v.multiline && spec_rule_matches(v.kind, v.expression, body.push(NL)),
{
    let line = body.push(NL);
    assert(line.drop_last() =~= body);
    if body.len() > 0 {
        assert(body.last() != NL) by {
            assert(body[body.len() - 1] == body.last());
        }
    }
    assert(spec_trim_newlines(line, NL) == spec_trim_newlines(body, NL));
    assert(spec_trim_newlines(body, NL) == body);
    if spec_has_unprintable_ascii(body) {
        let e = spec_escape_bytes(body);
        lemma_escape_ends_in_no_space(body);
        lemma_marker_is_escaped_suffix(e);
        law_expression_string_parses_back(RuleKind::Escaped, e, false, false);
        law_unescape_inverts_escape(body);
        assert(crate::rules::spec_line_body(line) == body);
    } else {
        let e = ascii_chars(body);
        assert(spec_expression_string(RuleKind::Equal, e, false, false) == e) by {
            reveal_strlit("");
            assert(spec_quantifier(false, false) == ""@);
        }
        law_expression_string_parses_back(RuleKind::Equal, e, false, false);
        assert forall|i: int| 0 <= i < e.len() implies '\0' <= #[trigger] e[i] <= '\u{7f}' by {
            assert(is_printable_ascii(body[i]));
        }
        lemma_encode_ascii(e);
        assert(ascii_bytes(e) =~= body);
    }
}

/// The last line of output, when it has no line feed, is rendered as an
/// expectation in the ASCII flavour either escaped (which marks it as such)
/// or with the no-eol marker; either reads back as an expectation, neither
/// optional nor multiline, that matches the line. The line must not end in
/// a space, which the space before a marker would swallow.
pub proof fn law_ascii_rendering_without_newline_reads_back(body: Seq<u8>)
    requires
        !body.contains(NL),
        body.len() > 0,
        body.last() != 32u8,
    ensures
        ({
            let r = spec_escaped_expectation_ascii(body);
            let full = if spec_has_unprintable_ascii(body) {
                r
            } else {
                r + crate::output::no_eol_marker()
            };
            spec_parse_expectation(full) matches Some(v) && !v.optional && !v.multiline
                && spec_rule_matches(v.kind, v.expression, body)
        }),
{
    assert(body.last() != NL) by {
        assert(body[body.len() - 1] == body.last());
    }
    assert(spec_trim_newlines(body, NL) == body);
    assert(crate::rules::spec_line_body(body) == body);
    if spec_has_unprintable_ascii(body) {
        let e = spec_escape_bytes(body);
        lemma_escape_ends_in_no_space(body);
        lemma_marker_is_escaped_suffix(e);
        law_expression_string_parses_back(RuleKind::Escaped, e, false, false);
        law_unescape_inverts_escape(body);
    } else {
        let e = ascii_chars(body);
        assert(e + crate::output::no_eol_marker() == spec_expression_string(
            RuleKind::NoEol,
            e,
            false,
            false,
        )) by {
            reveal_strlit(" (");
            reveal_strlit(")");
            reveal_strlit("");
            reveal_strlit("no-eol");
            reveal_strlit(" (no-eol)");
            assert(spec_quantifier(false, false) == ""@);
            assert(e + " (no-eol)"@ =~= e + " ("@ + "no-eol"@ + ""@ + ")"@);
        }
        assert(e.last() == body.last() as char);
        assert(!is_space(e.last()));
        law_expression_string_parses_back(RuleKind::NoEol, e, false, false);
        assert forall|i: int| 0 <= i < e.len() implies '\0' <= #[trigger] e[i] <= '\u{7f}' by {
            assert(is_printable_ascii(body[i]));
        }
        lemma_encode_ascii(e);
        assert(ascii_bytes(e) =~= body);
    }
}

proof fn lemma_encode_single(c: char)
    ensures
        encode_utf8(seq![c]).len() >= 1,
        (c as u32) < 0x80 ==> encode_utf8(seq![c]) == seq![c as u8],
{
    assert(seq![c].drop_first() =~= Seq::<char>::empty());
    if (c as u32) < 0x80 {
        assert(vstd::utf8::is_ascii_chars(seq![c]));
        lemma_encode_ascii(seq![c]);
        assert(ascii_bytes(seq![c]) =~= seq![c as u8]);
    }
}

/// Bytes without a backslash stand for themselves when unescaped.
proof fn lemma_raw_passes(b: Seq<u8>, y: Seq<u8>)
    requires
        !b.contains(92u8),
    ensures
        spec_unescape(b + y) == b + spec_unescape(y),
    decreases b.len(),
{
    if b.len() == 0 {
        assert(b + y =~= y);
        assert(b + spec_unescape(y) =~= spec_unescape(y));
    } else {
        let rest = b.drop_first();
        assert(!rest.contains(92u8)) by {
            if rest.contains(92u8) {
                let j = choose|j: int| 0 <= j < rest.len() && rest[j] == 92u8;
                assert(b[j + 1] == 92u8);
            }
        }
        lemma_raw_passes(rest, y);
        assert(b[0] != 92u8);
        assert((b + y)[0] == b[0]);
        assert((b + y).drop_first() =~= rest + y);
        assert(seq![b[0]] + (rest + spec_unescape(y)) =~= b + spec_unescape(y));
    }
}

/// Escaped bytes stand for the bytes when unescaped, whatever follows.
proof fn lemma_escape_passes(x: Seq<u8>, y: Seq<u8>)
    ensures
        spec_unescape(ascii_bytes(spec_escape_bytes(x)) + y) == x + spec_unescape(y),
    decreases x.len(),
{
    if x.len() == 0 {
        assert(ascii_bytes(spec_escape_bytes(x)) =~= Seq::<u8>::empty());
        assert(ascii_bytes(spec_escape_bytes(x)) + y =~= y);
        assert(x + spec_unescape(y) =~= spec_unescape(y));
    } else {
        let rest = x.drop_first();
        let a = ascii_bytes(crate::escaping::spec_byte_to_ascii(x[0]));
        let b = ascii_bytes(spec_escape_bytes(rest));
        assert(spec_escape_bytes(x) == crate::escaping::spec_byte_to_ascii(x[0]) + spec_escape_bytes(
            rest,
        ));
        assert(ascii_bytes(spec_escape_bytes(x)) =~= a + b);
        assert(a + b + y =~= a + (b + y));
        lemma_byte_token(x[0], b + y);
        lemma_escape_passes(rest, y);
        assert(seq![x[0]] + (rest + spec_unescape(y)) =~= x + spec_unescape(y));
    }
}

/// The rendering of a character stands for its encoding when unescaped,
/// provided the encoding holds no backslash.
proof fn lemma_char_passes(c: char, y: Seq<u8>)
    requires
        !encode_utf8(seq![c]).contains(92u8),
    ensures
        spec_unescape(encode_utf8(spec_char_unicode(c)) + y) == encode_utf8(seq![c]) + spec_unescape(y),
{
    let x = encode_utf8(seq![c]);
    if is_other_char(c) {
        if spec_has_unprintable_ascii(x) {
            lemma_escape_bytes_ascii(x);
            lemma_encode_ascii(spec_escape_bytes(x));
            lemma_escape_passes(x, y);
        } else {
            let a = ascii_chars(x);
            assert forall|i: int| 0 <= i < a.len() implies '\0' <= #[trigger] a[i] <= '\u{7f}' by {
                assert(is_printable_ascii(x[i]));
            }
            lemma_encode_ascii(a);
            assert(ascii_bytes(a) =~= x);
            lemma_raw_passes(x, y);
        }
    } else {
        lemma_raw_passes(x, y);
    }
}

/// The renderings of characters stand for their encodings when unescaped,
/// provided the encodings hold no backslash.
proof fn lemma_chars_pass(cs: Seq<char>, y: Seq<u8>)
    requires
        !encode_utf8(cs).contains(92u8),
    ensures
        spec_unescape(encode_utf8(spec_escape_chars(cs)) + y) == encode_utf8(cs) + spec_unescape(y),
    decreases cs.len(),
{
    if cs.len() == 0 {
        assert(spec_escape_chars(cs) =~= Seq::<char>::empty());
        assert(encode_utf8(Seq::<char>::empty()) =~= Seq::<u8>::empty());
        assert(encode_utf8(cs) =~= Seq::<u8>::empty());
        assert(Seq::<u8>::empty() + y =~= y);
        assert(Seq::<u8>::empty() + spec_unescape(y) =~= spec_unescape(y));
    } else {
        let c = cs[0];
        let rest = cs.drop_first();
        assert(cs =~= seq![c] + rest);
        crate::text::lemma_encode_concat(seq![c], rest);
        let xc = encode_utf8(seq![c]);
        let xr = encode_utf8(rest);
        assert(encode_utf8(cs) == xc + xr);
        assert(!xc.contains(92u8)) by {
            if xc.contains(92u8) {
                let j = choose|j: int| 0 <= j < xc.len() && xc[j] == 92u8;
                assert((xc + xr)[j] == 92u8);
            }
        }
        assert(!xr.contains(92u8)) by {
            if xr.contains(92u8) {
                let j = choose|j: int| 0 <= j < xr.len() && xr[j] == 92u8;
                assert((xc + xr)[xc.len() + j] == 92u8);
            }
        }
        let r = spec_char_unicode(c);
        let er = spec_escape_chars(rest);
        assert(spec_escape_chars(cs) == r + er);
        crate::text::lemma_encode_concat(r, er);
        let rb = encode_utf8(r);
        let erb = encode_utf8(er);
        assert(rb + erb + y =~= rb + (erb + y));
        lemma_char_passes(c, erb + y);
        lemma_chars_pass(rest, y);
        assert(xc + (xr + spec_unescape(y)) =~= (xc + xr) + spec_unescape(y));
    }
}

proof fn lemma_char_rendering_nonempty(c: char)
    ensures
        spec_char_unicode(c).len() > 0,
{
    let x = encode_utf8(seq![c]);
    lemma_encode_single(c);
    if is_other_char(c) && spec_has_unprintable_ascii(x) {
        lemma_escape_ends_in_no_space_or_empty(x);
    }
}

proof fn lemma_escape_ends_in_no_space_or_empty(s: Seq<u8>)
    requires
        s.len() > 0,
    ensures
        spec_escape_bytes(s).len() > 0,
{
    assert(spec_escape_bytes(s) == crate::escaping::spec_byte_to_ascii(s[0]) + spec_escape_bytes(
        s.drop_first(),
    ));
}

/// The last character of the rendering of characters is the last of the
/// rendering of the last character.
proof fn lemma_escape_chars_last(cs: Seq<char>)
    requires
        cs.len() > 0,
    ensures
        spec_escape_chars(cs).len() > 0,
        spec_escape_chars(cs).last() == spec_char_unicode(cs.last()).last(),
    decreases cs.len(),
{
    lemma_char_rendering_nonempty(cs[0]);
    let rest = cs.drop_first();
    assert(spec_escape_chars(cs) == spec_char_unicode(cs[0]) + spec_escape_chars(rest));
    if rest.len() > 0 {
        lemma_escape_chars_last(rest);
        assert(rest.last() == cs.last());
    } else {
        assert(spec_escape_chars(rest) =~= Seq::<char>::empty());
        assert(cs.last() == cs[0]);
    }
}

/// A line of output (with its line feed) that is rendered as an expectation
/// in the Unicode flavour reads back as an expectation, neither optional nor
/// multiline, that matches the line. The rendering must not be ambiguous:
/// an escaped line must not end in whitespace (the space before the marker
/// would swallow it), and, as backslashes of valid UTF-8 are not escaped in
/// this flavour, must hold no backslash where it is valid UTF-8; a line
/// rendered as it is must not itself end in something that reads as a kind
/// suffix.
pub proof fn law_unicode_rendering_reads_back(body: Seq<u8>)
    requires
        unicode_rendering_unambiguous(body),
    ensures
        spec_parse_expectation(spec_escaped_expectation_unicode(body.push(NL))) matches Some(v)
            && !v.optional && !v.multiline && spec_rule_matches(v.kind, v.expression, body.push(NL)),
{
    let line = body.push(NL);
    assert(line.drop_last() =~= body);
    if body.len() > 0 {
        assert(body.last() != NL) by {
            assert(body[body.len() - 1] == body.last());
        }
    }
    assert(spec_trim_newlines(line, NL) == spec_trim_newlines(body, NL));
    assert(spec_trim_newlines(body, NL) == body);
    assert(crate::rules::spec_line_body(line) == body);
    if !spec_has_unprintable_unicode(body) {
        let e = decode_utf8(body);
        assert(spec_expression_string(RuleKind::Equal, e, false, false) == e) by {
            reveal_strlit("");
            assert(spec_quantifier(false, false) == ""@);
        }
        law_expression_string_parses_back(RuleKind::Equal, e, false, false);
        vstd::utf8::decode_utf8_encode_utf8(body);
    } else if !valid_utf8(body) {
        // bytes below 0x80 are valid UTF-8, so some byte is not printable ASCII
        assert(spec_has_unprintable_ascii(body)) by {
            if !spec_has_unprintable_ascii(body) {
                let a = ascii_chars(body);
                assert forall|i: int| 0 <= i < a.len() implies '\0' <= #[trigger] a[i] <= '\u{7f}' by {
                    assert(is_printable_ascii(body[i]));
                }
                lemma_encode_ascii(a);
                assert(ascii_bytes(a) =~= body);
                vstd::utf8::encode_utf8_valid_utf8(a);
            }
        }
        let e = spec_escape_bytes(body);
        assert(spec_escaped_printable_unicode(body) == e);
        assert(body.last() != 32u8);
        lemma_escape_ends_in_no_space(body);
        lemma_marker_is_escaped_suffix(e);
        law_expression_string_parses_back(RuleKind::Escaped, e, false, false);
        law_unescape_inverts_escape(body);
    } else {
        let cs = decode_utf8(body);
        let e = spec_escape_chars(cs);
        vstd::utf8::decode_utf8_encode_utf8(body);
        assert(encode_utf8(cs) == body);
        // the expression stands for the line
        lemma_chars_pass(cs, Seq::<u8>::empty());
        assert(encode_utf8(e) + Seq::<u8>::empty() =~= encode_utf8(e));
        assert(spec_unescape(Seq::<u8>::empty()) =~= Seq::<u8>::empty());
        assert(body + Seq::<u8>::empty() =~= body);
        assert(spec_unescape(encode_utf8(e)) == body);
        // the expression does not end in whitespace
        assert(cs.len() > 0) by {
            if cs.len() == 0 {
                assert(encode_utf8(cs) =~= Seq::<u8>::empty());
            }
        }
        lemma_escape_chars_last(cs);
        let c = cs.last();
        assert(cs =~= cs.drop_last() + seq![c]);
        crate::text::lemma_encode_concat(cs.drop_last(), seq![c]);
        lemma_encode_single(c);
        let x = encode_utf8(seq![c]);
        assert(x.last() == body.last()) by {
            assert(body == encode_utf8(cs.drop_last()) + x);
            assert(body[body.len() - 1] == x[x.len() - 1]);
        }
        let r = spec_char_unicode(c);
        if is_other_char(c) {
            if spec_has_unprintable_ascii(x) {
                assert(x.last() != 32u8);
                lemma_escape_ends_in_no_space(x);
                assert(r == spec_escape_bytes(x));
            } else {
                assert(r == ascii_chars(x));
                assert(r.last() == x.last() as char);
            }
        } else {
            assert(r == seq![c]);
            if is_space(c) {
                assert((c as u32) < 0x80);
                assert(x == seq![c as u8]);
                assert(body.last() as char == c);
            }
        }
        assert(!is_space(e.last()));
        assert(spec_escaped_printable_unicode(body) == e);
        lemma_marker_is_escaped_suffix(e);
        law_expression_string_parses_back(RuleKind::Escaped, e, false, false);
    }
}

/// A test case whose expectations are the renderings (ASCII flavour) of
/// the lines of an output, read back, finds no differences in that output.
pub proof fn law_rendered_output_validates_ascii(
    exps: Seq<crate::expectation::Expectation>,
    bodies: Seq<Seq<u8>>,
)
    requires
        exps.len() == bodies.len(),
        forall|i: int|
            0 <= i < bodies.len() ==> ascii_rendering_unambiguous(#[trigger] bodies[i])
                && spec_parse_expectation(spec_escaped_expectation_ascii(bodies[i].push(NL)))
                == Some(exps[i]@),
    ensures
        !crate::diff::spec_has_differences(
            crate::diff::spec_diff(exps, Seq::new(bodies.len(), |i: int| bodies[i].push(NL))),
        ),
{
    let lines = Seq::new(bodies.len(), |i: int| bodies[i].push(NL));
    assert forall|i: int| 0 <= i < exps.len() implies !(#[trigger] exps[i]).multiline
        && exps[i].spec_matches(lines[i]) by {
        assert(ascii_rendering_unambiguous(bodies[i]));
        law_ascii_rendering_reads_back(bodies[i]);
    }
    crate::diff_laws::law_diff_of_expectations_matching_line_by_line(exps, lines);
}

/// A test case whose expectations are the renderings (Unicode flavour) of
/// the lines of an output, read back, finds no differences in that output.
pub proof fn law_rendered_output_validates_unicode(
    exps: Seq<crate::expectation::Expectation>,
    bodies: Seq<Seq<u8>>,
)
    requires
        exps.len() == bodies.len(),
        forall|i: int|
            0 <= i < bodies.len() ==> unicode_rendering_unambiguous(#[trigger] bodies[i])
                && spec_parse_expectation(spec_escaped_expectation_unicode(bodies[i].push(NL)))
                == Some(exps[i]@),
    ensures
        !crate::diff::spec_has_differences(
            crate::diff::spec_diff(exps, Seq::new(bodies.len(), |i: int| bodies[i].push(NL))),
        ),
{
    let lines = Seq::new(bodies.len(), |i: int| bodies[i].push(NL));
    assert forall|i: int| 0 <= i < exps.len() implies !(#[trigger] exps[i]).multiline
        && exps[i].spec_matches(lines[i]) by {
        assert(unicode_rendering_unambiguous(bodies[i]));
        law_unicode_rendering_reads_back(bodies[i]);
    }
    crate::diff_laws::law_diff_of_expectations_matching_line_by_line(exps, lines);
}

} // verus!
