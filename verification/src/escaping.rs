//! Rendering of raw bytes as printable text, with non-printable characters
//! escaped, in an ASCII and in a Unicode flavour.
use vstd::prelude::*;
use vstd::utf8::{decode_utf8, encode_utf8, valid_utf8};
use vstd::string::StringSliceAdditionalSpecFns;

use crate::newline::{spec_trim_newlines, trim_newlines_bytes, NL};
use crate::text::{char_utf8, string_from_chars, utf8_decode, chars_of};

verus! {

/// Whether a byte is a printable ASCII character (space to tilde).
pub open spec fn is_printable_ascii(b: u8) -> bool {
    0x20 <= b <= 0x7e
}

/// Whether some byte is not printable ASCII.
pub open spec fn spec_has_unprintable_ascii(s: Seq<u8>) -> bool {
    exists|i: int| 0 <= i < s.len() && !is_printable_ascii(#[trigger] s[i])
}

/// The lowercase hexadecimal digit of a value below 16.
pub open spec fn hex_digit(n: u8) -> char {
    if n < 10 {
        (48 + n) as char
    } else {
        (87 + n) as char
    }
}

/// The escaped rendering of one byte: whitespace and a few control characters
/// as backslash classes, the backslash doubled, printable ASCII as itself and
/// everything else as a `\xNN` hexadecimal escape.
pub open spec fn spec_byte_to_ascii(b: u8) -> Seq<char> {
    if b == 10 {
        seq!['\\', 'n']
    } else if b == 13 {
        seq!['\\', 'r']
    } else if b == 9 {
        seq!['\\', 't']
    } else if b == 7 {
        seq!['\\', 'a']
    } else if b == 8 {
        seq!['\\', 'b']
    } else if b == 12 {
        seq!['\\', 'f']
    } else if b == 11 {
        seq!['\\', 'v']
    } else if b == 92 {
        seq!['\\', '\\']
    } else if is_printable_ascii(b) {
        seq![b as char]
    } else {
        seq!['\\', 'x', hex_digit(b / 16), hex_digit(b % 16)]
    }
}

/// Every byte rendered by [`spec_byte_to_ascii`], concatenated.
pub open spec fn spec_escape_bytes(s: Seq<u8>) -> Seq<char>
    decreases s.len(),
{
    if s.len() == 0 {
        seq![]
    } else {
        spec_byte_to_ascii(s[0]) + spec_escape_bytes(s.drop_first())
    }
}

/// Bytes taken one for one as characters.
pub open spec fn ascii_chars(s: Seq<u8>) -> Seq<char> {
    s.map_values(|b: u8| b as char)
}

/// The ASCII rendering: escaped byte by byte if any byte is not printable
/// ASCII, else the bytes as they are.
pub open spec fn spec_escaped_printable_ascii(s: Seq<u8>) -> Seq<char> {
    if spec_has_unprintable_ascii(s) {
        spec_escape_bytes(s)
    } else {
        ascii_chars(s)
    }
}

/// The marker that denotes an escaped expectation.
pub open spec fn escaped_marker() -> Seq<char> {
    seq![' ', '(', 'e', 's', 'c', 'a', 'p', 'e', 'd', ')']
}

/// What Unicode classifies as "Other" (control, format or private use), as
/// `unicode_categories::UnicodeCategories::is_other` computes it.
pub uninterp spec fn is_other_char(c: char) -> bool;

/// Whether a character is in Unicode's "Other" category, through
/// `unicode_categories::UnicodeCategories::is_other`. Beyond the name, the
/// contract states what that crate's control table shows for ASCII: the
/// characters below space and DEL are "Other", space to tilde are not.
/// Format and private use characters are left to the name.
#[verifier::external_body]
fn char_is_other(c: char) -> (r: bool)
    ensures
        r == is_other_char(c),
        (c as u32) < 0x20 || c as u32 == 0x7f ==> r,
        0x20 <= (c as u32) <= 0x7e ==> !r,
{
    unicode_categories::UnicodeCategories::is_other(c)
}

/// The Unicode rendering of one character: "Other" characters as the
/// escaped bytes of their UTF-8 encoding, all others as themselves.
pub open spec fn spec_char_unicode(c: char) -> Seq<char> {
    if is_other_char(c) {
        spec_escaped_printable_ascii(encode_utf8(seq![c]))
    } else {
        seq![c]
    }
}

/// Every character rendered by [`spec_char_unicode`], concatenated.
pub open spec fn spec_escape_chars(s: Seq<char>) -> Seq<char>
    decreases s.len(),
{
    if s.len() == 0 {
        seq![]
    } else {
        spec_char_unicode(s[0]) + spec_escape_chars(s.drop_first())
    }
}

/// The Unicode rendering: valid UTF-8 character by character, anything else
/// as in the ASCII rendering.
pub open spec fn spec_escaped_printable_unicode(s: Seq<u8>) -> Seq<char> {
    if valid_utf8(s) {
        spec_escape_chars(decode_utf8(s))
    } else {
        spec_escaped_printable_ascii(s)
    }
}

/// Whether the bytes are not valid UTF-8 or decode to some "Other" character.
pub open spec fn spec_has_unprintable_unicode(s: Seq<u8>) -> bool {
    !valid_utf8(s) || exists|i: int|
        0 <= i < decode_utf8(s).len() && is_other_char(#[trigger] decode_utf8(s)[i])
}

/// The expectation rendering of an output line in the ASCII flavour: the
/// line without trailing LF, escaped and marked as such if it holds
/// anything not printable, else as it is.
pub open spec fn spec_escaped_expectation_ascii(line: Seq<u8>) -> Seq<char> {
    let t = spec_trim_newlines(line, NL);
    if spec_has_unprintable_ascii(t) {
        spec_escape_bytes(t) + escaped_marker()
    } else {
        ascii_chars(t)
    }
}

/// The expectation rendering of an output line in the Unicode flavour.
pub open spec fn spec_escaped_expectation_unicode(line: Seq<u8>) -> Seq<char> {
    let t = spec_trim_newlines(line, NL);
    if spec_has_unprintable_unicode(t) {
        spec_escaped_printable_unicode(t) + escaped_marker()
    } else {
        decode_utf8(t)
    }
}

/// The two escaping flavours.
#[derive(Debug, Clone, Copy, PartialEq, Eq, Structural)]
pub enum Escaper {
    /// All non ASCII and all non-printable ASCII characters are escaped
    Ascii,
    /// All non-printable Unicode characters are escaped
    Unicode,
}

impl Escaper {
    /// The default flavour, Unicode.
    pub fn default_escaper() -> (r: Escaper)
        ensures
            r == Escaper::Unicode,
    {
        Escaper::Unicode
    }

    /// The rendering of the bytes in this flavour.
    pub open spec fn spec_escaped_printable(self, raw: Seq<u8>) -> Seq<char> {
        match self {
            Escaper::Ascii => spec_escaped_printable_ascii(raw),
            Escaper::Unicode => spec_escaped_printable_unicode(raw),
        }
    }

    /// The expectation rendering of a line in this flavour.
    pub open spec fn spec_escaped_expectation(self, raw: Seq<u8>) -> Seq<char> {
        match self {
            Escaper::Ascii => spec_escaped_expectation_ascii(raw),
            Escaper::Unicode => spec_escaped_expectation_unicode(raw),
        }
    }

    /// Whether the bytes hold anything that this flavour escapes.
    pub open spec fn spec_has_unprintable(self, raw: Seq<u8>) -> bool {
        match self {
            Escaper::Ascii => spec_has_unprintable_ascii(raw),
            Escaper::Unicode => spec_has_unprintable_unicode(raw),
        }
    }

    /// Returns the bytes as a string where all non-printable characters are escaped.
    pub fn escaped_printable(&self, raw: &[u8]) -> (r: String)
        ensures
            r@ == self.spec_escaped_printable(raw@),
            !spec_has_unprintable_ascii(raw@) ==> r@ == ascii_chars(raw@),
    {
        match self {
            Escaper::Ascii => escaped_printable_ascii(raw),
            Escaper::Unicode => escaped_printable_unicode(raw),
        }
    }

    /// Returns the line (without trailing LF) as an expectation: escaped and
    /// marked with ` (escaped)` where it holds non-printable characters.
    pub fn escaped_expectation(&self, raw: &[u8]) -> (r: String)
        ensures
            r@ == self.spec_escaped_expectation(raw@),
            !spec_has_unprintable_ascii(spec_trim_newlines(raw@, NL)) ==> r@ == ascii_chars(
                spec_trim_newlines(raw@, NL),
            ),
    {
        match self {
            Escaper::Ascii => escaped_expectation_ascii(raw),
            Escaper::Unicode => escaped_expectation_unicode(raw),
        }
    }

    /// Whether the bytes hold characters that this flavour escapes.
    pub fn has_unprintable(&self, raw: &[u8]) -> (r: bool)
        ensures
            r == self.spec_has_unprintable(raw@),
            !spec_has_unprintable_ascii(raw@) ==> !r,
    {
        match self {
            Escaper::Ascii => has_unprintable_ascii(raw),
            Escaper::Unicode => has_unprintable_unicode(raw),
        }
    }
}

/// Whether some byte is not printable ASCII.
pub fn has_unprintable_ascii(bytes: &[u8]) -> (r: bool)
    ensures
        r == spec_has_unprintable_ascii(bytes@),
{
    let mut i: usize = 0;
    while i < bytes.len()
        invariant
            i <= bytes@.len(),
            forall|j: int| 0 <= j < i ==> is_printable_ascii(#[trigger] bytes@[j]),
        decreases bytes@.len() - i,
    {
        if !(0x20 <= bytes[i] && bytes[i] <= 0x7e) {
            assert(!is_printable_ascii(bytes@[i as int]));
            return true;
        }
        i = i + 1;
    }
    false
}

fn hex_digit_exec(n: u8) -> (c: char)
    requires
        n < 16,
    ensures
        c == hex_digit(n),
{
    if n < 10 {
        (48 + n) as char
    } else {
        (87 + n) as char
    }
}

/// Appends the escaped rendering of one byte.
fn push_byte_escape(out: &mut Vec<char>, b: u8)
    ensures
        final(out)@ == old(out)@ + spec_byte_to_ascii(b),
{
    let ghost old_out = out@;
    if b == 10 {
        out.push('\\');
        out.push('n');
    } else if b == 13 {
        out.push('\\');
        out.push('r');
    } else if b == 9 {
        out.push('\\');
        out.push('t');
    } else if b == 7 {
        out.push('\\');
        out.push('a');
    } else if b == 8 {
        out.push('\\');
        out.push('b');
    } else if b == 12 {
        out.push('\\');
        out.push('f');
    } else if b == 11 {
        out.push('\\');
        out.push('v');
    } else if b == 92 {
        out.push('\\');
        out.push('\\');
    } else if 0x20 <= b && b <= 0x7e {
        out.push(b as char);
    } else {
        out.push('\\');
        out.push('x');
        out.push(hex_digit_exec(b / 16));
        out.push(hex_digit_exec(b % 16));
    }
    assert(out@ == old_out + spec_byte_to_ascii(b));
}

/// The escaped rendering of one byte.
pub fn byte_to_ascii(byte: u8) -> (r: String)
    ensures
        r@ == spec_byte_to_ascii(byte),
{
    let mut out: Vec<char> = Vec::new();
    push_byte_escape(&mut out, byte);
    assert(out@ == spec_byte_to_ascii(byte));
    string_from_chars(&out)
}

proof fn lemma_escape_bytes_take(s: Seq<u8>, i: int)
    requires
        0 <= i < s.len(),
    ensures
        spec_escape_bytes(s.take(i + 1)) == spec_escape_bytes(s.take(i)) + spec_byte_to_ascii(s[i]),
    decreases i,
{
    let t = s.take(i + 1);
    assert(t.drop_first() == s.drop_first().take(i));
    if i == 0 {
        assert(s.take(0).len() == 0);
        assert(spec_escape_bytes(t.drop_first()) == Seq::<char>::empty());
    } else {
        lemma_escape_bytes_take(s.drop_first(), i - 1);
        assert(s.take(i).drop_first() == s.drop_first().take(i - 1));
    }
}

fn escape_bytes(bytes: &[u8], out: &mut Vec<char>)
    ensures
        final(out)@ == old(out)@ + spec_escape_bytes(bytes@),
{
    let ghost start = out@;
    let mut i: usize = 0;
    assert(bytes@.take(0).len() == 0);
    while i < bytes.len()
        invariant
            i <= bytes@.len(),
            out@ == start + spec_escape_bytes(bytes@.take(i as int)),
        decreases bytes@.len() - i,
    {
        proof {
            lemma_escape_bytes_take(bytes@, i as int);
        }
        push_byte_escape(out, bytes[i]);
        i = i + 1;
    }
    assert(bytes@.take(bytes@.len() as int) == bytes@);
}

fn push_ascii_chars(bytes: &[u8], out: &mut Vec<char>)
    ensures
        final(out)@ == old(out)@ + ascii_chars(bytes@),
{
    let ghost start = out@;
    let mut i: usize = 0;
    while i < bytes.len()
        invariant
            i <= bytes@.len(),
            out@ == start + ascii_chars(bytes@.take(i as int)),
        decreases bytes@.len() - i,
    {
        assert(ascii_chars(bytes@.take(i + 1)) == ascii_chars(bytes@.take(i as int)).push(
            bytes@[i as int] as char,
        ));
        out.push(bytes[i] as char);
        i = i + 1;
    }
    assert(bytes@.take(bytes@.len() as int) == bytes@);
}

fn escaped_printable_ascii_into(bytes: &[u8], out: &mut Vec<char>)
    ensures
        final(out)@ == old(out)@ + spec_escaped_printable_ascii(bytes@),
{
    if has_unprintable_ascii(bytes) {
        escape_bytes(bytes, out);
    } else {
        push_ascii_chars(bytes, out);
    }
}

/// All non-printable bytes as escape sequences, or, if there are none, the
/// bytes as they are.
pub fn escaped_printable_ascii(bytes: &[u8]) -> (r: String)
    ensures
        r@ == spec_escaped_printable_ascii(bytes@),
{
    let mut out: Vec<char> = Vec::new();
    escaped_printable_ascii_into(bytes, &mut out);
    assert(out@ == spec_escaped_printable_ascii(bytes@));
    string_from_chars(&out)
}

fn push_marker(out: &mut Vec<char>)
    ensures
        final(out)@ == old(out)@ + escaped_marker(),
{
    let ghost start = out@;
    out.push(' ');
    out.push('(');
    out.push('e');
    out.push('s');
    out.push('c');
    out.push('a');
    out.push('p');
    out.push('e');
    out.push('d');
    out.push(')');
    assert(out@ == start + escaped_marker());
}

/// The line without trailing LF as an ASCII expectation: escaped and marked
/// ` (escaped)` if it holds non-printable bytes, else as it is. (Where the
/// line holds non-printable bytes, its lossy decoding always differs from
/// the escaped rendering, which is printable ASCII only.)
pub fn escaped_expectation_ascii(line: &[u8]) -> (r: String)
    ensures
        r@ == spec_escaped_expectation_ascii(line@),
{
    let t = trim_newlines_bytes(line);
    let mut out: Vec<char> = Vec::new();
    if has_unprintable_ascii(t) {
        escape_bytes(t, &mut out);
        push_marker(&mut out);
    } else {
        push_ascii_chars(t, &mut out);
    }
    assert(out@ == spec_escaped_expectation_ascii(line@));
    string_from_chars(&out)
}

proof fn lemma_escape_chars_take(s: Seq<char>, i: int)
    requires
        0 <= i < s.len(),
    ensures
        spec_escape_chars(s.take(i + 1)) == spec_escape_chars(s.take(i)) + spec_char_unicode(s[i]),
    decreases i,
{
    let t = s.take(i + 1);
    assert(t.drop_first() == s.drop_first().take(i));
    if i == 0 {
        assert(s.take(0).len() == 0);
        assert(spec_escape_chars(t.drop_first()) == Seq::<char>::empty());
    } else {
        lemma_escape_chars_take(s.drop_first(), i - 1);
        assert(s.take(i).drop_first() == s.drop_first().take(i - 1));
    }
}

fn escape_chars(chars: &[char], out: &mut Vec<char>)
    ensures
        final(out)@ == old(out)@ + spec_escape_chars(chars@),
        all_printable_chars(chars@) ==> final(out)@ == old(out)@ + chars@,
{
    let ghost start = out@;
    let mut i: usize = 0;
    assert(chars@.take(0).len() == 0);
    assert(start + chars@.take(0) == start);
    while i < chars.len()
        invariant
            i <= chars@.len(),
            out@ == start + spec_escape_chars(chars@.take(i as int)),
            all_printable_chars(chars@) ==> out@ == start + chars@.take(i as int),
        decreases chars@.len() - i,
    {
        proof {
            lemma_escape_chars_take(chars@, i as int);
        }
        let ghost before = out@;
        let c = chars[i];
        if char_is_other(c) {
            proof {
                if all_printable_chars(chars@) {
                    assert(' ' <= chars@[i as int] <= '~');
                    assert(0x20 <= (c as u32) <= 0x7e);
                }
            }
            let encoded = char_utf8(c);
            escaped_printable_ascii_into(encoded.as_slice(), out);
        } else {
            out.push(c);
            assert(chars@.take(i + 1) == chars@.take(i as int).push(c));
            proof {
                if all_printable_chars(chars@) {
                    assert(start + chars@.take(i as int).push(c) =~= (start + chars@.take(i as int)).push(c));
                }
            }
        }
        i = i + 1;
    }
    assert(chars@.take(chars@.len() as int) == chars@);
}

/// Bytes that are all printable ASCII are valid UTF-8 and decode to the
/// same characters, each printable.
pub proof fn lemma_printable_bytes_decode(b: Seq<u8>)
    requires
        !spec_has_unprintable_ascii(b),
    ensures
        valid_utf8(b),
        decode_utf8(b) == ascii_chars(b),
        all_printable_chars(ascii_chars(b)),
{
    let cs = ascii_chars(b);
    assert forall|i: int| 0 <= i < cs.len() implies ' ' <= #[trigger] cs[i] <= '~' by {
        assert(is_printable_ascii(b[i]));
        assert(cs[i] == b[i] as char);
    }
    assert(vstd::utf8::is_ascii_chars(cs)) by {
        assert forall|i: int| 0 <= i < cs.len() implies '\0' <= #[trigger] cs[i] <= '\u{7f}' by {
            assert(' ' <= cs[i] <= '~');
        }
    }
    crate::text::lemma_encode_ascii(cs);
    assert(crate::text::ascii_bytes(cs) =~= b) by {
        assert forall|i: int| 0 <= i < b.len() implies crate::text::ascii_bytes(cs)[i] == b[i] by {
            assert(is_printable_ascii(b[i]));
            assert(cs[i] == b[i] as char);
        }
    }
    vstd::utf8::encode_utf8_valid_utf8(cs);
    vstd::utf8::encode_utf8_decode_utf8(cs);
}

fn escaped_printable_unicode_into(bytes: &[u8], out: &mut Vec<char>)
    ensures
        final(out)@ == old(out)@ + spec_escaped_printable_unicode(bytes@),
        !spec_has_unprintable_ascii(bytes@) ==> final(out)@ == old(out)@ + ascii_chars(bytes@),
{
    proof {
        if !spec_has_unprintable_ascii(bytes@) {
            lemma_printable_bytes_decode(bytes@);
        }
    }
    match utf8_decode(bytes) {
        Some(s) => {
            let chars = chars_of(s.as_str());
            escape_chars(chars.as_slice(), out);
        },
        None => {
            escaped_printable_ascii_into(bytes, out);
        },
    }
}

/// Non-printable ("Other") Unicode characters as escape sequences of their
/// UTF-8 bytes, everything else as it is; bytes that are not UTF-8 are
/// rendered as in the ASCII flavour.
pub fn escaped_printable_unicode(bytes: &[u8]) -> (r: String)
    ensures
        r@ == spec_escaped_printable_unicode(bytes@),
        !spec_has_unprintable_ascii(bytes@) ==> r@ == ascii_chars(bytes@),
{
    let mut out: Vec<char> = Vec::new();
    escaped_printable_unicode_into(bytes, &mut out);
    assert(out@ == spec_escaped_printable_unicode(bytes@));
    assert(Seq::<char>::empty() + ascii_chars(bytes@) == ascii_chars(bytes@));
    string_from_chars(&out)
}

fn any_other(chars: &[char]) -> (r: bool)
    ensures
        r == exists|i: int| 0 <= i < chars@.len() && is_other_char(#[trigger] chars@[i]),
        all_printable_chars(chars@) ==> !r,
{
    let mut i: usize = 0;
    while i < chars.len()
        invariant
            i <= chars@.len(),
            forall|j: int| 0 <= j < i ==> !is_other_char(#[trigger] chars@[j]),
        decreases chars@.len() - i,
    {
        if char_is_other(chars[i]) {
            assert(is_other_char(chars@[i as int]));
            proof {
                if all_printable_chars(chars@) {
                    assert(' ' <= chars@[i as int] <= '~');
                    assert(0x20 <= (chars@[i as int] as u32) <= 0x7e);
                }
            }
            return true;
        }
        i = i + 1;
    }
    false
}

/// Whether the bytes are not UTF-8 or hold "Other" Unicode characters.
pub fn has_unprintable_unicode(bytes: &[u8]) -> (r: bool)
    ensures
        r == spec_has_unprintable_unicode(bytes@),
        !spec_has_unprintable_ascii(bytes@) ==> !r,
{
    proof {
        if !spec_has_unprintable_ascii(bytes@) {
            lemma_printable_bytes_decode(bytes@);
        }
    }
    match utf8_decode(bytes) {
        Some(s) => {
            let chars = chars_of(s.as_str());
            any_other(chars.as_slice())
        },
        None => true,
    }
}

/// The line without trailing LF as a Unicode expectation: escaped and marked
/// ` (escaped)` if it is not UTF-8 or holds "Other" characters, else as it
/// is. (Where the line holds such characters, its lossy decoding always
/// differs from the escaped rendering at the first of them.)
pub fn escaped_expectation_unicode(line: &[u8]) -> (r: String)
    ensures
        r@ == spec_escaped_expectation_unicode(line@),
        !spec_has_unprintable_ascii(spec_trim_newlines(line@, NL)) ==> r@ == ascii_chars(
            spec_trim_newlines(line@, NL),
        ),
{
    let t = trim_newlines_bytes(line);
    proof {
        if !spec_has_unprintable_ascii(t@) {
            lemma_printable_bytes_decode(t@);
        }
    }
    let mut out: Vec<char> = Vec::new();
    match utf8_decode(t) {
        Some(s) => {
            let chars = chars_of(s.as_str());
            if any_other(chars.as_slice()) {
                escape_chars(chars.as_slice(), &mut out);
                push_marker(&mut out);
                assert(out@ == spec_escaped_expectation_unicode(line@));
                string_from_chars(&out)
            } else {
                s
            }
        },
        None => {
            escaped_printable_ascii_into(t, &mut out);
            push_marker(&mut out);
            assert(out@ == spec_escaped_expectation_unicode(line@));
            string_from_chars(&out)
        },
    }
}

/// What `strip_ansi_escapes::strip` leaves of the given bytes.
pub uninterp spec fn spec_strip_ansi(bytes: Seq<u8>) -> Seq<u8>;

/// The bytes with ANSI escape sequences removed, through
/// `strip_ansi_escapes::strip`. Which sequences its terminal parser
/// recognises is left to the name.
#[verifier::external_body]
pub fn strip_colors_bytes(input: &[u8]) -> (r: Vec<u8>)
    ensures
        r@ == spec_strip_ansi(input@),
{
    strip_ansi_escapes::strip(input)
}

/// The text with ANSI escape sequences removed; an error if what is left is
/// not valid UTF-8.
pub fn strip_colors(input: &str) -> (r: Result<String, String>)
    ensures
        valid_utf8(spec_strip_ansi(input.spec_bytes())) <==> r is Ok,
        r matches Ok(s) ==> s@ == decode_utf8(spec_strip_ansi(input.spec_bytes())),
{
    let stripped = strip_colors_bytes(input.as_bytes());
    match utf8_decode(stripped.as_slice()) {
        Some(s) => Ok(s),
        None => Err("decode stripped bytes back to utf8 string".to_string()),
    }
}

proof fn lemma_hex_digit(n: u8)
    requires
        n < 16,
    ensures
        '0' <= hex_digit(n) <= 'f',
        crate::rules::is_hex_byte(hex_digit(n) as u8),
        crate::rules::hex_value(hex_digit(n) as u8) == n,
{
}

pub proof fn lemma_byte_token(b: u8, y: Seq<u8>)
    ensures
        vstd::utf8::is_ascii_chars(spec_byte_to_ascii(b)),
        crate::rules::spec_unescape(crate::text::ascii_bytes(spec_byte_to_ascii(b)) + y) == seq![b]
            + crate::rules::spec_unescape(y),
{
    let x = spec_byte_to_ascii(b);
    let xb = crate::text::ascii_bytes(x);
    let s = xb + y;
    if b == 10 || b == 13 || b == 9 || b == 7 || b == 8 || b == 12 || b == 11 || b == 92 {
        assert(s[0] == 92);
        assert(s.skip(2) =~= y);
    } else if is_printable_ascii(b) {
        assert(s[0] == b);
        assert(s.drop_first() =~= y);
    } else {
        lemma_hex_digit(b / 16);
        lemma_hex_digit(b % 16);
        assert(s[0] == 92 && s[1] == 120);
        assert(crate::rules::escape_class(s[1]) is None);
        assert(s[2] == hex_digit(b / 16) as u8);
        assert(s[3] == hex_digit(b % 16) as u8);
        assert(s.skip(4) =~= y);
        assert(b == (b / 16) * 16 + b % 16);
    }
}

pub proof fn lemma_escape_bytes_ascii(s: Seq<u8>)
    ensures
        vstd::utf8::is_ascii_chars(spec_escape_bytes(s)),
        crate::rules::spec_unescape(crate::text::ascii_bytes(spec_escape_bytes(s))) == s,
    decreases s.len(),
{
    if s.len() == 0 {
        assert(crate::text::ascii_bytes(spec_escape_bytes(s)) =~= Seq::<u8>::empty());
        assert(s =~= Seq::<u8>::empty());
    } else {
        let rest = s.drop_first();
        lemma_escape_bytes_ascii(rest);
        let x = spec_byte_to_ascii(s[0]);
        let r = spec_escape_bytes(rest);
        lemma_byte_token(s[0], crate::text::ascii_bytes(r));
        let all = spec_escape_bytes(s);
        assert(all == x + r);
        assert forall|i: int| 0 <= i < all.len() implies '\0' <= #[trigger] all[i] <= '\u{7f}' by {
            if i < x.len() {
                assert(all[i] == x[i]);
            } else {
                assert(all[i] == r[i - x.len()]);
            }
        }
        assert(crate::text::ascii_bytes(all) =~= crate::text::ascii_bytes(x) + crate::text::ascii_bytes(r));
        assert(seq![s[0]] + rest =~= s);
    }
}

/// Whether every character is printable ASCII (space to tilde).
pub open spec fn all_printable_chars(s: Seq<char>) -> bool {
    forall|i: int| 0 <= i < s.len() ==> ' ' <= #[trigger] s[i] <= '~'
}

proof fn lemma_byte_rendering_printable(b: u8)
    ensures
        all_printable_chars(spec_byte_to_ascii(b)),
{
    let x = spec_byte_to_ascii(b);
    if !(b == 10 || b == 13 || b == 9 || b == 7 || b == 8 || b == 12 || b == 11 || b == 92)
        && !is_printable_ascii(b) {
        assert(b / 16 < 16 && b % 16 < 16);
        assert(x[2] == hex_digit(b / 16) && x[3] == hex_digit(b % 16));
    }
}

proof fn lemma_escape_bytes_printable(s: Seq<u8>)
    ensures
        all_printable_chars(spec_escape_bytes(s)),
    decreases s.len(),
{
    if s.len() > 0 {
        lemma_escape_bytes_printable(s.drop_first());
        lemma_byte_rendering_printable(s[0]);
        let x = spec_byte_to_ascii(s[0]);
        let r = spec_escape_bytes(s.drop_first());
        let all = spec_escape_bytes(s);
        assert forall|i: int| 0 <= i < all.len() implies ' ' <= #[trigger] all[i] <= '~' by {
            if i < x.len() {
                assert(all[i] == x[i]);
            } else {
                assert(all[i] == r[i - x.len()]);
            }
        }
    }
}

/// The ASCII rendering holds printable ASCII characters only, and bytes that
/// are all printable ASCII are rendered as they are (a backslash among them
/// is not doubled).
pub proof fn law_ascii_rendering_is_printable(s: Seq<u8>)
    ensures
        all_printable_chars(spec_escaped_printable_ascii(s)),
        !spec_has_unprintable_ascii(s) ==> spec_escaped_printable_ascii(s) == ascii_chars(s),
{
    if spec_has_unprintable_ascii(s) {
        lemma_escape_bytes_printable(s);
    } else {
        let r = ascii_chars(s);
        assert forall|i: int| 0 <= i < r.len() implies ' ' <= #[trigger] r[i] <= '~' by {
            assert(is_printable_ascii(s[i]));
            assert(r[i] == s[i] as char);
        }
    }
}

/// Unescaping what escaping rendered gives back the bytes: an escaped
/// rendering of a line, as the expression of an escaped expectation,
/// stands for exactly that line.
pub proof fn law_unescape_inverts_escape(s: Seq<u8>)
    ensures
        crate::rules::spec_unescape(encode_utf8(spec_escape_bytes(s))) == s,
{
    lemma_escape_bytes_ascii(s);
    crate::text::lemma_encode_ascii(spec_escape_bytes(s));
}

/// A rule of the escaped kind whose expression is the escaped rendering of
/// a line (without its line feed) matches that line.
pub proof fn law_escaped_rule_matches_its_line(rule: crate::rules::Rule, line: Seq<u8>)
    requires
        rule.kind == crate::rules::RuleKind::Escaped,
        rule.expression@ == spec_escape_bytes(crate::rules::spec_line_body(line)),
    ensures
        rule.spec_matches(line),
{
    law_unescape_inverts_escape(crate::rules::spec_line_body(line));
}

} // verus!
