//! Small conversions between `str`, `String`, characters and bytes.
use vstd::prelude::*;
use vstd::std_specs::iter::IteratorSpec;
use vstd::utf8::{decode_utf8, encode_utf8, valid_utf8};

verus! {

broadcast use vstd::string::group_string_axioms;

/// The characters of a string slice, in order.
pub fn chars_of(s: &str) -> (r: Vec<char>)
    ensures
        r@ == s@,
{
    let mut out: Vec<char> = Vec::new();
    let it = s.chars();
    for c in iter: it
        invariant
            iter.seq() == s@,
            out@ == iter.seq().take(iter.index() as int),
    {
        assert(iter.seq().take(iter.index() + 1) == iter.seq().take(iter.index() as int).push(c));
        out.push(c);
    }
    assert(out@ == s@);
    out
}

/// Appends one character to a string, through `String::push`.
#[verifier::external_body]
pub fn push_char(s: &mut String, c: char)
    ensures
        final(s)@ == old(s)@.push(c),
{
    s.push(c);
}

/// A string made of the given characters.
pub fn string_from_chars(chars: &[char]) -> (r: String)
    ensures
        r@ == chars@,
{
    let mut s = String::new();
    let mut i: usize = 0;
    while i < chars.len()
        invariant
            i <= chars@.len(),
            s@ == chars@.take(i as int),
        decreases chars@.len() - i,
    {
        assert(chars@.take(i + 1) == chars@.take(i as int).push(chars@[i as int]));
        push_char(&mut s, chars[i]);
        i = i + 1;
    }
    assert(chars@.take(chars@.len() as int) == chars@);
    s
}

/// Decodes bytes as UTF-8, through `String::from_utf8`: `None` exactly when
/// the bytes are not valid UTF-8.
#[verifier::external_body]
pub fn utf8_decode(bytes: &[u8]) -> (r: Option<String>)
    ensures
        r is Some <==> valid_utf8(bytes@),
        r matches Some(s) ==> s@ == decode_utf8(bytes@),
{
    String::from_utf8(bytes.to_vec()).ok()
}

/// The UTF-8 encoding of one character, through `char::encode_utf8`.
#[verifier::external_body]
pub fn char_utf8(c: char) -> (r: Vec<u8>)
    ensures
        r@ == encode_utf8(seq![c]),
{
    let mut buf = [0u8; 4];
    c.encode_utf8(&mut buf).as_bytes().to_vec()
}

/// Whether the characters are exactly those of the given string.
pub fn chars_equal(a: &[char], lit: &str) -> (r: bool)
    ensures
        r == (a@ == lit@),
{
    let b = chars_of(lit);
    if a.len() != b.len() {
        return false;
    }
    let mut i: usize = 0;
    while i < a.len()
        invariant
            i <= a@.len(),
            a@.len() == b@.len(),
            b@ == lit@,
            forall|j: int| 0 <= j < i ==> a@[j] == b@[j],
        decreases a@.len() - i,
    {
        if a[i] != b[i] {
            return false;
        }
        i = i + 1;
    }
    assert(a@ == b@);
    true
}

/// Whether two byte sequences are equal.
pub fn bytes_equal(a: &[u8], b: &[u8]) -> (r: bool)
    ensures
        r == (a@ == b@),
{
    if a.len() != b.len() {
        return false;
    }
    let mut i: usize = 0;
    while i < a.len()
        invariant
            i <= a@.len(),
            a@.len() == b@.len(),
            forall|j: int| 0 <= j < i ==> a@[j] == b@[j],
        decreases a@.len() - i,
    {
        if a[i] != b[i] {
            return false;
        }
        i = i + 1;
    }
    assert(a@ == b@);
    true
}

/// The decimal digit character of a value below 10.
pub open spec fn digit_char(d: nat) -> char {
    (48 + d) as char
}

/// The decimal notation of a natural number.
pub open spec fn spec_decimal(n: nat) -> Seq<char>
    decreases n,
{
    if n < 10 {
        seq![digit_char(n)]
    } else {
        spec_decimal(n / 10).push(digit_char(n % 10))
    }
}

/// The decimal notation of an integer, with a leading `-` if negative.
pub open spec fn spec_int_decimal(i: int) -> Seq<char> {
    if i < 0 {
        seq!['-'] + spec_decimal((-i) as nat)
    } else {
        spec_decimal(i as nat)
    }
}

/// Appends the decimal notation of a number.
pub fn push_decimal(out: &mut Vec<char>, n: u64)
    ensures
        final(out)@ == old(out)@ + spec_decimal(n as nat),
    decreases n,
{
    if n < 10 {
        out.push((48 + n as u8) as char);
    } else {
        push_decimal(out, n / 10);
        let ghost mid = out@;
        out.push((48 + (n % 10) as u8) as char);
        assert(out@ == mid.push(digit_char((n % 10) as nat)));
    }
}

/// The decimal notation of a number.
pub fn decimal_string(n: u64) -> (r: String)
    ensures
        r@ == spec_decimal(n as nat),
{
    let mut out: Vec<char> = Vec::new();
    push_decimal(&mut out, n);
    assert(out@ == spec_decimal(n as nat));
    string_from_chars(out.as_slice())
}

/// The decimal notation of a signed number.
pub fn int_decimal_string(i: i64) -> (r: String)
    ensures
        r@ == spec_int_decimal(i as int),
{
    let mut out: Vec<char> = Vec::new();
    if i < 0 {
        out.push('-');
        let m: u64 = if i == i64::MIN {
            9223372036854775808u64
        } else {
            (-i) as u64
        };
        push_decimal(&mut out, m);
    } else {
        push_decimal(&mut out, i as u64);
    }
    assert(out@ == spec_int_decimal(i as int));
    string_from_chars(out.as_slice())
}

/// Whether the characters end with the given suffix.
pub open spec fn spec_ends_with(s: Seq<char>, suffix: Seq<char>) -> bool {
    suffix.len() <= s.len() && s.skip(s.len() - suffix.len()) == suffix
}

/// Whether the string ends with the given suffix.
pub fn ends_with_str(s: &str, suffix: &str) -> (r: bool)
    ensures
        r == spec_ends_with(s@, suffix@),
{
    let a = chars_of(s);
    let b = chars_of(suffix);
    if b.len() > a.len() {
        return false;
    }
    let off = a.len() - b.len();
    let mut i: usize = 0;
    while i < b.len()
        invariant
            i <= b@.len(),
            off + b@.len() == a@.len(),
            a@.len() <= usize::MAX,
            a@ == s@,
            b@ == suffix@,
            forall|j: int| 0 <= j < i ==> a@[off + j] == b@[j],
        decreases b@.len() - i,
    {
        if a[off + i] != b[i] {
            assert(a@.skip(off as int)[i as int] != b@[i as int]);
            return false;
        }
        i = i + 1;
    }
    assert(a@.skip(off as int) == b@);
    true
}

/// The abstract values of a list of strings.
pub open spec fn strings_view(v: Seq<String>) -> Seq<Seq<char>> {
    v.map_values(|s: String| s@)
}

/// Lines joined by a line feed between each two.
pub open spec fn spec_join_newline(lines: Seq<Seq<char>>) -> Seq<char>
    decreases lines.len(),
{
    if lines.len() == 0 {
        Seq::empty()
    } else if lines.len() == 1 {
        lines[0]
    } else {
        spec_join_newline(lines.drop_last()) + seq!['\n'] + lines.last()
    }
}

/// Joins the lines with a line feed between each two.
pub fn join_newline(lines: &Vec<String>) -> (r: String)
    ensures
        r@ == spec_join_newline(strings_view(lines@)),
{
    let mut out = String::new();
    let mut i: usize = 0;
    while i < lines.len()
        invariant
            i <= lines@.len(),
            out@ == spec_join_newline(strings_view(lines@.take(i as int))),
        decreases lines@.len() - i,
    {
        proof {
            let t = strings_view(lines@.take(i + 1));
            assert(t.drop_last() =~= strings_view(lines@.take(i as int)));
            assert(t.last() == lines@[i as int]@);
        }
        if i > 0 {
            push_char(&mut out, '\n');
        }
        out.append(lines[i].as_str());
        i = i + 1;
    }
    assert(lines@.take(lines@.len() as int) == lines@);
    out
}

/// The lines of a text as `str::lines` gives them: split at line feeds, a
/// carriage return before a line feed dropped, and no last empty line when
/// the text ends in a line feed.
pub open spec fn spec_str_lines(s: Seq<char>) -> Seq<Seq<char>>
    decreases s.len(),
{
    if s.len() == 0 {
        Seq::empty()
    } else {
        match spec_find_char(s, '\n', 0) {
            Some(p) => {
                proof {
                    lemma_find_char_bounds(s, '\n', 0);
                }
                let piece = s.take(p);
                let line = if piece.len() > 0 && piece.last() == '\r' {
                    piece.drop_last()
                } else {
                    piece
                };
                seq![line] + spec_str_lines(s.skip(p + 1))
            },
            None => seq![s],
        }
    }
}

/// The first index at or after `from` that holds the character, if any.
pub open spec fn spec_find_char(s: Seq<char>, c: char, from: int) -> Option<int>
    decreases s.len() - from,
{
    if from < 0 || from >= s.len() {
        None
    } else if s[from] == c {
        Some(from)
    } else {
        spec_find_char(s, c, from + 1)
    }
}

pub proof fn lemma_find_char_bounds(s: Seq<char>, c: char, from: int)
    requires
        0 <= from,
    ensures
        spec_find_char(s, c, from) matches Some(p) ==> from <= p < s.len() && s[p] == c && forall|
            j: int,
        |
            from <= j < p ==> s[j] != c,
        spec_find_char(s, c, from) is None ==> forall|j: int| from <= j < s.len() ==> s[j] != c,
    decreases s.len() - from,
{
    if from < s.len() && s[from] != c {
        lemma_find_char_bounds(s, c, from + 1);
    }
}

pub proof fn lemma_find_char_shift(s: Seq<char>, c: char, k: int, from: int)
    requires
        0 <= k <= from,
        k <= s.len(),
    ensures
        spec_find_char(s.skip(k), c, from - k) == match spec_find_char(s, c, from) {
            Some(p) => Some(p - k),
            None => None,
        },
    decreases s.len() - from,
{
    if from < s.len() && s[from] != c {
        lemma_find_char_shift(s, c, k, from + 1);
    }
}

/// The lines of a text, as `str::lines` gives them.
pub fn str_lines(text: &str) -> (r: Vec<String>)
    ensures
        strings_view(r@) == spec_str_lines(text@),
{
    let cs = chars_of(text);
    let n = cs.len();
    let mut out: Vec<String> = Vec::new();
    let mut start: usize = 0;
    let mut i: usize = 0;
    proof {
        assert(text@.skip(0) == text@);
    }
    while i < n
        invariant
            n == cs@.len(),
            cs@ == text@,
            start <= i <= n,
            forall|j: int| start <= j < i ==> cs@[j] != '\n',
            strings_view(out@) + spec_str_lines(text@.skip(start as int)) == spec_str_lines(text@),
        decreases n - i,
    {
        if cs[i] == '\n' {
            let ghost rest = text@.skip(start as int);
            proof {
                lemma_find_char_bounds(rest, '\n', 0);
                lemma_find_char_shift(text@, '\n', start as int, start as int);
                lemma_find_char_bounds(text@, '\n', start as int);
                assert(spec_find_char(text@, '\n', start as int) == Some(i as int)) by {
                    if spec_find_char(text@, '\n', start as int) != Some(i as int) {
                        let p = spec_find_char(text@, '\n', start as int);
                        if p is None {
                            assert(text@[i as int] == '\n');
                        } else {
                            assert(p->0 >= start);
                        }
                    }
                }
                assert(rest.len() > 0);
            }
            let end = if i > start && cs[i - 1] == '\r' {
                i - 1
            } else {
                i
            };
            let line = string_from_chars(&cs.as_slice()[start..end]);
            proof {
                let piece = rest.take(i - start);
                assert(piece =~= text@.subrange(start as int, i as int));
                if i > start && cs@[i - 1] == '\r' {
                    assert(piece.drop_last() =~= text@.subrange(start as int, i - 1));
                }
                assert(rest.skip(i - start + 1) =~= text@.skip(i + 1));
                assert(strings_view(out@.push(line)) =~= strings_view(out@).push(line@));
            }
            out.push(line);
            start = i + 1;
            proof {
                assert(strings_view(out@) + spec_str_lines(text@.skip(start as int)) =~= strings_view(
                    out@.drop_last(),
                ) + (seq![line@] + spec_str_lines(text@.skip(start as int))));
            }
        }
        i = i + 1;
    }
    if start < n {
        let line = string_from_chars(&cs.as_slice()[start..n]);
        proof {
            let rest = text@.skip(start as int);
            lemma_find_char_bounds(rest, '\n', 0);
            assert(spec_find_char(rest, '\n', 0) is None) by {
                if spec_find_char(rest, '\n', 0) is Some {
                    let p = spec_find_char(rest, '\n', 0)->0;
                    assert(rest[p] == text@[start + p]);
                }
            }
            assert(rest =~= text@.subrange(start as int, n as int));
            assert(strings_view(out@.push(line)) =~= strings_view(out@).push(line@));
        }
        out.push(line);
        proof {
            assert(strings_view(out@) =~= strings_view(out@.drop_last()) + seq![line@]);
        }
    } else {
        proof {
            assert(text@.skip(start as int).len() == 0);
            assert(strings_view(out@) + Seq::<Seq<char>>::empty() =~= strings_view(out@));
        }
    }
    out
}

/// Whether the character has the Unicode `White_Space` property, which is
/// what `char::is_whitespace` tests.
pub open spec fn spec_is_whitespace(c: char) -> bool {
    ('\u{9}' <= c <= '\u{d}') || c == ' ' || c == '\u{85}' || c == '\u{a0}' || c == '\u{1680}'
        || ('\u{2000}' <= c <= '\u{200a}') || c == '\u{2028}' || c == '\u{2029}' || c
        == '\u{202f}' || c == '\u{205f}' || c == '\u{3000}'
}

/// Whether the character is whitespace, as `char::is_whitespace` tells.
pub fn is_whitespace(c: char) -> (r: bool)
    ensures
        r == spec_is_whitespace(c),
{
    ('\u{9}' <= c && c <= '\u{d}') || c == ' ' || c == '\u{85}' || c == '\u{a0}' || c
        == '\u{1680}' || ('\u{2000}' <= c && c <= '\u{200a}') || c == '\u{2028}' || c
        == '\u{2029}' || c == '\u{202f}' || c == '\u{205f}' || c == '\u{3000}'
}

/// The characters without trailing whitespace, as `str::trim_end` leaves them.
pub open spec fn spec_trim_end(s: Seq<char>) -> Seq<char>
    decreases s.len(),
{
    if s.len() > 0 && spec_is_whitespace(s.last()) {
        spec_trim_end(s.drop_last())
    } else {
        s
    }
}

/// The characters without leading whitespace, as `str::trim_start` leaves them.
pub open spec fn spec_trim_start(s: Seq<char>) -> Seq<char>
    decreases s.len(),
{
    if s.len() > 0 && spec_is_whitespace(s[0]) {
        spec_trim_start(s.drop_first())
    } else {
        s
    }
}

/// The characters without leading and trailing whitespace, as `str::trim` leaves them.
pub open spec fn spec_trim(s: Seq<char>) -> Seq<char> {
    spec_trim_start(spec_trim_end(s))
}

/// The end of the characters without trailing whitespace.
fn trim_end_index(s: &[char], to: usize) -> (r: usize)
    requires
        to <= s@.len(),
    ensures
        r <= to,
        s@.take(r as int) == spec_trim_end(s@.take(to as int)),
{
    let mut e = to;
    while e > 0 && is_whitespace(s[e - 1])
        invariant
            e <= to <= s@.len(),
            spec_trim_end(s@.take(e as int)) == spec_trim_end(s@.take(to as int)),
        decreases e,
    {
        assert(s@.take(e as int).drop_last() == s@.take(e - 1));
        e = e - 1;
    }
    e
}

/// The start of the characters without leading whitespace.
fn trim_start_index(s: &[char], from: usize, to: usize) -> (r: usize)
    requires
        from <= to <= s@.len(),
    ensures
        from <= r <= to,
        s@.subrange(r as int, to as int) == spec_trim_start(s@.subrange(from as int, to as int)),
{
    let mut b = from;
    while b < to && is_whitespace(s[b])
        invariant
            from <= b <= to <= s@.len(),
            spec_trim_start(s@.subrange(b as int, to as int)) == spec_trim_start(
                s@.subrange(from as int, to as int),
            ),
        decreases to - b,
    {
        assert(s@.subrange(b as int, to as int).drop_first() == s@.subrange(b + 1, to as int));
        b = b + 1;
    }
    b
}

/// The string without leading and trailing whitespace.
pub fn trim(s: &str) -> (r: String)
    ensures
        r@ == spec_trim(s@),
{
    let cs = chars_of(s);
    let e = trim_end_index(cs.as_slice(), cs.len());
    let b = trim_start_index(cs.as_slice(), 0, e);
    assert(cs@.take(cs@.len() as int) == cs@);
    assert(cs@.subrange(0, e as int) == cs@.take(e as int));
    string_from_chars(&cs.as_slice()[b..e])
}

/// The string without trailing whitespace.
pub fn trim_end(s: &str) -> (r: String)
    ensures
        r@ == spec_trim_end(s@),
{
    let cs = chars_of(s);
    let e = trim_end_index(cs.as_slice(), cs.len());
    assert(cs@.take(cs@.len() as int) == cs@);
    string_from_chars(&cs.as_slice()[0..e])
}

/// The string without leading whitespace.
pub fn trim_start(s: &str) -> (r: String)
    ensures
        r@ == spec_trim_start(s@),
{
    let cs = chars_of(s);
    let b = trim_start_index(cs.as_slice(), 0, cs.len());
    assert(cs@.subrange(0, cs@.len() as int) == cs@);
    string_from_chars(&cs.as_slice()[b..cs.len()])
}

/// Whether the characters start with the given prefix.
pub open spec fn spec_starts_with(s: Seq<char>, prefix: Seq<char>) -> bool {
    prefix.len() <= s.len() && s.take(prefix.len() as int) == prefix
}

/// Whether the string starts with the given prefix.
pub fn starts_with_str(s: &str, prefix: &str) -> (r: bool)
    ensures
        r == spec_starts_with(s@, prefix@),
{
    let a = chars_of(s);
    let b = chars_of(prefix);
    if b.len() > a.len() {
        return false;
    }
    let mut i: usize = 0;
    while i < b.len()
        invariant
            i <= b@.len() <= a@.len(),
            a@ == s@,
            b@ == prefix@,
            forall|j: int| 0 <= j < i ==> a@[j] == b@[j],
        decreases b@.len() - i,
    {
        if a[i] != b[i] {
            assert(a@.take(b@.len() as int)[i as int] != b@[i as int]);
            return false;
        }
        i = i + 1;
    }
    assert(a@.take(b@.len() as int) == b@);
    true
}

/// Whether two strings are equal.
pub fn str_equal(a: &str, b: &str) -> (r: bool)
    ensures
        r == (a@ == b@),
{
    let x = chars_of(a);
    let y = chars_of(b);
    if x.len() != y.len() {
        return false;
    }
    let mut i: usize = 0;
    while i < x.len()
        invariant
            i <= x@.len(),
            x@.len() == y@.len(),
            x@ == a@,
            y@ == b@,
            forall|j: int| 0 <= j < i ==> x@[j] == y@[j],
        decreases x@.len() - i,
    {
        if x[i] != y[i] {
            return false;
        }
        i = i + 1;
    }
    assert(x@ == y@);
    true
}

/// The string with a line feed at the end, unless it ends in one.
pub fn assure_newline_str(s: &str) -> (r: String)
    ensures
        r@ == crate::newline::spec_assure_newline(s@, '\n'),
{
    crate::newline::assure_newline(s)
}

/// The bytes of ASCII characters, one byte per character.
pub open spec fn ascii_bytes(c: Seq<char>) -> Seq<u8> {
    Seq::new(c.len(), |i: int| c[i] as u8)
}

/// The UTF-8 encoding of ASCII characters is one byte per character.
pub proof fn lemma_encode_ascii(c: Seq<char>)
    requires
        vstd::utf8::is_ascii_chars(c),
    ensures
        encode_utf8(c) == ascii_bytes(c),
{
    vstd::utf8::is_ascii_chars_encode_utf8(c);
    assert(encode_utf8(c) =~= ascii_bytes(c));
}

/// The UTF-8 encoding of concatenated texts is the concatenation of their
/// encodings.
pub proof fn lemma_encode_concat(a: Seq<char>, b: Seq<char>)
    ensures
        encode_utf8(a + b) == encode_utf8(a) + encode_utf8(b),
    decreases a.len(),
{
    if a.len() == 0 {
        assert(a + b =~= b);
        assert(encode_utf8(a) =~= Seq::<u8>::empty());
        assert(encode_utf8(a) + encode_utf8(b) =~= encode_utf8(b));
    } else {
        lemma_encode_concat(a.drop_first(), b);
        assert((a + b).drop_first() =~= a.drop_first() + b);
        assert((a + b)[0] == a[0]);
    }
}

/// An ASCII character is encoded as its own byte, and every byte of the
/// encoding of any other character is 0x80 or above.
pub proof fn lemma_encode_char_bytes(c: char)
    ensures
        (c as u32) <= 0x7f ==> encode_utf8(seq![c]) == seq![(c as u32) as u8],
        (c as u32) > 0x7f ==> forall|j: int|
            0 <= j < encode_utf8(seq![c]).len() ==> #[trigger] encode_utf8(seq![c])[j] >= 0x80,
{
    let v = c as u32;
    vstd::utf8::char_is_scalar(c);
    assert(seq![c].drop_first() =~= Seq::<char>::empty());
    assert(encode_utf8(seq![c]) =~= vstd::utf8::encode_scalar(v) + encode_utf8(Seq::<char>::empty()));
    assert(encode_utf8(seq![c]) =~= vstd::utf8::encode_scalar(v));
    if v <= 0x7f {
        assert((v & 0x7f) as u8 == v as u8) by (bit_vector)
            requires
                v <= 0x7f,
        ;
    } else {
        assert((0x80u8 | ((v & 0x3F) as u8)) >= 0x80u8) by (bit_vector);
        assert((0x80u8 | (((v >> 6) & 0x3F) as u8)) >= 0x80u8) by (bit_vector);
        assert((0x80u8 | (((v >> 12) & 0x3F) as u8)) >= 0x80u8) by (bit_vector);
        assert((0xC0u8 | (((v >> 6) & 0x1F) as u8)) >= 0x80u8) by (bit_vector);
        assert((0xE0u8 | (((v >> 12) & 0x0F) as u8)) >= 0x80u8) by (bit_vector);
        assert((0xF0u8 | (((v >> 18) & 0x7) as u8)) >= 0x80u8) by (bit_vector);
    }
}

/// The encoding of a text without a given ASCII character holds no byte of
/// that character.
pub proof fn lemma_encode_lacks_ascii(s: Seq<char>, c: char)
    requires
        (c as u32) <= 0x7f,
        !s.contains(c),
    ensures
        forall|j: int| 0 <= j < encode_utf8(s).len() ==> #[trigger] encode_utf8(s)[j] != (c as u32) as u8,
    decreases s.len(),
{
    if s.len() > 0 {
        let t = s.drop_first();
        assert(!t.contains(c)) by {
            if t.contains(c) {
                let k = choose|k: int| 0 <= k < t.len() && t[k] == c;
                assert(s[k + 1] == c);
            }
        }
        lemma_encode_lacks_ascii(t, c);
        lemma_encode_char_bytes(s[0]);
        assert(seq![s[0]] + t =~= s);
        lemma_encode_concat(seq![s[0]], t);
        let first = encode_utf8(seq![s[0]]);
        assert(s[0] != c);
        vstd::utf8::char_u32_cast(s[0], s[0] as u32);
        vstd::utf8::char_u32_cast(c, c as u32);
        assert((s[0] as u32) != (c as u32));
        assert forall|j: int| 0 <= j < encode_utf8(s).len() implies #[trigger] encode_utf8(s)[j] != (
        c as u32) as u8 by {
            if j < first.len() {
                assert(encode_utf8(s)[j] == first[j]);
            } else {
                assert(encode_utf8(s)[j] == encode_utf8(t)[j - first.len()]);
            }
        }
    }
}

} // verus!
