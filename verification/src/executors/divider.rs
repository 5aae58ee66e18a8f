//! Dividers: lines that a script prints after each of its shell expressions
//! so that the output can be divided among them. A divider is
//! `~~~~~~~~EXECDIVIDER::<salt>::<index>::<exit code>`.
use vstd::prelude::*;
use vstd::utf8::{decode_utf8, valid_utf8};

use crate::newline::{byte_lines_view, spec_ends_in, spec_split_lines, spec_trim_newlines, split_at_newline, trim_newlines_bytes, NL};
use crate::text::{ascii_bytes, decimal_string, lemma_encode_ascii, spec_decimal, spec_int_decimal, utf8_decode};

verus! {

/// The characters a divider starts with.
pub open spec fn spec_divider_prefix() -> Seq<char> {
    "~~~~~~~~EXECDIVIDER::"@
}

/// The bytes a divider starts with.
pub open spec fn divider_prefix_bytes() -> Seq<u8> {
    seq![
        126u8,
        126u8,
        126u8,
        126u8,
        126u8,
        126u8,
        126u8,
        126u8,
        69u8,
        88u8,
        69u8,
        67u8,
        68u8,
        73u8,
        86u8,
        73u8,
        68u8,
        69u8,
        82u8,
        58u8,
        58u8,
    ]
}

fn divider_prefix_vec() -> (r: Vec<u8>)
    ensures
        r@ == divider_prefix_bytes(),
{
    let mut v: Vec<u8> = Vec::new();
    let mut i: usize = 0;
    while i < 8
        invariant
            i <= 8,
            v@ == divider_prefix_bytes().take(i as int),
        decreases 8 - i,
    {
        v.push(126u8);
        assert(v@ =~= divider_prefix_bytes().take(i + 1));
        i = i + 1;
    }
    v.push(69u8);
    v.push(88u8);
    v.push(69u8);
    v.push(67u8);
    v.push(68u8);
    v.push(73u8);
    v.push(86u8);
    v.push(73u8);
    v.push(68u8);
    v.push(69u8);
    v.push(82u8);
    v.push(58u8);
    v.push(58u8);
    assert(v@ =~= divider_prefix_bytes());
    v
}

/// A divider for the shell expression with the given index, which prints
/// the exit code of the expression (`$?`).
pub open spec fn spec_generate_divider(salt: Seq<char>, index: nat) -> Seq<char> {
    spec_divider_prefix() + salt + "::"@ + spec_decimal(index) + "::$?"@
}

/// Creates a divider that separates the output of the shell expression with
/// the given index from the output that follows.
pub fn generate_divider(salt: &str, index: usize) -> (r: String)
    ensures
        r@ == spec_generate_divider(salt@, index as nat),
{
    let mut s = "~~~~~~~~EXECDIVIDER::".to_owned();
    s.append(salt);
    s.append("::");
    s.append(decimal_string(index as u64).as_str());
    s.append("::$?");
    s
}

/// The first position from `from` on where the needle occurs.
pub open spec fn spec_find_sub(h: Seq<u8>, n: Seq<u8>, from: int) -> Option<int>
    decreases h.len() + 1 - from,
{
    if from < 0 || from + n.len() > h.len() {
        None
    } else if h.subrange(from, from + n.len()) == n {
        Some(from)
    } else {
        spec_find_sub(h, n, from + 1)
    }
}

proof fn lemma_find_sub_bound(h: Seq<u8>, n: Seq<u8>, from: int)
    ensures
        spec_find_sub(h, n, from) matches Some(p) ==> from <= p && p + n.len() <= h.len(),
    decreases h.len() + 1 - from,
{
    if !(from < 0 || from + n.len() > h.len()) && h.subrange(from, from + n.len()) != n {
        lemma_find_sub_bound(h, n, from + 1);
    }
}

fn find_sub(h: &[u8], n: &[u8]) -> (r: Option<usize>)
    ensures
        match r {
            Some(p) => spec_find_sub(h@, n@, 0) == Some(p as int),
            None => spec_find_sub(h@, n@, 0) is None,
        },
{
    if n.len() > h.len() {
        return None;
    }
    let hl = h.len();
    let last = hl - n.len();
    let mut p: usize = 0;
    while p <= last
        invariant
            hl == h@.len(),
            last + n@.len() == h@.len(),
            spec_find_sub(h@, n@, 0) == spec_find_sub(h@, n@, p as int),
        decreases last + 1 - p,
    {
        let mut j: usize = 0;
        let mut same = true;
        while j < n.len()
            invariant
                j <= n@.len(),
                hl == h@.len(),
                p + n@.len() <= h@.len(),
                same == (forall|x: int| 0 <= x < j ==> h@[p + x] == n@[x]),
            decreases n@.len() - j,
        {
            if h[p + j] != n[j] {
                same = false;
            }
            j = j + 1;
        }
        if same {
            assert(h@.subrange(p as int, p + n@.len()) =~= n@);
            return Some(p);
        } else {
            assert(h@.subrange(p as int, p + n@.len()) != n@) by {
                let x = choose|x: int| 0 <= x < n@.len() && h@[p + x] != n@[x];
                assert(h@.subrange(p as int, p + n@.len())[x] == h@[p + x]);
            }
        }
        if p == last {
            assert(spec_find_sub(h@, n@, p + 1) is None);
            return None;
        }
        p = p + 1;
    }
    None
}

/// Whether all bytes are ASCII digits.
pub open spec fn spec_all_digit_bytes(d: Seq<u8>) -> bool {
    forall|i: int| 0 <= i < d.len() ==> 48 <= #[trigger] d[i] <= 57
}

/// The value of a run of ASCII digits.
pub open spec fn spec_digit_bytes_value(d: Seq<u8>) -> nat
    decreases d.len(),
{
    if d.len() == 0 {
        0
    } else {
        spec_digit_bytes_value(d.drop_last()) * 10 + (d.last() - 48) as nat
    }
}

/// The number that `usize::from_str` reads: an optional `+` and at least
/// one digit, of a value that fits.
pub open spec fn spec_parse_usize(b: Seq<u8>) -> Option<usize> {
    let d = if b.len() > 0 && b[0] == 43 {
        b.drop_first()
    } else {
        b
    };
    if d.len() >= 1 && spec_all_digit_bytes(d) && spec_digit_bytes_value(d) <= usize::MAX {
        Some(spec_digit_bytes_value(d) as usize)
    } else {
        None
    }
}

/// The number that `i32::from_str` reads: an optional `+` or `-` and at
/// least one digit, of a value that fits.
pub open spec fn spec_parse_i32(b: Seq<u8>) -> Option<i32> {
    let neg = b.len() > 0 && b[0] == 45;
    let d = if b.len() > 0 && (b[0] == 43 || b[0] == 45) {
        b.drop_first()
    } else {
        b
    };
    if d.len() >= 1 && spec_all_digit_bytes(d) {
        let v = spec_digit_bytes_value(d);
        if neg && v <= 2147483648 {
            Some((-v) as i32)
        } else if !neg && v <= 2147483647 {
            Some(v as i32)
        } else {
            None
        }
    } else {
        None
    }
}

proof fn lemma_digit_bytes_monotone(d: Seq<u8>, k: int)
    requires
        0 <= k <= d.len(),
        spec_all_digit_bytes(d),
    ensures
        spec_digit_bytes_value(d.take(k)) <= spec_digit_bytes_value(d),
    decreases d.len() - k,
{
    if k < d.len() {
        assert(d.take(k + 1).drop_last() == d.take(k));
        lemma_digit_bytes_monotone(d, k + 1);
    } else {
        assert(d.take(k) == d);
    }
}

/// The value of the digits `b[from..]`, if all are digits and the value is
/// at most the limit.
fn digits_value(b: &[u8], from: usize, limit: u64) -> (r: Option<u64>)
    requires
        from <= b@.len(),
    ensures
        match r {
            Some(v) => spec_all_digit_bytes(b@.skip(from as int)) && v == spec_digit_bytes_value(
                b@.skip(from as int),
            ) && v <= limit,
            None => !spec_all_digit_bytes(b@.skip(from as int)) || spec_digit_bytes_value(
                b@.skip(from as int),
            ) > limit,
        },
{
    let ghost d = b@.skip(from as int);
    let mut v: u64 = 0;
    let mut i = from;
    while i < b.len()
        invariant
            from <= i <= b@.len(),
            d == b@.skip(from as int),
            spec_all_digit_bytes(d.take(i - from)),
            v == spec_digit_bytes_value(d.take(i - from)),
            v <= limit,
        decreases b@.len() - i,
    {
        let c = b[i];
        if c < 48 || c > 57 {
            assert(d[i - from] == c);
            return None;
        }
        let ghost pre = d.take(i - from + 1);
        assert(pre.drop_last() == d.take(i - from));
        assert(pre.last() == c);
        let next: u128 = v as u128 * 10 + (c - 48) as u128;
        if next > limit as u128 {
            proof {
                assert(spec_all_digit_bytes(pre));
                if spec_all_digit_bytes(d) {
                    lemma_digit_bytes_monotone(d, i - from + 1);
                }
            }
            return None;
        }
        v = next as u64;
        i = i + 1;
    }
    assert(d.take(i - from) == d);
    Some(v)
}

/// Reads a `usize` as `usize::from_str` does.
pub fn parse_usize(b: &[u8]) -> (r: Option<usize>)
    ensures
        r == spec_parse_usize(b@),
{
    let from: usize = if b.len() > 0 && b[0] == 43 {
        1
    } else {
        0
    };
    assert(b@.skip(from as int) == (if b@.len() > 0 && b@[0] == 43 {
        b@.drop_first()
    } else {
        b@
    }));
    if from >= b.len() {
        return None;
    }
    match digits_value(b, from, usize::MAX as u64) {
        Some(v) => Some(v as usize),
        None => None,
    }
}

/// Reads an `i32` as `i32::from_str` does.
pub fn parse_i32(b: &[u8]) -> (r: Option<i32>)
    ensures
        r == spec_parse_i32(b@),
{
    let neg = b.len() > 0 && b[0] == 45;
    let from: usize = if b.len() > 0 && (b[0] == 43 || b[0] == 45) {
        1
    } else {
        0
    };
    assert(b@.skip(from as int) == (if b@.len() > 0 && (b@[0] == 43 || b@[0] == 45) {
        b@.drop_first()
    } else {
        b@
    }));
    if from >= b.len() {
        return None;
    }
    let limit: u64 = if neg {
        2147483648
    } else {
        2147483647
    };
    match digits_value(b, from, limit) {
        Some(v) => {
            if neg {
                if v == 2147483648 {
                    Some(i32::MIN)
                } else {
                    Some(-(v as i32))
                }
            } else {
                Some(v as i32)
            }
        },
        None => None,
    }
}

/// What a line says about a divider.
#[derive(Debug, Clone, PartialEq)]
pub enum DividerSearch {
    /// The line holds a divider: the output that precedes it on the line
    /// (if any), the index of the shell expression, and its exit code
    Found { prefix: Option<Vec<u8>>, output_index: usize, exit_code: i32 },
    /// The line holds no divider
    NotFound,
}

/// The abstract value of a [`DividerSearch`].
pub enum DividerSearchView {
    Found { prefix: Option<Seq<u8>>, output_index: usize, exit_code: i32 },
    NotFound,
}

impl View for DividerSearch {
    type V = DividerSearchView;

    open spec fn view(&self) -> DividerSearchView {
        match self {
            DividerSearch::Found { prefix, output_index, exit_code } => DividerSearchView::Found {
                prefix: match prefix {
                    Some(p) => Some(p@),
                    None => None,
                },
                output_index: *output_index,
                exit_code: *exit_code,
            },
            DividerSearch::NotFound => DividerSearchView::NotFound,
        }
    }
}

/// The bytes of `::`.
pub open spec fn colons() -> Seq<u8> {
    seq![58u8, 58u8]
}

/// What a line (without its trailing line feeds) says about a divider: no
/// divider, the divider's parts, or why it is malformed.
pub open spec fn spec_parse_divider(line: Seq<u8>) -> Result<DividerSearchView, Seq<char>> {
    let t = spec_trim_newlines(line, NL);
    match spec_find_sub(t, divider_prefix_bytes(), 0) {
        None => Ok(DividerSearchView::NotFound),
        Some(p) => {
            let rest = t.skip(p + divider_prefix_bytes().len());
            match spec_find_sub(rest, colons(), 0) {
                None => Err("salt is missing from divider line"@),
                Some(q) => {
                    let r2 = rest.skip(q + 2);
                    match spec_find_sub(r2, colons(), 0) {
                        None => Err("output index is missing from divider line"@),
                        Some(j) => {
                            let index = r2.take(j);
                            let code = r2.skip(j + 2);
                            if !valid_utf8(index) {
                                Err("output index must be utf8"@)
                            } else if !valid_utf8(code) {
                                Err("return code index must be utf8"@)
                            } else {
                                match spec_parse_usize(index) {
                                    None => Err(
                                        "parse divider output index "@ + decode_utf8(index),
                                    ),
                                    Some(n) => match spec_parse_i32(code) {
                                        None => Err("parse divider exit code "@ + decode_utf8(code)),
                                        Some(c) => Ok(
                                            DividerSearchView::Found {
                                                prefix: if p > 0 {
                                                    Some(t.take(p))
                                                } else {
                                                    None
                                                },
                                                output_index: n,
                                                exit_code: c,
                                            },
                                        ),
                                    },
                                }
                            }
                        },
                    }
                },
            }
        },
    }
}

/// Extracts the index and the exit code from a line that holds a divider.
/// Output that does not end in a line feed has the divider appended, so
/// the part of the line before the divider is returned too.
pub fn parse_divider_bytes(line: &[u8]) -> (r: Result<DividerSearch, String>)
    ensures
        match r {
            Ok(d) => spec_parse_divider(line@) == Ok::<DividerSearchView, Seq<char>>(d@),
            Err(m) => spec_parse_divider(line@) == Err::<DividerSearchView, Seq<char>>(m@),
        },
{
    let t = trim_newlines_bytes(line);
    let tlen = t.len();
    let prefix_bytes = divider_prefix_vec();
    let p = match find_sub(t, prefix_bytes.as_slice()) {
        None => {
            return Ok(DividerSearch::NotFound);
        },
        Some(p) => p,
    };
    proof {
        lemma_find_sub_bound(t@, prefix_bytes@, 0);
    }
    let rest = &t[p + prefix_bytes.len()..tlen];
    assert(rest@ == t@.skip(p + divider_prefix_bytes().len()));
    let mut colon_bytes: Vec<u8> = Vec::new();
    colon_bytes.push(58u8);
    colon_bytes.push(58u8);
    assert(colon_bytes@ =~= colons());
    let q = match find_sub(rest, colon_bytes.as_slice()) {
        None => {
            return Err("salt is missing from divider line".to_owned());
        },
        Some(q) => q,
    };
    proof {
        lemma_find_sub_bound(rest@, colons(), 0);
    }
    let rlen = rest.len();
    let r2 = &rest[q + 2..rlen];
    assert(r2@ == rest@.skip(q + 2));
    let j = match find_sub(r2, colon_bytes.as_slice()) {
        None => {
            return Err("output index is missing from divider line".to_owned());
        },
        Some(j) => j,
    };
    proof {
        lemma_find_sub_bound(r2@, colons(), 0);
    }
    let r2len = r2.len();
    let index_bytes = &r2[0..j];
    let code_bytes = &r2[j + 2..r2len];
    assert(index_bytes@ == r2@.take(j as int));
    assert(code_bytes@ == r2@.skip(j + 2));
    let index_text = match utf8_decode(index_bytes) {
        None => {
            return Err("output index must be utf8".to_owned());
        },
        Some(s) => s,
    };
    let code_text = match utf8_decode(code_bytes) {
        None => {
            return Err("return code index must be utf8".to_owned());
        },
        Some(s) => s,
    };
    let output_index = match parse_usize(index_bytes) {
        None => {
            let mut m = "parse divider output index ".to_owned();
            m.append(index_text.as_str());
            return Err(m);
        },
        Some(n) => n,
    };
    let exit_code = match parse_i32(code_bytes) {
        None => {
            let mut m = "parse divider exit code ".to_owned();
            m.append(code_text.as_str());
            return Err(m);
        },
        Some(c) => c,
    };
    let prefix = if p > 0 {
        Some(vstd::slice::slice_to_vec(&t[0..p]))
    } else {
        None
    };
    Ok(DividerSearch::Found { prefix, output_index, exit_code })
}

/// The line that the shell prints for the divider generated for the shell
/// expression with the given index, when the expression ended with the
/// given exit code: the divider with `$?` expanded.
pub open spec fn spec_printed_divider(salt: Seq<char>, index: nat, code: int) -> Seq<char> {
    spec_divider_prefix() + salt + "::"@ + spec_decimal(index) + "::"@ + spec_int_decimal(code)
}

proof fn lemma_decimal_digits(n: nat)
    ensures
        spec_decimal(n).len() >= 1,
        forall|i: int| 0 <= i < spec_decimal(n).len() ==> '0' <= #[trigger] spec_decimal(n)[i] <= '9',
        spec_all_digit_bytes(ascii_bytes(spec_decimal(n))),
        spec_digit_bytes_value(ascii_bytes(spec_decimal(n))) == n,
    decreases n,
{
    let d = spec_decimal(n);
    let b = ascii_bytes(d);
    if n >= 10 {
        lemma_decimal_digits(n / 10);
        assert(b.drop_last() =~= ascii_bytes(spec_decimal(n / 10)));
        assert(d.last() == crate::text::digit_char(n % 10));
        assert(b.last() == 48 + n % 10);
        assert(n == (n / 10) * 10 + n % 10);
        assert(spec_digit_bytes_value(b) == spec_digit_bytes_value(b.drop_last()) * 10 + (b.last()
            - 48) as nat);
    } else {
        assert(b.drop_last() =~= Seq::<u8>::empty());
        assert(b.last() == 48 + n);
        assert(spec_digit_bytes_value(b.drop_last()) == 0);
        assert(spec_digit_bytes_value(b) == spec_digit_bytes_value(b.drop_last()) * 10 + (b.last()
            - 48) as nat);
    }
}

proof fn lemma_find_sub_at(h: Seq<u8>, n: Seq<u8>, from: int, k: int)
    requires
        0 <= from <= k,
        k + n.len() <= h.len(),
        h.subrange(k, k + n.len()) == n,
        forall|x: int| from <= x < k ==> #[trigger] h.subrange(x, x + n.len()) != n,
    ensures
        spec_find_sub(h, n, from) == Some(k),
    decreases k - from,
{
    if from < k {
        lemma_find_sub_at(h, n, from + 1, k);
    }
}

/// Finds `::` after a run of bytes that holds no `:`.
proof fn lemma_find_colons_after(h: Seq<u8>, k: int)
    requires
        0 <= k,
        k + 2 <= h.len(),
        h[k] == 58 && h[k + 1] == 58,
        forall|x: int| 0 <= x < k ==> h[x] != 58,
    ensures
        spec_find_sub(h, colons(), 0) == Some(k),
{
    assert(h.subrange(k, k + 2) =~= colons());
    assert forall|x: int| 0 <= x < k implies #[trigger] h.subrange(x, x + 2) != colons() by {
        assert(h.subrange(x, x + 2)[0] == h[x]);
    }
    lemma_find_sub_at(h, colons(), 0, k);
}

/// The bytes of the divider that the shell printed.
pub open spec fn printed_divider_bytes(salt: Seq<char>, index: nat, code: int) -> Seq<u8> {
    vstd::utf8::encode_utf8(spec_printed_divider(salt, index, code))
}

/// Whether the needle occurs somewhere in the bytes.
pub open spec fn occurs(h: Seq<u8>, n: Seq<u8>) -> bool {
    exists|k: int| 0 <= k && k + n.len() <= h.len() && #[trigger] h.subrange(k, k + n.len()) == n
}

/// The facts about a printed divider that reading it back rests on: it
/// starts with the prefix (whose first eight bytes are `~`), holds no line
/// feed, and what follows the prefix reads as the salt, the index and the
/// exit code.
proof fn lemma_printed_divider_facts(salt: Seq<char>, index: usize, code: i32)
    requires
        !salt.contains(':'),
    ensures
        ({
            let b = printed_divider_bytes(salt, index as nat, code as int);
            &&& b.len() > 21
            &&& b.subrange(0, 21) == divider_prefix_bytes()
            &&& forall|j: int| 0 <= j < 8 ==> #[trigger] b[j] == 126u8
            &&& b.last() != NL
            &&& !salt.contains('\n') ==> !b.contains(NL)
            &&& ({
                let rest = b.skip(21);
                spec_find_sub(rest, colons(), 0) matches Some(q) && ({
                    let r2 = rest.skip(q + 2);
                    spec_find_sub(r2, colons(), 0) matches Some(j) && valid_utf8(r2.take(j))
                        && valid_utf8(r2.skip(j + 2)) && spec_parse_usize(r2.take(j)) == Some(index)
                        && spec_parse_i32(r2.skip(j + 2)) == Some(code)
                })
            })
        }),
{
    reveal_strlit("~~~~~~~~EXECDIVIDER::");
    reveal_strlit("::");
    let di = spec_decimal(index as nat);
    let mag: nat = if code < 0 {
        (-code) as nat
    } else {
        code as nat
    };
    let dn = spec_decimal(mag);
    let dc = spec_int_decimal(code as int);
    lemma_decimal_digits(index as nat);
    lemma_decimal_digits(mag);
    assert(dc == if code < 0 {
        seq!['-'] + dn
    } else {
        dn
    });
    assert forall|k: int| 0 <= k < dc.len() implies (#[trigger] dc[k] == '-' || '0' <= dc[k] <= '9') by {
        if code < 0 && k > 0 {
            assert(dc[k] == dn[k - 1]);
        }
    }
    assert(dc.last() == dn.last());
    let pre = spec_divider_prefix();
    assert(pre.len() == 21);
    let il = di.len() as int;
    let mid = "::"@ + di + "::"@ + dc;
    let l = spec_printed_divider(salt, index as nat, code as int);
    assert(l =~= pre + salt + mid);
    assert(mid.len() == 4 + il + dc.len());
    // the prefix and what follows the salt are ASCII
    assert(vstd::utf8::is_ascii_chars(pre)) by {
        assert forall|i: int| 0 <= i < pre.len() implies '\0' <= #[trigger] pre[i] <= '\u{7f}' by {}
    }
    assert forall|i: int| 0 <= i < mid.len() implies (#[trigger] mid[i] == ':' || mid[i] == '-' || '0'
        <= mid[i] <= '9') by {
        if 2 <= i < 2 + il {
            assert(mid[i] == di[i - 2]);
        } else if 2 + il + 2 <= i {
            assert(mid[i] == dc[i - 4 - il]);
        }
    }
    assert(vstd::utf8::is_ascii_chars(mid)) by {
        assert forall|i: int| 0 <= i < mid.len() implies '\0' <= #[trigger] mid[i] <= '\u{7f}' by {
            assert(mid[i] == ':' || mid[i] == '-' || '0' <= mid[i] <= '9');
        }
    }
    lemma_encode_ascii(pre);
    lemma_encode_ascii(mid);
    crate::text::lemma_encode_concat(pre, salt);
    crate::text::lemma_encode_concat(pre + salt, mid);
    let es = vstd::utf8::encode_utf8(salt);
    let el = es.len() as int;
    let pb = ascii_bytes(pre);
    let mb = ascii_bytes(mid);
    let b = printed_divider_bytes(salt, index as nat, code as int);
    assert(b == pb + es + mb);
    crate::text::lemma_encode_lacks_ascii(salt, ':');
    assert(b.subrange(0, 21) =~= divider_prefix_bytes());
    assert forall|j: int| 0 <= j < 8 implies #[trigger] b[j] == 126u8 by {
        assert(b[j] == divider_prefix_bytes()[j]);
    }
    assert(b.last() == mb.last());
    assert(mb.last() == dc.last() as u8);
    assert(b.last() != NL);
    assert(!salt.contains('\n') ==> !b.contains(NL)) by {
        if !salt.contains('\n') && b.contains(NL) {
            crate::text::lemma_encode_lacks_ascii(salt, '\n');
            let j = choose|j: int| 0 <= j < b.len() && b[j] == NL;
            if j < 21 {
                assert(b[j] == divider_prefix_bytes()[j]);
            } else if j < 21 + el {
                assert(b[j] == es[j - 21]);
            } else {
                let k = j - 21 - el;
                assert(b[j] == mb[k]);
                assert(mb[k] == mid[k] as u8);
                assert(mid[k] == ':' || mid[k] == '-' || '0' <= mid[k] <= '9');
            }
        }
    }
    let rest = b.skip(21);
    assert(rest =~= es + mb);
    assert forall|x: int| 0 <= x < el implies rest[x] != 58 by {
        assert(rest[x] == es[x]);
    }
    assert(rest[el] == 58 && rest[el + 1] == 58);
    lemma_find_colons_after(rest, el);
    let r2 = rest.skip(el + 2);
    assert(r2 =~= mb.skip(2));
    assert forall|x: int| 0 <= x < il implies r2[x] != 58 by {
        assert(r2[x] == di[x] as u8);
    }
    assert(r2[il] == 58 && r2[il + 1] == 58);
    lemma_find_colons_after(r2, il);
    let ib = r2.take(il);
    let cb = r2.skip(il + 2);
    assert(ib =~= ascii_bytes(di));
    assert(cb =~= ascii_bytes(dc));
    assert(vstd::utf8::is_ascii_chars(di));
    assert(vstd::utf8::is_ascii_chars(dc)) by {
        assert forall|k: int| 0 <= k < dc.len() implies '\0' <= #[trigger] dc[k] <= '\u{7f}' by {
            assert(dc[k] == '-' || '0' <= dc[k] <= '9');
        }
    }
    lemma_encode_ascii(di);
    lemma_encode_ascii(dc);
    vstd::utf8::encode_utf8_valid_utf8(di);
    vstd::utf8::encode_utf8_valid_utf8(dc);
    assert(ib[0] != 43);
    assert(spec_parse_usize(ib) == Some(index));
    if code < 0 {
        assert(cb[0] == 45);
        assert(cb.drop_first() =~= ascii_bytes(dn));
        assert(mag <= 2147483648);
    } else {
        assert(cb =~= ascii_bytes(dn));
        assert(cb[0] != 43 && cb[0] != 45);
    }
    assert(spec_parse_i32(cb) == Some(code));
}

/// The facts about a printed divider: it holds no line feed where its
/// salt holds none.
pub proof fn lemma_printed_divider_facts_pub(salt: Seq<char>, index: usize, code: i32)
    requires
        !salt.contains(':'),
    ensures
        printed_divider_bytes(salt, index as nat, code as int).len() > 0,
        !salt.contains('\n') ==> !printed_divider_bytes(salt, index as nat, code as int).contains(NL),
{
    lemma_printed_divider_facts(salt, index, code);
}

/// Line feeds, as many as given.
pub open spec fn line_feeds(count: nat) -> Seq<u8> {
    Seq::new(count, |i: int| NL)
}

proof fn lemma_trim_line_feeds(x: Seq<u8>, count: nat)
    requires
        !spec_ends_in(x, NL),
    ensures
        spec_trim_newlines(x + line_feeds(count), NL) == x,
    decreases count,
{
    if count == 0 {
        assert(x + line_feeds(0) =~= x);
    } else {
        let y = x + line_feeds(count);
        assert(y.last() == NL);
        assert(y.drop_last() =~= x + line_feeds((count - 1) as nat));
        lemma_trim_line_feeds(x, (count - 1) as nat);
    }
}

/// A line that holds output without divider (line feeds included), then a
/// printed divider with a salt without `:` and an exit code of either sign,
/// then any number of line feeds, reads back as that output (as prefix, if
/// any), the index and the exit code.
pub proof fn law_prefixed_divider_parses_back(
    tail: Seq<u8>,
    salt: Seq<char>,
    index: usize,
    code: i32,
    newlines: nat,
)
    requires
        !salt.contains(':'),
        !occurs(tail, divider_prefix_bytes()),
    ensures
        spec_parse_divider(tail + printed_divider_bytes(salt, index as nat, code as int) + line_feeds(newlines))
            == Ok::<DividerSearchView, Seq<char>>(
            DividerSearchView::Found {
                prefix: if tail.len() > 0 {
                    Some(tail)
                } else {
                    None
                },
                output_index: index,
                exit_code: code,
            },
        ),
{
    lemma_printed_divider_facts(salt, index, code);
    let b = printed_divider_bytes(salt, index as nat, code as int);
    let p = divider_prefix_bytes();
    let t = tail + b;
    let line = t + line_feeds(newlines);
    // the line feeds are trimmed, and the divider ends in no line feed
    assert(t.last() == b.last());
    lemma_trim_line_feeds(t, newlines);
    assert(spec_trim_newlines(line, NL) == t);
    // the first occurrence of the prefix is where the divider starts
    let tl = tail.len() as int;
    assert(t.subrange(tl, tl + 21) =~= b.subrange(0, 21));
    assert forall|x: int| 0 <= x < tl implies #[trigger] t.subrange(x, x + p.len()) != p by {
        if x + 21 <= tl {
            assert(t.subrange(x, x + 21) =~= tail.subrange(x, x + 21));
            if t.subrange(x, x + 21) == p {
                assert(occurs(tail, p));
            }
        } else {
            let m = tl - x;
            reveal_strlit("~~~~~~~~EXECDIVIDER::");
            if m <= 8 {
                assert(t[x + 8] == b[8 - m]);
                assert(t.subrange(x, x + 21)[8] != p[8]);
            } else {
                assert(t[x + m] == b[0]);
                assert(t.subrange(x, x + 21)[m] != p[m]);
            }
        }
    }
    lemma_find_sub_at(t, p, 0, tl);
    assert(t.skip(tl + 21) =~= b.skip(21));
    assert(t.take(tl) =~= tail);
}

/// A divider that the shell printed (with or without its line feed) is read
/// back as the index of the shell expression and its exit code, with no
/// output before it, for any salt without `:` and any exit code.
pub proof fn law_printed_divider_parses_back(salt: Seq<char>, index: usize, code: i32)
    requires
        !salt.contains(':'),
    ensures
        spec_parse_divider(printed_divider_bytes(salt, index as nat, code as int)) == Ok::<
            DividerSearchView,
            Seq<char>,
        >(DividerSearchView::Found { prefix: None, output_index: index, exit_code: code }),
        spec_parse_divider(printed_divider_bytes(salt, index as nat, code as int).push(NL))
            == Ok::<DividerSearchView, Seq<char>>(
            DividerSearchView::Found { prefix: None, output_index: index, exit_code: code },
        ),
{
    let b = printed_divider_bytes(salt, index as nat, code as int);
    let e = Seq::<u8>::empty();
    assert(!occurs(e, divider_prefix_bytes()));
    law_prefixed_divider_parses_back(e, salt, index, code, 0);
    law_prefixed_divider_parses_back(e, salt, index, code, 1);
    assert(e + b + line_feeds(0) =~= b);
    assert(e + b + line_feeds(1) =~= b.push(NL));
}

/// What the shell prints for a generated divider is the divider with its
/// `$?` replaced by the exit code.
pub proof fn law_printed_divider_expands_generated(salt: Seq<char>, index: nat, code: int)
    ensures
        ({
            let head = spec_divider_prefix() + salt + "::"@ + spec_decimal(index) + "::"@;
            &&& spec_generate_divider(salt, index) == head + "$?"@
            &&& spec_printed_divider(salt, index, code) == head + spec_int_decimal(code)
        }),
{
    reveal_strlit("::$?");
    reveal_strlit("::");
    reveal_strlit("$?");
    let head = spec_divider_prefix() + salt + "::"@ + spec_decimal(index) + "::"@;
    assert(spec_generate_divider(salt, index) =~= head + "$?"@);
    assert(spec_printed_divider(salt, index, code) =~= head + spec_int_decimal(code));
}

} // verus!
