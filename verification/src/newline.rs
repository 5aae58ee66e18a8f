//! Newline handling for raw byte output and for text.
//!
//! Scrut works internally with LF line endings only; CRLF is converted to LF
//! where content enters (test files and execution output).
use vstd::prelude::*;

use crate::text::chars_of;
use vstd::slice::slice_to_vec;

verus! {

/// The line feed byte.
pub const NL: u8 = 10u8;

/// The carriage return byte.
pub const CR: u8 = 13u8;

/// Whether a sequence ends in the given newline element.
pub open spec fn spec_ends_in<A>(s: Seq<A>, nl: A) -> bool {
    s.len() > 0 && s.last() == nl
}

/// A sequence with all trailing newline elements removed.
pub open spec fn spec_trim_newlines<A>(s: Seq<A>, nl: A) -> Seq<A>
    decreases s.len(),
{
    if spec_ends_in(s, nl) {
        spec_trim_newlines(s.drop_last(), nl)
    } else {
        s
    }
}

/// A sequence that ends in a newline element: unchanged if it already does,
/// else with one appended.
pub open spec fn spec_assure_newline<A>(s: Seq<A>, nl: A) -> Seq<A> {
    if spec_ends_in(s, nl) {
        s
    } else {
        s.push(nl)
    }
}

/// The first index at or after `from` that holds `x`, if any.
pub open spec fn spec_find_from<A>(s: Seq<A>, x: A, from: int) -> Option<int>
    decreases s.len() - from,
{
    if from < 0 || from >= s.len() {
        None
    } else if s[from] == x {
        Some(from)
    } else {
        spec_find_from(s, x, from + 1)
    }
}

/// Splits bytes into lines, each of which keeps its terminating LF. A
/// final line without LF is kept as it is; empty input has no lines.
pub open spec fn spec_split_lines(s: Seq<u8>) -> Seq<Seq<u8>>
    decreases s.len(),
{
    if s.len() == 0 {
        seq![]
    } else {
        match spec_find_from(s, NL, 0) {
            Some(i) => if 0 <= i < s.len() {
                seq![s.take(i + 1)] + spec_split_lines(s.skip(i + 1))
            } else {
                seq![s]
            },
            None => seq![s],
        }
    }
}

/// All CR bytes that directly precede a LF byte removed.
pub open spec fn spec_replace_crlf(s: Seq<u8>) -> Seq<u8>
    decreases s.len(),
{
    if s.len() == 0 {
        s
    } else if s.len() >= 2 && s[0] == CR && s[1] == NL {
        spec_replace_crlf(s.drop_first())
    } else {
        seq![s[0]] + spec_replace_crlf(s.drop_first())
    }
}

/// The views of a sequence of byte vectors.
pub open spec fn byte_lines_view(v: Seq<Vec<u8>>) -> Seq<Seq<u8>> {
    v.map_values(|l: Vec<u8>| l@)
}

/// Concatenation of a sequence of sequences.
pub open spec fn spec_flatten<A>(ss: Seq<Seq<A>>) -> Seq<A>
    decreases ss.len(),
{
    if ss.len() == 0 {
        seq![]
    } else {
        ss[0] + spec_flatten(ss.drop_first())
    }
}

/// Whether the bytes end in a LF.
pub fn ends_in_newline(data: &[u8]) -> (r: bool)
    ensures
        r == spec_ends_in(data@, NL),
{
    let l = data.len();
    l > 0 && data[l - 1] == NL
}

/// The bytes without trailing LF(s).
pub fn trim_newlines_bytes(data: &[u8]) -> (r: &[u8])
    ensures
        r@ == spec_trim_newlines(data@, NL),
{
    let mut right: usize = data.len();
    assert(data@.take(data@.len() as int) == data@);
    while right > 0 && data[right - 1] == NL
        invariant
            right <= data@.len(),
            spec_trim_newlines(data@, NL) == spec_trim_newlines(data@.take(right as int), NL),
        decreases right,
    {
        assert(data@.take(right as int).drop_last() == data@.take(right - 1));
        right = right - 1;
    }
    &data[0..right]
}

/// The bytes, ending in a LF: as they are if they already do, else with one appended.
pub fn assure_newline_bytes(data: &[u8]) -> (r: Vec<u8>)
    ensures
        r@ == spec_assure_newline(data@, NL),
{
    let mut v = slice_to_vec(data);
    if !ends_in_newline(data) {
        v.push(NL);
    }
    v
}

/// The text without trailing LF(s).
pub fn trim_newlines(line: &str) -> (r: String)
    ensures
        r@ == spec_trim_newlines(line@, '\n'),
{
    let chars = chars_of(line);
    let mut right: usize = chars.len();
    assert(line@.take(line@.len() as int) == line@);
    while right > 0 && chars[right - 1] == '\n'
        invariant
            right <= line@.len(),
            chars@ == line@,
            spec_trim_newlines(line@, '\n') == spec_trim_newlines(line@.take(right as int), '\n'),
        decreases right,
    {
        assert(line@.take(right as int).drop_last() == line@.take(right - 1));
        right = right - 1;
    }
    assert(line@.take(line@.len() as int) == line@);
    line.substring_char(0, right).to_owned()
}

/// The text, ending in a LF: as it is if it already does, else with one appended.
pub fn assure_newline(line: &str) -> (r: String)
    ensures
        r@ == spec_assure_newline(line@, '\n'),
{
    let chars = chars_of(line);
    let n = chars.len();
    let mut s = line.to_owned();
    if !(n > 0 && chars[n - 1] == '\n') {
        let nl = "\n";
        proof {
            reveal_strlit("\n");
        }
        s.append(nl);
    }
    s
}

pub proof fn lemma_find_from_bounds<A>(s: Seq<A>, x: A, from: int)
    requires
        from >= 0,
    ensures
        spec_find_from(s, x, from) matches Some(i) ==> from <= i < s.len() && s[i] == x
            && (forall|j: int| from <= j < i ==> s[j] != x),
        spec_find_from(s, x, from) is None ==> forall|j: int| from <= j < s.len() ==> s[j] != x,
    decreases s.len() - from,
{
    if from >= 0 && from < s.len() && s[from] != x {
        lemma_find_from_bounds(s, x, from + 1);
    }
}

pub proof fn lemma_find_from_shift<A>(s: Seq<A>, x: A, start: int, from: int)
    requires
        0 <= start <= from,
        start <= s.len(),
    ensures
        spec_find_from(s.skip(start), x, from - start) == match spec_find_from(s, x, from) {
            Some(i) => Some(i - start),
            None => None::<int>,
        },
    decreases s.len() - from,
{
    if from < s.len() && s[from] != x {
        lemma_find_from_shift(s, x, start, from + 1);
    }
}

/// Splits bytes at LF into lines that keep their LF.
pub fn split_at_newline(text: &[u8]) -> (lines: Vec<Vec<u8>>)
    ensures
        byte_lines_view(lines@) == spec_split_lines(text@),
{
    let mut lines: Vec<Vec<u8>> = Vec::new();
    let mut start: usize = 0;
    let mut index: usize = 0;
    assert(text@.skip(0) == text@);
    assert(byte_lines_view(lines@) + spec_split_lines(text@) == spec_split_lines(text@));
    while index < text.len()
        invariant
            start <= index <= text@.len(),
            forall|j: int| start <= j < index ==> text@[j] != NL,
            spec_split_lines(text@) == byte_lines_view(lines@) + spec_split_lines(text@.skip(start as int)),
        decreases text@.len() - index,
    {
        if text[index] == NL {
            proof {
                let rest = text@.skip(start as int);
                lemma_find_from_shift(text@, NL, start as int, start as int);
                lemma_find_from_bounds(text@, NL, start as int);
                let _ = spec_find_from(rest, NL, 0);
                assert(rest.skip(index - start + 1) == text@.skip(index + 1));
                assert(rest.take(index - start + 1) == text@.subrange(start as int, index + 1));
                assert(rest.len() > 0);
                assert(spec_find_from(text@, NL, start as int) == Some(index as int));
                assert(spec_split_lines(rest) == seq![text@.subrange(start as int, index + 1)]
                    + spec_split_lines(text@.skip(index + 1)));
            }
            let line = slice_to_vec(&text[start..index + 1]);
            let ghost old_lines = lines@;
            lines.push(line);
            proof {
                assert(byte_lines_view(lines@) == byte_lines_view(old_lines).push(text@.subrange(start as int, index + 1)));
                assert(spec_split_lines(text@) == byte_lines_view(lines@) + spec_split_lines(
                    text@.skip(index + 1),
                ));
            }
            start = index + 1;
        }
        index = index + 1;
    }
    proof {
        lemma_find_from_shift(text@, NL, start as int, start as int);
        lemma_find_from_bounds(text@, NL, start as int);
    }
    if start < text.len() {
        proof {
            let rest = text@.skip(start as int);
            assert(rest.len() > 0);
            assert(spec_find_from(rest, NL, 0) is None);
            assert(spec_split_lines(rest) == seq![rest]);
            assert(text@.subrange(start as int, text@.len() as int) == rest);
        }
        let ghost old_lines = lines@;
        lines.push(slice_to_vec(&text[start..text.len()]));
        assert(byte_lines_view(lines@) == byte_lines_view(old_lines).push(text@.skip(start as int)));
    } else {
        assert(text@.skip(start as int).len() == 0);
        assert(byte_lines_view(lines@) + seq![] == byte_lines_view(lines@));
    }
    lines
}

/// Removes every CR that directly precedes a LF.
pub fn replace_crlf(bytes: &[u8]) -> (r: Vec<u8>)
    ensures
        r@ == spec_replace_crlf(bytes@),
{
    let mut out: Vec<u8> = Vec::new();
    let mut i: usize = 0;
    assert(bytes@.skip(0) == bytes@);
    assert(out@ + spec_replace_crlf(bytes@) == spec_replace_crlf(bytes@));
    while i < bytes.len()
        invariant
            i <= bytes@.len(),
            spec_replace_crlf(bytes@) == out@ + spec_replace_crlf(bytes@.skip(i as int)),
        decreases bytes@.len() - i,
    {
        let ghost rest = bytes@.skip(i as int);
        assert(rest.drop_first() == bytes@.skip(i + 1));
        if bytes[i] == CR && i + 1 < bytes.len() && bytes[i + 1] == NL {
        } else {
            let ghost old_out = out@;
            out.push(bytes[i]);
            assert(out@ == old_out + seq![bytes@[i as int]]);
        }
        i = i + 1;
    }
    assert(bytes@.skip(i as int).len() == 0);
    assert(out@ + seq![] == out@);
    out
}

/// The text followed by a line feed.
pub fn formatln(text: &str) -> (r: String)
    ensures
        r@ == text@.push('\n'),
{
    let mut s = text.to_owned();
    crate::text::push_char(&mut s, '\n');
    s
}

/// The bytes of the text followed by a line feed.
pub fn bformatln(text: &str) -> (r: Vec<u8>)
    ensures
        r@ == vstd::utf8::encode_utf8(text@.push('\n')),
{
    let s = formatln(text);
    vstd::slice::slice_to_vec(s.as_str().as_bytes())
}

/// The bytes of the lines, each followed by a line feed.
pub fn blines(lines: &[&str]) -> (r: Vec<u8>)
    ensures
        r@ == vstd::utf8::encode_utf8(
            crate::text::spec_join_newline(lines@.map_values(|l: &str| l@)).push('\n'),
        ),
{
    let mut v: Vec<String> = Vec::new();
    let mut i: usize = 0;
    while i < lines.len()
        invariant
            i <= lines@.len(),
            crate::text::strings_view(v@) == lines@.take(i as int).map_values(|l: &str| l@),
        decreases lines@.len() - i,
    {
        let ghost before = v@;
        let l = lines[i].to_owned();
        v.push(l);
        proof {
            let target = lines@.take(i + 1).map_values(|l: &str| l@);
            assert(v@ == before.push(l));
            assert(crate::text::strings_view(before).len() == i);
            assert(target[i as int] == lines@[i as int]@);
            assert forall|j: int| 0 <= j < v@.len() implies crate::text::strings_view(v@)[j]
                == target[j] by {
                if j < i {
                    assert(v@[j] == before[j]);
                    assert(crate::text::strings_view(before)[j] == lines@.take(i as int).map_values(
                        |l: &str| l@,
                    )[j]);
                }
            }
            assert(crate::text::strings_view(v@) =~= target);
        }
        i = i + 1;
    }
    assert(lines@.take(lines@.len() as int) == lines@);
    let joined = crate::text::join_newline(&v);
    bformatln(joined.as_str())
}

/// Splitting into lines loses nothing: the lines, concatenated, are the input.
pub proof fn law_split_lines_concatenate_to_input(s: Seq<u8>)
    ensures
        spec_flatten(spec_split_lines(s)) == s,
    decreases s.len(),
{
    if s.len() == 0 {
        assert(s =~= Seq::<u8>::empty());
    } else {
        lemma_find_from_bounds(s, NL, 0);
        let single = seq![s];
        assert(spec_flatten(single) == single[0] + spec_flatten(single.drop_first()));
        assert(single.drop_first() =~= Seq::<Seq<u8>>::empty());
        assert(s + Seq::<u8>::empty() =~= s);
        if let Some(i) = spec_find_from(s, NL, 0) {
            let rest = spec_split_lines(s.skip(i + 1));
            law_split_lines_concatenate_to_input(s.skip(i + 1));
            let all = seq![s.take(i + 1)] + rest;
            assert(spec_split_lines(s) == all);
            assert(all.drop_first() =~= rest);
            assert(spec_flatten(all) == all[0] + spec_flatten(all.drop_first()));
            assert(s.take(i + 1) + s.skip(i + 1) =~= s);
        }
    }
}

/// A text with a newline assured ends in a newline, and one that already
/// ends in a newline stays as it is.
pub proof fn law_assure_newline_ends_in_newline<A>(s: Seq<A>, nl: A)
    ensures
        spec_ends_in(spec_assure_newline(s, nl), nl),
        spec_ends_in(s, nl) ==> spec_assure_newline(s, nl) == s,
        spec_assure_newline(spec_assure_newline(s, nl), nl) == spec_assure_newline(s, nl),
{
}

/// A trimmed text ends in no newline, and trimming it again changes nothing.
pub proof fn law_trim_newlines_idempotent<A>(s: Seq<A>, nl: A)
    ensures
        !spec_ends_in(spec_trim_newlines(s, nl), nl),
        spec_trim_newlines(spec_trim_newlines(s, nl), nl) == spec_trim_newlines(s, nl),
    decreases s.len(),
{
    if spec_ends_in(s, nl) {
        law_trim_newlines_idempotent(s.drop_last(), nl);
    }
}

/// Assuring a newline and trimming newlines gives the same as trimming alone.
pub proof fn law_trim_after_assure<A>(s: Seq<A>, nl: A)
    ensures
        spec_trim_newlines(spec_assure_newline(s, nl), nl) == spec_trim_newlines(s, nl),
{
    if !spec_ends_in(s, nl) {
        assert(s.push(nl).drop_last() == s);
    }
}

/// Bytes in which no carriage return precedes a line feed stay as they are.
pub proof fn law_replace_crlf_without_crlf(s: Seq<u8>)
    requires
        forall|i: int| 0 <= i < s.len() - 1 ==> !(s[i] == CR && #[trigger] s[i + 1] == NL),
    ensures
        spec_replace_crlf(s) == s,
    decreases s.len(),
{
    if s.len() > 0 {
        let t = s.drop_first();
        assert forall|i: int| 0 <= i < t.len() - 1 implies !(t[i] == CR && #[trigger] t[i + 1] == NL) by {
            assert(t[i] == s[i + 1] && t[i + 1] == s[i + 2]);
        }
        law_replace_crlf_without_crlf(t);
        if s.len() >= 2 {
            assert(!(s[0] == CR && s[1] == NL));
        }
        assert(seq![s[0]] + t == s);
    }
}

/// Whether every piece holds at least one byte and a line feed only as its
/// last byte, and every piece but the last ends in a line feed.
pub open spec fn lines_well_shaped(r: Seq<Seq<u8>>) -> bool {
    &&& forall|k: int| 0 <= k < r.len() ==> (#[trigger] r[k]).len() >= 1
    &&& forall|k: int, j: int| 0 <= k < r.len() && 0 <= j < r[k].len() - 1 ==> (#[trigger] r[k][j]) != NL
    &&& forall|k: int| 0 <= k < r.len() - 1 ==> (#[trigger] r[k]).last() == NL
}

/// Splitting into lines loses and adds nothing: the lines, concatenated,
/// are the text; every line holds at least one byte and a line feed only as
/// its last byte, and every line but the last ends in a line feed. So there
/// are no lines exactly when the text is empty.
pub proof fn law_split_lines_shape(s: Seq<u8>)
    ensures
        spec_flatten(spec_split_lines(s)) == s,
        lines_well_shaped(spec_split_lines(s)),
        spec_split_lines(s).len() == 0 <==> s.len() == 0,
    decreases s.len(),
{
    let r = spec_split_lines(s);
    if s.len() == 0 {
        assert(r =~= Seq::<Seq<u8>>::empty());
    } else {
        lemma_find_from_bounds(s, NL, 0);
        match spec_find_from(s, NL, 0) {
            Some(i) => {
                let t = s.skip(i + 1);
                law_split_lines_shape(t);
                let rt = spec_split_lines(t);
                assert(r == seq![s.take(i + 1)] + rt);
                assert(r.drop_first() =~= rt);
                assert(s.take(i + 1) + t =~= s);
                assert forall|k: int, j: int| 0 <= k < r.len() && 0 <= j < r[k].len() - 1 implies (
                #[trigger] r[k][j]) != NL by {
                    if k > 0 {
                        assert(r[k] == rt[k - 1]);
                    }
                }
                assert forall|k: int| 0 <= k < r.len() - 1 implies (#[trigger] r[k]).last() == NL by {
                    if k > 0 {
                        assert(r[k] == rt[k - 1]);
                    }
                }
                assert forall|k: int| 0 <= k < r.len() implies (#[trigger] r[k]).len() >= 1 by {
                    if k > 0 {
                        assert(r[k] == rt[k - 1]);
                    }
                }
            },
            None => {
                assert(r == seq![s]);
                assert(r.drop_first() =~= Seq::<Seq<u8>>::empty());
                assert(spec_flatten(r.drop_first()) =~= Seq::<u8>::empty());
                assert(s + Seq::<u8>::empty() =~= s);
            },
        }
    }
}

/// The number of places where a carriage return directly precedes a line
/// feed.
pub open spec fn spec_count_crlf(s: Seq<u8>) -> nat
    decreases s.len(),
{
    if s.len() < 2 {
        0
    } else {
        (if s[0] == CR && s[1] == NL {
            1nat
        } else {
            0nat
        }) + spec_count_crlf(s.drop_first())
    }
}

/// Replacing CRLF by LF shortens the bytes by the number of CRLF pairs in
/// them (pairs cannot overlap), and bytes without such a pair stay as they
/// are.
pub proof fn law_replace_crlf_length(s: Seq<u8>)
    ensures
        spec_replace_crlf(s).len() == s.len() - spec_count_crlf(s),
        spec_count_crlf(s) == 0 ==> spec_replace_crlf(s) == s,
    decreases s.len(),
{
    if s.len() > 0 {
        law_replace_crlf_length(s.drop_first());
        if spec_count_crlf(s) == 0 {
            if s.len() >= 2 {
                assert(!(s[0] == CR && s[1] == NL));
            }
            assert(seq![s[0]] + s.drop_first() =~= s);
        }
    }
}

/// Splitting text that ends in a line feed (or is empty) followed by more
/// text gives the lines of either, one after the other.
pub proof fn lemma_split_lines_concat(a: Seq<u8>, b: Seq<u8>)
    requires
        a.len() == 0 || a.last() == NL,
    ensures
        spec_split_lines(a + b) == spec_split_lines(a) + spec_split_lines(b),
    decreases a.len(),
{
    if a.len() == 0 {
        assert(a + b =~= b);
        assert(spec_split_lines(a) =~= Seq::<Seq<u8>>::empty());
        assert(spec_split_lines(a) + spec_split_lines(b) =~= spec_split_lines(b));
    } else {
        lemma_find_from_bounds(a, NL, 0);
        assert(a[a.len() - 1] == NL);
        let i = spec_find_from(a, NL, 0)->0;
        let ab = a + b;
        lemma_find_from_bounds(ab, NL, 0);
        assert(ab[i] == NL);
        assert forall|j: int| 0 <= j < i implies ab[j] != NL by {
            assert(ab[j] == a[j]);
        }
        assert(spec_find_from(ab, NL, 0) == Some(i)) by {
            if spec_find_from(ab, NL, 0) != Some(i) {
                let k = spec_find_from(ab, NL, 0);
                if k is None {
                    assert(ab[i] != NL);
                } else {
                    assert(k->0 > i ==> ab[i] != NL);
                    assert(k->0 < i ==> ab[k->0] != NL);
                }
            }
        }
        let r = a.skip(i + 1);
        assert(ab.take(i + 1) =~= a.take(i + 1));
        assert(ab.skip(i + 1) =~= r + b);
        if r.len() > 0 {
            assert(r.last() == a.last());
        }
        lemma_split_lines_concat(r, b);
        assert(spec_split_lines(a) == seq![a.take(i + 1)] + spec_split_lines(r));
        assert(spec_split_lines(ab) == seq![a.take(i + 1)] + spec_split_lines(r + b));
        assert(seq![a.take(i + 1)] + (spec_split_lines(r) + spec_split_lines(b)) =~= (seq![
            a.take(i + 1),
        ] + spec_split_lines(r)) + spec_split_lines(b));
    }
}

/// Text followed by a line that holds its only line feed at its end splits
/// into the lines of the text up to its last line feed, then its rest and
/// that line as one line.
pub proof fn lemma_split_lines_last(s: Seq<u8>, x: Seq<u8>) -> (r: (Seq<u8>, Seq<u8>))
    requires
        x.len() > 0,
        x.last() == NL,
        forall|j: int| 0 <= j < x.len() - 1 ==> x[j] != NL,
    ensures
        s == r.0 + r.1,
        r.0.len() == 0 || r.0.last() == NL,
        !r.1.contains(NL),
        spec_split_lines(s + x) == spec_split_lines(r.0) + seq![r.1 + x],
    decreases s.len(),
{
    lemma_find_from_bounds(s, NL, 0);
    match spec_find_from(s, NL, 0) {
        None => {
            let sx = s + x;
            lemma_find_from_bounds(sx, NL, 0);
            assert(sx[sx.len() - 1] == NL);
            assert forall|j: int| 0 <= j < sx.len() - 1 implies sx[j] != NL by {
                if j < s.len() {
                    assert(sx[j] == s[j]);
                } else {
                    assert(sx[j] == x[j - s.len()]);
                }
            }
            assert(spec_find_from(sx, NL, 0) == Some(sx.len() - 1)) by {
                let k = spec_find_from(sx, NL, 0);
                if k is None {
                    assert(sx[sx.len() - 1] != NL);
                } else {
                    assert(k->0 < sx.len() - 1 ==> sx[k->0] != NL);
                }
            }
            assert(sx.take(sx.len() as int) =~= sx);
            assert(sx.skip(sx.len() as int) =~= Seq::<u8>::empty());
            assert(spec_split_lines(Seq::<u8>::empty()) =~= Seq::<Seq<u8>>::empty());
            assert(spec_split_lines(sx) =~= seq![sx]);
            let e = Seq::<u8>::empty();
            assert(!s.contains(NL)) by {
                if s.contains(NL) {
                    let j = choose|j: int| 0 <= j < s.len() && s[j] == NL;
                }
            }
            assert(e + s =~= s);
            assert(spec_split_lines(e) + seq![s + x] =~= seq![sx]);
            (e, s)
        },
        Some(i) => {
            let head = s.take(i + 1);
            let rest = s.skip(i + 1);
            let (r0, r1) = lemma_split_lines_last(rest, x);
            assert(head.last() == NL);
            assert(s =~= head + rest);
            assert(s + x =~= head + (rest + x));
            lemma_split_lines_concat(head, rest + x);
            lemma_split_lines_concat(head, r0);
            let h0 = head + r0;
            if r0.len() > 0 {
                assert(h0.last() == r0.last());
            }
            assert(head + r0 + r1 =~= head + rest);
            assert(spec_split_lines(head) + (spec_split_lines(r0) + seq![r1 + x]) =~= (
            spec_split_lines(head) + spec_split_lines(r0)) + seq![r1 + x]);
            (h0, r1)
        },
    }
}

} // verus!
