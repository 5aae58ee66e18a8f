//! What the script writes, the library reads back: the output of shell
//! expressions, each followed by its printed divider, divides into exactly
//! those outputs and exit codes.
use vstd::prelude::*;

use crate::executors::bash_script_executor::{spec_divide, spec_divide_from};
use crate::executors::divider::{
    divider_prefix_bytes, law_prefixed_divider_parses_back, occurs, printed_divider_bytes,
    spec_find_sub, spec_parse_divider, DividerSearchView,
};
use crate::newline::{
    law_split_lines_concatenate_to_input, lemma_find_from_bounds, lemma_split_lines_concat,
    lemma_split_lines_last, spec_find_from, spec_flatten, spec_split_lines, spec_trim_newlines, NL,
};

verus! {

/// What a script prints to one stream: the output of each shell
/// expression, from the one with index `from` on, followed by its printed
/// divider and a line feed.
pub open spec fn spec_stream(salt: Seq<char>, outs: Seq<Seq<u8>>, codes: Seq<i32>, from: nat) -> Seq<u8>
    decreases outs.len(),
{
    if outs.len() == 0 {
        Seq::empty()
    } else {
        outs[0] + printed_divider_bytes(salt, from, codes[0] as int) + seq![NL] + spec_stream(
            salt,
            outs.drop_first(),
            codes.drop_first(),
            from + 1,
        )
    }
}

proof fn lemma_divide_shift(
    lines: Seq<Seq<u8>>,
    i: int,
    expected: nat,
    buffer: Seq<u8>,
    name: Seq<char>,
    limit: Option<usize>,
)
    requires
        0 <= i <= lines.len(),
    ensures
        spec_divide_from(lines, i, expected, buffer, name, limit) == spec_divide_from(
            lines.skip(i),
            0,
            expected,
            buffer,
            name,
            limit,
        ),
    decreases lines.len() - i,
{
    let s = lines.skip(i);
    if i < lines.len() && i > 0 {
        assert(s[0] == lines[i]);
        assert(s.skip(1) =~= lines.skip(i + 1));
        lemma_divide_shift(lines, i + 1, expected, buffer + lines[i], name, limit);
        lemma_divide_shift(lines, i + 1, expected + 1, Seq::empty(), name, limit);
        lemma_divide_shift(s, 1, expected, buffer + lines[i], name, limit);
        lemma_divide_shift(s, 1, expected + 1, Seq::empty(), name, limit);
    } else if i == 0 {
        assert(s =~= lines);
    }
}

proof fn lemma_find_sub_found(h: Seq<u8>, n: Seq<u8>, from: int)
    ensures
        spec_find_sub(h, n, from) matches Some(p) ==> 0 <= p && p + n.len() <= h.len()
            && h.subrange(p, p + n.len()) == n,
    decreases h.len() + 1 - from,
{
    if !(from < 0 || from + n.len() > h.len()) && h.subrange(from, from + n.len()) != n {
        lemma_find_sub_found(h, n, from + 1);
    }
}

proof fn lemma_trim_is_prefix(s: Seq<u8>)
    ensures
        spec_trim_newlines(s, NL).len() <= s.len(),
        spec_trim_newlines(s, NL) == s.take(spec_trim_newlines(s, NL).len() as int),
    decreases s.len(),
{
    if s.len() > 0 && s.last() == NL {
        lemma_trim_is_prefix(s.drop_last());
        let t = spec_trim_newlines(s, NL);
        assert(t == s.drop_last().take(t.len() as int));
        assert(s.drop_last().take(t.len() as int) =~= s.take(t.len() as int));
    } else {
        assert(s.take(s.len() as int) =~= s);
    }
}

/// A part of bytes in which the needle does not occur holds no occurrence either.
proof fn lemma_no_occurrence_in_part(s: Seq<u8>, a: int, b: int, n: Seq<u8>)
    requires
        0 <= a <= b <= s.len(),
        !occurs(s, n),
    ensures
        !occurs(s.subrange(a, b), n),
{
    let part = s.subrange(a, b);
    if occurs(part, n) {
        let k = choose|k: int| 0 <= k && k + n.len() <= part.len() && #[trigger] part.subrange(k, k + n.len()) == n;
        assert(s.subrange(a + k, a + k + n.len()) =~= part.subrange(k, k + n.len()));
        assert(occurs(s, n));
    }
}

/// A line that does not hold the divider prefix reads back as no divider.
pub proof fn law_line_without_divider_is_not_found(line: Seq<u8>)
    requires
        !occurs(line, divider_prefix_bytes()),
    ensures
        spec_parse_divider(line) == Ok::<DividerSearchView, Seq<char>>(DividerSearchView::NotFound),
{
    let t = spec_trim_newlines(line, NL);
    lemma_trim_is_prefix(line);
    lemma_no_occurrence_in_part(line, 0, t.len() as int, divider_prefix_bytes());
    assert(line.subrange(0, t.len() as int) =~= t);
    lemma_find_sub_found(t, divider_prefix_bytes(), 0);
    if spec_find_sub(t, divider_prefix_bytes(), 0) is Some {
        let p = spec_find_sub(t, divider_prefix_bytes(), 0)->0;
        assert(occurs(t, divider_prefix_bytes()));
    }
}

/// The lines of bytes without the divider prefix hold none either.
proof fn lemma_lines_without_divider(s: Seq<u8>)
    requires
        !occurs(s, divider_prefix_bytes()),
    ensures
        forall|k: int|
            0 <= k < spec_split_lines(s).len() ==> !occurs(
                #[trigger] spec_split_lines(s)[k],
                divider_prefix_bytes(),
            ),
    decreases s.len(),
{
    if s.len() > 0 {
        lemma_find_from_bounds(s, NL, 0);
        match spec_find_from(s, NL, 0) {
            Some(i) => {
                let rest = s.skip(i + 1);
                lemma_no_occurrence_in_part(s, 0, i + 1, divider_prefix_bytes());
                lemma_no_occurrence_in_part(s, i + 1, s.len() as int, divider_prefix_bytes());
                assert(s.subrange(0, i + 1) =~= s.take(i + 1));
                assert(s.subrange(i + 1, s.len() as int) =~= rest);
                lemma_lines_without_divider(rest);
                let all = spec_split_lines(s);
                assert(all == seq![s.take(i + 1)] + spec_split_lines(rest));
                assert forall|k: int| 0 <= k < all.len() implies !occurs(
                    #[trigger] all[k],
                    divider_prefix_bytes(),
                ) by {
                    if k > 0 {
                        assert(all[k] == spec_split_lines(rest)[k - 1]);
                    }
                }
            },
            None => {
                assert(spec_split_lines(s) == seq![s]);
            },
        }
    }
}

/// Lines without dividers go into the buffer.
proof fn lemma_divide_without_dividers(
    lines: Seq<Seq<u8>>,
    rest: Seq<Seq<u8>>,
    expected: nat,
    buffer: Seq<u8>,
    name: Seq<char>,
    limit: Option<usize>,
)
    requires
        forall|k: int|
            0 <= k < lines.len() ==> spec_parse_divider(#[trigger] lines[k]) == Ok::<
                DividerSearchView,
                Seq<char>,
            >(DividerSearchView::NotFound),
    ensures
        spec_divide_from(lines + rest, 0, expected, buffer, name, limit) == spec_divide_from(
            rest,
            0,
            expected,
            buffer + spec_flatten(lines),
            name,
            limit,
        ),
    decreases lines.len(),
{
    if lines.len() == 0 {
        assert(lines + rest =~= rest);
        assert(buffer + spec_flatten(lines) =~= buffer);
    } else {
        let all = lines + rest;
        assert(all[0] == lines[0]);
        let tail = lines.drop_first();
        assert(all.skip(1) =~= tail + rest);
        lemma_divide_shift(all, 1, expected, buffer + lines[0], name, limit);
        assert forall|k: int| 0 <= k < tail.len() implies spec_parse_divider(#[trigger] tail[k])
            == Ok::<DividerSearchView, Seq<char>>(DividerSearchView::NotFound) by {
            assert(tail[k] == lines[k + 1]);
        }
        lemma_divide_without_dividers(tail, rest, expected, buffer + lines[0], name, limit);
        assert(buffer + lines[0] + spec_flatten(tail) =~= buffer + spec_flatten(lines));
    }
}

/// The lines of one block (output, divider, line feed) followed by more:
/// the lines of the output up to its last line feed, the divider line (the
/// rest of the output, the divider and the line feed), then the lines of the
/// rest.
proof fn lemma_block_lines(s: Seq<u8>, d: Seq<u8>, rest: Seq<u8>) -> (r: (Seq<u8>, Seq<u8>))
    requires
        !d.contains(NL),
    ensures
        s == r.0 + r.1,
        !r.1.contains(NL),
        spec_split_lines(s + d + seq![NL] + rest) == spec_split_lines(r.0) + (seq![
            r.1 + d + seq![NL],
        ] + spec_split_lines(rest)),
{
    let x = d + seq![NL];
    assert(x.last() == NL);
    assert forall|j: int| 0 <= j < x.len() - 1 implies x[j] != NL by {
        assert(x[j] == d[j]);
        if d[j] == NL {
            assert(d.contains(NL));
        }
    }
    let block = s + x;
    assert(block.last() == NL);
    assert(s + d + seq![NL] + rest =~= block + rest);
    lemma_split_lines_concat(block, rest);
    let (s0, tl) = lemma_split_lines_last(s, x);
    assert(tl + x =~= tl + d + seq![NL]);
    assert(spec_split_lines(block) + spec_split_lines(rest) =~= spec_split_lines(s0) + (seq![
        tl + d + seq![NL],
    ] + spec_split_lines(rest)));
    (s0, tl)
}

/// One block (output, divider, line feed) followed by more divides into
/// the output with the index and exit code of the divider, then whatever
/// the rest divides into.
#[verifier::rlimit(30)]
proof fn lemma_one_block(
    salt: Seq<char>,
    s: Seq<u8>,
    c: i32,
    from: nat,
    rest: Seq<u8>,
    name: Seq<char>,
    limit: Option<usize>,
)
    requires
        !salt.contains(':'),
        !salt.contains('\n'),
        from <= usize::MAX,
        limit matches Some(l) ==> from < l,
        !occurs(s, divider_prefix_bytes()),
    ensures
        spec_divide_from(
            spec_split_lines(s + printed_divider_bytes(salt, from, c as int) + seq![NL] + rest),
            0,
            from,
            Seq::empty(),
            name,
            limit,
        ) == match spec_divide_from(spec_split_lines(rest), 0, from + 1, Seq::empty(), name, limit) {
            Ok(r) => Ok(seq![(from as int, s, c)] + r),
            Err(e) => Err(e),
        },
{
    let d = printed_divider_bytes(salt, from, c as int);
    crate::executors::divider::lemma_printed_divider_facts_pub(salt, from as usize, c);
    let (s0, tl) = lemma_block_lines(s, d, rest);
    let lines0 = spec_split_lines(s0);
    let dl = tl + d + seq![NL];
    let rl = spec_split_lines(rest);
    // the lines of the output before its last line feed hold no divider
    lemma_no_occurrence_in_part(s, 0, s0.len() as int, divider_prefix_bytes());
    assert(s.subrange(0, s0.len() as int) =~= s0);
    lemma_no_occurrence_in_part(s, s0.len() as int, s.len() as int, divider_prefix_bytes());
    assert(s.subrange(s0.len() as int, s.len() as int) =~= tl);
    lemma_lines_without_divider(s0);
    assert forall|k: int| 0 <= k < lines0.len() implies spec_parse_divider(#[trigger] lines0[k])
        == Ok::<DividerSearchView, Seq<char>>(DividerSearchView::NotFound) by {
        law_line_without_divider_is_not_found(lines0[k]);
    }
    lemma_divide_without_dividers(lines0, seq![dl] + rl, from, Seq::empty(), name, limit);
    law_split_lines_concatenate_to_input(s0);
    assert(Seq::<u8>::empty() + spec_flatten(lines0) =~= s0);
    // the divider line reads back as the rest of the output, the index and the code
    law_prefixed_divider_parses_back(tl, salt, from as usize, c, 1);
    assert(tl + d + crate::executors::divider::line_feeds(1) =~= dl);
    let after = seq![dl] + rl;
    assert(after[0] == dl);
    assert(after.skip(1) =~= rl);
    lemma_divide_shift(after, 1, from + 1, Seq::empty(), name, limit);
    let segment = s0 + match (if tl.len() > 0 {
        Some(tl)
    } else {
        None
    }) {
        Some(p) => p,
        None => Seq::<u8>::empty(),
    };
    assert(segment =~= s);
}

/// What a script printed to a stream divides, from the expression with
/// index `from` on, into their outputs, indices and exit codes.
proof fn lemma_divide_stream(
    salt: Seq<char>,
    outs: Seq<Seq<u8>>,
    codes: Seq<i32>,
    from: nat,
    name: Seq<char>,
    limit: Option<usize>,
)
    requires
        !salt.contains(':'),
        !salt.contains('\n'),
        outs.len() == codes.len(),
        from + outs.len() <= usize::MAX + 1,
        limit matches Some(l) ==> from + outs.len() <= l,
        forall|k: int| 0 <= k < outs.len() ==> !occurs(#[trigger] outs[k], divider_prefix_bytes()),
    ensures
        spec_divide_from(
            spec_split_lines(spec_stream(salt, outs, codes, from)),
            0,
            from,
            Seq::empty(),
            name,
            limit,
        ) == Ok::<Seq<(int, Seq<u8>, i32)>, crate::executors::bash_script_executor::DivideErrorView>(
            Seq::new(outs.len(), |k: int| ((from + k) as int, outs[k], codes[k])),
        ),
    decreases outs.len(),
{
    let target = Seq::new(outs.len(), |k: int| ((from + k) as int, outs[k], codes[k]));
    if outs.len() == 0 {
        assert(spec_stream(salt, outs, codes, from) =~= Seq::<u8>::empty());
        assert(target =~= Seq::<(int, Seq<u8>, i32)>::empty());
    } else {
        let rest = spec_stream(salt, outs.drop_first(), codes.drop_first(), from + 1);
        lemma_one_block(salt, outs[0], codes[0], from, rest, name, limit);
        assert forall|k: int| 0 <= k < outs.drop_first().len() implies !occurs(
            #[trigger] outs.drop_first()[k],
            divider_prefix_bytes(),
        ) by {
            assert(outs.drop_first()[k] == outs[k + 1]);
        }
        lemma_divide_stream(salt, outs.drop_first(), codes.drop_first(), from + 1, name, limit);
        let rest_target = Seq::new(
            outs.drop_first().len(),
            |k: int| ((from + 1 + k) as int, outs.drop_first()[k], codes.drop_first()[k]),
        );
        assert(seq![(from as int, outs[0], codes[0])] + rest_target =~= target);
    }
}

/// The output that the shell expressions printed to a stream, each followed
/// by its printed divider, divides back into exactly those outputs, with
/// their indices and exit codes. The salt holds neither `:` nor a line
/// feed, and no output holds the divider prefix; the exit codes may have
/// either sign.
pub proof fn law_divided_stream_reads_back(
    salt: Seq<char>,
    outs: Seq<Seq<u8>>,
    codes: Seq<i32>,
    name: Seq<char>,
)
    requires
        !salt.contains(':'),
        !salt.contains('\n'),
        outs.len() == codes.len(),
        outs.len() <= usize::MAX + 1,
        forall|k: int| 0 <= k < outs.len() ==> !occurs(#[trigger] outs[k], divider_prefix_bytes()),
    ensures
        spec_divide(spec_stream(salt, outs, codes, 0), name, None) == Ok::<
            Seq<(int, Seq<u8>, i32)>,
            crate::executors::bash_script_executor::DivideErrorView,
        >(Seq::new(outs.len(), |k: int| (k, outs[k], codes[k]))),
{
    lemma_divide_stream(salt, outs, codes, 0, name, None);
    assert(Seq::new(outs.len(), |k: int| ((0 + k) as int, outs[k], codes[k])) =~= Seq::new(
        outs.len(),
        |k: int| (k, outs[k], codes[k]),
    ));
}

} // verus!
