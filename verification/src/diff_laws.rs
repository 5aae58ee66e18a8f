//! What every comparison result satisfies.
use vstd::prelude::*;

use crate::diff::{
    diff_can_step, diff_finish, diff_run, diff_start, diff_step, find_expectation, find_line,
    lemma_find_expectation_bounds, lemma_find_line_bounds, numbered, spec_diff, spec_has_differences,
    unmatched_range,
    DiffState, SpecDiffLine,
};
use crate::expectation::Expectation;

verus! {

/// The numbered lines that a result entry covers.
pub open spec fn entry_lines(d: SpecDiffLine) -> Seq<(int, Seq<u8>)> {
    match d {
        SpecDiffLine::Matched { lines, .. } => lines,
        SpecDiffLine::Unmatched { .. } => seq![],
        SpecDiffLine::Unexpected { lines } => lines,
    }
}

/// The numbered lines that the entries cover, in order.
pub open spec fn all_lines(d: Seq<SpecDiffLine>) -> Seq<(int, Seq<u8>)>
    decreases d.len(),
{
    if d.len() == 0 {
        seq![]
    } else {
        all_lines(d.drop_last()) + entry_lines(d.last())
    }
}

/// The expectation index of an entry, if it has one.
pub open spec fn entry_index(d: SpecDiffLine) -> Seq<int> {
    match d {
        SpecDiffLine::Matched { index, .. } => seq![index],
        SpecDiffLine::Unmatched { index, .. } => seq![index],
        SpecDiffLine::Unexpected { .. } => seq![],
    }
}

/// The expectation indices that the entries name, in order.
pub open spec fn all_indices(d: Seq<SpecDiffLine>) -> Seq<int>
    decreases d.len(),
{
    if d.len() == 0 {
        seq![]
    } else {
        all_indices(d.drop_last()) + entry_index(d.last())
    }
}

/// Whether a sequence of integers is strictly increasing.
pub open spec fn strictly_increasing(s: Seq<int>) -> bool {
    forall|i: int, j: int| 0 <= i < j < s.len() ==> s[i] < s[j]
}

/// Whether an entry names its expectation correctly, and, if it is a match,
/// whether it covers at least one line (exactly one unless the expectation
/// is multiline) and every line it covers satisfies that expectation.
pub open spec fn entry_sound(exps: Seq<Expectation>, x: SpecDiffLine) -> bool {
    match x {
        SpecDiffLine::Matched { index, expectation, lines } => 0 <= index < exps.len()
            && expectation == exps[index] && lines.len() >= 1 && (!expectation.multiline
            ==> lines.len() == 1) && forall|p: int|
            0 <= p < lines.len() ==> expectation.spec_matches(#[trigger] lines[p].1),
        SpecDiffLine::Unmatched { index, expectation } => 0 <= index < exps.len() && expectation
            == exps[index] && !exps[index].optional,
        SpecDiffLine::Unexpected { .. } => true,
    }
}

/// Whether every entry is sound.
pub open spec fn entries_sound(exps: Seq<Expectation>, d: Seq<SpecDiffLine>) -> bool {
    forall|m: int| 0 <= m < d.len() ==> entry_sound(exps, #[trigger] d[m])
}

/// The invariant of a comparison run.
pub open spec fn diff_inv(exps: Seq<Expectation>, lines: Seq<Seq<u8>>, st: DiffState) -> bool {
    let pending = match st.ms {
        Some(s) => s,
        None => st.li,
    };
    &&& 0 <= st.ei <= exps.len()
    &&& 0 <= st.li <= lines.len()
    &&& (st.ms matches Some(s) ==> 0 <= s < st.li && st.ei < exps.len() && exps[st.ei].multiline
        && forall|i: int| s <= i < st.li ==> exps[st.ei].spec_matches(#[trigger] lines[i]))
    &&& all_lines(st.diffs) == numbered(lines, 0, pending)
    &&& strictly_increasing(all_indices(st.diffs))
    &&& forall|i: int| 0 <= i < all_indices(st.diffs).len() ==> all_indices(st.diffs)[i] < st.ei
    &&& forall|k: int|
        0 <= k < st.ei && !exps[k].optional ==> all_indices(st.diffs).contains(k)
    &&& entries_sound(exps, st.diffs)
}

proof fn lemma_all_lines_concat(a: Seq<SpecDiffLine>, b: Seq<SpecDiffLine>)
    ensures
        all_lines(a + b) == all_lines(a) + all_lines(b),
        all_indices(a + b) == all_indices(a) + all_indices(b),
    decreases b.len(),
{
    if b.len() == 0 {
        assert(a + b == a);
        assert(all_lines(a) + all_lines(b) == all_lines(a));
        assert(all_indices(a) + all_indices(b) == all_indices(a));
    } else {
        lemma_all_lines_concat(a, b.drop_last());
        assert((a + b).drop_last() == a + b.drop_last());
        assert((a + b).last() == b.last());
        assert(all_lines(a) + all_lines(b.drop_last()) + entry_lines(b.last()) == all_lines(a) + (
        all_lines(b.drop_last()) + entry_lines(b.last())));
        assert(all_indices(a) + all_indices(b.drop_last()) + entry_index(b.last()) == all_indices(a)
            + (all_indices(b.drop_last()) + entry_index(b.last())));
    }
}

/// The lines covered by concatenated entries are those of either part, concatenated.
pub proof fn lemma_all_lines_concat_pub(a: Seq<SpecDiffLine>, b: Seq<SpecDiffLine>)
    ensures
        all_lines(a + b) == all_lines(a) + all_lines(b),
{
    lemma_all_lines_concat(a, b);
}

proof fn lemma_all_push(a: Seq<SpecDiffLine>, x: SpecDiffLine)
    ensures
        all_lines(a.push(x)) == all_lines(a) + entry_lines(x),
        all_indices(a.push(x)) == all_indices(a) + entry_index(x),
{
    assert(a.push(x).drop_last() == a);
}

proof fn lemma_unmatched_range_facts(exps: Seq<Expectation>, a: int, b: int)
    requires
        0 <= a,
        b <= exps.len(),
    ensures
        all_lines(unmatched_range(exps, a, b)) == Seq::<(int, Seq<u8>)>::empty(),
        forall|i: int|
            0 <= i < all_indices(unmatched_range(exps, a, b)).len() ==> a <= #[trigger] all_indices(
                unmatched_range(exps, a, b),
            )[i] < b,
        strictly_increasing(all_indices(unmatched_range(exps, a, b))),
        forall|k: int|
            a <= k < b && !exps[k].optional ==> all_indices(unmatched_range(exps, a, b)).contains(k),
        entries_sound(exps, unmatched_range(exps, a, b)),
    decreases b - a,
{
    if a < b {
        lemma_unmatched_range_facts(exps, a + 1, b);
        let h: Seq<SpecDiffLine> = if exps[a].optional {
            seq![]
        } else {
            seq![SpecDiffLine::Unmatched { index: a, expectation: exps[a] }]
        };
        let t = unmatched_range(exps, a + 1, b);
        lemma_all_lines_concat(h, t);
        assert(unmatched_range(exps, a, b) == h + t);
        if !exps[a].optional {
            lemma_all_push(Seq::<SpecDiffLine>::empty(), h[0]);
            assert(h == Seq::<SpecDiffLine>::empty().push(h[0]));
            assert(all_indices(h) == seq![a]);
        } else {
            assert(all_indices(h) == Seq::<int>::empty());
        }
        assert(all_lines(h) == Seq::<(int, Seq<u8>)>::empty());
        let ih = all_indices(h + t);
        assert(ih == all_indices(h) + all_indices(t));
        assert forall|k: int| a <= k < b && !exps[k].optional implies ih.contains(k) by {
            if k == a {
                assert(ih[0] == a);
            } else {
                assert(all_indices(t).contains(k));
                let w = choose|w: int| 0 <= w < all_indices(t).len() && all_indices(t)[w] == k;
                assert(ih[all_indices(h).len() + w] == k);
            }
        }
        assert forall|m: int| 0 <= m < (h + t).len() implies entry_sound(exps, #[trigger] (h + t)[m]) by {
            if m >= h.len() {
                assert((h + t)[m] == t[m - h.len()]);
            }
        }
    } else {
        assert(unmatched_range(exps, a, b) == Seq::<SpecDiffLine>::empty());
        assert(all_indices(Seq::<SpecDiffLine>::empty()) == Seq::<int>::empty());
    }
}

proof fn lemma_numbered_concat(lines: Seq<Seq<u8>>, a: int, b: int, c: int)
    requires
        0 <= a <= b <= c,
    ensures
        numbered(lines, a, b) + numbered(lines, b, c) == numbered(lines, a, c),
{
    assert(numbered(lines, a, b) + numbered(lines, b, c) =~= numbered(lines, a, c));
}

proof fn lemma_push_entry(exps: Seq<Expectation>, d: Seq<SpecDiffLine>, x: SpecDiffLine, bound: int)
    requires
        entries_sound(exps, d),
        entry_sound(exps, x),
        strictly_increasing(all_indices(d)),
        forall|i: int| 0 <= i < all_indices(d).len() ==> all_indices(d)[i] < bound,
        forall|k: int| #[trigger] entry_index(x).contains(k) ==> k >= bound,
        entry_index(x).len() <= 1,
    ensures
        entries_sound(exps, d.push(x)),
        strictly_increasing(all_indices(d.push(x))),
        all_lines(d.push(x)) == all_lines(d) + entry_lines(x),
        all_indices(d.push(x)) == all_indices(d) + entry_index(x),
        forall|k: int| all_indices(d).contains(k) ==> all_indices(d.push(x)).contains(k),
{
    lemma_all_push(d, x);
    assert forall|m: int| 0 <= m < d.push(x).len() implies entry_sound(exps, #[trigger] d.push(x)[m]) by {
        if m < d.len() {
            assert(d.push(x)[m] == d[m]);
        }
    }
    let ai = all_indices(d);
    let ex = entry_index(x);
    if ex.len() == 1 {
        assert(ex.contains(ex[0]));
    }
    assert forall|k: int| ai.contains(k) implies all_indices(d.push(x)).contains(k) by {
        let w = choose|w: int| 0 <= w < ai.len() && ai[w] == k;
        assert(all_indices(d.push(x))[w] == k);
    }
}

proof fn lemma_append_range(exps: Seq<Expectation>, d: Seq<SpecDiffLine>, a: int, b: int)
    requires
        0 <= a <= b <= exps.len(),
        entries_sound(exps, d),
        strictly_increasing(all_indices(d)),
        forall|i: int| 0 <= i < all_indices(d).len() ==> all_indices(d)[i] < a,
    ensures
        entries_sound(exps, d + unmatched_range(exps, a, b)),
        strictly_increasing(all_indices(d + unmatched_range(exps, a, b))),
        all_lines(d + unmatched_range(exps, a, b)) == all_lines(d),
        forall|i: int|
            0 <= i < all_indices(d + unmatched_range(exps, a, b)).len() ==> all_indices(
                d + unmatched_range(exps, a, b),
            )[i] < b,
        forall|k: int|
            #![trigger all_indices(d + unmatched_range(exps, a, b)).contains(k)]
            (all_indices(d).contains(k) || (a <= k < b && !exps[k].optional)) ==> all_indices(
                d + unmatched_range(exps, a, b),
            ).contains(k),
{
    let u = unmatched_range(exps, a, b);
    lemma_unmatched_range_facts(exps, a, b);
    lemma_all_lines_concat(d, u);
    assert(all_lines(d) + Seq::<(int, Seq<u8>)>::empty() == all_lines(d));
    let ai = all_indices(d);
    let au = all_indices(u);
    let all = all_indices(d + u);
    assert(all == ai + au);
    assert forall|m: int| 0 <= m < (d + u).len() implies entry_sound(exps, #[trigger] (d + u)[m]) by {
        if m < d.len() {
            assert((d + u)[m] == d[m]);
        } else {
            assert((d + u)[m] == u[m - d.len()]);
        }
    }
    assert forall|i: int, j: int| 0 <= i < j < all.len() implies all[i] < all[j] by {
        if j < ai.len() {
        } else if i >= ai.len() {
            assert(all[i] == au[i - ai.len()]);
            assert(all[j] == au[j - ai.len()]);
        } else {
            assert(all[j] == au[j - ai.len()]);
        }
    }
    assert forall|i: int| 0 <= i < all.len() implies all[i] < b by {
        if i >= ai.len() {
            assert(all[i] == au[i - ai.len()]);
        }
    }
    assert forall|k: int|
        (ai.contains(k) || (a <= k < b && !exps[k].optional)) implies all.contains(k) by {
        if ai.contains(k) {
            let w = choose|w: int| 0 <= w < ai.len() && ai[w] == k;
            assert(all[w] == k);
        } else {
            assert(au.contains(k));
            let w = choose|w: int| 0 <= w < au.len() && au[w] == k;
            assert(all[ai.len() + w] == k);
        }
    }
}

proof fn lemma_step_inv(exps: Seq<Expectation>, lines: Seq<Seq<u8>>, st: DiffState)
    requires
        diff_inv(exps, lines, st),
        diff_can_step(exps, lines, st),
    ensures
        diff_inv(exps, lines, diff_step(exps, lines, st)),
{
    let ei = st.ei;
    let li = st.li;
    let e = exps[ei];
    let line = lines[li];
    let d = st.diffs;
    let nst = diff_step(exps, lines, st);
    if e.spec_matches(line) {
        if e.multiline {
            if ei + 1 < exps.len() && (e.optional || st.ms is Some) && exps[ei + 1].spec_matches(
                line,
            ) {
                if let Some(s) = st.ms {
                    let x = SpecDiffLine::Matched {
                        index: ei,
                        expectation: e,
                        lines: numbered(lines, s, li),
                    };
                    assert forall|p: int| 0 <= p < numbered(lines, s, li).len() implies e.spec_matches(
                        #[trigger] numbered(lines, s, li)[p].1,
                    ) by {
                        assert(numbered(lines, s, li)[p].1 == lines[s + p]);
                    }
                    assert(entry_index(x) == seq![ei]);
                    lemma_push_entry(exps, d, x, ei);
                    lemma_numbered_concat(lines, 0, s, li);
                    let ni = all_indices(d.push(x));
                    assert forall|k: int| 0 <= k < ei + 1 && !exps[k].optional implies ni.contains(
                        k,
                    ) by {
                        if k == ei {
                            assert(ni[ni.len() - 1] == ei);
                        } else {
                            assert(all_indices(d).contains(k));
                        }
                    }
                }
            } else {
            }
        } else {
            let x = SpecDiffLine::Matched {
                index: ei,
                expectation: e,
                lines: numbered(lines, li, li + 1),
            };
            assert forall|p: int| 0 <= p < numbered(lines, li, li + 1).len() implies e.spec_matches(
                #[trigger] numbered(lines, li, li + 1)[p].1,
            ) by {
                assert(numbered(lines, li, li + 1)[p].1 == lines[li + p]);
            }
            assert(entry_index(x) == seq![ei]);
            lemma_push_entry(exps, d, x, ei);
            lemma_numbered_concat(lines, 0, li, li + 1);
            let ni = all_indices(d.push(x));
            assert forall|k: int| 0 <= k < ei + 1 && !exps[k].optional implies ni.contains(k) by {
                if k == ei {
                    assert(ni[ni.len() - 1] == ei);
                } else {
                    assert(all_indices(d).contains(k));
                }
            }
        }
    } else if let Some(s) = st.ms {
        let x = SpecDiffLine::Matched { index: ei, expectation: e, lines: numbered(lines, s, li) };
        assert forall|p: int| 0 <= p < numbered(lines, s, li).len() implies e.spec_matches(
            #[trigger] numbered(lines, s, li)[p].1,
        ) by {
            assert(numbered(lines, s, li)[p].1 == lines[s + p]);
        }
        assert(entry_index(x) == seq![ei]);
        lemma_push_entry(exps, d, x, ei);
        lemma_numbered_concat(lines, 0, s, li);
        let ni = all_indices(d.push(x));
        assert forall|k: int| 0 <= k < ei + 1 && !exps[k].optional implies ni.contains(k) by {
            if k == ei {
                assert(ni[ni.len() - 1] == ei);
            } else {
                assert(all_indices(d).contains(k));
            }
        }
    } else {
        lemma_find_expectation_bounds(exps, line, ei + 1);
        lemma_find_line_bounds(lines, e, li + 1);
        match find_expectation(exps, line, ei + 1) {
            Some(k) => {
                lemma_append_range(exps, d, ei, k);
                let ni = all_indices(d + unmatched_range(exps, ei, k));
                assert forall|k2: int| 0 <= k2 < k && !exps[k2].optional implies ni.contains(k2) by {
                    if k2 < ei {
                        assert(all_indices(d).contains(k2));
                    } else {
                        assert(ei <= k2 < k && !exps[k2].optional);
                    }
                }
            },
            None => match find_line(lines, e, li + 1) {
                Some(j) => {
                    let x = SpecDiffLine::Unexpected { lines: numbered(lines, li, j) };
                    assert(entry_index(x) == Seq::<int>::empty());
                    lemma_push_entry(exps, d, x, ei);
                    lemma_numbered_concat(lines, 0, li, j);
                    assert(all_indices(d.push(x)) == all_indices(d));
                },
                None => {
                    if !e.optional {
                        let x = SpecDiffLine::Unmatched { index: ei, expectation: e };
                        assert(entry_index(x) == seq![ei]);
                        lemma_push_entry(exps, d, x, ei);
                        let ni = all_indices(d.push(x));
                        assert forall|k: int| 0 <= k < ei + 1 && !exps[k].optional implies ni.contains(
                            k,
                        ) by {
                            if k == ei {
                                assert(ni[ni.len() - 1] == ei);
                            } else {
                                assert(all_indices(d).contains(k));
                            }
                        }
                    }
                },
            },
        }
    }
}

proof fn lemma_run_inv(exps: Seq<Expectation>, lines: Seq<Seq<u8>>, st: DiffState)
    requires
        diff_inv(exps, lines, st),
    ensures
        diff_inv(exps, lines, diff_run(exps, lines, st)),
        !diff_can_step(exps, lines, diff_run(exps, lines, st)),
    decreases (exps.len() - st.ei) + (lines.len() - st.li),
{
    if diff_can_step(exps, lines, st) {
        lemma_step_inv(exps, lines, st);
        lemma_find_expectation_bounds(exps, lines[st.li], st.ei + 1);
        lemma_find_line_bounds(lines, exps[st.ei], st.li + 1);
        lemma_run_inv(exps, lines, diff_step(exps, lines, st));
    }
}

/// The facts that the finished comparison satisfies.
pub open spec fn diff_result_ok(exps: Seq<Expectation>, lines: Seq<Seq<u8>>, d: Seq<SpecDiffLine>) -> bool {
    &&& all_lines(d) == numbered(lines, 0, lines.len() as int)
    &&& entries_sound(exps, d)
    &&& strictly_increasing(all_indices(d))
    &&& forall|k: int| 0 <= k < exps.len() && !exps[k].optional ==> all_indices(d).contains(k)
}

proof fn lemma_finish(exps: Seq<Expectation>, lines: Seq<Seq<u8>>, st: DiffState)
    requires
        diff_inv(exps, lines, st),
        !diff_can_step(exps, lines, st),
    ensures
        diff_result_ok(exps, lines, diff_finish(exps, lines, st)),
{
    let ei = st.ei;
    let li = st.li;
    let d = st.diffs;
    let ei2 = if st.ms is Some {
        ei + 1
    } else {
        ei
    };
    let d2 = match st.ms {
        Some(s) => d.push(
            SpecDiffLine::Matched { index: ei, expectation: exps[ei], lines: numbered(lines, s, li) },
        ),
        None => d,
    };
    if let Some(s) = st.ms {
        let x = SpecDiffLine::Matched {
            index: ei,
            expectation: exps[ei],
            lines: numbered(lines, s, li),
        };
        assert forall|p: int| 0 <= p < numbered(lines, s, li).len() implies exps[ei].spec_matches(
            #[trigger] numbered(lines, s, li)[p].1,
        ) by {
            assert(numbered(lines, s, li)[p].1 == lines[s + p]);
        }
        assert(entry_index(x) == seq![ei]);
        lemma_push_entry(exps, d, x, ei);
        lemma_numbered_concat(lines, 0, s, li);
        let ni = all_indices(d2);
        assert forall|k: int| 0 <= k < ei + 1 && !exps[k].optional implies ni.contains(k) by {
            if k == ei {
                assert(ni[ni.len() - 1] == ei);
            } else {
                assert(all_indices(d).contains(k));
            }
        }
    }
    assert(all_lines(d2) == numbered(lines, 0, li));
    assert(forall|k: int| 0 <= k < ei2 && !exps[k].optional ==> all_indices(d2).contains(k));
    assert(forall|i: int| 0 <= i < all_indices(d2).len() ==> all_indices(d2)[i] < ei2);
    let d3 = if ei2 < exps.len() {
        d2 + unmatched_range(exps, ei2, exps.len() as int)
    } else {
        d2
    };
    if ei2 < exps.len() {
        lemma_append_range(exps, d2, ei2, exps.len() as int);
        assert(d3 == d2 + unmatched_range(exps, ei2, exps.len() as int));
        let ni = all_indices(d2 + unmatched_range(exps, ei2, exps.len() as int));
        assert forall|k: int| 0 <= k < exps.len() && !exps[k].optional implies ni.contains(k) by {
            if k < ei2 {
                assert(all_indices(d2).contains(k));
                assert(all_indices(d2).contains(k) || (ei2 <= k < exps.len() && !exps[k].optional));
            } else {
                assert(ei2 <= k < exps.len() && !exps[k].optional);
                assert(all_indices(d2).contains(k) || (ei2 <= k < exps.len() && !exps[k].optional));
            }
        }
    }
    assert(all_lines(d3) == numbered(lines, 0, li));
    if li < lines.len() {
        let x = SpecDiffLine::Unexpected { lines: numbered(lines, li, lines.len() as int) };
        assert(entry_index(x) == Seq::<int>::empty());
        lemma_push_entry(exps, d3, x, exps.len() as int);
        lemma_numbered_concat(lines, 0, li, lines.len() as int);
        assert(all_indices(d3.push(x)) == all_indices(d3));
    }
}

/// Every line of output occurs in the result exactly once, in order and with
/// its index: the lines that the entries cover, concatenated, are the lines
/// of output numbered from zero.
pub proof fn law_diff_covers_every_line_once(exps: Seq<Expectation>, lines: Seq<Seq<u8>>)
    ensures
        all_lines(spec_diff(exps, lines)) == numbered(lines, 0, lines.len() as int),
{
    lemma_law_diff(exps, lines);
}

/// Every matched entry names its expectation by its index, covers at least
/// one line (exactly one where the expectation is not multiline), and every
/// line it covers satisfies that expectation; every unmatched entry names a
/// non-optional expectation by its index.
pub proof fn law_diff_matches_are_sound(exps: Seq<Expectation>, lines: Seq<Seq<u8>>)
    ensures
        entries_sound(exps, spec_diff(exps, lines)),
{
    lemma_law_diff(exps, lines);
}

/// The expectations occur in the result in their order, each at most once,
/// and every expectation that is not optional occurs (as matched or as
/// unmatched).
pub proof fn law_diff_accounts_for_expectations(exps: Seq<Expectation>, lines: Seq<Seq<u8>>)
    ensures
        strictly_increasing(all_indices(spec_diff(exps, lines))),
        forall|k: int|
            0 <= k < exps.len() && !exps[k].optional ==> all_indices(spec_diff(exps, lines)).contains(
                k,
            ),
{
    lemma_law_diff(exps, lines);
}

proof fn lemma_law_diff(exps: Seq<Expectation>, lines: Seq<Seq<u8>>)
    ensures
        diff_result_ok(exps, lines, spec_diff(exps, lines)),
{
    let st = diff_start();
    assert(all_lines(st.diffs) == numbered(lines, 0, 0));
    assert(all_indices(st.diffs) == Seq::<int>::empty());
    lemma_run_inv(exps, lines, st);
    lemma_finish(exps, lines, diff_run(exps, lines, st));
}

proof fn lemma_all_lines_member(d: Seq<SpecDiffLine>, p: int)
    requires
        0 <= p < all_lines(d).len(),
    ensures
        exists|m: int, q: int|
            0 <= m < d.len() && 0 <= q < entry_lines(d[m]).len() && #[trigger] entry_lines(d[m])[q]
                == all_lines(d)[p],
    decreases d.len(),
{
    let init = d.drop_last();
    let a = all_lines(init);
    assert(all_lines(d) == a + entry_lines(d.last()));
    if p < a.len() {
        lemma_all_lines_member(init, p);
        let (m, q) = choose|m: int, q: int|
            0 <= m < init.len() && 0 <= q < entry_lines(init[m]).len() && #[trigger] entry_lines(
                init[m],
            )[q] == all_lines(init)[p];
        assert(d[m] == init[m]);
        assert(entry_lines(d[m])[q] == all_lines(d)[p]);
    } else {
        let m = d.len() - 1;
        let q = p - a.len();
        assert(entry_lines(d[m])[q] == all_lines(d)[p]);
    }
}

proof fn lemma_all_indices_member(d: Seq<SpecDiffLine>, k: int)
    requires
        all_indices(d).contains(k),
    ensures
        exists|m: int| 0 <= m < d.len() && #[trigger] entry_index(d[m]) == seq![k],
    decreases d.len(),
{
    let init = d.drop_last();
    let a = all_indices(init);
    assert(all_indices(d) == a + entry_index(d.last()));
    let p = choose|p: int| 0 <= p < all_indices(d).len() && all_indices(d)[p] == k;
    if p < a.len() {
        assert(a.contains(k));
        lemma_all_indices_member(init, k);
        let m = choose|m: int| 0 <= m < init.len() && #[trigger] entry_index(init[m]) == seq![k];
        assert(d[m] == init[m]);
    } else {
        let m = d.len() - 1;
        assert(entry_index(d[m]).len() == 1);
        assert(entry_index(d[m]) =~= seq![k]);
    }
}

/// A comparison without differences means that the output is as expected:
/// every line of output satisfies some expectation, and every expectation
/// that is not optional has matched.
pub proof fn law_diff_without_differences_means_output_expected(
    exps: Seq<Expectation>,
    lines: Seq<Seq<u8>>,
)
    requires
        !spec_has_differences(spec_diff(exps, lines)),
    ensures
        forall|i: int|
            #![trigger lines[i]]
            0 <= i < lines.len() ==> exists|k: int|
                0 <= k < exps.len() && (#[trigger] exps[k]).spec_matches(lines[i]),
        forall|k: int|
            0 <= k < exps.len() && !exps[k].optional ==> exists|m: int|
                0 <= m < spec_diff(exps, lines).len() && (#[trigger] spec_diff(exps, lines)[m]) is Matched
                    && spec_diff(exps, lines)[m]->Matched_index == k,
{
    let d = spec_diff(exps, lines);
    lemma_law_diff(exps, lines);
    assert forall|i: int| #![trigger lines[i]] 0 <= i < lines.len() implies exists|k: int|
        0 <= k < exps.len() && (#[trigger] exps[k]).spec_matches(lines[i]) by {
        let all = numbered(lines, 0, lines.len() as int);
        assert(all[i] == (i, lines[i]));
        lemma_all_lines_member(d, i);
        let (m, q) = choose|m: int, q: int|
            0 <= m < d.len() && 0 <= q < entry_lines(d[m]).len() && #[trigger] entry_lines(d[m])[q]
                == all_lines(d)[i];
        assert(d[m] is Matched);
        assert(entry_sound(exps, d[m]));
        let k = d[m]->Matched_index;
        assert(exps[k].spec_matches(entry_lines(d[m])[q].1));
    }
    assert forall|k: int| 0 <= k < exps.len() && !exps[k].optional implies exists|m: int|
        0 <= m < d.len() && (#[trigger] d[m]) is Matched && d[m]->Matched_index == k by {
        lemma_all_indices_member(d, k);
        let m = choose|m: int| 0 <= m < d.len() && #[trigger] entry_index(d[m]) == seq![k];
        assert(d[m] is Matched);
        assert(entry_index(d[m])[0] == k);
    }
}

/// Whether every entry is a match.
pub open spec fn all_matched(d: Seq<SpecDiffLine>) -> bool {
    forall|m: int| 0 <= m < d.len() ==> #[trigger] d[m] is Matched
}

/// The result of expectations that match the lines of output one by one:
/// for each index `i` below `n`, the match of expectation `i` with line `i`.
pub open spec fn line_by_line_matches(exps: Seq<Expectation>, lines: Seq<Seq<u8>>, n: int) -> Seq<SpecDiffLine> {
    Seq::new(
        n as nat,
        |i: int| SpecDiffLine::Matched { index: i, expectation: exps[i], lines: numbered(lines, i, i + 1) },
    )
}

proof fn lemma_run_line_by_line(exps: Seq<Expectation>, lines: Seq<Seq<u8>>, st: DiffState)
    requires
        exps.len() == lines.len(),
        forall|i: int|
            0 <= i < exps.len() ==> !(#[trigger] exps[i]).multiline && exps[i].spec_matches(lines[i]),
        0 <= st.ei <= exps.len(),
        st.li == st.ei,
        st.ms is None,
        all_matched(st.diffs),
        st.diffs == line_by_line_matches(exps, lines, st.ei),
    ensures
        diff_run(exps, lines, st).ei == exps.len(),
        diff_run(exps, lines, st).li == lines.len(),
        diff_run(exps, lines, st).ms is None,
        all_matched(diff_run(exps, lines, st).diffs),
        diff_run(exps, lines, st).diffs == line_by_line_matches(exps, lines, exps.len() as int),
    decreases exps.len() - st.ei,
{
    if st.ei < exps.len() {
        let e = exps[st.ei];
        assert(!e.multiline && e.spec_matches(lines[st.li]));
        let next = diff_step(exps, lines, st);
        assert(next.ei == st.ei + 1 && next.li == st.li + 1 && next.ms is None);
        assert(all_matched(next.diffs)) by {
            assert forall|m: int| 0 <= m < next.diffs.len() implies #[trigger] next.diffs[m] is Matched by {
                if m < st.diffs.len() {
                    assert(next.diffs[m] == st.diffs[m]);
                }
            }
        }
        assert(next.diffs =~= line_by_line_matches(exps, lines, st.ei + 1));
        lemma_run_line_by_line(exps, lines, next);
    }
}

/// Expectations that match the lines of output one by one, none of them
/// multiline, give a comparison without differences, in which each
/// expectation matched exactly the line of its index.
pub proof fn law_diff_of_expectations_matching_line_by_line(
    exps: Seq<Expectation>,
    lines: Seq<Seq<u8>>,
)
    requires
        exps.len() == lines.len(),
        forall|i: int|
            0 <= i < exps.len() ==> !(#[trigger] exps[i]).multiline && exps[i].spec_matches(lines[i]),
    ensures
        spec_diff(exps, lines) == line_by_line_matches(exps, lines, exps.len() as int),
        !spec_has_differences(spec_diff(exps, lines)),
{
    let st = diff_start();
    assert(all_matched(st.diffs));
    assert(st.diffs =~= line_by_line_matches(exps, lines, 0));
    lemma_run_line_by_line(exps, lines, st);
    let end = diff_run(exps, lines, st);
    assert(diff_finish(exps, lines, end) == end.diffs);
}

/// An optional multiline expectation that has not taken a line yet yields
/// a line that the expectation after it matches too: the comparison goes on
/// as if it started at that next expectation, with the line not taken and
/// nothing recorded for the optional one.
pub proof fn law_optional_multiline_yields_to_next(
    exps: Seq<Expectation>,
    lines: Seq<Seq<u8>>,
    st: DiffState,
)
    requires
        0 <= st.ei,
        st.ei + 1 < exps.len(),
        0 <= st.li < lines.len(),
        st.ms is None,
        exps[st.ei].optional,
        exps[st.ei].multiline,
        exps[st.ei].spec_matches(lines[st.li]),
        exps[st.ei + 1].spec_matches(lines[st.li]),
    ensures
        diff_run(exps, lines, st) == diff_run(exps, lines, DiffState { ei: st.ei + 1, ..st }),
{
    lemma_find_expectation_bounds(exps, lines[st.li], st.ei + 1);
    lemma_find_line_bounds(lines, exps[st.ei], st.li + 1);
    assert(diff_step(exps, lines, st) == DiffState { ei: st.ei + 1, ..st });
}

/// An optional multiline expectation before one that matches a single line
/// of output leaves that line to it, whether or not it would match the line
/// itself: the one expectation matches the line and there are no
/// differences.
pub proof fn law_optional_multiline_before_a_match(
    optional: Expectation,
    next: Expectation,
    line: Seq<u8>,
)
    requires
        optional.optional,
        optional.multiline,
        !next.multiline,
        next.spec_matches(line),
    ensures
        spec_diff(seq![optional, next], seq![line]) == seq![
            SpecDiffLine::Matched {
                index: 1,
                expectation: next,
                lines: numbered(seq![line], 0, 1),
            },
        ],
        !spec_has_differences(spec_diff(seq![optional, next], seq![line])),
{
    let exps = seq![optional, next];
    let lines = seq![line];
    let st = diff_start();
    lemma_find_expectation_bounds(exps, line, 1);
    lemma_find_line_bounds(lines, optional, 1);
    let s1 = diff_step(exps, lines, st);
    if optional.spec_matches(line) {
        law_optional_multiline_yields_to_next(exps, lines, st);
    } else {
        assert(find_expectation(exps, line, 1) == Some(1int));
        assert(unmatched_range(exps, 0, 1) =~= Seq::<SpecDiffLine>::empty()) by {
            assert(unmatched_range(exps, 1, 1) =~= Seq::<SpecDiffLine>::empty());
        }
        assert(s1.diffs =~= Seq::<SpecDiffLine>::empty());
    }
    assert(s1 == DiffState { ei: 1, li: 0, ms: None, diffs: seq![] });
    let s2 = diff_step(exps, lines, s1);
    lemma_find_expectation_bounds(exps, line, 2);
    lemma_find_line_bounds(lines, next, 1);
    assert(s2.ei == 2 && s2.li == 1 && s2.ms is None);
    assert(diff_run(exps, lines, s2) == s2);
    assert(diff_run(exps, lines, s1) == s2);
    assert(diff_run(exps, lines, st) == s2);
    let d = spec_diff(exps, lines);
    assert(d == s2.diffs);
    assert(d[0] is Matched);
    assert(d.len() == 1);
    assert(!spec_has_differences(d));
}

/// A multiline expectation that has taken lines ends its run at a line that
/// the expectation after it matches: with two lines, both matched by the
/// multiline one and the second by the next, each expectation takes one
/// line and there are no differences.
pub proof fn law_multiline_run_ends_at_next_match(
    multiline: Expectation,
    next: Expectation,
    first: Seq<u8>,
    second: Seq<u8>,
)
    requires
        multiline.multiline,
        !next.multiline,
        multiline.spec_matches(first),
        multiline.spec_matches(second),
        next.spec_matches(second),
        !next.spec_matches(first),
    ensures
        spec_diff(seq![multiline, next], seq![first, second]) == seq![
            SpecDiffLine::Matched {
                index: 0,
                expectation: multiline,
                lines: numbered(seq![first, second], 0, 1),
            },
            SpecDiffLine::Matched {
                index: 1,
                expectation: next,
                lines: numbered(seq![first, second], 1, 2),
            },
        ],
        !spec_has_differences(spec_diff(seq![multiline, next], seq![first, second])),
{
    let exps = seq![multiline, next];
    let lines = seq![first, second];
    let st = diff_start();
    lemma_find_expectation_bounds(exps, first, 1);
    lemma_find_line_bounds(lines, multiline, 1);
    let s1 = diff_step(exps, lines, st);
    assert(s1 == DiffState { ei: 0, li: 1, ms: Some(0int), diffs: seq![] });
    lemma_find_expectation_bounds(exps, second, 1);
    lemma_find_line_bounds(lines, multiline, 2);
    let s2 = diff_step(exps, lines, s1);
    let m0 = SpecDiffLine::Matched { index: 0, expectation: multiline, lines: numbered(lines, 0, 1) };
    assert(s2 == DiffState { ei: 1, li: 1, ms: None, diffs: seq![m0] });
    lemma_find_expectation_bounds(exps, second, 2);
    lemma_find_line_bounds(lines, next, 2);
    let s3 = diff_step(exps, lines, s2);
    let m1 = SpecDiffLine::Matched { index: 1, expectation: next, lines: numbered(lines, 1, 2) };
    assert(s3 == DiffState { ei: 2, li: 2, ms: None, diffs: seq![m0].push(m1) });
    assert(diff_run(exps, lines, s3) == s3);
    assert(diff_run(exps, lines, s2) == s3);
    assert(diff_run(exps, lines, s1) == s3);
    assert(diff_run(exps, lines, st) == s3);
    let d = spec_diff(exps, lines);
    assert(d == s3.diffs);
    assert(s3.diffs =~= seq![m0, m1]);
    assert(d[0] is Matched && d[1] is Matched);
    assert(!spec_has_differences(d));
}

} // verus!
