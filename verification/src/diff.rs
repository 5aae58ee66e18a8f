//! Comparison of output with a list of expectations.
//!
//! The result is a list of [`DiffLine`]s: expectations that matched one or
//! more lines, expectations that did not match where they stand, and runs of
//! output lines for which no expectation matched.
use vstd::prelude::*;

use crate::expectation::Expectation;
use crate::diff_laws::{all_lines, entry_lines, lemma_all_lines_concat_pub, law_diff_covers_every_line_once};
use crate::newline::{byte_lines_view, spec_split_lines, split_at_newline};
use vstd::slice::slice_to_vec;

verus! {

/// The mathematical form of a [`DiffLine`].
pub enum SpecDiffLine {
    /// An expectation (by index) that matched the given numbered lines
    Matched { index: int, expectation: Expectation, lines: Seq<(int, Seq<u8>)> },
    /// An expectation (by index) that did not match where it stands
    Unmatched { index: int, expectation: Expectation },
    /// Numbered output lines that no expectation matched
    Unexpected { lines: Seq<(int, Seq<u8>)> },
}

/// The state of the comparison between steps.
pub struct DiffState {
    /// Index of the current expectation
    pub ei: int,
    /// Index of the current line of output
    pub li: int,
    /// Start of the run of lines that the current multiline expectation matched
    pub ms: Option<int>,
    /// The results so far
    pub diffs: Seq<SpecDiffLine>,
}

/// The lines `a..b`, each with its index.
pub open spec fn numbered(lines: Seq<Seq<u8>>, a: int, b: int) -> Seq<(int, Seq<u8>)> {
    Seq::new((b - a) as nat, |k: int| (a + k, lines[a + k]))
}

/// The first expectation at or after `from` that matches the line.
pub open spec fn find_expectation(exps: Seq<Expectation>, line: Seq<u8>, from: int) -> Option<int>
    decreases exps.len() - from,
{
    if from < 0 || from >= exps.len() {
        None
    } else if exps[from].spec_matches(line) {
        Some(from)
    } else {
        find_expectation(exps, line, from + 1)
    }
}

/// The first line at or after `from` that the expectation matches.
pub open spec fn find_line(lines: Seq<Seq<u8>>, e: Expectation, from: int) -> Option<int>
    decreases lines.len() - from,
{
    if from < 0 || from >= lines.len() {
        None
    } else if e.spec_matches(lines[from]) {
        Some(from)
    } else {
        find_line(lines, e, from + 1)
    }
}

/// An [`SpecDiffLine::Unmatched`] for every expectation in `a..b` that is not optional.
pub open spec fn unmatched_range(exps: Seq<Expectation>, a: int, b: int) -> Seq<SpecDiffLine>
    decreases b - a,
{
    if a >= b {
        seq![]
    } else {
        (if exps[a].optional {
            seq![]
        } else {
            seq![SpecDiffLine::Unmatched { index: a, expectation: exps[a] }]
        }) + unmatched_range(exps, a + 1, b)
    }
}

/// One step of the comparison, with a current expectation and a current line.
pub open spec fn diff_step(exps: Seq<Expectation>, lines: Seq<Seq<u8>>, st: DiffState) -> DiffState {
    let ei = st.ei;
    let li = st.li;
    let e = exps[ei];
    let line = lines[li];
    if e.spec_matches(line) {
        if e.multiline {
            if ei + 1 < exps.len() && (e.optional || st.ms is Some) && exps[ei + 1].spec_matches(
                line,
            ) {
                // a more precise expectation that follows ends the multiline run
                DiffState {
                    ei: ei + 1,
                    li,
                    ms: None,
                    diffs: match st.ms {
                        Some(s) => st.diffs.push(
                            SpecDiffLine::Matched {
                                index: ei,
                                expectation: e,
                                lines: numbered(lines, s, li),
                            },
                        ),
                        None => st.diffs,
                    },
                }
            } else {
                DiffState {
                    ei,
                    li: li + 1,
                    ms: if st.ms is None {
                        Some(li)
                    } else {
                        st.ms
                    },
                    diffs: st.diffs,
                }
            }
        } else {
            DiffState {
                ei: ei + 1,
                li: li + 1,
                ms: st.ms,
                diffs: st.diffs.push(
                    SpecDiffLine::Matched {
                        index: ei,
                        expectation: e,
                        lines: numbered(lines, li, li + 1),
                    },
                ),
            }
        }
    } else if st.ms is Some {
        // the multiline run of the current expectation ends before this line
        DiffState {
            ei: ei + 1,
            li,
            ms: None,
            diffs: st.diffs.push(
                SpecDiffLine::Matched {
                    index: ei,
                    expectation: e,
                    lines: numbered(lines, st.ms->0, li),
                },
            ),
        }
    } else {
        match find_expectation(exps, line, ei + 1) {
            Some(k) => DiffState {
                ei: k,
                li,
                ms: None,
                diffs: st.diffs + unmatched_range(exps, ei, k),
            },
            None => match find_line(lines, e, li + 1) {
                Some(j) => DiffState {
                    ei,
                    li: j,
                    ms: None,
                    diffs: st.diffs.push(SpecDiffLine::Unexpected { lines: numbered(lines, li, j) }),
                },
                None => DiffState {
                    ei: ei + 1,
                    li,
                    ms: None,
                    diffs: if e.optional {
                        st.diffs
                    } else {
                        st.diffs.push(SpecDiffLine::Unmatched { index: ei, expectation: e })
                    },
                },
            },
        }
    }
}

pub proof fn lemma_find_expectation_bounds(exps: Seq<Expectation>, line: Seq<u8>, from: int)
    requires
        from >= 0,
    ensures
        find_expectation(exps, line, from) matches Some(k) ==> from <= k < exps.len()
            && exps[k].spec_matches(line) && (forall|j: int|
            from <= j < k ==> !(#[trigger] exps[j]).spec_matches(line)),
        find_expectation(exps, line, from) is None ==> forall|j: int|
            from <= j < exps.len() ==> !(#[trigger] exps[j]).spec_matches(line),
    decreases exps.len() - from,
{
    if from < exps.len() && !exps[from].spec_matches(line) {
        lemma_find_expectation_bounds(exps, line, from + 1);
    }
}

pub proof fn lemma_find_line_bounds(lines: Seq<Seq<u8>>, e: Expectation, from: int)
    requires
        from >= 0,
    ensures
        find_line(lines, e, from) matches Some(k) ==> from <= k < lines.len() && e.spec_matches(
            lines[k],
        ) && (forall|j: int| from <= j < k ==> !e.spec_matches(#[trigger] lines[j])),
        find_line(lines, e, from) is None ==> forall|j: int|
            from <= j < lines.len() ==> !e.spec_matches(#[trigger] lines[j]),
    decreases lines.len() - from,
{
    if from < lines.len() && !e.spec_matches(lines[from]) {
        lemma_find_line_bounds(lines, e, from + 1);
    }
}

/// Whether the state may take a step.
pub open spec fn diff_can_step(exps: Seq<Expectation>, lines: Seq<Seq<u8>>, st: DiffState) -> bool {
    0 <= st.ei < exps.len() && 0 <= st.li < lines.len()
}

/// The comparison run until either the expectations or the lines are used up.
pub open spec fn diff_run(exps: Seq<Expectation>, lines: Seq<Seq<u8>>, st: DiffState) -> DiffState
    decreases (exps.len() - st.ei) + (lines.len() - st.li),
{
    if diff_can_step(exps, lines, st) {
        proof {
            lemma_find_expectation_bounds(exps, lines[st.li], st.ei + 1);
            lemma_find_line_bounds(lines, exps[st.ei], st.li + 1);
        }
        diff_run(exps, lines, diff_step(exps, lines, st))
    } else {
        st
    }
}

/// The results of a finished run: a pending multiline run is closed, unused
/// non-optional expectations are unmatched and remaining lines unexpected.
pub open spec fn diff_finish(exps: Seq<Expectation>, lines: Seq<Seq<u8>>, st: DiffState) -> Seq<SpecDiffLine> {
    let ei2 = if st.ms is Some {
        st.ei + 1
    } else {
        st.ei
    };
    let d2 = match st.ms {
        Some(s) => st.diffs.push(
            SpecDiffLine::Matched {
                index: st.ei,
                expectation: exps[st.ei],
                lines: numbered(lines, s, st.li),
            },
        ),
        None => st.diffs,
    };
    let d3 = if ei2 < exps.len() {
        d2 + unmatched_range(exps, ei2, exps.len() as int)
    } else {
        d2
    };
    if st.li < lines.len() {
        d3.push(SpecDiffLine::Unexpected { lines: numbered(lines, st.li, lines.len() as int) })
    } else {
        d3
    }
}

/// The initial state of a comparison.
pub open spec fn diff_start() -> DiffState {
    DiffState { ei: 0, li: 0, ms: None, diffs: seq![] }
}

/// The result of comparing the lines of output with the expectations.
pub open spec fn spec_diff(exps: Seq<Expectation>, lines: Seq<Seq<u8>>) -> Seq<SpecDiffLine> {
    diff_finish(exps, lines, diff_run(exps, lines, diff_start()))
}

proof fn lemma_unmatched_range_extend(exps: Seq<Expectation>, a: int, i: int)
    requires
        a <= i,
    ensures
        unmatched_range(exps, a, i + 1) == unmatched_range(exps, a, i) + (if exps[i].optional {
            seq![]
        } else {
            seq![SpecDiffLine::Unmatched { index: i, expectation: exps[i] }]
        }),
    decreases i - a,
{
    if a < i {
        lemma_unmatched_range_extend(exps, a + 1, i);
        let h = if exps[a].optional {
            Seq::<SpecDiffLine>::empty()
        } else {
            seq![SpecDiffLine::Unmatched { index: a, expectation: exps[a] }]
        };
        let t = if exps[i].optional {
            Seq::<SpecDiffLine>::empty()
        } else {
            seq![SpecDiffLine::Unmatched { index: i, expectation: exps[i] }]
        };
        assert(h + (unmatched_range(exps, a + 1, i) + t) == (h + unmatched_range(exps, a + 1, i)) + t);
    } else {
        assert(unmatched_range(exps, i + 1, i + 1) == Seq::<SpecDiffLine>::empty());
        assert(unmatched_range(exps, a, i) == Seq::<SpecDiffLine>::empty());
    }
}

/// A line of the comparison result.
#[derive(Debug, Clone, PartialEq)]
pub enum DiffLine {
    /// An expectation that matched one or multiple lines
    MatchedExpectation {
        /// The index within the list of expectations
        index: usize,
        /// The expectation that matched
        expectation: Expectation,
        /// The line(s) of output that were matched and their index
        lines: Vec<(usize, Vec<u8>)>,
    },
    /// An expectation that was not matched where it stands
    UnmatchedExpectation {
        /// The index within the list of expectations
        index: usize,
        /// The expectation that was not matching
        expectation: Expectation,
    },
    /// A run of lines for which no expectation could be found
    UnexpectedLines {
        /// The line(s) of output without expectation match
        lines: Vec<(usize, Vec<u8>)>,
    },
}

/// The mathematical form of numbered lines.
pub open spec fn numbered_view(v: Seq<(usize, Vec<u8>)>) -> Seq<(int, Seq<u8>)> {
    v.map_values(|p: (usize, Vec<u8>)| (p.0 as int, p.1@))
}

impl View for DiffLine {
    type V = SpecDiffLine;

    open spec fn view(&self) -> SpecDiffLine {
        match self {
            DiffLine::MatchedExpectation { index, expectation, lines } => SpecDiffLine::Matched {
                index: *index as int,
                expectation: *expectation,
                lines: numbered_view(lines@),
            },
            DiffLine::UnmatchedExpectation { index, expectation } => SpecDiffLine::Unmatched {
                index: *index as int,
                expectation: *expectation,
            },
            DiffLine::UnexpectedLines { lines } => SpecDiffLine::Unexpected {
                lines: numbered_view(lines@),
            },
        }
    }
}

/// The mathematical form of a list of [`DiffLine`]s.
pub open spec fn diff_lines_view(v: Seq<DiffLine>) -> Seq<SpecDiffLine> {
    v.map_values(|d: DiffLine| d@)
}

proof fn lemma_view_push(v: Seq<DiffLine>, d: DiffLine)
    ensures
        diff_lines_view(v.push(d)) == diff_lines_view(v).push(d@),
{
    assert(diff_lines_view(v.push(d)) =~= diff_lines_view(v).push(d@));
}

/// The number of matched entries.
pub open spec fn count_matched(d: Seq<SpecDiffLine>) -> nat
    decreases d.len(),
{
    if d.len() == 0 {
        0
    } else {
        count_matched(d.drop_last()) + if d.last() is Matched {
            1nat
        } else {
            0nat
        }
    }
}

/// The number of unmatched entries.
pub open spec fn count_unmatched(d: Seq<SpecDiffLine>) -> nat
    decreases d.len(),
{
    if d.len() == 0 {
        0
    } else {
        count_unmatched(d.drop_last()) + if d.last() is Unmatched {
            1nat
        } else {
            0nat
        }
    }
}

/// Whether some entry is not a match.
pub open spec fn spec_has_differences(d: Seq<SpecDiffLine>) -> bool {
    exists|m: int| 0 <= m < d.len() && !(#[trigger] d[m] is Matched)
}

proof fn lemma_counts_bounded(d: Seq<SpecDiffLine>)
    ensures
        count_matched(d) <= d.len(),
        count_unmatched(d) <= d.len(),
    decreases d.len(),
{
    if d.len() > 0 {
        lemma_counts_bounded(d.drop_last());
    }
}

/// The result of a comparison: the result lines, and how many expectations
/// matched, how many did not, and how many lines of output there were.
#[derive(Debug, Clone, PartialEq)]
pub struct Diff {
    pub lines: Vec<DiffLine>,
    pub count_matched: usize,
    pub count_unmatched: usize,
    pub count_output_lines: usize,
}

impl Diff {
    /// A result made of the given lines, with its counts.
    pub fn new(lines: Vec<DiffLine>) -> (r: Diff)
        requires
            all_lines(diff_lines_view(lines@)).len() <= usize::MAX,
        ensures
            r.lines@ == lines@,
            r.count_matched == count_matched(diff_lines_view(lines@)),
            r.count_unmatched == count_unmatched(diff_lines_view(lines@)),
            r.count_output_lines == all_lines(diff_lines_view(lines@)).len(),
    {
        let ghost d = diff_lines_view(lines@);
        let mut count_matched_n: usize = 0;
        let mut count_unmatched_n: usize = 0;
        let mut count_output_lines: usize = 0;
        let mut i: usize = 0;
        proof {
            lemma_counts_bounded(d);
        }
        while i < lines.len()
            invariant
                i <= lines@.len(),
                d == diff_lines_view(lines@),
                all_lines(d).len() <= usize::MAX,
                count_matched(d) <= d.len(),
                count_unmatched(d) <= d.len(),
                count_matched_n == count_matched(d.take(i as int)),
                count_unmatched_n == count_unmatched(d.take(i as int)),
                count_output_lines == all_lines(d.take(i as int)).len(),
            decreases lines@.len() - i,
        {
            let ghost pre = d.take(i as int);
            let ghost post = d.take(i + 1);
            assert(post.drop_last() == pre);
            assert(post.last() == lines@[i as int]@);
            proof {
                lemma_all_lines_concat_pub(post, d.skip(i + 1));
                assert(post + d.skip(i + 1) == d);
                lemma_counts_prefix(d, i + 1);
            }
            match &lines[i] {
                DiffLine::MatchedExpectation { lines: ls, .. } => {
                    count_matched_n = count_matched_n + 1;
                    count_output_lines = count_output_lines + ls.len();
                },
                DiffLine::UnmatchedExpectation { .. } => {
                    count_unmatched_n = count_unmatched_n + 1;
                },
                DiffLine::UnexpectedLines { lines: ls } => {
                    count_output_lines = count_output_lines + ls.len();
                },
            }
            i = i + 1;
        }
        assert(d.take(lines@.len() as int) == d);
        Diff {
            lines,
            count_matched: count_matched_n,
            count_unmatched: count_unmatched_n,
            count_output_lines,
        }
    }

    /// Whether some result line is not a matched expectation.
    pub fn has_differences(&self) -> (r: bool)
        ensures
            r == spec_has_differences(diff_lines_view(self.lines@)),
    {
        let mut i: usize = 0;
        while i < self.lines.len()
            invariant
                i <= self.lines@.len(),
                forall|m: int| 0 <= m < i ==> (#[trigger] diff_lines_view(self.lines@)[m]) is Matched,
            decreases self.lines@.len() - i,
        {
            match &self.lines[i] {
                DiffLine::MatchedExpectation { .. } => {},
                _ => {
                    assert(!(diff_lines_view(self.lines@)[i as int] is Matched));
                    return true;
                },
            }
            i = i + 1;
        }
        false
    }
}

proof fn lemma_counts_prefix(d: Seq<SpecDiffLine>, i: int)
    requires
        0 <= i <= d.len(),
    ensures
        count_matched(d.take(i)) <= count_matched(d),
        count_unmatched(d.take(i)) <= count_unmatched(d),
    decreases d.len() - i,
{
    if i < d.len() {
        lemma_counts_prefix(d, i + 1);
        assert(d.take(i + 1).drop_last() == d.take(i));
    } else {
        assert(d.take(i) == d);
    }
}

/// The index of the line that ends the match of the next expectation, or
/// that the current expectation matches next.
enum PeekMatch {
    /// A later expectation matches the current line
    NextExpectation(usize),
    /// A later line matches the current expectation
    NextLine(usize),
    /// Neither
    Neither,
}

/// Compares output with a list of expectations.
pub struct DiffTool {
    pub expectations: Vec<Expectation>,
}

fn numbered_lines(lines: &Vec<Vec<u8>>, a: usize, b: usize) -> (r: Vec<(usize, Vec<u8>)>)
    requires
        a <= b <= lines@.len(),
    ensures
        numbered_view(r@) == numbered(byte_lines_view(lines@), a as int, b as int),
{
    let mut r: Vec<(usize, Vec<u8>)> = Vec::new();
    let mut i = a;
    while i < b
        invariant
            a <= i <= b,
            b <= lines@.len(),
            numbered_view(r@) == numbered(byte_lines_view(lines@), a as int, i as int),
        decreases b - i,
    {
        let ghost old_r = r@;
        r.push((i, slice_to_vec(lines[i].as_slice())));
        assert(numbered_view(r@) == numbered_view(old_r).push((i as int, lines@[i as int]@)));
        assert(numbered(byte_lines_view(lines@), a as int, i + 1) == numbered(
            byte_lines_view(lines@),
            a as int,
            i as int,
        ).push((i as int, lines@[i as int]@)));
        i = i + 1;
    }
    r
}

/// The current state of the comparison in its mathematical form.
pub open spec fn state_of(ei: usize, li: usize, ms: Option<usize>, diffs: Seq<DiffLine>) -> DiffState {
    DiffState {
        ei: ei as int,
        li: li as int,
        ms: match ms {
            Some(s) => Some(s as int),
            None => None,
        },
        diffs: diff_lines_view(diffs),
    }
}

impl DiffTool {
    /// A comparison tool for the given expectations.
    pub fn new(expectations: Vec<Expectation>) -> (r: DiffTool)
        ensures
            r.expectations@ == expectations@,
    {
        DiffTool { expectations }
    }

    /// Appends an [`DiffLine::UnmatchedExpectation`] for every expectation in
    /// `a..b` that is not optional.
    fn push_unmatched(&self, diffs: &mut Vec<DiffLine>, a: usize, b: usize)
        requires
            a <= b <= self.expectations@.len(),
        ensures
            diff_lines_view(final(diffs)@) == diff_lines_view(old(diffs)@) + unmatched_range(
                self.expectations@,
                a as int,
                b as int,
            ),
    {
        let ghost start = diff_lines_view(diffs@);
        let mut idx = a;
        assert(unmatched_range(self.expectations@, a as int, a as int) == Seq::<SpecDiffLine>::empty());
        assert(start + Seq::<SpecDiffLine>::empty() == start);
        while idx < b
            invariant
                a <= idx <= b,
                b <= self.expectations@.len(),
                diff_lines_view(diffs@) == start + unmatched_range(
                    self.expectations@,
                    a as int,
                    idx as int,
                ),
            decreases b - idx,
        {
            proof {
                lemma_unmatched_range_extend(self.expectations@, a as int, idx as int);
            }
            let ghost before = diffs@;
            if !self.expectations[idx].optional {
                diffs.push(
                    DiffLine::UnmatchedExpectation {
                        index: idx,
                        expectation: self.expectations[idx].clone(),
                    },
                );
                proof {
                    lemma_view_push(before, diffs@.last());
                    assert(diffs@ == before.push(diffs@.last()));
                }
            }
            idx = idx + 1;
        }
    }

    /// Compares output with the expectations and returns line-wise results
    /// that tell which expectations matched which lines, which did not match
    /// and which lines were unexpected.
    pub fn diff(&self, output: &[u8]) -> (r: Diff)
        ensures
            diff_lines_view(r.lines@) == spec_diff(self.expectations@, spec_split_lines(output@)),
            r.count_matched == count_matched(diff_lines_view(r.lines@)),
            r.count_unmatched == count_unmatched(diff_lines_view(r.lines@)),
            r.count_output_lines == spec_split_lines(output@).len(),
    {
        let lines = self.diff_lines(output);
        proof {
            law_diff_covers_every_line_once(self.expectations@, spec_split_lines(output@));
        }
        Diff::new(lines)
    }

    /// Compares the output, split into lines, with the expectations.
    pub fn diff_lines(&self, output: &[u8]) -> (r: Vec<DiffLine>)
        ensures
            diff_lines_view(r@) == spec_diff(self.expectations@, spec_split_lines(output@)),
            spec_split_lines(output@).len() <= usize::MAX,
    {
        let lines = split_at_newline(output);
        let ghost exps = self.expectations@;
        let ghost ls = byte_lines_view(lines@);
        let ne = self.expectations.len();
        let nl = lines.len();
        let mut ei: usize = 0;
        let mut li: usize = 0;
        let mut ms: Option<usize> = None;
        let mut diffs: Vec<DiffLine> = Vec::new();
        assert(diff_lines_view(diffs@) =~= Seq::<SpecDiffLine>::empty());
        assert(state_of(0, 0, None, diffs@) == diff_start());
        while ei < ne && li < nl
            invariant
                ne == exps.len(),
                nl == ls.len(),
                exps == self.expectations@,
                ls == byte_lines_view(lines@),
                ei <= ne,
                li <= nl,
                ms matches Some(s) ==> s <= li && ei < ne && exps[ei as int].multiline,
                diff_run(exps, ls, diff_start()) == diff_run(exps, ls, state_of(ei, li, ms, diffs@)),
            decreases (ne - ei) + (nl - li),
        {
            let ghost st = state_of(ei, li, ms, diffs@);
            let ghost before = diffs@;
            let expectation = &self.expectations[ei];
            let line = lines[li].as_slice();
            assert(line@ == ls[li as int]);
            if expectation.matches(line) {
                if expectation.multiline {
                    if ei + 1 < ne && (expectation.optional || ms.is_some())
                        && self.expectations[ei + 1].matches(line) {
                        if let Some(s) = ms {
                            let d = DiffLine::MatchedExpectation {
                                index: ei,
                                expectation: expectation.clone(),
                                lines: numbered_lines(&lines, s, li),
                            };
                            proof {
                                lemma_view_push(diffs@, d);
                            }
                            diffs.push(d);
                        }
                        ei = ei + 1;
                        ms = None;
                    } else {
                        if ms.is_none() {
                            ms = Some(li);
                        }
                        li = li + 1;
                    }
                } else {
                    let d = DiffLine::MatchedExpectation {
                        index: ei,
                        expectation: expectation.clone(),
                        lines: numbered_lines(&lines, li, li + 1),
                    };
                    proof {
                        lemma_view_push(diffs@, d);
                    }
                    diffs.push(d);
                    li = li + 1;
                    ei = ei + 1;
                }
            } else if ms.is_some() {
                let s = ms.unwrap();
                let d = DiffLine::MatchedExpectation {
                    index: ei,
                    expectation: expectation.clone(),
                    lines: numbered_lines(&lines, s, li),
                };
                proof {
                    lemma_view_push(diffs@, d);
                }
                diffs.push(d);
                ms = None;
                ei = ei + 1;
            } else {
                proof {
                    lemma_find_expectation_bounds(exps, ls[li as int], ei + 1);
                    lemma_find_line_bounds(ls, exps[ei as int], li + 1);
                }
                match self.peek_match(li, &lines, ei) {
                    PeekMatch::NextExpectation(k) => {
                        self.push_unmatched(&mut diffs, ei, k);
                        ei = k;
                    },
                    PeekMatch::NextLine(j) => {
                        let d = DiffLine::UnexpectedLines { lines: numbered_lines(&lines, li, j) };
                        proof {
                            lemma_view_push(diffs@, d);
                        }
                        diffs.push(d);
                        li = j;
                    },
                    PeekMatch::Neither => {
                        if !expectation.optional {
                            let d = DiffLine::UnmatchedExpectation {
                                index: ei,
                                expectation: expectation.clone(),
                            };
                            proof {
                                lemma_view_push(diffs@, d);
                            }
                            diffs.push(d);
                        }
                        ei = ei + 1;
                    },
                }
            }
            assert(state_of(ei, li, ms, diffs@) == diff_step(exps, ls, st));
        }
        let ghost fin = state_of(ei, li, ms, diffs@);
        assert(diff_run(exps, ls, fin) == fin);
        if ms.is_some() {
            let s = ms.unwrap();
            let d = DiffLine::MatchedExpectation {
                index: ei,
                expectation: self.expectations[ei].clone(),
                lines: numbered_lines(&lines, s, li),
            };
            proof {
                lemma_view_push(diffs@, d);
            }
            diffs.push(d);
            ei = ei + 1;
        }
        if ei < ne {
            self.push_unmatched(&mut diffs, ei, ne);
        }
        if li < nl {
            let d = DiffLine::UnexpectedLines { lines: numbered_lines(&lines, li, nl) };
            proof {
                lemma_view_push(diffs@, d);
            }
            diffs.push(d);
        }
        assert(diff_lines_view(diffs@) == diff_finish(exps, ls, fin));
        diffs
    }

    /// The index of the first expectation at or after `start` that matches the line.
    fn peek_matching_expectation(&self, line: &[u8], start: usize) -> (r: Option<usize>)
        ensures
            match r {
                Some(k) => find_expectation(self.expectations@, line@, start as int) == Some(
                    k as int,
                ),
                None => find_expectation(self.expectations@, line@, start as int) is None,
            },
    {
        let mut k = start;
        while k < self.expectations.len()
            invariant
                start <= k,
                find_expectation(self.expectations@, line@, start as int) == find_expectation(
                    self.expectations@,
                    line@,
                    k as int,
                ),
            decreases self.expectations@.len() - k,
        {
            if self.expectations[k].matches(line) {
                return Some(k);
            }
            k = k + 1;
        }
        None
    }

    /// The index of the first line at or after `start` that the expectation matches.
    fn peek_matching_line(&self, expectation: &Expectation, start: usize, lines: &Vec<Vec<u8>>) -> (r: Option<usize>)
        ensures
            match r {
                Some(k) => find_line(byte_lines_view(lines@), *expectation, start as int) == Some(
                    k as int,
                ),
                None => find_line(byte_lines_view(lines@), *expectation, start as int) is None,
            },
    {
        let mut k = start;
        while k < lines.len()
            invariant
                start <= k,
                find_line(byte_lines_view(lines@), *expectation, start as int) == find_line(
                    byte_lines_view(lines@),
                    *expectation,
                    k as int,
                ),
            decreases lines@.len() - k,
        {
            if expectation.matches(lines[k].as_slice()) {
                return Some(k);
            }
            k = k + 1;
        }
        None
    }

    /// The next expectation that matches the current line, or else the next
    /// line that the current expectation matches.
    fn peek_match(&self, line_index: usize, lines: &Vec<Vec<u8>>, expectation_index: usize) -> (r: PeekMatch)
        requires
            line_index < lines@.len(),
            expectation_index < self.expectations@.len(),
        ensures
            match r {
                PeekMatch::NextExpectation(k) => find_expectation(
                    self.expectations@,
                    lines@[line_index as int]@,
                    expectation_index + 1,
                ) == Some(k as int),
                PeekMatch::NextLine(j) => find_expectation(
                    self.expectations@,
                    lines@[line_index as int]@,
                    expectation_index + 1,
                ) is None && find_line(
                    byte_lines_view(lines@),
                    self.expectations@[expectation_index as int],
                    line_index + 1,
                ) == Some(j as int),
                PeekMatch::Neither => find_expectation(
                    self.expectations@,
                    lines@[line_index as int]@,
                    expectation_index + 1,
                ) is None && find_line(
                    byte_lines_view(lines@),
                    self.expectations@[expectation_index as int],
                    line_index + 1,
                ) is None,
            },
    {
        let _ = self.expectations.len();
        let _ = lines.len();
        if let Some(k) = self.peek_matching_expectation(lines[line_index].as_slice(), expectation_index + 1) {
            return PeekMatch::NextExpectation(k);
        }
        if let Some(j) = self.peek_matching_line(&self.expectations[expectation_index], line_index + 1, lines) {
            return PeekMatch::NextLine(j);
        }
        PeekMatch::Neither
    }
}

} // verus!
