//! What a generated Cram document reads back as.
use vstd::prelude::*;

use crate::config::spec_cram_config;
use crate::expectation::{spec_parse_expectation, Expectation};
use crate::generators::cram::{
    spec_cram_document, spec_cram_indented, spec_cram_render, spec_indent_after, spec_join_sep,
    spec_spaces,
};
use crate::generators::outcome::{
    spec_continued, spec_exit_code_line, spec_expression_block, spec_generate_testcase,
    spec_originals,
};
use crate::newline::spec_assure_newline;
use crate::outcome::Outcome;
use crate::output::ExitStatus;
use crate::parsers::cram::{spec_cram_parse, spec_is_indented};
use crate::parsers::cram_laws::{
    cram_expectation_line_ok, is_plain_line, law_cram_document_reads_back, parsed_expectations,
    spec_cram_body_lines, starts_with_two,
};
use crate::parsers::line_parser::spec_is_comment;
use crate::testcase::{expectations_view, TestCaseView};
use crate::text::{spec_decimal, spec_int_decimal, spec_is_whitespace, spec_trim_end};
use crate::parsers::cram_laws::lemma_join_front;
use crate::text::spec_join_newline;

verus! {

/// Text that holds no line feed.
pub open spec fn no_newline(s: Seq<char>) -> bool {
    !s.contains('\n')
}

proof fn lemma_continued_line(a: Seq<char>, rest: Seq<char>)
    requires
        no_newline(a),
    ensures
        spec_continued(a + seq!['\n'] + rest) == a + (if rest.len() > 0 {
            seq!['\n', '>', ' ']
        } else {
            seq!['\n']
        }) + spec_continued(rest),
    decreases a.len(),
{
    let x = a + seq!['\n'] + rest;
    if a.len() == 0 {
        assert(x =~= seq!['\n'] + rest);
        assert(x.drop_first() =~= rest);
        if rest.len() == 0 {
            assert(spec_continued(x.drop_first()) =~= Seq::<char>::empty());
            assert(spec_continued(x) == seq![x[0]] + spec_continued(x.drop_first()));
        }
        assert(a + (if rest.len() > 0 {
            seq!['\n', '>', ' ']
        } else {
            seq!['\n']
        }) =~= (if rest.len() > 0 {
            seq!['\n', '>', ' ']
        } else {
            seq!['\n']
        }));
    } else {
        assert(x[0] == a[0]);
        assert(a[0] != '\n') by {
            if a[0] == '\n' {
                assert(a.contains('\n'));
            }
        }
        let a1 = a.drop_first();
        assert(!a1.contains('\n')) by {
            if a1.contains('\n') {
                let j = choose|j: int| 0 <= j < a1.len() && a1[j] == '\n';
                assert(a[j + 1] == '\n');
            }
        }
        assert(x.drop_first() =~= a1 + seq!['\n'] + rest);
        lemma_continued_line(a1, rest);
        assert(seq![a[0]] + a1 =~= a);
        let m = if rest.len() > 0 {
            seq!['\n', '>', ' ']
        } else {
            seq!['\n']
        };
        assert(seq![a[0]] + (a1 + m + spec_continued(rest)) =~= a + m + spec_continued(rest));
    }
}

/// The command lines as a test case body writes them: the first after the
/// given prefix, each further one after `> `.
pub open spec fn command_lines(prefix: Seq<char>, c: Seq<Seq<char>>) -> Seq<Seq<char>> {
    Seq::new(
        c.len(),
        |k: int|
            if k == 0 {
                prefix + c[0]
            } else {
                seq!['>', ' '] + c[k]
            },
    )
}

/// The shell expression lines, joined, followed by a line feed and written
/// with `> ` continuations after the prefix, are the command lines joined.
pub proof fn lemma_expression_lines(prefix: Seq<char>, c: Seq<Seq<char>>)
    requires
        c.len() >= 1,
        forall|k: int| 0 <= k < c.len() ==> no_newline(#[trigger] c[k]),
    ensures
        prefix + spec_continued(spec_join_newline(c) + seq!['\n']) == spec_join_newline(
            command_lines(prefix, c),
        ) + seq!['\n'],
    decreases c.len(),
{
    let cl = command_lines(prefix, c);
    assert(no_newline(c[0]));
    if c.len() == 1 {
        assert(spec_join_newline(c) == c[0]);
        lemma_continued_line(c[0], Seq::empty());
        assert(c[0] + seq!['\n'] + Seq::<char>::empty() =~= c[0] + seq!['\n']);
        assert(spec_continued(Seq::<char>::empty()) =~= Seq::<char>::empty());
        assert(spec_join_newline(cl) == cl[0]);
        assert(prefix + (c[0] + seq!['\n'] + Seq::<char>::empty()) =~= cl[0] + seq!['\n']);
    } else {
        let rest = c.drop_first();
        lemma_join_front(c);
        let r = spec_join_newline(rest) + seq!['\n'];
        assert(spec_join_newline(c) + seq!['\n'] =~= c[0] + seq!['\n'] + r);
        lemma_continued_line(c[0], r);
        assert forall|k: int| 0 <= k < rest.len() implies no_newline(#[trigger] rest[k]) by {
            assert(rest[k] == c[k + 1]);
        }
        lemma_expression_lines(seq!['>', ' '], rest);
        let rl = command_lines(seq!['>', ' '], rest);
        // the command lines: the first, then those of the rest
        assert(cl.drop_first() =~= rl);
        lemma_join_front(cl);
        assert(prefix + spec_continued(spec_join_newline(c) + seq!['\n']) =~= (prefix + c[0])
            + seq!['\n'] + (seq!['>', ' '] + spec_continued(r)));
        assert(cl[0] == prefix + c[0]);
    }
}

/// The originals of the expectations.
pub open spec fn originals_of(es: Seq<Expectation>) -> Seq<Seq<char>> {
    Seq::new(es.len(), |j: int| es[j].original@)
}

proof fn lemma_originals(es: Seq<Expectation>)
    requires
        es.len() >= 1,
        forall|j: int| 0 <= j < es.len() ==> no_newline(#[trigger] es[j].original@),
    ensures
        spec_originals(es) == spec_join_newline(originals_of(es)) + seq!['\n'],
    decreases es.len(),
{
    let o = es.last().original@;
    assert(no_newline(es[es.len() - 1].original@));
    if o.len() > 0 {
        assert(o.last() != '\n') by {
            assert(o[o.len() - 1] == o.last());
        }
    }
    assert(spec_assure_newline(o, '\n') == o.push('\n'));
    let init = es.drop_last();
    if es.len() == 1 {
        assert(spec_originals(init) =~= Seq::<char>::empty());
        assert(spec_join_newline(originals_of(es)) == originals_of(es)[0]);
        assert(Seq::<char>::empty() + o.push('\n') =~= o + seq!['\n']);
    } else {
        assert forall|j: int| 0 <= j < init.len() implies no_newline(#[trigger] init[j].original@) by {
            assert(init[j] == es[j]);
        }
        lemma_originals(init);
        assert(originals_of(es).drop_last() =~= originals_of(init));
        assert(originals_of(es).last() == o);
        assert(spec_join_newline(originals_of(es)) == spec_join_newline(originals_of(init))
            + seq!['\n'] + o);
        assert(spec_join_newline(originals_of(init)) + seq!['\n'] + o.push('\n') =~= spec_join_newline(
            originals_of(init),
        ) + seq!['\n'] + o + seq!['\n']);
    }
}

/// Two texts of joined lines, each ended by a line feed, one after the
/// other, are the lines of both joined and ended by a line feed.
pub proof fn lemma_join_concat(a: Seq<Seq<char>>, b: Seq<Seq<char>>)
    requires
        a.len() >= 1,
        b.len() >= 1,
    ensures
        (spec_join_newline(a) + seq!['\n']) + (spec_join_newline(b) + seq!['\n']) == spec_join_newline(
            a + b,
        ) + seq!['\n'],
    decreases b.len(),
{
    let ab = a + b;
    if b.len() == 1 {
        assert(spec_join_newline(b) == b[0]);
        assert(ab.drop_last() =~= a);
        assert(ab.last() == b[0]);
        assert(spec_join_newline(ab) == spec_join_newline(a) + seq!['\n'] + b[0]);
        assert((spec_join_newline(a) + seq!['\n']) + (b[0] + seq!['\n']) =~= spec_join_newline(a)
            + seq!['\n'] + b[0] + seq!['\n']);
    } else {
        let bi = b.drop_last();
        lemma_join_concat(a, bi);
        assert(ab.drop_last() =~= a + bi);
        assert(ab.last() == b.last());
        assert(spec_join_newline(ab) == spec_join_newline(a + bi) + seq!['\n'] + b.last());
        assert(spec_join_newline(b) == spec_join_newline(bi) + seq!['\n'] + b.last());
        assert((spec_join_newline(a) + seq!['\n']) + (spec_join_newline(b) + seq!['\n'])
            =~= ((spec_join_newline(a) + seq!['\n']) + (spec_join_newline(bi) + seq!['\n']))
            + b.last() + seq!['\n']);
        assert(spec_join_newline(a + bi) + seq!['\n'] + b.last() + seq!['\n'] =~= spec_join_newline(
            ab,
        ) + seq!['\n']);
    }
}

/// Joined lines whose last line ends in no whitespace lose only their final
/// line feed to trimming.
proof fn lemma_trim_end_join(ls: Seq<Seq<char>>)
    requires
        ls.len() >= 1,
        ls.last().len() > 0,
        !spec_is_whitespace(ls.last().last()),
    ensures
        spec_trim_end(spec_join_newline(ls) + seq!['\n']) == spec_join_newline(ls),
{
    let j = spec_join_newline(ls);
    let x = j + seq!['\n'];
    assert(x.drop_last() =~= j);
    assert(spec_is_whitespace(x.last()));
    if ls.len() == 1 {
        assert(j == ls[0]);
    } else {
        assert(j == spec_join_newline(ls.drop_last()) + seq!['\n'] + ls.last());
    }
    assert(j.len() > 0 && j.last() == ls.last().last());
    assert(spec_trim_end(x) == spec_trim_end(x.drop_last()));
    assert(spec_trim_end(j) == j);
}

proof fn lemma_indent_after_plain(ind: Seq<char>, a: Seq<char>, rest: Seq<char>)
    requires
        no_newline(a),
    ensures
        spec_indent_after(ind, a + rest) == a + spec_indent_after(ind, rest),
    decreases a.len(),
{
    if a.len() == 0 {
        assert(a + rest =~= rest);
        assert(a + spec_indent_after(ind, rest) =~= spec_indent_after(ind, rest));
    } else {
        assert(a[0] != '\n') by {
            if a[0] == '\n' {
                assert(a.contains('\n'));
            }
        }
        let a1 = a.drop_first();
        assert(!a1.contains('\n')) by {
            if a1.contains('\n') {
                let k = choose|k: int| 0 <= k < a1.len() && a1[k] == '\n';
                assert(a[k + 1] == '\n');
            }
        }
        assert((a + rest)[0] == a[0]);
        assert((a + rest).drop_first() =~= a1 + rest);
        lemma_indent_after_plain(ind, a1, rest);
        assert(seq![a[0]] + (a1 + spec_indent_after(ind, rest)) =~= a + spec_indent_after(ind, rest));
    }
}

/// Indenting joined lines: the indention before the first, and after every
/// line feed, is every line indented.
pub proof fn lemma_indent_join(ind: Seq<char>, ls: Seq<Seq<char>>)
    requires
        ls.len() >= 1,
        forall|k: int| 0 <= k < ls.len() ==> no_newline(#[trigger] ls[k]),
    ensures
        ind + spec_indent_after(ind, spec_join_newline(ls)) == spec_join_newline(
            Seq::new(ls.len(), |k: int| ind + ls[k]),
        ),
    decreases ls.len(),
{
    let il = Seq::new(ls.len(), |k: int| ind + ls[k]);
    assert(no_newline(ls[0]));
    if ls.len() == 1 {
        assert(spec_join_newline(ls) == ls[0]);
        lemma_indent_after_plain(ind, ls[0], Seq::empty());
        assert(ls[0] + Seq::<char>::empty() =~= ls[0]);
        assert(spec_indent_after(ind, Seq::<char>::empty()) =~= Seq::<char>::empty());
        assert(spec_join_newline(il) == il[0]);
    } else {
        let rest = ls.drop_first();
        lemma_join_front(ls);
        let r = spec_join_newline(rest);
        assert(spec_join_newline(ls) =~= ls[0] + (seq!['\n'] + r));
        lemma_indent_after_plain(ind, ls[0], seq!['\n'] + r);
        assert((seq!['\n'] + r)[0] == '\n');
        assert((seq!['\n'] + r).drop_first() =~= r);
        assert(spec_indent_after(ind, seq!['\n'] + r) == seq!['\n'] + ind + spec_indent_after(ind, r));
        assert forall|k: int| 0 <= k < rest.len() implies no_newline(#[trigger] rest[k]) by {
            assert(rest[k] == ls[k + 1]);
        }
        lemma_indent_join(ind, rest);
        let rl = Seq::new(rest.len(), |k: int| ind + rest[k]);
        assert(il.drop_first() =~= rl);
        lemma_join_front(il);
        assert(ind + spec_indent_after(ind, spec_join_newline(ls)) =~= (ind + ls[0]) + seq!['\n']
            + (ind + spec_indent_after(ind, r)));
    }
}

/// The exit code that a generated test case states: a non-zero exit code
/// of the output, none otherwise.
pub open spec fn generated_exit_code(status: ExitStatus) -> Option<i32> {
    match status {
        ExitStatus::Code(c) => if c != 0 {
            Some(c)
        } else {
            None
        },
        _ => None,
    }
}

/// The unindented lines of the body of a test case generated from a
/// passing outcome: the command lines, the original expectation lines, and
/// the exit code line if there is one.
pub open spec fn generated_lines(
    command: Seq<Seq<char>>,
    es: Seq<Expectation>,
    code: Option<i32>,
) -> Seq<Seq<char>> {
    command_lines(seq!['$', ' '], command) + originals_of(es) + code_lines(code)
}

/// Appending an empty text, or one made of lines, keeps the form of lines
/// joined and ended by a line feed.
proof fn lemma_append_lines(a: Seq<Seq<char>>, b: Seq<Seq<char>>, bt: Seq<char>)
    requires
        a.len() >= 1,
        bt == if b.len() == 0 {
            Seq::<char>::empty()
        } else {
            spec_join_newline(b) + seq!['\n']
        },
    ensures
        (spec_join_newline(a) + seq!['\n']) + bt == spec_join_newline(a + b) + seq!['\n'],
{
    if b.len() == 0 {
        assert(a + b =~= a);
        assert((spec_join_newline(a) + seq!['\n']) + bt =~= spec_join_newline(a) + seq!['\n']);
    } else {
        lemma_join_concat(a, b);
    }
}

proof fn lemma_expression_part(expression: Seq<char>, command: Seq<Seq<char>>)
    requires
        command.len() >= 1,
        forall|k: int| 0 <= k < command.len() ==> no_newline(#[trigger] command[k]),
        command.last().len() > 0,
        expression == spec_join_newline(command),
    ensures
        spec_expression_block(expression) == spec_join_newline(command_lines(seq!['$', ' '], command))
            + seq!['\n'],
{
    let j = spec_join_newline(command);
    if command.len() == 1 {
        assert(j == command[0]);
    } else {
        assert(j == spec_join_newline(command.drop_last()) + seq!['\n'] + command.last());
    }
    assert(j.len() > 0 && j.last() == command.last().last());
    assert(command.last().last() != '\n') by {
        assert(no_newline(command[command.len() - 1]));
        let l = command.last();
        assert(l[l.len() - 1] == l.last());
    }
    assert(spec_assure_newline(j, '\n') == j + seq!['\n']);
    lemma_expression_lines(seq!['$', ' '], command);
}

/// The lines of the exit code of a generated test case.
pub open spec fn code_lines(code: Option<i32>) -> Seq<Seq<char>> {
    match code {
        Some(c) => seq![seq!['['] + spec_decimal(c as nat) + seq![']']],
        None => Seq::empty(),
    }
}

/// Lines joined and ended by a line feed; nothing for no lines.
pub open spec fn lines_text(ls: Seq<Seq<char>>) -> Seq<char> {
    if ls.len() == 0 {
        Seq::empty()
    } else {
        spec_join_newline(ls) + seq!['\n']
    }
}

proof fn lemma_code_part(status: ExitStatus)
    requires
        generated_exit_code(status) matches Some(c) ==> c > 0,
    ensures
        spec_exit_code_line(status) == lines_text(code_lines(generated_exit_code(status))),
{
    let code = generated_exit_code(status);
    let kl = code_lines(code);
    if let Some(c) = code {
        assert(spec_join_newline(kl) == kl[0]);
        assert(spec_int_decimal(c as int) == spec_decimal(c as nat));
        assert(spec_exit_code_line(status) =~= lines_text(kl));
    } else {
        assert(spec_exit_code_line(status) =~= lines_text(kl));
    }
}

proof fn lemma_originals_part(es: Seq<Expectation>)
    requires
        forall|j: int| 0 <= j < es.len() ==> no_newline(#[trigger] es[j].original@),
    ensures
        spec_originals(es) == lines_text(originals_of(es)),
{
    if es.len() == 0 {
        assert(spec_originals(es) =~= Seq::<char>::empty());
        assert(originals_of(es) =~= Seq::<Seq<char>>::empty());
    } else {
        lemma_originals(es);
    }
}

/// The body of a test case generated from a passing outcome is its lines
/// joined and ended by a line feed.
proof fn lemma_generated_body(o: Outcome, command: Seq<Seq<char>>)
    requires
        o.result is Ok,
        command.len() >= 1,
        forall|k: int| 0 <= k < command.len() ==> no_newline(#[trigger] command[k]),
        command.last().len() > 0,
        o.testcase.shell_expression@ == spec_join_newline(command),
        forall|j: int|
            0 <= j < o.testcase.expectations@.len() ==> no_newline(
                #[trigger] o.testcase.expectations@[j].original@,
            ),
        generated_exit_code(o.output.exit_code) matches Some(c) ==> c > 0,
    ensures
        spec_generate_testcase(o) == Ok::<Seq<char>, Seq<char>>(
            spec_join_newline(
                generated_lines(command, o.testcase.expectations@, generated_exit_code(o.output.exit_code)),
            ) + seq!['\n'],
        ),
{
    let es = o.testcase.expectations@;
    let code = generated_exit_code(o.output.exit_code);
    let cl = command_lines(seq!['$', ' '], command);
    lemma_expression_part(o.testcase.shell_expression@, command);
    lemma_originals_part(es);
    lemma_code_part(o.output.exit_code);
    let ol = originals_of(es);
    let kl = code_lines(code);
    lemma_append_lines(cl, ol, lines_text(ol));
    lemma_append_lines(cl + ol, kl, lines_text(kl));
    assert(cl + ol + kl =~= generated_lines(command, es, code));
}

/// A Cram document generated from one passing outcome reads back as its
/// test case: the title, the shell expression, the expectations, and the
/// non-zero exit code of the output. The title must be a plain line that is
/// no comment and not indented; the shell expression must be plain lines,
/// the last not empty; each expectation must read back from its original,
/// which must be a plain line that reads as an expectation in a Cram body;
/// the exit code must not be negative; and the last line of the body must
/// not end in whitespace (generation trims it).
pub proof fn law_generated_cram_document_reads_back(
    indention: nat,
    o: Outcome,
    command: Seq<Seq<char>>,
)
    requires
        indention > 0,
        o.result is Ok,
        o.testcase.title@.len() > 0,
        !spec_is_comment(o.testcase.title@),
        !spec_is_indented(o.testcase.title@, indention),
        is_plain_line(o.testcase.title@),
        command.len() >= 1,
        forall|k: int| 0 <= k < command.len() ==> is_plain_line(#[trigger] command[k]),
        command.last().len() > 0,
        o.testcase.shell_expression@ == spec_join_newline(command),
        forall|j: int|
            0 <= j < o.testcase.expectations@.len() ==> {
                let orig = (#[trigger] o.testcase.expectations@[j]).original@;
                &&& is_plain_line(orig)
                &&& cram_expectation_line_ok(orig, false)
                &&& spec_parse_expectation(orig) == Some(o.testcase.expectations@[j]@)
            },
        o.testcase.expectations@.len() > 0 ==> !starts_with_two(
            o.testcase.expectations@[0].original@,
            '>',
            ' ',
        ),
        generated_exit_code(o.output.exit_code) matches Some(c) ==> c > 0,
        ({
            let last = generated_lines(
                command,
                o.testcase.expectations@,
                generated_exit_code(o.output.exit_code),
            ).last();
            last.len() > 0 && !spec_is_whitespace(last.last())
        }),
    ensures
        spec_cram_document(indention, seq![o]) matches Ok(text) && spec_cram_parse(text, indention)
            matches Ok(s) && s.testcases == seq![
            TestCaseView {
                title: o.testcase.title@,
                shell_expression: o.testcase.shell_expression@,
                expectations: expectations_view(o.testcase.expectations@),
                exit_code: generated_exit_code(o.output.exit_code),
                line_number: 2,
                config: spec_cram_config(),
            },
        ],
{
    let es = o.testcase.expectations@;
    let code = generated_exit_code(o.output.exit_code);
    let title = o.testcase.title@;
    let ind = spec_spaces(indention);
    let all = generated_lines(command, es, code);
    assert forall|k: int| 0 <= k < command.len() implies no_newline(#[trigger] command[k]) by {
        assert(is_plain_line(command[k]));
    }
    assert forall|j: int| 0 <= j < es.len() implies no_newline(#[trigger] es[j].original@) by {
        assert(is_plain_line(es[j].original@));
    }
    lemma_generated_body(o, command);
    let g = spec_join_newline(all) + seq!['\n'];
    // every line of the body is plain
    assert forall|k: int| 0 <= k < all.len() implies no_newline(#[trigger] all[k]) by {
        generated_line_plain(command, es, code, k);
    }
    // indenting the body
    lemma_trim_end_join(all);
    lemma_indent_join(ind, all);
    let il = Seq::new(all.len(), |k: int| ind + all[k]);
    assert(spec_cram_indented(ind, g) == ind + spec_indent_after(ind, spec_trim_end(g)) + seq!['\n']);
    assert(spec_cram_indented(ind, g) == spec_join_newline(il) + seq!['\n']);
    // the title line before it
    let lines = seq![title] + il;
    lemma_join_front(lines);
    assert(lines.drop_first() =~= il);
    assert(spec_cram_render(indention, o) == Ok::<Seq<char>, Seq<char>>(
        title + seq!['\n'] + spec_cram_indented(ind, g),
    ));
    assert(title + seq!['\n'] + (spec_join_newline(il) + seq!['\n']) =~= spec_join_newline(lines)
        + seq!['\n']);
    // the document of one test case is that test case
    let r = spec_join_newline(lines) + seq!['\n'];
    assert(crate::generators::cram::spec_cram_collect(indention, seq![o], 1) == Ok::<
        Seq<Seq<char>>,
        Seq<char>,
    >(Seq::empty()));
    assert(seq![r] + Seq::<Seq<char>>::empty() =~= seq![r]);
    assert(spec_join_sep(seq![r], seq!['\n', '\n']) == r);
    // the lines are those of a Cram test case
    let originals = originals_of(es);
    lemma_lines_are_body(title, indention, command, es, code);
    assert(lines =~= seq![title] + spec_cram_body_lines(indention, command, originals, code));
    assert forall|k: int| 0 <= k < originals.len() implies cram_expectation_line_ok(
        #[trigger] originals[k],
        false,
    ) by {
        assert(originals[k] == es[k].original@);
    }
    assert forall|k: int| 0 <= k < originals.len() implies is_plain_line(#[trigger] originals[k]) by {
        assert(originals[k] == es[k].original@);
    }
    law_cram_document_reads_back(title, indention, command, originals, code);
    assert(parsed_expectations(originals) =~= expectations_view(es)) by {
        assert forall|k: int| 0 <= k < es.len() implies parsed_expectations(originals)[k]
            == expectations_view(es)[k] by {
            assert(originals[k] == es[k].original@);
        }
    }
}

proof fn lemma_lines_are_body(
    title: Seq<char>,
    indention: nat,
    command: Seq<Seq<char>>,
    es: Seq<Expectation>,
    code: Option<i32>,
)
    requires
        command.len() >= 1,
    ensures
        ({
            let all = generated_lines(command, es, code);
            let ind = spec_spaces(indention);
            seq![title] + Seq::new(all.len(), |k: int| ind + all[k]) == seq![title]
                + spec_cram_body_lines(indention, command, originals_of(es), code)
        }),
{
    let all = generated_lines(command, es, code);
    let ind = spec_spaces(indention);
    let il = Seq::new(all.len(), |k: int| ind + all[k]);
    let body = spec_cram_body_lines(indention, command, originals_of(es), code);
    let cl = command.len();
    let n = cl + es.len();
    assert(body.len() == il.len());
    assert forall|k: int| 0 <= k < il.len() implies il[k] == body[k] by {
        if k == 0 {
            assert(il[k] =~= body[k]);
        } else if k < cl {
            assert(il[k] =~= body[k]);
        } else if k < n {
            assert(il[k] =~= body[k]);
        } else {
            assert(il[k] =~= body[k]);
        }
    }
    assert(il =~= body);
}

proof fn generated_line_plain(command: Seq<Seq<char>>, es: Seq<Expectation>, code: Option<i32>, k: int)
    requires
        forall|i: int| 0 <= i < command.len() ==> no_newline(#[trigger] command[i]),
        forall|j: int| 0 <= j < es.len() ==> no_newline(#[trigger] es[j].original@),
        0 <= k < generated_lines(command, es, code).len(),
    ensures
        no_newline(generated_lines(command, es, code)[k]),
{
    let all = generated_lines(command, es, code);
    let cl = command_lines(seq!['$', ' '], command);
    let n = cl.len() + es.len();
    if k < cl.len() {
        let p = if k == 0 {
            seq!['$', ' ']
        } else {
            seq!['>', ' ']
        };
        assert(all[k] == p + command[k]);
        assert(no_newline(command[k]));
        if all[k].contains('\n') {
            let i = choose|i: int| 0 <= i < all[k].len() && all[k][i] == '\n';
            if i >= 2 {
                assert(command[k][i - 2] == '\n');
                assert(command[k].contains('\n'));
            }
        }
    } else if k < n {
        assert(all[k] == es[k - cl.len()].original@);
    } else {
        let c = code->0;
        let l = seq!['['] + spec_decimal(c as nat) + seq![']'];
        assert(all[k] == l);
        if l.contains('\n') {
            let i = choose|i: int| 0 <= i < l.len() && l[i] == '\n';
            crate::parsers::cram_laws::lemma_decimal_digits_pub(c as nat);
            if 0 < i < l.len() - 1 {
                assert(l[i] == spec_decimal(c as nat)[i - 1]);
            }
        }
    }
}

} // verus!
