//! What a test case written in Cram syntax reads back as.
use vstd::prelude::*;

use crate::config::spec_cram_config;
use crate::expectation::{spec_parse_expectation, ExpectationView};
use crate::generators::cram::spec_spaces;
use crate::parsers::cram::{spec_cram_from, spec_cram_parse, spec_is_indented};
use crate::parsers::line_parser::{
    spec_digits_value, spec_exit_code, spec_is_comment, spec_new_parser, LineParserView,
};
use crate::testcase::TestCaseView;
use crate::text::{lemma_find_char_bounds, spec_decimal, spec_find_char, spec_join_newline, spec_str_lines};

verus! {

/// The lines of a test case body in Cram syntax, each indented: the first
/// command line after `$ `, each further one after `> `, the expectation
/// lines, and the exit code in brackets if one is given.
pub open spec fn spec_cram_body_lines(
    indention: nat,
    command: Seq<Seq<char>>,
    expectations: Seq<Seq<char>>,
    exit_code: Option<i32>,
) -> Seq<Seq<char>> {
    let ind = spec_spaces(indention);
    seq![ind + seq!['$', ' '] + command[0]] + Seq::new(
        (command.len() - 1) as nat,
        |k: int| ind + seq!['>', ' '] + command[k + 1],
    ) + Seq::new(expectations.len(), |k: int| ind + expectations[k]) + match exit_code {
        Some(c) => seq![ind + seq!['['] + spec_decimal(c as nat) + seq![']']],
        None => Seq::empty(),
    }
}

/// Whether the text starts with the two characters.
pub open spec fn starts_with_two(s: Seq<char>, a: char, b: char) -> bool {
    s.len() >= 2 && s[0] == a && s[1] == b
}

/// Whether an expectation line reads back as an expectation in a Cram
/// body: it does not start a command, does not continue one (where it
/// directly follows the command), is no exit code, and parses.
pub open spec fn cram_expectation_line_ok(e: Seq<char>, first: bool) -> bool {
    &&& !starts_with_two(e, '$', ' ')
    &&& first ==> !starts_with_two(e, '>', ' ')
    &&& spec_exit_code(e) is None
    &&& spec_parse_expectation(e) is Some
}

proof fn lemma_indented(indention: nat, rest: Seq<char>)
    ensures
        spec_is_indented(spec_spaces(indention) + rest, indention),
        (spec_spaces(indention) + rest).skip(indention as int) == rest,
        indention > 0 ==> !spec_is_comment(spec_spaces(indention) + rest),
        indention > 0 ==> (spec_spaces(indention) + rest).len() > 0,
{
    let l = spec_spaces(indention) + rest;
    assert forall|i: int| 0 <= i < indention implies #[trigger] l[i] == ' ' by {
        assert(l[i] == spec_spaces(indention)[i]);
    }
    assert(l.skip(indention as int) =~= rest);
    if indention > 0 {
        assert(l[0] == ' ');
    }
}

/// Continuation lines add their text to the command.
proof fn lemma_cram_continuations(
    s: LineParserView,
    lines: Seq<Seq<char>>,
    i: int,
    indention: nat,
    cs: Seq<Seq<char>>,
)
    requires
        indention > 0,
        0 <= i,
        i + cs.len() <= lines.len(),
        forall|j: int|
            i <= j < i + cs.len() ==> #[trigger] lines[j] == spec_spaces(indention) + seq!['>', ' ']
                + cs[j - i],
        s.in_command,
        s.command.len() > 0,
    ensures
        spec_cram_from(s, lines, i, indention) == spec_cram_from(
            LineParserView { command: s.command + cs, config: if cs.len() > 0 {
                Some(spec_cram_config())
            } else {
                s.config
            }, ..s },
            lines,
            i + cs.len(),
            indention,
        ),
    decreases cs.len(),
{
    if cs.len() == 0 {
        assert(s.command + cs =~= s.command);
    } else {
        let line = lines[i];
        assert(line == spec_spaces(indention) + seq!['>', ' '] + cs[0]);
        assert(line =~= spec_spaces(indention) + (seq!['>', ' '] + cs[0]));
        lemma_indented(indention, seq!['>', ' '] + cs[0]);
        assert((seq!['>', ' '] + cs[0]).skip(2) =~= cs[0]);
        let s1 = LineParserView {
            command: s.command.push(cs[0]),
            config: Some(spec_cram_config()),
            ..s
        };
        let rest = cs.drop_first();
        assert forall|j: int| i + 1 <= j < i + 1 + rest.len() implies #[trigger] lines[j]
            == spec_spaces(indention) + seq!['>', ' '] + rest[j - (i + 1)] by {
            assert(rest[j - (i + 1)] == cs[j - i]);
        }
        lemma_cram_continuations(s1, lines, i + 1, indention, rest);
        assert(s.command.push(cs[0]) + rest =~= s.command + cs);
    }
}

/// The expectations that the lines parse to.
pub open spec fn parsed_expectations(es: Seq<Seq<char>>) -> Seq<ExpectationView> {
    Seq::new(es.len(), |k: int| spec_parse_expectation(es[k])->0)
}

/// Expectation lines add the expectations they parse to.
proof fn lemma_cram_expectations(
    s: LineParserView,
    lines: Seq<Seq<char>>,
    i: int,
    indention: nat,
    es: Seq<Seq<char>>,
)
    requires
        indention > 0,
        0 <= i,
        i + es.len() <= lines.len(),
        forall|j: int|
            i <= j < i + es.len() ==> #[trigger] lines[j] == spec_spaces(indention) + es[j - i],
        forall|k: int| 0 <= k < es.len() ==> cram_expectation_line_ok(#[trigger] es[k], false),
        es.len() > 0 && s.in_command ==> !starts_with_two(es[0], '>', ' '),
    ensures
        spec_cram_from(s, lines, i, indention) == spec_cram_from(
            LineParserView {
                expectations: s.expectations + parsed_expectations(es),
                in_command: if es.len() > 0 {
                    false
                } else {
                    s.in_command
                },
                config: if es.len() > 0 {
                    Some(spec_cram_config())
                } else {
                    s.config
                },
                ..s
            },
            lines,
            i + es.len(),
            indention,
        ),
    decreases es.len(),
{
    if es.len() == 0 {
        assert(s.expectations + parsed_expectations(es) =~= s.expectations);
    } else {
        let e = es[0];
        assert(cram_expectation_line_ok(e, false));
        let line = lines[i];
        assert(line == spec_spaces(indention) + e);
        lemma_indented(indention, e);
        let v = spec_parse_expectation(e)->0;
        let s1 = LineParserView {
            expectations: s.expectations.push(v),
            in_command: false,
            config: Some(spec_cram_config()),
            ..s
        };
        let rest = es.drop_first();
        assert forall|j: int| i + 1 <= j < i + 1 + rest.len() implies #[trigger] lines[j]
            == spec_spaces(indention) + rest[j - (i + 1)] by {
            assert(rest[j - (i + 1)] == es[j - i]);
        }
        assert forall|k: int| 0 <= k < rest.len() implies cram_expectation_line_ok(
            #[trigger] rest[k],
            false,
        ) by {
            assert(rest[k] == es[k + 1]);
        }
        lemma_cram_expectations(s1, lines, i + 1, indention, rest);
        assert(s.expectations.push(v) + parsed_expectations(rest) =~= s.expectations
            + parsed_expectations(es));
    }
}

proof fn lemma_decimal_value(n: nat)
    ensures
        spec_decimal(n).len() >= 1,
        forall|i: int| 0 <= i < spec_decimal(n).len() ==> '0' <= #[trigger] spec_decimal(n)[i] <= '9',
        spec_digits_value(spec_decimal(n)) == n,
    decreases n,
{
    let d = spec_decimal(n);
    if n >= 10 {
        lemma_decimal_value(n / 10);
        assert(d.drop_last() =~= spec_decimal(n / 10));
        assert(d.last() == crate::text::digit_char(n % 10));
        assert(n == (n / 10) * 10 + n % 10);
        assert(spec_digits_value(d) == spec_digits_value(d.drop_last()) * 10 + ((d.last() as nat) - 48) as nat);
    } else {
        assert(d.drop_last() =~= Seq::<char>::empty());
        assert(spec_digits_value(d.drop_last()) == 0);
        assert(spec_digits_value(d) == spec_digits_value(d.drop_last()) * 10 + ((d.last() as nat) - 48) as nat);
    }
}

/// The decimal notation of a number is made of digits.
pub proof fn lemma_decimal_digits_pub(n: nat)
    ensures
        forall|i: int| 0 <= i < spec_decimal(n).len() ==> '0' <= #[trigger] spec_decimal(n)[i] <= '9',
{
    lemma_decimal_value(n);
}

proof fn lemma_exit_code_line(c: i32)
    requires
        c >= 0,
    ensures
        spec_exit_code(seq!['['] + spec_decimal(c as nat) + seq![']']) == Some(c),
{
    let d = spec_decimal(c as nat);
    lemma_decimal_value(c as nat);
    let l = seq!['['] + d + seq![']'];
    assert(l.subrange(1, l.len() - 1) =~= d);
    assert(l.last() == ']');
    assert(l[0] == '[');
}

/// Where the parts of a test case in Cram syntax stand among its lines.
proof fn lemma_layout(
    title: Seq<char>,
    indention: nat,
    command: Seq<Seq<char>>,
    expectations: Seq<Seq<char>>,
    exit_code: Option<i32>,
)
    requires
        command.len() >= 1,
    ensures
        ({
            let ind = spec_spaces(indention);
            let lines = seq![title] + spec_cram_body_lines(indention, command, expectations, exit_code);
            let cl = command.len() - 1;
            let el = expectations.len() as int;
            &&& lines.len() == 2 + cl + el + if exit_code is Some {
                1int
            } else {
                0int
            }
            &&& lines[0] == title
            &&& lines[1] == ind + (seq!['$', ' '] + command[0])
            &&& forall|j: int|
                2 <= j < 2 + cl ==> #[trigger] lines[j] == ind + seq!['>', ' '] + command.drop_first()[j
                    - 2]
            &&& forall|j: int|
                2 + cl <= j < 2 + cl + el ==> #[trigger] lines[j] == ind + expectations[j - (2 + cl)]
            &&& exit_code matches Some(c) ==> lines[2 + cl + el] == ind + (seq!['['] + spec_decimal(
                c as nat,
            ) + seq![']'])
        }),
{
    let ind = spec_spaces(indention);
    let body = spec_cram_body_lines(indention, command, expectations, exit_code);
    let lines = seq![title] + body;
    let cl = command.len() - 1;
    let el = expectations.len() as int;
    let conts = Seq::new(cl as nat, |k: int| ind + seq!['>', ' '] + command[k + 1]);
    let exps = Seq::new(el as nat, |k: int| ind + expectations[k]);
    let code_lines = match exit_code {
        Some(c) => seq![ind + seq!['['] + spec_decimal(c as nat) + seq![']']],
        None => Seq::<Seq<char>>::empty(),
    };
    assert(body == seq![ind + seq!['$', ' '] + command[0]] + conts + exps + code_lines);
    assert(lines[1] == ind + seq!['$', ' '] + command[0]);
    assert(ind + seq!['$', ' '] + command[0] =~= ind + (seq!['$', ' '] + command[0]));
    assert forall|j: int| 2 <= j < 2 + cl implies #[trigger] lines[j] == ind + seq!['>', ' ']
        + command.drop_first()[j - 2] by {
        assert(lines[j] == conts[j - 2]);
    }
    assert forall|j: int| 2 + cl <= j < 2 + cl + el implies #[trigger] lines[j] == ind
        + expectations[j - (2 + cl)] by {
        assert(lines[j] == exps[j - (2 + cl)]);
    }
    if let Some(c) = exit_code {
        assert(lines[2 + cl + el] == code_lines[0]);
        assert(ind + seq!['['] + spec_decimal(c as nat) + seq![']'] =~= ind + (seq!['['] + spec_decimal(
            c as nat,
        ) + seq![']']));
    }
}

/// The title line and the first command line.
proof fn lemma_head(title: Seq<char>, indention: nat, cmd0: Seq<char>, lines: Seq<Seq<char>>)
    requires
        indention > 0,
        title.len() > 0,
        !spec_is_comment(title),
        !spec_is_indented(title, indention),
        lines.len() >= 2,
        lines[0] == title,
        lines[1] == spec_spaces(indention) + (seq!['$', ' '] + cmd0),
    ensures
        spec_cram_from(spec_new_parser(true), lines, 0, indention) == spec_cram_from(
            LineParserView {
                title: Some(title),
                in_command: true,
                output_start_index: Some(1),
                command: seq![cmd0],
                config: Some(spec_cram_config()),
                ..spec_new_parser(true)
            },
            lines,
            2,
            indention,
        ),
{
    let first = seq!['$', ' '] + cmd0;
    lemma_indented(indention, first);
    assert(first.skip(2) =~= cmd0);
    let s1 = LineParserView { title: Some(title), ..spec_new_parser(true) };
    assert(spec_cram_from(spec_new_parser(true), lines, 0, indention) == spec_cram_from(
        s1,
        lines,
        1,
        indention,
    ));
}

/// The exit code line, if any, and the end of the document.
proof fn lemma_end(s: LineParserView, lines: Seq<Seq<char>>, i: int, indention: nat, exit_code: Option<i32>)
    requires
        indention > 0,
        0 <= i,
        s.command.len() > 0,
        s.exit_code is None,
        s.testcases.len() == 0,
        s.config == Some(spec_cram_config()),
        lines.len() == i + if exit_code is Some {
            1int
        } else {
            0int
        },
        exit_code matches Some(c) ==> c >= 0 && lines[i] == spec_spaces(indention) + (seq!['[']
            + spec_decimal(c as nat) + seq![']']),
    ensures
        spec_cram_from(s, lines, i, indention) matches Ok(r) && r.testcases == seq![
            TestCaseView {
                title: match s.title {
                    Some(t) => t,
                    None => Seq::empty(),
                },
                shell_expression: spec_join_newline(s.command),
                expectations: s.expectations,
                exit_code,
                line_number: match s.output_start_index {
                    Some(k) => k,
                    None => lines.len() as int,
                } + 1,
                config: spec_cram_config(),
            },
        ],
{
    if let Some(c) = exit_code {
        let cline = seq!['['] + spec_decimal(c as nat) + seq![']'];
        lemma_indented(indention, cline);
        lemma_exit_code_line(c);
        assert(cline[0] == '[');
        let s1 = LineParserView { in_command: false, exit_code: Some(c), ..s };
        assert(spec_cram_from(s, lines, i, indention) == spec_cram_from(s1, lines, i + 1, indention));
    }
}

/// A test case written in Cram syntax (a title line, then an indented body
/// of command lines, expectation lines and maybe an exit code) reads back as
/// that test case: the title, the command lines joined, the expectations
/// that the lines parse to, and the exit code. The title must be no comment
/// and not indented; expectation lines must not read as command lines,
/// continuations or exit codes, and must parse; the exit code must not be
/// negative (its line would read as an expectation).
pub proof fn law_cram_testcase_reads_back(
    title: Seq<char>,
    indention: nat,
    command: Seq<Seq<char>>,
    expectations: Seq<Seq<char>>,
    exit_code: Option<i32>,
)
    requires
        indention > 0,
        title.len() > 0,
        !spec_is_comment(title),
        !spec_is_indented(title, indention),
        command.len() >= 1,
        forall|k: int|
            0 <= k < expectations.len() ==> cram_expectation_line_ok(#[trigger] expectations[k], false),
        expectations.len() > 0 ==> !starts_with_two(expectations[0], '>', ' '),
        exit_code matches Some(c) ==> c >= 0,
    ensures
        spec_cram_from(
            spec_new_parser(true),
            seq![title] + spec_cram_body_lines(indention, command, expectations, exit_code),
            0,
            indention,
        ) matches Ok(s) && s.testcases == seq![
            TestCaseView {
                title,
                shell_expression: spec_join_newline(command),
                expectations: parsed_expectations(expectations),
                exit_code,
                line_number: 2,
                config: spec_cram_config(),
            },
        ],
{
    let lines = seq![title] + spec_cram_body_lines(indention, command, expectations, exit_code);
    let cl = command.len() - 1;
    let el = expectations.len() as int;
    lemma_layout(title, indention, command, expectations, exit_code);
    lemma_head(title, indention, command[0], lines);
    let s2 = LineParserView {
        title: Some(title),
        in_command: true,
        output_start_index: Some(1),
        command: seq![command[0]],
        config: Some(spec_cram_config()),
        ..spec_new_parser(true)
    };
    let cs = command.drop_first();
    lemma_cram_continuations(s2, lines, 2, indention, cs);
    assert(seq![command[0]] + cs =~= command);
    let s3 = LineParserView { command, ..s2 };
    lemma_cram_expectations(s3, lines, 2 + cl, indention, expectations);
    assert(s3.expectations + parsed_expectations(expectations) =~= parsed_expectations(expectations));
    let s4 = LineParserView {
        expectations: parsed_expectations(expectations),
        in_command: if el > 0 {
            false
        } else {
            true
        },
        ..s3
    };
    lemma_end(s4, lines, 2 + cl + el, indention, exit_code);
}

/// Whether a text can stand as one line: it holds no line feed and does not
/// end in a carriage return.
pub open spec fn is_plain_line(l: Seq<char>) -> bool {
    !l.contains('\n') && !(l.len() > 0 && l.last() == '\r')
}

pub proof fn lemma_join_front(ls: Seq<Seq<char>>)
    requires
        ls.len() >= 2,
    ensures
        spec_join_newline(ls) == ls[0] + seq!['\n'] + spec_join_newline(ls.drop_first()),
    decreases ls.len(),
{
    let nl = seq!['\n'];
    if ls.len() > 2 {
        let init = ls.drop_last();
        let tail = ls.drop_first();
        lemma_join_front(init);
        assert(init.drop_first() =~= tail.drop_last());
        assert(tail.last() == ls.last());
        assert(init[0] == ls[0]);
        assert(spec_join_newline(ls) == spec_join_newline(init) + nl + ls.last());
        assert(spec_join_newline(tail) == spec_join_newline(tail.drop_last()) + nl + tail.last());
        assert(spec_join_newline(ls) =~= ls[0] + nl + spec_join_newline(tail));
    } else {
        assert(ls.drop_first() =~= seq![ls[1]]);
        assert(ls.drop_last() =~= seq![ls[0]]);
        assert(spec_join_newline(seq![ls[1]]) == ls[1]);
        assert(spec_join_newline(seq![ls[0]]) == ls[0]);
        assert(spec_join_newline(ls) == spec_join_newline(ls.drop_last()) + nl + ls.last());
    }
}

proof fn lemma_str_lines_first(a: Seq<char>, rest: Seq<char>)
    requires
        is_plain_line(a),
    ensures
        spec_str_lines(a + seq!['\n'] + rest) == seq![a] + spec_str_lines(rest),
{
    let s = a + seq!['\n'] + rest;
    lemma_find_char_bounds(s, '\n', 0);
    assert(s[a.len() as int] == '\n');
    assert forall|j: int| 0 <= j < a.len() implies s[j] != '\n' by {
        assert(s[j] == a[j]);
        if a[j] == '\n' {
            assert(a.contains('\n'));
        }
    }
    assert(spec_find_char(s, '\n', 0) == Some(a.len() as int)) by {
        let k = spec_find_char(s, '\n', 0);
        if k is None {
            assert(s[a.len() as int] != '\n');
        } else {
            assert(k->0 < a.len() ==> s[k->0] != '\n');
            assert(k->0 > a.len() ==> s[a.len() as int] != '\n');
        }
    }
    assert(s.take(a.len() as int) =~= a);
    assert(s.skip(a.len() as int + 1) =~= rest);
    if a.len() > 0 {
        assert(a.last() != '\r');
    }
}

/// Lines that are plain, joined by line feeds and ended by one, split back
/// into those lines.
proof fn lemma_str_lines_join(ls: Seq<Seq<char>>)
    requires
        ls.len() >= 1,
        forall|k: int| 0 <= k < ls.len() ==> is_plain_line(#[trigger] ls[k]),
    ensures
        spec_str_lines(spec_join_newline(ls) + seq!['\n']) == ls,
    decreases ls.len(),
{
    if ls.len() == 1 {
        assert(spec_join_newline(ls) == ls[0]);
        assert(is_plain_line(ls[0]));
        lemma_str_lines_first(ls[0], Seq::empty());
        assert(ls[0] + seq!['\n'] + Seq::<char>::empty() =~= ls[0] + seq!['\n']);
        assert(seq![ls[0]] + Seq::<Seq<char>>::empty() =~= ls);
    } else {
        let rest = ls.drop_first();
        lemma_join_front(ls);
        assert forall|k: int| 0 <= k < rest.len() implies is_plain_line(#[trigger] rest[k]) by {
            assert(rest[k] == ls[k + 1]);
        }
        lemma_str_lines_join(rest);
        assert(is_plain_line(ls[0]));
        lemma_str_lines_first(ls[0], spec_join_newline(rest) + seq!['\n']);
        assert(spec_join_newline(ls) + seq!['\n'] =~= ls[0] + seq!['\n'] + (spec_join_newline(rest)
            + seq!['\n']));
        assert(seq![ls[0]] + rest =~= ls);
    }
}

/// A Cram document of one test case, its lines joined and ended by line
/// feeds, reads back as that test case (see
/// [`law_cram_testcase_reads_back`]), where no title, command or expectation
/// holds a line feed or ends in a carriage return.
pub proof fn law_cram_document_reads_back(
    title: Seq<char>,
    indention: nat,
    command: Seq<Seq<char>>,
    expectations: Seq<Seq<char>>,
    exit_code: Option<i32>,
)
    requires
        indention > 0,
        title.len() > 0,
        !spec_is_comment(title),
        !spec_is_indented(title, indention),
        command.len() >= 1,
        forall|k: int|
            0 <= k < expectations.len() ==> cram_expectation_line_ok(#[trigger] expectations[k], false),
        expectations.len() > 0 ==> !starts_with_two(expectations[0], '>', ' '),
        exit_code matches Some(c) ==> c >= 0,
        is_plain_line(title),
        forall|k: int| 0 <= k < command.len() ==> is_plain_line(#[trigger] command[k]),
        forall|k: int| 0 <= k < expectations.len() ==> is_plain_line(#[trigger] expectations[k]),
    ensures
        spec_cram_parse(
            spec_join_newline(
                seq![title] + spec_cram_body_lines(indention, command, expectations, exit_code),
            ) + seq!['\n'],
            indention,
        ) matches Ok(s) && s.testcases == seq![
            TestCaseView {
                title,
                shell_expression: spec_join_newline(command),
                expectations: parsed_expectations(expectations),
                exit_code,
                line_number: 2,
                config: spec_cram_config(),
            },
        ],
{
    let lines = seq![title] + spec_cram_body_lines(indention, command, expectations, exit_code);
    let ind = spec_spaces(indention);
    let cl = command.len() - 1;
    let el = expectations.len() as int;
    lemma_layout(title, indention, command, expectations, exit_code);
    assert forall|k: int| 0 <= k < lines.len() implies is_plain_line(#[trigger] lines[k]) by {
        if k == 0 {
        } else if k == 1 {
            lemma_plain_prefixed(indention, seq!['$', ' '], command[0]);
        } else if k < 2 + cl {
            assert(command.drop_first()[k - 2] == command[k - 1]);
            assert(lines[k] =~= ind + (seq!['>', ' '] + command[k - 1]));
            lemma_plain_prefixed(indention, seq!['>', ' '], command[k - 1]);
        } else if k < 2 + cl + el {
            lemma_plain_prefixed(indention, Seq::empty(), expectations[k - (2 + cl)]);
            assert(Seq::<char>::empty() + expectations[k - (2 + cl)] =~= expectations[k - (2 + cl)]);
        } else {
            let c = exit_code->0;
            lemma_decimal_value(c as nat);
            let cl2 = seq!['['] + spec_decimal(c as nat) + seq![']'];
            assert(!cl2.contains('\n')) by {
                if cl2.contains('\n') {
                    let j = choose|j: int| 0 <= j < cl2.len() && cl2[j] == '\n';
                    if j > 0 && j < cl2.len() - 1 {
                        assert(cl2[j] == spec_decimal(c as nat)[j - 1]);
                    }
                }
            }
            lemma_plain_prefixed(indention, Seq::empty(), cl2);
            assert(Seq::<char>::empty() + cl2 =~= cl2);
        }
    }
    lemma_str_lines_join(lines);
    law_cram_testcase_reads_back(title, indention, command, expectations, exit_code);
}

proof fn lemma_plain_prefixed(indention: nat, p: Seq<char>, l: Seq<char>)
    requires
        indention > 0,
        is_plain_line(l),
        !p.contains('\n'),
        p.len() == 0 || p.last() == ' ' || p.last() == '[',
    ensures
        is_plain_line(spec_spaces(indention) + (p + l)),
{
    let x = spec_spaces(indention) + (p + l);
    assert(!x.contains('\n')) by {
        if x.contains('\n') {
            let j = choose|j: int| 0 <= j < x.len() && x[j] == '\n';
            if j < indention {
                assert(x[j] == ' ');
            } else if j < indention + p.len() {
                assert(x[j] == p[j - indention]);
                assert(p.contains('\n'));
            } else {
                assert(x[j] == l[j - indention - p.len()]);
                assert(l.contains('\n'));
            }
        }
    }
    if l.len() > 0 {
        assert(x.last() == l.last());
    } else if p.len() > 0 {
        assert(x.last() == p.last());
    } else {
        assert(x.last() == ' ');
    }
}

} // verus!
