//! Generation of Markdown documents.
use vstd::prelude::*;

use crate::generators::cram::spec_join_sep;
use crate::generators::outcome::spec_generate_testcase;
use crate::newline::spec_assure_newline;
use crate::outcome::Outcome;
use crate::parsers::markdown::{
    leading_run, numbered_lines_view, spec_blocks_from, spec_leading_run, spec_markdown_tokens,
    strs_view, tokens_view, MarkdownIterator, MarkdownToken, MarkdownTokenView,
};
use crate::text::{
    assure_newline_str, chars_of, decimal_string, push_char, spec_decimal, spec_join_newline,
    spec_str_lines, spec_trim_start, str_lines, strings_view, trim_start,
};

verus! {

broadcast use vstd::string::group_string_axioms;

/// The largest number of backticks that a line of the text starts with,
/// and at least two.
pub open spec fn spec_max_backticks(lines: Seq<Seq<char>>) -> nat
    decreases lines.len(),
{
    if lines.len() == 0 {
        2
    } else {
        let m = spec_max_backticks(lines.drop_last());
        let c = spec_leading_run(lines.last(), '`');
        if c > m {
            c
        } else {
            m
        }
    }
}

/// The given number of backticks.
pub open spec fn spec_backticks(n: nat) -> Seq<char> {
    Seq::new(n, |i: int| '`')
}

/// The fence of a code block that holds the text: one backtick more than
/// any line of the text starts with, and at least three.
pub open spec fn spec_fence(text: Seq<char>) -> Seq<char> {
    spec_backticks(spec_max_backticks(spec_str_lines(text)) + 1)
}

/// Returns the largest number of backticks that a line of the code block
/// starts with, and at least two, so that one more always guards the
/// code block.
pub fn max_backtick_size(code_block: &str) -> (r: usize)
    ensures
        r == spec_max_backticks(spec_str_lines(code_block@)),
{
    let lines = str_lines(code_block);
    let ghost lv = strings_view(lines@);
    let mut max: usize = 2;
    let mut i: usize = 0;
    while i < lines.len()
        invariant
            i <= lines@.len(),
            lv == strings_view(lines@),
            lv == spec_str_lines(code_block@),
            max == spec_max_backticks(lv.take(i as int)),
        decreases lines@.len() - i,
    {
        let cs = chars_of(lines[i].as_str());
        let count = leading_run(cs.as_slice(), 0, '`');
        proof {
            assert(cs@.skip(0) == cs@);
            assert(lv.take(i + 1).drop_last() == lv.take(i as int));
            assert(lv.take(i + 1).last() == lv[i as int]);
        }
        if count > max {
            max = count;
        }
        i = i + 1;
    }
    assert(lv.take(lines@.len() as int) == lv);
    max
}

/// The fence of a code block that holds the text.
fn fence(text: &str) -> (r: String)
    ensures
        r@ == spec_fence(text@),
{
    let n = max_backtick_size(text);
    let mut s = String::new();
    push_char(&mut s, '`');
    let mut i: usize = 0;
    while i < n
        invariant
            i <= n,
            s@ == spec_backticks((i + 1) as nat),
        decreases n - i,
    {
        push_char(&mut s, '`');
        assert(s@ =~= spec_backticks((i + 2) as nat));
        i = i + 1;
    }
    s
}

/// The texts of numbered lines.
pub open spec fn spec_texts(v: Seq<(int, Seq<char>)>) -> Seq<Seq<char>> {
    v.map_values(|p: (int, Seq<char>)| p.1)
}

/// The lines, each ending in a line feed.
pub open spec fn spec_assured_lines(lines: Seq<Seq<char>>) -> Seq<char>
    decreases lines.len(),
{
    if lines.len() == 0 {
        Seq::empty()
    } else {
        spec_assured_lines(lines.drop_last()) + spec_assure_newline(lines.last(), '\n')
    }
}

/// One token of a document, written anew: lines and other code blocks as
/// they are, the front matter between `---` lines, and the `k`-th test code
/// block with the body generated from the `k`-th outcome, fenced by as many
/// backticks as it needs.
pub open spec fn spec_update_token(t: MarkdownTokenView, k: int, os: Seq<Outcome>) -> Result<
    Seq<char>,
    Seq<char>,
> {
    match t {
        MarkdownTokenView::Line(_, l) => Ok(spec_assure_newline(l, '\n')),
        MarkdownTokenView::DocumentConfig(c) => Ok(
            "---\n"@ + spec_join_newline(spec_texts(c)) + "\n---\n"@,
        ),
        MarkdownTokenView::VerbatimCodeBlock { lines, .. } => Ok(spec_assured_lines(lines)),
        MarkdownTokenView::TestCodeBlock { language, config_lines, comment_lines, .. } => {
            match spec_generate_testcase(os[k]) {
                Err(_) => Err("testcase number "@ + spec_decimal((k + 1) as nat)),
                Ok(g) => {
                    let b = spec_fence(g);
                    let config = if config_lines.len() == 0 {
                        Seq::empty()
                    } else {
                        " {"@ + spec_trim_start(spec_join_newline(spec_texts(config_lines)))
                            + "}"@
                    };
                    Ok(
                        b + language + config + seq!['\n'] + spec_assured_lines(
                            spec_texts(comment_lines),
                        ) + g + b + seq!['\n'],
                    )
                },
            }
        },
    }
}

/// The updated document from token `i` on, where `k` test code blocks came
/// before; or the first error.
pub open spec fn spec_update_from(
    tokens: Seq<MarkdownTokenView>,
    i: int,
    k: int,
    os: Seq<Outcome>,
) -> Result<Seq<char>, Seq<char>>
    decreases tokens.len() - i,
{
    if i < 0 || i >= tokens.len() {
        Ok(Seq::empty())
    } else {
        let next_k = if tokens[i] is TestCodeBlock {
            k + 1
        } else {
            k
        };
        match spec_update_token(tokens[i], k, os) {
            Err(e) => Err(e),
            Ok(p) => match spec_update_from(tokens, i + 1, next_k, os) {
                Err(e) => Err(e),
                Ok(rest) => Ok(p + rest),
            },
        }
    }
}

fn join_texts(v: &Vec<(usize, String)>) -> (r: String)
    ensures
        r@ == spec_join_newline(spec_texts(numbered_lines_view(v@))),
{
    let ghost tv = spec_texts(numbered_lines_view(v@));
    let mut out = String::new();
    let mut i: usize = 0;
    while i < v.len()
        invariant
            i <= v@.len(),
            tv == spec_texts(numbered_lines_view(v@)),
            out@ == spec_join_newline(tv.take(i as int)),
        decreases v@.len() - i,
    {
        proof {
            assert(tv.take(i + 1).drop_last() == tv.take(i as int));
            assert(tv.take(i + 1).last() == v@[i as int].1@);
            assert(tv.take(i + 1).len() == i + 1);
            if i == 0 {
                assert(tv.take(1)[0] == v@[0].1@);
            }
        }
        if i > 0 {
            push_char(&mut out, '\n');
        }
        out.append(v[i].1.as_str());
        i = i + 1;
    }
    assert(tv.take(v@.len() as int) == tv);
    out
}

fn push_assured(out: &mut String, lines: &Vec<String>)
    ensures
        final(out)@ == old(out)@ + spec_assured_lines(strings_view(lines@)),
{
    let ghost lv = strings_view(lines@);
    let ghost start = out@;
    let mut i: usize = 0;
    while i < lines.len()
        invariant
            i <= lines@.len(),
            lv == strings_view(lines@),
            out@ == start + spec_assured_lines(lv.take(i as int)),
        decreases lines@.len() - i,
    {
        let l = assure_newline_str(lines[i].as_str());
        out.append(l.as_str());
        proof {
            assert(lv.take(i + 1).drop_last() == lv.take(i as int));
            assert(lv.take(i + 1).last() == lines@[i as int]@);
        }
        i = i + 1;
    }
    assert(lv.take(lines@.len() as int) == lv);
}

fn push_assured_numbered(out: &mut String, lines: &Vec<(usize, String)>)
    ensures
        final(out)@ == old(out)@ + spec_assured_lines(spec_texts(numbered_lines_view(lines@))),
{
    let ghost lv = spec_texts(numbered_lines_view(lines@));
    let ghost start = out@;
    let mut i: usize = 0;
    while i < lines.len()
        invariant
            i <= lines@.len(),
            lv == spec_texts(numbered_lines_view(lines@)),
            out@ == start + spec_assured_lines(lv.take(i as int)),
        decreases lines@.len() - i,
    {
        let l = assure_newline_str(lines[i].1.as_str());
        out.append(l.as_str());
        proof {
            assert(lv.take(i + 1).drop_last() == lv.take(i as int));
            assert(lv.take(i + 1).last() == lines@[i as int].1@);
        }
        i = i + 1;
    }
    assert(lv.take(lines@.len() as int) == lv);
}

/// Updates the test cases of a Markdown document with bodies generated
/// from outcomes.
pub struct MarkdownUpdateGenerator(pub Vec<String>);

impl MarkdownUpdateGenerator {
    /// A generator where code blocks of the given languages are test cases.
    pub fn new(languages: &[&str]) -> (r: Self)
        ensures
            strings_view(r.0@) == strs_view(languages@),
    {
        let it = MarkdownIterator::new(languages, "");
        MarkdownUpdateGenerator(it.languages)
    }

    /// The document with the body of its `k`-th test code block generated
    /// anew from the `k`-th outcome, and every other line as it was. Without
    /// outcomes the document stays as it is.
    pub fn generate_update(&self, original_document: &str, outcomes: &[Outcome]) -> (r: Result<
        String,
        String,
    >)
        requires
            outcomes@.len() == 0 || spec_blocks_from(
                spec_markdown_tokens(strings_view(self.0@), original_document@),
                0,
            ) <= outcomes@.len(),
        ensures
            outcomes@.len() == 0 ==> (r matches Ok(s) && s@ == original_document@),
            outcomes@.len() > 0 ==> match r {
                Ok(s) => spec_update_from(
                    spec_markdown_tokens(strings_view(self.0@), original_document@),
                    0,
                    0,
                    outcomes@,
                ) == Ok::<Seq<char>, Seq<char>>(s@),
                Err(e) => spec_update_from(
                    spec_markdown_tokens(strings_view(self.0@), original_document@),
                    0,
                    0,
                    outcomes@,
                ) == Err::<Seq<char>, Seq<char>>(e@),
            },
    {
        if outcomes.len() == 0 {
            return Ok(original_document.to_owned());
        }
        let mut languages: Vec<String> = Vec::new();
        let mut j: usize = 0;
        while j < self.0.len()
            invariant
                j <= self.0@.len(),
                strings_view(languages@) == strings_view(self.0@).take(j as int),
            decreases self.0@.len() - j,
        {
            let l = self.0[j].clone();
            let ghost before = languages@;
            languages.push(l);
            proof {
                assert(strings_view(languages@) =~= strings_view(before).push(l@));
                assert(strings_view(self.0@).take(j + 1) =~= strings_view(self.0@).take(
                    j as int,
                ).push(self.0@[j as int]@));
            }
            j = j + 1;
        }
        assert(strings_view(self.0@).take(self.0@.len() as int) == strings_view(self.0@));
        let mut it = MarkdownIterator {
            languages,
            document_lines: str_lines(original_document),
            line_index: 0,
            content_start: false,
        };
        let tokens = it.collect_tokens();
        let ghost tv = tokens_view(tokens@);
        let ghost os = outcomes@;
        let mut out = String::new();
        let mut k: usize = 0;
        let mut i: usize = 0;
        while i < tokens.len()
            invariant
                tv == tokens_view(tokens@),
                tv == spec_markdown_tokens(strings_view(self.0@), original_document@),
                os == outcomes@,
                i <= tv.len(),
                k + spec_blocks_from(tv, i as int) <= os.len(),
                spec_update_from(tv, 0, 0, os) == match spec_update_from(tv, i as int, k as int, os) {
                    Ok(rest) => Ok(out@ + rest),
                    Err(e) => Err(e),
                },
            decreases tv.len() - i,
        {
            let ghost before = out@;
            let ghost k0 = k as int;
            let ghost mut piece_v: Seq<char> = Seq::empty();
            let ghost t = tv[i as int];
            assert(t == tokens@[i as int]@);
            match &tokens[i] {
                MarkdownToken::Line(_, line) => {
                    let l = assure_newline_str(line.as_str());
                    out.append(l.as_str());
                    assert(spec_update_token(t, k as int, os) == Ok::<Seq<char>, Seq<char>>(l@));
                    assert(out@ == before + l@);
                    proof {
                        piece_v = l@;
                    }
                },
                MarkdownToken::DocumentConfig(config) => {
                    out.append("---\n");
                    let joined = join_texts(config);
                    out.append(joined.as_str());
                    out.append("\n---\n");
                    let ghost piece = "---\n"@ + joined@ + "\n---\n"@;
                    assert(spec_update_token(t, k as int, os) == Ok::<Seq<char>, Seq<char>>(piece));
                    assert(out@ == before + piece);
                    proof {
                        piece_v = piece;
                    }
                },
                MarkdownToken::VerbatimCodeBlock { lines, .. } => {
                    push_assured(&mut out, lines);
                    assert(spec_update_token(t, k as int, os) == Ok::<Seq<char>, Seq<char>>(
                        spec_assured_lines(strings_view(lines@)),
                    ));
                    proof {
                        piece_v = spec_assured_lines(strings_view(lines@));
                    }
                },
                MarkdownToken::TestCodeBlock { language, config_lines, comment_lines, .. } => {
                    let generated = match outcomes[k].generate_testcase() {
                        Ok(g) => g,
                        Err(_) => {
                            let mut m = "testcase number ".to_owned();
                            m.append(decimal_string(k as u64 + 1).as_str());
                            assert(spec_update_token(t, k as int, os) == Err::<Seq<char>, Seq<char>>(
                                m@,
                            ));
                            return Err(m);
                        },
                    };
                    let b = fence(generated.as_str());
                    let mut piece = String::new();
                    piece.append(b.as_str());
                    piece.append(language.as_str());
                    let ghost head = piece@;
                    if config_lines.len() > 0 {
                        let joined = join_texts(config_lines);
                        let trimmed = trim_start(joined.as_str());
                        piece.append(" {");
                        piece.append(trimmed.as_str());
                        piece.append("}");
                    }
                    assert(piece@ == head + (if numbered_lines_view(config_lines@).len() == 0 {
                        Seq::<char>::empty()
                    } else {
                        " {"@ + spec_trim_start(
                            spec_join_newline(spec_texts(numbered_lines_view(config_lines@))),
                        ) + "}"@
                    }));
                    let ghost p1 = piece@;
                    push_char(&mut piece, '\n');
                    assert(piece@ =~= p1 + seq!['\n']);
                    push_assured_numbered(&mut piece, comment_lines);
                    piece.append(generated.as_str());
                    piece.append(b.as_str());
                    let ghost p2 = piece@;
                    push_char(&mut piece, '\n');
                    assert(piece@ =~= p2 + seq!['\n']);
                    proof {
                        assert(spec_generate_testcase(os[k as int]) == Ok::<Seq<char>, Seq<char>>(
                            generated@,
                        ));
                        assert(t matches MarkdownTokenView::TestCodeBlock {
                            language: l,
                            config_lines: c,
                            comment_lines: m,
                            ..
                        } && l == language@ && c == numbered_lines_view(config_lines@) && m
                            == numbered_lines_view(comment_lines@));
                    }
                    assert(spec_update_token(t, k as int, os) == Ok::<Seq<char>, Seq<char>>(
                        piece@,
                    ));
                    out.append(piece.as_str());
                    proof {
                        piece_v = piece@;
                    }
                    k = k + 1;
                },
            }
            proof {
                assert(out@ == before + piece_v);
                assert(spec_update_token(t, k0, os) == Ok::<Seq<char>, Seq<char>>(piece_v));
                assert(k == (if t is TestCodeBlock {
                    k0 + 1
                } else {
                    k0
                }));
                if let Ok(rest) = spec_update_from(tv, i + 1, k as int, os) {
                    assert(before + (piece_v + rest) == out@ + rest);
                }
            }
            i = i + 1;
        }
        assert(out@ + Seq::<char>::empty() == out@);
        Ok(out)
    }
}

/// A test case of a new Markdown document: the title as a header (if
/// there is a title), and the body in a code block of the language, whose
/// opening line carries the configuration (if given); or why there is no body.
pub open spec fn spec_markdown_render(language: Seq<char>, config: Seq<char>, o: Outcome) -> Result<
    Seq<char>,
    Seq<char>,
> {
    match spec_generate_testcase(o) {
        Ok(g) => Ok(
            (if o.testcase.title@.len() == 0 {
                Seq::empty()
            } else {
                "# "@ + o.testcase.title@ + "\n\n"@
            }) + spec_fence(g) + language + (if config.len() == 0 {
                Seq::empty()
            } else {
                seq![' '] + config
            }) + seq!['\n'] + g + spec_fence(g) + seq!['\n'],
        ),
        Err(e) => Err(e),
    }
}

/// The rendered test cases of the outcomes from index `i` on, or the first error.
pub open spec fn spec_markdown_collect(
    language: Seq<char>,
    configs: Seq<Seq<char>>,
    os: Seq<Outcome>,
    i: int,
) -> Result<Seq<Seq<char>>, Seq<char>>
    decreases os.len() - i,
{
    if i < 0 || i >= os.len() {
        Ok(Seq::empty())
    } else {
        match spec_markdown_render(language, configs[i], os[i]) {
            Err(e) => Err(e),
            Ok(r) => match spec_markdown_collect(language, configs, os, i + 1) {
                Err(e) => Err(e),
                Ok(rest) => Ok(seq![r] + rest),
            },
        }
    }
}

/// A Markdown document of the outcomes' test cases, separated by empty
/// lines; or the first error.
pub open spec fn spec_markdown_document(
    language: Seq<char>,
    configs: Seq<Seq<char>>,
    os: Seq<Outcome>,
) -> Result<Seq<char>, Seq<char>> {
    match spec_markdown_collect(language, configs, os, 0) {
        Ok(parts) => Ok(spec_join_sep(parts, seq!['\n', '\n'])),
        Err(e) => Err(e),
    }
}

/// Generates new Markdown documents from shell expressions and their output.
pub struct MarkdownTestCaseGenerator(pub String);

impl MarkdownTestCaseGenerator {
    /// A generator of code blocks of the given language.
    pub fn new(language: &str) -> (r: Self)
        ensures
            r.0@ == language@,
    {
        Self(language.to_owned())
    }

    /// The document made of the test cases of the outcomes, separated by
    /// empty lines. The `i`-th configuration is the one-line rendering of
    /// the `i`-th test case's configuration where it differs from the
    /// Markdown defaults (empty if it does not differ).
    pub fn generate_testcases(&self, outcomes: &[Outcome], configs: &[String]) -> (r: Result<
        String,
        String,
    >)
        requires
            configs@.len() == outcomes@.len(),
        ensures
            match r {
                Ok(s) => spec_markdown_document(self.0@, strings_view(configs@), outcomes@)
                    == Ok::<Seq<char>, Seq<char>>(s@),
                Err(e) => spec_markdown_document(self.0@, strings_view(configs@), outcomes@)
                    == Err::<Seq<char>, Seq<char>>(e@),
            },
    {
        let ghost os = outcomes@;
        let ghost cv = strings_view(configs@);
        let ghost lang = self.0@;
        let mut out = String::new();
        let ghost mut parts: Seq<Seq<char>> = Seq::empty();
        let mut i: usize = 0;
        while i < outcomes.len()
            invariant
                os == outcomes@,
                cv == strings_view(configs@),
                lang == self.0@,
                cv.len() == os.len(),
                i <= os.len(),
                parts.len() == i,
                out@ == spec_join_sep(parts, seq!['\n', '\n']),
                spec_markdown_collect(lang, cv, os, 0) == match spec_markdown_collect(
                    lang,
                    cv,
                    os,
                    i as int,
                ) {
                    Ok(rest) => Ok(parts + rest),
                    Err(e) => Err(e),
                },
            decreases os.len() - i,
        {
            let o = &outcomes[i];
            let generated = match o.generate_testcase() {
                Ok(g) => g,
                Err(e) => {
                    return Err(e);
                },
            };
            let mut rendered = String::new();
            let title = chars_of(o.testcase.title.as_str());
            if title.len() > 0 {
                rendered.append("# ");
                rendered.append(o.testcase.title.as_str());
                rendered.append("\n\n");
            }
            let ghost t = rendered@;
            let b = fence(generated.as_str());
            rendered.append(b.as_str());
            rendered.append(self.0.as_str());
            let ghost h = rendered@;
            let cfg = chars_of(configs[i].as_str());
            if cfg.len() > 0 {
                push_char(&mut rendered, ' ');
                rendered.append(configs[i].as_str());
            }
            assert(rendered@ =~= h + (if cv[i as int].len() == 0 {
                Seq::<char>::empty()
            } else {
                seq![' '] + cv[i as int]
            }));
            let ghost p1 = rendered@;
            push_char(&mut rendered, '\n');
            assert(rendered@ =~= p1 + seq!['\n']);
            rendered.append(generated.as_str());
            rendered.append(b.as_str());
            let ghost p2 = rendered@;
            push_char(&mut rendered, '\n');
            assert(rendered@ =~= p2 + seq!['\n']);
            assert(spec_markdown_render(lang, cv[i as int], os[i as int]) == Ok::<
                Seq<char>,
                Seq<char>,
            >(rendered@));
            if i > 0 {
                out.append("\n\n");
            }
            out.append(rendered.as_str());
            proof {
                reveal_strlit("\n\n");
                let np = parts.push(rendered@);
                assert(np.drop_last() == parts);
                if let Ok(rest) = spec_markdown_collect(lang, cv, os, i + 1) {
                    assert(parts + (seq![rendered@] + rest) == np + rest);
                }
                if i == 0 {
                    assert(np == seq![rendered@]);
                }
                parts = np;
            }
            i = i + 1;
        }
        assert(parts + Seq::<Seq<char>>::empty() == parts);
        Ok(out)
    }
}

} // verus!
