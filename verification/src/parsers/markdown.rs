//! Parsing of Markdown documents, whose test cases are code blocks of
//! chosen languages, titled by the paragraph or header before them:
//!
//! ````markdown
//! A title
//!
//! ```scrut
//! $ command
//! expectation
//! ```
//! ````
//!
//! A document may start with a front matter between two `---` lines, and a
//! code block may carry a configuration after its language. Both are YAML,
//! which the caller reads: the tokens hand out their raw lines, and the
//! test cases are assembled with the configurations the caller read.
use std::sync::Arc;
use vstd::prelude::*;
use vstd::utf8::encode_utf8;

use crate::config::{TestCaseConfig, TestCaseConfigView};
use crate::expectation::ExpectationMaker;
use crate::parsers::line_parser::{
    is_comment, spec_add_body, spec_end_testcase, spec_is_comment, spec_new_parser,
    testcases_view, LineParser, LineParserView, ParseError, ParseErrorView,
};
use crate::rules::{regex_compiles, regex_is_match, regex_match};
use crate::testcase::TestCase;
use crate::text::{
    chars_of, is_whitespace, join_newline, spec_find_char, spec_is_whitespace, spec_join_newline,
    spec_starts_with, spec_str_lines, spec_trim, spec_trim_end, spec_trim_start, starts_with_str, str_equal,
    str_lines, string_from_chars, strings_view, trim, trim_end,
};

verus! {

/// The length of the run of the character at the start.
pub open spec fn spec_leading_run(s: Seq<char>, c: char) -> nat
    decreases s.len(),
{
    if s.len() > 0 && s[0] == c {
        1 + spec_leading_run(s.drop_first(), c)
    } else {
        0
    }
}

/// The length of the run of whitespace at the start.
pub open spec fn spec_leading_whitespace(s: Seq<char>) -> nat
    decreases s.len(),
{
    if s.len() > 0 && spec_is_whitespace(s[0]) {
        1 + spec_leading_whitespace(s.drop_first())
    } else {
        0
    }
}

proof fn lemma_leading_run(s: Seq<char>, c: char, i: int)
    requires
        0 <= i < s.len(),
    ensures
        s.skip(i).len() > 0 && s.skip(i)[0] == s[i],
        s.skip(i).drop_first() == s.skip(i + 1),
{
    assert(s.skip(i).drop_first() =~= s.skip(i + 1));
}

proof fn lemma_leading_run_bound(s: Seq<char>, c: char)
    ensures
        spec_leading_run(s, c) <= s.len(),
        forall|j: int| 0 <= j < spec_leading_run(s, c) ==> s[j] == c,
        spec_leading_run(s, c) < s.len() ==> s[spec_leading_run(s, c) as int] != c,
    decreases s.len(),
{
    if s.len() > 0 && s[0] == c {
        lemma_leading_run_bound(s.drop_first(), c);
        assert forall|j: int| 0 <= j < spec_leading_run(s, c) implies s[j] == c by {
            if j > 0 {
                assert(s[j] == s.drop_first()[j - 1]);
            }
        }
    }
}

proof fn lemma_leading_whitespace_bound(s: Seq<char>)
    ensures
        spec_leading_whitespace(s) <= s.len(),
    decreases s.len(),
{
    if s.len() > 0 && spec_is_whitespace(s[0]) {
        lemma_leading_whitespace_bound(s.drop_first());
    }
}

/// The length of the run of `c` at the start of `s[from..]`.
pub(crate) fn leading_run(s: &[char], from: usize, c: char) -> (r: usize)
    requires
        from <= s@.len(),
    ensures
        r == spec_leading_run(s@.skip(from as int), c),
        from + r <= s@.len(),
{
    let mut i = from;
    while i < s.len() && s[i] == c
        invariant
            from <= i <= s@.len(),
            spec_leading_run(s@.skip(from as int), c) == (i - from) + spec_leading_run(
                s@.skip(i as int),
                c,
            ),
        decreases s@.len() - i,
    {
        proof {
            lemma_leading_run(s@, c, i as int);
        }
        i = i + 1;
    }
    i - from
}

/// The length of the run of whitespace at the start of `s[from..]`.
fn leading_whitespace(s: &[char], from: usize) -> (r: usize)
    requires
        from <= s@.len(),
    ensures
        r == spec_leading_whitespace(s@.skip(from as int)),
        from + r <= s@.len(),
{
    let mut i = from;
    while i < s.len() && is_whitespace(s[i])
        invariant
            from <= i <= s@.len(),
            spec_leading_whitespace(s@.skip(from as int)) == (i - from) + spec_leading_whitespace(
                s@.skip(i as int),
            ),
        decreases s@.len() - i,
    {
        proof {
            lemma_leading_run(s@, ' ', i as int);
        }
        i = i + 1;
    }
    i - from
}

/// The opening line of a code block: at least three backticks followed by a
/// language, which may be followed by a configuration that starts with `{`.
/// Gives the backticks, the language (without trailing whitespace) and the
/// configuration (possibly empty). A line of backticks only is no opening.
pub open spec fn spec_code_block_start(s: Seq<char>) -> Option<(Seq<char>, Seq<char>, Seq<char>)> {
    let k = spec_leading_run(s, '`') as int;
    if k == s.len() || k < 3 {
        None
    } else {
        match spec_find_char(s, '{', k + 1) {
            Some(i) => Some((s.take(k), spec_trim_end(s.subrange(k, i)), s.skip(i))),
            None => Some((s.take(k), s.skip(k), Seq::empty())),
        }
    }
}

fn find_char_from(s: &[char], c: char, from: usize) -> (r: Option<usize>)
    ensures
        match r {
            Some(i) => spec_find_char(s@, c, from as int) == Some(i as int),
            None => spec_find_char(s@, c, from as int) is None,
        },
{
    let mut i = from;
    while i < s.len()
        invariant
            from <= i,
            spec_find_char(s@, c, from as int) == spec_find_char(s@, c, i as int),
        decreases s@.len() - i,
    {
        if s[i] == c {
            return Some(i);
        }
        i = i + 1;
    }
    None
}

/// Parses a line that may open a code block of three (or more) backticks,
/// followed by a language and maybe a configuration, and returns the
/// backticks, the language and the configuration.
pub fn extract_code_block_start(line: &str) -> (r: Option<(String, String, String)>)
    ensures
        match r {
            Some((b, l, c)) => spec_code_block_start(line@) == Some((b@, l@, c@)),
            None => spec_code_block_start(line@) is None,
        },
{
    let cs = chars_of(line);
    let n = cs.len();
    let k = leading_run(cs.as_slice(), 0, '`');
    assert(cs@.skip(0) == cs@);
    if k == n || k < 3 {
        return None;
    }
    let backticks = string_from_chars(&cs.as_slice()[0..k]);
    match find_char_from(cs.as_slice(), '{', k + 1) {
        Some(i) => {
            proof {
                crate::text::lemma_find_char_bounds(cs@, '{', k + 1);
            }
            let language = string_from_chars(&cs.as_slice()[k..i]);
            let language = trim_end(language.as_str());
            let config = string_from_chars(&cs.as_slice()[i..n]);
            Some((backticks, language, config))
        },
        None => {
            let language = string_from_chars(&cs.as_slice()[k..n]);
            Some((backticks, language, String::new()))
        },
    }
}

/// The pattern of a paragraph start: a run of Unicode letters.
pub open spec fn paragraph_pattern() -> Seq<char> {
    "^\\p{L}+"@
}

/// Whether the text starts with a Unicode letter, as the paragraph pattern
/// tells through the regular expression engine.
pub open spec fn spec_is_paragraph_start(t: Seq<char>) -> bool {
    regex_compiles(paragraph_pattern()) && regex_is_match(paragraph_pattern(), encode_utf8(t))
}

/// A header line: a run of `#`, a run of whitespace and a non-empty rest
/// without line feed; gives the prefix and the rest.
pub open spec fn spec_header(t: Seq<char>) -> Option<(Seq<char>, Seq<char>)> {
    let h = spec_leading_run(t, '#') as int;
    let w = spec_leading_whitespace(t.skip(h)) as int;
    let rest = t.skip(h + w);
    if h >= 1 && w >= 1 && rest.len() >= 1 && !rest.contains('\n') {
        Some((t.take(h + w), rest))
    } else {
        None
    }
}

/// The title a line of a document gives, if any: the trimmed line if it
/// starts a paragraph, else the text of a header.
pub open spec fn spec_extract_title(line: Seq<char>) -> Option<(Seq<char>, Seq<char>)> {
    let t = spec_trim(line);
    if spec_is_paragraph_start(t) {
        Some((Seq::empty(), t))
    } else {
        spec_header(t)
    }
}

fn contains_char(s: &[char], from: usize, c: char) -> (r: bool)
    requires
        from <= s@.len(),
    ensures
        r == s@.skip(from as int).contains(c),
{
    let mut i = from;
    while i < s.len()
        invariant
            from <= i <= s@.len(),
            forall|j: int| from <= j < i ==> s@[j] != c,
        decreases s@.len() - i,
    {
        if s[i] == c {
            assert(s@.skip(from as int)[i - from] == c);
            return true;
        }
        i = i + 1;
    }
    assert forall|j: int| 0 <= j < s@.skip(from as int).len() implies s@.skip(from as int)[j] != c by {
        assert(s@.skip(from as int)[j] == s@[from + j]);
    }
    false
}

/// Parses a header line, and returns its prefix of `#` and whitespace and its text.
pub fn extract_header(line: &str) -> (r: Option<(String, String)>)
    ensures
        match r {
            Some((p, t)) => spec_header(line@) == Some((p@, t@)),
            None => spec_header(line@) is None,
        },
{
    let cs = chars_of(line);
    let n = cs.len();
    let h = leading_run(cs.as_slice(), 0, '#');
    assert(cs@.skip(0) == cs@);
    let w = leading_whitespace(cs.as_slice(), h);
    if h >= 1 && w >= 1 && h + w < n && !contains_char(cs.as_slice(), h + w, '\n') {
        let prefix = string_from_chars(&cs.as_slice()[0..h + w]);
        let rest = string_from_chars(&cs.as_slice()[h + w..n]);
        Some((prefix, rest))
    } else {
        None
    }
}

/// Parses a line of a document and returns its text if it is a paragraph
/// or a header (without the prefixed `#`).
pub fn extract_title(line: &str) -> (r: Option<(String, String)>)
    ensures
        match r {
            Some((p, t)) => spec_extract_title(line@) == Some((p@, t@)),
            None => spec_extract_title(line@) is None,
        },
{
    let t = trim(line);
    let paragraph = match regex_match("^\\p{L}+", t.as_str().as_bytes()) {
        Some(b) => b,
        None => false,
    };
    proof {
        reveal_strlit("^\\p{L}+");
    }
    if paragraph {
        Some((String::new(), t))
    } else {
        extract_header(t.as_str())
    }
}

/// An element of a Markdown document that matters to test cases.
#[derive(Debug, Clone, PartialEq)]
pub enum MarkdownToken {
    /// Any other line, with its index
    Line(usize, String),
    /// The lines of the front matter (the document configuration), with their indices
    DocumentConfig(Vec<(usize, String)>),
    /// A code block of another language, with all its lines
    VerbatimCodeBlock { starting_line_number: usize, language: String, lines: Vec<String> },
    /// A code block of a test case language
    TestCodeBlock {
        /// The language (e.g. `scrut`)
        language: String,
        /// The configuration after the language, if any, with its line index
        config_lines: Vec<(usize, String)>,
        /// The comment lines before the test case body
        comment_lines: Vec<(usize, String)>,
        /// The shell expression and output expectations, with their indices
        code_lines: Vec<(usize, String)>,
    },
}

/// The abstract value of numbered lines.
pub open spec fn numbered_lines_view(v: Seq<(usize, String)>) -> Seq<(int, Seq<char>)> {
    v.map_values(|p: (usize, String)| (p.0 as int, p.1@))
}

/// The abstract value of a [`MarkdownToken`].
pub enum MarkdownTokenView {
    Line(int, Seq<char>),
    DocumentConfig(Seq<(int, Seq<char>)>),
    VerbatimCodeBlock { starting_line_number: int, language: Seq<char>, lines: Seq<Seq<char>> },
    TestCodeBlock {
        language: Seq<char>,
        config_lines: Seq<(int, Seq<char>)>,
        comment_lines: Seq<(int, Seq<char>)>,
        code_lines: Seq<(int, Seq<char>)>,
    },
}

impl View for MarkdownToken {
    type V = MarkdownTokenView;

    open spec fn view(&self) -> MarkdownTokenView {
        match self {
            MarkdownToken::Line(i, l) => MarkdownTokenView::Line(*i as int, l@),
            MarkdownToken::DocumentConfig(v) => MarkdownTokenView::DocumentConfig(
                numbered_lines_view(v@),
            ),
            MarkdownToken::VerbatimCodeBlock { starting_line_number, language, lines } =>
                MarkdownTokenView::VerbatimCodeBlock {
                starting_line_number: *starting_line_number as int,
                language: language@,
                lines: strings_view(lines@),
            },
            MarkdownToken::TestCodeBlock { language, config_lines, comment_lines, code_lines } =>
                MarkdownTokenView::TestCodeBlock {
                language: language@,
                config_lines: numbered_lines_view(config_lines@),
                comment_lines: numbered_lines_view(comment_lines@),
                code_lines: numbered_lines_view(code_lines@),
            },
        }
    }
}

/// The abstract values of a list of tokens.
pub open spec fn tokens_view(v: Seq<MarkdownToken>) -> Seq<MarkdownTokenView> {
    v.map_values(|t: MarkdownToken| t@)
}

/// Whether the line is the `---` that delimits a front matter.
pub open spec fn spec_is_dashes(l: Seq<char>) -> bool {
    l.len() == 3 && l[0] == '-' && l[1] == '-' && l[2] == '-'
}

/// The first index from `from` on of a `---` line.
pub open spec fn spec_find_dashes(lines: Seq<Seq<char>>, from: int) -> Option<int>
    decreases lines.len() - from,
{
    if from < 0 || from >= lines.len() {
        None
    } else if spec_is_dashes(lines[from]) {
        Some(from)
    } else {
        spec_find_dashes(lines, from + 1)
    }
}

/// The first index from `from` on of a line that is no comment.
pub open spec fn spec_find_no_comment(lines: Seq<Seq<char>>, from: int) -> Option<int>
    decreases lines.len() - from,
{
    if from < 0 || from >= lines.len() {
        None
    } else if !spec_is_comment(lines[from]) {
        Some(from)
    } else {
        spec_find_no_comment(lines, from + 1)
    }
}

/// The first index from `from` on of a line that starts with the backticks.
pub open spec fn spec_find_fence(lines: Seq<Seq<char>>, from: int, backticks: Seq<char>) -> Option<
    int,
>
    decreases lines.len() - from,
{
    if from < 0 || from >= lines.len() {
        None
    } else if spec_starts_with(lines[from], backticks) {
        Some(from)
    } else {
        spec_find_fence(lines, from + 1, backticks)
    }
}

proof fn lemma_find_dashes_bound(lines: Seq<Seq<char>>, from: int)
    ensures
        spec_find_dashes(lines, from) matches Some(i) ==> from <= i < lines.len(),
    decreases lines.len() - from,
{
    if 0 <= from < lines.len() && !spec_is_dashes(lines[from]) {
        lemma_find_dashes_bound(lines, from + 1);
    }
}

proof fn lemma_find_no_comment_bound(lines: Seq<Seq<char>>, from: int)
    ensures
        spec_find_no_comment(lines, from) matches Some(i) ==> from <= i < lines.len(),
    decreases lines.len() - from,
{
    if 0 <= from < lines.len() && spec_is_comment(lines[from]) {
        lemma_find_no_comment_bound(lines, from + 1);
    }
}

proof fn lemma_find_fence_bound(lines: Seq<Seq<char>>, from: int, b: Seq<char>)
    ensures
        spec_find_fence(lines, from, b) matches Some(i) ==> from <= i < lines.len(),
    decreases lines.len() - from,
{
    if 0 <= from < lines.len() && !spec_starts_with(lines[from], b) {
        lemma_find_fence_bound(lines, from + 1, b);
    }
}

/// The lines from index `a` up to `b`, with their indices.
pub open spec fn spec_numbered(lines: Seq<Seq<char>>, a: int, b: int) -> Seq<(int, Seq<char>)> {
    Seq::new((b - a) as nat, |k: int| (a + k, lines[a + k]))
}

/// The token that starts at line `pos`, the position after it and whether
/// content has started then; `None` at the end of the document, and when a
/// front matter or a test code block is not closed.
pub open spec fn spec_next_token(
    languages: Seq<Seq<char>>,
    lines: Seq<Seq<char>>,
    pos: int,
    content_start: bool,
) -> Option<(MarkdownTokenView, int, bool)> {
    if pos < 0 || pos >= lines.len() {
        None
    } else {
        let line = lines[pos];
        if !content_start && spec_is_dashes(line) {
            match spec_find_dashes(lines, pos + 1) {
                None => None,
                Some(e) => Some(
                    (
                        MarkdownTokenView::DocumentConfig(spec_numbered(lines, pos + 1, e)),
                        e + 1,
                        content_start,
                    ),
                ),
            }
        } else {
            match spec_code_block_start(line) {
                Some((backticks, language, config)) => {
                    if language.len() == 0 || !languages.contains(language) {
                        let end = match spec_find_fence(lines, pos + 1, backticks) {
                            Some(e) => e + 1,
                            None => lines.len() as int,
                        };
                        Some(
                            (
                                MarkdownTokenView::VerbatimCodeBlock {
                                    starting_line_number: pos,
                                    language,
                                    lines: lines.subrange(pos, end),
                                },
                                end,
                                true,
                            ),
                        )
                    } else {
                        match spec_find_no_comment(lines, pos + 1) {
                            None => None,
                            Some(c) => match spec_find_fence(lines, c, backticks) {
                                None => None,
                                Some(e) => Some(
                                    (
                                        MarkdownTokenView::TestCodeBlock {
                                            language,
                                            config_lines: if config.len() == 0 {
                                                Seq::empty()
                                            } else {
                                                seq![(pos, config)]
                                            },
                                            comment_lines: spec_numbered(lines, pos + 1, c),
                                            code_lines: spec_numbered(lines, c, e),
                                        },
                                        e + 1,
                                        true,
                                    ),
                                ),
                            },
                        }
                    }
                },
                None => Some(
                    (
                        MarkdownTokenView::Line(pos, line),
                        pos + 1,
                        content_start || spec_trim(line).len() > 0,
                    ),
                ),
            }
        }
    }
}

/// The next position is after the current one.
pub proof fn lemma_next_token_advances(
    languages: Seq<Seq<char>>,
    lines: Seq<Seq<char>>,
    pos: int,
    content_start: bool,
)
    ensures
        spec_next_token(languages, lines, pos, content_start) matches Some((t, p, c)) ==> pos < p
            <= lines.len(),
{
    if 0 <= pos < lines.len() {
        lemma_find_dashes_bound(lines, pos + 1);
        match spec_code_block_start(lines[pos]) {
            Some((b, l, c)) => {
                lemma_find_fence_bound(lines, pos + 1, b);
                lemma_find_no_comment_bound(lines, pos + 1);
                if let Some(c) = spec_find_no_comment(lines, pos + 1) {
                    lemma_find_fence_bound(lines, c, b);
                }
            },
            None => {},
        }
    }
}

/// The tokens of the document from line `pos` on.
pub open spec fn spec_tokens_from(
    languages: Seq<Seq<char>>,
    lines: Seq<Seq<char>>,
    pos: int,
    content_start: bool,
) -> Seq<MarkdownTokenView>
    decreases lines.len() - pos,
{
    match spec_next_token(languages, lines, pos, content_start) {
        None => Seq::empty(),
        Some((t, p, c)) => {
            proof {
                lemma_next_token_advances(languages, lines, pos, content_start);
            }
            seq![t] + spec_tokens_from(languages, lines, p, c)
        },
    }
}

/// The tokens of a document, for the given test case languages.
pub open spec fn spec_markdown_tokens(languages: Seq<Seq<char>>, text: Seq<char>) -> Seq<
    MarkdownTokenView,
> {
    spec_tokens_from(languages, spec_str_lines(text), 0, false)
}

/// The abstract values of string slices.
pub open spec fn strs_view(v: Seq<&str>) -> Seq<Seq<char>> {
    v.map_values(|l: &str| l@)
}

/// Iterates the tokens of a Markdown document: lines, the front matter,
/// and code blocks.
pub struct MarkdownIterator {
    pub languages: Vec<String>,
    pub document_lines: Vec<String>,
    pub line_index: usize,
    pub content_start: bool,
}

fn find_dashes(lines: &Vec<String>, from: usize) -> (r: Option<usize>)
    ensures
        match r {
            Some(i) => spec_find_dashes(strings_view(lines@), from as int) == Some(i as int),
            None => spec_find_dashes(strings_view(lines@), from as int) is None,
        },
{
    let ghost lv = strings_view(lines@);
    let mut i = from;
    while i < lines.len()
        invariant
            from <= i,
            lv == strings_view(lines@),
            spec_find_dashes(lv, from as int) == spec_find_dashes(lv, i as int),
        decreases lines@.len() - i,
    {
        let cs = chars_of(lines[i].as_str());
        if cs.len() == 3 && cs[0] == '-' && cs[1] == '-' && cs[2] == '-' {
            return Some(i);
        }
        i = i + 1;
    }
    None
}

fn find_no_comment(lines: &Vec<String>, from: usize) -> (r: Option<usize>)
    ensures
        match r {
            Some(i) => spec_find_no_comment(strings_view(lines@), from as int) == Some(i as int),
            None => spec_find_no_comment(strings_view(lines@), from as int) is None,
        },
{
    let ghost lv = strings_view(lines@);
    let mut i = from;
    while i < lines.len()
        invariant
            from <= i,
            lv == strings_view(lines@),
            spec_find_no_comment(lv, from as int) == spec_find_no_comment(lv, i as int),
        decreases lines@.len() - i,
    {
        if !is_comment(lines[i].as_str()) {
            return Some(i);
        }
        i = i + 1;
    }
    None
}

fn find_fence(lines: &Vec<String>, from: usize, backticks: &str) -> (r: Option<usize>)
    ensures
        match r {
            Some(i) => spec_find_fence(strings_view(lines@), from as int, backticks@) == Some(
                i as int,
            ),
            None => spec_find_fence(strings_view(lines@), from as int, backticks@) is None,
        },
{
    let ghost lv = strings_view(lines@);
    let mut i = from;
    while i < lines.len()
        invariant
            from <= i,
            lv == strings_view(lines@),
            spec_find_fence(lv, from as int, backticks@) == spec_find_fence(
                lv,
                i as int,
                backticks@,
            ),
        decreases lines@.len() - i,
    {
        if starts_with_str(lines[i].as_str(), backticks) {
            return Some(i);
        }
        i = i + 1;
    }
    None
}

fn numbered(lines: &Vec<String>, a: usize, b: usize) -> (r: Vec<(usize, String)>)
    requires
        a <= b <= lines@.len(),
    ensures
        numbered_lines_view(r@) == spec_numbered(strings_view(lines@), a as int, b as int),
{
    let mut r: Vec<(usize, String)> = Vec::new();
    let mut i = a;
    while i < b
        invariant
            a <= i <= b <= lines@.len(),
            numbered_lines_view(r@) == spec_numbered(strings_view(lines@), a as int, i as int),
        decreases b - i,
    {
        let ghost before = r@;
        let line = lines[i].clone();
        r.push((i, line));
        proof {
            let lv = strings_view(lines@);
            assert(lv[i as int] == lines@[i as int]@);
            assert(r@ == before.push((i, line)));
            assert(numbered_lines_view(before).len() == before.len());
            assert(spec_numbered(lv, a as int, i as int).len() == i - a);
            assert(before.len() == i - a);
            assert(r@[before.len() as int] == (i, line));
            assert(numbered_lines_view(r@)[before.len() as int] == (i as int, line@));
            assert forall|k: int| 0 <= k < r@.len() implies numbered_lines_view(r@)[k] == spec_numbered(
                lv,
                a as int,
                i + 1,
            )[k] by {
                if k < before.len() {
                    assert(r@[k] == before[k]);
                    assert(numbered_lines_view(before)[k] == spec_numbered(lv, a as int, i as int)[k]);
                }
            }
            assert(numbered_lines_view(r@) =~= spec_numbered(lv, a as int, i + 1));
        }
        i = i + 1;
    }
    r
}

fn clone_lines(lines: &Vec<String>, a: usize, b: usize) -> (r: Vec<String>)
    requires
        a <= b <= lines@.len(),
    ensures
        strings_view(r@) == strings_view(lines@).subrange(a as int, b as int),
{
    let mut r: Vec<String> = Vec::new();
    let mut i = a;
    while i < b
        invariant
            a <= i <= b <= lines@.len(),
            strings_view(r@) == strings_view(lines@).subrange(a as int, i as int),
        decreases b - i,
    {
        let ghost before = r@;
        let line = lines[i].clone();
        r.push(line);
        proof {
            let lv = strings_view(lines@);
            assert(lv[i as int] == lines@[i as int]@);
            assert(r@ == before.push(line));
            assert(strings_view(before).len() == before.len());
            assert(before.len() == i - a);
            assert(strings_view(r@)[before.len() as int] == line@);
            assert forall|k: int| 0 <= k < r@.len() implies strings_view(r@)[k] == lv.subrange(
                a as int,
                i + 1,
            )[k] by {
                if k < before.len() {
                    assert(r@[k] == before[k]);
                    assert(strings_view(before)[k] == lv.subrange(a as int, i as int)[k]);
                }
            }
            assert(strings_view(r@) =~= lv.subrange(a as int, i + 1));
        }
        i = i + 1;
    }
    r
}

fn contains_string(v: &Vec<String>, s: &str) -> (r: bool)
    ensures
        r == strings_view(v@).contains(s@),
{
    let mut i: usize = 0;
    while i < v.len()
        invariant
            i <= v@.len(),
            forall|j: int| 0 <= j < i ==> strings_view(v@)[j] != s@,
        decreases v@.len() - i,
    {
        if str_equal(v[i].as_str(), s) {
            assert(strings_view(v@)[i as int] == s@);
            return true;
        }
        i = i + 1;
    }
    false
}

impl MarkdownIterator {
    /// An iterator over the document, where code blocks of the given
    /// languages are test cases.
    pub fn new(languages: &[&str], document: &str) -> (r: Self)
        ensures
            strings_view(r.languages@) == strs_view(languages@),
            strings_view(r.document_lines@) == spec_str_lines(document@),
            r.line_index == 0,
            !r.content_start,
    {
        let mut langs: Vec<String> = Vec::new();
        let mut i: usize = 0;
        while i < languages.len()
            invariant
                i <= languages@.len(),
                strings_view(langs@) == strs_view(languages@.take(i as int)),
            decreases languages@.len() - i,
        {
            let ghost before = langs@;
            let l = languages[i].to_owned();
            langs.push(l);
            proof {
                let target = strs_view(languages@.take(i + 1));
                assert(langs@ == before.push(l));
                assert(strings_view(before).len() == before.len());
                assert(before.len() == i);
                assert(target[i as int] == languages@[i as int]@);
                assert(strings_view(langs@)[i as int] == l@);
                assert forall|k: int| 0 <= k < langs@.len() implies strings_view(langs@)[k]
                    == target[k] by {
                    if k < before.len() {
                        assert(langs@[k] == before[k]);
                        assert(strings_view(before)[k] == strs_view(languages@.take(i as int))[k]);
                    }
                }
                assert(strings_view(langs@) =~= target);
            }
            i = i + 1;
        }
        assert(languages@.take(languages@.len() as int) == languages@);
        MarkdownIterator {
            languages: langs,
            document_lines: str_lines(document),
            line_index: 0,
            content_start: false,
        }
    }

    /// The next token, if any.
    pub fn next(&mut self) -> (r: Option<MarkdownToken>)
        ensures
            final(self).languages == old(self).languages,
            final(self).document_lines == old(self).document_lines,
            match spec_next_token(
                strings_view(old(self).languages@),
                strings_view(old(self).document_lines@),
                old(self).line_index as int,
                old(self).content_start,
            ) {
                None => r is None && final(self).line_index >= final(self).document_lines@.len(),
                Some((t, p, c)) => r matches Some(x) && x@ == t && final(self).line_index == p
                    && final(self).content_start == c,
            },
    {
        let ghost lv = strings_view(self.document_lines@);
        let n = self.document_lines.len();
        let pos = self.line_index;
        if pos >= n {
            return None;
        }
        let line = self.document_lines[pos].clone();
        let cs = chars_of(line.as_str());
        if !self.content_start && cs.len() == 3 && cs[0] == '-' && cs[1] == '-' && cs[2] == '-' {
            match find_dashes(&self.document_lines, pos + 1) {
                None => {
                    self.line_index = n;
                    return None;
                },
                Some(e) => {
                    proof {
                        lemma_find_dashes_bound(lv, pos + 1);
                    }
                    let config = numbered(&self.document_lines, pos + 1, e);
                    self.line_index = e + 1;
                    return Some(MarkdownToken::DocumentConfig(config));
                },
            }
        }
        match extract_code_block_start(line.as_str()) {
            Some((backticks, language, config)) => {
                self.content_start = true;
                if language.as_str().unicode_len() == 0 || !contains_string(&self.languages, language.as_str()) {
                    proof {
                        lemma_find_fence_bound(lv, pos + 1, backticks@);
                    }
                    let end = match find_fence(&self.document_lines, pos + 1, backticks.as_str()) {
                        Some(e) => e + 1,
                        None => n,
                    };
                    let lines = clone_lines(&self.document_lines, pos, end);
                    self.line_index = end;
                    return Some(
                        MarkdownToken::VerbatimCodeBlock { starting_line_number: pos, language, lines },
                    );
                }
                proof {
                    lemma_find_no_comment_bound(lv, pos + 1);
                }
                let c = match find_no_comment(&self.document_lines, pos + 1) {
                    None => {
                        self.line_index = n;
                        return None;
                    },
                    Some(c) => c,
                };
                proof {
                    lemma_find_fence_bound(lv, c as int, backticks@);
                }
                let e = match find_fence(&self.document_lines, c, backticks.as_str()) {
                    None => {
                        self.line_index = n;
                        return None;
                    },
                    Some(e) => e,
                };
                let mut config_lines: Vec<(usize, String)> = Vec::new();
                if config.as_str().unicode_len() > 0 {
                    config_lines.push((pos, config));
                }
                assert(numbered_lines_view(config_lines@) =~= (if config@.len() == 0 {
                    Seq::empty()
                } else {
                    seq![(pos as int, config@)]
                }));
                let comment_lines = numbered(&self.document_lines, pos + 1, c);
                let code_lines = numbered(&self.document_lines, c, e);
                self.line_index = e + 1;
                Some(MarkdownToken::TestCodeBlock { language, config_lines, comment_lines, code_lines })
            },
            None => {
                let t = trim(line.as_str());
                if t.as_str().unicode_len() > 0 {
                    self.content_start = true;
                }
                self.line_index = pos + 1;
                Some(MarkdownToken::Line(pos, line))
            },
        }
    }

    /// All remaining tokens.
    pub fn collect_tokens(&mut self) -> (r: Vec<MarkdownToken>)
        ensures
            tokens_view(r@) == spec_tokens_from(
                strings_view(old(self).languages@),
                strings_view(old(self).document_lines@),
                old(self).line_index as int,
                old(self).content_start,
            ),
    {
        let ghost langs = strings_view(self.languages@);
        let ghost lv = strings_view(self.document_lines@);
        let ghost start = (self.line_index as int, self.content_start);
        let mut out: Vec<MarkdownToken> = Vec::new();
        loop
            invariant
                langs == strings_view(self.languages@),
                lv == strings_view(self.document_lines@),
                start.0 == old(self).line_index,
                start.1 == old(self).content_start,
                langs == strings_view(old(self).languages@),
                lv == strings_view(old(self).document_lines@),
                self.line_index <= lv.len() || spec_tokens_from(
                    langs,
                    lv,
                    self.line_index as int,
                    self.content_start,
                ) == Seq::<MarkdownTokenView>::empty(),
                tokens_view(out@) + spec_tokens_from(
                    langs,
                    lv,
                    self.line_index as int,
                    self.content_start,
                ) == spec_tokens_from(langs, lv, start.0, start.1),
            decreases lv.len() + 1 - self.line_index,
        {
            let ghost before = (self.line_index as int, self.content_start);
            proof {
                lemma_next_token_advances(langs, lv, before.0, before.1);
            }
            match self.next() {
                None => {
                    assert(spec_tokens_from(langs, lv, before.0, before.1) == Seq::<
                        MarkdownTokenView,
                    >::empty());
                    assert(tokens_view(out@) + Seq::<MarkdownTokenView>::empty() =~= tokens_view(
                        out@,
                    ));
                    return out;
                },
                Some(t) => {
                    proof {
                        assert(spec_tokens_from(langs, lv, before.0, before.1) == seq![t@]
                            + spec_tokens_from(langs, lv, self.line_index as int, self.content_start));
                    }
                    out.push(t);
                    proof {
                        assert(tokens_view(out@) =~= tokens_view(out@.drop_last()).push(t@));
                        assert(tokens_view(out@) + spec_tokens_from(
                            langs,
                            lv,
                            self.line_index as int,
                            self.content_start,
                        ) =~= tokens_view(out@.drop_last()) + (seq![t@] + spec_tokens_from(
                            langs,
                            lv,
                            self.line_index as int,
                            self.content_start,
                        )));
                    }
                },
            }
        }
    }
}

/// Adding the code lines from index `i` on to the body of the test case
/// that is gathered; stops at the first error.
pub open spec fn spec_add_code_lines(s: LineParserView, code: Seq<(int, Seq<char>)>, i: int) -> (
    LineParserView,
    Option<ParseErrorView>,
)
    decreases code.len() - i,
{
    if i < 0 || i >= code.len() {
        (s, None)
    } else {
        let (s1, r) = spec_add_body(s, code[i].1, code[i].0);
        match r {
            Err(e) => (s1, Some(e)),
            Ok(_) => spec_add_code_lines(s1, code, i + 1),
        }
    }
}

/// The number of test code blocks from token `i` on.
pub open spec fn spec_blocks_from(tokens: Seq<MarkdownTokenView>, i: int) -> nat
    decreases tokens.len() - i,
{
    if i < 0 || i >= tokens.len() {
        0
    } else {
        (if tokens[i] is TestCodeBlock {
            1nat
        } else {
            0nat
        }) + spec_blocks_from(tokens, i + 1)
    }
}

/// Whether every test code block has code lines, with indices that leave
/// room for line numbers.
pub open spec fn spec_tokens_parsable(tokens: Seq<MarkdownTokenView>) -> bool {
    forall|i: int|
        0 <= i < tokens.len() ==> (#[trigger] tokens[i] matches MarkdownTokenView::TestCodeBlock {
            code_lines,
            ..
        } ==> code_lines.len() > 0 && forall|j: int|
            0 <= j < code_lines.len() ==> 0 <= #[trigger] code_lines[j].0 < usize::MAX)
}

/// The parser state after the tokens from index `i` on, where `para` is
/// the paragraph of title lines read last and `k` the number of test code
/// blocks before; a test code block takes the `k`-th configuration, if
/// there is one. Stops at the first error.
pub open spec fn spec_markdown_from(
    s: LineParserView,
    para: Seq<Seq<char>>,
    k: int,
    tokens: Seq<MarkdownTokenView>,
    i: int,
    configs: Seq<Option<TestCaseConfigView>>,
) -> Result<LineParserView, ParseErrorView>
    decreases tokens.len() - i,
{
    if i < 0 || i >= tokens.len() {
        Ok(s)
    } else {
        match tokens[i] {
            MarkdownTokenView::Line(_, line) => match spec_extract_title(line) {
                Some((_, title)) => {
                    let p2 = para.push(title);
                    spec_markdown_from(
                        LineParserView { title: Some(spec_join_newline(p2)), ..s },
                        p2,
                        k,
                        tokens,
                        i + 1,
                        configs,
                    )
                },
                None => spec_markdown_from(s, Seq::empty(), k, tokens, i + 1, configs),
            },
            MarkdownTokenView::DocumentConfig(_) => spec_markdown_from(
                s,
                para,
                k,
                tokens,
                i + 1,
                configs,
            ),
            MarkdownTokenView::VerbatimCodeBlock { .. } => spec_markdown_from(
                s,
                Seq::empty(),
                k,
                tokens,
                i + 1,
                configs,
            ),
            MarkdownTokenView::TestCodeBlock { code_lines, .. } => {
                let s1 = match configs[k] {
                    Some(c) => LineParserView { config: Some(c), ..s },
                    None => s,
                };
                let (s2, e) = spec_add_code_lines(s1, code_lines, 0);
                match e {
                    Some(x) => Err(x),
                    None => {
                        let (s3, e2) = spec_end_testcase(s2, code_lines.last().0);
                        match e2 {
                            Some(x) => Err(x),
                            None => spec_markdown_from(s3, Seq::empty(), k + 1, tokens, i + 1, configs),
                        }
                    },
                }
            },
        }
    }
}

/// The abstract values of optional configurations.
pub open spec fn configs_view(v: Seq<Option<TestCaseConfig>>) -> Seq<Option<TestCaseConfigView>> {
    v.map_values(
        |c: Option<TestCaseConfig>|
            match c {
                Some(x) => Some(x@),
                None => None,
            },
    )
}

/// The result of assembling the test cases of a tokenized document.
pub open spec fn spec_markdown_parse(
    tokens: Seq<MarkdownTokenView>,
    configs: Seq<Option<TestCaseConfigView>>,
) -> Result<LineParserView, ParseErrorView> {
    spec_markdown_from(spec_new_parser(false), Seq::empty(), 0, tokens, 0, configs)
}

/// A parser for Markdown documents.
pub struct MarkdownParser {
    pub expectation_maker: Arc<ExpectationMaker>,
    /// The code block languages that are test cases
    pub languages: Vec<String>,
}

impl MarkdownParser {
    /// A parser where code blocks of the given languages are test cases.
    pub fn new(expectation_maker: Arc<ExpectationMaker>, languages: &[&str]) -> (r: Self)
        ensures
            strings_view(r.languages@) == strs_view(languages@),
    {
        let it = MarkdownIterator::new(languages, "");
        MarkdownParser { expectation_maker, languages: it.languages }
    }

    /// A parser where code blocks of the languages `scrut` and `testcase` are test cases.
    pub fn default_new(expectation_maker: Arc<ExpectationMaker>) -> (r: Self)
        ensures
            strings_view(r.languages@) == seq!["scrut"@, "testcase"@],
    {
        let mut languages: Vec<String> = Vec::new();
        languages.push("scrut".to_owned());
        languages.push("testcase".to_owned());
        assert(strings_view(languages@) =~= seq!["scrut"@, "testcase"@]);
        MarkdownParser { expectation_maker, languages }
    }

    /// The tokens of a document.
    pub fn tokens(&self, text: &str) -> (r: Vec<MarkdownToken>)
        ensures
            tokens_view(r@) == spec_markdown_tokens(strings_view(self.languages@), text@),
    {
        let languages = clone_lines(&self.languages, 0, self.languages.len());
        assert(strings_view(self.languages@).subrange(0, self.languages@.len() as int)
            == strings_view(self.languages@));
        let mut it = MarkdownIterator {
            languages,
            document_lines: str_lines(text),
            line_index: 0,
            content_start: false,
        };
        it.collect_tokens()
    }

    #[verifier::loop_isolation(false)]
    /// Assembles the test cases of a tokenized document. The configuration
    /// of the `k`-th test code block is the `k`-th of the given ones, as
    /// read from its configuration line by the caller (none if it has none).
    pub fn parse_tokens(
        &self,
        tokens: &Vec<MarkdownToken>,
        configs: Vec<Option<TestCaseConfig>>,
    ) -> (r: Result<Vec<TestCase>, ParseError>)
        requires
            spec_tokens_parsable(tokens_view(tokens@)),
            configs@.len() == spec_blocks_from(tokens_view(tokens@), 0),
        ensures
            match r {
                Ok(testcases) => spec_markdown_parse(tokens_view(tokens@), configs_view(configs@))
                    matches Ok(s) && s.testcases == testcases_view(testcases@),
                Err(e) => spec_markdown_parse(tokens_view(tokens@), configs_view(configs@)) == Err::<
                    LineParserView,
                    ParseErrorView,
                >(e@),
            },
    {
        let ghost tv = tokens_view(tokens@);
        let ghost cv = configs_view(configs@);
        let mut configs = configs;
        let mut engine = LineParser::new(self.expectation_maker.clone(), false);
        let mut paragraph: Vec<String> = Vec::new();
        let mut k: usize = 0;
        let mut i: usize = 0;
        assert(strings_view(paragraph@) =~= Seq::empty());
        assert(cv.skip(0) == cv);
        let nconfigs = configs.len();
        assert(cv.len() == configs@.len());
        while i < tokens.len()
            invariant
                cv.len() <= usize::MAX,
                tv == tokens_view(tokens@),
                spec_tokens_parsable(tv),
                i <= tv.len(),
                k + spec_blocks_from(tv, i as int) == cv.len(),
                configs_view(configs@) == cv.skip(k as int),
                engine.wf(),
                spec_markdown_from(engine@, strings_view(paragraph@), k as int, tv, i as int, cv)
                    == spec_markdown_parse(tv, cv),
            decreases tv.len() - i,
        {
            assert(tv[i as int] == tokens@[i as int]@);
            match &tokens[i] {
                MarkdownToken::Line(_, line) => {
                    match extract_title(line.as_str()) {
                        Some((_, title)) => {
                            let ghost before = paragraph@;
                            paragraph.push(title);
                            assert(strings_view(paragraph@) =~= strings_view(before).push(title@));
                            let joined = join_newline(&paragraph);
                            engine.set_testcase_title(joined.as_str());
                        },
                        None => {
                            paragraph = Vec::new();
                            assert(strings_view(paragraph@) =~= Seq::empty());
                        },
                    }
                },
                MarkdownToken::DocumentConfig(_) => {},
                MarkdownToken::VerbatimCodeBlock { .. } => {
                    paragraph = Vec::new();
                    assert(strings_view(paragraph@) =~= Seq::empty());
                },
                MarkdownToken::TestCodeBlock { code_lines, .. } => {
                    let ghost code = numbered_lines_view(code_lines@);
                    let ghost s0 = engine@;
                    let ghost para0 = strings_view(paragraph@);
                    assert(tv[i as int] matches MarkdownTokenView::TestCodeBlock { code_lines: c, .. }
                        && c == code);
                    assert(k < cv.len());
                    assert(configs@.len() == configs_view(configs@).len());
                    let ghost cfg_view = cv[k as int];
                    let ghost rest = configs@;
                    let config = configs.remove(0);
                    assert(configs@ == rest.subrange(1, rest.len() as int));
                    assert forall|x: int| 0 <= x < configs@.len() implies configs_view(configs@)[x]
                        == cv.skip(k + 1)[x] by {
                        assert(configs@[x] == rest[x + 1]);
                        assert(configs_view(rest)[x + 1] == cv.skip(k as int)[x + 1]);
                    }
                    assert(configs_view(configs@) =~= cv.skip(k + 1));
                    assert(config == rest[0]);
                    assert(configs_view(rest)[0] == cfg_view);
                    match config {
                        Some(c) => engine.set_testcase_config(c),
                        None => {},
                    }
                    let ghost s1 = engine@;
                    assert(s1 == match cfg_view {
                        Some(c) => LineParserView { config: Some(c), ..s0 },
                        None => s0,
                    });
                    let mut j: usize = 0;
                    while j < code_lines.len()
                        invariant
                            code == numbered_lines_view(code_lines@),
                            forall|x: int| 0 <= x < code.len() ==> 0 <= #[trigger] code[x].0 < usize::MAX,
                            j <= code.len(),
                            engine.wf(),
                            spec_add_code_lines(engine@, code, j as int) == spec_add_code_lines(
                                s1,
                                code,
                                0,
                            ),
                            tv == tokens_view(tokens@),
                            0 <= i < tv.len(),
                            0 <= k < cv.len(),
                            tv[i as int] matches MarkdownTokenView::TestCodeBlock { code_lines: c, .. }
                                && c == code,
                            s1 == match cv[k as int] {
                                Some(c) => LineParserView { config: Some(c), ..s0 },
                                None => s0,
                            },
                            spec_markdown_from(s0, para0, k as int, tv, i as int, cv)
                                == spec_markdown_parse(tv, cv),
                        decreases code.len() - j,
                    {
                        let (index, line) = &code_lines[j];
                        assert(code[j as int] == (*index as int, line@));
                        let ghost before = engine@;
                        match engine.add_testcase_body(line.as_str(), *index) {
                            Ok(_) => {},
                            Err(e) => {
                                assert(spec_add_code_lines(before, code, j as int).1 == Some(e@));
                                assert(spec_add_code_lines(s1, code, 0).1 == Some(e@));
                                assert(spec_markdown_from(s0, para0, k as int, tv, i as int, cv)
                                    == Err::<LineParserView, ParseErrorView>(e@));
                                return Err(e);
                            },
                        }
                        j = j + 1;
                    }
                    let last = code_lines.len() - 1;
                    assert(code.last() == code[last as int]);
                    assert(spec_add_code_lines(engine@, code, j as int) == (engine@, None::<ParseErrorView>));
                    match engine.end_testcase(code_lines[last].0) {
                        Ok(()) => {},
                        Err(e) => {
                            assert(spec_markdown_from(s0, para0, k as int, tv, i as int, cv)
                                == Err::<LineParserView, ParseErrorView>(e@));
                            return Err(e);
                        },
                    }
                    paragraph = Vec::new();
                    assert(strings_view(paragraph@) =~= Seq::empty());
                    k = k + 1;
                },
            }
            i = i + 1;
        }
        Ok(engine.testcases)
    }
}

/// Whether some character of the line is not whitespace.
pub open spec fn has_visible_char(s: Seq<char>) -> bool {
    exists|i: int| 0 <= i < s.len() && !spec_is_whitespace(#[trigger] s[i])
}

proof fn lemma_trim_end_visible(s: Seq<char>)
    ensures
        has_visible_char(spec_trim_end(s)) == has_visible_char(s),
        has_visible_char(spec_trim_end(s)) ==> spec_trim_end(s).len() > 0,
    decreases s.len(),
{
    if s.len() > 0 && spec_is_whitespace(s.last()) {
        let t = s.drop_last();
        lemma_trim_end_visible(t);
        if has_visible_char(s) {
            let i = choose|i: int| 0 <= i < s.len() && !spec_is_whitespace(#[trigger] s[i]);
            assert(i < t.len());
            assert(t[i] == s[i]);
        }
        if has_visible_char(t) {
            let i = choose|i: int| 0 <= i < t.len() && !spec_is_whitespace(#[trigger] t[i]);
            assert(s[i] == t[i]);
        }
    }
}

proof fn lemma_trim_start_visible(s: Seq<char>)
    ensures
        has_visible_char(s) <==> spec_trim_start(s).len() > 0,
    decreases s.len(),
{
    if s.len() > 0 && spec_is_whitespace(s[0]) {
        let t = s.drop_first();
        lemma_trim_start_visible(t);
        if has_visible_char(s) {
            let i = choose|i: int| 0 <= i < s.len() && !spec_is_whitespace(#[trigger] s[i]);
            assert(i > 0);
            assert(t[i - 1] == s[i]);
        }
        if has_visible_char(t) {
            let i = choose|i: int| 0 <= i < t.len() && !spec_is_whitespace(#[trigger] t[i]);
            assert(s[i + 1] == t[i]);
        }
    } else if s.len() > 0 {
        assert(!spec_is_whitespace(s[0]));
    }
}

/// A line has something besides whitespace exactly when trimming leaves
/// something of it.
pub proof fn lemma_visible_iff_trimmed_nonempty(s: Seq<char>)
    ensures
        has_visible_char(s) <==> spec_trim(s).len() > 0,
{
    lemma_trim_end_visible(s);
    lemma_trim_start_visible(spec_trim_end(s));
}

/// An ordinary line of a document is a line token of its own, and content
/// has started after it exactly when it had started before or the line
/// holds something besides whitespace (a blank line starts nothing).
pub proof fn law_line_token_marks_content(
    languages: Seq<Seq<char>>,
    lines: Seq<Seq<char>>,
    pos: int,
    content_start: bool,
)
    requires
        spec_next_token(languages, lines, pos, content_start) matches Some(
            (MarkdownTokenView::Line(_, _), _, _),
        ),
    ensures
        spec_next_token(languages, lines, pos, content_start) == Some(
            (
                MarkdownTokenView::Line(pos, lines[pos]),
                pos + 1,
                content_start || has_visible_char(lines[pos]),
            ),
        ),
{
    lemma_visible_iff_trimmed_nonempty(lines[pos]);
}

/// Once content has started, a `---` line is an ordinary line: a document
/// configuration may only come before any content.
pub proof fn law_dashes_after_content_are_a_line(
    languages: Seq<Seq<char>>,
    lines: Seq<Seq<char>>,
    pos: int,
)
    requires
        0 <= pos < lines.len(),
        lines[pos] == seq!['-', '-', '-'],
    ensures
        spec_next_token(languages, lines, pos, true) == Some(
            (MarkdownTokenView::Line(pos, lines[pos]), pos + 1, true),
        ),
{
    let l = lines[pos];
    assert(spec_leading_run(l, '`') == 0);
}

/// A `---` line right after an ordinary line that holds something besides
/// whitespace is itself an ordinary line, whatever came before.
pub proof fn law_dashes_after_visible_line_are_a_line(
    languages: Seq<Seq<char>>,
    lines: Seq<Seq<char>>,
    pos: int,
    content_start: bool,
)
    requires
        spec_next_token(languages, lines, pos, content_start) matches Some(
            (MarkdownTokenView::Line(_, _), _, _),
        ),
        has_visible_char(lines[pos]),
        pos + 1 < lines.len(),
        lines[pos + 1] == seq!['-', '-', '-'],
    ensures
        spec_next_token(languages, lines, pos, content_start) matches Some((_, next, started))
            && spec_next_token(languages, lines, next, started) == Some(
            (MarkdownTokenView::Line(pos + 1, lines[pos + 1]), pos + 2, true),
        ),
{
    law_line_token_marks_content(languages, lines, pos, content_start);
    law_dashes_after_content_are_a_line(languages, lines, pos + 1);
}

proof fn lemma_find_dashes_at(lines: Seq<Seq<char>>, from: int, end: int)
    requires
        0 <= from <= end < lines.len(),
        lines[end] == seq!['-', '-', '-'],
        forall|k: int| from <= k < end ==> lines[k] != seq!['-', '-', '-'],
    ensures
        spec_find_dashes(lines, from) == Some(end),
    decreases end - from,
{
    if from < end {
        assert(!spec_is_dashes(lines[from])) by {
            if spec_is_dashes(lines[from]) {
                assert(lines[from] =~= seq!['-', '-', '-']);
            }
        }
        lemma_find_dashes_at(lines, from + 1, end);
    }
}

/// Before any content, a `---` line opens a document configuration that
/// runs to the next `---` line: the lines between, with their indices, are
/// the configuration, reading goes on after the closing line, and content
/// has not started.
pub proof fn law_front_matter_before_content(
    languages: Seq<Seq<char>>,
    lines: Seq<Seq<char>>,
    pos: int,
    end: int,
)
    requires
        0 <= pos < end < lines.len(),
        lines[pos] == seq!['-', '-', '-'],
        lines[end] == seq!['-', '-', '-'],
        forall|k: int| pos < k < end ==> lines[k] != seq!['-', '-', '-'],
    ensures
        spec_next_token(languages, lines, pos, false) == Some(
            (
                MarkdownTokenView::DocumentConfig(
                    Seq::new((end - pos - 1) as nat, |k: int| (pos + 1 + k, lines[pos + 1 + k])),
                ),
                end + 1,
                false,
            ),
        ),
{
    lemma_find_dashes_at(lines, pos + 1, end);
    assert(spec_numbered(lines, pos + 1, end) =~= Seq::new(
        (end - pos - 1) as nat,
        |k: int| (pos + 1 + k, lines[pos + 1 + k]),
    ));
}

/// In the tokens of a document, a `---` line right after an ordinary line
/// that holds something besides whitespace stays an ordinary line: the
/// tokens from that line on begin with both lines as line tokens.
pub proof fn law_tokens_keep_dashes_after_content(
    languages: Seq<Seq<char>>,
    lines: Seq<Seq<char>>,
    pos: int,
    content_start: bool,
)
    requires
        spec_next_token(languages, lines, pos, content_start) matches Some(
            (MarkdownTokenView::Line(_, _), _, _),
        ),
        has_visible_char(lines[pos]),
        pos + 1 < lines.len(),
        lines[pos + 1] == seq!['-', '-', '-'],
    ensures
        spec_tokens_from(languages, lines, pos, content_start).len() >= 2,
        spec_tokens_from(languages, lines, pos, content_start)[0] == MarkdownTokenView::Line(
            pos,
            lines[pos],
        ),
        spec_tokens_from(languages, lines, pos, content_start)[1] == MarkdownTokenView::Line(
            pos + 1,
            lines[pos + 1],
        ),
{
    law_line_token_marks_content(languages, lines, pos, content_start);
    law_dashes_after_content_are_a_line(languages, lines, pos + 1);
    let rest = spec_tokens_from(languages, lines, pos + 2, true);
    assert(spec_tokens_from(languages, lines, pos + 1, true) == seq![
        MarkdownTokenView::Line(pos + 1, lines[pos + 1]),
    ] + rest);
    assert(spec_tokens_from(languages, lines, pos, content_start) == seq![
        MarkdownTokenView::Line(pos, lines[pos]),
    ] + (seq![MarkdownTokenView::Line(pos + 1, lines[pos + 1])] + rest));
}

} // verus!
