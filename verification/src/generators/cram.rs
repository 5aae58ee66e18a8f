//! Generation of Cram documents.
use vstd::prelude::*;

use crate::generators::outcome::spec_generate_testcase;
use crate::outcome::Outcome;
use crate::parsers::cram::DEFAULT_CRAM_INDENTION;
use crate::text::{chars_of, push_char, spec_trim_end, string_from_chars, trim_end};

verus! {

broadcast use vstd::string::group_string_axioms;

/// The given number of spaces.
pub open spec fn spec_spaces(n: nat) -> Seq<char> {
    Seq::new(n, |i: int| ' ')
}

/// The text with the indention inserted after every line feed.
pub open spec fn spec_indent_after(indent: Seq<char>, t: Seq<char>) -> Seq<char>
    decreases t.len(),
{
    if t.len() == 0 {
        Seq::empty()
    } else if t[0] == '\n' {
        seq!['\n'] + indent + spec_indent_after(indent, t.drop_first())
    } else {
        seq![t[0]] + spec_indent_after(indent, t.drop_first())
    }
}

/// Every line of the text (without trailing whitespace) indented, and a
/// final line feed; nothing for an empty text.
pub open spec fn spec_cram_indented(indent: Seq<char>, from: Seq<char>) -> Seq<char> {
    if from.len() == 0 {
        Seq::empty()
    } else {
        indent + spec_indent_after(indent, spec_trim_end(from)) + seq!['\n']
    }
}

/// A test case of a Cram document: the title line (if there is a title)
/// and the indented body; or why there is no body.
pub open spec fn spec_cram_render(indention: nat, o: Outcome) -> Result<Seq<char>, Seq<char>> {
    match spec_generate_testcase(o) {
        Ok(g) => Ok(
            (if o.testcase.title@.len() == 0 {
                Seq::empty()
            } else {
                o.testcase.title@ + seq!['\n']
            }) + spec_cram_indented(spec_spaces(indention), g),
        ),
        Err(e) => Err(e),
    }
}

/// The parts joined with the separator between each two.
pub open spec fn spec_join_sep(parts: Seq<Seq<char>>, sep: Seq<char>) -> Seq<char>
    decreases parts.len(),
{
    if parts.len() == 0 {
        Seq::empty()
    } else if parts.len() == 1 {
        parts[0]
    } else {
        spec_join_sep(parts.drop_last(), sep) + sep + parts.last()
    }
}

/// The rendered test cases of the outcomes from index `i` on, or the first error.
pub open spec fn spec_cram_collect(indention: nat, os: Seq<Outcome>, i: int) -> Result<
    Seq<Seq<char>>,
    Seq<char>,
>
    decreases os.len() - i,
{
    if i < 0 || i >= os.len() {
        Ok(Seq::empty())
    } else {
        match spec_cram_render(indention, os[i]) {
            Err(e) => Err(e),
            Ok(r) => match spec_cram_collect(indention, os, i + 1) {
                Err(e) => Err(e),
                Ok(rest) => Ok(seq![r] + rest),
            },
        }
    }
}

/// A Cram document of the outcomes' test cases, separated by empty lines;
/// or the first error.
pub open spec fn spec_cram_document(indention: nat, os: Seq<Outcome>) -> Result<Seq<char>, Seq<char>> {
    match spec_cram_collect(indention, os, 0) {
        Ok(parts) => Ok(spec_join_sep(parts, seq!['\n', '\n'])),
        Err(e) => Err(e),
    }
}

fn spaces(n: usize) -> (r: String)
    ensures
        r@ == spec_spaces(n as nat),
{
    let mut s = String::new();
    let mut i: usize = 0;
    while i < n
        invariant
            i <= n,
            s@ == spec_spaces(i as nat),
        decreases n - i,
    {
        push_char(&mut s, ' ');
        assert(s@ =~= spec_spaces((i + 1) as nat));
        i = i + 1;
    }
    s
}

/// Indents every line of the text (without its trailing whitespace) and
/// ends it with a line feed; an empty text stays empty.
pub fn cram_indented(indent: &str, from: &str) -> (r: String)
    ensures
        r@ == spec_cram_indented(indent@, from@),
{
    let fc = chars_of(from);
    if fc.len() == 0 {
        return String::new();
    }
    let t = trim_end(from);
    let cs = chars_of(t.as_str());
    let ghost tv = cs@;
    let mut out = indent.to_owned();
    let ghost head = out@;
    assert(tv.skip(0) == tv);
    let mut i: usize = 0;
    while i < cs.len()
        invariant
            i <= tv.len(),
            tv == cs@,
            head + spec_indent_after(indent@, tv) == out@ + spec_indent_after(
                indent@,
                tv.skip(i as int),
            ),
        decreases tv.len() - i,
    {
        let ghost rest = tv.skip(i as int);
        assert(rest.drop_first() == tv.skip(i + 1));
        assert(rest[0] == tv[i as int]);
        push_char(&mut out, cs[i]);
        if cs[i] == '\n' {
            out.append(indent);
        }
        i = i + 1;
    }
    assert(tv.skip(i as int) == Seq::<char>::empty());
    assert(out@ + Seq::<char>::empty() == out@);
    push_char(&mut out, '\n');
    out
}

/// Renders the outcomes one by one and joins them with an empty line in
/// between; stops at the first error.
fn render_cram(indention: usize, outcomes: &[Outcome]) -> (r: Result<String, String>)
    ensures
        match r {
            Ok(s) => spec_cram_document(indention as nat, outcomes@) == Ok::<Seq<char>, Seq<char>>(
                s@,
            ),
            Err(e) => spec_cram_document(indention as nat, outcomes@) == Err::<
                Seq<char>,
                Seq<char>,
            >(e@),
        },
{
    let indent = spaces(indention);
    let ghost os = outcomes@;
    let mut out = String::new();
    let ghost mut parts: Seq<Seq<char>> = Seq::empty();
    let mut i: usize = 0;
    while i < outcomes.len()
        invariant
            os == outcomes@,
            i <= os.len(),
            parts.len() == i,
            indent@ == spec_spaces(indention as nat),
            out@ == spec_join_sep(parts, seq!['\n', '\n']),
            spec_cram_collect(indention as nat, os, 0) == match spec_cram_collect(
                indention as nat,
                os,
                i as int,
            ) {
                Ok(rest) => Ok(parts + rest),
                Err(e) => Err(e),
            },
        decreases os.len() - i,
    {
        let o = &outcomes[i];
        let generated = match o.generate_testcase() {
            Ok(g) => g,
            Err(e) => {
                return Err(e);
            },
        };
        let mut rendered = String::new();
        let title = chars_of(o.testcase.title.as_str());
        if title.len() > 0 {
            rendered.append(o.testcase.title.as_str());
            push_char(&mut rendered, '\n');
        }
        let ghost title_part = rendered@;
        assert(title_part == (if o.testcase.title@.len() == 0 {
            Seq::<char>::empty()
        } else {
            o.testcase.title@ + seq!['\n']
        }));
        let body = cram_indented(indent.as_str(), generated.as_str());
        rendered.append(body.as_str());
        assert(rendered@ == title_part + body@);
        assert(spec_cram_render(indention as nat, os[i as int]) == Ok::<Seq<char>, Seq<char>>(
            rendered@,
        ));
        if i > 0 {
            out.append("\n\n");
        }
        out.append(rendered.as_str());
        proof {
            reveal_strlit("\n\n");
            let np = parts.push(rendered@);
            assert(np.drop_last() == parts);
            assert(spec_cram_collect(indention as nat, os, i as int) == match spec_cram_collect(
                indention as nat,
                os,
                i + 1,
            ) {
                Ok(rest) => Ok(seq![rendered@] + rest),
                Err(e) => Err(e),
            });
            if let Ok(rest) = spec_cram_collect(indention as nat, os, i + 1) {
                assert(parts + (seq![rendered@] + rest) == np + rest);
            }
            if i == 0 {
                assert(np == seq![rendered@]);
            }
            parts = np;
        }
        i = i + 1;
    }
    assert(parts + Seq::<Seq<char>>::empty() == parts);
    Ok(out)
}

/// Updates test cases in a Cram document by rendering them anew.
pub struct CramUpdateGenerator {
    pub indention: usize,
}

impl CramUpdateGenerator {
    /// A generator of test case bodies indented by the given number of spaces.
    pub fn new(indention: usize) -> (r: Self)
        ensures
            r.indention == indention,
    {
        Self { indention }
    }

    /// The document made of the test cases of the outcomes: each rendered
    /// with its title, separated by empty lines. Without outcomes the
    /// original document stays as it is.
    pub fn generate_update(&self, original_document: &str, outcomes: &[Outcome]) -> (r: Result<
        String,
        String,
    >)
        ensures
            outcomes@.len() == 0 ==> (r matches Ok(s) && s@ == original_document@),
            outcomes@.len() > 0 ==> match r {
                Ok(s) => spec_cram_document(self.indention as nat, outcomes@) == Ok::<
                    Seq<char>,
                    Seq<char>,
                >(s@),
                Err(e) => spec_cram_document(self.indention as nat, outcomes@) == Err::<
                    Seq<char>,
                    Seq<char>,
                >(e@),
            },
    {
        if outcomes.len() == 0 {
            return Ok(original_document.to_owned());
        }
        render_cram(self.indention, outcomes)
    }
}

impl Default for CramUpdateGenerator {
    fn default() -> (r: Self)
        ensures
            r.indention == DEFAULT_CRAM_INDENTION,
    {
        Self::new(DEFAULT_CRAM_INDENTION)
    }
}

/// Generates new Cram documents from shell expressions and their output.
pub struct CramTestCaseGenerator {
    pub indention: usize,
}

impl CramTestCaseGenerator {
    /// A generator of test case bodies indented by the given number of spaces.
    pub fn new(indention: usize) -> (r: Self)
        ensures
            r.indention == indention,
    {
        Self { indention }
    }

    /// The document made of the test cases of the outcomes: each rendered
    /// with its title, separated by empty lines.
    pub fn generate_testcases(&self, outcomes: &[Outcome]) -> (r: Result<String, String>)
        ensures
            match r {
                Ok(s) => spec_cram_document(self.indention as nat, outcomes@) == Ok::<
                    Seq<char>,
                    Seq<char>,
                >(s@),
                Err(e) => spec_cram_document(self.indention as nat, outcomes@) == Err::<
                    Seq<char>,
                    Seq<char>,
                >(e@),
            },
    {
        render_cram(self.indention, outcomes)
    }
}

impl Default for CramTestCaseGenerator {
    fn default() -> (r: Self)
        ensures
            r.indention == DEFAULT_CRAM_INDENTION,
    {
        Self::new(DEFAULT_CRAM_INDENTION)
    }
}

} // verus!
