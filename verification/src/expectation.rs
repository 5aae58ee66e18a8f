//! Expectations about lines of output, and their textual form
//! `<expression> (<kind><quantifier>)`.
use vstd::prelude::*;

use crate::newline::spec_trim_newlines;
use crate::rules::{
    kind_from_chars, spec_make_ok, regex_compiles, spec_anchored, spec_expression_string, spec_kind_from_name, spec_kind_name,
    spec_quantifier,
    spec_make_error, Rule, RuleError, RuleErrorView, RuleKind,
};
use crate::escaping::Escaper;
use crate::text::{chars_of, string_from_chars};
use crate::newline::trim_newlines;
use vstd::utf8::encode_utf8;

verus! {

/// An expectation about one or several subsequent lines of output, which
/// may be optional.
#[derive(Debug)]
pub struct Expectation {
    /// Optional expectations are lines that may or may not occur in the output
    pub optional: bool,
    /// Multiline expectations (can) match multiple sequential lines of output
    pub multiline: bool,
    /// The rule that decides whether a line matches
    pub rule: Rule,
    /// The expression as it was written in the test file
    pub original: String,
}

/// The abstract value of an [`Expectation`].
pub struct ExpectationView {
    pub optional: bool,
    pub multiline: bool,
    pub kind: RuleKind,
    pub expression: Seq<char>,
    pub original: Seq<char>,
}

impl View for Expectation {
    type V = ExpectationView;

    open spec fn view(&self) -> ExpectationView {
        ExpectationView {
            optional: self.optional,
            multiline: self.multiline,
            kind: self.rule.kind,
            expression: self.rule.expression@,
            original: self.original@,
        }
    }
}

/// The expectation that a line of a test document parses to, if any:
/// `None` when the kind is unknown or a regular expression does not compile.
pub open spec fn spec_parse_expectation(line: Seq<char>) -> Option<ExpectationView> {
    let (e, k, q) = spec_extract(line);
    if spec_make_ok(k, e) {
        Some(
            ExpectationView {
                optional: spec_is_optional(q),
                multiline: spec_is_multiline(q),
                kind: spec_kind_from_name(k)->0,
                expression: e,
                original: spec_trim_newlines(line, '\n'),
            },
        )
    } else {
        None
    }
}

/// Why a line of a test document is no expectation, where it is none: the
/// kind name that denotes no rule, else the regular expression that does not
/// compile.
pub open spec fn spec_parse_expectation_error(line: Seq<char>) -> RuleErrorView {
    let (e, k, q) = spec_extract(line);
    spec_make_error(k, e)
}

impl Clone for Expectation {
    fn clone(&self) -> (r: Self)
        ensures
            r == *self,
    {
        Expectation {
            optional: self.optional,
            multiline: self.multiline,
            rule: self.rule.clone(),
            original: self.original.clone(),
        }
    }
}

impl PartialEq for Expectation {
    fn eq(&self, other: &Self) -> (r: bool) {
        self.optional == other.optional && self.multiline == other.multiline
            && self.rule.kind == other.rule.kind && self.rule.expression == other.rule.expression
    }
}

impl vstd::std_specs::cmp::PartialEqSpecImpl for Expectation {
    open spec fn obeys_eq_spec() -> bool {
        true
    }

    open spec fn eq_spec(&self, other: &Self) -> bool {
        self.optional == other.optional && self.multiline == other.multiline && self.rule.kind
            == other.rule.kind && self.rule.expression@ == other.rule.expression@
    }
}

impl Expectation {
    /// Whether the line matches this expectation.
    pub open spec fn spec_matches(self, line: Seq<u8>) -> bool {
        self.rule.spec_matches(line)
    }

    /// Decomposes the expectation into the parts it is made of: the kind
    /// name, the expression bytes, and the optional and multiline flags.
    pub fn unmake(&self) -> (r: (String, Vec<u8>, bool, bool))
        ensures
            r.0@ == spec_kind_name(self.rule.kind),
            r.1@ == encode_utf8(self.rule.expression@),
            r.2 == self.optional,
            r.3 == self.multiline,
    {
        let (kind, expression) = self.rule.unmake();
        (kind, expression, self.optional, self.multiline)
    }

    /// Whether the line matches this expectation.
    pub fn matches(&self, line: &[u8]) -> (r: bool)
        ensures
            r == self.spec_matches(line@),
    {
        self.rule.matches(line)
    }

    /// The textual form from which this expectation parses back.
    pub fn to_expression_string(&self, escaper: &Escaper) -> (r: String)
        ensures
            r@ == spec_expression_string(
                self.rule.kind,
                self.rule.expression@,
                self.optional,
                self.multiline,
            ),
    {
        self.rule.to_expression_string(self.optional, self.multiline)
    }

    /// The expression as it was written in the test file.
    pub fn original_string(&self) -> (r: String)
        ensures
            r@ == self.original@,
    {
        self.original.clone()
    }
}

/// A copy of a list of expectations.
pub fn clone_expectations(v: &Vec<Expectation>) -> (r: Vec<Expectation>)
    ensures
        r@ == v@,
{
    let mut r: Vec<Expectation> = Vec::new();
    let mut i: usize = 0;
    while i < v.len()
        invariant
            i <= v@.len(),
            r@ == v@.take(i as int),
        decreases v@.len() - i,
    {
        assert(v@.take(i + 1) == v@.take(i as int).push(v@[i as int]));
        r.push(v[i].clone());
        i = i + 1;
    }
    assert(v@.take(v@.len() as int) == v@);
    r
}

/// Whitespace that separates an expression from its kind suffix.
pub open spec fn is_space(c: char) -> bool {
    c == ' ' || c == '\t' || c == '\n' || c == '\r' || c == '\x0b' || c == '\x0c'
}

/// Whether a character is a quantifier.
pub open spec fn is_quantifier(c: char) -> bool {
    c == '?' || c == '*' || c == '+'
}

/// The last index that holds the character, if any.
pub open spec fn spec_last_index_of(s: Seq<char>, c: char) -> Option<int>
    decreases s.len(),
{
    if s.len() == 0 {
        None
    } else if s.last() == c {
        Some(s.len() - 1)
    } else {
        spec_last_index_of(s.drop_last(), c)
    }
}

/// Splits the text between the parentheses of a suffix into a kind name
/// (possibly empty) and a quantifier (possibly empty), if it has that form.
pub open spec fn spec_split_kind(inner: Seq<char>) -> Option<(Seq<char>, Seq<char>)> {
    let has_q = inner.len() > 0 && is_quantifier(inner.last());
    let k = if has_q {
        inner.drop_last()
    } else {
        inner
    };
    let q = if has_q {
        seq![inner.last()]
    } else {
        seq![]
    };
    if k.len() == 0 || spec_kind_from_name(k) is Some {
        Some((k, q))
    } else {
        None
    }
}

/// The start of the run of whitespace that ends at `p`.
pub open spec fn spec_space_run_start(s: Seq<char>, p: int) -> int
    decreases p,
{
    if p > 0 && is_space(s[p - 1]) {
        spec_space_run_start(s, p - 1)
    } else {
        p
    }
}

/// The index of the opening parenthesis of a kind suffix
/// `<whitespace>(<kind><quantifier>)` that ends the line, if the line has one.
pub open spec fn spec_suffix_start(line: Seq<char>) -> Option<int> {
    if line.len() > 0 && line.last() == ')' {
        match spec_last_index_of(line, '(') {
            Some(p) => if 0 < p < line.len() - 1 && is_space(line[p - 1]) && spec_split_kind(
                line.subrange(p + 1, line.len() - 1),
            ) is Some {
                Some(p)
            } else {
                None
            },
            None => None,
        }
    } else {
        None
    }
}

/// Splits an expectation line into expression, kind name and quantifier.
/// Without suffix the whole line is the expression of an equality; an empty
/// kind name is equality too.
pub open spec fn spec_extract(line: Seq<char>) -> (Seq<char>, Seq<char>, Seq<char>) {
    match spec_suffix_start(line) {
        Some(p) => {
            let (k, q) = spec_split_kind(line.subrange(p + 1, line.len() - 1))->0;
            (
                line.take(spec_space_run_start(line, p)),
                if k.len() == 0 {
                    "equal"@
                } else {
                    k
                },
                q,
            )
        },
        None => (line, "equal"@, ""@),
    }
}

/// Whether a quantifier makes an expectation optional.
pub open spec fn spec_is_optional(q: Seq<char>) -> bool {
    q == "*"@ || q == "?"@
}

/// Whether a quantifier makes an expectation multiline.
pub open spec fn spec_is_multiline(q: Seq<char>) -> bool {
    q == "*"@ || q == "+"@
}

fn last_index_of(s: &[char], c: char) -> (r: Option<usize>)
    ensures
        match r {
            Some(i) => spec_last_index_of(s@, c) == Some(i as int),
            None => spec_last_index_of(s@, c) is None,
        },
{
    let mut k: usize = s.len();
    assert(s@.take(s@.len() as int) == s@);
    while k > 0
        invariant
            k <= s@.len(),
            spec_last_index_of(s@, c) == spec_last_index_of(s@.take(k as int), c),
        decreases k,
    {
        if s[k - 1] == c {
            return Some(k - 1);
        }
        assert(s@.take(k as int).drop_last() == s@.take(k - 1));
        k = k - 1;
    }
    None
}

proof fn lemma_last_index_bound(s: Seq<char>, c: char)
    ensures
        spec_last_index_of(s, c) matches Some(p) ==> 0 <= p < s.len() && s[p] == c,
    decreases s.len(),
{
    if s.len() > 0 && s.last() != c {
        lemma_last_index_bound(s.drop_last(), c);
    }
}

fn is_space_exec(c: char) -> (r: bool)
    ensures
        r == is_space(c),
{
    c == ' ' || c == '\t' || c == '\n' || c == '\r' || c == '\x0b' || c == '\x0c'
}

fn split_kind(inner: &[char]) -> (r: Option<(Vec<char>, Vec<char>)>)
    ensures
        match r {
            Some((k, q)) => spec_split_kind(inner@) == Some((k@, q@)),
            None => spec_split_kind(inner@) is None,
        },
{
    let n = inner.len();
    let has_q = n > 0 && (inner[n - 1] == '?' || inner[n - 1] == '*' || inner[n - 1] == '+');
    let klen = if has_q {
        n - 1
    } else {
        n
    };
    let k = vstd::slice::slice_to_vec(&inner[0..klen]);
    let mut q: Vec<char> = Vec::new();
    if has_q {
        q.push(inner[n - 1]);
    }
    assert(has_q ==> k@ == inner@.drop_last());
    assert(!has_q ==> k@ == inner@);
    if klen == 0 || kind_from_chars(k.as_slice()).is_some() {
        Some((k, q))
    } else {
        None
    }
}

fn space_run_start(s: &[char], p: usize) -> (w: usize)
    requires
        p <= s@.len(),
    ensures
        w == spec_space_run_start(s@, p as int),
        w <= p,
{
    let mut w = p;
    while w > 0 && is_space_exec(s[w - 1])
        invariant
            w <= p,
            p <= s@.len(),
            spec_space_run_start(s@, p as int) == spec_space_run_start(s@, w as int),
        decreases w,
    {
        w = w - 1;
    }
    w
}

fn suffix_start(line: &[char]) -> (r: Option<usize>)
    ensures
        match r {
            Some(p) => spec_suffix_start(line@) == Some(p as int),
            None => spec_suffix_start(line@) is None,
        },
{
    let n = line.len();
    if n == 0 || line[n - 1] != ')' {
        return None;
    }
    proof {
        lemma_last_index_bound(line@, '(');
    }
    match last_index_of(line, '(') {
        Some(p) => {
            if 0 < p && p < n - 1 && is_space_exec(line[p - 1]) {
                let inner = &line[p + 1..n - 1];
                if split_kind(inner).is_some() {
                    Some(p)
                } else {
                    None
                }
            } else {
                None
            }
        },
        None => None,
    }
}

/// Makes [`Expectation`]s from their textual form or from their parts.
pub struct ExpectationMaker;

impl ExpectationMaker {
    /// A maker for the rules this library knows.
    pub fn new() -> (r: ExpectationMaker) {
        ExpectationMaker
    }

    /// Splits an expectation line into expression, kind name and quantifier.
    pub fn extract(&self, line: &str) -> (r: (String, String, String))
        ensures
            (r.0@, r.1@, r.2@) == spec_extract(line@),
    {
        let cs = chars_of(line);
        let n = cs.len();
        match suffix_start(cs.as_slice()) {
            Some(p) => {
                proof {
                    lemma_last_index_bound(line@, '(');
                }
                let inner = &cs.as_slice()[p + 1..n - 1];
                let (k, q) = split_kind(inner).unwrap();
                let w = space_run_start(cs.as_slice(), p);
                let expression = string_from_chars(&cs.as_slice()[0..w]);
                let kind = if k.len() == 0 {
                    "equal".to_owned()
                } else {
                    string_from_chars(k.as_slice())
                };
                let quantifier = string_from_chars(q.as_slice());
                assert(cs@.subrange(0, w as int) == line@.take(w as int));
                (expression, kind, quantifier)
            },
            None => (line.to_owned(), "equal".to_owned(), "".to_owned()),
        }
    }

    /// Makes an expectation from its parts: an error if no rule of that
    /// kind can be made of the expression.
    pub fn make(
        &self,
        kind: &str,
        expression: &str,
        optional: bool,
        multiline: bool,
        original: &str,
    ) -> (r: Result<Expectation, RuleError>)
        ensures
            r is Ok <==> spec_make_ok(kind@, expression@),
            r matches Ok(e) ==> e.optional == optional && e.multiline == multiline
                && e.rule.kind == spec_kind_from_name(kind@)->0 && e.rule.expression@
                == expression@ && e.original@ == original@,
            r matches Err(err) ==> err@ == spec_make_error(kind@, expression@),
    {
        let rule = Rule::make(kind, expression)?;
        Ok(Expectation { optional, multiline, rule, original: original.to_owned() })
    }

    /// Parses an expectation from its textual form
    /// `<expression>`, `<expression> (<kind>)`, `<expression> (<quantifier>)`
    /// or `<expression> (<kind><quantifier>)`, where the kind is one of
    /// `equal`/`eq`, `no-eol`, `escaped`/`esc`, `glob`/`gl`, `regex`/`re`
    /// and the quantifier one of `?`, `*`, `+`.
    pub fn parse(&self, line: &str) -> (r: Result<Expectation, RuleError>)
        ensures
            ({
                let (e, k, q) = spec_extract(line@);
                &&& r is Ok <==> spec_make_ok(k, e)
                &&& r matches Ok(x) ==> x.rule.kind == spec_kind_from_name(k)->0
                    && x.rule.expression@ == e && x.optional == spec_is_optional(q)
                    && x.multiline == spec_is_multiline(q) && x.original@ == spec_trim_newlines(
                    line@,
                    '\n',
                )
            }),
            match r {
                Ok(x) => spec_parse_expectation(line@) == Some(x@),
                Err(err) => spec_parse_expectation(line@) is None && err@
                    == spec_parse_expectation_error(line@),
            },
    {
        let (expression, kind, quantifier) = self.extract(line);
        let qc = chars_of(quantifier.as_str());
        let multiline = crate::text::chars_equal(qc.as_slice(), "*") || crate::text::chars_equal(
            qc.as_slice(),
            "+",
        );
        let optional = crate::text::chars_equal(qc.as_slice(), "*") || crate::text::chars_equal(
            qc.as_slice(),
            "?",
        );
        let original = trim_newlines(line);
        self.make(kind.as_str(), expression.as_str(), optional, multiline, original.as_str())
    }
}

proof fn lemma_last_index_before(a: Seq<char>, b: Seq<char>, c: char)
    requires
        a.len() > 0,
        a.last() == c,
        !b.contains(c),
    ensures
        spec_last_index_of(a + b, c) == Some(a.len() - 1),
    decreases b.len(),
{
    if b.len() == 0 {
        assert(a + b =~= a);
    } else {
        assert((a + b).drop_last() =~= a + b.drop_last());
        assert((a + b).last() == b.last());
        assert(!b.drop_last().contains(c)) by {
            if b.drop_last().contains(c) {
                let j = choose|j: int| 0 <= j < b.drop_last().len() && b.drop_last()[j] == c;
                assert(b[j] == c);
            }
        }
        lemma_last_index_before(a, b.drop_last(), c);
    }
}

proof fn lemma_quantifier(optional: bool, multiline: bool)
    ensures
        spec_quantifier(optional, multiline).len() <= 1,
        spec_quantifier(optional, multiline).len() == 1 ==> is_quantifier(
            spec_quantifier(optional, multiline)[0],
        ),
        spec_quantifier(optional, multiline).len() == 0 <==> !optional && !multiline,
        spec_is_optional(spec_quantifier(optional, multiline)) == optional,
        spec_is_multiline(spec_quantifier(optional, multiline)) == multiline,
{
    reveal_strlit("*");
    reveal_strlit("+");
    reveal_strlit("?");
    reveal_strlit("");
    let q = spec_quantifier(optional, multiline);
    if q.len() == 1 {
        assert(q[0] == '*' || q[0] == '+' || q[0] == '?');
        if q[0] != '*' {
            assert("*"@[0] != q[0]);
        }
        if q[0] != '+' {
            assert("+"@[0] != q[0]);
        }
        if q[0] != '?' {
            assert("?"@[0] != q[0]);
        }
    }
}

proof fn lemma_kind_name(k: RuleKind)
    ensures
        spec_kind_from_name(spec_kind_name(k)) == Some(k),
        spec_kind_name(k).len() > 0,
        !is_quantifier(spec_kind_name(k).last()),
        !spec_kind_name(k).contains('('),
{
    reveal_strlit("equal");
    reveal_strlit("eq");
    reveal_strlit("no-eol");
    reveal_strlit("escaped");
    reveal_strlit("esc");
    reveal_strlit("glob");
    reveal_strlit("gl");
    reveal_strlit("regex");
    reveal_strlit("re");
    let n = spec_kind_name(k);
    match k {
        RuleKind::Equal => {
            assert(n.len() != "eq"@.len());
        },
        RuleKind::NoEol => {
            assert(n.len() != "equal"@.len() && n.len() != "eq"@.len());
        },
        RuleKind::Escaped => {
            assert(n.len() != "eq"@.len() && n.len() != "no-eol"@.len() && n.len() != "equal"@.len());
        },
        RuleKind::Glob => {
            assert(n.len() != "eq"@.len() && n.len() != "no-eol"@.len() && n.len() != "escaped"@.len()
                && n.len() != "esc"@.len() && n.len() != "equal"@.len());
        },
        RuleKind::Regex => {
            assert(n.len() != "eq"@.len() && n.len() != "no-eol"@.len() && n.len() != "escaped"@.len()
                && n.len() != "esc"@.len() && n.len() != "glob"@.len() && n.len() != "gl"@.len());
            assert(n[0] != "equal"@[0]);
        },
    }
    if n.contains('(') {
        let j = choose|j: int| 0 <= j < n.len() && n[j] == '(';
        assert(n[j] != '(');
    }
}

proof fn lemma_split_kind_of(name: Seq<char>, q: Seq<char>)
    requires
        q.len() <= 1,
        q.len() == 1 ==> is_quantifier(q[0]),
        name.len() == 0 ==> q.len() == 1,
        name.len() > 0 ==> !is_quantifier(name.last()) && spec_kind_from_name(name) is Some,
    ensures
        spec_split_kind(name + q) == Some((name, q)),
{
    let s = name + q;
    if q.len() == 1 {
        assert(s.last() == q[0]);
        assert(s.drop_last() =~= name);
        assert(seq![s.last()] =~= q);
    } else {
        assert(s =~= name);
        assert(q =~= Seq::<char>::empty());
    }
}

proof fn lemma_space_run_after(line: Seq<char>, e: Seq<char>)
    requires
        line.len() > e.len() + 1,
        line.take(e.len() as int) == e,
        line[e.len() as int] == ' ',
        e.len() == 0 || !is_space(e.last()),
    ensures
        spec_space_run_start(line, e.len() as int + 1) == e.len(),
{
    let k = e.len() as int;
    assert(is_space(line[k]));
    if k > 0 {
        assert(line[k - 1] == line.take(k)[k - 1]);
        assert(!is_space(line[k - 1]));
    }
    assert(spec_space_run_start(line, k) == k);
}

/// An expectation written in its textual form parses back to the same kind,
/// expression and quantifier. The expression must not end in whitespace
/// where a kind suffix follows it (that whitespace separates the suffix), and
/// a plain equality without quantifier must not itself end in something that
/// reads as a suffix; a regular expression must compile.
#[verifier::rlimit(40)]
pub proof fn law_expression_string_parses_back(
    kind: RuleKind,
    e: Seq<char>,
    optional: bool,
    multiline: bool,
)
    requires
        kind == RuleKind::Equal && !optional && !multiline ==> spec_suffix_start(e) is None,
        !(kind == RuleKind::Equal && !optional && !multiline) ==> e.len() == 0 || !is_space(
            e.last(),
        ),
        kind == RuleKind::Regex ==> regex_compiles(spec_anchored(e)),
    ensures
        spec_parse_expectation(spec_expression_string(kind, e, optional, multiline)) matches Some(v)
            && v.kind == kind && v.expression == e && v.optional == optional && v.multiline
            == multiline,
{
    reveal_strlit(" (");
    reveal_strlit(")");
    reveal_strlit("");
    reveal_strlit("equal");
    lemma_quantifier(optional, multiline);
    let line = spec_expression_string(kind, e, optional, multiline);
    let q = spec_quantifier(optional, multiline);
    if kind == RuleKind::Equal && !optional && !multiline {
        assert(line == e);
        assert(spec_extract(line) == (e, "equal"@, ""@));
        lemma_kind_name(RuleKind::Equal);
    } else {
        let name = if kind == RuleKind::Equal {
            Seq::<char>::empty()
        } else {
            spec_kind_name(kind)
        };
        lemma_kind_name(kind);
        let s = name + q;
        let a = e + seq![' ', '('];
        let b = s + seq![')'];
        assert(line =~= a + b);
        assert(!b.contains('(')) by {
            if b.contains('(') {
                let j = choose|j: int| 0 <= j < b.len() && b[j] == '(';
                if j < name.len() {
                    assert(name[j] == '(');
                    assert(name.contains('('));
                } else if j < s.len() {
                    assert(q[j - name.len()] == '(');
                }
            }
        }
        lemma_last_index_before(a, b, '(');
        let p: int = e.len() as int + 1;
        assert(spec_last_index_of(line, '(') == Some(p));
        assert(line.subrange(p + 1, line.len() - 1) =~= s);
        lemma_split_kind_of(name, q);
        assert(spec_suffix_start(line) == Some(p));
        assert(line.take(e.len() as int) =~= e);
        lemma_space_run_after(line, e);
        assert(spec_extract(line).0 == e);
    }
}

proof fn lemma_space_run_start_bounds(s: Seq<char>, p: int)
    requires
        0 <= p <= s.len(),
    ensures
        0 <= spec_space_run_start(s, p) <= p,
        spec_space_run_start(s, p) == 0 || !is_space(s[spec_space_run_start(s, p) - 1]),
    decreases p,
{
    if p > 0 && is_space(s[p - 1]) {
        lemma_space_run_start_bounds(s, p - 1);
    }
}

/// Every expectation that a line parses to, written in its textual form,
/// parses back to the same kind, expression and quantifier. The one
/// exception is a plain equality without quantifier whose expression itself
/// ends in what reads as a kind suffix (as the line `a (glob) (equal)` gives
/// the expression `a (glob)`): its textual form is the bare expression,
/// which reads as that suffix.
pub proof fn law_parsed_expectation_string_parses_back(line: Seq<char>)
    requires
        spec_parse_expectation(line) matches Some(v) && !(v.kind == RuleKind::Equal && !v.optional
            && !v.multiline && spec_suffix_start(v.expression) is Some),
    ensures
        spec_parse_expectation(line) matches Some(v) && spec_parse_expectation(
            spec_expression_string(v.kind, v.expression, v.optional, v.multiline),
        ) matches Some(w) && w.kind == v.kind && w.expression == v.expression && w.optional
            == v.optional && w.multiline == v.multiline,
{
    reveal_strlit("");
    reveal_strlit("*");
    reveal_strlit("?");
    reveal_strlit("+");
    reveal_strlit("equal");
    let v = spec_parse_expectation(line)->0;
    let (e, k, q) = spec_extract(line);
    assert(v.expression == e);
    if !(v.kind == RuleKind::Equal && !v.optional && !v.multiline) {
        match spec_suffix_start(line) {
            Some(p) => {
                lemma_space_run_start_bounds(line, p);
                let r = spec_space_run_start(line, p);
                assert(e == line.take(r));
                if r > 0 {
                    assert(e.last() == line[r - 1]);
                }
            },
            None => {
                assert(q == ""@);
                assert(!spec_is_optional(q) && !spec_is_multiline(q));
                lemma_kind_name(RuleKind::Equal);
            },
        }
    }
    law_expression_string_parses_back(v.kind, v.expression, v.optional, v.multiline);
}

/// What unmaking gives makes the expectation again: the canonical kind name
/// names its kind, and the bytes of the expression are valid UTF-8 that
/// decodes to the expression; so, where its rule is valid (a regular
/// expression compiles), making an expectation of these with the same flags
/// succeeds, with the same kind, expression and flags.
pub proof fn law_unmake_then_make(x: Expectation)
    requires
        x.rule.spec_valid(),
    ensures
        spec_kind_from_name(spec_kind_name(x.rule.kind)) == Some(x.rule.kind),
        vstd::utf8::valid_utf8(encode_utf8(x.rule.expression@)),
        vstd::utf8::decode_utf8(encode_utf8(x.rule.expression@)) == x.rule.expression@,
        spec_make_ok(
            spec_kind_name(x.rule.kind),
            vstd::utf8::decode_utf8(encode_utf8(x.rule.expression@)),
        ),
{
    lemma_kind_name(x.rule.kind);
    vstd::utf8::encode_utf8_valid_utf8(x.rule.expression@);
    vstd::utf8::encode_utf8_decode_utf8(x.rule.expression@);
}

} // verus!
