//! The rules by which an expectation matches a line of output: equality,
//! equality without line end, escaped equality, glob and regular expression.
use vstd::prelude::*;
use vstd::string::StringSliceAdditionalSpecFns;
use vstd::utf8::encode_utf8;

use crate::newline::{spec_ends_in, NL};
use crate::text::{bytes_equal, chars_equal, chars_of};
use vstd::slice::slice_to_vec;

verus! {

/// The kind of rule an expectation applies.
#[derive(Debug, Clone, Copy, PartialEq, Eq, Structural)]
pub enum RuleKind {
    /// The line (with its LF) equals the expression
    Equal,
    /// The line has no LF and equals the expression
    NoEol,
    /// The line without its LF equals the expression after unescaping
    Escaped,
    /// The line without its LF matches the expression as a glob
    Glob,
    /// The line without its LF matches the expression as a regular expression
    Regex,
}

/// The rule kind that a kind name (long or short form) denotes.
pub open spec fn spec_kind_from_name(name: Seq<char>) -> Option<RuleKind> {
    if name == "equal"@ || name == "eq"@ {
        Some(RuleKind::Equal)
    } else if name == "no-eol"@ {
        Some(RuleKind::NoEol)
    } else if name == "escaped"@ || name == "esc"@ {
        Some(RuleKind::Escaped)
    } else if name == "glob"@ || name == "gl"@ {
        Some(RuleKind::Glob)
    } else if name == "regex"@ || name == "re"@ {
        Some(RuleKind::Regex)
    } else {
        None
    }
}

/// The canonical name of a rule kind.
pub open spec fn spec_kind_name(kind: RuleKind) -> Seq<char> {
    match kind {
        RuleKind::Equal => "equal"@,
        RuleKind::NoEol => "no-eol"@,
        RuleKind::Escaped => "escaped"@,
        RuleKind::Glob => "glob"@,
        RuleKind::Regex => "regex"@,
    }
}

/// The line without one trailing LF, if it has one.
pub open spec fn spec_line_body(line: Seq<u8>) -> Seq<u8> {
    if spec_ends_in(line, NL) {
        line.drop_last()
    } else {
        line
    }
}

/// Whether a byte is a hexadecimal digit.
pub open spec fn is_hex_byte(b: u8) -> bool {
    (48 <= b <= 57) || (97 <= b <= 102) || (65 <= b <= 70)
}

/// The value of a hexadecimal digit.
pub open spec fn hex_value(b: u8) -> u8 {
    if 48 <= b <= 57 {
        (b - 48) as u8
    } else if 97 <= b <= 102 {
        (b - 87) as u8
    } else {
        (b - 55) as u8
    }
}

/// The byte a one-letter escape class stands for, if it is one.
pub open spec fn escape_class(c: u8) -> Option<u8> {
    if c == 110 {
        Some(10u8)
    } else if c == 114 {
        Some(13u8)
    } else if c == 116 {
        Some(9u8)
    } else if c == 97 {
        Some(7u8)
    } else if c == 98 {
        Some(8u8)
    } else if c == 102 {
        Some(12u8)
    } else if c == 118 {
        Some(11u8)
    } else if c == 92 {
        Some(92u8)
    } else {
        None
    }
}

/// Unescapes `\n`, `\r`, `\t`, `\a`, `\b`, `\f`, `\v`, `\\` and `\xNN`;
/// any other byte (a backslash that starts no escape included) stands for itself.
pub open spec fn spec_unescape(s: Seq<u8>) -> Seq<u8>
    decreases s.len(),
{
    if s.len() == 0 {
        seq![]
    } else if s[0] == 92 && s.len() >= 2 && escape_class(s[1]) is Some {
        seq![escape_class(s[1])->0] + spec_unescape(s.skip(2))
    } else if s[0] == 92 && s.len() >= 4 && s[1] == 120 && is_hex_byte(s[2]) && is_hex_byte(s[3]) {
        seq![(hex_value(s[2]) * 16 + hex_value(s[3])) as u8] + spec_unescape(s.skip(4))
    } else {
        seq![s[0]] + spec_unescape(s.drop_first())
    }
}

/// Glob matching: `*` matches any run of bytes, `?` any single byte, every
/// other byte itself.
pub open spec fn spec_glob_match(p: Seq<u8>, t: Seq<u8>) -> bool
    decreases p.len() + t.len(),
{
    if p.len() == 0 {
        t.len() == 0
    } else if p[0] == 42 {
        spec_glob_match(p.drop_first(), t) || (t.len() > 0 && spec_glob_match(p, t.drop_first()))
    } else if t.len() == 0 {
        false
    } else if p[0] == 63 || p[0] == t[0] {
        spec_glob_match(p.drop_first(), t.drop_first())
    } else {
        false
    }
}

/// Whether `regex::bytes::Regex::new` accepts the pattern.
pub uninterp spec fn regex_compiles(pattern: Seq<char>) -> bool;

/// Whether `regex::bytes::Regex::is_match` finds the pattern in the haystack.
pub uninterp spec fn regex_is_match(pattern: Seq<char>, haystack: Seq<u8>) -> bool;

/// Compiles the pattern with `regex::bytes::Regex::new` and, where it
/// compiles, tells whether `regex::bytes::Regex::is_match` finds it in the
/// haystack. Both results are left to their names.
#[verifier::external_body]
pub(crate) fn regex_match(pattern: &str, haystack: &[u8]) -> (r: Option<bool>)
    ensures
        r is Some <==> regex_compiles(pattern@),
        r matches Some(b) ==> b == regex_is_match(pattern@, haystack@),
{
    match regex::bytes::Regex::new(pattern) {
        Ok(re) => Some(re.is_match(haystack)),
        Err(_) => None,
    }
}

/// The regular expression anchored to match a whole line.
pub open spec fn spec_anchored(expression: Seq<char>) -> Seq<char> {
    "^(?:"@ + expression + ")$"@
}

/// Whether a line of output (which may end in LF) satisfies a rule of this
/// kind and expression.
pub open spec fn spec_rule_matches(kind: RuleKind, expr: Seq<char>, line: Seq<u8>) -> bool {
    let bytes = encode_utf8(expr);
    match kind {
        RuleKind::Equal => spec_ends_in(line, NL) && line.drop_last() == bytes,
        RuleKind::NoEol => !spec_ends_in(line, NL) && line == bytes,
        RuleKind::Escaped => spec_line_body(line) == spec_unescape(bytes),
        RuleKind::Glob => spec_glob_match(bytes, spec_line_body(line)),
        RuleKind::Regex => regex_compiles(spec_anchored(expr)) && regex_is_match(
            spec_anchored(expr),
            spec_line_body(line),
        ),
    }
}

/// A rule: a kind and the expression it applies.
#[derive(Debug)]
pub struct Rule {
    pub kind: RuleKind,
    pub expression: String,
}

impl Clone for Rule {
    fn clone(&self) -> (r: Self)
        ensures
            r == *self,
    {
        Rule { kind: self.kind, expression: self.expression.clone() }
    }
}

impl Rule {
    /// Whether the line of output (which may end in LF) satisfies the rule.
    pub open spec fn spec_matches(self, line: Seq<u8>) -> bool {
        spec_rule_matches(self.kind, self.expression@, line)
    }

    /// Whether a rule of this kind can be made of this expression.
    pub open spec fn spec_valid(self) -> bool {
        self.kind == RuleKind::Regex ==> regex_compiles(spec_anchored(self.expression@))
    }
}

/// The quantifier suffix of an expectation: `*` optional and multiline,
/// `+` multiline, `?` optional, nothing otherwise.
pub open spec fn spec_quantifier(optional: bool, multiline: bool) -> Seq<char> {
    if optional && multiline {
        "*"@
    } else if multiline {
        "+"@
    } else if optional {
        "?"@
    } else {
        ""@
    }
}

/// The textual form of an expectation with this rule, from which it parses
/// back: the expression, followed by ` (<kind><quantifier>)` unless the rule
/// is plain equality without quantifier; equality is written without its
/// kind name.
pub open spec fn spec_expression_string(kind: RuleKind, expression: Seq<char>, optional: bool, multiline: bool) -> Seq<char> {
    let q = spec_quantifier(optional, multiline);
    if kind == RuleKind::Equal {
        if q.len() == 0 {
            expression
        } else {
            expression + " ("@ + q + ")"@
        }
    } else {
        expression + " ("@ + spec_kind_name(kind) + q + ")"@
    }
}

proof fn lemma_unescape_step(s: Seq<u8>, i: int)
    requires
        0 <= i < s.len(),
    ensures
        ({
            let r = s.skip(i);
            &&& r.len() >= 2 ==> r.skip(2) == s.skip(i + 2)
            &&& r.len() >= 4 ==> r.skip(4) == s.skip(i + 4)
            &&& r.drop_first() == s.skip(i + 1)
            &&& r[0] == s[i]
            &&& r.len() >= 2 ==> r[1] == s[i + 1]
            &&& r.len() >= 4 ==> r[2] == s[i + 2] && r[3] == s[i + 3]
        }),
{
    let r = s.skip(i);
    if r.len() >= 2 {
        assert(r.skip(2) == s.skip(i + 2));
    }
    if r.len() >= 4 {
        assert(r.skip(4) == s.skip(i + 4));
    }
    assert(r.drop_first() == s.skip(i + 1));
}

fn hex_value_exec(b: u8) -> (r: u8)
    requires
        is_hex_byte(b),
    ensures
        r == hex_value(b),
        r < 16,
{
    if 48 <= b && b <= 57 {
        b - 48
    } else if 97 <= b && b <= 102 {
        b - 87
    } else {
        b - 55
    }
}

fn escape_class_exec(c: u8) -> (r: Option<u8>)
    ensures
        r == escape_class(c),
{
    if c == 110 {
        Some(10u8)
    } else if c == 114 {
        Some(13u8)
    } else if c == 116 {
        Some(9u8)
    } else if c == 97 {
        Some(7u8)
    } else if c == 98 {
        Some(8u8)
    } else if c == 102 {
        Some(12u8)
    } else if c == 118 {
        Some(11u8)
    } else if c == 92 {
        Some(92u8)
    } else {
        None
    }
}

fn is_hex_exec(b: u8) -> (r: bool)
    ensures
        r == is_hex_byte(b),
{
    (48 <= b && b <= 57) || (97 <= b && b <= 102) || (65 <= b && b <= 70)
}

/// Unescapes the escape sequences in an escaped expression.
pub fn unescape(s: &[u8]) -> (r: Vec<u8>)
    ensures
        r@ == spec_unescape(s@),
{
    let mut out: Vec<u8> = Vec::new();
    let mut i: usize = 0;
    assert(s@.skip(0) == s@);
    assert(out@ + spec_unescape(s@) == spec_unescape(s@));
    while i < s.len()
        invariant
            i <= s@.len(),
            spec_unescape(s@) == out@ + spec_unescape(s@.skip(i as int)),
        decreases s@.len() - i,
    {
        proof {
            lemma_unescape_step(s@, i as int);
        }
        let ghost old_out = out@;
        let n = s.len() - i;
        if s[i] == 92 && n >= 2 && escape_class_exec(s[i + 1]).is_some() {
            let b = escape_class_exec(s[i + 1]).unwrap();
            out.push(b);
            assert(out@ == old_out + seq![b]);
            i = i + 2;
        } else if s[i] == 92 && n >= 4 && s[i + 1] == 120 && is_hex_exec(s[i + 2]) && is_hex_exec(s[i + 3]) {
            let b = hex_value_exec(s[i + 2]) * 16 + hex_value_exec(s[i + 3]);
            out.push(b);
            assert(out@ == old_out + seq![b]);
            i = i + 4;
        } else {
            out.push(s[i]);
            assert(out@ == old_out + seq![s@[i as int]]);
            i = i + 1;
        }
    }
    assert(s@.skip(i as int).len() == 0);
    assert(out@ + seq![] == out@);
    out
}

proof fn lemma_glob_step(p: Seq<u8>, t: Seq<u8>, i: int, k: int)
    requires
        0 <= i < p.len(),
        0 <= k <= t.len(),
    ensures
        spec_glob_match(p.skip(i), t.skip(k)) == (if p[i] == 42 {
            spec_glob_match(p.skip(i + 1), t.skip(k)) || (k < t.len() && spec_glob_match(
                p.skip(i),
                t.skip(k + 1),
            ))
        } else if k == t.len() {
            false
        } else if p[i] == 63 || p[i] == t[k] {
            spec_glob_match(p.skip(i + 1), t.skip(k + 1))
        } else {
            false
        }),
{
    assert(p.skip(i).drop_first() == p.skip(i + 1));
    assert(p.skip(i)[0] == p[i]);
    if k < t.len() {
        assert(t.skip(k).drop_first() == t.skip(k + 1));
        assert(t.skip(k)[0] == t[k]);
    }
}

/// Whether the text matches the glob pattern.
pub fn glob_matches(p: &[u8], t: &[u8]) -> (r: bool)
    ensures
        r == spec_glob_match(p@, t@),
{
    let m = p.len();
    let n = t.len();
    let mut next: Vec<bool> = Vec::new();
    let mut j: usize = 0;
    while j < n
        invariant
            j <= n,
            n == t@.len(),
            m == p@.len(),
            next@.len() == j,
            forall|k: int| 0 <= k < j ==> next@[k] == spec_glob_match(p@.skip(m as int), t@.skip(k)),
        decreases n - j,
    {
        assert(p@.skip(m as int).len() == 0);
        next.push(false);
        j = j + 1;
    }
    assert(p@.skip(m as int).len() == 0 && t@.skip(n as int).len() == 0);
    let mut next_end = true;
    let mut i: usize = m;
    while i > 0
        invariant
            i <= m,
            n == t@.len(),
            m == p@.len(),
            next@.len() == n,
            forall|k: int| 0 <= k < n ==> next@[k] == spec_glob_match(p@.skip(i as int), t@.skip(k)),
            next_end == spec_glob_match(p@.skip(i as int), t@.skip(n as int)),
        decreases i,
    {
        let pi = i - 1;
        let c = p[pi];
        proof {
            lemma_glob_step(p@, t@, pi as int, n as int);
        }
        let cur_end = c == 42 && next_end;
        let mut cur: Vec<bool> = vec![false; n];
        let mut jj: usize = n;
        let mut right = cur_end;
        while jj > 0
            invariant
                jj <= n,
                pi < m,
                c == p@[pi as int],
                n == t@.len(),
                m == p@.len(),
                next@.len() == n,
                cur@.len() == n,
                forall|k: int| 0 <= k < n ==> next@[k] == spec_glob_match(p@.skip(pi + 1), t@.skip(k)),
                next_end == spec_glob_match(p@.skip(pi + 1), t@.skip(n as int)),
                forall|k: int| jj <= k < n ==> cur@[k] == spec_glob_match(p@.skip(pi as int), t@.skip(k)),
                right == spec_glob_match(p@.skip(pi as int), t@.skip(jj as int)),
            decreases jj,
        {
            let k = jj - 1;
            proof {
                lemma_glob_step(p@, t@, pi as int, k as int);
            }
            let after = if k + 1 < n {
                next[k + 1]
            } else {
                next_end
            };
            let v = if c == 42 {
                next[k] || right
            } else if c == 63 || c == t[k] {
                after
            } else {
                false
            };
            cur.set(k, v);
            right = v;
            jj = k;
        }
        next = cur;
        next_end = cur_end;
        i = pi;
    }
    assert(p@.skip(0) == p@ && t@.skip(0) == t@);
    if n == 0 {
        next_end
    } else {
        next[0]
    }
}

/// The regular expression anchored to match whole lines.
fn anchored(expression: &str) -> (r: String)
    ensures
        r@ == spec_anchored(expression@),
{
    let mut s = "^(?:".to_owned();
    s.append(expression);
    s.append(")$");
    s
}

impl Rule {
    /// Whether the line of output satisfies this rule.
    pub fn matches(&self, line: &[u8]) -> (r: bool)
        ensures
            r == self.spec_matches(line@),
    {
        let expr = self.expression.as_str().as_bytes();
        let len = line.len();
        let ends = len > 0 && line[len - 1] == NL;
        let body: &[u8] = if ends {
            &line[0..len - 1]
        } else {
            line
        };
        assert(body@ == spec_line_body(line@));
        assert(ends ==> line@.drop_last() == body@);
        match self.kind {
            RuleKind::Equal => ends && bytes_equal(body, expr),
            RuleKind::NoEol => !ends && bytes_equal(line, expr),
            RuleKind::Escaped => {
                let u = unescape(expr);
                bytes_equal(body, u.as_slice())
            },
            RuleKind::Glob => glob_matches(expr, body),
            RuleKind::Regex => {
                let pattern = anchored(self.expression.as_str());
                match regex_match(pattern.as_str(), body) {
                    Some(b) => b,
                    None => false,
                }
            },
        }
    }
}

/// The rule kind that a kind name denotes, if any.
pub fn kind_from_name(name: &str) -> (r: Option<RuleKind>)
    ensures
        r == spec_kind_from_name(name@),
{
    let n = chars_of(name);
    kind_from_chars(n.as_slice())
}

/// The rule kind that a kind name, given as characters, denotes, if any.
pub fn kind_from_chars(n: &[char]) -> (r: Option<RuleKind>)
    ensures
        r == spec_kind_from_name(n@),
{
    if chars_equal(n, "equal") || chars_equal(n, "eq") {
        Some(RuleKind::Equal)
    } else if chars_equal(n, "no-eol") {
        Some(RuleKind::NoEol)
    } else if chars_equal(n, "escaped") || chars_equal(n, "esc") {
        Some(RuleKind::Escaped)
    } else if chars_equal(n, "glob") || chars_equal(n, "gl") {
        Some(RuleKind::Glob)
    } else if chars_equal(n, "regex") || chars_equal(n, "re") {
        Some(RuleKind::Regex)
    } else {
        None
    }
}

/// The canonical name of a rule kind.
pub fn kind_name(kind: RuleKind) -> (r: &'static str)
    ensures
        r@ == spec_kind_name(kind),
{
    match kind {
        RuleKind::Equal => "equal",
        RuleKind::NoEol => "no-eol",
        RuleKind::Escaped => "escaped",
        RuleKind::Glob => "glob",
        RuleKind::Regex => "regex",
    }
}

/// The quantifier suffix for the given flags.
pub fn quantifier(optional: bool, multiline: bool) -> (r: &'static str)
    ensures
        r@ == spec_quantifier(optional, multiline),
{
    if optional && multiline {
        "*"
    } else if multiline {
        "+"
    } else if optional {
        "?"
    } else {
        ""
    }
}

/// Whether a rule can be made of the kind name and expression.
pub open spec fn spec_make_ok(kind: Seq<char>, expression: Seq<char>) -> bool {
    &&& spec_kind_from_name(kind) is Some
    &&& spec_kind_from_name(kind) == Some(RuleKind::Regex) ==> regex_compiles(
        spec_anchored(expression),
    )
}

/// Why a rule could not be made.
#[derive(Debug, Clone, PartialEq, Eq)]
pub enum RuleError {
    /// The kind name denotes no rule
    UnknownKind(String),
    /// The expression of a regex rule does not compile
    InvalidRegex(String),
}

/// The abstract value of a [`RuleError`].
pub enum RuleErrorView {
    UnknownKind(Seq<char>),
    InvalidRegex(Seq<char>),
}

impl View for RuleError {
    type V = RuleErrorView;

    open spec fn view(&self) -> RuleErrorView {
        match self {
            RuleError::UnknownKind(k) => RuleErrorView::UnknownKind(k@),
            RuleError::InvalidRegex(e) => RuleErrorView::InvalidRegex(e@),
        }
    }
}

/// Why a rule cannot be made of the kind name and expression, where it
/// cannot: the kind name that denotes no rule, else the regular expression
/// that does not compile.
pub open spec fn spec_make_error(kind: Seq<char>, expression: Seq<char>) -> RuleErrorView {
    if spec_kind_from_name(kind) is None {
        RuleErrorView::UnknownKind(kind)
    } else {
        RuleErrorView::InvalidRegex(expression)
    }
}

impl Rule {
    /// Makes a rule from a kind name and an expression: an error if the kind
    /// is unknown or if a regular expression does not compile.
    pub fn make(kind: &str, expression: &str) -> (r: Result<Rule, RuleError>)
        ensures
            spec_kind_from_name(kind@) is None <==> r matches Err(RuleError::UnknownKind(_)),
            r matches Err(RuleError::InvalidRegex(_)) <==> (spec_kind_from_name(kind@) == Some(
                RuleKind::Regex,
            ) && !regex_compiles(spec_anchored(expression@))),
            r matches Ok(rule) ==> rule.kind == spec_kind_from_name(kind@)->0 && rule.expression@
                == expression@ && rule.spec_valid(),
            r matches Err(e) ==> e@ == spec_make_error(kind@, expression@),
    {
        match kind_from_name(kind) {
            None => Err(RuleError::UnknownKind(kind.to_owned())),
            Some(k) => {
                if let RuleKind::Regex = k {
                    let pattern = anchored(expression);
                    let empty: Vec<u8> = Vec::new();
                    if regex_match(pattern.as_str(), empty.as_slice()).is_none() {
                        return Err(RuleError::InvalidRegex(expression.to_owned()));
                    }
                }
                Ok(Rule { kind: k, expression: expression.to_owned() })
            },
        }
    }

    /// The canonical kind name and the bytes of the expression, from which
    /// the rule is made again.
    pub fn unmake(&self) -> (r: (String, Vec<u8>))
        ensures
            r.0@ == spec_kind_name(self.kind),
            r.1@ == encode_utf8(self.expression@),
    {
        (kind_name(self.kind).to_owned(), slice_to_vec(self.expression.as_str().as_bytes()))
    }

    /// The textual form of an expectation with this rule and the given flags.
    pub fn to_expression_string(&self, optional: bool, multiline: bool) -> (r: String)
        ensures
            r@ == spec_expression_string(self.kind, self.expression@, optional, multiline),
    {
        let q = quantifier(optional, multiline);
        let mut s = self.expression.clone();
        if let RuleKind::Equal = self.kind {
            if q.is_empty() {
                return s;
            }
            s.append(" (");
            s.append(q);
            s.append(")");
            s
        } else {
            s.append(" (");
            s.append(kind_name(self.kind));
            s.append(q);
            s.append(")");
            s
        }
    }
}

impl Rule {
    /// Makes a rule of the given kind from an expression: an error if a
    /// regular expression does not compile.
    pub fn with_kind(kind: RuleKind, expression: &str) -> (r: Result<Rule, RuleError>)
        ensures
            r is Err <==> (kind == RuleKind::Regex && !regex_compiles(spec_anchored(expression@))),
            r matches Err(e) ==> (e matches RuleError::InvalidRegex(m) && m@ == expression@),
            r matches Ok(rule) ==> rule.kind == kind && rule.expression@ == expression@
                && rule.spec_valid(),
    {
        if let RuleKind::Regex = kind {
            let pattern = anchored(expression);
            let empty: Vec<u8> = Vec::new();
            if regex_match(pattern.as_str(), empty.as_slice()).is_none() {
                return Err(RuleError::InvalidRegex(expression.to_owned()));
            }
        }
        Ok(Rule { kind, expression: expression.to_owned() })
    }
}

} // verus!
