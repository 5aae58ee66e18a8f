//! Interpolation of environment variables into expectations: `$NAME` and
//! `${NAME}` stand for the value of the variable, and `$$` for `$`.
use vstd::prelude::*;

use crate::expectation::{Expectation, ExpectationView};
use crate::rules::{regex_compiles, spec_anchored, Rule, RuleError, RuleKind};
use crate::config::{env_get, env_lookup, env_view};
use crate::text::{chars_of, str_equal, string_from_chars};

verus! {

/// Whether the character may begin a variable name: an ASCII letter or an
/// underscore.
pub open spec fn is_name_start_char(c: char) -> bool {
    ('A' <= c <= 'Z') || ('a' <= c <= 'z') || c == '_'
}

/// Whether the character may be part of a variable name: an ASCII letter, an
/// ASCII digit or an underscore.
pub open spec fn is_name_char(c: char) -> bool {
    is_name_start_char(c) || ('0' <= c <= '9')
}

/// The length of the run of name characters from `from` on.
pub open spec fn spec_name_run(s: Seq<char>, from: int) -> nat
    decreases s.len() - from,
{
    if 0 <= from < s.len() && is_name_char(s[from]) {
        1 + spec_name_run(s, from + 1)
    } else {
        0
    }
}

/// The length of the variable name from `from` on: the run of name
/// characters there if it begins with a letter or an underscore, else 0.
pub open spec fn spec_name_at(s: Seq<char>, from: int) -> nat {
    if 0 <= from < s.len() && is_name_start_char(s[from]) {
        spec_name_run(s, from)
    } else {
        0
    }
}

/// The text with `$$` replaced by `$`, and `${NAME}` and `$NAME` replaced by
/// the value of the variable, where a name is an ASCII letter or underscore
/// followed by ASCII letters, digits and underscores; references to
/// variables that are not given stay as they are. The text is read from the
/// start, and replaced text is not read again.
pub open spec fn spec_interpolate(s: Seq<char>, env: Seq<(Seq<char>, Seq<char>)>) -> Seq<char>
    decreases s.len(),
{
    if s.len() == 0 {
        Seq::empty()
    } else if s[0] != '$' {
        seq![s[0]] + spec_interpolate(s.drop_first(), env)
    } else if s.len() >= 2 && s[1] == '$' {
        seq!['$'] + spec_interpolate(s.skip(2), env)
    } else {
        let b = spec_name_at(s, 2) as int;
        let p = spec_name_at(s, 1) as int;
        if s.len() >= 2 && s[1] == '{' && b >= 1 && 2 + b < s.len() && s[2 + b] == '}' {
            proof {
                lemma_runs_bounded(s);
            }
            (match env_lookup(env, s.subrange(2, 2 + b)) {
                Some(v) => v,
                None => s.take(3 + b),
            }) + spec_interpolate(s.skip(3 + b), env)
        } else if p >= 1 {
            proof {
                lemma_runs_bounded(s);
            }
            (match env_lookup(env, s.subrange(1, 1 + p)) {
                Some(v) => v,
                None => s.take(1 + p),
            }) + spec_interpolate(s.skip(1 + p), env)
        } else {
            seq!['$'] + spec_interpolate(s.drop_first(), env)
        }
    }
}

pub proof fn lemma_name_run_bound(s: Seq<char>, from: int)
    requires
        0 <= from,
    ensures
        from + spec_name_run(s, from) <= s.len() || spec_name_run(s, from) == 0,
        forall|j: int| from <= j < from + spec_name_run(s, from) ==> is_name_char(s[j]),
        from + spec_name_run(s, from) < s.len() ==> !is_name_char(s[from + spec_name_run(s, from)]),
    decreases s.len() - from,
{
    if 0 <= from < s.len() && is_name_char(s[from]) {
        lemma_name_run_bound(s, from + 1);
    }
}

pub proof fn lemma_runs_bounded(s: Seq<char>)
    ensures
        2 + spec_name_at(s, 2) <= s.len() || spec_name_at(s, 2) == 0,
        1 + spec_name_at(s, 1) <= s.len() || spec_name_at(s, 1) == 0,
{
    lemma_name_run_bound(s, 2);
    lemma_name_run_bound(s, 1);
}

fn name_run(s: &[char], from: usize) -> (r: usize)
    requires
        from <= s@.len(),
    ensures
        r == spec_name_run(s@, from as int),
        from + r <= s@.len(),
    decreases s@.len() - from,
{
    if from < s.len() && (('A' <= s[from] && s[from] <= 'Z') || ('a' <= s[from] && s[from] <= 'z')
        || ('0' <= s[from] && s[from] <= '9') || s[from] == '_') {
        1 + name_run(s, from + 1)
    } else {
        0
    }
}

fn name_at(s: &[char], from: usize) -> (r: usize)
    requires
        from <= s@.len(),
    ensures
        r == spec_name_at(s@, from as int),
        from + r <= s@.len(),
{
    if from < s.len() && (('A' <= s[from] && s[from] <= 'Z') || ('a' <= s[from] && s[from] <= 'z')
        || s[from] == '_') {
        name_run(s, from)
    } else {
        0
    }
}

fn lookup(env: &Vec<(String, String)>, name: &[char]) -> (r: Option<String>)
    ensures
        match r {
            Some(v) => env_lookup(env_view(env@), name@) == Some(v@),
            None => env_lookup(env_view(env@), name@) is None,
        },
{
    let n = string_from_chars(name);
    env_get(env, n.as_str())
}

/// Interpolates `$NAME`, `${NAME}` and `$$` in the text with the values of
/// the environment variables.
#[verifier::rlimit(40)]
pub fn interpolate_str(text: &str, env: &Vec<(String, String)>) -> (r: String)
    ensures
        r@ == spec_interpolate(text@, env_view(env@)),
{
    let cs = chars_of(text);
    let ghost ev = env_view(env@);
    let ghost tv = cs@;
    let n = cs.len();
    let mut out: Vec<char> = Vec::new();
    let mut i: usize = 0;
    assert(tv.skip(0) == tv);
    while i < n
        invariant
            n == tv.len(),
            tv == cs@,
            tv == text@,
            ev == env_view(env@),
            i <= n,
            spec_interpolate(tv, ev) == out@ + spec_interpolate(tv.skip(i as int), ev),
        decreases n - i,
    {
        let ghost rest = tv.skip(i as int);
        let ghost before = out@;
        assert(rest[0] == cs@[i as int]);
        if cs[i] != '$' {
            out.push(cs[i]);
            assert(rest.drop_first() == tv.skip(i + 1));
            i = i + 1;
        } else if i + 1 < n && cs[i + 1] == '$' {
            out.push('$');
            assert(rest[1] == '$');
            assert(rest.skip(2) == tv.skip(i + 2));
            i = i + 2;
        } else {
            let b = if i + 1 < n {
                name_at(cs.as_slice(), i + 2)
            } else {
                0
            };
            let p = name_at(cs.as_slice(), i + 1);
            proof {
                assert forall|from: int| 0 <= from implies #[trigger] spec_name_at(rest, from)
                    == spec_name_at(tv, i + from) by {
                    lemma_name_shift(tv, i as int, from);
                    if from < rest.len() {
                        assert(rest[from] == tv[i + from]);
                    }
                }
                if i + 1 >= n {
                    assert(spec_name_at(tv, i + 2) == 0);
                }
            }
            if i + 1 < n && cs[i + 1] == '{' && b >= 1 && i + 2 + b < n && cs[i + 2 + b] == '}' {
                let name = &cs.as_slice()[i + 2..i + 2 + b];
                assert(name@ == rest.subrange(2, 2 + b));
                match lookup(env, name) {
                    Some(v) => {
                        let vc = chars_of(v.as_str());
                        let mut j: usize = 0;
                        while j < vc.len()
                            invariant
                                j <= vc@.len(),
                                out@ == before + vc@.take(j as int),
                            decreases vc@.len() - j,
                        {
                            out.push(vc[j]);
                            assert(vc@.take(j + 1) == vc@.take(j as int).push(vc@[j as int]));
                            j = j + 1;
                        }
                        assert(vc@.take(vc@.len() as int) == vc@);
                    },
                    None => {
                        let mut j: usize = i;
                        while j < i + 3 + b
                            invariant
                                i <= j <= i + 3 + b <= n,
                                tv == cs@,
                                n == cs@.len(),
                                out@ == before + tv.subrange(i as int, j as int),
                            decreases i + 3 + b - j,
                        {
                            out.push(cs[j]);
                            assert(tv.subrange(i as int, j + 1) == tv.subrange(i as int, j as int).push(
                                tv[j as int],
                            ));
                            j = j + 1;
                        }
                        assert(tv.subrange(i as int, i + 3 + b) == rest.take(3 + b));
                    },
                }
                assert(rest.skip(3 + b) == tv.skip(i + 3 + b));
                i = i + 3 + b;
            } else if p >= 1 {
                let name = &cs.as_slice()[i + 1..i + 1 + p];
                assert(name@ == rest.subrange(1, 1 + p));
                match lookup(env, name) {
                    Some(v) => {
                        let vc = chars_of(v.as_str());
                        let mut j: usize = 0;
                        while j < vc.len()
                            invariant
                                j <= vc@.len(),
                                out@ == before + vc@.take(j as int),
                            decreases vc@.len() - j,
                        {
                            out.push(vc[j]);
                            assert(vc@.take(j + 1) == vc@.take(j as int).push(vc@[j as int]));
                            j = j + 1;
                        }
                        assert(vc@.take(vc@.len() as int) == vc@);
                    },
                    None => {
                        let mut j: usize = i;
                        while j < i + 1 + p
                            invariant
                                i <= j <= i + 1 + p <= n,
                                tv == cs@,
                                n == cs@.len(),
                                out@ == before + tv.subrange(i as int, j as int),
                            decreases i + 1 + p - j,
                        {
                            out.push(cs[j]);
                            assert(tv.subrange(i as int, j + 1) == tv.subrange(i as int, j as int).push(
                                tv[j as int],
                            ));
                            j = j + 1;
                        }
                        assert(tv.subrange(i as int, i + 1 + p) == rest.take(1 + p));
                    },
                }
                assert(rest.skip(1 + p) == tv.skip(i + 1 + p));
                i = i + 1 + p;
            } else {
                out.push('$');
                assert(rest.drop_first() == tv.skip(i + 1));
                i = i + 1;
            }
        }
    }
    assert(tv.skip(i as int) == Seq::<char>::empty());
    assert(out@ + Seq::<char>::empty() == out@);
    string_from_chars(out.as_slice())
}

proof fn lemma_name_shift(s: Seq<char>, k: int, from: int)
    requires
        0 <= k <= s.len(),
        0 <= from,
    ensures
        spec_name_run(s.skip(k), from) == spec_name_run(s, k + from),
    decreases s.len() - k - from,
{
    if from < s.len() - k {
        assert(s.skip(k)[from] == s[k + from]);
        lemma_name_shift(s, k, from + 1);
    }
}

/// Interpolates the expression of an expectation: the same expectation if
/// nothing is replaced, else one of the same kind, quantifier and original
/// text with the interpolated expression (an error if that is a regular
/// expression that does not compile).
pub fn interpolate_expectation(expectation: &Expectation, env: &Vec<(String, String)>) -> (r: Result<
    Expectation,
    RuleError,
>)
    ensures
        ({
            let e = spec_interpolate(expectation.rule.expression@, env_view(env@));
            if e == expectation.rule.expression@ {
                r == Ok::<Expectation, RuleError>(*expectation)
            } else {
                &&& r is Err <==> (expectation.rule.kind == RuleKind::Regex && !regex_compiles(
                    spec_anchored(e),
                ))
                &&& r matches Ok(x) ==> x@ == ExpectationView { expression: e, ..expectation@ }
            }
        }),
{
    let interpolated = interpolate_str(expectation.rule.expression.as_str(), env);
    if str_equal(interpolated.as_str(), expectation.rule.expression.as_str()) {
        return Ok(expectation.clone());
    }
    let rule = Rule::with_kind(expectation.rule.kind, interpolated.as_str())?;
    Ok(
        Expectation {
            optional: expectation.optional,
            multiline: expectation.multiline,
            rule,
            original: expectation.original.clone(),
        },
    )
}

/// A text without `$` is left as it is, whatever the variables.
pub proof fn law_interpolate_without_dollar(s: Seq<char>, env: Seq<(Seq<char>, Seq<char>)>)
    requires
        !s.contains('$'),
    ensures
        spec_interpolate(s, env) == s,
    decreases s.len(),
{
    if s.len() > 0 {
        assert(s[0] != '$');
        let t = s.drop_first();
        assert(!t.contains('$')) by {
            if t.contains('$') {
                let j = choose|j: int| 0 <= j < t.len() && t[j] == '$';
                assert(s[j + 1] == '$');
            }
        }
        law_interpolate_without_dollar(t, env);
        assert(seq![s[0]] + t =~= s);
    } else {
        assert(s =~= Seq::<char>::empty());
    }
}

/// Whether a character is an ASCII letter, an ASCII digit or an underscore:
/// one that may stand in a variable name after its first character.
pub open spec fn is_identifier_char(c: char) -> bool {
    ('A' <= c <= 'Z') || ('a' <= c <= 'z') || ('0' <= c <= '9') || c == '_'
}

/// Whether the text is a variable name, `[A-Za-z_][A-Za-z0-9_]*`: an ASCII
/// letter or underscore followed by ASCII letters, digits and underscores.
pub open spec fn is_variable_name(name: Seq<char>) -> bool {
    &&& name.len() >= 1
    &&& (('A' <= name[0] <= 'Z') || ('a' <= name[0] <= 'z') || name[0] == '_')
    &&& forall|j: int| 0 <= j < name.len() ==> is_identifier_char(#[trigger] name[j])
}

/// Whether the text does not go on with a character of a variable name.
pub open spec fn ends_name(rest: Seq<char>) -> bool {
    rest.len() == 0 || !is_identifier_char(rest[0])
}

proof fn lemma_name_fills(s: Seq<char>, from: int, name: Seq<char>)
    requires
        0 <= from,
        is_variable_name(name),
        from + name.len() <= s.len(),
        s.subrange(from, from + name.len()) == name,
        from + name.len() < s.len() ==> !is_identifier_char(s[from + name.len()]),
    ensures
        spec_name_at(s, from) == name.len(),
{
    assert(s[from] == name[0]);
    assert(is_name_start_char(s[from]));
    lemma_name_run_bound(s, from);
    let p = spec_name_run(s, from) as int;
    assert forall|j: int| from <= j < from + name.len() implies is_name_char(s[j]) by {
        assert(s[j] == name[j - from]);
        assert(is_identifier_char(name[j - from]));
    }
    if p < name.len() {
        assert(is_name_char(s[from + p]));
    }
    if p > name.len() {
        assert(is_name_char(s[from + name.len()]));
    }
}

/// References `$NAME` (where what follows cannot continue the name) and
/// `${NAME}` to a variable that is given are replaced by its value, and the
/// text after them is interpolated in turn.
pub proof fn law_interpolate_given_variable(
    name: Seq<char>,
    value: Seq<char>,
    rest: Seq<char>,
    env: Seq<(Seq<char>, Seq<char>)>,
)
    requires
        is_variable_name(name),
        env_lookup(env, name) == Some(value),
    ensures
        ends_name(rest) ==> spec_interpolate(seq!['$'] + name + rest, env) == value
            + spec_interpolate(rest, env),
        spec_interpolate(seq!['$', '{'] + name + seq!['}'] + rest, env) == value + spec_interpolate(
            rest,
            env,
        ),
{
    let n = name.len() as int;
    if ends_name(rest) {
        let s = seq!['$'] + name + rest;
        assert(s.subrange(1, 1 + n) =~= name);
        if 1 + n < s.len() {
            assert(s[1 + n] == rest[0]);
        }
        lemma_name_fills(s, 1, name);
        assert(s.skip(1 + n) =~= rest);
        assert(s[0] == '$' && s[1] == name[0] && s[1] != '$' && s[1] != '{');
    }
    let t = seq!['$', '{'] + name + seq!['}'] + rest;
    assert(t.subrange(2, 2 + n) =~= name);
    assert(t[2 + n] == '}');
    lemma_name_fills(t, 2, name);
    assert(t.skip(3 + n) =~= rest);
    assert(t[0] == '$' && t[1] == '{');
}

/// References `$NAME` (where what follows cannot continue the name) and
/// `${NAME}` to a variable that is not given stay as they are, and the text
/// after them is interpolated in turn.
pub proof fn law_interpolate_unknown_variable(
    name: Seq<char>,
    rest: Seq<char>,
    env: Seq<(Seq<char>, Seq<char>)>,
)
    requires
        is_variable_name(name),
        env_lookup(env, name) is None,
    ensures
        ends_name(rest) ==> spec_interpolate(seq!['$'] + name + rest, env) == seq!['$'] + name
            + spec_interpolate(rest, env),
        spec_interpolate(seq!['$', '{'] + name + seq!['}'] + rest, env) == seq!['$', '{'] + name
            + seq!['}'] + spec_interpolate(rest, env),
{
    let n = name.len() as int;
    if ends_name(rest) {
        let s = seq!['$'] + name + rest;
        assert(s.subrange(1, 1 + n) =~= name);
        if 1 + n < s.len() {
            assert(s[1 + n] == rest[0]);
        }
        lemma_name_fills(s, 1, name);
        assert(s.take(1 + n) =~= seq!['$'] + name);
        assert(s.skip(1 + n) =~= rest);
        assert(s[0] == '$' && s[1] == name[0] && s[1] != '$' && s[1] != '{');
    }
    let t = seq!['$', '{'] + name + seq!['}'] + rest;
    assert(t.subrange(2, 2 + n) =~= name);
    assert(t[2 + n] == '}');
    lemma_name_fills(t, 2, name);
    assert(t.take(3 + n) =~= seq!['$', '{'] + name + seq!['}']);
    assert(t.skip(3 + n) =~= rest);
    assert(t[0] == '$' && t[1] == '{');
}

/// `$$` stands for one `$`, and the text after it is interpolated in turn.
pub proof fn law_interpolate_escaped_dollar(rest: Seq<char>, env: Seq<(Seq<char>, Seq<char>)>)
    ensures
        spec_interpolate(seq!['$', '$'] + rest, env) == seq!['$'] + spec_interpolate(rest, env),
{
    let s = seq!['$', '$'] + rest;
    assert(s.skip(2) =~= rest);
}

/// Where a name is given more than once, its last value is the one that
/// stands for it.
pub proof fn law_interpolate_last_value_wins(
    name: Seq<char>,
    value: Seq<char>,
    env: Seq<(Seq<char>, Seq<char>)>,
)
    requires
        is_variable_name(name),
    ensures
        spec_interpolate(seq!['$'] + name, env.push((name, value))) == value,
{
    let e = env.push((name, value));
    assert(e.last() == (name, value));
    assert(env_lookup(e, name) == Some(value));
    law_interpolate_given_variable(name, value, Seq::empty(), e);
    assert(seq!['$'] + name + Seq::<char>::empty() =~= seq!['$'] + name);
    assert(value + spec_interpolate(Seq::<char>::empty(), e) =~= value);
}

/// A `$` that is not followed by a variable name, a `{` or another `$`
/// stays as it is, as a leading digit does: `$1X` is kept.
pub proof fn law_interpolate_needs_name_start(s: Seq<char>, env: Seq<(Seq<char>, Seq<char>)>)
    requires
        s.len() >= 2,
        s[0] == '$',
        !(('A' <= s[1] <= 'Z') || ('a' <= s[1] <= 'z') || s[1] == '_'),
        s[1] != '$',
        s[1] != '{',
    ensures
        spec_interpolate(s, env) == seq!['$'] + spec_interpolate(s.drop_first(), env),
{
}

} // verus!
