//! Running shell expressions in bash one after the other, with the shell
//! state (environment, variables, options, functions, aliases) carried from
//! one to the next through a state directory. Running the process is left to
//! the application; the library reads the environment that bash leaves
//! behind.
use vstd::prelude::*;
use vstd::utf8::{decode_utf8, valid_utf8};

use crate::newline::{lemma_find_from_bounds, lemma_find_from_shift, spec_find_from};
use crate::text::{
    chars_of, lemma_find_char_bounds, spec_find_char, string_from_chars, utf8_decode,
};

verus! {

/// Whether a text may be the name of an environment variable: not empty,
/// and only ASCII letters, digits and `_`.
pub open spec fn is_env_key(k: Seq<char>) -> bool {
    k.len() > 0 && forall|i: int|
        0 <= i < k.len() ==> ('a' <= #[trigger] k[i] <= 'z') || ('A' <= k[i] <= 'Z') || (
        '0' <= k[i] <= '9') || k[i] == '_'
}

/// The variable that one entry `KEY=VALUE` of an environment file defines,
/// if the entry is UTF-8, not empty, holds a `=` and has a valid name before
/// its first `=`.
pub open spec fn spec_env_entry(chunk: Seq<u8>) -> Option<(Seq<char>, Seq<char>)> {
    if !valid_utf8(chunk) {
        None
    } else {
        let c = decode_utf8(chunk);
        match spec_find_char(c, '=', 0) {
            Some(p) => if is_env_key(c.take(p)) {
                Some((c.take(p), c.skip(p + 1)))
            } else {
                None
            },
            None => None,
        }
    }
}

/// The variables of the entry, none or one.
pub open spec fn spec_entry_seq(chunk: Seq<u8>) -> Seq<(Seq<char>, Seq<char>)> {
    match spec_env_entry(chunk) {
        Some(e) => seq![e],
        None => Seq::empty(),
    }
}

/// The variables that an environment file defines, in the order of their
/// entries; the entries are separated by NUL bytes.
pub open spec fn spec_parse_env(s: Seq<u8>) -> Seq<(Seq<char>, Seq<char>)>
    decreases s.len(),
{
    match spec_find_from(s, 0u8, 0) {
        Some(i) => if 0 <= i < s.len() {
            spec_entry_seq(s.take(i)) + spec_parse_env(s.skip(i + 1))
        } else {
            spec_entry_seq(s)
        },
        None => spec_entry_seq(s),
    }
}

fn is_env_key_exec(k: &[char]) -> (r: bool)
    ensures
        r == is_env_key(k@),
{
    if k.len() == 0 {
        return false;
    }
    let mut i: usize = 0;
    while i < k.len()
        invariant
            i <= k@.len(),
            forall|j: int|
                0 <= j < i ==> ('a' <= #[trigger] k@[j] <= 'z') || ('A' <= k@[j] <= 'Z') || ('0'
                    <= k@[j] <= '9') || k@[j] == '_',
        decreases k@.len() - i,
    {
        let c = k[i];
        if !(('a' <= c && c <= 'z') || ('A' <= c && c <= 'Z') || ('0' <= c && c <= '9') || c
            == '_') {
            return false;
        }
        i = i + 1;
    }
    true
}

fn env_entry(chunk: &[u8]) -> (r: Option<(String, String)>)
    ensures
        match r {
            Some((k, v)) => spec_env_entry(chunk@) == Some((k@, v@)),
            None => spec_env_entry(chunk@) is None,
        },
{
    let text = match utf8_decode(chunk) {
        Some(t) => t,
        None => {
            return None;
        },
    };
    let c = chars_of(text.as_str());
    let mut p: usize = 0;
    while p < c.len() && c[p] != '='
        invariant
            p <= c@.len(),
            forall|j: int| 0 <= j < p ==> c@[j] != '=',
        decreases c@.len() - p,
    {
        p = p + 1;
    }
    proof {
        lemma_find_char_bounds(c@, '=', 0);
    }
    if p == c.len() {
        return None;
    }
    assert(spec_find_char(c@, '=', 0) == Some(p as int));
    let key = &c.as_slice()[0..p];
    if !is_env_key_exec(key) {
        return None;
    }
    let value = &c.as_slice()[p + 1..c.len()];
    Some((string_from_chars(key), string_from_chars(value)))
}

/// The views of names and values.
pub open spec fn env_pairs_view(v: Seq<(String, String)>) -> Seq<(Seq<char>, Seq<char>)> {
    v.map_values(|p: (String, String)| (p.0@, p.1@))
}

/// Reads the environment that bash leaves behind: NUL-separated entries
/// `KEY=VALUE`, of which those that are not UTF-8, hold no `=` or have no
/// valid name are passed over. The variables come in the order of their
/// entries, a later one of a name taking the place of an earlier one.
pub fn parse_env_entries(content: &[u8]) -> (r: Vec<(String, String)>)
    ensures
        env_pairs_view(r@) == spec_parse_env(content@),
{
    let mut out: Vec<(String, String)> = Vec::new();
    let mut start: usize = 0;
    let mut index: usize = 0;
    assert(content@.skip(0) == content@);
    assert(env_pairs_view(out@) + spec_parse_env(content@) =~= spec_parse_env(content@));
    while index < content.len()
        invariant
            start <= index <= content@.len(),
            forall|j: int| start <= j < index ==> content@[j] != 0u8,
            spec_parse_env(content@) == env_pairs_view(out@) + spec_parse_env(
                content@.skip(start as int),
            ),
        decreases content@.len() - index,
    {
        if content[index] == 0u8 {
            let ghost rest = content@.skip(start as int);
            proof {
                lemma_find_from_shift(content@, 0u8, start as int, start as int);
                lemma_find_from_bounds(content@, 0u8, start as int);
                assert(spec_find_from(content@, 0u8, start as int) == Some(index as int));
                assert(rest.skip(index - start + 1) == content@.skip(index + 1));
                assert(rest.take(index - start) == content@.subrange(start as int, index as int));
            }
            let chunk = &content[start..index];
            let ghost before = out@;
            match env_entry(chunk) {
                Some(e) => {
                    out.push(e);
                    proof {
                        assert(env_pairs_view(out@) =~= env_pairs_view(before) + spec_entry_seq(
                            chunk@,
                        ));
                    }
                },
                None => {
                    assert(spec_entry_seq(chunk@) =~= Seq::empty());
                    assert(env_pairs_view(out@) =~= env_pairs_view(before) + spec_entry_seq(
                        chunk@,
                    ));
                },
            }
            proof {
                assert(spec_parse_env(rest) == spec_entry_seq(chunk@) + spec_parse_env(
                    content@.skip(index + 1),
                ));
                assert(spec_parse_env(content@) =~= env_pairs_view(out@) + spec_parse_env(
                    content@.skip(index + 1),
                ));
            }
            start = index + 1;
        }
        index = index + 1;
    }
    proof {
        lemma_find_from_shift(content@, 0u8, start as int, start as int);
        lemma_find_from_bounds(content@, 0u8, start as int);
        assert(spec_find_from(content@.skip(start as int), 0u8, 0) is None);
        assert(content@.subrange(start as int, content@.len() as int) == content@.skip(
            start as int,
        ));
    }
    let chunk = &content[start..content.len()];
    let ghost before = out@;
    match env_entry(chunk) {
        Some(e) => {
            out.push(e);
            assert(env_pairs_view(out@) =~= env_pairs_view(before) + spec_entry_seq(chunk@));
        },
        None => {
            assert(env_pairs_view(out@) =~= env_pairs_view(before) + spec_entry_seq(chunk@));
        },
    }
    out
}

/// Runs shell expressions in bash such that each continues the shell state
/// that the previous one left in the state directory.
pub struct BashRunner {
    /// The path to bash
    pub shell: String,
    /// The directory in which the shell state is kept between executions
    pub state_directory: String,
}

impl BashRunner {
    /// A runner of the given bash that keeps its state in the given directory.
    pub fn new(shell: &str, state_directory: &str) -> (r: Self)
        ensures
            r.shell@ == shell@,
            r.state_directory@ == state_directory@,
    {
        BashRunner { shell: shell.to_owned(), state_directory: state_directory.to_owned() }
    }
}

} // verus!
