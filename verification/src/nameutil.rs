//! Unique names for files within a directory: a name that is taken gets a
//! counter appended (`name-1`, `name-2`, ...). Whether a name exists on disk
//! is asked by the application, which hands the answer in.
use vstd::prelude::*;

use crate::text::{decimal_string, spec_decimal, str_equal, strings_view};

verus! {

/// The name tried at the given count: the name itself first, then the name
/// with `-` and the count appended.
pub open spec fn spec_candidate(name: Seq<char>, counter: nat) -> Seq<char> {
    if counter == 0 {
        name
    } else {
        name + "-"@ + spec_decimal(counter)
    }
}

/// Whether no text occurs twice.
pub open spec fn spec_distinct(s: Seq<Seq<char>>) -> bool {
    forall|i: int, j: int| 0 <= i < j < s.len() ==> s[i] != s[j]
}

/// Handing out a name that was not handed out before keeps the handed out
/// names pairwise distinct; as a namer starts with none, no name is ever
/// handed out twice.
pub proof fn law_handing_out_keeps_names_distinct(names: Seq<Seq<char>>, name: Seq<char>)
    requires
        spec_distinct(names),
        !names.contains(name),
    ensures
        spec_distinct(names.push(name)),
{
    let nv = names.push(name);
    assert forall|i: int, j: int| 0 <= i < j < nv.len() implies nv[i] != nv[j] by {
        assert(nv[i] == names[i]);
        if j == nv.len() - 1 {
            if nv[i] == nv[j] {
                assert(names.contains(name));
            }
        } else {
            assert(nv[j] == names[j]);
        }
    }
}

/// Hands out names that were neither handed out before nor exist in the
/// directory.
pub struct UniqueNamer {
    /// The names handed out so far
    pub names: Vec<String>,
    /// The directory the names are for
    pub directory: String,
}

impl UniqueNamer {
    /// A namer for the directory that has handed out no name yet.
    pub fn new(directory: &str) -> (r: Self)
        ensures
            r.names@.len() == 0,
            spec_distinct(strings_view(r.names@)),
            r.directory@ == directory@,
    {
        UniqueNamer { names: Vec::new(), directory: directory.to_owned() }
    }

    /// The name tried at the given count.
    pub fn candidate(name: &str, counter: u64) -> (r: String)
        ensures
            r@ == spec_candidate(name@, counter as nat),
    {
        if counter == 0 {
            return name.to_owned();
        }
        let mut s = name.to_owned();
        let dash = "-";
        proof {
            reveal_strlit("-");
        }
        s.append(dash);
        let d = decimal_string(counter);
        s.append(d.as_str());
        s
    }

    /// Whether the name was handed out before.
    pub fn is_handed_out(&self, name: &str) -> (r: bool)
        ensures
            r == strings_view(self.names@).contains(name@),
    {
        let mut i: usize = 0;
        while i < self.names.len()
            invariant
                i <= self.names@.len(),
                forall|j: int| 0 <= j < i ==> strings_view(self.names@)[j] != name@,
            decreases self.names@.len() - i,
        {
            if str_equal(self.names[i].as_str(), name) {
                assert(strings_view(self.names@)[i as int] == name@);
                return true;
            }
            i = i + 1;
        }
        false
    }

    /// One step of finding a unique name: the name tried at the given count
    /// is handed out (and remembered) if it was not handed out before and
    /// does not exist on disk; else nothing is handed out, and the next
    /// count is to be tried.
    pub fn next_name(&mut self, name: &str, counter: u64, exists_on_disk: bool) -> (r: Option<String>)
        ensures
            final(self).directory == old(self).directory,
            spec_distinct(strings_view(old(self).names@)) ==> spec_distinct(
                strings_view(final(self).names@),
            ),
            ({
                let c = spec_candidate(name@, counter as nat);
                if !strings_view(old(self).names@).contains(c) && !exists_on_disk {
                    r matches Some(s) && s@ == c && strings_view(final(self).names@)
                        == strings_view(old(self).names@).push(c)
                } else {
                    r is None && final(self).names@ == old(self).names@
                }
            }),
    {
        let c = Self::candidate(name, counter);
        if exists_on_disk || self.is_handed_out(c.as_str()) {
            return None;
        }
        assert(!strings_view(self.names@).contains(c@));
        let ghost before = self.names@;
        let out = c.clone();
        self.names.push(c);
        assert(strings_view(self.names@) =~= strings_view(before).push(out@));
        proof {
            if spec_distinct(strings_view(before)) {
                law_handing_out_keeps_names_distinct(strings_view(before), out@);
            }
        }
        Some(out)
    }
}

} // verus!
