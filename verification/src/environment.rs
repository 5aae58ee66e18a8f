//! The environment variables that every test document runs with.
use vstd::prelude::*;

use crate::config::env_view;

verus! {

/// The variables that a test document runs with: where the document is,
/// where temporary files go, which shell runs it, and a fixed locale, time
/// zone and terminal width; Cram documents also get `CRAMTMP`, `TMP` and
/// `TEMP`.
pub open spec fn spec_env_vars(
    test_file_directory: Seq<char>,
    test_file_name: Seq<char>,
    tmp_directory: Seq<char>,
    shell: Seq<char>,
    work_directory: Seq<char>,
    cram_compat: bool,
) -> Seq<(Seq<char>, Seq<char>)> {
    let base = seq![
        ("TESTDIR"@, test_file_directory),
        ("TESTFILE"@, test_file_name),
        ("TMPDIR"@, tmp_directory),
        ("TESTSHELL"@, shell),
        ("LANG"@, "C"@),
        ("LANGUAGE"@, "C"@),
        ("LC_ALL"@, "C"@),
        ("TZ"@, "GMT"@),
        ("COLUMNS"@, "80"@),
        ("CDPATH"@, ""@),
        ("GREP_OPTIONS"@, ""@),
    ];
    if cram_compat {
        base + seq![("CRAMTMP"@, work_directory), ("TMP"@, tmp_directory), ("TEMP"@, tmp_directory)]
    } else {
        base
    }
}

fn pair(k: &str, v: &str) -> (r: (String, String))
    ensures
        r.0@ == k@,
        r.1@ == v@,
{
    (k.to_owned(), v.to_owned())
}

/// Builds the variables that a test document runs with.
pub fn build_env_vars(
    test_file_directory: &str,
    test_file_name: &str,
    tmp_directory: &str,
    shell: &str,
    work_directory: &str,
    cram_compat: bool,
) -> (r: Vec<(String, String)>)
    ensures
        env_view(r@) == spec_env_vars(
            test_file_directory@,
            test_file_name@,
            tmp_directory@,
            shell@,
            work_directory@,
            cram_compat,
        ),
{
    let mut v: Vec<(String, String)> = Vec::new();
    v.push(pair("TESTDIR", test_file_directory));
    v.push(pair("TESTFILE", test_file_name));
    v.push(pair("TMPDIR", tmp_directory));
    v.push(pair("TESTSHELL", shell));
    v.push(pair("LANG", "C"));
    v.push(pair("LANGUAGE", "C"));
    v.push(pair("LC_ALL", "C"));
    v.push(pair("TZ", "GMT"));
    v.push(pair("COLUMNS", "80"));
    v.push(pair("CDPATH", ""));
    v.push(pair("GREP_OPTIONS", ""));
    if cram_compat {
        v.push(pair("CRAMTMP", work_directory));
        v.push(pair("TMP", tmp_directory));
        v.push(pair("TEMP", tmp_directory));
    }
    assert(env_view(v@) =~= spec_env_vars(
        test_file_directory@,
        test_file_name@,
        tmp_directory@,
        shell@,
        work_directory@,
        cram_compat,
    ));
    v
}

} // verus!
