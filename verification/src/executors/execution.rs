//! The input of one execution of a shell expression.
use vstd::prelude::*;

use crate::config::{
    env_lookup, env_names_distinct, env_same_map, env_view, lemma_env_lookup_at,
    lemma_env_lookup_none,
};

verus! {

/// A shell expression with the environment variables and the timeout (in
/// milliseconds) of its execution.
#[derive(Debug, Clone, PartialEq, Eq)]
pub struct Execution {
    /// The shell expression that is executed
    pub expression: String,
    /// Environment variables, as names and values, each name once
    pub environment: Option<Vec<(String, String)>>,
    /// The longest time the execution may take
    pub timeout: Option<u64>,
}

impl Execution {
    /// An execution of the shell expression, without environment variables
    /// and without timeout.
    pub fn new(expression: &str) -> (r: Self)
        ensures
            r.expression@ == expression@,
            r.environment is None,
            r.timeout is None,
    {
        Execution { expression: expression.to_owned(), environment: None, timeout: None }
    }

    /// The same execution of another shell expression.
    pub fn expression(self, expression: &str) -> (r: Self)
        ensures
            r.expression@ == expression@,
            r.environment == self.environment,
            r.timeout == self.timeout,
    {
        Execution { expression: expression.to_owned(), ..self }
    }

    /// The same execution with the given environment variables: one entry
    /// per name, and where a name is given twice, the later value wins, as
    /// in a map.
    pub fn environment(self, keys_values: &[(&str, &str)]) -> (r: Self)
        ensures
            r.expression == self.expression,
            r.timeout == self.timeout,
            r.environment matches Some(e) && env_names_distinct(env_view(e@)) && env_same_map(
                env_view(e@),
                keys_values@.map_values(|p: (&str, &str)| (p.0@, p.1@)),
            ),
    {
        let ghost kv = keys_values@.map_values(|p: (&str, &str)| (p.0@, p.1@));
        let mut env: Vec<(String, String)> = Vec::new();
        let mut i: usize = 0;
        while i < keys_values.len()
            invariant
                i <= keys_values@.len(),
                kv == keys_values@.map_values(|p: (&str, &str)| (p.0@, p.1@)),
                env_names_distinct(env_view(env@)),
                env_same_map(env_view(env@), kv.take(i as int)),
            decreases keys_values@.len() - i,
        {
            let ghost before = env_view(env@);
            let (k, v) = keys_values[i];
            let ghost kvi = kv.take(i + 1);
            assert(kvi.last() == (k@, v@));
            assert(kvi.drop_last() == kv.take(i as int));
            let mut j: usize = 0;
            let mut found = false;
            while j < env.len() && !found
                invariant
                    j <= env@.len(),
                    before == env_view(env@),
                    found ==> j < env@.len() && before[j as int].0 == k@,
                    forall|m: int| 0 <= m < j ==> before[m].0 != k@,
                decreases env@.len() - j, if found { 0int } else { 1int },
            {
                if crate::text::str_equal(env[j].0.as_str(), k) {
                    found = true;
                } else {
                    j = j + 1;
                }
            }
            if found {
                assert(before[j as int].0 == k@);
                let pair = (k.to_owned(), v.to_owned());
                env.set(j, pair);
                proof {
                    let after = env_view(env@);
                    assert(after =~= before.update(j as int, (k@, v@)));
                    assert forall|name: Seq<char>| #[trigger] env_lookup(after, name) == env_lookup(
                        kvi,
                        name,
                    ) by {
                        assert(env_lookup(kv.take(i as int), name) == env_lookup(before, name));
                        if name == k@ {
                            lemma_env_lookup_at(after, name, j as int);
                        } else if exists|m: int| 0 <= m < before.len() && before[m].0 == name {
                            let m = choose|m: int| 0 <= m < before.len() && before[m].0 == name;
                            lemma_env_lookup_at(before, name, m);
                            lemma_env_lookup_at(after, name, m);
                        } else {
                            lemma_env_lookup_none(before, name);
                            lemma_env_lookup_none(after, name);
                        }
                    }
                }
            } else {
                let pair = (k.to_owned(), v.to_owned());
                env.push(pair);
                proof {
                    let after = env_view(env@);
                    assert(after =~= before.push((k@, v@)));
                    assert(after.drop_last() =~= before);
                    assert forall|name: Seq<char>| #[trigger] env_lookup(after, name) == env_lookup(
                        kvi,
                        name,
                    ) by {
                        assert(env_lookup(kv.take(i as int), name) == env_lookup(before, name));
                    }
                }
            }
            i = i + 1;
        }
        assert(kv.take(keys_values@.len() as int) == kv);
        Execution { environment: Some(env), ..self }
    }

    /// The same execution with the given timeout.
    pub fn timeout(self, timeout: Option<u64>) -> (r: Self)
        ensures
            r.expression == self.expression,
            r.environment == self.environment,
            r.timeout == timeout,
    {
        Execution { timeout, ..self }
    }
}

/// Executions that run in parallel, each in its own shell.
pub struct ParallelShellExecutor {
    /// How many executions run at once
    pub count: usize,
    /// The path to the shell
    pub shell: String,
}

impl ParallelShellExecutor {
    /// An executor that runs up to `count` shells of the given path at once.
    pub fn new(count: usize, shell: &str) -> (r: Self)
        ensures
            r.count == count,
            r.shell@ == shell@,
    {
        ParallelShellExecutor { count, shell: shell.to_owned() }
    }
}

} // verus!
