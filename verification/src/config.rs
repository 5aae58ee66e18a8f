//! Configuration of whole documents and of single test cases.
//!
//! Durations are held as whole milliseconds and paths as text.
use vstd::prelude::*;

verus! {

/// Which output streams are considered when comparing with expectations.
#[derive(Debug, Clone, Copy, PartialEq, Eq, Structural)]
pub enum OutputStreamControl {
    /// Consider only STDOUT when evaluating expectations
    Stdout,
    /// Consider only STDERR when evaluating expectations
    Stderr,
    /// Consider STDOUT and STDERR combined (their order is not guaranteed)
    Combined,
}

/// Waiting before a test case starts.
#[derive(Debug, Clone, PartialEq, Eq)]
pub struct TestCaseWait {
    /// How long to wait for, in milliseconds
    pub timeout: u64,
    /// If set then the wait ends early once this path exists
    pub path: Option<String>,
}

/// The abstract value of a [`TestCaseWait`].
pub struct TestCaseWaitView {
    pub timeout: u64,
    pub path: Option<Seq<char>>,
}

impl View for TestCaseWait {
    type V = TestCaseWaitView;

    open spec fn view(&self) -> TestCaseWaitView {
        TestCaseWaitView {
            timeout: self.timeout,
            path: match self.path {
                Some(p) => Some(p@),
                None => None,
            },
        }
    }
}

/// Environment variables as pairs of name and value.
pub open spec fn env_view(v: Seq<(String, String)>) -> Seq<(Seq<char>, Seq<char>)> {
    v.map_values(|p: (String, String)| (p.0@, p.1@))
}

/// The abstract value of a [`TestCaseConfig`].
pub struct TestCaseConfigView {
    pub detached: Option<bool>,
    pub environment: Seq<(Seq<char>, Seq<char>)>,
    pub keep_crlf: Option<bool>,
    pub output_stream: Option<OutputStreamControl>,
    pub skip_code: Option<u32>,
    pub timeout: Option<u64>,
    pub wait: Option<TestCaseWaitView>,
}

/// The configuration with no parameter set.
pub open spec fn spec_empty_config() -> TestCaseConfigView {
    TestCaseConfigView {
        detached: None,
        environment: Seq::empty(),
        keep_crlf: None,
        output_stream: None,
        skip_code: None,
        timeout: None,
        wait: None,
    }
}

/// The configuration that Cram documents imply for their test cases.
pub open spec fn spec_cram_config() -> TestCaseConfigView {
    TestCaseConfigView {
        keep_crlf: Some(true),
        output_stream: Some(OutputStreamControl::Combined),
        ..spec_empty_config()
    }
}

/// Configuration of a single test case. Unset values fall back to defaults.
#[derive(Debug, Clone, PartialEq, Eq)]
pub struct TestCaseConfig {
    /// Whether the shell expression detaches itself (no output or exit code evaluation)
    pub detached: Option<bool>,
    /// Environment variables that are set for the test, as names and values;
    /// where a name occurs twice, its later value overrides the earlier one,
    /// as in a map (see [`env_lookup`])
    pub environment: Vec<(String, String)>,
    /// Whether CRLF is kept (true) or translated to LF (false)
    pub keep_crlf: Option<bool>,
    /// Which output stream the expectations apply to
    pub output_stream: Option<OutputStreamControl>,
    /// The exit code that, if returned by any test, skips the whole file
    pub skip_code: Option<u32>,
    /// Maximal execution time in milliseconds
    pub timeout: Option<u64>,
    /// Waiting before the test starts
    pub wait: Option<TestCaseWait>,
}

impl View for TestCaseConfig {
    type V = TestCaseConfigView;

    open spec fn view(&self) -> TestCaseConfigView {
        TestCaseConfigView {
            detached: self.detached,
            environment: env_view(self.environment@),
            keep_crlf: self.keep_crlf,
            output_stream: self.output_stream,
            skip_code: self.skip_code,
            timeout: self.timeout,
            wait: match self.wait {
                Some(w) => Some(w@),
                None => None,
            },
        }
    }
}

impl TestCaseConfig {
    /// Whether no parameter is set.
    pub open spec fn spec_is_empty(self) -> bool {
        &&& self.output_stream is None
        &&& self.keep_crlf is None
        &&& self.timeout is None
        &&& self.detached is None
        &&& self.wait is None
        &&& self.skip_code is None
        &&& self.environment@.len() == 0
    }

    /// A configuration with no parameter set.
    pub fn empty() -> (r: TestCaseConfig)
        ensures
            r.spec_is_empty(),
            r@ == spec_empty_config(),
    {
        let r = TestCaseConfig {
            detached: None,
            environment: Vec::new(),
            keep_crlf: None,
            output_stream: None,
            skip_code: None,
            timeout: None,
            wait: None,
        };
        assert(env_view(r.environment@) =~= Seq::empty());
        r
    }

    /// The configuration that Cram files imply: output streams combined and
    /// CRLF kept, everything else unset.
    pub fn default_cram() -> (r: TestCaseConfig)
        ensures
            r.output_stream == Some(OutputStreamControl::Combined),
            r.keep_crlf == Some(true),
            r.detached is None && r.timeout is None && r.wait is None && r.skip_code is None
                && r.environment@.len() == 0,
            r@ == spec_cram_config(),
    {
        let r = TestCaseConfig {
            detached: None,
            environment: Vec::new(),
            keep_crlf: Some(true),
            output_stream: Some(OutputStreamControl::Combined),
            skip_code: None,
            timeout: None,
            wait: None,
        };
        assert(env_view(r.environment@) =~= Seq::empty());
        r
    }

    /// Returns true if none of the configuration parameters are set.
    pub fn is_empty(&self) -> (r: bool)
        ensures
            r == self.spec_is_empty(),
    {
        self.output_stream.is_none() && self.keep_crlf.is_none() && self.timeout.is_none()
            && self.detached.is_none() && self.wait.is_none() && self.skip_code.is_none()
            && self.environment.len() == 0
    }
}

impl Default for TestCaseConfig {
    fn default() -> (r: TestCaseConfig)
        ensures
            r.spec_is_empty(),
            r@ == spec_empty_config(),
    {
        TestCaseConfig::empty()
    }
}

/// Configuration of a whole document, which may hold multiple test cases.
#[derive(Debug, Clone, PartialEq, Eq)]
pub struct DocumentConfig {
    /// Paths of documents whose tests are appended to this document's tests
    pub append: Vec<String>,
    /// Defaults for per-test configurations
    pub defaults: TestCaseConfig,
    /// Code block languages that are test cases
    pub language_markers: Vec<String>,
    /// Paths of documents whose tests are prepended to this document's tests
    pub prepend: Vec<String>,
    /// The path to the shell
    pub shell: Option<String>,
    /// Timeout for the executions of all tests, in milliseconds
    pub total_timeout: Option<u64>,
}

impl DocumentConfig {
    /// Whether no parameter is set.
    pub open spec fn spec_is_empty(self) -> bool {
        &&& self.shell is None
        &&& self.total_timeout is None
        &&& self.language_markers@.len() == 0
        &&& self.prepend@.len() == 0
        &&& self.append@.len() == 0
        &&& self.defaults.spec_is_empty()
    }

    /// A configuration with no parameter set.
    pub fn empty() -> (r: DocumentConfig)
        ensures
            r.spec_is_empty(),
    {
        DocumentConfig {
            append: Vec::new(),
            defaults: TestCaseConfig::empty(),
            language_markers: Vec::new(),
            prepend: Vec::new(),
            shell: None,
            total_timeout: None,
        }
    }

    /// Returns true if none of the configuration parameters are set.
    pub fn is_empty(&self) -> (r: bool)
        ensures
            r == self.spec_is_empty(),
    {
        self.shell.is_none() && self.total_timeout.is_none() && self.language_markers.len() == 0
            && self.prepend.len() == 0 && self.append.len() == 0 && self.defaults.is_empty()
    }
}

impl Default for DocumentConfig {
    fn default() -> (r: DocumentConfig)
        ensures
            r.spec_is_empty(),
    {
        DocumentConfig::empty()
    }
}

/// A copy of an optional wait.
pub fn copy_wait(a: &Option<TestCaseWait>) -> (r: Option<TestCaseWait>)
    ensures
        match r {
            Some(w) => Some(w@),
            None => None::<TestCaseWaitView>,
        } == match a {
            Some(w) => Some(w@),
            None => None::<TestCaseWaitView>,
        },
{
    match a {
        None => None,
        Some(w) => Some(
            TestCaseWait {
                timeout: w.timeout,
                path: match &w.path {
                    Some(p) => Some(p.clone()),
                    None => None,
                },
            },
        ),
    }
}

/// A copy of environment variables.
pub fn copy_env(a: &Vec<(String, String)>) -> (r: Vec<(String, String)>)
    ensures
        env_view(r@) == env_view(a@),
{
    let mut r: Vec<(String, String)> = Vec::new();
    let mut i: usize = 0;
    while i < a.len()
        invariant
            i <= a@.len(),
            env_view(r@) == env_view(a@).take(i as int),
        decreases a@.len() - i,
    {
        let ghost before = r@;
        let p = (a[i].0.clone(), a[i].1.clone());
        r.push(p);
        proof {
            assert(env_view(r@) =~= env_view(before).push(
                (p.0@, p.1@),
            ));
            assert(env_view(a@).take(i + 1) =~= env_view(a@).take(
                i as int,
            ).push((a@[i as int].0@, a@[i as int].1@)));
        }
        i = i + 1;
    }
    assert(env_view(a@).take(a@.len() as int) == env_view(a@));
    r
}

/// The value of a variable in environment variables given as pairs of name
/// and value: a later pair of a name overrides an earlier one, as in a map,
/// so the value is that of the last pair with the name; none where no pair
/// has the name.
pub open spec fn env_lookup(env: Seq<(Seq<char>, Seq<char>)>, name: Seq<char>) -> Option<Seq<char>>
    decreases env.len(),
{
    if env.len() == 0 {
        None
    } else if env.last().0 == name {
        Some(env.last().1)
    } else {
        env_lookup(env.drop_last(), name)
    }
}

/// Whether no name occurs in two pairs.
pub open spec fn env_names_distinct(env: Seq<(Seq<char>, Seq<char>)>) -> bool {
    forall|i: int, j: int| 0 <= i < j < env.len() ==> env[i].0 != env[j].0
}

/// Whether two lists of pairs define the same variables with the same values,
/// whatever their order and repetitions.
pub open spec fn env_same_map(a: Seq<(Seq<char>, Seq<char>)>, b: Seq<(Seq<char>, Seq<char>)>) -> bool {
    forall|name: Seq<char>| #[trigger] env_lookup(a, name) == env_lookup(b, name)
}

/// A pair that no later pair overrides gives the value of its name.
pub proof fn lemma_env_lookup_at(env: Seq<(Seq<char>, Seq<char>)>, name: Seq<char>, j: int)
    requires
        0 <= j < env.len(),
        env[j].0 == name,
        forall|k: int| j < k < env.len() ==> env[k].0 != name,
    ensures
        env_lookup(env, name) == Some(env[j].1),
    decreases env.len(),
{
    if j < env.len() - 1 {
        assert(env.last() == env[env.len() - 1]);
        lemma_env_lookup_at(env.drop_last(), name, j);
    }
}

/// A name that no pair has has no value.
pub proof fn lemma_env_lookup_none(env: Seq<(Seq<char>, Seq<char>)>, name: Seq<char>)
    requires
        forall|k: int| 0 <= k < env.len() ==> env[k].0 != name,
    ensures
        env_lookup(env, name) is None,
    decreases env.len(),
{
    if env.len() > 0 {
        assert(env.last() == env[env.len() - 1]);
        lemma_env_lookup_none(env.drop_last(), name);
    }
}

/// The value of the named variable: that of the last pair with the name.
pub fn env_get(env: &Vec<(String, String)>, name: &str) -> (r: Option<String>)
    ensures
        match r {
            Some(v) => env_lookup(env_view(env@), name@) == Some(v@),
            None => env_lookup(env_view(env@), name@) is None,
        },
{
    let ghost ev = env_view(env@);
    let mut i: usize = env.len();
    assert(ev.take(i as int) == ev);
    while i > 0
        invariant
            i <= env@.len(),
            ev == env_view(env@),
            env_lookup(ev, name@) == env_lookup(ev.take(i as int), name@),
        decreases i,
    {
        let ghost t = ev.take(i as int);
        assert(t.last() == (env@[i - 1].0@, env@[i - 1].1@));
        assert(t.drop_last() == ev.take(i - 1));
        if crate::text::str_equal(env[i - 1].0.as_str(), name) {
            return Some(env[i - 1].1.clone());
        }
        i = i - 1;
    }
    None
}

fn opt_string_equal(a: &Option<String>, b: &Option<String>) -> (r: bool)
    ensures
        r == (match (a, b) {
            (Some(x), Some(y)) => x@ == y@,
            (None, None) => true,
            _ => false,
        }),
{
    match (a, b) {
        (Some(x), Some(y)) => crate::text::str_equal(x.as_str(), y.as_str()),
        (None, None) => true,
        _ => false,
    }
}

/// Whether two lists of environment variables define the same variables
/// with the same values, as maps do, whatever their order.
pub fn env_equal(a: &Vec<(String, String)>, b: &Vec<(String, String)>) -> (r: bool)
    ensures
        r == env_same_map(env_view(a@), env_view(b@)),
{
    let ghost av = env_view(a@);
    let ghost bv = env_view(b@);
    let mut i: usize = 0;
    while i < a.len()
        invariant
            i <= a@.len(),
            av == env_view(a@),
            bv == env_view(b@),
            forall|k: int| 0 <= k < i ==> env_lookup(av, #[trigger] av[k].0) == env_lookup(bv, av[k].0),
        decreases a@.len() - i,
    {
        let x = env_get(a, a[i].0.as_str());
        let y = env_get(b, a[i].0.as_str());
        assert(av[i as int].0 == a@[i as int].0@);
        if !opt_string_equal(&x, &y) {
            assert(env_lookup(av, av[i as int].0) != env_lookup(bv, av[i as int].0));
            return false;
        }
        i = i + 1;
    }
    let mut i: usize = 0;
    while i < b.len()
        invariant
            i <= b@.len(),
            av == env_view(a@),
            bv == env_view(b@),
            forall|k: int| 0 <= k < av.len() ==> env_lookup(av, #[trigger] av[k].0) == env_lookup(bv, av[k].0),
            forall|k: int| 0 <= k < i ==> env_lookup(av, #[trigger] bv[k].0) == env_lookup(bv, bv[k].0),
        decreases b@.len() - i,
    {
        let x = env_get(a, b[i].0.as_str());
        let y = env_get(b, b[i].0.as_str());
        assert(bv[i as int].0 == b@[i as int].0@);
        if !opt_string_equal(&x, &y) {
            assert(env_lookup(av, bv[i as int].0) != env_lookup(bv, bv[i as int].0));
            return false;
        }
        i = i + 1;
    }
    assert forall|name: Seq<char>| #[trigger] env_lookup(av, name) == env_lookup(bv, name) by {
        if exists|k: int| 0 <= k < av.len() && av[k].0 == name {
            let k = choose|k: int| 0 <= k < av.len() && av[k].0 == name;
            assert(env_lookup(av, av[k].0) == env_lookup(bv, av[k].0));
        } else if exists|k: int| 0 <= k < bv.len() && bv[k].0 == name {
            let k = choose|k: int| 0 <= k < bv.len() && bv[k].0 == name;
            assert(env_lookup(av, bv[k].0) == env_lookup(bv, bv[k].0));
        } else {
            lemma_env_lookup_none(av, name);
            lemma_env_lookup_none(bv, name);
        }
    }
    true
}

impl TestCaseConfig {
    /// A copy of the configuration.
    pub fn copy(&self) -> (r: TestCaseConfig)
        ensures
            r@ == self@,
    {
        TestCaseConfig {
            detached: self.detached,
            environment: copy_env(&self.environment),
            keep_crlf: self.keep_crlf,
            output_stream: self.output_stream,
            skip_code: self.skip_code,
            timeout: self.timeout,
            wait: copy_wait(&self.wait),
        }
    }
}

/// The configuration `over` laid over `base`: each parameter that `over`
/// sets is taken from it, the others from `base`; the environment variables
/// are those of both, where those of `over` win (a later pair of a name
/// overrides an earlier one).
pub open spec fn spec_overlay(base: TestCaseConfigView, over: TestCaseConfigView) -> TestCaseConfigView {
    TestCaseConfigView {
        detached: if over.detached is Some {
            over.detached
        } else {
            base.detached
        },
        environment: base.environment + over.environment,
        keep_crlf: if over.keep_crlf is Some {
            over.keep_crlf
        } else {
            base.keep_crlf
        },
        output_stream: if over.output_stream is Some {
            over.output_stream
        } else {
            base.output_stream
        },
        skip_code: if over.skip_code is Some {
            over.skip_code
        } else {
            base.skip_code
        },
        timeout: if over.timeout is Some {
            over.timeout
        } else {
            base.timeout
        },
        wait: if over.wait is Some {
            over.wait
        } else {
            base.wait
        },
    }
}

/// Environment variables laid over others: a name that the later ones give
/// has their value, any other name keeps its value.
pub proof fn law_env_lookup_overlay(
    base: Seq<(Seq<char>, Seq<char>)>,
    over: Seq<(Seq<char>, Seq<char>)>,
    name: Seq<char>,
)
    ensures
        env_lookup(base + over, name) == match env_lookup(over, name) {
            Some(v) => Some(v),
            None => env_lookup(base, name),
        },
    decreases over.len(),
{
    if over.len() == 0 {
        assert(base + over =~= base);
    } else {
        assert((base + over).drop_last() =~= base + over.drop_last());
        assert((base + over).last() == over.last());
        law_env_lookup_overlay(base, over.drop_last(), name);
    }
}

fn overlay(base: &TestCaseConfig, over: &TestCaseConfig) -> (r: TestCaseConfig)
    ensures
        r@ == spec_overlay(base@, over@),
{
    let mut environment = copy_env(&base.environment);
    let more = copy_env(&over.environment);
    let ghost before = environment@;
    let mut i: usize = 0;
    while i < more.len()
        invariant
            i <= more@.len(),
            env_view(more@) == env_view(over.environment@),
            env_view(environment@) == env_view(base.environment@) + env_view(more@).take(i as int),
        decreases more@.len() - i,
    {
        let ghost prev = environment@;
        let p = (more[i].0.clone(), more[i].1.clone());
        environment.push(p);
        proof {
            assert(env_view(environment@) =~= env_view(prev).push((p.0@, p.1@)));
            assert(env_view(more@).take(i + 1) =~= env_view(more@).take(i as int).push(
                (more@[i as int].0@, more@[i as int].1@),
            ));
            assert(env_view(base.environment@) + env_view(more@).take(i + 1) =~= (env_view(
                base.environment@,
            ) + env_view(more@).take(i as int)).push((more@[i as int].0@, more@[i as int].1@)));
        }
        i = i + 1;
    }
    assert(env_view(more@).take(more@.len() as int) == env_view(more@));
    TestCaseConfig {
        detached: if over.detached.is_some() {
            over.detached
        } else {
            base.detached
        },
        environment,
        keep_crlf: if over.keep_crlf.is_some() {
            over.keep_crlf
        } else {
            base.keep_crlf
        },
        output_stream: if over.output_stream.is_some() {
            over.output_stream
        } else {
            base.output_stream
        },
        skip_code: if over.skip_code.is_some() {
            over.skip_code
        } else {
            base.skip_code
        },
        timeout: if over.timeout.is_some() {
            over.timeout
        } else {
            base.timeout
        },
        wait: if over.wait.is_some() {
            copy_wait(&over.wait)
        } else {
            copy_wait(&base.wait)
        },
    }
}

impl TestCaseConfig {
    /// This configuration with every parameter that `overrides` sets taken
    /// from it; environment variables of both, those of `overrides` winning.
    pub fn with_overrides_from(&self, overrides: &TestCaseConfig) -> (r: TestCaseConfig)
        ensures
            r@ == spec_overlay(self@, overrides@),
    {
        overlay(self, overrides)
    }

    /// This configuration with every parameter that it does not set taken
    /// from `defaults`; environment variables of both, its own winning.
    pub fn with_defaults_from(&self, defaults: &TestCaseConfig) -> (r: TestCaseConfig)
        ensures
            r@ == spec_overlay(defaults@, self@),
    {
        overlay(defaults, self)
    }
}

} // verus!
