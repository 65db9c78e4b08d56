//! The data model: command definitions, the catalog that holds them, and
//! the error type that every operation of the library reports through.

use vstd::prelude::*;

verus! {

/// Abstract value of one command definition: a name and an argv list,
/// where the first argv element is the executable and the rest are its
/// arguments.
pub struct RunnerView {
    pub name: Seq<char>,
    pub command: Seq<Seq<char>>,
}

/// One named command definition from the configuration file.
#[derive(Clone, Debug)]
pub struct MazeRunner {
    name: String,
    command: Vec<String>,
}

impl View for MazeRunner {
    type V = RunnerView;

    closed spec fn view(&self) -> RunnerView {
        RunnerView { name: self.name@, command: self.command.deep_view() }
    }
}

impl DeepView for MazeRunner {
    type V = RunnerView;

    open spec fn deep_view(&self) -> RunnerView {
        self.view()
    }
}

impl MazeRunner {
    pub fn new(name: String, command: Vec<String>) -> (r: MazeRunner)
        ensures
            r@.name == name@,
            r@.command == command.deep_view(),
    {
        MazeRunner { name, command }
    }

    pub fn name(&self) -> (r: &str)
        ensures
            r@ == self@.name,
    {
        self.name.as_str()
    }

    pub fn command(&self) -> (r: &Vec<String>)
        ensures
            r.deep_view() == self@.command,
    {
        &self.command
    }

    /// The executable of the definition: the first argv element. A
    /// definition with an empty argv names nothing to run, so one is
    /// required here, as the executor requires it.
    pub fn program(&self) -> (r: &String)
        requires
            self@.command.len() > 0,
        ensures
            r@ == self@.command[0],
    {
        &self.command[0]
    }

    /// The arguments of the definition: every argv element after the
    /// first, in order.
    pub fn arguments(&self) -> (r: Vec<String>)
        requires
            self@.command.len() > 0,
        ensures
            r.deep_view() == self@.command.skip(1),
    {
        let mut out: Vec<String> = Vec::new();
        let mut j: usize = 1;
        while j < self.command.len()
            invariant
                1 <= j <= self.command.len(),
                self@.command.len() == self.command@.len(),
                forall|i: int| 0 <= i < self.command@.len() ==> self@.command[i]
                    == #[trigger] self.command@[i]@,
                out.deep_view() =~= self@.command.subrange(1, j as int),
            decreases self.command.len() - j,
        {
            let ghost prev = out.deep_view();
            out.push(self.command[j].clone());
            proof {
                assert(out.deep_view() =~= prev.push(self.command@[j as int]@));
                assert(self@.command.subrange(1, j as int + 1) =~= prev.push(
                    self@.command[j as int],
                ));
            }
            j += 1;
        }
        proof {
            assert(self@.command.subrange(1, self@.command.len() as int) =~= self@.command.skip(
                1,
            ));
        }
        out
    }
}

/// The entry a name selects from an ordered sequence of definitions: the
/// first entry whose name matches, exactly; no partial matching.
pub open spec fn lookup_spec(rs: Seq<RunnerView>, name: Seq<char>) -> Option<RunnerView>
    decreases rs.len(),
{
    if rs.len() == 0 {
        None
    } else if rs[0].name == name {
        Some(rs[0])
    } else {
        lookup_spec(rs.drop_first(), name)
    }
}

/// Lookup finds a match exactly when some entry bears the name, and what
/// it finds is the first such entry.
pub proof fn lemma_lookup_finds(rs: Seq<RunnerView>, name: Seq<char>)
    ensures
        (lookup_spec(rs, name) is Some) <==> exists|i: int|
            0 <= i < rs.len() && (#[trigger] rs[i].name) == name,
        lookup_spec(rs, name) matches Some(r) ==> exists|i: int|
            {
                &&& 0 <= i < rs.len()
                &&& #[trigger] rs[i] == r
                &&& rs[i].name == name
                &&& forall|k: int| 0 <= k < i ==> (#[trigger] rs[k].name) != name
            },
    decreases rs.len(),
{
    if rs.len() > 0 {
        lemma_lookup_finds(rs.drop_first(), name);
        if rs[0].name == name {
            assert(rs[0].name == name);
        } else {
            let tail = rs.drop_first();
            if lookup_spec(rs, name) is Some {
                let i = choose|i: int|
                    0 <= i < tail.len() && (#[trigger] tail[i].name) == name;
                assert(rs[i + 1].name == name);
                let r = lookup_spec(rs, name)->Some_0;
                let j = choose|j: int|
                    {
                        &&& 0 <= j < tail.len()
                        &&& #[trigger] tail[j] == r
                        &&& tail[j].name == name
                        &&& forall|k: int| 0 <= k < j ==> (#[trigger] tail[k].name) != name
                    };
                assert(rs[j + 1] == r && rs[j + 1].name == name);
                assert forall|k: int| 0 <= k < j + 1 implies (#[trigger] rs[k].name) != name by {
                    if k > 0 {
                        assert(tail[k - 1] == rs[k]);
                    }
                }
            } else {
                assert forall|i: int|
                    0 <= i < rs.len() implies (#[trigger] rs[i].name) != name by {
                    if i > 0 {
                        assert(tail[i - 1] == rs[i]);
                    }
                }
            }
        }
    }
}

impl MazeRunners {
    /// Looks a definition up by name: the first entry of the catalog
    /// whose name matches exactly, and nothing when no entry matches.
    pub fn lookup<'a>(&'a self, name: &str) -> (r: Option<&'a MazeRunner>)
        ensures
            match r {
                Some(m) => lookup_spec(self@, name@) == Some(m@),
                None => lookup_spec(self@, name@) is None,
            },
    {
        let key: String = name.to_owned();
        let mut j: usize = 0;
        proof {
            assert(self@.skip(0) =~= self@);
        }
        while j < self.runners.len()
            invariant
                j <= self.runners.len(),
                key@ == name@,
                self@.len() == self.runners@.len(),
                forall|i: int| 0 <= i < self.runners@.len() ==> self@[i]
                    == #[trigger] self.runners@[i]@,
                lookup_spec(self@, name@) == lookup_spec(self@.skip(j as int), name@),
            decreases self.runners.len() - j,
        {
            proof {
                assert(self@.skip(j as int)[0] == self@[j as int]);
            }
            let runner = &self.runners[j];
            if runner.name == key {
                return Some(runner);
            }
            proof {
                assert(self@.skip(j as int).drop_first() =~= self@.skip(j as int + 1));
            }
            j += 1;
        }
        proof {
            assert(self@.skip(j as int) =~= Seq::empty());
        }
        None
    }

    /// Selects the definition to execute: the looked-up entry, or the
    /// not-found error when the catalog has no entry of that name; no
    /// other outcome.
    pub fn select_runner<'a>(&'a self, name: &str) -> (r: Result<&'a MazeRunner, MazeRunnerError>)
        ensures
            r matches Ok(m) ==> lookup_spec(self@, name@) == Some(m@),
            r is Ok <==> lookup_spec(self@, name@) is Some,
            r matches Err(e) ==> e.kind_spec() == MazeRunnerErrorKind::Unplanned
                && e.message_view() == "Runner not found"@,
    {
        match self.lookup(name) {
            Some(m) => Ok(m),
            None => Err(
                MazeRunnerError::new(
                    MazeRunnerErrorKind::Unplanned,
                    "Runner not found".to_owned(),
                ),
            ),
        }
    }
}

impl Default for MazeRunner {
    /// A definition with an empty name and an empty argv.
    fn default() -> (r: Self)
        ensures
            r@.name == Seq::<char>::empty(),
            r@.command == Seq::<Seq<char>>::empty(),
    {
        let r = MazeRunner { name: String::new(), command: Vec::new() };
        proof {
            assert(r@.command =~= Seq::<Seq<char>>::empty());
        }
        r
    }
}

/// The catalog: the ordered command definitions of one configuration file.
/// Order is the order of the source file; lookup is by name, not position.
#[derive(Clone, Debug)]
pub struct MazeRunners {
    /// The definitions, in the order the configuration file gave them.
    pub runners: Vec<MazeRunner>,
}

impl View for MazeRunners {
    type V = Seq<RunnerView>;

    open spec fn view(&self) -> Seq<RunnerView> {
        self.runners.deep_view()
    }
}

impl Default for MazeRunners {
    /// An empty catalog.
    fn default() -> (r: Self)
        ensures
            r@ == Seq::<RunnerView>::empty(),
    {
        let r = MazeRunners { runners: Vec::new() };
        proof {
            assert(r@ =~= Seq::<RunnerView>::empty());
        }
        r
    }
}

/// The family an error belongs to.
#[derive(Clone, Copy, Debug, PartialEq, Eq, Structural)]
pub enum MazeRunnerErrorKind {
    /// A failure of the runner logic itself, such as a name that is not in
    /// the catalog.
    Unplanned,
    /// A file or stream could not be opened or read, or a child process
    /// could not be spawned.
    Io,
    /// The configuration text was rejected, either as TOML or in shape.
    Toml,
    /// A plain message raised from a string.
    Std,
    /// The catalog could not be encoded for listing.
    Serde,
}

impl Default for MazeRunnerErrorKind {
    fn default() -> (r: Self)
        ensures
            r == MazeRunnerErrorKind::Unplanned,
    {
        MazeRunnerErrorKind::Unplanned
    }
}

/// Error raised while a spawned command is running.
pub struct MazeRunnerRunError {
    message: String,
}

impl MazeRunnerRunError {
    pub closed spec fn message_view(&self) -> Seq<char> {
        self.message@
    }

    pub fn new(message: String) -> (r: Self)
        ensures
            r.message_view() == message@,
    {
        MazeRunnerRunError { message }
    }

    pub fn message(&self) -> (r: &str)
        ensures
            r@ == self.message_view(),
    {
        self.message.as_str()
    }
}

/// The error every operation of the library reports: a kind and a
/// human-readable message, built once at the point of failure and handed
/// up unchanged.
#[derive(Debug)]
pub struct MazeRunnerError {
    kind: MazeRunnerErrorKind,
    message: String,
}

impl MazeRunnerError {
    pub closed spec fn kind_spec(&self) -> MazeRunnerErrorKind {
        self.kind
    }

    pub closed spec fn message_view(&self) -> Seq<char> {
        self.message@
    }

    pub fn new(kind: MazeRunnerErrorKind, message: String) -> (r: Self)
        ensures
            r.kind_spec() == kind,
            r.message_view() == message@,
    {
        MazeRunnerError { kind, message }
    }

    pub fn kind(&self) -> (r: &MazeRunnerErrorKind)
        ensures
            *r == self.kind_spec(),
    {
        &self.kind
    }

    pub fn message(&self) -> (r: &str)
        ensures
            r@ == self.message_view(),
    {
        self.message.as_str()
    }
}

impl Default for MazeRunnerError {
    /// An error that says nothing yet: the default kind with an empty
    /// message.
    fn default() -> (r: Self)
        ensures
            r.kind_spec() == MazeRunnerErrorKind::Unplanned,
            r.message_view() == Seq::<char>::empty(),
    {
        MazeRunnerError { kind: MazeRunnerErrorKind::Unplanned, message: String::new() }
    }
}

/// The result type of every fallible operation of the library.
pub type MazeRunnerResult<T> = Result<T, MazeRunnerError>;

} // verus!
