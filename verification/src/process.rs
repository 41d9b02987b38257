//! Child processes: how they are launched, and who owns them.

use std::collections::hash_map::Entry;
use std::collections::HashMap;
use vstd::prelude::*;

use crate::cancellation::Cancellation;
use crate::environment::Variable;
use crate::error::OrchestratorError;
use crate::ids::{EntityId, SessionId};

verus! {

/// Where a child process runs.
#[derive(Clone, Debug)]
pub enum ExecutionEnvironment {
    Windows,
    Wsl2 { distribution: String },
}

#[derive(Clone, Copy, Debug)]
pub struct PtySize {
    pub columns: u16,
    pub rows: u16,
}

/// A process to launch.
#[derive(Clone, Debug)]
pub struct ProcessSpec {
    pub executable: String,
    pub arguments: Vec<String>,
    pub working_directory: std::path::PathBuf,
    pub environment: ExecutionEnvironment,
    /// The variables that are set for the process; of two of one name, the later one counts.
    pub environment_overrides: Vec<Variable>,
}

/// How a process is launched: the program and its argument vector, never a line of shell. The
/// child's environment is cleared before the variables are set in their order.
#[derive(Debug)]
pub struct LaunchPlan<'a> {
    pub program: String,
    pub arguments: Vec<String>,
    pub working_directory: &'a std::path::PathBuf,
    pub environment: Vec<Variable>,
}

impl ProcessSpec {
    /// The program that is launched: the executable itself, or what runs it in a distribution.
    pub open spec fn program(self) -> Seq<char> {
        match self.environment {
            ExecutionEnvironment::Windows => self.executable@,
            ExecutionEnvironment::Wsl2 { distribution } => "wsl.exe"@,
        }
    }

    /// The arguments that the program is launched with.
    pub open spec fn argument_vector(self) -> Seq<Seq<char>> {
        match self.environment {
            ExecutionEnvironment::Windows => self.arguments.deep_view(),
            ExecutionEnvironment::Wsl2 { distribution } => seq![
                "--distribution"@,
                distribution@,
                "--exec"@,
                self.executable@,
            ] + self.arguments.deep_view(),
        }
    }
}

/// Owns child lifetimes. A platform PTY backend can implement the same lifecycle.
pub struct ProcessSupervisor<C> {
    /// The children by the values of their sessions.
    children: HashMap<u128, C>,
}

impl<C> View for ProcessSupervisor<C> {
    type V = Map<SessionId, C>;

    /// The children by their sessions.
    closed spec fn view(&self) -> Map<SessionId, C> {
        by_session(self.children@)
    }
}

spec fn by_session<C>(children: Map<u128, C>) -> Map<SessionId, C> {
    Map::new(
        |session: SessionId| children.contains_key(session.value),
        |session: SessionId| children[session.value],
    )
}

proof fn lemma_insertion<C>(children: Map<u128, C>, session: SessionId, child: C)
    ensures
        by_session(children.insert(session.value, child)) == by_session(children).insert(
            session,
            child,
        ),
{
    let now = by_session(children.insert(session.value, child));
    let then = by_session(children).insert(session, child);
    assert forall|other: SessionId| #[trigger] now.dom().contains(other) == then.dom().contains(
        other,
    ) by {
        if other.value == session.value {
            assert(other == session);
        }
    }
    assert(now.dom() =~= then.dom());
    assert(now =~= then);
}

impl<C> Default for ProcessSupervisor<C> {
    /// A supervisor without children.
    fn default() -> (r: Self)
        ensures
            r@ == Map::<SessionId, C>::empty(),
    {
        broadcast use vstd::std_specs::hash::group_hash_axioms;

        let r = ProcessSupervisor { children: HashMap::new() };
        assert(r@ =~= Map::<SessionId, C>::empty());
        r
    }
}

impl<C> ProcessSupervisor<C> {
    /// Plans the launch of a process, given the variables of the host's environment.
    pub fn spawn<'a>(&self, spec: &'a ProcessSpec, host: &Vec<Variable>) -> (r: Result<
        LaunchPlan<'a>,
        OrchestratorError,
    >)
        ensures
            r is Err <==> crate::text::trimmed(spec.executable@).len() == 0,
            r matches Err(e) ==> e.is_invalid_input("empty executable"@),
            r is Err <==> forall|i: int|
                0 <= i < spec.executable@.len() ==> crate::text::white_space(
                    #[trigger] spec.executable@[i],
                ),
            r matches Err(e) ==> e is InvalidInput && e->InvalidInput_0@ == "empty executable"@,
            spec.environment is Windows ==> (r matches Ok(plan) ==> {
                &&& plan.program@ == spec.executable@
                &&& plan.arguments.deep_view() == spec.arguments.deep_view()
            }),
            spec.environment is Wsl2 ==> (r matches Ok(plan) ==> {
                &&& plan.program@ == "wsl.exe"@
                &&& plan.arguments.deep_view() == seq![
                    "--distribution"@,
                    spec.environment->distribution@,
                    "--exec"@,
                    spec.executable@,
                ] + spec.arguments.deep_view()
            }),
            r matches Ok(plan) ==> {
                &&& plan.program@ == spec.program()
                &&& plan.arguments.deep_view() == spec.argument_vector()
                &&& *plan.working_directory == spec.working_directory
                &&& crate::environment::entries(plan.environment@)
                    == crate::environment::inherited(crate::environment::entries(host@))
                    + crate::environment::entries(spec.environment_overrides@)
            },
    {
        proof {
            crate::text::only_white_space_trims_to_nothing(spec.executable@);
        }
        if crate::text::trim(spec.executable.as_str()).as_str().is_empty() {
            return Err(OrchestratorError::invalid_input("empty executable"));
        }
        let mut arguments: Vec<String> = Vec::new();
        let program = match &spec.environment {
            ExecutionEnvironment::Windows => spec.executable.clone(),
            ExecutionEnvironment::Wsl2 { distribution } => {
                arguments.push("--distribution".to_owned());
                arguments.push(distribution.clone());
                arguments.push("--exec".to_owned());
                arguments.push(spec.executable.clone());
                "wsl.exe".to_owned()
            },
        };
        let mut rest = spec.arguments.clone();
        arguments.append(&mut rest);
        assert(arguments.deep_view() =~= spec.argument_vector());
        Ok(
            LaunchPlan {
                program,
                arguments,
                working_directory: &spec.working_directory,
                environment: crate::environment::child_environment(
                    host,
                    &spec.environment_overrides,
                ),
            },
        )
    }

    /// Owns the child under this session, in place of one that it owned under it.
    pub fn adopt_as(&mut self, session: SessionId, child: C)
        ensures
            final(self)@ == old(self)@.insert(session, child),
    {
        broadcast use vstd::std_specs::hash::group_hash_axioms;

        let ghost before = self.children@;
        self.children.insert(session.value, child);
        proof {
            lemma_insertion(before, session, child);
        }
    }

    /// Owns the child under a fresh random session.
    pub fn adopt(&mut self, child: C) -> (session: SessionId)
        ensures
            crate::ids::is_version_four(session.value),
            final(self)@ == old(self)@.insert(session, child),
    {
        let session = EntityId::random();
        self.adopt_as(session, child);
        session
    }

    /// Begins to cancel the session, whose child has this time to stop by itself once it is asked
    /// to. A session that the supervisor does not know is refused.
    pub fn cancel(&self, session: SessionId, grace_ms: u64) -> (r: Cancellation)
        ensures
            if self@.contains_key(session) {
                r == (Cancellation::Asking { session, grace_ms })
            } else {
                r matches Cancellation::Finished(Err(e)) && e.is_invalid_input("unknown session"@)
            },
    {
        broadcast use vstd::std_specs::hash::group_hash_axioms;

        if self.children.contains_key(&session.value) {
            Cancellation::Asking { session, grace_ms }
        } else {
            Cancellation::Finished(Err(OrchestratorError::invalid_input("unknown session")))
        }
    }

    /// The child of the session, to be asked to stop, looked after or killed; the supervisor goes
    /// on owning it.
    pub fn child(&mut self, session: SessionId) -> (r: Option<&mut C>)
        ensures
            r is Some <==> old(self)@.contains_key(session),
            r matches Some(child) ==> *child == old(self)@[session] && final(self)@ == old(
                self,
            )@.insert(session, *final(child)),
            r is None ==> final(self)@ == old(self)@,
    {
        broadcast use vstd::std_specs::hash::group_hash_axioms;

        let ghost before = self.children@;
        match self.children.entry(session.value) {
            Entry::Occupied(owned) => {
                let child = owned.into_mut();
                proof {
                    lemma_insertion(before, session, *final(child));
                }
                Some(child)
            },
            Entry::Vacant(_) => {
                assert(before.remove(session.value) =~= before);
                None
            },
        }
    }
}

/// Wherever a process runs, its arguments come last in the argument vector, each as it was given
/// and in the given order, and in a distribution the executable stands right before them.
pub proof fn arguments_are_handed_over_verbatim(spec: ProcessSpec)
    ensures
        ({
            let vector = spec.argument_vector();
            let given = spec.arguments.deep_view();
            let head = vector.len() - given.len();
            &&& vector.skip(head) == given
            &&& spec.environment is Windows ==> head == 0 && spec.program() == spec.executable@
            &&& spec.environment is Wsl2 ==> head == 4 && vector[3] == spec.executable@
                && vector[1] == spec.environment->distribution@
        }),
{
    let vector = spec.argument_vector();
    let given = spec.arguments.deep_view();
    assert(vector.skip(vector.len() - given.len()) =~= given);
}

/// A native process is its executable with its arguments; one in a distribution is what runs it
/// there, with the distribution and the executable as they are named, and its arguments behind.
pub proof fn launches_name_program_and_arguments(spec: ProcessSpec)
    ensures
        spec.environment is Windows ==> spec.program() == spec.executable@ && spec.argument_vector()
            == spec.arguments.deep_view(),
        spec.environment matches ExecutionEnvironment::Wsl2 { distribution } ==> spec.program()
            == "wsl.exe"@ && spec.argument_vector() == seq![
            "--distribution"@,
            distribution@,
            "--exec"@,
            spec.executable@,
        ] + spec.arguments.deep_view(),
{
}

} // verus!
