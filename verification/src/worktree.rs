//! Git worktrees, created and removed through Git itself.

use vstd::prelude::*;

use crate::error::OrchestratorError;
use crate::filesystem::CanonicalPath;

verus! {

/// A worktree to create.
#[derive(Clone, Debug)]
pub struct WorktreeRequest {
    pub repository: std::path::PathBuf,
    pub destination: std::path::PathBuf,
    pub branch: String,
}

/// A run of Git: its arguments, of which the destination comes last, and where it runs.
#[derive(Debug)]
pub struct GitCommand<'a> {
    pub arguments: Vec<&'a str>,
    pub destination: &'a std::path::PathBuf,
    pub repository: &'a std::path::PathBuf,
}

/// The branch name can be handed to Git: it is not empty, cannot be taken for an option, and
/// holds no character that ends a line or a text.
pub open spec fn is_branch_name(branch: Seq<char>) -> bool {
    &&& branch.len() > 0
    &&& branch[0] != '-'
    &&& !branch.contains('\0')
    &&& !branch.contains('\n')
    &&& !branch.contains('\r')
}

/// Refuses a branch name that cannot be handed to Git.
pub fn ensure_branch_name(branch: &str) -> (r: Result<(), OrchestratorError>)
    ensures
        r is Ok <==> is_branch_name(branch@),
        r matches Err(e) ==> e.is_invalid_input("invalid branch name"@),
        r is Ok <==> branch@.len() > 0 && branch@[0] != '-' && forall|i: int|
            0 <= i < branch@.len() ==> (#[trigger] branch@[i]) != '\0' && branch@[i] != '\n'
                && branch@[i] != '\r',
        r matches Err(e) ==> e is InvalidInput && e->InvalidInput_0@ == "invalid branch name"@,
{
    proof {
        branch_names_that_git_takes(branch@);
    }
    let chars = crate::text::char_vec(branch);
    if chars.len() == 0 || chars[0] == '-' {
        return Err(OrchestratorError::invalid_input("invalid branch name"));
    }
    let mut i: usize = 0;
    while i < chars.len()
        invariant
            i <= chars.len(),
            chars@ == branch@,
            forall|j: int|
                0 <= j < i ==> (#[trigger] branch@[j]) != '\0' && branch@[j] != '\n' && branch@[j]
                    != '\r',
        decreases chars.len() - i,
    {
        if chars[i] == '\0' || chars[i] == '\n' || chars[i] == '\r' {
            assert(branch@.contains(branch@[i as int]));
            return Err(OrchestratorError::invalid_input("invalid branch name"));
        }
        i = i + 1;
    }
    Ok(())
}

/// Creates and removes worktrees.
#[derive(Clone, Copy, Debug, Default)]
pub struct GitWorktreeService;

impl GitWorktreeService {
    /// Plans the run of Git that creates the worktree on a new branch.
    pub fn create<'a>(&self, request: &'a WorktreeRequest) -> (r: Result<
        GitCommand<'a>,
        OrchestratorError,
    >)
        ensures
            r is Ok <==> is_branch_name(request.branch@),
            r matches Err(e) ==> e.is_invalid_input("invalid branch name"@),
            r matches Ok(command) ==> {
                &&& crate::text::texts(command.arguments@) == seq![
                    "worktree"@,
                    "add"@,
                    "-b"@,
                    request.branch@,
                ]
                &&& *command.destination == request.destination
                &&& *command.repository == request.repository
                &&& command.arguments@.len() == 4
                &&& command.arguments@[0]@ == "worktree"@
                &&& command.arguments@[1]@ == "add"@
                &&& command.arguments@[2]@ == "-b"@
                &&& command.arguments@[3]@ == request.branch@
            },
            r is Ok <==> request.branch@.len() > 0 && request.branch@[0] != '-' && forall|i: int|
                0 <= i < request.branch@.len() ==> (#[trigger] request.branch@[i]) != '\0'
                    && request.branch@[i] != '\n' && request.branch@[i] != '\r',
    {
        match ensure_branch_name(request.branch.as_str()) {
            Err(e) => Err(e),
            Ok(()) => {
                let arguments: Vec<&'a str> = vec![
                    "worktree",
                    "add",
                    "-b",
                    request.branch.as_str(),
                ];
                assert(crate::text::texts(arguments@) =~= seq![
                    "worktree"@,
                    "add"@,
                    "-b"@,
                    request.branch@,
                ]);
                Ok(
                    GitCommand {
                        arguments,
                        destination: &request.destination,
                        repository: &request.repository,
                    },
                )
            },
        }
    }

    /// What the end of the run that [`GitWorktreeService::create`] planned comes to.
    pub fn created(&self, success: bool) -> (r: Result<(), OrchestratorError>)
        ensures
            r is Ok <==> success,
            r matches Err(e) ==> e.is_invalid_input("git worktree add failed"@),
    {
        if success {
            Ok(())
        } else {
            Err(OrchestratorError::invalid_input("git worktree add failed"))
        }
    }

    /// Plans the run of Git that removes the worktree.
    pub fn remove<'a>(
        &self,
        repository: &'a std::path::PathBuf,
        destination: &'a std::path::PathBuf,
    ) -> (command: GitCommand<'a>)
        ensures
            crate::text::texts(command.arguments@) == seq!["worktree"@, "remove"@],
            command.arguments@.len() == 2,
            command.arguments@[0]@ == "worktree"@,
            command.arguments@[1]@ == "remove"@,
            *command.destination == *destination,
            *command.repository == *repository,
    {
        let arguments: Vec<&'a str> = vec!["worktree", "remove"];
        assert(crate::text::texts(arguments@) =~= seq!["worktree"@, "remove"@]);
        GitCommand { arguments, destination, repository }
    }

    /// What the end of the run that [`GitWorktreeService::remove`] planned comes to.
    pub fn removed(&self, success: bool) -> (r: Result<(), OrchestratorError>)
        ensures
            r is Ok <==> success,
            r matches Err(e) ==> e.is_invalid_input("git worktree remove failed"@),
    {
        if success {
            Ok(())
        } else {
            Err(OrchestratorError::invalid_input("git worktree remove failed"))
        }
    }
}

/// The repositories on which Git runs. Whoever runs Git on a repository waits until it is given
/// the repository, and gives it back when the run has ended.
pub struct GitTurns {
    busy: Vec<CanonicalPath>,
}

spec fn holds(busy: Seq<CanonicalPath>, repository: Seq<Seq<u8>>) -> bool {
    exists|i: int| 0 <= i < busy.len() && (#[trigger] busy[i])@ == repository
}

impl View for GitTurns {
    type V = Set<Seq<Seq<u8>>>;

    /// The repositories that are given out, by the components of their paths.
    closed spec fn view(&self) -> Set<Seq<Seq<u8>>> {
        Set::new(|repository: Seq<Seq<u8>>| holds(self.busy@, repository))
    }
}

impl Default for GitTurns {
    /// No repository is given out.
    fn default() -> (r: Self)
        ensures
            r@ == Set::<Seq<Seq<u8>>>::empty(),
    {
        let r = GitTurns { busy: Vec::new() };
        assert(r@ =~= Set::<Seq<Seq<u8>>>::empty());
        r
    }
}

impl GitTurns {
    /// Gives the repository out, if it is not given out already.
    pub fn begin(&mut self, repository: CanonicalPath) -> (r: bool)
        ensures
            r <==> !old(self)@.contains(repository@),
            r ==> final(self)@ == old(self)@.insert(repository@),
            !r ==> final(self)@ == old(self)@,
    {
        let mut i: usize = 0;
        while i < self.busy.len()
            invariant
                i <= self.busy.len(),
                *self == *old(self),
                forall|j: int| 0 <= j < i ==> (#[trigger] self.busy@[j])@ != repository@,
            decreases self.busy.len() - i,
        {
            if self.busy[i].is_same(&repository) {
                assert(holds(self.busy@, repository@));
                return false;
            }
            i = i + 1;
        }
        let ghost before = self.busy@;
        self.busy.push(repository);
        proof {
            let after = self.busy@;
            assert forall|path: Seq<Seq<u8>>| #[trigger]
                holds(after, path) == (holds(before, path) || path == repository@) by {
                if holds(before, path) {
                    let j = choose|j: int| 0 <= j < before.len() && (#[trigger] before[j])@ == path;
                    assert(after[j]@ == path);
                }
                if holds(after, path) {
                    let j = choose|j: int| 0 <= j < after.len() && (#[trigger] after[j])@ == path;
                    if j < before.len() {
                        assert(before[j]@ == path);
                    }
                }
                assert(after[before.len() as int]@ == repository@);
            }
            assert(self@ =~= old(self)@.insert(repository@));
        }
        true
    }

    /// Takes the repository back.
    pub fn end(&mut self, repository: &CanonicalPath)
        ensures
            final(self)@ == old(self)@.remove(repository@),
    {
        let mut i: usize = 0;
        while i < self.busy.len()
            invariant
                i <= self.busy.len(),
                forall|j: int| 0 <= j < i ==> (#[trigger] self.busy@[j])@ != repository@,
                forall|path: Seq<Seq<u8>>|
                    path != repository@ ==> #[trigger] holds(self.busy@, path) == holds(
                        old(self).busy@,
                        path,
                    ),
            decreases self.busy.len() - i,
        {
            if self.busy[i].is_same(repository) {
                let ghost before = self.busy@;
                self.busy.remove(i);
                proof {
                    let after = self.busy@;
                    assert forall|path: Seq<Seq<u8>>| path != repository@ implies #[trigger] holds(
                        after,
                        path,
                    ) == holds(before, path) by {
                        if holds(before, path) {
                            let j = choose|j: int|
                                0 <= j < before.len() && (#[trigger] before[j])@ == path;
                            assert(after[if j < i {
                                j
                            } else {
                                j - 1
                            }]@ == path);
                        }
                        if holds(after, path) {
                            let j = choose|j: int|
                                0 <= j < after.len() && (#[trigger] after[j])@ == path;
                            assert(before[if j < i {
                                j
                            } else {
                                j + 1
                            }]@ == path);
                        }
                    }
                }
            } else {
                i = i + 1;
            }
        }
        proof {
            assert(!holds(self.busy@, repository@));
            assert(self@ =~= old(self)@.remove(repository@));
        }
    }
}

/// What happens to the turns: a repository is asked for, and given out or not, or is given back.
pub enum TurnEvent {
    Begin { repository: Seq<Seq<u8>>, given: bool },
    End { repository: Seq<Seq<u8>> },
}

/// The event takes the repositories that are given out from `before` to `after`, as
/// [`GitTurns::begin`] and [`GitTurns::end`] do.
pub open spec fn is_turn(
    before: Set<Seq<Seq<u8>>>,
    event: TurnEvent,
    after: Set<Seq<Seq<u8>>>,
) -> bool {
    match event {
        TurnEvent::Begin { repository, given } => {
            &&& given <==> !before.contains(repository)
            &&& after == if given {
                before.insert(repository)
            } else {
                before
            }
        },
        TurnEvent::End { repository } => after == before.remove(repository),
    }
}

/// The sets follow one another by the events.
pub open spec fn are_turns(busy: Seq<Set<Seq<Seq<u8>>>>, events: Seq<TurnEvent>) -> bool {
    &&& busy.len() == events.len() + 1
    &&& forall|k: int|
        0 <= k < events.len() ==> is_turn(busy[k], #[trigger] events[k], busy[k + 1])
}

proof fn lemma_given_until_ended(
    busy: Seq<Set<Seq<Seq<u8>>>>,
    events: Seq<TurnEvent>,
    repository: Seq<Seq<u8>>,
    first: int,
    now: int,
)
    requires
        are_turns(busy, events),
        0 <= first < now <= events.len(),
        events[first] == (TurnEvent::Begin { repository, given: true }),
        forall|k: int|
            first < k < now ==> (#[trigger] events[k]) != (TurnEvent::End { repository }),
    ensures
        busy[now].contains(repository),
    decreases now - first,
{
    assert(is_turn(busy[now - 1], events[now - 1], busy[now]));
    if now > first + 1 {
        lemma_given_until_ended(busy, events, repository, first, now - 1);
        assert(events[now - 1] != (TurnEvent::End { repository }));
    }
}

/// Runs of Git on one repository do not overlap: between two times that it is given out, it is
/// given back.
pub proof fn runs_on_a_repository_do_not_overlap(
    busy: Seq<Set<Seq<Seq<u8>>>>,
    events: Seq<TurnEvent>,
    repository: Seq<Seq<u8>>,
    first: int,
    second: int,
)
    requires
        are_turns(busy, events),
        0 <= first < second < events.len(),
        events[first] == (TurnEvent::Begin { repository, given: true }),
        events[second] == (TurnEvent::Begin { repository, given: true }),
    ensures
        exists|k: int|
            first < k < second && #[trigger] events[k] == (TurnEvent::End { repository }),
{
    if !(exists|k: int|
        first < k < second && #[trigger] events[k] == (TurnEvent::End { repository })) {
        lemma_given_until_ended(busy, events, repository, first, second);
        assert(is_turn(busy[second], events[second], busy[second + 1]));
    }
}

/// A branch name can be handed to Git exactly where it is not empty, does not start with a hyphen,
/// and has no null, line feed or carriage return anywhere.
pub proof fn branch_names_that_git_takes(branch: Seq<char>)
    ensures
        is_branch_name(branch) <==> branch.len() > 0 && branch[0] != '-' && forall|i: int|
            0 <= i < branch.len() ==> (#[trigger] branch[i]) != '\0' && branch[i] != '\n'
                && branch[i] != '\r',
{
    if is_branch_name(branch) {
        assert forall|i: int| 0 <= i < branch.len() implies (#[trigger] branch[i]) != '\0'
            && branch[i] != '\n' && branch[i] != '\r' by {
            assert(branch.contains(branch[i]));
        }
    }
}

} // verus!
