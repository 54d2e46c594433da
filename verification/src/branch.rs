//! Which branch a benchmark run reports to.
//!
//! The run names a branch directly, through the environment, or by name with
//! a list of start points; a named branch is looked up, else made from the
//! first start point that exists, else (when asked to) made from nothing.
//! The lookups and the requests that make a branch go over the network: the
//! decisions between them are the state machine [`IfBranch`].
use vstd::prelude::*;

use crate::resource::{BranchName, ResourceId, ValidError};
use crate::text::{uuid_parsed, uuid_text, uuid_to_string, uuid_version};

verus! {

/// An error of the network layer; it holds the error's message.
#[derive(Debug, PartialEq, Eq)]
pub struct BackendError(pub String);

/// Why no branch could be settled.
#[derive(Debug, PartialEq, Eq)]
pub enum BranchError {
    /// The branch given through the environment is not a resource id.
    ParseBranch(ValidError),
    /// A name matched more than one branch.
    BranchName { project: String, branch_name: String, count: usize },
    /// Looking up branches failed.
    GetBranches(BackendError),
    /// Making a branch failed.
    CreateBranch(BackendError),
}

/// The branch options of the `run` command.
pub struct CliRunBranch {
    pub branch: Option<ResourceId>,
    pub if_branch: Option<Option<BranchName>>,
    pub else_if_branch: Vec<String>,
    pub else_branch: bool,
    pub endif_branch: bool,
}

/// The branch of a benchmark run.
#[derive(Debug)]
pub enum Branch {
    /// A branch given by its UUID or slug.
    ResourceId(ResourceId),
    /// A branch given by name, with the start points to make it from and
    /// whether to make it from nothing when none of them exists.
    Name { name: BranchName, start_points: Vec<String>, create: bool },
    /// No branch: the run is skipped.
    Skip,
}

/// The branch that the options select. `env_branch` is the branch named in
/// the environment, read as a resource id, if one is named there;
/// `main_branch` is the name of the main branch read as a resource id.
pub open spec fn branch_of(
    run_branch: CliRunBranch,
    env_branch: Option<Result<ResourceId, ValidError>>,
    main_branch: Result<ResourceId, ValidError>,
) -> Result<Branch, BranchError> {
    match run_branch.branch {
        Some(b) => Ok(Branch::ResourceId(b)),
        None => match env_branch {
            Some(Ok(b)) => Ok(Branch::ResourceId(b)),
            Some(Err(e)) => Err(BranchError::ParseBranch(e)),
            None => match run_branch.if_branch {
                Some(Some(name)) => Ok(
                    Branch::Name {
                        name,
                        start_points: run_branch.else_if_branch,
                        create: run_branch.else_branch,
                    },
                ),
                Some(None) => Ok(Branch::Skip),
                None => match main_branch {
                    Ok(b) => Ok(Branch::ResourceId(b)),
                    Err(e) => Err(BranchError::ParseBranch(e)),
                },
            },
        },
    }
}

impl Branch {
    /// The branch that the options select: the branch given on the command
    /// line, else the one named in the environment, else the named branch of
    /// `--if-branch` (none at all where it was given without a name), else
    /// the main branch.
    pub fn try_from(
        run_branch: CliRunBranch,
        env_branch: Option<Result<ResourceId, ValidError>>,
        main_branch: Result<ResourceId, ValidError>,
    ) -> (res: Result<Branch, BranchError>)
        ensures
            res == branch_of(run_branch, env_branch, main_branch),
    {
        let CliRunBranch { branch, if_branch, else_if_branch, else_branch, endif_branch: _ } =
            run_branch;
        if let Some(branch) = branch {
            Ok(Branch::ResourceId(branch))
        } else if let Some(env_branch) = env_branch {
            match env_branch {
                Ok(b) => Ok(Branch::ResourceId(b)),
                Err(e) => Err(BranchError::ParseBranch(e)),
            }
        } else if let Some(branch_name) = if_branch {
            if let Some(name) = branch_name {
                Ok(Branch::Name { name, start_points: else_if_branch, create: else_branch })
            } else {
                Ok(Branch::Skip)
            }
        } else {
            match main_branch {
                Ok(b) => Ok(Branch::ResourceId(b)),
                Err(e) => Err(BranchError::ParseBranch(e)),
            }
        }
    }
}

impl ResourceId {
    /// The resource id of a UUID: its hyphenated lowercase text.
    pub fn from_uuid(uuid: u128) -> (res: ResourceId)
        ensures
            res.0@ == uuid_text(uuid),
            uuid_parsed(res.0@) == Some(uuid),
    {
        ResourceId(uuid_to_string(uuid))
    }
}

/// What a lookup by name gives: the UUID of the one branch found, nothing
/// when none was found, an error naming the count when several were.
pub open spec fn selected_branch(
    project: ResourceId,
    branch_name: BranchName,
    found: Seq<u128>,
) -> Result<Option<u128>, BranchError> {
    if found.len() == 0 {
        Ok(None)
    } else if found.len() == 1 {
        Ok(Some(found[0]))
    } else {
        Err(
            BranchError::BranchName {
                project: project.0,
                branch_name: branch_name.0,
                count: found.len() as usize,
            },
        )
    }
}

/// Settles a lookup of branches by name from the UUIDs of the branches
/// found: exactly one is expected.
pub fn select_branch(project: &ResourceId, branch_name: &BranchName, found: Vec<u128>) -> (res:
    Result<Option<u128>, BranchError>)
    ensures
        res == selected_branch(*project, *branch_name, found@),
{
    let mut found = found;
    let count = found.len();
    match found.pop() {
        Some(uuid) => {
            if count == 1 {
                Ok(Some(uuid))
            } else {
                Err(
                    BranchError::BranchName {
                        project: project.0.clone(),
                        branch_name: branch_name.0.clone(),
                        count,
                    },
                )
            }
        },
        None => Ok(None),
    }
}

/// The start point of a new branch: the branch it is made from, whose
/// thresholds it takes over.
#[derive(Debug, PartialEq, Eq)]
pub struct JsonStartPoint {
    pub branch: ResourceId,
    pub thresholds: Option<bool>,
}

/// The request that makes a branch.
#[derive(Debug, PartialEq, Eq)]
pub struct JsonNewBranch {
    pub name: BranchName,
    pub slug: Option<String>,
    pub soft: Option<bool>,
    pub start_point: Option<JsonStartPoint>,
}

/// The request that makes the branch `branch_name`, from `start_point`
/// where one is given.
pub open spec fn new_branch_of(branch_name: BranchName, start_point: Option<ResourceId>) -> JsonNewBranch {
    JsonNewBranch {
        name: branch_name,
        slug: None,
        soft: Some(true),
        start_point: match start_point {
            Some(b) => Some(JsonStartPoint { branch: b, thresholds: Some(true) }),
            None => None,
        },
    }
}

/// The request that makes the branch `branch_name`: no slug of its own, a
/// soft creation, and the thresholds of the start point taken over.
pub fn new_branch(branch_name: &BranchName, start_point: Option<ResourceId>) -> (res: JsonNewBranch)
    ensures
        res == new_branch_of(*branch_name, start_point),
{
    let start_point = match start_point {
        Some(branch) => Some(JsonStartPoint { branch, thresholds: Some(true) }),
        None => None,
    };
    JsonNewBranch { name: branch_name.clone(), slug: None, soft: Some(true), start_point }
}

/// Where the search for a named branch stands.
#[derive(Clone, Copy, Debug, PartialEq, Eq, Structural)]
pub enum Stage {
    /// Looking up the branch itself.
    Target,
    /// Reading start point `i` as a branch name.
    ParsingStartPoint(usize),
    /// Looking up start point `i`.
    LookingUpStartPoint(usize),
    /// Making the branch from start point `i`.
    CreatingFrom(usize),
    /// Making the branch from nothing.
    CreatingNew,
    /// Drawing a random UUID in place of making the branch (a dry run).
    Drawing,
    /// The search is over.
    Done,
}

/// What the caller does next.
#[derive(Debug, PartialEq, Eq)]
pub enum Command {
    /// Look up the branch by its name.
    GetTarget,
    /// Read start point `i` as a branch name.
    ParseStartPoint(usize),
    /// Look up start point `i` by name.
    GetStartPoint(usize),
    /// Make the branch from the start point `index`, whose UUID is given.
    CreateFrom { index: usize, start_point: u128 },
    /// Make the branch from nothing.
    CreateNew,
    /// Draw a random UUID.
    NewUuid,
    /// The search is over: the UUID of the branch, none, or an error.
    Finish(Result<Option<u128>, BranchError>),
}

/// What the caller reports back after carrying out a command.
pub enum Event {
    /// After a lookup: the branch's UUID, none, or an error.
    Found(Result<Option<u128>, BranchError>),
    /// After reading a start point: whether it is a branch name.
    Parsed(bool),
    /// After making a branch: its UUID, or an error.
    Created(Result<u128, BranchError>),
    /// After drawing a random (version 4) UUID: that UUID.
    Drawn(u128),
}

/// A message for the user; start points are counted from one.
#[derive(Clone, Copy, Debug, PartialEq, Eq, Structural)]
pub enum Notice {
    /// The branch was not found.
    BranchNotFound,
    /// This start point is not a branch name.
    StartPointUnreadable(usize),
    /// No branch has this start point's name.
    StartPointNotFound(usize),
}

/// The search for the branch of a `Branch::Name`: how many start points it
/// has, whether to make the branch from nothing, whether this is a dry run,
/// and where it stands.
pub struct IfBranch {
    pub start_points: usize,
    pub create: bool,
    pub dry_run: bool,
    pub stage: Stage,
}

impl IfBranch {
    /// Every start point that the stage names exists.
    pub open spec fn wf(&self) -> bool {
        match self.stage {
            Stage::ParsingStartPoint(i) => i < self.start_points,
            Stage::LookingUpStartPoint(i) => i < self.start_points,
            Stage::CreatingFrom(i) => i < self.start_points,
            _ => true,
        }
    }

    /// Whether `event` is the report that the current stage waits for; a
    /// drawn UUID must be a random (version 4) one.
    pub open spec fn expects(&self, event: Event) -> bool {
        match (self.stage, event) {
            (Stage::Target, Event::Found(_)) => true,
            (Stage::LookingUpStartPoint(_), Event::Found(_)) => true,
            (Stage::ParsingStartPoint(_), Event::Parsed(_)) => true,
            (Stage::CreatingFrom(_), Event::Created(_)) => true,
            (Stage::CreatingNew, Event::Created(_)) => true,
            (Stage::Drawing, Event::Drawn(u)) => uuid_version(u) == 4,
            _ => false,
        }
    }

    /// The stage and command that come once start points before `i` have
    /// been tried: start point `i` where there is one; else make the branch
    /// from nothing (draw a UUID in a dry run) where asked to; else finish
    /// with no branch.
    pub open spec fn from_start_point(&self, i: int) -> (Stage, Command) {
        if i < self.start_points {
            (Stage::ParsingStartPoint(i as usize), Command::ParseStartPoint(i as usize))
        } else if self.create {
            if self.dry_run {
                (Stage::Drawing, Command::NewUuid)
            } else {
                (Stage::CreatingNew, Command::CreateNew)
            }
        } else {
            (Stage::Done, Command::Finish(Ok(None)))
        }
    }

    /// The next stage, the message for the user (if any) and the next
    /// command, after `event`.
    pub open spec fn next(&self, event: Event) -> (Stage, Option<Notice>, Command) {
        match (self.stage, event) {
            (Stage::Target, Event::Found(Ok(Some(u)))) => (
                Stage::Done,
                None,
                Command::Finish(Ok(Some(u))),
            ),
            (Stage::Target, Event::Found(Ok(None))) => {
                let (s, c) = self.from_start_point(0);
                (s, Some(Notice::BranchNotFound), c)
            },
            (Stage::Target, Event::Found(Err(e))) => (Stage::Done, None, Command::Finish(Err(e))),
            (Stage::ParsingStartPoint(i), Event::Parsed(true)) => (
                Stage::LookingUpStartPoint(i),
                None,
                Command::GetStartPoint(i),
            ),
            (Stage::ParsingStartPoint(i), Event::Parsed(false)) => {
                let (s, c) = self.from_start_point(i + 1);
                (s, Some(Notice::StartPointUnreadable((i + 1) as usize)), c)
            },
            (Stage::LookingUpStartPoint(i), Event::Found(Ok(Some(u)))) => (
                Stage::CreatingFrom(i),
                None,
                Command::CreateFrom { index: i, start_point: u },
            ),
            (Stage::LookingUpStartPoint(i), Event::Found(Ok(None))) => {
                let (s, c) = self.from_start_point(i + 1);
                (s, Some(Notice::StartPointNotFound((i + 1) as usize)), c)
            },
            (Stage::LookingUpStartPoint(_), Event::Found(Err(e))) => (
                Stage::Done,
                None,
                Command::Finish(Err(e)),
            ),
            (Stage::CreatingFrom(_), Event::Created(Ok(u))) => (
                Stage::Done,
                None,
                Command::Finish(Ok(Some(u))),
            ),
            (Stage::CreatingFrom(_), Event::Created(Err(e))) => (
                Stage::Done,
                None,
                Command::Finish(Err(e)),
            ),
            (Stage::CreatingNew, Event::Created(Ok(u))) => (
                Stage::Done,
                None,
                Command::Finish(Ok(Some(u))),
            ),
            (Stage::CreatingNew, Event::Created(Err(e))) => (
                Stage::Done,
                None,
                Command::Finish(Err(e)),
            ),
            (Stage::Drawing, Event::Drawn(u)) => (Stage::Done, None, Command::Finish(Ok(Some(u)))),
            _ => (self.stage, None, Command::GetTarget),
        }
    }

    /// Starts the search: the first command is to look up the branch.
    pub fn new(start_points: usize, create: bool, dry_run: bool) -> (res: (IfBranch, Command))
        ensures
            res.0 == (IfBranch { start_points, create, dry_run, stage: Stage::Target }),
            res.1 == Command::GetTarget,
            res.0.wf(),
    {
        (IfBranch { start_points, create, dry_run, stage: Stage::Target }, Command::GetTarget)
    }

    fn after_start_point(&self, i: usize) -> (res: (Stage, Command))
        requires
            i <= self.start_points,
        ensures
            res == self.from_start_point(i as int),
    {
        if i < self.start_points {
            (Stage::ParsingStartPoint(i), Command::ParseStartPoint(i))
        } else if self.create {
            if self.dry_run {
                (Stage::Drawing, Command::NewUuid)
            } else {
                (Stage::CreatingNew, Command::CreateNew)
            }
        } else {
            (Stage::Done, Command::Finish(Ok(None)))
        }
    }

    /// Takes in the report of the last command; gives back the message for
    /// the user, if any, and the next command.
    pub fn step(&mut self, event: Event) -> (res: (Option<Notice>, Command))
        requires
            old(self).wf(),
            old(self).expects(event),
        ensures
            final(self).wf(),
            final(self).start_points == old(self).start_points,
            final(self).create == old(self).create,
            final(self).dry_run == old(self).dry_run,
            (final(self).stage, res.0, res.1) == old(self).next(event),
    {
        match (self.stage, event) {
            (Stage::Target, Event::Found(Ok(Some(u)))) => {
                self.stage = Stage::Done;
                (None, Command::Finish(Ok(Some(u))))
            },
            (Stage::Target, Event::Found(Ok(None))) => {
                let (s, c) = self.after_start_point(0);
                self.stage = s;
                (Some(Notice::BranchNotFound), c)
            },
            (Stage::Target, Event::Found(Err(e))) => {
                self.stage = Stage::Done;
                (None, Command::Finish(Err(e)))
            },
            (Stage::ParsingStartPoint(i), Event::Parsed(ok)) => {
                if ok {
                    self.stage = Stage::LookingUpStartPoint(i);
                    (None, Command::GetStartPoint(i))
                } else {
                    let (s, c) = self.after_start_point(i + 1);
                    self.stage = s;
                    (Some(Notice::StartPointUnreadable(i + 1)), c)
                }
            },
            (Stage::LookingUpStartPoint(i), Event::Found(Ok(Some(u)))) => {
                self.stage = Stage::CreatingFrom(i);
                (None, Command::CreateFrom { index: i, start_point: u })
            },
            (Stage::LookingUpStartPoint(i), Event::Found(Ok(None))) => {
                let (s, c) = self.after_start_point(i + 1);
                self.stage = s;
                (Some(Notice::StartPointNotFound(i + 1)), c)
            },
            (Stage::LookingUpStartPoint(_), Event::Found(Err(e))) => {
                self.stage = Stage::Done;
                (None, Command::Finish(Err(e)))
            },
            (_, Event::Created(Ok(u))) => {
                self.stage = Stage::Done;
                (None, Command::Finish(Ok(Some(u))))
            },
            (_, Event::Created(Err(e))) => {
                self.stage = Stage::Done;
                (None, Command::Finish(Err(e)))
            },
            (_, Event::Drawn(u)) => {
                self.stage = Stage::Done;
                (None, Command::Finish(Ok(Some(u))))
            },
            (_, _) => (None, Command::GetTarget),
        }
    }
}

/// An upper bound on the number of steps left in the search.
pub open spec fn steps_left(stage: Stage, start_points: nat) -> nat {
    match stage {
        Stage::Target => 3 * start_points + 4,
        Stage::ParsingStartPoint(i) => (3 * (start_points - i) + 3) as nat,
        Stage::LookingUpStartPoint(i) => (3 * (start_points - i) + 2) as nat,
        Stage::CreatingFrom(_) => 1,
        Stage::CreatingNew => 1,
        Stage::Drawing => 1,
        Stage::Done => 0,
    }
}

/// Every step of the search brings it closer to its end: the search of a
/// branch with `n` start points ends after at most `3n + 4` steps.
pub proof fn lemma_if_branch_terminates(m: IfBranch, event: Event)
    requires
        m.wf(),
        m.expects(event),
    ensures
        steps_left(m.next(event).0, m.start_points as nat) < steps_left(
            m.stage,
            m.start_points as nat,
        ),
{
}

/// The search makes a branch from nothing only when asked to, and then
/// never in a dry run, which draws a random UUID instead; it ends with no
/// branch and no error only when it was not asked to make one.
pub proof fn lemma_if_branch_creates_only_when_asked(m: IfBranch, event: Event)
    requires
        m.wf(),
        m.expects(event),
    ensures
        m.next(event).2 == Command::CreateNew ==> m.create && !m.dry_run,
        m.next(event).2 == Command::NewUuid ==> m.create && m.dry_run,
        m.next(event).2 == Command::Finish(Ok(None)) ==> !m.create,
{
}

/// The UUID that the search ends with is the one that was reported to it:
/// found, made, or drawn; a drawn one is a random (version 4) UUID.
pub proof fn lemma_if_branch_result_was_reported(m: IfBranch, event: Event, u: u128)
    requires
        m.wf(),
        m.expects(event),
        m.next(event).2 == Command::Finish(Ok(Some(u))),
    ensures
        event == Event::Found(Ok(Some(u))) || event == Event::Created(Ok(u)) || event
            == Event::Drawn(u),
        event == Event::Drawn(u) ==> uuid_version(u) == 4,
{
}

/// The start points are tried in their order, none skipped: the first one
/// right after the branch itself was not found, each further one right
/// after the one before it failed.
pub proof fn lemma_if_branch_start_points_in_order(m: IfBranch, event: Event, j: usize)
    requires
        m.wf(),
        m.expects(event),
        m.next(event).0 == Stage::ParsingStartPoint(j),
    ensures
        m.stage == Stage::Target ==> j == 0,
        m.stage == Stage::ParsingStartPoint((j - 1) as usize) || m.stage
            == Stage::LookingUpStartPoint((j - 1) as usize) || (m.stage == Stage::Target && j == 0),
{
}

/// Errors end the search: a failed lookup, of the branch or of a start
/// point, and a failed creation, from a start point or from nothing, each
/// finish the search with that very error.
pub proof fn lemma_if_branch_errors_end_the_search(m: IfBranch, e: BranchError)
    requires
        m.wf(),
    ensures
        m.expects(Event::Found(Err(e))) ==> m.next(Event::Found(Err(e))) == (
            Stage::Done,
            None::<Notice>,
            Command::Finish(Err(e)),
        ),
        m.expects(Event::Created(Err(e))) ==> m.next(Event::Created(Err(e))) == (
            Stage::Done,
            None::<Notice>,
            Command::Finish(Err(e)),
        ),
{
}

/// The search ends with no branch and no error only right after nothing was
/// found (the branch itself or the last start point) or the last start
/// point could not be read, and only when making the branch from nothing was
/// not asked for; never after a creation was attempted.
pub proof fn lemma_if_branch_ends_empty_only_when_nothing_found(m: IfBranch, event: Event)
    requires
        m.wf(),
        m.expects(event),
        m.next(event).2 == Command::Finish(Ok(None)),
    ensures
        !m.create,
        event == Event::Found(Ok(None)) || event == Event::Parsed(false),
        m.stage is Target || m.stage is ParsingStartPoint || m.stage is LookingUpStartPoint,
{
}

/// Which branch the options select, option by option: the branch given on
/// the command line wins; else the branch named in the environment (an
/// error where it is not a resource id); else a name given with
/// `--if-branch` is searched for with the `--else-if-branch` start points,
/// made from nothing exactly when `--else-branch` is given, and `--if-branch`
/// without a name skips the run; else the main branch.
pub proof fn lemma_branch_precedence(
    run_branch: CliRunBranch,
    env_branch: Option<Result<ResourceId, ValidError>>,
    main_branch: Result<ResourceId, ValidError>,
)
    ensures
        run_branch.branch matches Some(b) ==> branch_of(run_branch, env_branch, main_branch)
            == Ok::<Branch, BranchError>(Branch::ResourceId(b)),
        run_branch.branch is None ==> (env_branch matches Some(Ok(b)) ==> branch_of(
            run_branch,
            env_branch,
            main_branch,
        ) == Ok::<Branch, BranchError>(Branch::ResourceId(b))),
        run_branch.branch is None ==> (env_branch matches Some(Err(e)) ==> branch_of(
            run_branch,
            env_branch,
            main_branch,
        ) == Err::<Branch, BranchError>(BranchError::ParseBranch(e))),
        run_branch.branch is None && env_branch is None ==> (run_branch.if_branch matches Some(
            Some(name),
        ) ==> (branch_of(run_branch, env_branch, main_branch) matches Ok(
            Branch::Name { name: n, start_points, create },
        ) && n == name && start_points == run_branch.else_if_branch && create
            == run_branch.else_branch)),
        run_branch.branch is None && env_branch is None && run_branch.if_branch == Some(
            None::<BranchName>,
        ) ==> branch_of(run_branch, env_branch, main_branch) == Ok::<Branch, BranchError>(
            Branch::Skip,
        ),
        run_branch.branch is None && env_branch is None && run_branch.if_branch is None ==> (
        branch_of(run_branch, env_branch, main_branch) == match main_branch {
            Ok(b) => Ok::<Branch, BranchError>(Branch::ResourceId(b)),
            Err(e) => Err(BranchError::ParseBranch(e)),
        }),
{
}

} // verus!
