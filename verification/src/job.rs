//! Severing one path: the order of the file-system steps and what each
//! result leads to. The program performs each step the job asks for and
//! reports back how it went.
use vstd::prelude::*;
use crate::error::{Error, ErrorKind};

verus! {

/// The file-system steps of severing one path, in the order they run.
#[derive(Debug, Clone, Copy, PartialEq, Eq, Structural)]
pub enum Stage {
    /// Open the file for reading.
    Open,
    /// Read its metadata, for the number of links.
    Stat,
    /// Copy it to a temporary file beside it.
    Copy,
    /// Remove the path's own link.
    Unlink,
    /// Move the copy to the path.
    Move,
}

/// How the step that the job asked for went.
#[derive(Debug)]
pub enum Event {
    /// The step succeeded.
    Done,
    /// Reading the metadata succeeded: the file has this many links.
    Links(u64),
    /// The step failed with this I/O message.
    Failed(String),
}

/// How severing one path ended.
#[derive(Debug)]
pub enum Outcome {
    /// The path had other links and is now a file of its own.
    Severed(String),
    /// The path was the only link to its file and was left alone.
    Untouched(String),
    /// A step failed.
    Failed(Error),
}

/// What comes after a step.
#[derive(Debug)]
pub enum Next {
    /// Perform the job's next step.
    Continue(Job),
    /// The job is over.
    Finished(Outcome),
}

/// The kind of error for a step that failed with message `msg`.
pub open spec fn stage_error(stage: Stage, msg: String) -> ErrorKind {
    match stage {
        Stage::Open => ErrorKind::Open(msg),
        Stage::Stat => ErrorKind::Stat(msg),
        Stage::Copy => ErrorKind::Copy(msg),
        Stage::Unlink => ErrorKind::Unlink(msg),
        Stage::Move => ErrorKind::Move(msg),
    }
}

/// Whether an event can answer a stage: reading metadata answers with the
/// number of links, the other steps with `Done`, and any step can fail.
pub open spec fn event_fits(stage: Stage, event: Event) -> bool {
    match event {
        Event::Done => stage != Stage::Stat,
        Event::Links(_) => stage == Stage::Stat,
        Event::Failed(_) => true,
    }
}

/// The step after a successful one; reading the metadata leads to copying
/// only when the file has more than one link.
pub open spec fn stage_after(stage: Stage) -> Stage {
    match stage {
        Stage::Open => Stage::Stat,
        Stage::Stat => Stage::Copy,
        Stage::Copy => Stage::Unlink,
        Stage::Unlink => Stage::Move,
        Stage::Move => Stage::Move,
    }
}

/// Whether a file with `nlink` links is severed: when some other path
/// shares its inode.
pub open spec fn shares_inode(nlink: u64) -> bool {
    nlink > 1
}

/// The position of a step in the order.
pub open spec fn stage_rank(stage: Stage) -> nat {
    match stage {
        Stage::Open => 0,
        Stage::Stat => 1,
        Stage::Copy => 2,
        Stage::Unlink => 3,
        Stage::Move => 4,
    }
}

/// Every step that a job continues with comes later in the order, so a
/// job ends after at most five events.
pub proof fn law_steps_move_forward(stage: Stage)
    requires
        stage != Stage::Move,
    ensures
        stage_rank(stage_after(stage)) == stage_rank(stage) + 1,
        stage_rank(stage_after(stage)) <= 4,
{
}

/// A file is severed exactly when some other link shares it: never with
/// zero or one link, always with two or more, however many; and more links
/// never turn severing off.
pub proof fn law_severed_from_two_links(n: u64, m: u64)
    ensures
        !shares_inode(0),
        !shares_inode(1),
        n >= 2 ==> shares_inode(n),
        shares_inode(n) ==> n >= 2,
        n <= m && shares_inode(n) ==> shares_inode(m),
{
}

/// The severing of one path, at one of its steps.
#[derive(Debug)]
pub struct Job {
    path: String,
    stage: Stage,
}

impl Job {
    /// The path being severed.
    pub closed spec fn spec_path(&self) -> Seq<char> {
        self.path@
    }

    /// The step to perform next.
    pub closed spec fn spec_stage(&self) -> Stage {
        self.stage
    }

    /// A job on `path`, starting by opening it.
    pub fn new(path: String) -> (j: Job)
        ensures
            j.spec_path() == path@,
            j.spec_stage() == Stage::Open,
    {
        Job { path, stage: Stage::Open }
    }

    /// The step to perform next.
    pub fn stage(&self) -> (s: Stage)
        ensures
            s == self.spec_stage(),
    {
        self.stage
    }

    /// The path being severed.
    pub fn path(&self) -> (r: &str)
        ensures
            r@ == self.spec_path(),
    {
        self.path.as_str()
    }

    /// Whether a file with `nlink` links has to be severed.
    pub fn needs_severing(nlink: u64) -> (r: bool)
        ensures
            r == shares_inode(nlink),
            r <==> nlink >= 2,
    {
        nlink > 1
    }

    /// Takes the result of the current step. A failure ends the job with
    /// the error of that step on the path; a file with a single link ends
    /// it untouched; a successful move ends it severed; any other success
    /// leads to the next step.
    pub fn advance(self, event: Event) -> (r: Next)
        requires
            event_fits(self.spec_stage(), event),
        ensures
            match event {
                Event::Failed(msg) => match r {
                    Next::Finished(Outcome::Failed(e)) => e.spec_kind() == stage_error(
                        self.spec_stage(),
                        msg,
                    ) && e.spec_path() == self.spec_path(),
                    _ => false,
                },
                Event::Links(n) => if shares_inode(n) {
                    match r {
                        Next::Continue(j) => j.spec_path() == self.spec_path() && j.spec_stage()
                            == Stage::Copy,
                        _ => false,
                    }
                } else {
                    match r {
                        Next::Finished(Outcome::Untouched(p)) => p@ == self.spec_path(),
                        _ => false,
                    }
                },
                Event::Done => if self.spec_stage() == Stage::Move {
                    match r {
                        Next::Finished(Outcome::Severed(p)) => p@ == self.spec_path(),
                        _ => false,
                    }
                } else {
                    match r {
                        Next::Continue(j) => j.spec_path() == self.spec_path() && j.spec_stage()
                            == stage_after(self.spec_stage()),
                        _ => false,
                    }
                },
            },
    {
        let Job { path, stage } = self;
        match event {
            Event::Failed(msg) => {
                let kind = match stage {
                    Stage::Open => ErrorKind::Open(msg),
                    Stage::Stat => ErrorKind::Stat(msg),
                    Stage::Copy => ErrorKind::Copy(msg),
                    Stage::Unlink => ErrorKind::Unlink(msg),
                    Stage::Move => ErrorKind::Move(msg),
                };
                Next::Finished(Outcome::Failed(Error::new(kind, path)))
            },
            Event::Links(n) => {
                if Self::needs_severing(n) {
                    Next::Continue(Job { path, stage: Stage::Copy })
                } else {
                    Next::Finished(Outcome::Untouched(path))
                }
            },
            Event::Done => {
                let next = match stage {
                    Stage::Open => Stage::Stat,
                    Stage::Stat => Stage::Copy,
                    Stage::Copy => Stage::Unlink,
                    Stage::Unlink => Stage::Move,
                    Stage::Move => {
                        return Next::Finished(Outcome::Severed(path));
                    },
                };
                Next::Continue(Job { path, stage: next })
            },
        }
    }
}

} // verus!
