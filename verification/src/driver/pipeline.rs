//! The stages that one file goes through, and what follows each.
//!
//! A file is parsed, the program is lowered, its object file is emitted and
//! linked, and the object file is deleted unless it is to be kept. A file
//! that does not parse and a program that does not lower are reported, and
//! the process ends with status 1. Any other failure is an error that is
//! handed up.
use vstd::prelude::*;

verus! {

/// Where the build of one file stands.
#[derive(Clone, Copy, Debug, PartialEq, Eq, Structural)]
pub enum Stage {
    /// The file is to be parsed.
    Parse,
    /// The whole program is to be lowered.
    Lower,
    /// The object file is to be emitted.
    EmitObject,
    /// The object file is to be linked into the artifact.
    Link,
    /// The object file is to be deleted.
    DeleteObject,
    /// The artifact is built.
    Finished,
    /// A failure was reported, and the process is to end.
    Aborted,
    /// A stage failed with an error for the caller.
    Failed,
}

impl Stage {
    /// Whether nothing follows this stage.
    pub open spec fn is_final(self) -> bool {
        self == Stage::Finished || self == Stage::Aborted || self == Stage::Failed
    }

    /// The stage that follows this one, given whether it succeeded and
    /// whether the object file is to be kept.
    pub open spec fn following(self, succeeded: bool, keep_object: bool) -> Stage {
        match self {
            Stage::Parse => if succeeded {
                Stage::Lower
            } else {
                Stage::Aborted
            },
            Stage::Lower => if succeeded {
                Stage::EmitObject
            } else {
                Stage::Aborted
            },
            Stage::EmitObject => if succeeded {
                Stage::Link
            } else {
                Stage::Failed
            },
            Stage::Link => if !succeeded {
                Stage::Failed
            } else if keep_object {
                Stage::Finished
            } else {
                Stage::DeleteObject
            },
            Stage::DeleteObject => if succeeded {
                Stage::Finished
            } else {
                Stage::Failed
            },
            Stage::Finished => Stage::Finished,
            Stage::Aborted => Stage::Aborted,
            Stage::Failed => Stage::Failed,
        }
    }

    /// The status with which the process ends at this stage, if it ends
    /// here: 1 after a reported failure.
    pub open spec fn status(self) -> Option<i32> {
        match self {
            Stage::Aborted => Some(1),
            _ => None,
        }
    }

    /// The stage that follows this one.
    pub fn next(self, succeeded: bool, keep_object: bool) -> (stage: Stage)
        ensures
            stage == self.following(succeeded, keep_object),
    {
        match self {
            Stage::Parse => if succeeded {
                Stage::Lower
            } else {
                Stage::Aborted
            },
            Stage::Lower => if succeeded {
                Stage::EmitObject
            } else {
                Stage::Aborted
            },
            Stage::EmitObject => if succeeded {
                Stage::Link
            } else {
                Stage::Failed
            },
            Stage::Link => if !succeeded {
                Stage::Failed
            } else if keep_object {
                Stage::Finished
            } else {
                Stage::DeleteObject
            },
            Stage::DeleteObject => if succeeded {
                Stage::Finished
            } else {
                Stage::Failed
            },
            Stage::Finished => Stage::Finished,
            Stage::Aborted => Stage::Aborted,
            Stage::Failed => Stage::Failed,
        }
    }

    /// Whether nothing follows this stage.
    pub fn done(self) -> (over: bool)
        ensures
            over == self.is_final(),
    {
        match self {
            Stage::Finished | Stage::Aborted | Stage::Failed => true,
            _ => false,
        }
    }

    /// The status with which the process ends at this stage, if it ends
    /// here.
    pub fn exit_status(self) -> (code: Option<i32>)
        ensures
            code == self.status(),
    {
        match self {
            Stage::Aborted => Some(1),
            _ => None,
        }
    }
}

/// The stage reached from `stage` when each stage ends as `outcomes` say, in
/// order.
pub open spec fn reached(stage: Stage, outcomes: Seq<bool>, keep_object: bool) -> Stage
    decreases outcomes.len(),
{
    if outcomes.len() == 0 {
        stage
    } else {
        reached(stage, outcomes.drop_last(), keep_object).following(outcomes.last(), keep_object)
    }
}

/// A build without failures goes through its stages in order: parse, lower,
/// emit, link, and then delete the object file unless it is kept.
pub proof fn lemma_stages_in_order(keep_object: bool)
    ensures
        Stage::Parse.following(true, keep_object) == Stage::Lower,
        Stage::Lower.following(true, keep_object) == Stage::EmitObject,
        Stage::EmitObject.following(true, keep_object) == Stage::Link,
        Stage::Link.following(true, keep_object) == if keep_object {
            Stage::Finished
        } else {
            Stage::DeleteObject
        },
        Stage::DeleteObject.following(true, keep_object) == Stage::Finished,
{
}

/// A failure ends the build at once, and nothing follows an end: after a
/// stage has failed, the build is at a final stage, whichever outcomes are
/// reported after that, and it is not the finished one. A file that does not
/// parse and a program that does not lower end the process with status 1.
pub proof fn lemma_failure_ends(stage: Stage, later: Seq<bool>, keep_object: bool)
    requires
        !stage.is_final(),
    ensures
        reached(stage.following(false, keep_object), later, keep_object) == stage.following(
            false,
            keep_object,
        ),
        stage.following(false, keep_object).is_final(),
        stage.following(false, keep_object) != Stage::Finished,
        stage == Stage::Parse || stage == Stage::Lower ==> stage.following(
            false,
            keep_object,
        ).status() == Some(1i32),
    decreases later.len(),
{
    if later.len() > 0 {
        lemma_failure_ends(stage, later.drop_last(), keep_object);
    }
}

/// Every build is over after five stages at most.
pub proof fn lemma_build_ends(outcomes: Seq<bool>, keep_object: bool)
    requires
        outcomes.len() >= 5,
    ensures
        reached(Stage::Parse, outcomes, keep_object).is_final(),
    decreases outcomes.len(),
{
    reveal_with_fuel(reached, 6);
    if outcomes.len() > 5 {
        lemma_build_ends(outcomes.drop_last(), keep_object);
    } else {
        let a = outcomes.subrange(0, 0);
        assert(outcomes.drop_last().drop_last().drop_last().drop_last().drop_last() =~= a);
    }
}

} // verus!
