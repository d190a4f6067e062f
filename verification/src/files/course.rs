//! The course of an action: in which order a change is recorded, prepared, sent and settled.

use crate::files::service::{ended, Action};
use crate::files::store::OperationState;
use vstd::prelude::*;

verus! {

/// How far an action has come.
#[derive(Clone, Copy, Debug, PartialEq, Eq, Structural)]
pub enum Stage {
    /// The change is being recorded.
    Recording,
    /// The recorded change is being marked as one that is prepared.
    Preparing(i64),
    /// What it uploads is being copied aside.
    Copying(i64),
    /// It could not be copied, and the change is being marked as failed.
    Failing(i64),
    /// What was copied is being recorded with the change.
    Queueing(i64),
    /// The change is being marked as one that contacts the server.
    Marking(i64),
    /// The action is being carried out, for the change that it is recorded as.
    Sending(Option<i64>),
    /// It was carried out, with success or not, and the change is being settled.
    Settling(i64, bool),
    /// Nothing is left to do; where a change could not be settled, it is still open.
    Over(Option<i64>),
}

/// What became of the last thing to do.
#[derive(Clone, Copy, Debug, PartialEq, Eq, Structural)]
pub enum Event {
    /// The change was recorded, by this number.
    Recorded(i64),
    Done,
    Failed,
}

/// What is to be done next.
#[derive(Clone, Copy, Debug, PartialEq, Eq, Structural)]
pub enum Act {
    /// Record the change.
    Record,
    /// Mark a recorded change.
    Mark(i64, OperationState),
    /// Copy aside what it uploads.
    CopyAside(i64),
    /// Record what was copied aside.
    Queue(i64),
    /// Carry the action out.
    Send,
    /// Tell the user that the change waits.
    Wait(i64),
    /// Tell the user the result, after clearing away what a change copied aside.
    Finish(Option<i64>),
    /// Tell the user what failed.
    Refuse,
}

/// Where a recorded change goes on: while offline it waits, else it is marked and sent.
pub open spec fn released(id: i64, offline: bool) -> (Stage, Act) {
    if offline {
        (Stage::Over(None), Act::Wait(id))
    } else {
        (Stage::Marking(id), Act::Mark(id, OperationState::Running))
    }
}

/// How an action goes on after what became of the last thing to do.
pub open spec fn followed(stage: Stage, upload: bool, event: Event, offline: bool) -> (Stage, Act) {
    let refused = (Stage::Over(None), Act::Refuse);
    let done = event != Event::Failed;
    match stage {
        Stage::Recording => match event {
            Event::Recorded(id) => if upload {
                (Stage::Preparing(id), Act::Mark(id, OperationState::Preparing))
            } else {
                released(id, offline)
            },
            _ => refused,
        },
        Stage::Preparing(id) => if done {
            (Stage::Copying(id), Act::CopyAside(id))
        } else {
            refused
        },
        Stage::Copying(id) => if done {
            (Stage::Queueing(id), Act::Queue(id))
        } else {
            (Stage::Failing(id), Act::Mark(id, OperationState::Failed))
        },
        Stage::Failing(_) => refused,
        Stage::Queueing(id) => if done {
            released(id, offline)
        } else {
            refused
        },
        Stage::Marking(id) => if done {
            (Stage::Sending(Some(id)), Act::Send)
        } else {
            refused
        },
        Stage::Sending(None) => if done {
            (Stage::Over(None), Act::Finish(None))
        } else {
            refused
        },
        Stage::Sending(Some(id)) => (
            Stage::Settling(id, done),
            Act::Mark(
                id,
                if done {
                    OperationState::Completed
                } else {
                    OperationState::Uncertain
                },
            ),
        ),
        Stage::Settling(id, success) => if !done {
            (Stage::Over(Some(id)), Act::Refuse)
        } else if success {
            (Stage::Over(None), Act::Finish(Some(id)))
        } else {
            refused
        },
        Stage::Over(open) => (Stage::Over(open), Act::Refuse),
    }
}

/// The course of one action.
pub struct Course {
    /// Whether the change uploads something.
    pub upload: bool,
    pub stage: Stage,
}

fn release(id: i64, offline: bool) -> (r: (Stage, Act))
    ensures
        r == released(id, offline),
{
    if offline {
        (Stage::Over(None), Act::Wait(id))
    } else {
        (Stage::Marking(id), Act::Mark(id, OperationState::Running))
    }
}

impl Course {
    /// Begin an action: a change is recorded before anything else, everything else is carried out
    /// at once.
    pub fn begin(action: Action) -> (r: (Course, Act))
        ensures
            r.0.upload == (action == Action::Upload || action == Action::Replace),
            if action.mutates() {
                r.0.stage == Stage::Recording && r.1 == Act::Record
            } else {
                r.0.stage == Stage::Sending(None) && r.1 == Act::Send
            },
    {
        let upload = matches!(action, Action::Upload | Action::Replace);
        if action.is_mutation() {
            (Course { upload, stage: Stage::Recording }, Act::Record)
        } else {
            (Course { upload, stage: Stage::Sending(None) }, Act::Send)
        }
    }

    /// Take up a change again that was recorded and never sent.
    pub fn resume(id: i64) -> (r: (Course, Act))
        ensures
            !r.0.upload,
            r.0.stage == Stage::Marking(id),
            r.1 == Act::Mark(id, OperationState::Running),
    {
        (
            Course { upload: false, stage: Stage::Marking(id) },
            Act::Mark(id, OperationState::Running),
        )
    }

    /// Go on after what became of the last thing to do: what is to be done next.
    pub fn follow(&mut self, event: Event, offline: bool) -> (r: Act)
        ensures
            (final(self).stage, r) == followed(old(self).stage, old(self).upload, event, offline),
            final(self).upload == old(self).upload,
    {
        let done = !matches!(event, Event::Failed);
        let refused = (Stage::Over(None), Act::Refuse);
        let (stage, act) = match self.stage {
            Stage::Recording => match event {
                Event::Recorded(id) => if self.upload {
                    (Stage::Preparing(id), Act::Mark(id, OperationState::Preparing))
                } else {
                    release(id, offline)
                },
                _ => refused,
            },
            Stage::Preparing(id) => if done {
                (Stage::Copying(id), Act::CopyAside(id))
            } else {
                refused
            },
            Stage::Copying(id) => if done {
                (Stage::Queueing(id), Act::Queue(id))
            } else {
                (Stage::Failing(id), Act::Mark(id, OperationState::Failed))
            },
            Stage::Failing(_) => refused,
            Stage::Queueing(id) => if done {
                release(id, offline)
            } else {
                refused
            },
            Stage::Marking(id) => if done {
                (Stage::Sending(Some(id)), Act::Send)
            } else {
                refused
            },
            Stage::Sending(None) => if done {
                (Stage::Over(None), Act::Finish(None))
            } else {
                refused
            },
            Stage::Sending(Some(id)) => {
                (Stage::Settling(id, done), Act::Mark(id, ended(done)))
            },
            Stage::Settling(id, success) => if !done {
                (Stage::Over(Some(id)), Act::Refuse)
            } else if success {
                (Stage::Over(None), Act::Finish(Some(id)))
            } else {
                refused
            },
            Stage::Over(open) => (Stage::Over(open), Act::Refuse),
        };
        self.stage = stage;
        act
    }

    /// The change that contacts the server and is not settled yet.
    pub fn active(&self) -> (r: Option<i64>)
        ensures
            r == unsettled(self.stage),
    {
        match self.stage {
            Stage::Sending(change) => change,
            Stage::Settling(id, _) => Some(id),
            Stage::Over(open) => open,
            _ => None,
        }
    }
}

/// The change that contacts the server and is not settled yet.
pub open spec fn unsettled(stage: Stage) -> Option<i64> {
    match stage {
        Stage::Sending(change) => change,
        Stage::Settling(id, _) => Some(id),
        Stage::Over(open) => open,
        _ => None,
    }
}

/// How far an action has come after what became of each thing to do, and whether the workspace was
/// offline then.
pub open spec fn reached(start: Stage, upload: bool, events: Seq<(Event, bool)>) -> Stage
    decreases events.len(),
{
    if events.len() == 0 {
        start
    } else {
        followed(
            reached(start, upload, events.drop_last()),
            upload,
            events.last().0,
            events.last().1,
        ).0
    }
}

/// What is to be done after the first `k` events; the first of them comes before any.
pub open spec fn done_at(
    start: Stage,
    first: Act,
    upload: bool,
    events: Seq<(Event, bool)>,
    k: int,
) -> Act {
    if k <= 0 {
        first
    } else {
        followed(
            reached(start, upload, events.take(k - 1)),
            upload,
            events[k - 1].0,
            events[k - 1].1,
        ).1
    }
}

/// The change that a stage is about.
spec fn about(stage: Stage) -> Option<i64> {
    match stage {
        Stage::Preparing(id) => Some(id),
        Stage::Copying(id) => Some(id),
        Stage::Failing(id) => Some(id),
        Stage::Queueing(id) => Some(id),
        Stage::Marking(id) => Some(id),
        Stage::Sending(change) => change,
        Stage::Settling(id, _) => Some(id),
        _ => None,
    }
}

/// Once a change is recorded, everything is about that change.
proof fn course_is_about_what_was_recorded(upload: bool, events: Seq<(Event, bool)>)
    ensures
        ({
            let stage = reached(Stage::Recording, upload, events);
            &&& stage == Stage::Recording <==> events.len() == 0
            &&& !(stage matches Stage::Sending(None))
            &&& about(stage) is Some ==> events[0].0 == Event::Recorded(about(stage)->0)
        }),
    decreases events.len(),
{
    if events.len() > 0 {
        course_is_about_what_was_recorded(upload, events.drop_last());
        if events.len() > 1 {
            assert(events.drop_last()[0] == events[0]);
        }
    }
}

/// Nothing of a change is sent before it is recorded: whatever becomes of each thing to do, the
/// first is to record the change, and when it is sent it was recorded, and right before it was
/// marked as one that contacts the server.
pub proof fn changes_are_recorded_before_they_are_sent(
    action: Action,
    events: Seq<(Event, bool)>,
    k: int,
)
    requires
        action.mutates(),
        0 <= k <= events.len(),
        done_at(
            Stage::Recording,
            Act::Record,
            action == Action::Upload || action == Action::Replace,
            events,
            k,
        ) == Act::Send,
    ensures
        k >= 2,
        events[0].0 is Recorded,
        events[k - 1].0 != Event::Failed,
        done_at(
            Stage::Recording,
            Act::Record,
            action == Action::Upload || action == Action::Replace,
            events,
            k - 1,
        ) == Act::Mark(events[0].0->Recorded_0, OperationState::Running),
{
    let upload = action == Action::Upload || action == Action::Replace;
    let before = events.take(k - 1);
    course_is_about_what_was_recorded(upload, before);
    assert(before.len() > 0);
    assert(before[0] == events[0]);
    assert(before.drop_last() =~= events.take(k - 2));
    assert(before.last() == events[k - 2]);
}

/// A course that was settled, or given up, does nothing more.
proof fn over_is_over(stage: Stage, upload: bool, events: Seq<(Event, bool)>, k: int)
    requires
        0 <= k <= events.len(),
        reached(stage, upload, events.take(k)) is Over,
    ensures
        reached(stage, upload, events) is Over,
    decreases events.len() - k,
{
    if k < events.len() {
        assert(events.take(k + 1).drop_last() =~= events.take(k));
        over_is_over(stage, upload, events, k + 1);
    } else {
        assert(events.take(k) =~= events);
    }
}

/// A change that was sent ends completed where it succeeded and uncertain where it did not, and is
/// marked as nothing else afterwards.
pub proof fn sent_changes_end_completed_or_uncertain(
    start: Stage,
    first: Act,
    upload: bool,
    id: i64,
    events: Seq<(Event, bool)>,
    k: int,
)
    requires
        0 <= k < events.len(),
        reached(start, upload, events.take(k)) == Stage::Sending(Some(id)),
    ensures
        done_at(start, first, upload, events, k + 1) == Act::Mark(
            id,
            if events[k].0 != Event::Failed {
                OperationState::Completed
            } else {
                OperationState::Uncertain
            },
        ),
        forall|j: int|
            k + 1 < j <= events.len() ==> !(#[trigger] done_at(
                start,
                first,
                upload,
                events,
                j,
            ) is Mark) && done_at(start, first, upload, events, j) != Act::Send,
{
    assert(events.take(k + 1).drop_last() =~= events.take(k));
    assert(reached(start, upload, events.take(k + 1)) is Settling);
    assert forall|j: int| k + 1 < j <= events.len() implies !(#[trigger] done_at(
        start,
        first,
        upload,
        events,
        j,
    ) is Mark) && done_at(start, first, upload, events, j) != Act::Send by {
        if j > k + 2 {
            assert(events.take(k + 2).drop_last() =~= events.take(k + 1));
            assert(events.take(j - 1).take(k + 2) =~= events.take(k + 2));
            over_is_over(start, upload, events.take(j - 1), k + 2);
        }
    }
}

} // verus!
