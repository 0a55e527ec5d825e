//! Applying a command, one action at a time.
//!
//! The store and the connection are not in this crate. Applying a command
//! is therefore written as a machine: it hands the caller one [`Action`],
//! the caller carries it out and reports the [`Outcome`], and
//! [`Phase::step`] decides what comes next. The order of the actions is
//! decided here, and the caller only performs them.

use bytes::Bytes;
use vstd::prelude::*;

use crate::buf::contents;
use crate::cmd::set::SetCmdView;
use crate::frame::{Frame, FrameView};
use crate::ttl::{option_nanos, Ttl};

verus! {

/// One thing that the caller has to carry out while a command is applied.
#[derive(Debug, PartialEq, Eq)]
pub enum Action {
    /// Store `value` under `key`. Without `expire` the entry stays until it
    /// is overwritten or deleted; with it, the entry is gone once that much
    /// time has passed since the store was asked.
    Store { key: String, value: Bytes, expire: Option<Ttl> },
    /// Write this frame to the client.
    Respond(Frame),
    /// Stop: the command has been applied, or has failed.
    Finish(Result<(), ApplyError>),
}

/// What an [`Action`] stands for. The expiration is in nanoseconds.
pub enum ActionView {
    Store { key: Seq<char>, value: Seq<u8>, expire: Option<nat> },
    Respond(FrameView),
    Finish(Result<(), ApplyError>),
}

impl View for Action {
    type V = ActionView;

    open spec fn view(&self) -> ActionView {
        match self {
            Action::Store { key, value, expire } => ActionView::Store {
                key: key@,
                value: contents(*value),
                expire: option_nanos(*expire),
            },
            Action::Respond(frame) => ActionView::Respond(frame@),
            Action::Finish(r) => ActionView::Finish(*r),
        }
    }
}

/// How the caller fared with the action it was given.
#[derive(Debug, Clone, Copy, PartialEq, Eq)]
pub enum Outcome {
    Done,
    Failed,
}

/// Why applying a command failed.
#[derive(Debug, Clone, Copy, PartialEq, Eq)]
pub enum ApplyError {
    /// The store did not take the mutation.
    Store,
    /// The response could not be written.
    Io,
}

/// How far the application of a command has come.
#[derive(Debug, Clone, Copy, PartialEq, Eq)]
pub enum Phase {
    /// The store has been asked to take the mutation.
    Storing,
    /// The mutation is in the store, and the response is being written.
    Responding,
    /// Nothing is left to do.
    Finished(Result<(), ApplyError>),
}

/// The response to a command that was applied.
pub open spec fn ok_response() -> FrameView {
    FrameView::Simple("OK"@)
}

/// The phase that follows `phase` once the pending action has turned out as
/// `outcome`, and the action to take then.
pub open spec fn transition(phase: Phase, outcome: Outcome) -> (Phase, ActionView) {
    match phase {
        Phase::Storing => match outcome {
            Outcome::Done => (Phase::Responding, ActionView::Respond(ok_response())),
            Outcome::Failed => (
                Phase::Finished(Err(ApplyError::Store)),
                ActionView::Finish(Err(ApplyError::Store)),
            ),
        },
        Phase::Responding => match outcome {
            Outcome::Done => (Phase::Finished(Ok(())), ActionView::Finish(Ok(()))),
            Outcome::Failed => (
                Phase::Finished(Err(ApplyError::Io)),
                ActionView::Finish(Err(ApplyError::Io)),
            ),
        },
        Phase::Finished(r) => (Phase::Finished(r), ActionView::Finish(r)),
    }
}

impl Phase {
    /// Takes in how the pending action turned out, and says what to do next.
    pub fn step(self, outcome: Outcome) -> (r: (Phase, Action))
        ensures
            r.0 == transition(self, outcome).0,
            r.1@ == transition(self, outcome).1,
    {
        match self {
            Phase::Storing => match outcome {
                Outcome::Done => (
                    Phase::Responding,
                    Action::Respond(Frame::Simple("OK".to_owned())),
                ),
                Outcome::Failed => (
                    Phase::Finished(Err(ApplyError::Store)),
                    Action::Finish(Err(ApplyError::Store)),
                ),
            },
            Phase::Responding => match outcome {
                Outcome::Done => (Phase::Finished(Ok(())), Action::Finish(Ok(()))),
                Outcome::Failed => (
                    Phase::Finished(Err(ApplyError::Io)),
                    Action::Finish(Err(ApplyError::Io)),
                ),
            },
            Phase::Finished(r) => (Phase::Finished(r), Action::Finish(r)),
        }
    }
}

/// The actions that the caller is given from `phase` on, one for each
/// outcome that it reports.
pub open spec fn actions_from(phase: Phase, outcomes: Seq<Outcome>) -> Seq<ActionView>
    decreases outcomes.len(),
{
    if outcomes.len() == 0 {
        Seq::empty()
    } else {
        let (next, action) = transition(phase, outcomes[0]);
        seq![action] + actions_from(next, outcomes.drop_first())
    }
}

/// All that the caller is asked to do for the command `cmd` when its
/// actions turn out as `outcomes` say: first the store, then what each
/// outcome leads to.
pub open spec fn apply_actions(cmd: SetCmdView, outcomes: Seq<Outcome>) -> Seq<ActionView> {
    seq![ActionView::Store { key: cmd.key, value: cmd.value, expire: cmd.expire }] + actions_from(
        Phase::Storing,
        outcomes,
    )
}

/// From any phase behind the store, every action is to stop.
proof fn lemma_actions_behind_store(phase: Phase, outcomes: Seq<Outcome>)
    requires
        phase != Phase::Storing,
    ensures
        actions_from(phase, outcomes).len() == outcomes.len(),
        forall|i: int|
            0 <= i < outcomes.len() ==> #[trigger] actions_from(phase, outcomes)[i] is Finish,
    decreases outcomes.len(),
{
    if outcomes.len() > 0 {
        lemma_actions_behind_store(transition(phase, outcomes[0]).0, outcomes.drop_first());
    }
}

/// However the actions turn out, the store is asked exactly once, first,
/// and with the key, value and expiration of the command. A response is
/// written only if the store succeeded: then it is the one action that
/// follows the store, and it says `OK`. Whatever else is asked is to stop.
pub proof fn lemma_store_then_respond(cmd: SetCmdView, outcomes: Seq<Outcome>)
    ensures
        ({
            let actions = apply_actions(cmd, outcomes);
            &&& actions.len() == outcomes.len() + 1
            &&& actions[0] == (ActionView::Store {
                key: cmd.key,
                value: cmd.value,
                expire: cmd.expire,
            })
            &&& forall|i: int| 1 <= i < actions.len() ==> !(#[trigger] actions[i] is Store)
            &&& forall|i: int|
                0 <= i < actions.len() ==> (#[trigger] actions[i] is Respond <==> i == 1
                    && outcomes[0] == Outcome::Done)
            &&& forall|i: int|
                0 <= i < actions.len() && #[trigger] actions[i] is Respond ==> actions[i]
                    == ActionView::Respond(ok_response())
            &&& forall|i: int| 2 <= i < actions.len() ==> #[trigger] actions[i] is Finish
        }),
{
    if outcomes.len() > 0 {
        let next = transition(Phase::Storing, outcomes[0]).0;
        lemma_actions_behind_store(next, outcomes.drop_first());
        let behind = actions_from(next, outcomes.drop_first());
        let actions = apply_actions(cmd, outcomes);
        assert forall|i: int| 2 <= i < actions.len() implies #[trigger] actions[i] is Finish by {
            assert(actions[i] == behind[i - 2]);
        }
    }
}

/// A response that was written, and written without fault, ends the
/// command well; a fault in writing it ends the command with an I/O error.
pub proof fn lemma_finish_tells_the_write(cmd: SetCmdView, written: Outcome, more: Seq<Outcome>)
    ensures
        apply_actions(cmd, seq![Outcome::Done, written] + more)[2] == ActionView::Finish(
            match written {
                Outcome::Done => Ok(()),
                Outcome::Failed => Err(ApplyError::Io),
            },
        ),
{
    let outcomes = seq![Outcome::Done, written] + more;
    assert(outcomes.drop_first() =~= seq![written] + more);
    reveal_with_fuel(actions_from, 3);
}

} // verus!
