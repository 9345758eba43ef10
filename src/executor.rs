use vstd::prelude::*;
use crate::conversation::{handle_in, Conversation, ConversationIndex};
use crate::plan::DeletionPlan;

verus! {

/// Who loses sight of a deleted message.
#[derive(Clone, Copy, Debug, PartialEq, Eq, Structural)]
pub enum Visibility {
    /// Retracted for every participant.
    EveryoneSeesRemoval,
    /// Removed from the account's own view only.
    LocalOnlyRemoval,
}

pub open spec fn revoke_flag(v: Visibility) -> bool {
    v == Visibility::EveryoneSeesRemoval
}

/// Why a deletion pass stopped.
#[derive(Clone, Copy, Debug, PartialEq, Eq, Structural)]
pub enum ExecError {
    /// The plan names a conversation that the index does not know.
    PlanResolution(i64),
    /// The service refused the deletion in this conversation.
    Deletion(i64),
}

/// What the pass does at a given position of the plan.
#[derive(Clone, Copy, Debug, PartialEq, Eq, Structural)]
pub enum ExecAction {
    /// Delete every message id of plan entry `position` at once.
    Delete { position: usize, conversation_id: i64, handle: usize, revoke: bool },
    /// Every entry was handled; this many conversations were processed.
    Finished(usize),
    /// The pass stops with this error.
    Failed(ExecError),
}

pub open spec fn action_spec(
    convs: Seq<Conversation>,
    plan: Seq<(i64, Seq<i32>)>,
    vis: Visibility,
    position: int,
) -> ExecAction {
    if position >= plan.len() {
        ExecAction::Finished(plan.len() as usize)
    } else {
        match handle_in(convs, plan[position].0) {
            None => ExecAction::Failed(ExecError::PlanResolution(plan[position].0)),
            Some(h) => ExecAction::Delete {
                position: position as usize,
                conversation_id: plan[position].0,
                handle: h,
                revoke: revoke_flag(vis),
            },
        }
    }
}

/// The result of a pass from `position` on, where `outcomes[j]` tells
/// whether the service accepted the deletion of plan entry `j`.
pub open spec fn run_from(
    convs: Seq<Conversation>,
    plan: Seq<(i64, Seq<i32>)>,
    vis: Visibility,
    outcomes: Seq<bool>,
    position: int,
) -> Result<usize, ExecError>
    decreases plan.len() - position,
{
    if position < 0 {
        Err(ExecError::PlanResolution(0))
    } else {
        match action_spec(convs, plan, vis, position) {
            ExecAction::Finished(n) => Ok(n),
            ExecAction::Failed(e) => Err(e),
            ExecAction::Delete { conversation_id, .. } => {
                if position < outcomes.len() && outcomes[position] {
                    run_from(convs, plan, vis, outcomes, position + 1)
                } else {
                    Err(ExecError::Deletion(conversation_id))
                }
            },
        }
    }
}

/// The action of the pass at `position`: resolve the conversation of that
/// entry and delete all of its ids, fail on an unknown conversation, or
/// finish after the last entry. A pass that calls this from position 0 and
/// moves on by `after_delete` ends with `run_from` of the service's answers.
pub fn next_action(
    index: &ConversationIndex,
    plan: &DeletionPlan,
    vis: Visibility,
    position: usize,
) -> (r: ExecAction)
    ensures
        r == action_spec(index@, plan@, vis, position as int),
        forall|outcomes: Seq<bool>|
            #[trigger] run_from(index@, plan@, vis, outcomes, position as int) == match r {
                ExecAction::Finished(n) => Ok::<usize, ExecError>(n),
                ExecAction::Failed(e) => Err::<usize, ExecError>(e),
                ExecAction::Delete { conversation_id, .. } => {
                    if position < outcomes.len() && outcomes[position as int] {
                        run_from(index@, plan@, vis, outcomes, position + 1)
                    } else {
                        Err::<usize, ExecError>(ExecError::Deletion(conversation_id))
                    }
                },
            },
{
    if position >= plan.len() {
        return ExecAction::Finished(plan.len());
    }
    let (conversation_id, _) = plan.entry(position);
    match index.handle_of(conversation_id) {
        None => ExecAction::Failed(ExecError::PlanResolution(conversation_id)),
        Some(handle) => {
            let revoke = match vis {
                Visibility::EveryoneSeesRemoval => true,
                Visibility::LocalOnlyRemoval => false,
            };
            ExecAction::Delete { position, conversation_id, handle, revoke }
        },
    }
}

/// The position to go on from once the service answered the deletion of
/// entry `position`, or the error that ends the pass.
pub fn after_delete(plan: &DeletionPlan, position: usize, succeeded: bool) -> (r: Result<
    usize,
    ExecError,
>)
    requires
        position < plan@.len(),
    ensures
        succeeded ==> r == Ok::<usize, ExecError>((position + 1) as usize),
        !succeeded ==> r == Err::<usize, ExecError>(ExecError::Deletion(plan@[position as int].0)),
{
    if succeeded {
        let n = plan.len();
        assert(position < n);
        Ok(position + 1)
    } else {
        let (conversation_id, _) = plan.entry(position);
        Err(ExecError::Deletion(conversation_id))
    }
}

/// A pass in which the service accepts every deletion handles each entry
/// and reports the number of conversations of the plan. Nothing of an
/// earlier pass enters the result, so running the same plan again, against
/// a service that takes deleting a deleted message as success, succeeds again.
pub proof fn lemma_accepted_pass_finishes(
    convs: Seq<Conversation>,
    plan: Seq<(i64, Seq<i32>)>,
    vis: Visibility,
    outcomes: Seq<bool>,
    position: int,
)
    requires
        0 <= position <= plan.len(),
        plan.len() < usize::MAX,
        outcomes.len() == plan.len(),
        forall|j: int| 0 <= j < outcomes.len() ==> #[trigger] outcomes[j],
        forall|j: int| 0 <= j < plan.len() ==> (#[trigger] handle_in(convs, plan[j].0)).is_some(),
    ensures
        run_from(convs, plan, vis, outcomes, position) == Ok::<usize, ExecError>(
            plan.len() as usize,
        ),
    decreases plan.len() - position,
{
    if position < plan.len() {
        assert(handle_in(convs, plan[position].0).is_some());
        lemma_accepted_pass_finishes(convs, plan, vis, outcomes, position + 1);
    }
}

/// A pass that reaches an entry whose conversation the index does not know
/// fails there with that conversation's id, whatever the service would have
/// answered for the entries after it.
pub proof fn lemma_unresolved_stops(
    convs: Seq<Conversation>,
    plan: Seq<(i64, Seq<i32>)>,
    vis: Visibility,
    outcomes: Seq<bool>,
    later: Seq<bool>,
    k: int,
)
    requires
        0 <= k < plan.len(),
        handle_in(convs, plan[k].0).is_none(),
        k <= outcomes.len(),
        k <= later.len(),
        forall|j: int| 0 <= j < k ==> #[trigger] outcomes[j],
        forall|j: int| 0 <= j < k ==> #[trigger] later[j],
        forall|j: int| 0 <= j < k ==> (#[trigger] handle_in(convs, plan[j].0)).is_some(),
    ensures
        run_from(convs, plan, vis, outcomes, 0) == Err::<usize, ExecError>(
            ExecError::PlanResolution(plan[k].0),
        ),
        run_from(convs, plan, vis, later, 0) == run_from(convs, plan, vis, outcomes, 0),
{
    lemma_unresolved_stops_from(convs, plan, vis, outcomes, k, 0);
    lemma_unresolved_stops_from(convs, plan, vis, later, k, 0);
}

proof fn lemma_unresolved_stops_from(
    convs: Seq<Conversation>,
    plan: Seq<(i64, Seq<i32>)>,
    vis: Visibility,
    outcomes: Seq<bool>,
    k: int,
    position: int,
)
    requires
        0 <= position <= k < plan.len(),
        handle_in(convs, plan[k].0).is_none(),
        k <= outcomes.len(),
        forall|j: int| 0 <= j < k ==> #[trigger] outcomes[j],
        forall|j: int| 0 <= j < k ==> (#[trigger] handle_in(convs, plan[j].0)).is_some(),
    ensures
        run_from(convs, plan, vis, outcomes, position) == Err::<usize, ExecError>(
            ExecError::PlanResolution(plan[k].0),
        ),
    decreases k - position,
{
    if position < k {
        assert(outcomes[position]);
        assert(handle_in(convs, plan[position].0).is_some());
        lemma_unresolved_stops_from(convs, plan, vis, outcomes, k, position + 1);
    }
}

} // verus!
