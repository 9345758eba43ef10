use tg_message_cleaner::audit::{audit_json, sandbox_target, split_components, AuditError};
use tg_message_cleaner::classifier::{classify, should_keep, FoundMessage, MessageOwner};
use tg_message_cleaner::conversation::{Conversation, ConversationIndex, ConversationKind};
use tg_message_cleaner::executor::{after_delete, next_action, ExecAction, ExecError, Visibility};
use tg_message_cleaner::orchestrator::{plan_phase, scope, Phase};
use tg_message_cleaner::plan::DeletionPlan;

fn conv(id: i64, kind: ConversationKind, handle: usize) -> Conversation {
    Conversation { id, kind, handle }
}

fn msg(id: i32, outgoing: bool) -> FoundMessage {
    FoundMessage { id, outgoing }
}

fn entries(plan: &DeletionPlan) -> Vec<(i64, Vec<i32>)> {
    let mut r = Vec::new();
    for i in 0..plan.len() {
        let (c, ids) = plan.entry(i);
        r.push((c, ids.clone()));
    }
    r
}

/// Drives one deletion pass against a service that answers each request
/// with the next value of `answers` (true where absent).
fn drive(
    index: &ConversationIndex,
    plan: &DeletionPlan,
    vis: Visibility,
    answers: &[bool],
) -> (Vec<(i64, usize, Vec<i32>, bool)>, Result<usize, ExecError>) {
    let mut requests = Vec::new();
    let mut position = 0usize;
    loop {
        match next_action(index, plan, vis, position) {
            ExecAction::Delete { position: p, conversation_id, handle, revoke } => {
                let (_, ids) = plan.entry(p);
                requests.push((conversation_id, handle, ids.clone(), revoke));
                let ok = answers.get(p).copied().unwrap_or(true);
                match after_delete(plan, p, ok) {
                    Ok(next) => position = next,
                    Err(e) => return (requests, Err(e)),
                }
            }
            ExecAction::Finished(n) => return (requests, Ok(n)),
            ExecAction::Failed(e) => return (requests, Err(e)),
        }
    }
}

fn path(s: &str) -> Vec<u8> {
    s.as_bytes().to_vec()
}

fn parts(list: &[&str]) -> Vec<Vec<u8>> {
    list.iter().map(|s| s.as_bytes().to_vec()).collect()
}

#[test]
fn owners_split_search_result() {
    let found = vec![msg(1, true), msg(2, false), msg(3, true), msg(4, false), msg(5, false)];
    let mine = classify(&found, MessageOwner::OnlyMine);
    let others = classify(&found, MessageOwner::OnlyOthers);
    assert_eq!(mine, vec![1, 3]);
    assert_eq!(others, vec![2, 4, 5]);
    for id in &mine {
        assert!(!others.contains(id));
    }
    let mut all: Vec<i32> = mine.iter().chain(others.iter()).copied().collect();
    all.sort();
    assert_eq!(all, vec![1, 2, 3, 4, 5]);
}

#[test]
fn classify_empty_and_keep_rule() {
    assert!(classify(&vec![], MessageOwner::OnlyMine).is_empty());
    assert!(should_keep(MessageOwner::OnlyMine, true));
    assert!(!should_keep(MessageOwner::OnlyMine, false));
    assert!(should_keep(MessageOwner::OnlyOthers, false));
    assert!(!should_keep(MessageOwner::OnlyOthers, true));
}

#[test]
fn plan_keeps_call_order_per_conversation() {
    let mut plan = DeletionPlan::new();
    plan.accumulate(2, 5);
    plan.accumulate(1, 3);
    plan.accumulate(2, 4);
    plan.accumulate(1, 3);
    plan.accumulate(-7, 9);
    assert_eq!(entries(&plan), vec![(-7, vec![9]), (1, vec![3, 3]), (2, vec![5, 4])]);
    assert_eq!(plan.message_count(), 5);
}

#[test]
fn plan_from_accumulations_matches_calls() {
    let calls = vec![(5i64, 50i32), (3, 30), (5, 51), (4, 40), (3, 31)];
    let plan = DeletionPlan::from_accumulations(&calls);
    assert_eq!(entries(&plan), vec![(3, vec![30, 31]), (4, vec![40]), (5, vec![50, 51])]);
    assert_eq!(plan.message_count(), calls.len() as u64);
    let empty = DeletionPlan::from_accumulations(&vec![]);
    assert_eq!(empty.len(), 0);
    assert_eq!(empty.message_count(), 0);
}

#[test]
fn sandbox_rejects_parent_escape() {
    assert_eq!(sandbox_target(&path("/work/tmp"), &path("../escape.json")), Err(AuditError::OutsideSandbox));
    assert_eq!(sandbox_target(&path("/work/tmp"), &path("a/../../escape.json")), Err(AuditError::OutsideSandbox));
    assert_eq!(sandbox_target(&path("/work/tmp"), &path("/etc/passwd")), Err(AuditError::OutsideSandbox));
    assert_eq!(sandbox_target(&path("/work/tmp"), &path(".")), Err(AuditError::OutsideSandbox));
    assert_eq!(sandbox_target(&path("/work/tmp"), &path("")), Err(AuditError::OutsideSandbox));
}

#[test]
fn sandbox_accepts_names_inside() {
    assert_eq!(
        sandbox_target(&path("/work/tmp"), &path("messages.json")),
        Ok(parts(&["work", "tmp", "messages.json"]))
    );
    assert_eq!(
        sandbox_target(&path("/work//tmp/"), &path("./a/../b.json")),
        Ok(parts(&["work", "tmp", "b.json"]))
    );
    assert_eq!(
        sandbox_target(&path("/work/tmp"), &path("/work/tmp/x.json")),
        Ok(parts(&["work", "tmp", "x.json"]))
    );
}

#[test]
fn split_drops_empty_components() {
    assert_eq!(split_components(&path("//a/bc///d/")), parts(&["a", "bc", "d"]));
    assert!(split_components(&path("")).is_empty());
}

#[test]
fn audit_json_is_pretty_and_key_ordered() {
    let calls = vec![(20i64, 7i32), (3, 1), (3, 2)];
    let plan = DeletionPlan::from_accumulations(&calls);
    let bytes = audit_json(&plan).unwrap();
    let text = String::from_utf8(bytes).unwrap();
    assert_eq!(text, "{\n  \"3\": [\n    1,\n    2\n  ],\n  \"20\": [\n    7\n  ]\n}");
    let empty = audit_json(&DeletionPlan::new()).unwrap();
    assert_eq!(empty, b"{}".to_vec());
}

#[test]
fn audit_snapshot_of_first_phase_plan() {
    let mut plan = DeletionPlan::new();
    plan.accumulate(1, 10);
    let bytes = audit_json(&plan).unwrap();
    assert_eq!(String::from_utf8(bytes).unwrap(), "{\n  \"1\": [\n    10\n  ]\n}");
}

#[test]
fn handle_lookup_takes_last_entry() {
    let index = ConversationIndex::new(vec![
        conv(1, ConversationKind::User, 0),
        conv(2, ConversationKind::Group, 1),
        conv(1, ConversationKind::User, 2),
    ]);
    assert_eq!(index.handle_of(1), Some(2));
    assert_eq!(index.handle_of(2), Some(1));
    assert_eq!(index.handle_of(3), None);
    assert_eq!(index.len(), 3);
}

#[test]
fn second_pass_on_same_plan_succeeds() {
    let index = ConversationIndex::new(vec![
        conv(1, ConversationKind::User, 0),
        conv(2, ConversationKind::Group, 1),
    ]);
    let plan = DeletionPlan::from_accumulations(&vec![(2, 20), (1, 10)]);
    let (first, r1) = drive(&index, &plan, Visibility::EveryoneSeesRemoval, &[]);
    let (second, r2) = drive(&index, &plan, Visibility::EveryoneSeesRemoval, &[]);
    assert_eq!(r1, Ok(2));
    assert_eq!(r2, Ok(2));
    assert_eq!(first, second);
    assert_eq!(first, vec![(1, 0, vec![10], true), (2, 1, vec![20], true)]);
}

#[test]
fn unresolved_conversation_fails_fast() {
    let plan = DeletionPlan::from_accumulations(&vec![(1, 10), (2, 20), (3, 30)]);
    let index = ConversationIndex::new(vec![
        conv(1, ConversationKind::User, 0),
        conv(3, ConversationKind::User, 2),
    ]);
    let (requests, r) = drive(&index, &plan, Visibility::LocalOnlyRemoval, &[]);
    assert_eq!(r, Err(ExecError::PlanResolution(2)));
    assert_eq!(requests, vec![(1, 0, vec![10], false)]);
}

#[test]
fn refused_deletion_names_conversation() {
    let plan = DeletionPlan::from_accumulations(&vec![(1, 10), (2, 20), (3, 30)]);
    let index = ConversationIndex::new(vec![
        conv(1, ConversationKind::User, 0),
        conv(2, ConversationKind::User, 1),
        conv(3, ConversationKind::User, 2),
    ]);
    let (requests, r) = drive(&index, &plan, Visibility::LocalOnlyRemoval, &[true, false, true]);
    assert_eq!(r, Err(ExecError::Deletion(2)));
    assert_eq!(requests.len(), 2);
}

#[test]
fn empty_plan_finishes_at_once() {
    let index = ConversationIndex::new(vec![]);
    let plan = DeletionPlan::new();
    assert_eq!(next_action(&index, &plan, Visibility::EveryoneSeesRemoval, 0), ExecAction::Finished(0));
}

#[test]
fn others_pass_skips_group_conversations() {
    let index = ConversationIndex::new(vec![
        conv(7, ConversationKind::Group, 0),
        conv(8, ConversationKind::User, 1),
        conv(9, ConversationKind::Channel, 2),
    ]);
    let sc = scope(&index, Phase::OthersLocal);
    assert_eq!(sc, vec![conv(8, ConversationKind::User, 1)]);
    let found = vec![vec![msg(81, false), msg(82, true)]];
    let plan = plan_phase(&sc, &found, Phase::OthersLocal.owner());
    assert_eq!(entries(&plan), vec![(8, vec![81])]);
    assert_eq!(scope(&index, Phase::SelfEverywhere).len(), 3);
}

#[test]
fn phase_pairings() {
    assert_eq!(Phase::SelfEverywhere.owner(), MessageOwner::OnlyMine);
    assert_eq!(Phase::SelfEverywhere.visibility(), Visibility::EveryoneSeesRemoval);
    assert_eq!(Phase::OthersLocal.owner(), MessageOwner::OnlyOthers);
    assert_eq!(Phase::OthersLocal.visibility(), Visibility::LocalOnlyRemoval);
    assert!(Phase::SelfEverywhere.covers(ConversationKind::Other));
    assert!(!Phase::OthersLocal.covers(ConversationKind::Group));
}

#[test]
fn end_to_end_two_phases() {
    let index = ConversationIndex::new(vec![
        conv(1, ConversationKind::User, 0),
        conv(2, ConversationKind::Group, 1),
    ]);
    // what a search for "foo" returns in each conversation
    let search = |id: i64| -> Vec<FoundMessage> {
        if id == 1 {
            vec![msg(10, true), msg(11, false)]
        } else {
            vec![msg(20, false)]
        }
    };

    let phase = Phase::SelfEverywhere;
    let sc = scope(&index, phase);
    let found: Vec<Vec<FoundMessage>> = sc.iter().map(|c| search(c.id)).collect();
    let plan_a = plan_phase(&sc, &found, phase.owner());
    assert_eq!(entries(&plan_a), vec![(1, vec![10])]);
    let (requests, r) = drive(&index, &plan_a, phase.visibility(), &[]);
    assert_eq!(r, Ok(1));
    assert_eq!(requests, vec![(1, 0, vec![10], true)]);

    let phase = Phase::OthersLocal;
    let sc = scope(&index, phase);
    let found: Vec<Vec<FoundMessage>> = sc.iter().map(|c| search(c.id)).collect();
    let plan_b = plan_phase(&sc, &found, phase.owner());
    assert_eq!(entries(&plan_b), vec![(1, vec![11])]);
    let (requests, r) = drive(&index, &plan_b, phase.visibility(), &[]);
    assert_eq!(r, Ok(1));
    assert_eq!(requests, vec![(1, 0, vec![11], false)]);
}
