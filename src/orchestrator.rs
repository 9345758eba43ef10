use vstd::prelude::*;
use crate::classifier::{classify, selected_ids, FoundMessage, MessageOwner};
use crate::conversation::{Conversation, ConversationIndex, ConversationKind};
use crate::executor::Visibility;
use crate::plan::{ids_for, lookup, planned, sorted_keys, total_messages, DeletionPlan};

verus! {

/// The two passes of a run, in the order they run.
#[derive(Clone, Copy, Debug, PartialEq, Eq, Structural)]
pub enum Phase {
    /// The account's own messages, deleted for everyone, in every conversation.
    SelfEverywhere,
    /// Other people's messages, deleted for the account only, in one-to-one
    /// conversations.
    OthersLocal,
}

pub open spec fn phase_owner(p: Phase) -> MessageOwner {
    match p {
        Phase::SelfEverywhere => MessageOwner::OnlyMine,
        Phase::OthersLocal => MessageOwner::OnlyOthers,
    }
}

pub open spec fn phase_visibility(p: Phase) -> Visibility {
    match p {
        Phase::SelfEverywhere => Visibility::EveryoneSeesRemoval,
        Phase::OthersLocal => Visibility::LocalOnlyRemoval,
    }
}

pub open spec fn in_scope(p: Phase, kind: ConversationKind) -> bool {
    match p {
        Phase::SelfEverywhere => true,
        Phase::OthersLocal => kind == ConversationKind::User,
    }
}

/// The conversations that phase `p` searches, in index order.
pub open spec fn scope_of(convs: Seq<Conversation>, p: Phase) -> Seq<Conversation>
    decreases convs.len(),
{
    if convs.len() == 0 {
        seq![]
    } else if in_scope(p, convs.last().kind) {
        scope_of(convs.drop_last(), p).push(convs.last())
    } else {
        scope_of(convs.drop_last(), p)
    }
}

pub open spec fn tagged(c: i64, ids: Seq<i32>) -> Seq<(i64, i32)> {
    ids.map_values(|m: i32| (c, m))
}

/// The `accumulate` calls of a pass over `scope`, where `found[i]` is what
/// the keyword search returned in `scope[i]`.
pub open spec fn calls_of(
    scope: Seq<Conversation>,
    found: Seq<Vec<FoundMessage>>,
    owner: MessageOwner,
) -> Seq<(i64, i32)>
    decreases scope.len(),
{
    if scope.len() == 0 || found.len() == 0 {
        seq![]
    } else {
        calls_of(scope.drop_last(), found.drop_last(), owner) + tagged(
            scope.last().id,
            selected_ids(found.last()@, owner),
        )
    }
}

impl Phase {
    pub fn owner(self) -> (r: MessageOwner)
        ensures
            r == phase_owner(self),
    {
        match self {
            Phase::SelfEverywhere => MessageOwner::OnlyMine,
            Phase::OthersLocal => MessageOwner::OnlyOthers,
        }
    }

    pub fn visibility(self) -> (r: Visibility)
        ensures
            r == phase_visibility(self),
    {
        match self {
            Phase::SelfEverywhere => Visibility::EveryoneSeesRemoval,
            Phase::OthersLocal => Visibility::LocalOnlyRemoval,
        }
    }

    /// Whether this phase searches a conversation of the given kind.
    pub fn covers(self, kind: ConversationKind) -> (r: bool)
        ensures
            r == in_scope(self, kind),
    {
        match self {
            Phase::SelfEverywhere => true,
            Phase::OthersLocal => kind == ConversationKind::User,
        }
    }
}

/// The conversations of the index that `phase` searches, in index order.
pub fn scope(index: &ConversationIndex, phase: Phase) -> (r: Vec<Conversation>)
    ensures
        r@ == scope_of(index@, phase),
{
    let mut r: Vec<Conversation> = Vec::new();
    let mut i: usize = 0;
    while i < index.len()
        invariant
            i <= index@.len(),
            r@ == scope_of(index@.take(i as int), phase),
        decreases index@.len() - i,
    {
        let c = index.get(i);
        assert(index@.take(i + 1).drop_last() == index@.take(i as int));
        if phase.covers(c.kind) {
            r.push(c);
        }
        i = i + 1;
    }
    assert(index@.take(index@.len() as int) == index@);
    r
}

/// The plan of a pass: for each conversation of `scope`, in order, the
/// found messages that `owner` keeps, recorded under that conversation.
pub fn plan_phase(
    scope: &Vec<Conversation>,
    found: &Vec<Vec<FoundMessage>>,
    owner: MessageOwner,
) -> (r: DeletionPlan)
    requires
        found@.len() == scope@.len(),
    ensures
        sorted_keys(r@),
        total_messages(r@) == calls_of(scope@, found@, owner).len(),
        forall|k: i64| #[trigger] lookup(r@, k) == planned(calls_of(scope@, found@, owner), k),
{
    let mut calls: Vec<(i64, i32)> = Vec::new();
    let mut i: usize = 0;
    while i < scope.len()
        invariant
            i <= scope@.len(),
            found@.len() == scope@.len(),
            calls@ == calls_of(scope@.take(i as int), found@.take(i as int), owner),
        decreases scope@.len() - i,
    {
        let c = scope[i].id;
        let ids = classify(&found[i], owner);
        let ghost base = calls@;
        let mut j: usize = 0;
        while j < ids.len()
            invariant
                j <= ids@.len(),
                calls@ == base + tagged(c, ids@.take(j as int)),
            decreases ids@.len() - j,
        {
            calls.push((c, ids[j]));
            assert(tagged(c, ids@.take(j + 1)) == tagged(c, ids@.take(j as int)).push((c, ids@[j as int])));
            assert(base + tagged(c, ids@.take(j + 1)) =~= (base + tagged(c, ids@.take(j as int))).push((c, ids@[j as int])));
            j = j + 1;
        }
        assert(ids@.take(ids@.len() as int) == ids@);
        assert(scope@.take(i + 1).drop_last() == scope@.take(i as int));
        assert(found@.take(i + 1).drop_last() == found@.take(i as int));
        i = i + 1;
    }
    assert(scope@.take(scope@.len() as int) == scope@);
    assert(found@.take(found@.len() as int) == found@);
    DeletionPlan::from_accumulations(&calls)
}

/// How many conversations of `s` have the id `k`.
pub open spec fn count_id(s: Seq<Conversation>, k: i64) -> nat
    decreases s.len(),
{
    if s.len() == 0 {
        0
    } else {
        count_id(s.drop_last(), k) + if s.last().id == k {
            1nat
        } else {
            0nat
        }
    }
}

proof fn lemma_ids_for_concat(a: Seq<(i64, i32)>, b: Seq<(i64, i32)>, k: i64)
    ensures
        ids_for(a + b, k) == ids_for(a, k) + ids_for(b, k),
    decreases b.len(),
{
    if b.len() == 0 {
        assert(a + b =~= a);
        assert(ids_for(a, k) + ids_for(b, k) =~= ids_for(a, k));
    } else {
        lemma_ids_for_concat(a, b.drop_last(), k);
        assert((a + b).drop_last() =~= a + b.drop_last());
        assert((a + b).last() == b.last());
        if b.last().0 == k {
            assert(ids_for(a, k) + ids_for(b.drop_last(), k).push(b.last().1) =~= (ids_for(a, k)
                + ids_for(b.drop_last(), k)).push(b.last().1));
        }
    }
}

proof fn lemma_ids_for_tagged(c: i64, xs: Seq<i32>, k: i64)
    ensures
        ids_for(tagged(c, xs), k) == if c == k {
            xs
        } else {
            seq![]
        },
    decreases xs.len(),
{
    if xs.len() == 0 {
        assert(tagged(c, xs) =~= seq![]);
    } else {
        lemma_ids_for_tagged(c, xs.drop_last(), k);
        assert(tagged(c, xs).drop_last() =~= tagged(c, xs.drop_last()));
        if c == k {
            assert(xs.drop_last().push(xs.last()) =~= xs);
        }
    }
}

proof fn lemma_scope_count(convs: Seq<Conversation>, p: Phase, k: i64)
    ensures
        (forall|i: int| 0 <= i < convs.len() && #[trigger] convs[i].id == k ==> !in_scope(p, convs[i].kind))
            ==> count_id(scope_of(convs, p), k) == 0,
        (forall|i: int| 0 <= i < convs.len() && #[trigger] convs[i].id == k ==> in_scope(p, convs[i].kind))
            ==> count_id(scope_of(convs, p), k) == count_id(convs, k),
    decreases convs.len(),
{
    if convs.len() > 0 {
        let rest = convs.drop_last();
        lemma_scope_count(rest, p, k);
        assert forall|i: int| 0 <= i < rest.len() implies #[trigger] rest[i] == convs[i] by {}
        if in_scope(p, convs.last().kind) {
            assert(scope_of(convs, p).drop_last() == scope_of(rest, p));
        }
        assert(convs.last() == convs[convs.len() - 1]);
    }
}

proof fn lemma_calls_count(
    scope: Seq<Conversation>,
    found: Seq<Vec<FoundMessage>>,
    owner: MessageOwner,
    k: i64,
)
    requires
        found.len() == scope.len(),
    ensures
        count_id(scope, k) == 0 ==> ids_for(calls_of(scope, found, owner), k) == Seq::<i32>::empty(),
        count_id(scope, k) == 1 ==> exists|pos: int|
            0 <= pos < scope.len() && #[trigger] scope[pos].id == k && ids_for(
                calls_of(scope, found, owner),
                k,
            ) == selected_ids(found[pos]@, owner),
    decreases scope.len(),
{
    if scope.len() > 0 {
        let rs = scope.drop_last();
        let rf = found.drop_last();
        lemma_calls_count(rs, rf, owner, k);
        let here = tagged(scope.last().id, selected_ids(found.last()@, owner));
        lemma_ids_for_concat(calls_of(rs, rf, owner), here, k);
        lemma_ids_for_tagged(scope.last().id, selected_ids(found.last()@, owner), k);
        if count_id(scope, k) == 0 {
            assert(ids_for(calls_of(rs, rf, owner), k) + Seq::<i32>::empty() =~= Seq::<i32>::empty());
        }
        if count_id(scope, k) == 1 {
            if scope.last().id == k {
                let pos = scope.len() - 1;
                assert(Seq::<i32>::empty() + selected_ids(found.last()@, owner) =~= selected_ids(found.last()@, owner));
                assert(scope[pos].id == k);
            } else {
                let pos = choose|pos: int|
                    0 <= pos < rs.len() && #[trigger] rs[pos].id == k && ids_for(
                        calls_of(rs, rf, owner),
                        k,
                    ) == selected_ids(rf[pos]@, owner);
                assert(ids_for(calls_of(rs, rf, owner), k) + Seq::<i32>::empty() =~= ids_for(calls_of(rs, rf, owner), k));
                assert(scope[pos].id == k);
                assert(found[pos] == rf[pos]);
            }
        }
    }
}

/// The pass over other people's messages plans nothing for a conversation
/// that is not one-to-one, and plans for a one-to-one conversation with its
/// own id exactly the messages by others that its search found.
pub proof fn lemma_others_pass_scope(
    convs: Seq<Conversation>,
    found: Seq<Vec<FoundMessage>>,
    group_id: i64,
    user_id: i64,
)
    requires
        found.len() == scope_of(convs, Phase::OthersLocal).len(),
        forall|i: int|
            0 <= i < convs.len() && #[trigger] convs[i].id == group_id ==> convs[i].kind
                != ConversationKind::User,
        count_id(convs, user_id) == 1,
        forall|i: int|
            0 <= i < convs.len() && #[trigger] convs[i].id == user_id ==> convs[i].kind
                == ConversationKind::User,
    ensures
        planned(
            calls_of(scope_of(convs, Phase::OthersLocal), found, MessageOwner::OnlyOthers),
            group_id,
        ) == None::<Seq<i32>>,
        exists|pos: int|
            0 <= pos < found.len() && #[trigger] scope_of(convs, Phase::OthersLocal)[pos].id
                == user_id && ids_for(
                calls_of(scope_of(convs, Phase::OthersLocal), found, MessageOwner::OnlyOthers),
                user_id,
            ) == selected_ids(found[pos]@, MessageOwner::OnlyOthers),
{
    let sc = scope_of(convs, Phase::OthersLocal);
    lemma_scope_count(convs, Phase::OthersLocal, group_id);
    lemma_scope_count(convs, Phase::OthersLocal, user_id);
    lemma_calls_count(sc, found, MessageOwner::OnlyOthers, group_id);
    lemma_calls_count(sc, found, MessageOwner::OnlyOthers, user_id);
}

} // verus!
