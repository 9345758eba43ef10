use vstd::prelude::*;
use vstd::multiset::Multiset;

verus! {

/// Which authorship a pass keeps.
#[derive(Clone, Copy, Debug, PartialEq, Eq, Structural)]
pub enum MessageOwner {
    OnlyMine,
    OnlyOthers,
}

/// A message returned by a keyword search: its id within the conversation,
/// and whether the account itself sent it.
#[derive(Clone, Copy, Debug, PartialEq, Eq, Structural)]
pub struct FoundMessage {
    pub id: i32,
    pub outgoing: bool,
}

pub open spec fn keeps(owner: MessageOwner, outgoing: bool) -> bool {
    match owner {
        MessageOwner::OnlyMine => outgoing,
        MessageOwner::OnlyOthers => !outgoing,
    }
}

/// The ids of the messages of `found` that `owner` keeps, in search order.
pub open spec fn selected_ids(found: Seq<FoundMessage>, owner: MessageOwner) -> Seq<i32>
    decreases found.len(),
{
    if found.len() == 0 {
        seq![]
    } else {
        let rest = selected_ids(found.drop_last(), owner);
        if keeps(owner, found.last().outgoing) {
            rest.push(found.last().id)
        } else {
            rest
        }
    }
}

/// The ids of all messages of `found`, in search order.
pub open spec fn all_ids(found: Seq<FoundMessage>) -> Seq<i32> {
    found.map_values(|m: FoundMessage| m.id)
}

/// Whether a message of the given authorship belongs to the pass of `owner`.
pub fn should_keep(owner: MessageOwner, outgoing: bool) -> (r: bool)
    ensures
        r == keeps(owner, outgoing),
{
    match owner {
        MessageOwner::OnlyMine => outgoing,
        MessageOwner::OnlyOthers => !outgoing,
    }
}

/// Filters the result of a keyword search by authorship.
pub fn classify(found: &Vec<FoundMessage>, owner: MessageOwner) -> (r: Vec<i32>)
    ensures
        r@ == selected_ids(found@, owner),
{
    let mut r: Vec<i32> = Vec::new();
    let mut i: usize = 0;
    while i < found.len()
        invariant
            i <= found@.len(),
            r@ == selected_ids(found@.take(i as int), owner),
        decreases found@.len() - i,
    {
        let m = found[i];
        assert(found@.take(i + 1).drop_last() == found@.take(i as int));
        if should_keep(owner, m.outgoing) {
            r.push(m.id);
        }
        i = i + 1;
    }
    assert(found@.take(found@.len() as int) == found@);
    r
}

/// The two passes split a search result: each found message is kept by
/// exactly one owner, and together the two selections hold every found id
/// exactly as often as the search returned it.
pub proof fn lemma_owners_partition(found: Seq<FoundMessage>)
    ensures
        forall|i: int|
            0 <= i < found.len() ==> keeps(MessageOwner::OnlyMine, #[trigger] found[i].outgoing)
                != keeps(MessageOwner::OnlyOthers, found[i].outgoing),
        selected_ids(found, MessageOwner::OnlyMine).to_multiset().add(
            selected_ids(found, MessageOwner::OnlyOthers).to_multiset(),
        ) == all_ids(found).to_multiset(),
        selected_ids(found, MessageOwner::OnlyMine).len() + selected_ids(
            found,
            MessageOwner::OnlyOthers,
        ).len() == found.len(),
    decreases found.len(),
{
    broadcast use vstd::seq_lib::to_multiset_build;
    broadcast use vstd::multiset::group_multiset_axioms;

    if found.len() == 0 {
        let e = Seq::<i32>::empty();
        e.to_multiset_ensures();
        assert(e.to_multiset() =~= Multiset::empty());
        assert(all_ids(found) =~= e);
        assert(selected_ids(found, MessageOwner::OnlyMine) == e);
        assert(selected_ids(found, MessageOwner::OnlyOthers) == e);
    } else {
        let rest = found.drop_last();
        lemma_owners_partition(rest);
        assert(all_ids(found) =~= all_ids(rest).push(found.last().id));
        let mine = selected_ids(rest, MessageOwner::OnlyMine).to_multiset();
        let others = selected_ids(rest, MessageOwner::OnlyOthers).to_multiset();
        if found.last().outgoing {
            assert(mine.insert(found.last().id).add(others) =~= mine.add(others).insert(
                found.last().id,
            ));
        } else {
            assert(mine.add(others.insert(found.last().id)) =~= mine.add(others).insert(
                found.last().id,
            ));
        }
    }
}

pub open spec fn kept_by(owner: MessageOwner) -> spec_fn(FoundMessage) -> bool {
    |m: FoundMessage| keeps(owner, m.outgoing)
}

/// The selection of an owner is the search result filtered by authorship,
/// mapped to ids: with `OnlyMine` every selected message was sent by the
/// account, with `OnlyOthers` none was.
pub proof fn lemma_selected_is_filter(found: Seq<FoundMessage>, owner: MessageOwner)
    ensures
        selected_ids(found, owner) == found.filter(kept_by(owner)).map_values(
            |m: FoundMessage| m.id,
        ),
        forall|i: int|
            0 <= i < found.filter(kept_by(owner)).len() ==> keeps(
                owner,
                #[trigger] found.filter(kept_by(owner))[i].outgoing,
            ),
    decreases found.len(),
{
    reveal(Seq::filter);
    found.filter_lemma(kept_by(owner));
    if found.len() == 0 {
        assert(found.filter(kept_by(owner)).map_values(|m: FoundMessage| m.id) =~= seq![]);
    } else {
        let rest = found.drop_last();
        lemma_selected_is_filter(rest, owner);
        let fr = rest.filter(kept_by(owner));
        if keeps(owner, found.last().outgoing) {
            assert(fr.push(found.last()).map_values(|m: FoundMessage| m.id) =~= fr.map_values(
                |m: FoundMessage| m.id,
            ).push(found.last().id));
        }
    }
}

} // verus!
