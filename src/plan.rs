use vstd::prelude::*;

verus! {

/// The message ids to delete in one conversation, in discovery order.
#[derive(Debug)]
pub struct PlanEntry {
    pub conversation_id: i64,
    pub message_ids: Vec<i32>,
}

/// Keys strictly increasing: the plan is ordered by conversation id and
/// holds each id once.
pub open spec fn sorted_keys(e: Seq<(i64, Seq<i32>)>) -> bool {
    forall|i: int, j: int| 0 <= i < j < e.len() ==> e[i].0 < e[j].0
}

/// What the plan `e` records for conversation `k`.
pub open spec fn lookup(e: Seq<(i64, Seq<i32>)>, k: i64) -> Option<Seq<i32>> {
    if exists|i: int| 0 <= i < e.len() && e[i].0 == k {
        let i = choose|i: int| 0 <= i < e.len() && e[i].0 == k;
        Some(e[i].1)
    } else {
        None
    }
}

/// The list for a conversation after one more message was recorded in it.
pub open spec fn appended(prev: Option<Seq<i32>>, m: i32) -> Seq<i32> {
    match prev {
        Some(s) => s.push(m),
        None => seq![m],
    }
}

/// The message ids that `calls` recorded for conversation `k`, in call order.
pub open spec fn ids_for(calls: Seq<(i64, i32)>, k: i64) -> Seq<i32>
    decreases calls.len(),
{
    if calls.len() == 0 {
        seq![]
    } else if calls.last().0 == k {
        ids_for(calls.drop_last(), k).push(calls.last().1)
    } else {
        ids_for(calls.drop_last(), k)
    }
}

/// What a plan built by `calls` records for conversation `k`.
pub open spec fn planned(calls: Seq<(i64, i32)>, k: i64) -> Option<Seq<i32>> {
    if ids_for(calls, k).len() > 0 {
        Some(ids_for(calls, k))
    } else {
        None
    }
}

/// The number of message ids in the plan `e`, over all its conversations.
pub open spec fn total_messages(e: Seq<(i64, Seq<i32>)>) -> nat
    decreases e.len(),
{
    if e.len() == 0 {
        0
    } else {
        total_messages(e.drop_last()) + e.last().1.len()
    }
}

proof fn lemma_total_update(e: Seq<(i64, Seq<i32>)>, i: int, v: (i64, Seq<i32>))
    requires
        0 <= i < e.len(),
    ensures
        total_messages(e.update(i, v)) + e[i].1.len() == total_messages(e) + v.1.len(),
    decreases e.len(),
{
    if i == e.len() - 1 {
        assert(e.update(i, v).drop_last() =~= e.drop_last());
    } else {
        lemma_total_update(e.drop_last(), i, v);
        assert(e.update(i, v).drop_last() =~= e.drop_last().update(i, v));
    }
}

proof fn lemma_total_insert(e: Seq<(i64, Seq<i32>)>, i: int, v: (i64, Seq<i32>))
    requires
        0 <= i <= e.len(),
    ensures
        total_messages(e.insert(i, v)) == total_messages(e) + v.1.len(),
    decreases e.len(),
{
    if i == e.len() {
        assert(e.insert(i, v).drop_last() =~= e);
    } else {
        lemma_total_insert(e.drop_last(), i, v);
        assert(e.insert(i, v).drop_last() =~= e.drop_last().insert(i, v));
    }
}

/// An ordered map from conversation id to the message ids to delete there.
pub struct DeletionPlan {
    entries: Vec<PlanEntry>,
}

pub open spec fn entry_view(e: PlanEntry) -> (i64, Seq<i32>) {
    (e.conversation_id, e.message_ids@)
}

impl View for DeletionPlan {
    type V = Seq<(i64, Seq<i32>)>;

    closed spec fn view(&self) -> Seq<(i64, Seq<i32>)> {
        self.entries@.map_values(|e: PlanEntry| entry_view(e))
    }
}

pub proof fn lemma_lookup_at(e: Seq<(i64, Seq<i32>)>, i: int)
    requires
        sorted_keys(e),
        0 <= i < e.len(),
    ensures
        lookup(e, e[i].0) == Some(e[i].1),
{
    let j = choose|j: int| 0 <= j < e.len() && e[j].0 == e[i].0;
    assert(j == i);
}

impl DeletionPlan {
    pub fn new() -> (r: Self)
        ensures
            r@ == Seq::<(i64, Seq<i32>)>::empty(),
    {
        let r = DeletionPlan { entries: Vec::new() };
        assert(r@ =~= Seq::<(i64, Seq<i32>)>::empty());
        r
    }

    /// Records `message_id` at the end of the list of `conversation_id`,
    /// creating that list where the plan has none yet.
    pub fn accumulate(&mut self, conversation_id: i64, message_id: i32)
        requires
            sorted_keys(old(self)@),
        ensures
            sorted_keys(final(self)@),
            total_messages(final(self)@) == total_messages(old(self)@) + 1,
            forall|k: i64|
                #[trigger] lookup(final(self)@, k) == if k == conversation_id {
                    Some(appended(lookup(old(self)@, k), message_id))
                } else {
                    lookup(old(self)@, k)
                },
    {
        let ghost e0 = self@;
        let mut p: usize = 0;
        while p < self.entries.len()
            invariant
                p <= self@.len(),
                self@ == e0,
                forall|i: int| 0 <= i < p ==> #[trigger] e0[i].0 < conversation_id,
            ensures
                p <= self@.len(),
                self@ == e0,
                forall|i: int| 0 <= i < p ==> #[trigger] e0[i].0 < conversation_id,
                p < e0.len() ==> e0[p as int].0 >= conversation_id,
            decreases self@.len() - p,
        {
            assert(self@[p as int] == entry_view(self.entries@[p as int]));
            if self.entries[p].conversation_id >= conversation_id {
                break;
            }
            p = p + 1;
        }
        if p < self.entries.len() && self.entries[p].conversation_id == conversation_id {
            assert(e0[p as int] == entry_view(self.entries@[p as int]));
            let mut e = self.entries.remove(p);
            e.message_ids.push(message_id);
            self.entries.insert(p, e);
            let ghost ne = (conversation_id, e0[p as int].1.push(message_id));
            assert(self@ =~= e0.update(p as int, ne));
            proof {
                lemma_total_update(e0, p as int, ne);
                lemma_lookup_at(e0, p as int);
                assert forall|k: i64| #[trigger]
                    lookup(self@, k) == if k == conversation_id {
                        Some(appended(lookup(e0, k), message_id))
                    } else {
                        lookup(e0, k)
                    } by {
                    if k == conversation_id {
                        lemma_lookup_at(self@, p as int);
                    } else if exists|i: int| 0 <= i < e0.len() && e0[i].0 == k {
                        let i = choose|i: int| 0 <= i < e0.len() && e0[i].0 == k;
                        lemma_lookup_at(e0, i);
                        lemma_lookup_at(self@, i);
                    } else {
                        assert(!exists|i: int| 0 <= i < self@.len() && self@[i].0 == k);
                    }
                }
            }
        } else {
            assert(p < e0.len() ==> e0[p as int] == entry_view(self.entries@[p as int]));
            let mut ids: Vec<i32> = Vec::new();
            ids.push(message_id);
            let entry = PlanEntry { conversation_id, message_ids: ids };
            self.entries.insert(p, entry);
            let ghost ne = (conversation_id, seq![message_id]);
            assert(entry_view(entry) == ne);
            assert(self@ =~= e0.insert(p as int, ne));
            proof {
                lemma_total_insert(e0, p as int, ne);
                assert forall|i: int| p <= i < e0.len() implies conversation_id < #[trigger] e0[i].0 by {
                    if i > p {
                        assert(e0[p as int].0 < e0[i].0);
                    }
                }
                assert(sorted_keys(self@));
                assert(lookup(e0, conversation_id).is_none());
                assert forall|k: i64| #[trigger]
                    lookup(self@, k) == if k == conversation_id {
                        Some(appended(lookup(e0, k), message_id))
                    } else {
                        lookup(e0, k)
                    } by {
                    if k == conversation_id {
                        lemma_lookup_at(self@, p as int);
                    } else if exists|i: int| 0 <= i < e0.len() && e0[i].0 == k {
                        let i = choose|i: int| 0 <= i < e0.len() && e0[i].0 == k;
                        lemma_lookup_at(e0, i);
                        if i < p {
                            lemma_lookup_at(self@, i);
                        } else {
                            lemma_lookup_at(self@, i + 1);
                        }
                    } else {
                        assert(!exists|i: int| 0 <= i < self@.len() && self@[i].0 == k);
                    }
                }
            }
        }
    }

    /// Builds the plan that the given `accumulate` calls produce, in order:
    /// each conversation's list is the subsequence of the calls for it,
    /// unmodified, and the lists hold one id per call.
    pub fn from_accumulations(calls: &Vec<(i64, i32)>) -> (r: Self)
        ensures
            sorted_keys(r@),
            total_messages(r@) == calls@.len(),
            forall|k: i64| #[trigger] lookup(r@, k) == planned(calls@, k),
    {
        let mut r = DeletionPlan::new();
        let mut i: usize = 0;
        while i < calls.len()
            invariant
                i <= calls@.len(),
                sorted_keys(r@),
                total_messages(r@) == i,
                forall|k: i64| #[trigger] lookup(r@, k) == planned(calls@.take(i as int), k),
            decreases calls@.len() - i,
        {
            let (c, m) = calls[i];
            let ghost prev = r@;
            r.accumulate(c, m);
            proof {
                let t = calls@.take(i + 1);
                assert(t.drop_last() == calls@.take(i as int));
                assert forall|k: i64| #[trigger] lookup(r@, k) == planned(t, k) by {
                    assert(lookup(prev, k) == planned(calls@.take(i as int), k));
                }
            }
            i = i + 1;
        }
        assert(calls@.take(calls@.len() as int) == calls@);
        r
    }

    /// The number of conversations in the plan.
    pub fn len(&self) -> (r: usize)
        ensures
            r == self@.len(),
    {
        self.entries.len()
    }

    /// The conversation id and message ids at position `i`, in key order.
    pub fn entry(&self, i: usize) -> (r: (i64, &Vec<i32>))
        requires
            i < self@.len(),
        ensures
            r.0 == self@[i as int].0,
            r.1@ == self@[i as int].1,
    {
        let e = &self.entries[i];
        (e.conversation_id, &e.message_ids)
    }

    /// The number of message ids over all conversations, saturating at
    /// `u64::MAX`.
    pub fn message_count(&self) -> (r: u64)
        ensures
            r as int == if total_messages(self@) <= u64::MAX {
                total_messages(self@) as int
            } else {
                u64::MAX as int
            },
    {
        let mut sum: u64 = 0;
        let mut i: usize = 0;
        while i < self.entries.len()
            invariant
                i <= self@.len(),
                sum as int == if total_messages(self@.take(i as int)) <= u64::MAX {
                    total_messages(self@.take(i as int)) as int
                } else {
                    u64::MAX as int
                },
            decreases self@.len() - i,
        {
            assert(self@.take(i + 1).drop_last() == self@.take(i as int));
            assert(self@[i as int] == entry_view(self.entries@[i as int]));
            let n = self.entries[i].message_ids.len() as u64;
            sum = sum.saturating_add(n);
            i = i + 1;
        }
        assert(self@.take(self@.len() as int) == self@);
        sum
    }
}

} // verus!
