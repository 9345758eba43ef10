use vstd::prelude::*;

verus! {

/// How a conversation is classified by the messaging service.
#[derive(Clone, Copy, Debug, PartialEq, Eq, Structural)]
pub enum ConversationKind {
    User,
    Group,
    Channel,
    Other,
}

/// One conversation the account belongs to. `handle` addresses the
/// service's routing token for it, held by the caller in a table of its own.
#[derive(Clone, Copy, Debug, PartialEq, Eq, Structural)]
pub struct Conversation {
    pub id: i64,
    pub kind: ConversationKind,
    pub handle: usize,
}

/// The handle that the side table built from `convs` gives for `id`:
/// a later conversation with the same id replaces an earlier one.
pub open spec fn handle_in(convs: Seq<Conversation>, id: i64) -> Option<usize>
    decreases convs.len(),
{
    if convs.len() == 0 {
        None
    } else if convs.last().id == id {
        Some(convs.last().handle)
    } else {
        handle_in(convs.drop_last(), id)
    }
}

/// Every conversation of the run, in enumeration order.
pub struct ConversationIndex {
    conversations: Vec<Conversation>,
}

impl View for ConversationIndex {
    type V = Seq<Conversation>;

    closed spec fn view(&self) -> Seq<Conversation> {
        self.conversations@
    }
}

impl ConversationIndex {
    pub fn new(conversations: Vec<Conversation>) -> (r: Self)
        ensures
            r@ == conversations@,
    {
        ConversationIndex { conversations }
    }

    pub fn len(&self) -> (r: usize)
        ensures
            r == self@.len(),
    {
        self.conversations.len()
    }

    pub fn get(&self, i: usize) -> (r: Conversation)
        requires
            i < self@.len(),
        ensures
            r == self@[i as int],
    {
        self.conversations[i]
    }

    /// The handle recorded for conversation `id`, if the index knows it.
    pub fn handle_of(&self, id: i64) -> (r: Option<usize>)
        ensures
            r == handle_in(self@, id),
    {
        let mut i: usize = self.conversations.len();
        assert(self@.take(i as int) == self@);
        while i > 0
            invariant
                i <= self@.len(),
                handle_in(self@, id) == handle_in(self@.take(i as int), id),
            decreases i,
        {
            let c = self.conversations[i - 1];
            assert(self@.take(i as int).drop_last() == self@.take(i - 1));
            if c.id == id {
                return Some(c.handle);
            }
            i = i - 1;
        }
        None
    }
}

} // verus!
