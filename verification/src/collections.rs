//! The two small fixed-size collections of the engine, kept in the crates
//! that provide them: the killer queue (`arraydeque`) and the gain stack of
//! the exchange evaluation (`arrayvec`).

use vstd::prelude::*;

verus! {

/// What the killer queue holds of a move: its source square, its
/// destination square, and 0 or one more than the index of the piece it
/// promotes to.
pub type KillerItem = (u8, u8, u8);

/// A queue of at most two moves; a third pushes the oldest out. It is an
/// `arraydeque::ArrayDeque` of two items with the `Wrapping` behaviour.
#[verifier::external_body]
pub struct KillerQueue {
    inner: arraydeque::ArrayDeque<[KillerItem; 2], arraydeque::Wrapping>,
}

/// A stack of at most 32 scores. It is an `arrayvec::ArrayVec` of 32 items.
#[verifier::external_body]
pub struct GainStack {
    inner: arrayvec::ArrayVec<[i64; 32]>,
}

/// The moves in a killer queue, the oldest first.
pub uninterp spec fn killer_items(q: KillerQueue) -> Seq<KillerItem>;

/// The scores on a gain stack, the top last.
pub uninterp spec fn gain_items(s: GainStack) -> Seq<i64>;

/// The items of a queue that are not `item`, in their order.
pub open spec fn others(items: Seq<KillerItem>, item: KillerItem) -> Seq<KillerItem> {
    items.filter(|m: KillerItem| m != item)
}

/// Whether two items differ.
pub fn differs(a: &KillerItem, b: &KillerItem) -> (r: bool)
    ensures
        r == (*a != *b),
{
    a.0 != b.0 || a.1 != b.1 || a.2 != b.2
}

impl KillerQueue {
    /// `ArrayDeque::new`: an empty queue.
    #[verifier::external_body]
    pub(crate) fn new() -> (q: KillerQueue)
        ensures
            killer_items(q).len() == 0,
    {
        KillerQueue { inner: arraydeque::ArrayDeque::new() }
    }

    /// `ArrayDeque::clone`: a queue with the same items.
    #[verifier::external_body]
    pub(crate) fn copy(&self) -> (q: KillerQueue)
        ensures
            killer_items(q) == killer_items(*self),
    {
        KillerQueue { inner: self.inner.clone() }
    }

    /// `ArrayDeque::retain` with "differs from `item`": the items that are
    /// not `item` stay, in their order.
    #[verifier::external_body]
    pub(crate) fn remove(&mut self, item: KillerItem)
        ensures
            killer_items(*final(self)) == others(killer_items(*old(self)), item),
    {
        self.inner.retain(|m| differs(m, &item))
    }

    /// `ArrayDeque::push_back` of a wrapping queue of two: the item goes to
    /// the back; a queue that held two items loses its front one, which is returned.
    #[verifier::external_body]
    pub(crate) fn push_back(&mut self, item: KillerItem) -> (pushed_out: Option<KillerItem>)
        ensures
            killer_items(*old(self)).len() < 2 ==> pushed_out.is_none() && killer_items(*final(self))
                == killer_items(*old(self)).push(item),
            killer_items(*old(self)).len() >= 2 ==> pushed_out == Some(killer_items(*old(self))[0])
                && killer_items(*final(self)) == killer_items(*old(self)).drop_first().push(item),
    {
        self.inner.push_back(item)
    }

    /// `ArrayDeque::pop_front`: takes the front item off, if there is one.
    #[verifier::external_body]
    pub(crate) fn pop_front(&mut self) -> (front: Option<KillerItem>)
        ensures
            killer_items(*old(self)).len() == 0 ==> front.is_none() && killer_items(*final(self))
                == killer_items(*old(self)),
            killer_items(*old(self)).len() > 0 ==> front == Some(killer_items(*old(self))[0])
                && killer_items(*final(self)) == killer_items(*old(self)).drop_first(),
    {
        self.inner.pop_front()
    }
}

impl GainStack {
    /// `ArrayVec::new`: an empty stack.
    #[verifier::external_body]
    pub(crate) fn new() -> (s: GainStack)
        ensures
            gain_items(s).len() == 0,
    {
        GainStack { inner: arrayvec::ArrayVec::new() }
    }

    /// `ArrayVec::len`: the number of scores.
    #[verifier::external_body]
    pub(crate) fn len(&self) -> (n: usize)
        ensures
            n == gain_items(*self).len(),
    {
        self.inner.len()
    }

    /// `ArrayVec::push`, which panics on a full vector: the score goes on top.
    #[verifier::external_body]
    pub(crate) fn push(&mut self, gain: i64)
        requires
            gain_items(*old(self)).len() < 32,
        ensures
            gain_items(*final(self)) == gain_items(*old(self)).push(gain),
    {
        self.inner.push(gain)
    }

    /// `ArrayVec::pop`: takes the top score off, if there is one.
    #[verifier::external_body]
    pub(crate) fn pop(&mut self) -> (top: Option<i64>)
        ensures
            gain_items(*old(self)).len() == 0 ==> top.is_none() && gain_items(*final(self))
                == gain_items(*old(self)),
            gain_items(*old(self)).len() > 0 ==> top == Some(gain_items(*old(self)).last())
                && gain_items(*final(self)) == gain_items(*old(self)).drop_last(),
    {
        self.inner.pop()
    }
}

} // verus!
