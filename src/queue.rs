use vstd::prelude::*;

verus! {

/// Name of the queue batches are pushed to and popped from.
pub const QUEUE_NAME: &'static str = "queued_batches";

/// Taking the head off a queue: the item, if any, and what stays.
pub open spec fn pop_front(q: Seq<Seq<char>>) -> (Option<Seq<char>>, Seq<Seq<char>>) {
    if q.len() == 0 {
        (None, q)
    } else {
        (Some(q[0]), q.drop_first())
    }
}

/// A first-in first-out queue of serialized batches. Each operation takes
/// effect whole: an item popped once is gone for every later pop.
#[derive(Debug)]
pub struct BatchQueue {
    items: Vec<String>,
}

impl View for BatchQueue {
    type V = Seq<Seq<char>>;

    closed spec fn view(&self) -> Seq<Seq<char>> {
        self.items@.map_values(|s: String| s@)
    }
}

impl BatchQueue {
    pub fn new() -> (r: BatchQueue)
        ensures
            r@ == Seq::<Seq<char>>::empty(),
    {
        let r = BatchQueue { items: Vec::new() };
        proof {
            assert(r@ =~= Seq::<Seq<char>>::empty());
        }
        r
    }

    pub fn len(&self) -> (r: usize)
        ensures
            r == self@.len(),
    {
        self.items.len()
    }

    /// Appends `item` at the tail.
    pub fn push(&mut self, item: String)
        ensures
            final(self)@ == old(self)@.push(item@),
    {
        let ghost before = self.items@;
        self.items.push(item);
        proof {
            assert(self.items@.map_values(|s: String| s@) =~= before.map_values(|s: String| s@).push(
                item@,
            ));
        }
    }

    /// Removes and returns the head; `None` on an empty queue.
    pub fn pop(&mut self) -> (r: Option<String>)
        ensures
            (match r {
                Some(s) => Some(s@),
                None => None,
            }) == pop_front(old(self)@).0,
            final(self)@ == pop_front(old(self)@).1,
    {
        if self.items.len() == 0 {
            return None;
        }
        let ghost before = self.items@;
        let head = self.items.remove(0);
        proof {
            assert(self.items@.map_values(|s: String| s@) =~= before.map_values(|s: String| s@).drop_first());
        }
        Some(head)
    }
}

/// Two pops against a queue holding a single item: whichever comes first
/// receives the item, and the other finds the queue empty.
pub proof fn lemma_single_item_popped_once(x: Seq<char>)
    ensures
        pop_front(seq![x]).0 == Some(x),
        pop_front(seq![x]).1 == Seq::<Seq<char>>::empty(),
        pop_front(pop_front(seq![x]).1).0 is None,
{
    assert(seq![x].drop_first() =~= Seq::<Seq<char>>::empty());
}

/// Items leave the queue in the order they came in.
pub proof fn lemma_fifo(q: Seq<Seq<char>>, x: Seq<char>)
    ensures
        q.len() > 0 ==> pop_front(q.push(x)).0 == pop_front(q).0 && pop_front(q.push(x)).1 == pop_front(
            q,
        ).1.push(x),
        q.len() == 0 ==> pop_front(q.push(x)).0 == Some(x),
{
    if q.len() > 0 {
        assert(q.push(x).drop_first() =~= q.drop_first().push(x));
    }
}

} // verus!
