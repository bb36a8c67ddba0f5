//! The gas station's sales pipeline: sales from the pumps gather in a
//! buffer, are packaged into numbered bulks, and the bulks go to the
//! regional server one at a time, oldest first, by two-phase commit.

use crate::fmt::{decimal, push_decimal, string_append};
use std::collections::VecDeque;
use vstd::prelude::*;

verus! {

/// Network addresses and packaging limits of a gas station.
#[derive(Debug, Clone)]
pub struct GasStationConfig {
    pub pump_listener_port: u16,
    pub regional_address: String,
    /// Port of the regional server that takes the bulks.
    pub regional_port: u16,
    pub bulk_limit: usize,
    pub bulk_timeout_secs: u64,
}

impl GasStationConfig {
    /// The address of the regional server: `<address>:<port>`.
    pub fn regional_endpoint(&self) -> (r: String)
        ensures
            r@ == self.regional_address@ + ":"@ + decimal(self.regional_port as nat),
    {
        let mut r = self.regional_address.clone();
        string_append(&mut r, ":");
        push_decimal(&mut r, self.regional_port as u64);
        r
    }
}

/// The buffer is packaged when it holds `limit` sales, or holds some and
/// the bulk timeout has passed.
pub open spec fn package_due(len: nat, limit: nat, timed_out: bool) -> bool {
    len >= limit || (len > 0 && timed_out)
}

/// Whether the buffer of `len` sales is due for packaging.
pub fn should_package(len: usize, limit: usize, timed_out: bool) -> (r: bool)
    ensures
        r == package_due(len as nat, limit as nat, timed_out),
{
    len >= limit || (len > 0 && timed_out)
}

/// How a bulk's two-phase commit ended.
#[derive(Debug)]
pub enum BulkOutcome {
    /// The regional voted to commit and acknowledged the commit.
    Committed,
    /// The regional voted to abort: the bulk is dropped.
    Aborted,
    /// The exchange failed: the bulk is tried again later.
    Failed,
}

/// Sales not yet packaged and the bulks waiting to be sent, oldest first.
pub struct BulkBuffer<T> {
    buffer: Vec<T>,
    queue: VecDeque<(u64, Vec<T>)>,
    last_bulk_id: u64,
}

/// Abstract state of the pipeline.
pub struct BulkBufferView<T> {
    /// Sales not yet packaged, in arrival order.
    pub buffer: Seq<T>,
    /// Bulks waiting, oldest first: `(id, sales)`.
    pub queue: Seq<(u64, Seq<T>)>,
    /// The id of the last bulk packaged (0 before the first).
    pub last_bulk_id: u64,
}

impl<T> View for BulkBuffer<T> {
    type V = BulkBufferView<T>;

    closed spec fn view(&self) -> BulkBufferView<T> {
        BulkBufferView {
            buffer: self.buffer@,
            queue: self.queue@.map_values(|b: (u64, Vec<T>)| (b.0, b.1@)),
            last_bulk_id: self.last_bulk_id,
        }
    }
}

/// The sales of a list of bulks, in order.
pub open spec fn bulk_sales<T>(q: Seq<(u64, Seq<T>)>) -> Seq<T>
    decreases q.len(),
{
    if q.len() == 0 {
        Seq::empty()
    } else {
        bulk_sales(q.drop_last()) + q.last().1
    }
}

/// Every sale held, oldest first: those in the waiting bulks, then the
/// buffer.
pub open spec fn held_sales<T>(v: BulkBufferView<T>) -> Seq<T> {
    bulk_sales(v.queue) + v.buffer
}

/// The pipeline's invariant: bulk ids increase along the queue, the newest
/// being the last id handed out.
pub open spec fn bulks_wf<T>(v: BulkBufferView<T>) -> bool {
    &&& forall|i: int, j: int|
        0 <= i < j < v.queue.len() ==> #[trigger] v.queue[i].0 < #[trigger] v.queue[j].0
    &&& forall|i: int| 0 <= i < v.queue.len() ==> #[trigger] v.queue[i].0 <= v.last_bulk_id
}

proof fn lemma_bulk_sales_push<T>(q: Seq<(u64, Seq<T>)>, b: (u64, Seq<T>))
    ensures
        bulk_sales(q.push(b)) == bulk_sales(q) + b.1,
{
    assert(q.push(b).drop_last() =~= q);
}

proof fn lemma_bulk_sales_front<T>(q: Seq<(u64, Seq<T>)>)
    requires
        q.len() > 0,
    ensures
        bulk_sales(q) == q[0].1 + bulk_sales(q.subrange(1, q.len() as int)),
    decreases q.len(),
{
    if q.len() == 1 {
        assert(q.drop_last() =~= Seq::<(u64, Seq<T>)>::empty());
        assert(q.subrange(1, 1) =~= Seq::<(u64, Seq<T>)>::empty());
        assert(q[0].1 + Seq::<T>::empty() =~= q[0].1);
        assert(Seq::<T>::empty() + q[0].1 =~= q[0].1);
    } else {
        lemma_bulk_sales_front(q.drop_last());
        assert(q.drop_last().subrange(1, q.len() - 1) =~= q.subrange(1, q.len() as int).drop_last());
        assert(q.subrange(1, q.len() as int).last() == q.last());
        assert(q[0].1 + bulk_sales(q.subrange(1, q.len() as int)) =~= q[0].1 + bulk_sales(
            q.drop_last().subrange(1, q.len() - 1),
        ) + q.last().1);
    }
}

impl<T> BulkBuffer<T> {
    /// The pipeline is well formed.
    pub open spec fn wf(&self) -> bool {
        bulks_wf(self@)
    }

    /// An empty pipeline; the first bulk will have id 1.
    pub fn new() -> (b: Self)
        ensures
            b@.buffer == Seq::<T>::empty(),
            b@.queue == Seq::<(u64, Seq<T>)>::empty(),
            b@.last_bulk_id == 0,
            b.wf(),
    {
        let b = BulkBuffer { buffer: Vec::new(), queue: VecDeque::new(), last_bulk_id: 0 };
        assert(b@.queue =~= Seq::<(u64, Seq<T>)>::empty());
        b
    }

    /// A sale arrives from a pump.
    pub fn push_sale(&mut self, sale: T)
        ensures
            final(self)@.buffer == old(self)@.buffer.push(sale),
            final(self)@.queue == old(self)@.queue,
            final(self)@.last_bulk_id == old(self)@.last_bulk_id,
    {
        self.buffer.push(sale);
    }

    /// The number of sales not yet packaged.
    pub fn pending(&self) -> (n: usize)
        ensures
            n == self@.buffer.len(),
    {
        self.buffer.len()
    }

    /// The number of bulks waiting.
    pub fn waiting(&self) -> (n: usize)
        ensures
            n == self@.queue.len(),
    {
        self.queue.len()
    }

    /// The id of the last bulk packaged (0 before the first).
    pub fn last_bulk_id(&self) -> (n: u64)
        ensures
            n == self@.last_bulk_id,
    {
        self.last_bulk_id
    }

    /// Packages the buffer into a new bulk when it is due (see
    /// `package_due`), and gives the new bulk's id. The bulk id counter must
    /// not be exhausted.
    pub fn package(&mut self, bulk_limit: usize, timed_out: bool) -> (r: Option<u64>)
        requires
            old(self).wf(),
            old(self)@.last_bulk_id < u64::MAX,
        ensures
            final(self).wf(),
            held_sales(final(self)@) == held_sales(old(self)@),
            package_due(old(self)@.buffer.len(), bulk_limit as nat, timed_out) ==> (r == Some(
                (old(self)@.last_bulk_id + 1) as u64,
            ) && final(self)@.queue == old(self)@.queue.push(
                ((old(self)@.last_bulk_id + 1) as u64, old(self)@.buffer),
            ) && final(self)@.buffer == Seq::<T>::empty() && final(self)@.last_bulk_id == old(
                self,
            )@.last_bulk_id + 1),
            !package_due(old(self)@.buffer.len(), bulk_limit as nat, timed_out) ==> (r is None
                && final(self)@ == old(self)@),
    {
        if !should_package(self.buffer.len(), bulk_limit, timed_out) {
            return None;
        }
        let ghost old_view = self@;
        let id = self.last_bulk_id + 1;
        self.last_bulk_id = id;
        let mut sales: Vec<T> = Vec::new();
        std::mem::swap(&mut sales, &mut self.buffer);
        let ghost sales_view = sales@;
        self.queue.push_back((id, sales));
        proof {
            assert(self@.queue =~= old_view.queue.push((id, sales_view)));
            assert(self@.buffer =~= Seq::<T>::empty());
            lemma_bulk_sales_push(old_view.queue, (id, sales_view));
            assert(held_sales(self@) =~= held_sales(old_view));
        }
        Some(id)
    }

    /// The oldest bulk waiting, if any.
    pub fn front(&self) -> (r: Option<&(u64, Vec<T>)>)
        ensures
            self@.queue.len() == 0 ==> r is None,
            self@.queue.len() > 0 ==> (r matches Some(b) && b.0 == self@.queue[0].0 && b.1@
                == self@.queue[0].1),
    {
        if self.queue.len() == 0 {
            None
        } else {
            Some(&self.queue[0])
        }
    }

    /// Records how the oldest bulk's two-phase commit ended: committed or
    /// aborted bulks leave the queue, failed ones stay to be tried again.
    pub fn settle(&mut self, outcome: BulkOutcome)
        requires
            old(self).wf(),
        ensures
            final(self).wf(),
            final(self)@.buffer == old(self)@.buffer,
            final(self)@.last_bulk_id == old(self)@.last_bulk_id,
            outcome is Failed || old(self)@.queue.len() == 0 ==> final(self)@.queue == old(
                self,
            )@.queue,
            !(outcome is Failed) && old(self)@.queue.len() > 0 ==> final(self)@.queue == old(
                self,
            )@.queue.subrange(1, old(self)@.queue.len() as int),
    {
        match outcome {
            BulkOutcome::Failed => {},
            _ => {
                let ghost old_view = self@;
                let _ = self.queue.pop_front();
                assert(self@.queue =~= if old_view.queue.len() > 0 {
                    old_view.queue.subrange(1, old_view.queue.len() as int)
                } else {
                    old_view.queue
                });
            },
        }
    }
}

/// Packaging never loses, duplicates or reorders a sale: the sales held,
/// oldest first, are the same before and after.
pub proof fn lemma_package_keeps_sales<T>(v: BulkBufferView<T>, id: u64)
    ensures
        held_sales(
            BulkBufferView {
                buffer: Seq::<T>::empty(),
                queue: v.queue.push((id, v.buffer)),
                last_bulk_id: id,
            },
        ) == held_sales(v),
{
    lemma_bulk_sales_push(v.queue, (id, v.buffer));
    assert(bulk_sales(v.queue) + v.buffer + Seq::<T>::empty() =~= bulk_sales(v.queue) + v.buffer);
}

/// A bulk that leaves the queue takes exactly its own sales with it, and
/// they are the oldest held.
pub proof fn lemma_settle_removes_oldest<T>(v: BulkBufferView<T>)
    requires
        v.queue.len() > 0,
    ensures
        held_sales(v) == v.queue[0].1 + held_sales(
            BulkBufferView {
                buffer: v.buffer,
                queue: v.queue.subrange(1, v.queue.len() as int),
                last_bulk_id: v.last_bulk_id,
            },
        ),
{
    lemma_bulk_sales_front(v.queue);
    assert(v.queue[0].1 + bulk_sales(v.queue.subrange(1, v.queue.len() as int)) + v.buffer
        =~= v.queue[0].1 + (bulk_sales(v.queue.subrange(1, v.queue.len() as int)) + v.buffer));
}

/// What the station does after the regional's vote on a bulk.
#[derive(Debug)]
pub enum VoteStep {
    /// Commit: notify the rejected sales now, send the global commit, and
    /// notify the accepted sales once the commit is acknowledged.
    Commit,
    /// Abort: notify the rejected sales; the bulk is dropped.
    Abort,
}

/// The step after the regional's vote.
pub fn vote_step(vote: bool) -> (r: VoteStep)
    ensures
        vote <==> r is Commit,
{
    if vote {
        VoteStep::Commit
    } else {
        VoteStep::Abort
    }
}

/// Whether an acknowledgement confirms the bulk that was committed.
pub fn ack_confirms(bulk_id: u64, acked_id: u64) -> (r: bool)
    ensures
        r == (acked_id == bulk_id),
{
    acked_id == bulk_id
}

} // verus!
