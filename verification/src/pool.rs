//! The socket connection pool's accounting: a stack of idle connections
//! under a soft cap. The streams themselves live with the transport; here
//! each is a numbered slot, so the policy — eager pre-population that
//! fails only when nothing dialed, non-blocking acquire, return-if-below-
//! cap — is verified.

use vstd::prelude::*;

verus! {

/// Pre-population found no usable connection at all.
#[derive(Debug, Clone, Copy, PartialEq, Eq, Structural)]
pub struct PoolExhausted;

/// The slots of the successful dials among the first `i` outcomes, in
/// ascending order: what eager pre-population leaves idle.
pub open spec fn spec_success_slots(outcomes: Seq<bool>, i: int) -> Seq<u64>
    decreases i,
{
    if i <= 0 {
        Seq::empty()
    } else if outcomes[i - 1] {
        spec_success_slots(outcomes, i - 1).push((i - 1) as u64)
    } else {
        spec_success_slots(outcomes, i - 1)
    }
}

/// The idle-connection ledger of one pool.
pub struct ConnectionPool {
    idle: Vec<u64>,
    pool_size: usize,
}

impl ConnectionPool {
    /// The idle slots, most recently returned last.
    pub closed spec fn idle_ids(&self) -> Seq<u64> {
        self.idle@
    }

    /// The soft cap the pool was configured with.
    pub closed spec fn cap(&self) -> usize {
        self.pool_size
    }

    /// The pool never holds more idle connections than its cap.
    pub open spec fn wf(&self) -> bool {
        self.idle_ids().len() <= self.cap()
    }

    /// An empty pool that dials on demand.
    pub fn new_lazy(pool_size: usize) -> (r: ConnectionPool)
        ensures
            r.cap() == pool_size,
            r.idle_ids() == Seq::<u64>::empty(),
            r.wf(),
    {
        let r = ConnectionPool { idle: Vec::new(), pool_size };
        proof {
            assert(r.idle_ids() =~= Seq::<u64>::empty());
        }
        r
    }

    /// Records the outcome of eager pre-population, one flag per dial
    /// attempt: the idle slots become exactly the successful attempts, in
    /// ascending order — partial failures only shrink the pool. Fails
    /// exactly when no attempt succeeded and at least one was made.
    pub fn populate(&mut self, outcomes: &Vec<bool>) -> (r: Result<usize, PoolExhausted>)
        requires
            old(self).idle_ids().len() == 0,
            outcomes@.len() == old(self).cap(),
        ensures
            final(self).cap() == old(self).cap(),
            final(self).wf(),
            final(self).idle_ids() == spec_success_slots(outcomes@, outcomes@.len() as int),
            r matches Ok(count) ==> count == final(self).idle_ids().len(),
            r is Err <==> (outcomes@.len() > 0 && forall|i: int|
                0 <= i < outcomes@.len() ==> outcomes@[i] == false),
    {
        let n = outcomes.len();
        let mut i: usize = 0;
        proof {
            assert(self.idle_ids() =~= spec_success_slots(outcomes@, 0));
        }
        while i < n
            invariant
                0 <= i <= n,
                n == outcomes@.len(),
                self.cap() == old(self).cap(),
                n == self.cap(),
                self.idle_ids().len() <= i,
                self.idle_ids() == spec_success_slots(outcomes@, i as int),
                self.idle_ids().len() == 0 ==> forall|k: int| 0 <= k < i ==> outcomes@[k] == false,
            decreases n - i,
        {
            if outcomes[i] {
                self.idle.push(i as u64);
            }
            i = i + 1;
        }
        let count = self.idle.len();
        if count == 0 && n > 0 {
            return Err(PoolExhausted);
        }
        proof {
            Self::lemma_success_slots_true_at(outcomes@, n as int);
            if self.idle_ids().len() > 0 {
                assert(outcomes@[self.idle_ids()[0] as int] == true);
            }
        }
        Ok(count)
    }

    /// Every slot the success list names did succeed, within bounds.
    proof fn lemma_success_slots_true_at(outcomes: Seq<bool>, i: int)
        requires
            0 <= i <= outcomes.len(),
            i <= u64::MAX,
        ensures
            forall|k: int|
                0 <= k < spec_success_slots(outcomes, i).len() ==> {
                    &&& (#[trigger] spec_success_slots(outcomes, i)[k] as int) < i
                    &&& outcomes[spec_success_slots(outcomes, i)[k] as int] == true
                },
        decreases i,
    {
        if i > 0 {
            Self::lemma_success_slots_true_at(outcomes, i - 1);
            let prev = spec_success_slots(outcomes, i - 1);
            let cur = spec_success_slots(outcomes, i);
            assert forall|k: int|
                0 <= k < cur.len() implies (#[trigger] cur[k] as int) < i && outcomes[cur[k] as int]
                == true by {
                if outcomes[i - 1] {
                    if k < prev.len() {
                        assert(cur[k] == prev[k]);
                    } else {
                        assert(cur[k] == (i - 1) as u64);
                    }
                } else {
                    assert(cur == prev);
                }
            }
        }
    }

    /// Pops an idle connection without blocking; `None` tells the caller
    /// to dial a fresh one.
    pub fn try_get_connection(&mut self) -> (r: Option<u64>)
        ensures
            final(self).cap() == old(self).cap(),
            r is None <==> old(self).idle_ids().len() == 0,
            r is None ==> final(self).idle_ids() == old(self).idle_ids(),
            r matches Some(id) ==> old(self).idle_ids().len() > 0 && id == old(self).idle_ids().last()
                && final(self).idle_ids() == old(self).idle_ids().drop_last(),
    {
        self.idle.pop()
    }

    /// Takes a connection back: kept only while the idle count is below
    /// the cap, dropped otherwise.
    pub fn return_connection(&mut self, id: u64) -> (kept: bool)
        ensures
            final(self).cap() == old(self).cap(),
            kept <==> old(self).idle_ids().len() < old(self).cap(),
            kept ==> final(self).idle_ids() == old(self).idle_ids().push(id),
            !kept ==> final(self).idle_ids() == old(self).idle_ids(),
            old(self).wf() ==> final(self).wf(),
    {
        if self.idle.len() < self.pool_size {
            self.idle.push(id);
            true
        } else {
            false
        }
    }

    /// Drops every idle connection.
    pub fn close(&mut self)
        ensures
            final(self).cap() == old(self).cap(),
            final(self).idle_ids() == Seq::<u64>::empty(),
            final(self).wf(),
    {
        self.idle.clear();
        proof {
            assert(self.idle_ids() =~= Seq::<u64>::empty());
        }
    }

    /// The configured cap.
    pub fn pool_size(&self) -> (r: usize)
        ensures
            r == self.cap(),
    {
        self.pool_size
    }

    /// Whether no idle connection is held.
    pub fn is_empty(&self) -> (r: bool)
        ensures
            r == (self.idle_ids().len() == 0),
    {
        self.idle.len() == 0
    }
}

} // verus!
