//! A last-in, first-out queue of tables.
//!
//! The frontier of the search and its collection of solutions are both a
//! `TableBus`. The bus itself is a plain value with one owner; whoever
//! shares it among workers guards it with one lock and holds the lock for
//! exactly one call, so that every call below is atomic.

use std::collections::VecDeque;
use vstd::multiset::Multiset;
use vstd::prelude::*;

use crate::table::Table;

verus! {

/// How many polls in a row may find the bus empty before a receiver gives
/// up.
pub const RECEIVE_ATTEMPTS: usize = 10;

/// The pause between two polls of an empty bus, in milliseconds.
pub const RECEIVE_PAUSE_MILLIS: u64 = 50;

/// Where a receiver stands in its bounded polling of a bus.
#[derive(Debug, PartialEq, Eq, Structural, Clone, Copy)]
pub enum WorkerState {
    /// No poll since the last delivery has found the bus empty.
    Running,
    /// The last `misses` polls found the bus empty, and further polls are
    /// allowed.
    Draining { misses: usize },
    /// `RECEIVE_ATTEMPTS` polls in a row found the bus empty. The receiver
    /// has given up for good.
    Stopped,
}

impl WorkerState {
    /// The number of polls in a row that found the bus empty.
    pub open spec fn misses(self) -> nat {
        match self {
            WorkerState::Running => 0,
            WorkerState::Draining { misses } => misses as nat,
            WorkerState::Stopped => RECEIVE_ATTEMPTS as nat,
        }
    }

    /// The state after one more poll that found the bus empty.
    pub open spec fn after_miss(self) -> WorkerState {
        if self.misses() + 1 >= RECEIVE_ATTEMPTS {
            WorkerState::Stopped
        } else {
            WorkerState::Draining { misses: (self.misses() + 1) as usize }
        }
    }

    /// The state after one more poll that found the bus empty.
    pub fn missed(self) -> (next: WorkerState)
        ensures
            next == self.after_miss(),
    {
        match self {
            WorkerState::Running => WorkerState::Draining { misses: 1 },
            WorkerState::Draining { misses } => {
                if misses >= RECEIVE_ATTEMPTS - 1 {
                    WorkerState::Stopped
                } else {
                    WorkerState::Draining { misses: misses + 1 }
                }
            },
            WorkerState::Stopped => WorkerState::Stopped,
        }
    }
}

/// One call that changes a bus.
pub enum BusCall {
    /// An insertion of the table.
    Insert(Table),
    /// A pop, which hands out the front table if there is one.
    Pop,
}

/// A stack of tables: the table inserted last is received first.
pub struct TableBus {
    tables: VecDeque<Table>,
}

impl View for TableBus {
    type V = Seq<Table>;

    /// The queued tables, the next to be received first.
    closed spec fn view(&self) -> Seq<Table> {
        self.tables@
    }
}

impl TableBus {
    /// The queue after `table` was inserted into `queue`.
    pub open spec fn spec_insert(queue: Seq<Table>, table: Table) -> Seq<Table> {
        seq![table] + queue
    }

    /// The table that a pop of `queue` hands out, and the queue it leaves.
    pub open spec fn spec_pop(queue: Seq<Table>) -> (Option<Table>, Seq<Table>) {
        if queue.len() == 0 {
            (None, queue)
        } else {
            (Some(queue[0]), queue.skip(1))
        }
    }

    /// An empty bus.
    pub fn new() -> (bus: TableBus)
        ensures
            bus@ == Seq::<Table>::empty(),
    {
        TableBus { tables: VecDeque::new() }
    }

    /// The number of tables queued.
    pub fn count(&self) -> (count: usize)
        ensures
            count == self@.len(),
    {
        self.tables.len()
    }

    /// Puts `table` at the front of the queue. There is no bound on the
    /// length of the queue.
    pub fn insert(&mut self, table: Table)
        ensures
            final(self)@ == Self::spec_insert(old(self)@, table),
    {
        self.tables.push_front(table)
    }

    /// Takes the table at the front of the queue, if there is one.
    pub fn pop(&mut self) -> (table: Option<Table>)
        ensures
            (table, final(self)@) == Self::spec_pop(old(self)@),
    {
        let table = self.tables.pop_front();
        assert(old(self)@.len() > 0 ==> self@ =~= old(self)@.skip(1));
        table
    }

    /// Takes every table that the bus holds, the front of the queue first,
    /// and leaves the bus empty.
    pub fn drain(&mut self) -> (drained: Vec<Table>)
        ensures
            drained@ == old(self)@,
            final(self)@ == Seq::<Table>::empty(),
    {
        let ghost before = self@;
        let count = self.count();
        let mut drained: Vec<Table> = Vec::with_capacity(count);
        let mut taken: usize = 0;
        while taken < count
            invariant
                taken <= count,
                count == before.len(),
                drained@ == before.take(taken as int),
                self@ == before.skip(taken as int),
            decreases count - taken,
        {
            let table = self.pop();
            proof {
                assert(before.skip(taken as int).skip(1) =~= before.skip(taken + 1));
                assert(before.take(taken + 1) =~= before.take(taken as int).push(
                    before[taken as int],
                ));
            }
            match table {
                Some(table) => drained.push(table),
                None => {},
            }
            taken += 1;
        }
        proof {
            assert(before.take(count as int) =~= before);
            assert(before.skip(count as int) =~= Seq::<Table>::empty());
        }
        drained
    }

    /// What one poll in `state` hands out, the state it leads to, and the
    /// queue it leaves.
    pub open spec fn spec_receive(queue: Seq<Table>, state: WorkerState) -> (
        WorkerState,
        Option<Table>,
        Seq<Table>,
    ) {
        if state is Stopped {
            (WorkerState::Stopped, None, queue)
        } else if queue.len() == 0 {
            (state.after_miss(), None, queue)
        } else {
            (WorkerState::Running, Some(queue[0]), queue.skip(1))
        }
    }

    /// One poll of a bounded-retry receive.
    ///
    /// A receiver starts in `WorkerState::Running` and polls until a table
    /// is delivered or the state returned is `WorkerState::Stopped`, pausing
    /// `RECEIVE_PAUSE_MILLIS` after every poll that delivered nothing. It
    /// thus reports an empty bus only after `RECEIVE_ATTEMPTS` polls in a
    /// row found it empty. A receiver that has stopped stays stopped: a
    /// poll in `WorkerState::Stopped` takes nothing from the bus.
    pub fn receive(&mut self, state: WorkerState) -> (polled: (WorkerState, Option<Table>))
        ensures
            (polled.0, polled.1, final(self)@) == Self::spec_receive(old(self)@, state),
    {
        match state {
            WorkerState::Stopped => (WorkerState::Stopped, None),
            _ => match self.pop() {
                Some(table) => (WorkerState::Running, Some(table)),
                None => (state.missed(), None),
            },
        }
    }

    /// What is inserted last is received first, and the bus is then as it
    /// was before.
    pub proof fn lemma_insert_then_pop(queue: Seq<Table>, table: Table)
        ensures
            Self::spec_pop(Self::spec_insert(queue, table)) == (Some(table), queue),
    {
        assert(Self::spec_insert(queue, table).skip(1) =~= queue);
    }

    /// An insertion adds exactly one occurrence of the inserted table and
    /// changes the number of occurrences of no other table.
    pub proof fn lemma_insert_adds_one(queue: Seq<Table>, table: Table)
        ensures
            Self::spec_insert(queue, table).to_multiset() == queue.to_multiset().insert(table),
    {
        broadcast use vstd::seq_lib::group_to_multiset_ensures;

        vstd::seq_lib::lemma_multiset_commutative(seq![table], queue);
        assert(seq![table] =~= Seq::<Table>::empty().push(table));
        assert(seq![table].to_multiset() =~= vstd::multiset::Multiset::<Table>::empty().insert(
            table,
        ));
        assert(Self::spec_insert(queue, table).to_multiset() =~= queue.to_multiset().insert(table));
    }

    /// A pop that hands out a table removes exactly one occurrence of it
    /// and changes the number of occurrences of no other table; a pop that
    /// hands out none leaves the bus as it was.
    pub proof fn lemma_pop_removes_one(queue: Seq<Table>)
        ensures
            match Self::spec_pop(queue).0 {
                Some(table) => queue.to_multiset() == Self::spec_pop(queue).1.to_multiset().insert(
                    table,
                ),
                None => Self::spec_pop(queue).1 == queue,
            },
    {
        if queue.len() > 0 {
            assert(queue =~= Self::spec_insert(queue.skip(1), queue[0]));
            Self::lemma_insert_adds_one(queue.skip(1), queue[0]);
        }
    }

    /// The queue that `calls`, made in their order on `queue`, leave.
    pub open spec fn spec_after(queue: Seq<Table>, calls: Seq<BusCall>) -> Seq<Table>
        decreases calls.len(),
    {
        if calls.len() == 0 {
            queue
        } else {
            let before = Self::spec_after(queue, calls.drop_last());
            match calls.last() {
                BusCall::Insert(table) => Self::spec_insert(before, table),
                BusCall::Pop => Self::spec_pop(before).1,
            }
        }
    }

    /// The tables that `calls` insert, each as often as it is inserted.
    pub open spec fn spec_inserted(calls: Seq<BusCall>) -> Multiset<Table>
        decreases calls.len(),
    {
        if calls.len() == 0 {
            Multiset::empty()
        } else {
            let before = Self::spec_inserted(calls.drop_last());
            match calls.last() {
                BusCall::Insert(table) => before.insert(table),
                BusCall::Pop => before,
            }
        }
    }

    /// The tables that the pops among `calls`, made in their order on
    /// `queue`, hand out, each as often as it is handed out.
    pub open spec fn spec_received(queue: Seq<Table>, calls: Seq<BusCall>) -> Multiset<Table>
        decreases calls.len(),
    {
        if calls.len() == 0 {
            Multiset::empty()
        } else {
            let before = Self::spec_received(queue, calls.drop_last());
            match calls.last() {
                BusCall::Insert(table) => before,
                BusCall::Pop => match Self::spec_pop(
                    Self::spec_after(queue, calls.drop_last()),
                ).0 {
                    Some(table) => before.insert(table),
                    None => before,
                },
            }
        }
    }

    /// Whatever calls reach a bus and in whatever order, no table is lost
    /// and none is handed out twice: the tables queued at first together
    /// with the tables inserted are the tables handed out together with
    /// the tables still queued, each counted as often as it occurs.
    pub proof fn lemma_calls_balance(queue: Seq<Table>, calls: Seq<BusCall>)
        ensures
            queue.to_multiset().add(Self::spec_inserted(calls)) == Self::spec_received(
                queue,
                calls,
            ).add(Self::spec_after(queue, calls).to_multiset()),
        decreases calls.len(),
    {
        if calls.len() == 0 {
            lemma_add_commutes(queue.to_multiset(), Multiset::empty());
        } else {
            let earlier = calls.drop_last();
            let before = Self::spec_after(queue, earlier);
            let inserted = Self::spec_inserted(earlier);
            let received = Self::spec_received(queue, earlier);
            Self::lemma_calls_balance(queue, earlier);
            match calls.last() {
                BusCall::Insert(table) => {
                    Self::lemma_insert_adds_one(before, table);
                    lemma_add_insert(queue.to_multiset(), inserted, table);
                    lemma_add_insert(received, before.to_multiset(), table);
                },
                BusCall::Pop => {
                    Self::lemma_pop_removes_one(before);
                    match Self::spec_pop(before).0 {
                        Some(table) => {
                            let rest = Self::spec_pop(before).1.to_multiset();
                            lemma_add_insert(received, rest, table);
                            lemma_add_commutes(received, rest);
                            lemma_add_commutes(received.insert(table), rest);
                            lemma_add_insert(rest, received, table);
                        },
                        None => {},
                    }
                },
            }
        }
    }
}

/// Adding two multisets does not depend on their order.
proof fn lemma_add_commutes(a: Multiset<Table>, b: Multiset<Table>)
    ensures
        a.add(b) == b.add(a),
{
    broadcast use vstd::multiset::group_multiset_axioms;

    assert(a.add(b) =~= b.add(a));
}

/// One more occurrence in the second of two multisets is one more in
/// their sum.
proof fn lemma_add_insert(a: Multiset<Table>, b: Multiset<Table>, table: Table)
    ensures
        a.add(b.insert(table)) == a.add(b).insert(table),
{
    broadcast use vstd::multiset::group_multiset_axioms;

    assert(a.add(b.insert(table)) =~= a.add(b).insert(table));
}

} // verus!
