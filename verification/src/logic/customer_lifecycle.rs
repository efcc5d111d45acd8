//! The customer lifecycle on the occupancy map: taking a seat at an empty
//! table, ordering, eating, leaving, and tables being cleaned.

use vstd::prelude::*;
use crate::base::components::{ChairState, EntityId, TableState, EXIT_POSITION};
use crate::sim::components::CustomerPhase;

verus! {

/// A chair bound to a table: its entity, cell, and the table's position in
/// the table list (`None` when the table has no state).
#[derive(Clone, Copy, Debug, PartialEq, Eq)]
pub struct ChairSeat {
    pub entity: EntityId,
    pub pos: (i32, i32),
    pub table: Option<usize>,
}

/// A customer sent to a chair, given by its entity and its position in the
/// chair list.
#[derive(Clone, Copy, Debug, PartialEq, Eq)]
pub struct SeatAssignment {
    pub customer: EntityId,
    pub chair: EntityId,
    pub seat: usize,
    pub target: (i32, i32),
}

/// Every chair's table lies in the table list.
pub open spec fn tables_known(chairs: Seq<ChairSeat>, n: int) -> bool {
    forall|k: int| 0 <= k < chairs.len() && (#[trigger] chairs[k]).table is Some ==> chairs[k].table->0 < n
}

/// The chair's table exists and is empty.
pub open spec fn chair_open(ch: ChairSeat, tables: Seq<TableState>) -> bool {
    match ch.table {
        Some(t) => 0 <= t < tables.len() && tables[t as int] == TableState::Empty,
        None => false,
    }
}

/// The first chair whose table is empty.
pub open spec fn first_open(chairs: Seq<ChairSeat>, tables: Seq<TableState>) -> Option<int> {
    if exists|k: int| 0 <= k < chairs.len() && chair_open(#[trigger] chairs[k], tables) {
        Some(
            choose|k: int|
                0 <= k < chairs.len() && chair_open(chairs[k], tables) && forall|j: int|
                    0 <= j < k ==> !chair_open(#[trigger] chairs[j], tables),
        )
    } else {
        None
    }
}

/// Entering customers, one at a time in order, take the first chair whose
/// table is empty: the table becomes occupied, the chair reserved, and the
/// customer walks to the chair. The result is the new table and chair states
/// and the assignments made.
pub open spec fn spec_seat_customers(
    customers: Seq<(EntityId, CustomerPhase)>,
    chairs: Seq<ChairSeat>,
    tables: Seq<TableState>,
    chair_states: Seq<ChairState>,
) -> (Seq<TableState>, Seq<ChairState>, Seq<SeatAssignment>)
    decreases customers.len(),
{
    if customers.len() == 0 {
        (tables, chair_states, Seq::empty())
    } else {
        let c = customers[0];
        if c.1 != CustomerPhase::Entering {
            spec_seat_customers(customers.skip(1), chairs, tables, chair_states)
        } else {
            match first_open(chairs, tables) {
                Some(k) => {
                    let ch = chairs[k];
                    let rest = spec_seat_customers(
                        customers.skip(1),
                        chairs,
                        tables.update(ch.table->0 as int, TableState::Occupied),
                        chair_states.update(k, ChairState::Reserved),
                    );
                    (rest.0, rest.1, seq![SeatAssignment { customer: c.0, chair: ch.entity, seat: k as usize, target: ch.pos }] + rest.2)
                },
                None => spec_seat_customers(customers.skip(1), chairs, tables, chair_states),
            }
        }
    }
}

proof fn lemma_first_open_exists(chairs: Seq<ChairSeat>, tables: Seq<TableState>, w: int)
    requires
        0 <= w < chairs.len(),
        chair_open(chairs[w], tables),
    ensures
        exists|k: int|
            0 <= k < chairs.len() && chair_open(chairs[k], tables) && forall|j: int|
                0 <= j < k ==> !chair_open(#[trigger] chairs[j], tables),
    decreases w,
{
    if exists|j: int| 0 <= j < w && chair_open(#[trigger] chairs[j], tables) {
        let j = choose|j: int| 0 <= j < w && chair_open(#[trigger] chairs[j], tables);
        lemma_first_open_exists(chairs, tables, j);
    } else {
        assert(forall|j: int| 0 <= j < w ==> !chair_open(#[trigger] chairs[j], tables));
    }
}

/// What `first_open` names: the first chair at an empty table.
pub proof fn lemma_first_open(chairs: Seq<ChairSeat>, tables: Seq<TableState>)
    ensures
        match first_open(chairs, tables) {
            Some(k) => 0 <= k < chairs.len() && chair_open(chairs[k], tables) && forall|j: int|
                0 <= j < k ==> !chair_open(#[trigger] chairs[j], tables),
            None => forall|j: int| 0 <= j < chairs.len() ==> !chair_open(#[trigger] chairs[j], tables),
        },
{
    if exists|k: int| 0 <= k < chairs.len() && chair_open(#[trigger] chairs[k], tables) {
        let w = choose|k: int| 0 <= k < chairs.len() && chair_open(#[trigger] chairs[k], tables);
        lemma_first_open_exists(chairs, tables, w);
    }
}

fn find_open(chairs: &[ChairSeat], tables: &Vec<TableState>) -> (r: Option<usize>)
    ensures
        opt(r) == first_open(chairs@, tables@),
        r matches Some(k) ==> k < chairs@.len() && chair_open(chairs@[k as int], tables@),
{
    let mut i: usize = 0;
    while i < chairs.len()
        invariant
            0 <= i <= chairs@.len(),
            forall|j: int| 0 <= j < i ==> !chair_open(#[trigger] chairs@[j], tables@),
        decreases chairs@.len() - i,
    {
        let open = match chairs[i].table {
            Some(t) => t < tables.len() && tables[t] == TableState::Empty,
            None => false,
        };
        if open {
            proof {
                assert(chair_open(chairs@[i as int], tables@));
                let w = choose|k: int|
                    0 <= k < chairs@.len() && chair_open(chairs@[k], tables@) && forall|j: int|
                        0 <= j < k ==> !chair_open(#[trigger] chairs@[j], tables@);
                if w < i {
                    assert(!chair_open(chairs@[w], tables@));
                }
                if i < w {
                    assert(!chair_open(chairs@[i as int], tables@));
                }
            }
            return Some(i);
        }
        i = i + 1;
    }
    None
}

/// An option of a position, as a whole number.
pub open spec fn opt(r: Option<usize>) -> Option<int> {
    match r {
        Some(i) => Some(i as int),
        None => None,
    }
}

/// The table of an assigned seat.
pub open spec fn seat_table(chairs: Seq<ChairSeat>, a: SeatAssignment) -> int {
    chairs[a.seat as int].table->0 as int
}

/// A table takes at most one party: every assigned seat is at a table that
/// was empty and ends occupied, no two assignments share a table, and the
/// only tables that change go from empty to occupied.
pub proof fn law_one_party_per_table(
    customers: Seq<(EntityId, CustomerPhase)>,
    chairs: Seq<ChairSeat>,
    tables: Seq<TableState>,
    chair_states: Seq<ChairState>,
)
    requires
        tables_known(chairs, tables.len() as int),
        chairs.len() <= usize::MAX,
    ensures
        ({
            let r = spec_seat_customers(customers, chairs, tables, chair_states);
            &&& r.0.len() == tables.len()
            &&& forall|t: int|
                0 <= t < tables.len() ==> #[trigger] r.0[t] == tables[t] || (tables[t] == TableState::Empty && r.0[t]
                    == TableState::Occupied)
            &&& forall|i: int|
                0 <= i < r.2.len() ==> {
                    &&& (#[trigger] r.2[i]).seat < chairs.len()
                    &&& chairs[r.2[i].seat as int].table is Some
                    &&& 0 <= seat_table(chairs, r.2[i]) < tables.len()
                    &&& tables[seat_table(chairs, r.2[i])] == TableState::Empty
                    &&& r.0[seat_table(chairs, r.2[i])] == TableState::Occupied
                }
            &&& forall|i: int, j: int| 0 <= i < j < r.2.len() ==> seat_table(chairs, #[trigger] r.2[i]) != seat_table(chairs, #[trigger] r.2[j])
        }),
    decreases customers.len(),
{
    let r = spec_seat_customers(customers, chairs, tables, chair_states);
    if customers.len() == 0 {
    } else {
        let c = customers[0];
        if c.1 != CustomerPhase::Entering {
            law_one_party_per_table(customers.skip(1), chairs, tables, chair_states);
        } else {
            lemma_first_open(chairs, tables);
            match first_open(chairs, tables) {
                Some(k) => {
                    let ch = chairs[k];
                    let t0 = ch.table->0 as int;
                    assert(chair_open(chairs[k], tables));
                    let tables2 = tables.update(t0, TableState::Occupied);
                    let cs2 = chair_states.update(k, ChairState::Reserved);
                    law_one_party_per_table(customers.skip(1), chairs, tables2, cs2);
                    let rest = spec_seat_customers(customers.skip(1), chairs, tables2, cs2);
                    let a0 = SeatAssignment { customer: c.0, chair: ch.entity, seat: k as usize, target: ch.pos };
                    assert(r.2 == seq![a0] + rest.2);
                    assert(seat_table(chairs, a0) == t0);
                    assert forall|i: int| 0 <= i < r.2.len() implies {
                        &&& (#[trigger] r.2[i]).seat < chairs.len()
                        &&& chairs[r.2[i].seat as int].table is Some
                        &&& 0 <= seat_table(chairs, r.2[i]) < tables.len()
                        &&& tables[seat_table(chairs, r.2[i])] == TableState::Empty
                        &&& r.0[seat_table(chairs, r.2[i])] == TableState::Occupied
                    } by {
                        if i == 0 {
                            assert(rest.0[t0] == tables2[t0] || (tables2[t0] == TableState::Empty && rest.0[t0] == TableState::Occupied));
                        } else {
                            assert(r.2[i] == rest.2[i - 1]);
                            let t = seat_table(chairs, rest.2[i - 1]);
                            assert(tables2[t] == TableState::Empty);
                        }
                    }
                    assert forall|i: int, j: int| 0 <= i < j < r.2.len() implies seat_table(chairs, #[trigger] r.2[i]) != seat_table(
                        chairs,
                        #[trigger] r.2[j],
                    ) by {
                        assert(r.2[j] == rest.2[j - 1]);
                        if i == 0 {
                            let t = seat_table(chairs, rest.2[j - 1]);
                            assert(tables2[t] == TableState::Empty);
                        } else {
                            assert(r.2[i] == rest.2[i - 1]);
                        }
                    }
                    assert forall|t: int| 0 <= t < tables.len() implies #[trigger] r.0[t] == tables[t] || (tables[t] == TableState::Empty
                        && r.0[t] == TableState::Occupied) by {
                        assert(rest.0[t] == tables2[t] || (tables2[t] == TableState::Empty && rest.0[t] == TableState::Occupied));
                    }
                },
                None => {
                    law_one_party_per_table(customers.skip(1), chairs, tables, chair_states);
                },
            }
        }
    }
}

/// Seats the entering customers as `spec_seat_customers` describes, updating
/// the table and chair states in place.
pub fn customer_find_seat_system(
    customers: &[(EntityId, CustomerPhase)],
    chairs: &[ChairSeat],
    tables: &mut Vec<TableState>,
    chair_states: &mut Vec<ChairState>,
) -> (r: Vec<SeatAssignment>)
    requires
        tables_known(chairs@, old(tables)@.len() as int),
        old(chair_states)@.len() == chairs@.len(),
    ensures
        (final(tables)@, final(chair_states)@, r@) == spec_seat_customers(customers@, chairs@, old(tables)@, old(chair_states)@),
{
    let ghost target = spec_seat_customers(customers@, chairs@, tables@, chair_states@);
    let mut out: Vec<SeatAssignment> = Vec::new();
    let mut i: usize = 0;
    proof {
        assert(customers@.skip(0) =~= customers@);
        assert(out@ + target.2 =~= target.2);
    }
    while i < customers.len()
        invariant
            0 <= i <= customers@.len(),
            tables_known(chairs@, tables@.len() as int),
            chair_states@.len() == chairs@.len(),
            ({
                let rest = spec_seat_customers(customers@.skip(i as int), chairs@, tables@, chair_states@);
                target == (rest.0, rest.1, out@ + rest.2)
            }),
        decreases customers@.len() - i,
    {
        let (c, phase) = customers[i];
        proof {
            assert(customers@.skip(i as int).skip(1) =~= customers@.skip(i + 1));
            assert(customers@.skip(i as int)[0] == customers@[i as int]);
        }
        if phase == CustomerPhase::Entering {
            match find_open(chairs, tables) {
                Some(k) => {
                    let ch = chairs[k];
                    let t = match ch.table {
                        Some(t) => t,
                        None => 0,
                    };
                    let a = SeatAssignment { customer: c, chair: ch.entity, seat: k, target: ch.pos };
                    tables.set(t, TableState::Occupied);
                    chair_states.set(k, ChairState::Reserved);
                    proof {
                        let rest = spec_seat_customers(customers@.skip(i + 1), chairs@, tables@, chair_states@);
                        assert(out@.push(a) + rest.2 =~= out@ + (seq![a] + rest.2));
                    }
                    out.push(a);
                },
                None => {},
            }
        }
        i = i + 1;
    }
    proof {
        assert(out@ + Seq::<SeatAssignment>::empty() =~= out@);
    }
    out
}

/// A customer walking to a seat who arrived orders when the table is
/// occupied (it becomes `Ordered` and joins the order queue: `Some(true)`),
/// waits anyway when the table has no state (`Some(false)`), and keeps
/// walking (`None`) when the table is in any other state.
pub fn customer_arrive_at_seat_system(phase: CustomerPhase, table: Option<TableState>) -> (r: Option<bool>)
    ensures
        r == if phase != CustomerPhase::WalkingToSeat {
            None
        } else {
            match table {
                Some(t) => if t == TableState::Occupied { Some(true) } else { None },
                None => Some(false),
            }
        },
{
    if phase != CustomerPhase::WalkingToSeat {
        return None;
    }
    match table {
        Some(t) => {
            if t != TableState::Occupied {
                None
            } else {
                Some(true)
            }
        },
        None => Some(false),
    }
}

/// What a frame of eating does to a customer.
#[derive(Clone, Copy, Debug, PartialEq, Eq)]
pub enum EatingStep {
    Unchanged,
    /// The food arrived: start the eating timer.
    StartEating,
    /// The timer ran out: walk to the exit and leave.
    Leave((i32, i32)),
}

/// A waiting customer starts eating once the table is served; an eating one
/// whose timer ran out leaves for the exit.
pub fn customer_eating_system(phase: CustomerPhase, table: Option<TableState>, timer_done: bool) -> (r: EatingStep)
    ensures
        r == if phase == CustomerPhase::WaitingForFood && table == Some(TableState::Served) {
            EatingStep::StartEating
        } else if phase == CustomerPhase::Eating && timer_done {
            EatingStep::Leave(EXIT_POSITION)
        } else {
            EatingStep::Unchanged
        },
{
    if phase == CustomerPhase::WaitingForFood && table == Some(TableState::Served) {
        return EatingStep::StartEating;
    }
    if phase == CustomerPhase::Eating && timer_done {
        return EatingStep::Leave(EXIT_POSITION);
    }
    EatingStep::Unchanged
}

/// A leaving customer at the exit is removed and leaves the table dirty (when
/// it has a state); the result is the table's new state, `None` for
/// customers in other phases.
pub fn customer_exit_and_despawn_system(phase: CustomerPhase, table: Option<TableState>) -> (r: Option<Option<TableState>>)
    ensures
        r == if phase == CustomerPhase::Leaving {
            Some(if table is Some { Some(TableState::Dirty) } else { None })
        } else {
            None
        },
{
    if phase != CustomerPhase::Leaving {
        return None;
    }
    Some(if table.is_some() { Some(TableState::Dirty) } else { None })
}

/// Dirty tables become empty and free every chair bound to them; the result
/// says which chairs are now available. `chair_tables` gives each chair's
/// table position.
pub fn cleanup_table_system(tables: &mut Vec<TableState>, chair_tables: &[Option<usize>], chair_states: &mut Vec<ChairState>)
    requires
        old(chair_states)@.len() == chair_tables@.len(),
    ensures
        final(tables)@.len() == old(tables)@.len(),
        forall|k: int|
            0 <= k < old(tables)@.len() ==> #[trigger] final(tables)@[k] == if old(tables)@[k] == TableState::Dirty {
                TableState::Empty
            } else {
                old(tables)@[k]
            },
        final(chair_states)@.len() == old(chair_states)@.len(),
        forall|c: int|
            0 <= c < chair_tables@.len() ==> #[trigger] final(chair_states)@[c] == match chair_tables@[c] {
                Some(t) => if 0 <= t < old(tables)@.len() && old(tables)@[t as int] == TableState::Dirty {
                    ChairState::Available
                } else {
                    old(chair_states)@[c]
                },
                None => old(chair_states)@[c],
            },
{
    let ghost pre_t = tables@;
    let ghost pre_c = chair_states@;
    let mut i: usize = 0;
    while i < tables.len()
        invariant
            0 <= i <= tables@.len(),
            tables@.len() == pre_t.len(),
            chair_states@.len() == chair_tables@.len(),
            pre_c.len() == chair_tables@.len(),
            forall|k: int|
                0 <= k < tables@.len() ==> #[trigger] tables@[k] == if k < i && pre_t[k] == TableState::Dirty {
                    TableState::Empty
                } else {
                    pre_t[k]
                },
            forall|c: int|
                0 <= c < chair_tables@.len() ==> #[trigger] chair_states@[c] == match chair_tables@[c] {
                    Some(t) => if t < i && pre_t[t as int] == TableState::Dirty {
                        ChairState::Available
                    } else {
                        pre_c[c]
                    },
                    None => pre_c[c],
                },
        decreases tables@.len() - i,
    {
        if tables[i] == TableState::Dirty {
            tables.set(i, TableState::Empty);
            let mut c: usize = 0;
            while c < chair_tables.len()
                invariant
                    0 <= i < tables@.len(),
                    0 <= c <= chair_tables@.len(),
                    tables@.len() == pre_t.len(),
                    pre_t[i as int] == TableState::Dirty,
                    chair_states@.len() == chair_tables@.len(),
                    pre_c.len() == chair_tables@.len(),
                    forall|d: int|
                        0 <= d < chair_tables@.len() ==> #[trigger] chair_states@[d] == match chair_tables@[d] {
                            Some(t) => if (t < i || (t == i && d < c)) && pre_t[t as int] == TableState::Dirty {
                                ChairState::Available
                            } else {
                                pre_c[d]
                            },
                            None => pre_c[d],
                        },
                decreases chair_tables@.len() - c,
            {
                if chair_tables[c] == Some(i) {
                    chair_states.set(c, ChairState::Available);
                }
                c = c + 1;
            }
        }
        i = i + 1;
    }
}

} // verus!
