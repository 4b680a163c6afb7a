//! The alive positions that the record lists: the rows of the table of
//! alive positions joined with the historic rows of the same token.

use crate::domain::short_position::ShortPositionView;
use crate::feeders::alive_set::{
    are_distinct,
    carried_out,
    holds_exactly,
    is_alive_pair,
    is_fresh,
    is_valid_listing,
    key_of,
    lemma_alive_positions_become_the_current_ones,
    record_of,
};
use crate::feeders::ibex_short_provider::{due_mutations, StoredView, VOID_TOKEN};
use crate::feeders::record::{HistoricRow, Record};
use vstd::multiset::group_multiset_axioms;
use vstd::prelude::*;
use vstd::seq_lib::{lemma_multiset_commutative, to_multiset_build, to_multiset_contains};

verus! {

/// The positions of the historic rows with the given token, in the order
/// of the table.
pub open spec fn stated_under(historic: Seq<HistoricRow>, token: u128) -> Seq<ShortPositionView>
    decreases historic.len(),
{
    if historic.len() == 0 {
        Seq::empty()
    } else if historic.last().token == token {
        stated_under(historic.drop_last(), token).push(historic.last().position)
    } else {
        stated_under(historic.drop_last(), token)
    }
}

/// The join of the two tables: for each row of the table of alive
/// positions, in its order, the positions of the historic rows with its
/// token.
pub open spec fn joined(alive: Seq<u128>, historic: Seq<HistoricRow>) -> Seq<ShortPositionView>
    decreases alive.len(),
{
    if alive.len() == 0 {
        Seq::empty()
    } else {
        joined(alive.drop_last(), historic) + stated_under(historic, alive.last())
    }
}

/// The alive positions that the record lists. A row with the void token
/// lists nothing in a record without historic row under the void token.
pub open spec fn alive_positions(record: Record) -> Seq<ShortPositionView> {
    joined(record.alive, record.historic)
}

/// One of the first `upto` historic rows states the position under the
/// token.
spec fn is_stated(
    historic: Seq<HistoricRow>,
    token: u128,
    position: ShortPositionView,
    upto: int,
) -> bool {
    exists|h: int|
        0 <= h < upto && h < historic.len() && (#[trigger] historic[h]).token == token
            && historic[h].position == position
}

/// One of the first `upto` rows of the table of alive positions makes the
/// position alive.
spec fn is_alive_upto(record: Record, position: ShortPositionView, upto: int) -> bool {
    exists|a: int, h: int|
        0 <= a < upto && #[trigger] is_alive_pair(record, a, h) && record.historic[h].position
            == position
}

/// No position is alive in two rows.
spec fn is_alive_once(record: Record) -> bool {
    forall|a: int, h: int, b: int, g: int|
        #![trigger is_alive_pair(record, a, h), is_alive_pair(record, b, g)]
        is_alive_pair(record, a, h) && is_alive_pair(record, b, g) && record.historic[h].position
            == record.historic[g].position ==> a == b && h == g
}

/// How often a position comes among those stated under a token, when at
/// most one historic row states it under that token.
proof fn lemma_count_under(
    historic: Seq<HistoricRow>,
    token: u128,
    position: ShortPositionView,
    upto: int,
)
    requires
        0 <= upto <= historic.len(),
        forall|h: int, g: int|
            #![trigger historic[h], historic[g]]
            0 <= h < historic.len() && 0 <= g < historic.len() && historic[h].token == token
                && historic[g].token == token && historic[h].position == position
                && historic[g].position == position ==> h == g,
    ensures
        stated_under(historic.take(upto), token).to_multiset().count(position) == if is_stated(
            historic,
            token,
            position,
            upto,
        ) {
            1nat
        } else {
            0nat
        },
    decreases upto,
{
    broadcast use group_multiset_axioms;

    if upto == 0 {
        assert(historic.take(0) =~= Seq::<HistoricRow>::empty());
        assert(stated_under(historic.take(0), token) =~= Seq::<ShortPositionView>::empty());
        assert(Seq::<ShortPositionView>::empty().to_multiset().count(position) == 0) by {
            to_multiset_contains(Seq::<ShortPositionView>::empty(), position);
        }
    } else {
        lemma_count_under(historic, token, position, upto - 1);
        let row = historic[upto - 1];
        let before = stated_under(historic.take(upto - 1), token);
        assert(historic.take(upto).drop_last() =~= historic.take(upto - 1));
        assert(historic.take(upto).last() == row);
        if is_stated(historic, token, position, upto - 1) {
            let h = choose|h: int|
                0 <= h < upto - 1 && h < historic.len() && (#[trigger] historic[h]).token == token
                    && historic[h].position == position;
            assert(0 <= h < upto && historic[h].token == token);
            assert(is_stated(historic, token, position, upto));
            if row.token == token && row.position == position {
                assert(historic[upto - 1].token == token && historic[h].token == token);
                assert(h == upto - 1);
            }
        }
        if row.token == token {
            to_multiset_build(before, row.position);
            if row.position == position {
                assert(is_stated(historic, token, position, upto));
            }
        }
        if is_stated(historic, token, position, upto) && !is_stated(
            historic,
            token,
            position,
            upto - 1,
        ) {
            let h = choose|h: int|
                0 <= h < upto && h < historic.len() && (#[trigger] historic[h]).token == token
                    && historic[h].position == position;
            assert(h == upto - 1);
        }
    }
}

/// How often a position comes in the join of the first `upto` rows of the
/// table of alive positions, when no position is alive in two rows.
proof fn lemma_count_joined(record: Record, position: ShortPositionView, upto: int)
    requires
        0 <= upto <= record.alive.len(),
        is_alive_once(record),
    ensures
        joined(record.alive.take(upto), record.historic).to_multiset().count(position)
            == if is_alive_upto(record, position, upto) {
            1nat
        } else {
            0nat
        },
    decreases upto,
{
    broadcast use group_multiset_axioms;

    if upto == 0 {
        assert(record.alive.take(0) =~= Seq::<u128>::empty());
        assert(joined(record.alive.take(0), record.historic) =~= Seq::<ShortPositionView>::empty());
        assert(Seq::<ShortPositionView>::empty().to_multiset().count(position) == 0) by {
            to_multiset_contains(Seq::<ShortPositionView>::empty(), position);
        }
    } else {
        lemma_count_joined(record, position, upto - 1);
        let token = record.alive[upto - 1];
        let historic = record.historic;
        let before = joined(record.alive.take(upto - 1), historic);
        let under = stated_under(historic, token);
        assert(record.alive.take(upto).drop_last() =~= record.alive.take(upto - 1));
        assert(record.alive.take(upto).last() == token);
        assert forall|h: int, g: int|
            #![trigger historic[h], historic[g]]
            0 <= h < historic.len() && 0 <= g < historic.len() && historic[h].token == token
                && historic[g].token == token && historic[h].position == position
                && historic[g].position == position implies h == g by {
            assert(is_alive_pair(record, upto - 1, h) && is_alive_pair(record, upto - 1, g));
        }
        lemma_count_under(historic, token, position, historic.len() as int);
        assert(historic.take(historic.len() as int) =~= historic);
        lemma_multiset_commutative(before, under);
        if is_stated(historic, token, position, historic.len() as int) {
            let h = choose|h: int|
                0 <= h < historic.len() && h < historic.len() && (#[trigger] historic[h]).token
                    == token && historic[h].position == position;
            assert(is_alive_pair(record, upto - 1, h));
            assert(is_alive_upto(record, position, upto));
            if is_alive_upto(record, position, upto - 1) {
                let (a, g) = choose|a: int, g: int|
                    0 <= a < upto - 1 && #[trigger] is_alive_pair(record, a, g)
                        && record.historic[g].position == position;
                assert(a == upto - 1);
            }
        }
        if is_alive_upto(record, position, upto - 1) {
            let (a, g) = choose|a: int, g: int|
                0 <= a < upto - 1 && #[trigger] is_alive_pair(record, a, g)
                    && record.historic[g].position == position;
            assert(0 <= a < upto && is_alive_pair(record, a, g));
            assert(is_alive_upto(record, position, upto));
        }
        if is_alive_upto(record, position, upto) && !is_alive_upto(record, position, upto - 1) {
            let (a, g) = choose|a: int, g: int|
                0 <= a < upto && #[trigger] is_alive_pair(record, a, g)
                    && record.historic[g].position == position;
            assert(a == upto - 1);
            assert(historic[g].token == token);
            assert(is_stated(historic, token, position, historic.len() as int));
        }
    }
}

/// How often a position comes among the first `upto` of positions that
/// all differ.
proof fn lemma_count_distinct(positions: Seq<ShortPositionView>, position: ShortPositionView, upto: int)
    requires
        0 <= upto <= positions.len(),
        forall|i: int, k: int|
            0 <= i < positions.len() && 0 <= k < positions.len() && i != k
                ==> #[trigger] positions[i] != #[trigger] positions[k],
    ensures
        positions.take(upto).to_multiset().count(position) == if positions.take(upto).contains(
            position,
        ) {
            1nat
        } else {
            0nat
        },
    decreases upto,
{
    broadcast use group_multiset_axioms;

    let now = positions.take(upto);
    to_multiset_contains(now, position);
    if upto > 0 {
        lemma_count_distinct(positions, position, upto - 1);
        let before = positions.take(upto - 1);
        assert(now =~= before.push(positions[upto - 1]));
        to_multiset_build(before, positions[upto - 1]);
        if positions[upto - 1] == position && before.contains(position) {
            let i = choose|i: int| 0 <= i < before.len() && before[i] == position;
            assert(positions[i] == position);
            assert(positions[i] != positions[upto - 1]);
        }
    }
}

/// Tables whose alive positions are exactly the given ones, each once,
/// list those positions, each as often as it is given.
pub proof fn lemma_exact_record_lists(record: Record, positions: Seq<ShortPositionView>)
    requires
        holds_exactly(record, positions),
        forall|i: int, k: int|
            0 <= i < positions.len() && 0 <= k < positions.len() && i != k
                ==> #[trigger] positions[i] != #[trigger] positions[k],
    ensures
        alive_positions(record).to_multiset() == positions.to_multiset(),
{
    let listed = alive_positions(record);
    assert(is_alive_once(record));
    assert forall|position: ShortPositionView|
        listed.to_multiset().count(position) == positions.to_multiset().count(position) by {
        lemma_count_joined(record, position, record.alive.len() as int);
        lemma_count_distinct(positions, position, positions.len() as int);
        assert(record.alive.take(record.alive.len() as int) =~= record.alive);
        assert(positions.take(positions.len() as int) =~= positions);
        if is_alive_upto(record, position, record.alive.len() as int) {
            let (a, h) = choose|a: int, h: int|
                0 <= a < record.alive.len() && #[trigger] is_alive_pair(record, a, h)
                    && record.historic[h].position == position;
            let i = choose|i: int|
                0 <= i < positions.len() && #[trigger] positions[i] == record.historic[h].position;
            assert(positions.contains(position));
        }
        if positions.contains(position) {
            let i = choose|i: int| 0 <= i < positions.len() && positions[i] == position;
            let (a, h) = choose|a: int, h: int|
                is_alive_pair(record, a, h) && record.historic[h].position == positions[i];
            assert(is_alive_upto(record, position, record.alive.len() as int));
        }
    }
    assert(listed.to_multiset() =~= positions.to_multiset());
}

/// Reconciliation is complete. Take the alive rows that a valid record
/// lists for a company, and current positions of which no two are of the
/// same owner against the same asset. Carry out the mutations that are due,
/// each under a token that is new: neither the void one, nor one of a
/// stored row, nor one of another mutation. Then the record lists the
/// current positions, each as often as it is stated today.
pub proof fn lemma_record_lists_the_current_positions(
    current: Seq<ShortPositionView>,
    stored: Seq<StoredView>,
    tokens: spec_fn(int) -> u128,
)
    requires
        is_valid_listing(stored),
        are_distinct(current),
        forall|k: int| #[trigger] tokens(k) != VOID_TOKEN && is_fresh(tokens(k), stored),
        forall|k: int, l: int|
            0 <= k < l < due_mutations(current, stored).len() ==> #[trigger] tokens(k)
                != #[trigger] tokens(l),
    ensures
        alive_positions(
            carried_out(record_of(stored), due_mutations(current, stored), tokens),
        ).to_multiset() == current.to_multiset(),
{
    lemma_alive_positions_become_the_current_ones(current, stored, tokens);
    assert forall|i: int, k: int|
        0 <= i < current.len() && 0 <= k < current.len() && i != k implies #[trigger] current[i]
        != #[trigger] current[k] by {
        assert(key_of(current[i]) != key_of(current[k]));
    }
    lemma_exact_record_lists(
        carried_out(record_of(stored), due_mutations(current, stored), tokens),
        current,
    );
}

} // verus!
