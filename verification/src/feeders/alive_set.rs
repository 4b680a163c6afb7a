//! The alive positions of a company, and what the mutations of a
//! reconciliation do to them.
//!
//! A company has at most one alive position for each owner, so its alive
//! positions are seen here as a map from owner and ticker to the alive row
//! of that owner: its token and the position that it states. The first
//! half of the module says what the mutations of a reconciliation do to
//! that map; the second half ties the map to the two tables of the record,
//! and the mutations to the statements of their transactions.

use crate::domain::short_position::ShortPositionView;
use crate::feeders::ibex_short_provider::{
    due_mutations,
    first_corrupt,
    first_held,
    is_dropped,
    is_known,
    retirements,
    stopped_by,
    write_for,
    writes,
    MutationView,
    StoredView,
    VOID_TOKEN,
};
use crate::feeders::record::{
    lemma_history_is_kept,
    protocol,
    HistoricRow,
    Record,
    StatementView,
};
use vstd::prelude::*;

verus! {

/// An alive row: the token in the table of alive positions, and the
/// position of the historic row with that token.
pub struct AliveEntry {
    pub token: u128,
    pub position: ShortPositionView,
}

/// What tells a position from any other: its owner and its ticker.
pub open spec fn key_of(position: ShortPositionView) -> (Seq<char>, Seq<char>) {
    (position.owner, position.ticker)
}

/// The stored row lacks nothing.
pub open spec fn is_complete(row: StoredView) -> bool {
    row.id is Some && row.owner is Some && row.ticker is Some && row.weight is Some
        && row.open_date is Some
}

/// The alive row that a complete stored row mirrors.
pub open spec fn entry_of(row: StoredView) -> AliveEntry {
    AliveEntry {
        token: row.id->0,
        position: ShortPositionView {
            owner: row.owner->0,
            weight: row.weight->0,
            open_date: row.open_date->0,
            ticker: row.ticker->0,
        },
    }
}

/// The alive rows without those that have the given token.
pub open spec fn without_token(
    alive: Map<(Seq<char>, Seq<char>), AliveEntry>,
    id: u128,
) -> Map<(Seq<char>, Seq<char>), AliveEntry> {
    Map::new(
        |key: (Seq<char>, Seq<char>)| alive.dom().contains(key) && alive[key].token != id,
        |key: (Seq<char>, Seq<char>)| alive[key],
    )
}

/// Some alive row has the given token.
pub open spec fn has_token(alive: Map<(Seq<char>, Seq<char>), AliveEntry>, id: u128) -> bool {
    exists|key: (Seq<char>, Seq<char>)| alive.dom().contains(key) && (#[trigger] alive[key]).token == id
}

/// The alive rows after a mutation that writes under `token`.
///
/// An insertion adds a row. An update moves the row with the token
/// `active` to the new token and statement; without such a row nothing
/// becomes alive. A retirement takes the row with the given token away.
pub open spec fn mutated(
    alive: Map<(Seq<char>, Seq<char>), AliveEntry>,
    mutation: MutationView,
    token: u128,
) -> Map<(Seq<char>, Seq<char>), AliveEntry> {
    match mutation {
        MutationView::Insert(position) => alive.insert(
            key_of(position),
            AliveEntry { token, position },
        ),
        MutationView::Update { active, position } => if has_token(alive, active) {
            without_token(alive, active).insert(key_of(position), AliveEntry { token, position })
        } else {
            alive
        },
        MutationView::Retire(id) => without_token(alive, id),
    }
}

/// The alive rows after some mutations, applied in their order; the
/// mutation at index `k` writes under the token `tokens(k)`.
pub open spec fn mutated_all(
    alive: Map<(Seq<char>, Seq<char>), AliveEntry>,
    mutations: Seq<MutationView>,
    tokens: spec_fn(int) -> u128,
) -> Map<(Seq<char>, Seq<char>), AliveEntry>
    decreases mutations.len(),
{
    if mutations.len() == 0 {
        alive
    } else {
        mutated(
            mutated_all(alive, mutations.drop_last(), tokens),
            mutations.last(),
            tokens(mutations.len() - 1),
        )
    }
}

/// `stored` lists the alive rows: each stored row is complete and mirrors
/// the alive row of its owner, each alive row is mirrored, and no two
/// stored rows share a token.
pub open spec fn is_listing(
    stored: Seq<StoredView>,
    alive: Map<(Seq<char>, Seq<char>), AliveEntry>,
) -> bool {
    &&& forall|j: int|
        0 <= j < stored.len() ==> is_complete(#[trigger] stored[j]) && alive.dom().contains(
            key_of(entry_of(stored[j]).position),
        ) && alive[key_of(entry_of(stored[j]).position)] == entry_of(stored[j])
    &&& forall|key: (Seq<char>, Seq<char>)| #[trigger]
        alive.dom().contains(key) ==> exists|j: int|
            0 <= j < stored.len() && key_of(entry_of(#[trigger] stored[j]).position) == key
    &&& forall|j: int, k: int|
        0 <= j < stored.len() && 0 <= k < stored.len() && j != k ==> (#[trigger] stored[j]).id
            != (#[trigger] stored[k]).id
}

/// No two of the positions are of the same owner against the same asset.
pub open spec fn are_distinct(current: Seq<ShortPositionView>) -> bool {
    forall|i: int, k: int|
        0 <= i < current.len() && 0 <= k < current.len() && i != k ==> key_of(
            #[trigger] current[i],
        ) != key_of(#[trigger] current[k])
}

/// The token is the one of no stored row.
pub open spec fn is_fresh(token: u128, stored: Seq<StoredView>) -> bool {
    forall|j: int| 0 <= j < stored.len() ==> (#[trigger] stored[j]).id != Some(token)
}

/// One of the first `upto` positions has the given owner and ticker.
pub open spec fn is_current_key(
    key: (Seq<char>, Seq<char>),
    current: Seq<ShortPositionView>,
    upto: int,
) -> bool {
    exists|i: int| 0 <= i < upto && i < current.len() && key_of(#[trigger] current[i]) == key
}

/// One of the first `upto` stored rows was dropped and has the given owner
/// and ticker.
pub open spec fn is_retired_key(
    key: (Seq<char>, Seq<char>),
    stored: Seq<StoredView>,
    current: Seq<ShortPositionView>,
    upto: int,
) -> bool {
    exists|j: int|
        0 <= j < upto && j < stored.len() && is_dropped(#[trigger] stored[j], current) && key_of(
            entry_of(stored[j]).position,
        ) == key
}

/// Each row is the alive row that it was, or was written under a fresh
/// token.
spec fn is_tame(
    now: Map<(Seq<char>, Seq<char>), AliveEntry>,
    alive: Map<(Seq<char>, Seq<char>), AliveEntry>,
    stored: Seq<StoredView>,
) -> bool {
    forall|key: (Seq<char>, Seq<char>)| #[trigger]
        now.dom().contains(key) ==> (alive.dom().contains(key) && now[key] == alive[key])
            || is_fresh(now[key].token, stored)
}

/// What holds of the alive rows once the writes for the first `upto`
/// current positions are made.
spec fn is_written(
    now: Map<(Seq<char>, Seq<char>), AliveEntry>,
    alive: Map<(Seq<char>, Seq<char>), AliveEntry>,
    stored: Seq<StoredView>,
    current: Seq<ShortPositionView>,
    upto: int,
) -> bool {
    &&& forall|i: int|
        0 <= i < upto ==> now.dom().contains(key_of(#[trigger] current[i])) && now[key_of(
            current[i],
        )].position == current[i]
    &&& forall|key: (Seq<char>, Seq<char>)|
        #![trigger now.dom().contains(key)]
        #![trigger alive.dom().contains(key)]
        !is_current_key(key, current, upto) ==> (now.dom().contains(key) == alive.dom().contains(
            key,
        )) && (alive.dom().contains(key) ==> now[key] == alive[key])
    &&& is_tame(now, alive, stored)
}

/// What holds of the alive rows once the first `upto` stored rows are
/// looked at for retirement, after the writes that gave `written`.
spec fn is_retired(
    now: Map<(Seq<char>, Seq<char>), AliveEntry>,
    written: Map<(Seq<char>, Seq<char>), AliveEntry>,
    stored: Seq<StoredView>,
    current: Seq<ShortPositionView>,
    upto: int,
) -> bool {
    &&& forall|key: (Seq<char>, Seq<char>)| #[trigger]
        now.dom().contains(key) <==> written.dom().contains(key) && !is_retired_key(
            key,
            stored,
            current,
            upto,
        )
    &&& forall|key: (Seq<char>, Seq<char>)| #[trigger]
        now.dom().contains(key) ==> now[key] == written[key]
}

/// The first row that holds a position does hold it, and there is none
/// only when no row holds it.
proof fn lemma_first_held_holds(stored: Seq<StoredView>, position: ShortPositionView)
    ensures
        match first_held(stored, position) {
            Some(j) => 0 <= j < stored.len() && stored[j].holds(position),
            None => forall|j: int| 0 <= j < stored.len() ==> !(#[trigger] stored[j]).holds(position),
        },
    decreases stored.len(),
{
    if stored.len() > 0 {
        lemma_first_held_holds(stored.drop_last(), position);
        if first_held(stored.drop_last(), position) is None {
            assert forall|j: int| 0 <= j < stored.len() - 1 implies !(#[trigger] stored[j]).holds(
                position,
            ) by {
                assert(stored.drop_last()[j] == stored[j]);
            }
        }
    }
}

/// Complete rows are not corrupt.
proof fn lemma_complete_rows_hydrate(stored: Seq<StoredView>)
    requires
        forall|j: int| 0 <= j < stored.len() ==> is_complete(#[trigger] stored[j]),
    ensures
        first_corrupt(stored) is None,
    decreases stored.len(),
{
    if stored.len() > 0 {
        assert forall|j: int| 0 <= j < stored.len() - 1 implies is_complete(
            #[trigger] stored.drop_last()[j],
        ) by {
            assert(stored.drop_last()[j] == stored[j]);
        }
        lemma_complete_rows_hydrate(stored.drop_last());
        assert(is_complete(stored[stored.len() - 1]));
    }
}

/// Among tame rows listed by `stored`, only the row of the owner of a
/// stored row can have the token of that row.
proof fn lemma_token_is_of_one_row(
    now: Map<(Seq<char>, Seq<char>), AliveEntry>,
    alive: Map<(Seq<char>, Seq<char>), AliveEntry>,
    stored: Seq<StoredView>,
    j: int,
    key: (Seq<char>, Seq<char>),
)
    requires
        is_listing(stored, alive),
        is_tame(now, alive, stored),
        0 <= j < stored.len(),
        now.dom().contains(key),
        now[key].token == stored[j].id->0,
    ensures
        key == key_of(entry_of(stored[j]).position),
        now[key] == entry_of(stored[j]),
{
    assert(is_complete(stored[j]));
    if is_fresh(now[key].token, stored) {
        assert(stored[j].id != Some(now[key].token));
    }
    assert(alive.dom().contains(key) && now[key] == alive[key]);
    let k = choose|k: int|
        0 <= k < stored.len() && key_of(entry_of(#[trigger] stored[k]).position) == key;
    assert(is_complete(stored[k]));
    assert(alive[key] == entry_of(stored[k]));
    if k != j {
        assert(stored[j].id != stored[k].id);
    }
}

/// The writes phase: what the writes for the first `upto` current positions
/// leave.
proof fn lemma_writes_phase(
    current: Seq<ShortPositionView>,
    stored: Seq<StoredView>,
    alive: Map<(Seq<char>, Seq<char>), AliveEntry>,
    tokens: spec_fn(int) -> u128,
    upto: int,
)
    requires
        is_listing(stored, alive),
        are_distinct(current),
        forall|k: int| is_fresh(#[trigger] tokens(k), stored),
        0 <= upto <= current.len(),
    ensures
        is_written(
            mutated_all(alive, writes(current.take(upto), stored), tokens),
            alive,
            stored,
            current,
            upto,
        ),
    decreases upto,
{
    if upto == 0 {
        assert(current.take(0) =~= Seq::<ShortPositionView>::empty());
    } else {
        lemma_writes_phase(current, stored, alive, tokens, upto - 1);
        let position = current[upto - 1];
        let key = key_of(position);
        let before_writes = writes(current.take(upto - 1), stored);
        let before = mutated_all(alive, before_writes, tokens);
        assert(current.take(upto).drop_last() =~= current.take(upto - 1));
        assert(current.take(upto).last() == position);
        let now = mutated_all(alive, writes(current.take(upto), stored), tokens);
        assert(!is_current_key(key, current, upto - 1)) by {
            if is_current_key(key, current, upto - 1) {
                let i = choose|i: int|
                    0 <= i < upto - 1 && i < current.len() && key_of(#[trigger] current[i]) == key;
                assert(key_of(current[i]) != key_of(current[upto - 1]));
            }
        }
        assert forall|other: (Seq<char>, Seq<char>)|
            other != key implies (is_current_key(other, current, upto) <==> is_current_key(
            other,
            current,
            upto - 1,
        )) by {
            if is_current_key(other, current, upto) {
                let i = choose|i: int|
                    0 <= i < upto && i < current.len() && key_of(#[trigger] current[i]) == other;
                assert(0 <= i < upto - 1 && key_of(current[i]) == other);
            }
            if is_current_key(other, current, upto - 1) {
                let i = choose|i: int|
                    0 <= i < upto - 1 && i < current.len() && key_of(#[trigger] current[i])
                        == other;
                assert(0 <= i < upto && key_of(current[i]) == other);
            }
        }
        assert(is_current_key(key, current, upto)) by {
            assert(key_of(current[upto - 1]) == key);
        }
        lemma_first_held_holds(stored, position);
        if is_known(position, stored) {
            let j = choose|j: int| 0 <= j < stored.len() && (#[trigger] stored[j]).states(position);
            assert(is_complete(stored[j]));
            assert(entry_of(stored[j]).position == position);
            assert(now == before);
            assert(before[key] == alive[key]);
            assert(is_written(now, alive, stored, current, upto));
        } else {
            let mutation = write_for(position, stored)->0;
            let token = tokens(before_writes.len() as int);
            assert(is_fresh(token, stored));
            assert(writes(current.take(upto), stored) == before_writes.push(mutation));
            assert(before_writes.push(mutation).drop_last() =~= before_writes);
            assert(now == mutated(before, mutation, token));
            match first_held(stored, position) {
                Some(j) => {
                    assert(is_complete(stored[j]));
                    let active = stored[j].id->0;
                    assert(key_of(entry_of(stored[j]).position) == key);
                    assert(before.dom().contains(key) && before[key] == alive[key]);
                    assert(before[key].token == active);
                    assert(has_token(before, active));
                    assert(mutation == MutationView::Update { active, position });
                    assert forall|other: (Seq<char>, Seq<char>)|
                        other != key && before.dom().contains(other) implies before[other].token
                        != active by {
                        if before[other].token == active {
                            lemma_token_is_of_one_row(before, alive, stored, j, other);
                        }
                    }
                    assert forall|other: (Seq<char>, Seq<char>)| other != key implies (
                    #[trigger] now.dom().contains(other) == before.dom().contains(other)) && (
                    before.dom().contains(other) ==> now[other] == before[other]) by {}
                },
                None => {
                    assert(mutation == MutationView::Insert(position));
                    assert forall|other: (Seq<char>, Seq<char>)| other != key implies (
                    #[trigger] now.dom().contains(other) == before.dom().contains(other)) && (
                    before.dom().contains(other) ==> now[other] == before[other]) by {}
                },
            }
            assert(now.dom().contains(key) && now[key] == AliveEntry { token, position });
            assert forall|i: int| 0 <= i < upto implies now.dom().contains(
                key_of(#[trigger] current[i]),
            ) && now[key_of(current[i])].position == current[i] by {
                if i < upto - 1 {
                    assert(key_of(current[i]) != key_of(current[upto - 1]));
                }
            }
            assert(is_tame(now, alive, stored)) by {
                assert forall|other: (Seq<char>, Seq<char>)| #[trigger]
                    now.dom().contains(other) implies (alive.dom().contains(other) && now[other]
                    == alive[other]) || is_fresh(now[other].token, stored) by {
                    if other != key {
                        assert(before.dom().contains(other));
                    }
                }
            }
            assert(is_written(now, alive, stored, current, upto));
        }
    }
}

/// The retirements phase: what is left once the first `upto` stored rows
/// are looked at, after all the writes.
proof fn lemma_retirements_phase(
    current: Seq<ShortPositionView>,
    stored: Seq<StoredView>,
    alive: Map<(Seq<char>, Seq<char>), AliveEntry>,
    tokens: spec_fn(int) -> u128,
    upto: int,
)
    requires
        is_listing(stored, alive),
        are_distinct(current),
        forall|k: int| is_fresh(#[trigger] tokens(k), stored),
        0 <= upto <= stored.len(),
    ensures
        is_retired(
            mutated_all(
                alive,
                writes(current, stored) + retirements(stored.take(upto), current),
                tokens,
            ),
            mutated_all(alive, writes(current, stored), tokens),
            stored,
            current,
            upto,
        ),
    decreases upto,
{
    let made = writes(current, stored);
    let written = mutated_all(alive, made, tokens);
    if upto == 0 {
        assert(stored.take(0) =~= Seq::<StoredView>::empty());
        assert(made + retirements(stored.take(0), current) =~= made);
    } else {
        lemma_retirements_phase(current, stored, alive, tokens, upto - 1);
        lemma_writes_phase(current, stored, alive, tokens, current.len() as int);
        assert(current.take(current.len() as int) =~= current);
        let row = stored[upto - 1];
        let key = key_of(entry_of(row).position);
        let retired_before = retirements(stored.take(upto - 1), current);
        let before = mutated_all(alive, made + retired_before, tokens);
        let now = mutated_all(alive, made + retirements(stored.take(upto), current), tokens);
        assert(stored.take(upto).drop_last() =~= stored.take(upto - 1));
        assert(stored.take(upto).last() == row);
        assert(is_complete(row));
        if is_dropped(row, current) {
            let id = row.id->0;
            assert(made + retired_before.push(MutationView::Retire(id)) =~= (made
                + retired_before).push(MutationView::Retire(id)));
            assert((made + retired_before).push(MutationView::Retire(id)).drop_last() =~= made
                + retired_before);
            assert(now == without_token(before, id));
            assert(!is_current_key(key, current, current.len() as int)) by {
                if is_current_key(key, current, current.len() as int) {
                    let i = choose|i: int|
                        0 <= i < current.len() && i < current.len() && key_of(
                            #[trigger] current[i],
                        ) == key;
                    assert(row.holds(current[i]));
                }
            }
            assert(alive.dom().contains(key) && alive[key] == entry_of(row));
            assert(is_written(written, alive, stored, current, current.len() as int));
            assert(written.dom().contains(key) && written[key] == entry_of(row));
            assert(is_retired_key(key, stored, current, upto));
            assert forall|other: (Seq<char>, Seq<char>)| #[trigger]
                now.dom().contains(other) <==> written.dom().contains(other) && !is_retired_key(
                    other,
                    stored,
                    current,
                    upto,
                ) by {
                if before.dom().contains(other) && before[other].token == id {
                    lemma_token_is_of_one_row(written, alive, stored, upto - 1, other);
                }
                if is_retired_key(other, stored, current, upto) && !is_retired_key(
                    other,
                    stored,
                    current,
                    upto - 1,
                ) {
                    let j = choose|j: int|
                        0 <= j < upto && j < stored.len() && is_dropped(
                            #[trigger] stored[j],
                            current,
                        ) && key_of(entry_of(stored[j]).position) == other;
                    assert(j == upto - 1);
                }
                if is_retired_key(other, stored, current, upto - 1) {
                    let j = choose|j: int|
                        0 <= j < upto - 1 && j < stored.len() && is_dropped(
                            #[trigger] stored[j],
                            current,
                        ) && key_of(entry_of(stored[j]).position) == other;
                    assert(0 <= j < upto && is_dropped(stored[j], current));
                }
            }
        } else {
            assert(now == before);
            assert forall|other: (Seq<char>, Seq<char>)|
                is_retired_key(other, stored, current, upto) <==> is_retired_key(
                    other,
                    stored,
                    current,
                    upto - 1,
                ) by {
                if is_retired_key(other, stored, current, upto) {
                    let j = choose|j: int|
                        0 <= j < upto && j < stored.len() && is_dropped(
                            #[trigger] stored[j],
                            current,
                        ) && key_of(entry_of(stored[j]).position) == other;
                    assert(0 <= j < upto - 1 && is_dropped(stored[j], current));
                }
                if is_retired_key(other, stored, current, upto - 1) {
                    let j = choose|j: int|
                        0 <= j < upto - 1 && j < stored.len() && is_dropped(
                            #[trigger] stored[j],
                            current,
                        ) && key_of(entry_of(stored[j]).position) == other;
                    assert(0 <= j < upto && is_dropped(stored[j], current));
                }
            }
        }
    }
}

/// Reconciliation is complete: when the stored rows list the alive
/// positions of a company, and no two of the current positions are of the
/// same owner, then after the mutations that are due, written under fresh
/// tokens, the alive positions are exactly the current ones. Each current
/// position is alive as it is stated today, and every alive row is the one
/// of a current position.
pub proof fn lemma_reconciliation_is_complete(
    current: Seq<ShortPositionView>,
    stored: Seq<StoredView>,
    alive: Map<(Seq<char>, Seq<char>), AliveEntry>,
    tokens: spec_fn(int) -> u128,
)
    requires
        is_listing(stored, alive),
        are_distinct(current),
        forall|k: int| is_fresh(#[trigger] tokens(k), stored),
    ensures
        stopped_by(current, stored) is None,
        forall|i: int|
            0 <= i < current.len() ==> mutated_all(
                alive,
                due_mutations(current, stored),
                tokens,
            ).dom().contains(key_of(#[trigger] current[i])) && mutated_all(
                alive,
                due_mutations(current, stored),
                tokens,
            )[key_of(current[i])].position == current[i],
        forall|key: (Seq<char>, Seq<char>)| #[trigger]
            mutated_all(alive, due_mutations(current, stored), tokens).dom().contains(key)
                ==> is_current_key(key, current, current.len() as int),
{
    lemma_complete_rows_hydrate(stored);
    lemma_writes_phase(current, stored, alive, tokens, current.len() as int);
    lemma_retirements_phase(current, stored, alive, tokens, stored.len() as int);
    assert(current.take(current.len() as int) =~= current);
    assert(stored.take(stored.len() as int) =~= stored);
    let written = mutated_all(alive, writes(current, stored), tokens);
    let after = mutated_all(alive, due_mutations(current, stored), tokens);
    assert forall|i: int| 0 <= i < current.len() implies after.dom().contains(
        key_of(#[trigger] current[i]),
    ) && after[key_of(current[i])].position == current[i] by {
        let key = key_of(current[i]);
        if is_retired_key(key, stored, current, stored.len() as int) {
            let j = choose|j: int|
                0 <= j < stored.len() && j < stored.len() && is_dropped(
                    #[trigger] stored[j],
                    current,
                ) && key_of(entry_of(stored[j]).position) == key;
            assert(is_complete(stored[j]));
            assert(stored[j].holds(current[i]));
        }
    }
    assert forall|key: (Seq<char>, Seq<char>)| #[trigger]
        after.dom().contains(key) implies is_current_key(key, current, current.len() as int) by {
        if !is_current_key(key, current, current.len() as int) {
            assert(alive.dom().contains(key));
            let j = choose|j: int|
                0 <= j < stored.len() && key_of(entry_of(#[trigger] stored[j]).position) == key;
            assert(is_complete(stored[j]));
            assert(is_dropped(stored[j], current)) by {
                assert forall|i: int| 0 <= i < current.len() implies !stored[j].holds(
                    #[trigger] current[i],
                ) by {
                    if stored[j].holds(current[i]) {
                        assert(key_of(current[i]) == key);
                    }
                }
            }
            assert(is_retired_key(key, stored, current, stored.len() as int));
        }
    }
}

/// The row `a` of the table of alive positions and the historic row `h`
/// have the same token: the position of the historic row is alive.
pub open spec fn is_alive_pair(record: Record, a: int, h: int) -> bool {
    0 <= a < record.alive.len() && 0 <= h < record.historic.len() && record.alive[a]
        == record.historic[h].token
}

/// The tables hold the alive row: a row of the table of alive positions
/// has its token, and a historic row states its position under that token.
pub open spec fn is_joined(record: Record, entry: AliveEntry) -> bool {
    exists|a: int, h: int|
        0 <= a < record.alive.len() && 0 <= h < record.historic.len() && #[trigger] record.alive[a]
            == entry.token && #[trigger] record.historic[h] == (HistoricRow {
            token: entry.token,
            position: entry.position,
        })
}

/// The alive rows are those that the tables hold: each alive row stands
/// under its owner and ticker and is held by the tables, and each pair of a
/// row of the table of alive positions and a historic row with the same
/// token is an alive row. No historic row has the void token, no two
/// historic rows share a token, and no two rows of the table of alive
/// positions share a token but the void one.
pub open spec fn mirrors(record: Record, alive: Map<(Seq<char>, Seq<char>), AliveEntry>) -> bool {
    &&& forall|key: (Seq<char>, Seq<char>)| #[trigger]
        alive.dom().contains(key) ==> key_of(alive[key].position) == key && is_joined(
            record,
            alive[key],
        )
    &&& forall|a: int, h: int|
        #![trigger record.alive[a], record.historic[h]]
        0 <= a < record.alive.len() && 0 <= h < record.historic.len() && record.alive[a]
            == record.historic[h].token ==> alive.dom().contains(
            key_of(record.historic[h].position),
        ) && alive[key_of(record.historic[h].position)] == (AliveEntry {
            token: record.historic[h].token,
            position: record.historic[h].position,
        })
    &&& forall|h: int|
        0 <= h < record.historic.len() ==> (#[trigger] record.historic[h]).token != VOID_TOKEN
    &&& forall|h: int, g: int|
        #![trigger record.historic[h], record.historic[g]]
        0 <= h < g < record.historic.len() ==> record.historic[h].token != record.historic[g].token
    &&& forall|a: int, b: int|
        #![trigger record.alive[a], record.alive[b]]
        0 <= a < b < record.alive.len() && record.alive[a] != VOID_TOKEN ==> record.alive[a]
            != record.alive[b]
}

/// The token is not the void one and stands in none of the two tables.
pub open spec fn is_unused(token: u128, record: Record) -> bool {
    &&& token != VOID_TOKEN
    &&& forall|a: int| 0 <= a < record.alive.len() ==> #[trigger] record.alive[a] != token
    &&& forall|h: int| 0 <= h < record.historic.len() ==> (#[trigger] record.historic[h]).token != token
}

/// What a mutation takes for granted of the alive rows: an insertion, that
/// the owner has no alive row; an update, that the row to be moved is alive
/// and that the owner has no other alive row.
pub open spec fn is_applicable(
    alive: Map<(Seq<char>, Seq<char>), AliveEntry>,
    mutation: MutationView,
) -> bool {
    match mutation {
        MutationView::Insert(position) => !alive.dom().contains(key_of(position)),
        MutationView::Update { active, position } => has_token(alive, active) && (
        alive.dom().contains(key_of(position)) ==> alive[key_of(position)].token == active),
        MutationView::Retire(_) => true,
    }
}

/// Two statements are executed one after the other.
proof fn lemma_two_statements(record: Record, first: StatementView, second: StatementView)
    ensures
        record.executed_all(seq![first, second]) == record.executed(first).executed(second),
{
    let both = seq![first, second];
    lemma_one_statement(record, first);
    assert(both.drop_last() =~= seq![first]);
    assert(both.last() == second);
}

/// One statement is executed alone.
proof fn lemma_one_statement(record: Record, only: StatementView)
    ensures
        record.executed_all(seq![only]) == record.executed(only),
{
    let none = Seq::<StatementView>::empty();
    assert(seq![only].drop_last() =~= none);
    assert(record.executed_all(none) == record);
    assert(seq![only].last() == only);
}

/// The transaction of a mutation carries the mutation out: when the alive
/// rows are those that the tables hold, the mutation is applicable, and the
/// token is unused, then after the statements of the transaction the tables
/// hold the alive rows that the mutation leaves.
pub proof fn lemma_transaction_carries_out(
    record: Record,
    alive: Map<(Seq<char>, Seq<char>), AliveEntry>,
    mutation: MutationView,
    token: u128,
)
    requires
        mirrors(record, alive),
        is_unused(token, record),
        is_applicable(alive, mutation),
    ensures
        mirrors(record.executed_all(protocol(mutation, token)), mutated(alive, mutation, token)),
{
    let after = record.executed_all(protocol(mutation, token));
    let left = mutated(alive, mutation, token);
    match mutation {
        MutationView::Insert(position) => {
            let written = AliveEntry { token, position };
            lemma_two_statements(
                record,
                StatementView::InsertAlive { token },
                StatementView::AppendHistoric { token, position },
            );
            assert(protocol(mutation, token) =~= seq![
                StatementView::InsertAlive { token },
                StatementView::AppendHistoric { token, position },
            ]);
            assert(after.alive == record.alive.push(token));
            assert(after.historic == record.historic.push(HistoricRow { token, position }));
            assert forall|key: (Seq<char>, Seq<char>)| #[trigger]
                left.dom().contains(key) implies key_of(left[key].position) == key && is_joined(
                after,
                left[key],
            ) by {
                if key == key_of(position) {
                    assert(after.alive[record.alive.len() as int] == token);
                    assert(after.historic[record.historic.len() as int] == HistoricRow {
                        token,
                        position,
                    });
                } else {
                    assert(alive.dom().contains(key));
                    let (a, h) = choose|a: int, h: int|
                        0 <= a < record.alive.len() && 0 <= h < record.historic.len()
                            && #[trigger] record.alive[a] == alive[key].token
                            && #[trigger] record.historic[h] == (HistoricRow {
                            token: alive[key].token,
                            position: alive[key].position,
                        });
                    assert(after.alive[a] == alive[key].token);
                    assert(after.historic[h] == record.historic[h]);
                }
            }
            assert forall|a: int, h: int|
                #![trigger after.alive[a], after.historic[h]]
                0 <= a < after.alive.len() && 0 <= h < after.historic.len() && after.alive[a]
                    == after.historic[h].token implies left.dom().contains(
                key_of(after.historic[h].position),
            ) && left[key_of(after.historic[h].position)] == (AliveEntry {
                token: after.historic[h].token,
                position: after.historic[h].position,
            }) by {
                if a < record.alive.len() && h < record.historic.len() {
                    assert(record.alive[a] == record.historic[h].token);
                    assert(alive.dom().contains(key_of(record.historic[h].position)));
                } else if a < record.alive.len() {
                    assert(record.alive[a] != token);
                } else if h < record.historic.len() {
                    assert(record.historic[h].token != token);
                }
            }
            assert(mirrors(after, left));
        },
        MutationView::Update { active, position } => {
            lemma_two_statements(
                record,
                StatementView::Rekey { from: active, to: token },
                StatementView::AppendHistoric { token, position },
            );
            let moved = record.alive.map_values(
                |slot: u128|
                    if slot == active {
                        token
                    } else {
                        slot
                    },
            );
            assert(protocol(mutation, token) =~= seq![
                StatementView::Rekey { from: active, to: token },
                StatementView::AppendHistoric { token, position },
            ]);
            assert(after.alive == moved);
            assert(after.historic == record.historic.push(HistoricRow { token, position }));
            let old_key = choose|key: (Seq<char>, Seq<char>)|
                alive.dom().contains(key) && (#[trigger] alive[key]).token == active;
            assert(is_joined(record, alive[old_key]));
            let (a0, h0) = choose|a: int, h: int|
                0 <= a < record.alive.len() && 0 <= h < record.historic.len()
                    && #[trigger] record.alive[a] == alive[old_key].token
                    && #[trigger] record.historic[h] == (HistoricRow {
                    token: alive[old_key].token,
                    position: alive[old_key].position,
                });
            assert(record.historic[h0].token == active);
            assert(active != VOID_TOKEN);
            assert forall|key: (Seq<char>, Seq<char>)| #[trigger]
                left.dom().contains(key) implies key_of(left[key].position) == key && is_joined(
                after,
                left[key],
            ) by {
                if key == key_of(position) {
                    assert(after.alive[a0] == token);
                    assert(after.historic[record.historic.len() as int] == HistoricRow {
                        token,
                        position,
                    });
                } else {
                    assert(alive.dom().contains(key) && alive[key].token != active);
                    let (a, h) = choose|a: int, h: int|
                        0 <= a < record.alive.len() && 0 <= h < record.historic.len()
                            && #[trigger] record.alive[a] == alive[key].token
                            && #[trigger] record.historic[h] == (HistoricRow {
                            token: alive[key].token,
                            position: alive[key].position,
                        });
                    assert(after.alive[a] == alive[key].token);
                    assert(after.historic[h] == record.historic[h]);
                }
            }
            assert forall|a: int, h: int|
                #![trigger after.alive[a], after.historic[h]]
                0 <= a < after.alive.len() && 0 <= h < after.historic.len() && after.alive[a]
                    == after.historic[h].token implies left.dom().contains(
                key_of(after.historic[h].position),
            ) && left[key_of(after.historic[h].position)] == (AliveEntry {
                token: after.historic[h].token,
                position: after.historic[h].position,
            }) by {
                if h < record.historic.len() {
                    assert(record.historic[h].token != token);
                    assert(record.alive[a] != token);
                    assert(record.alive[a] == record.historic[h].token);
                    assert(record.alive[a] != active);
                    let key = key_of(record.historic[h].position);
                    assert(alive.dom().contains(key) && alive[key].token != active);
                    assert(key != key_of(position));
                }
            }
            assert(mirrors(after, left));
        },
        MutationView::Retire(id) => {
            lemma_one_statement(record, StatementView::Rekey { from: id, to: VOID_TOKEN });
            let voided = record.alive.map_values(
                |slot: u128|
                    if slot == id {
                        VOID_TOKEN
                    } else {
                        slot
                    },
            );
            assert(protocol(mutation, token) =~= seq![
                StatementView::Rekey { from: id, to: VOID_TOKEN },
            ]);
            assert(after.alive == voided);
            assert(after.historic == record.historic);
            assert forall|key: (Seq<char>, Seq<char>)| #[trigger]
                left.dom().contains(key) implies key_of(left[key].position) == key && is_joined(
                after,
                left[key],
            ) by {
                assert(alive.dom().contains(key) && alive[key].token != id);
                let (a, h) = choose|a: int, h: int|
                    0 <= a < record.alive.len() && 0 <= h < record.historic.len()
                        && #[trigger] record.alive[a] == alive[key].token
                        && #[trigger] record.historic[h] == (HistoricRow {
                        token: alive[key].token,
                        position: alive[key].position,
                    });
                assert(after.alive[a] == alive[key].token);
                assert(after.historic[h] == record.historic[h]);
            }
            assert forall|a: int, h: int|
                #![trigger after.alive[a], after.historic[h]]
                0 <= a < after.alive.len() && 0 <= h < after.historic.len() && after.alive[a]
                    == after.historic[h].token implies left.dom().contains(
                key_of(after.historic[h].position),
            ) && left[key_of(after.historic[h].position)] == (AliveEntry {
                token: after.historic[h].token,
                position: after.historic[h].position,
            }) by {
                assert(record.historic[h].token != VOID_TOKEN);
                assert(record.alive[a] != id);
                assert(record.alive[a] == record.historic[h].token);
            }
            assert(mirrors(after, left));
        },
    }
}

/// The tables after the transactions of some mutations, carried out in
/// their order; the mutation at index `k` writes under the token
/// `tokens(k)`.
pub open spec fn carried_out(
    record: Record,
    mutations: Seq<MutationView>,
    tokens: spec_fn(int) -> u128,
) -> Record
    decreases mutations.len(),
{
    if mutations.len() == 0 {
        record
    } else {
        carried_out(record, mutations.drop_last(), tokens).executed_all(
            protocol(mutations.last(), tokens(mutations.len() - 1)),
        )
    }
}

/// A token that is unused stays so after the transaction of a mutation
/// that writes under another token.
proof fn lemma_unused_stays(record: Record, mutation: MutationView, token: u128, other: u128)
    requires
        is_unused(other, record),
        other != token,
    ensures
        is_unused(other, record.executed_all(protocol(mutation, token))),
{
    match mutation {
        MutationView::Insert(position) => {
            assert(protocol(mutation, token) =~= seq![
                StatementView::InsertAlive { token },
                StatementView::AppendHistoric { token, position },
            ]);
            lemma_two_statements(
                record,
                StatementView::InsertAlive { token },
                StatementView::AppendHistoric { token, position },
            );
        },
        MutationView::Update { active, position } => {
            assert(protocol(mutation, token) =~= seq![
                StatementView::Rekey { from: active, to: token },
                StatementView::AppendHistoric { token, position },
            ]);
            lemma_two_statements(
                record,
                StatementView::Rekey { from: active, to: token },
                StatementView::AppendHistoric { token, position },
            );
        },
        MutationView::Retire(id) => {
            assert(protocol(mutation, token) =~= seq![
                StatementView::Rekey { from: id, to: VOID_TOKEN },
            ]);
            lemma_one_statement(record, StatementView::Rekey { from: id, to: VOID_TOKEN });
        },
    }
}

/// Each of the mutations is applicable to the alive rows that the
/// mutations before it leave.
pub open spec fn are_applicable(
    alive: Map<(Seq<char>, Seq<char>), AliveEntry>,
    mutations: Seq<MutationView>,
    tokens: spec_fn(int) -> u128,
) -> bool {
    forall|k: int|
        0 <= k < mutations.len() ==> is_applicable(
            mutated_all(alive, mutations.take(k), tokens),
            #[trigger] mutations[k],
        )
}

/// The tokens of the first `count` mutations are unused and differ from
/// each other.
pub open spec fn are_unused(tokens: spec_fn(int) -> u128, count: int, record: Record) -> bool {
    &&& forall|k: int| 0 <= k < count ==> is_unused(#[trigger] tokens(k), record)
    &&& forall|k: int, l: int| 0 <= k < l < count ==> #[trigger] tokens(k) != #[trigger] tokens(l)
}

/// The transactions of a list of mutations carry the mutations out: when
/// the alive rows are those that the tables hold, each mutation is
/// applicable in its turn, and the tokens are unused and differ from each
/// other, then after all the transactions the tables hold the alive rows
/// that the mutations leave.
pub proof fn lemma_transactions_carry_out(
    record: Record,
    alive: Map<(Seq<char>, Seq<char>), AliveEntry>,
    mutations: Seq<MutationView>,
    tokens: spec_fn(int) -> u128,
)
    requires
        mirrors(record, alive),
        are_applicable(alive, mutations, tokens),
        are_unused(tokens, mutations.len() as int, record),
    ensures
        mirrors(carried_out(record, mutations, tokens), mutated_all(alive, mutations, tokens)),
        forall|other: u128|
            is_unused(other, record) && (forall|k: int|
                0 <= k < mutations.len() ==> #[trigger] tokens(k) != other) ==> is_unused(
                other,
                #[trigger] carried_out(record, mutations, tokens),
            ),
    decreases mutations.len(),
{
    if mutations.len() > 0 {
        let first = mutations.drop_last();
        let last = mutations.last();
        let token = tokens(mutations.len() - 1);
        assert forall|k: int| 0 <= k < first.len() implies is_applicable(
            mutated_all(alive, first.take(k), tokens),
            #[trigger] first[k],
        ) by {
            assert(first.take(k) =~= mutations.take(k));
            assert(first[k] == mutations[k]);
        }
        lemma_transactions_carry_out(record, alive, first, tokens);
        let before = carried_out(record, first, tokens);
        let rows = mutated_all(alive, first, tokens);
        assert(mutations.take(mutations.len() - 1) =~= first);
        assert(is_applicable(rows, mutations[mutations.len() - 1]));
        assert(is_unused(token, record));
        assert(forall|k: int| 0 <= k < first.len() ==> #[trigger] tokens(k) != token);
        assert(is_unused(token, before));
        lemma_transaction_carries_out(before, rows, last, token);
        assert forall|other: u128|
            is_unused(other, record) && (forall|k: int|
                0 <= k < mutations.len() ==> #[trigger] tokens(k) != other) implies is_unused(
            other,
            #[trigger] carried_out(record, mutations, tokens),
        ) by {
            assert(tokens(mutations.len() - 1) != other);
            assert(forall|k: int| 0 <= k < first.len() ==> #[trigger] tokens(k) != other);
            assert(is_unused(other, before));
            lemma_unused_stays(before, last, token, other);
        }
    }
}

/// No transaction removes or changes a historic row: after the
/// transactions of any mutations the historic table starts with the rows
/// that it had.
pub proof fn lemma_transactions_keep_history(
    record: Record,
    mutations: Seq<MutationView>,
    tokens: spec_fn(int) -> u128,
)
    ensures
        record.historic.is_prefix_of(carried_out(record, mutations, tokens).historic),
    decreases mutations.len(),
{
    if mutations.len() > 0 {
        lemma_transactions_keep_history(record, mutations.drop_last(), tokens);
        lemma_history_is_kept(
            carried_out(record, mutations.drop_last(), tokens),
            protocol(mutations.last(), tokens(mutations.len() - 1)),
        );
    }
}

/// Each write for the first `upto` current positions is applicable in its
/// turn.
proof fn lemma_writes_are_applicable(
    current: Seq<ShortPositionView>,
    stored: Seq<StoredView>,
    alive: Map<(Seq<char>, Seq<char>), AliveEntry>,
    tokens: spec_fn(int) -> u128,
    upto: int,
)
    requires
        is_listing(stored, alive),
        are_distinct(current),
        forall|k: int| is_fresh(#[trigger] tokens(k), stored),
        0 <= upto <= current.len(),
    ensures
        are_applicable(alive, writes(current.take(upto), stored), tokens),
    decreases upto,
{
    if upto == 0 {
        assert(current.take(0) =~= Seq::<ShortPositionView>::empty());
    } else {
        lemma_writes_are_applicable(current, stored, alive, tokens, upto - 1);
        lemma_writes_phase(current, stored, alive, tokens, upto - 1);
        let position = current[upto - 1];
        let key = key_of(position);
        let made = writes(current.take(upto - 1), stored);
        let rows = mutated_all(alive, made, tokens);
        let now = writes(current.take(upto), stored);
        assert(current.take(upto).drop_last() =~= current.take(upto - 1));
        assert(current.take(upto).last() == position);
        if !is_known(position, stored) {
            let mutation = write_for(position, stored)->0;
            assert(now == made.push(mutation));
            assert(!is_current_key(key, current, upto - 1)) by {
                if is_current_key(key, current, upto - 1) {
                    let i = choose|i: int|
                        0 <= i < upto - 1 && i < current.len() && key_of(#[trigger] current[i])
                            == key;
                    assert(key_of(current[i]) != key_of(current[upto - 1]));
                }
            }
            assert(rows.dom().contains(key) == alive.dom().contains(key));
            lemma_first_held_holds(stored, position);
            match first_held(stored, position) {
                Some(j) => {
                    assert(is_complete(stored[j]));
                    assert(key_of(entry_of(stored[j]).position) == key);
                    assert(alive.dom().contains(key) && alive[key] == entry_of(stored[j]));
                    assert(rows[key] == alive[key]);
                    assert(has_token(rows, stored[j].id->0));
                },
                None => {
                    if alive.dom().contains(key) {
                        let j = choose|j: int|
                            0 <= j < stored.len() && key_of(entry_of(#[trigger] stored[j]).position)
                                == key;
                        assert(is_complete(stored[j]));
                        assert(stored[j].holds(position));
                    }
                },
            }
            assert(is_applicable(rows, mutation));
            assert forall|k: int| 0 <= k < now.len() implies is_applicable(
                mutated_all(alive, now.take(k), tokens),
                #[trigger] now[k],
            ) by {
                if k < made.len() {
                    assert(now.take(k) =~= made.take(k));
                    assert(now[k] == made[k]);
                } else {
                    assert(now.take(k) =~= made);
                }
            }
        }
    }
}

/// Retirements are retirements.
proof fn lemma_retirements_only_retire(stored: Seq<StoredView>, current: Seq<ShortPositionView>)
    ensures
        forall|k: int|
            0 <= k < retirements(stored, current).len() ==> (#[trigger] retirements(
                stored,
                current,
            )[k]) is Retire,
    decreases stored.len(),
{
    if stored.len() > 0 {
        lemma_retirements_only_retire(stored.drop_last(), current);
    }
}

/// Each of the mutations that are due is applicable in its turn.
proof fn lemma_due_mutations_are_applicable(
    current: Seq<ShortPositionView>,
    stored: Seq<StoredView>,
    alive: Map<(Seq<char>, Seq<char>), AliveEntry>,
    tokens: spec_fn(int) -> u128,
)
    requires
        is_listing(stored, alive),
        are_distinct(current),
        forall|k: int| is_fresh(#[trigger] tokens(k), stored),
    ensures
        are_applicable(alive, due_mutations(current, stored), tokens),
{
    lemma_writes_are_applicable(current, stored, alive, tokens, current.len() as int);
    lemma_retirements_only_retire(stored, current);
    assert(current.take(current.len() as int) =~= current);
    let made = writes(current, stored);
    let retired = retirements(stored, current);
    let due = due_mutations(current, stored);
    assert forall|k: int| 0 <= k < due.len() implies is_applicable(
        mutated_all(alive, due.take(k), tokens),
        #[trigger] due[k],
    ) by {
        if k < made.len() {
            assert(due.take(k) =~= made.take(k));
            assert(due[k] == made[k]);
        } else {
            assert(due[k] == retired[k - made.len()]);
        }
    }
}

/// The record is brought up to date: when the stored rows list the alive
/// rows that the tables hold, no two of the current positions are of the
/// same owner, and the tokens are unused and those of the mutations differ
/// from each other, then after the transactions of the mutations that are
/// due each current position is alive in the tables as it is stated today,
/// every alive row of the tables states a current position, no position is
/// alive twice, and no historic row was removed or changed.
pub proof fn lemma_record_is_brought_up_to_date(
    current: Seq<ShortPositionView>,
    stored: Seq<StoredView>,
    record: Record,
    alive: Map<(Seq<char>, Seq<char>), AliveEntry>,
    tokens: spec_fn(int) -> u128,
)
    requires
        mirrors(record, alive),
        is_listing(stored, alive),
        are_distinct(current),
        forall|k: int| is_unused(#[trigger] tokens(k), record),
        forall|k: int, l: int|
            0 <= k < l < due_mutations(current, stored).len() ==> #[trigger] tokens(k)
                != #[trigger] tokens(l),
    ensures
        forall|i: int|
            0 <= i < current.len() ==> exists|a: int, h: int|
                is_alive_pair(
                    carried_out(record, due_mutations(current, stored), tokens),
                    a,
                    h,
                ) && carried_out(record, due_mutations(current, stored), tokens).historic[h].position
                    == #[trigger] current[i],
        forall|a: int, h: int|
            is_alive_pair(carried_out(record, due_mutations(current, stored), tokens), a, h)
                ==> exists|i: int|
                0 <= i < current.len() && #[trigger] current[i] == carried_out(
                    record,
                    due_mutations(current, stored),
                    tokens,
                ).historic[h].position,
        forall|a: int, h: int, b: int, g: int|
            #![trigger is_alive_pair(carried_out(record, due_mutations(current, stored), tokens), a, h), is_alive_pair(carried_out(record, due_mutations(current, stored), tokens), b, g)]
            is_alive_pair(carried_out(record, due_mutations(current, stored), tokens), a, h)
                && is_alive_pair(carried_out(record, due_mutations(current, stored), tokens), b, g)
                && carried_out(record, due_mutations(current, stored), tokens).historic[h].position
                == carried_out(record, due_mutations(current, stored), tokens).historic[g].position
                ==> a == b && h == g,
        record.historic.is_prefix_of(
            carried_out(record, due_mutations(current, stored), tokens).historic,
        ),
{
    lemma_transactions_keep_history(record, due_mutations(current, stored), tokens);
    let due = due_mutations(current, stored);
    let after = carried_out(record, due, tokens);
    let left = mutated_all(alive, due, tokens);
    assert forall|k: int| is_fresh(#[trigger] tokens(k), stored) by {
        assert forall|j: int| 0 <= j < stored.len() implies (#[trigger] stored[j]).id != Some(
            tokens(k),
        ) by {
            let key = key_of(entry_of(stored[j]).position);
            assert(is_complete(stored[j]));
            assert(alive.dom().contains(key));
            assert(is_joined(record, alive[key]));
            assert(is_unused(tokens(k), record));
        }
    }
    lemma_due_mutations_are_applicable(current, stored, alive, tokens);
    lemma_transactions_carry_out(record, alive, due, tokens);
    lemma_reconciliation_is_complete(current, stored, alive, tokens);
    assert forall|i: int| 0 <= i < current.len() implies exists|a: int, h: int|
        is_alive_pair(after, a, h) && after.historic[h].position == #[trigger] current[i] by {
        let key = key_of(current[i]);
        assert(left.dom().contains(key));
        assert(is_joined(after, left[key]));
        let (a, h) = choose|a: int, h: int|
            0 <= a < after.alive.len() && 0 <= h < after.historic.len() && #[trigger] after.alive[a]
                == left[key].token && #[trigger] after.historic[h] == (HistoricRow {
                token: left[key].token,
                position: left[key].position,
            });
        assert(is_alive_pair(after, a, h) && after.historic[h].position == current[i]);
    }
    assert forall|a: int, h: int, b: int, g: int|
        #![trigger is_alive_pair(after, a, h), is_alive_pair(after, b, g)]
        is_alive_pair(after, a, h) && is_alive_pair(after, b, g) && after.historic[h].position
            == after.historic[g].position implies a == b && h == g by {
        let key = key_of(after.historic[h].position);
        assert(after.alive[a] == after.historic[h].token);
        assert(after.alive[b] == after.historic[g].token);
        assert(left[key].token == after.historic[h].token);
        assert(left[key].token == after.historic[g].token);
        if h < g {
            assert(after.historic[h].token != after.historic[g].token);
        }
        if g < h {
            assert(after.historic[g].token != after.historic[h].token);
        }
        assert(after.historic[h].token != VOID_TOKEN);
        if a < b {
            assert(after.alive[a] != after.alive[b]);
        }
        if b < a {
            assert(after.alive[b] != after.alive[a]);
        }
    }
    assert forall|a: int, h: int| is_alive_pair(after, a, h) implies exists|i: int|
        0 <= i < current.len() && #[trigger] current[i] == after.historic[h].position by {
        let key = key_of(after.historic[h].position);
        assert(after.alive[a] == after.historic[h].token);
        assert(left.dom().contains(key));
        assert(is_current_key(key, current, current.len() as int));
        let i = choose|i: int|
            0 <= i < current.len() && i < current.len() && key_of(#[trigger] current[i]) == key;
        assert(left[key].position == current[i]);
    }
}

/// What a listing of the alive rows of a valid record looks like: no row
/// lacks a field or its token, no token is the void one, no two rows
/// share a token, and no two rows are of the same owner against the same
/// asset.
pub open spec fn is_valid_listing(stored: Seq<StoredView>) -> bool {
    &&& forall|j: int|
        0 <= j < stored.len() ==> is_complete(#[trigger] stored[j]) && stored[j].id != Some(
            VOID_TOKEN,
        )
    &&& forall|j: int, k: int|
        0 <= j < stored.len() && 0 <= k < stored.len() && j != k ==> (#[trigger] stored[j]).id
            != (#[trigger] stored[k]).id && key_of(entry_of(stored[j]).position) != key_of(
            entry_of(stored[k]).position,
        )
}

/// The alive rows that the stored rows list, by owner and ticker.
pub open spec fn alive_of(stored: Seq<StoredView>) -> Map<(Seq<char>, Seq<char>), AliveEntry> {
    Map::new(
        |key: (Seq<char>, Seq<char>)|
            exists|j: int|
                0 <= j < stored.len() && key_of(entry_of(#[trigger] stored[j]).position) == key,
        |key: (Seq<char>, Seq<char>)|
            entry_of(
                stored[choose|j: int|
                    0 <= j < stored.len() && key_of(entry_of(#[trigger] stored[j]).position)
                        == key],
            ),
    )
}

/// The tables of a record whose alive rows are the stored rows and that
/// holds nothing else: one row of each table for each stored row, in their
/// order.
pub open spec fn record_of(stored: Seq<StoredView>) -> Record {
    Record {
        alive: Seq::new(stored.len(), |j: int| entry_of(stored[j]).token),
        historic: Seq::new(
            stored.len(),
            |j: int|
                HistoricRow {
                    token: entry_of(stored[j]).token,
                    position: entry_of(stored[j]).position,
                },
        ),
    }
}

/// A valid listing lists the alive rows that it gives, and the tables made
/// of its rows hold those alive rows.
proof fn lemma_valid_listing_lists(stored: Seq<StoredView>)
    requires
        is_valid_listing(stored),
    ensures
        is_listing(stored, alive_of(stored)),
        mirrors(record_of(stored), alive_of(stored)),
{
    let alive = alive_of(stored);
    let record = record_of(stored);
    assert forall|j: int| 0 <= j < stored.len() implies is_complete(#[trigger] stored[j])
        && alive.dom().contains(key_of(entry_of(stored[j]).position)) && alive[key_of(
        entry_of(stored[j]).position,
    )] == entry_of(stored[j]) by {
        let key = key_of(entry_of(stored[j]).position);
        let k = choose|k: int|
            0 <= k < stored.len() && key_of(entry_of(#[trigger] stored[k]).position) == key;
        if k != j {
            assert(key_of(entry_of(stored[j]).position) != key_of(entry_of(stored[k]).position));
        }
    }
    assert(is_listing(stored, alive));
    assert forall|key: (Seq<char>, Seq<char>)| #[trigger] alive.dom().contains(key) implies key_of(
        alive[key].position,
    ) == key && is_joined(record, alive[key]) by {
        let j = choose|j: int|
            0 <= j < stored.len() && key_of(entry_of(#[trigger] stored[j]).position) == key;
        assert(is_complete(stored[j]));
        assert(alive[key] == entry_of(stored[j]));
        assert(record.alive[j] == alive[key].token);
        assert(record.historic[j] == HistoricRow {
            token: alive[key].token,
            position: alive[key].position,
        });
    }
    assert forall|a: int, h: int|
        #![trigger record.alive[a], record.historic[h]]
        0 <= a < record.alive.len() && 0 <= h < record.historic.len() && record.alive[a]
            == record.historic[h].token implies alive.dom().contains(
        key_of(record.historic[h].position),
    ) && alive[key_of(record.historic[h].position)] == (AliveEntry {
        token: record.historic[h].token,
        position: record.historic[h].position,
    }) by {
        assert(is_complete(stored[h]));
        assert(is_complete(stored[a]));
    }
    assert forall|h: int| 0 <= h < record.historic.len() implies (#[trigger] record.historic[h]).token
        != VOID_TOKEN by {
        assert(is_complete(stored[h]));
    }
    assert forall|h: int, g: int|
        #![trigger record.historic[h], record.historic[g]]
        0 <= h < g < record.historic.len() implies record.historic[h].token
        != record.historic[g].token by {
        assert(is_complete(stored[h]) && is_complete(stored[g]));
        assert(stored[h].id != stored[g].id);
    }
    assert forall|a: int, b: int|
        #![trigger record.alive[a], record.alive[b]]
        0 <= a < b < record.alive.len() && record.alive[a] != VOID_TOKEN implies record.alive[a]
        != record.alive[b] by {
        assert(is_complete(stored[a]) && is_complete(stored[b]));
        assert(stored[a].id != stored[b].id);
    }
}

/// The alive positions of the tables are exactly the given ones, each once:
/// each of the positions is alive, every alive row states one of them, and
/// no position is alive in two rows.
pub open spec fn holds_exactly(record: Record, positions: Seq<ShortPositionView>) -> bool {
    &&& forall|i: int|
        0 <= i < positions.len() ==> exists|a: int, h: int|
            is_alive_pair(record, a, h) && record.historic[h].position == #[trigger] positions[i]
    &&& forall|a: int, h: int|
        is_alive_pair(record, a, h) ==> exists|i: int|
            0 <= i < positions.len() && #[trigger] positions[i] == record.historic[h].position
    &&& forall|a: int, h: int, b: int, g: int|
        #![trigger is_alive_pair(record, a, h), is_alive_pair(record, b, g)]
        is_alive_pair(record, a, h) && is_alive_pair(record, b, g) && record.historic[h].position
            == record.historic[g].position ==> a == b && h == g
}

/// Reconciliation is complete. Take the alive rows that a valid record
/// lists for a company, and current positions of which no two are of the
/// same owner against the same asset. Carry out the mutations that are due,
/// each under a token that is new: neither the void one, nor one of a
/// stored row, nor one of another mutation. Then the alive positions of
/// the record are exactly the current ones, each once, and the historic
/// rows that were there are there still.
pub proof fn lemma_alive_positions_become_the_current_ones(
    current: Seq<ShortPositionView>,
    stored: Seq<StoredView>,
    tokens: spec_fn(int) -> u128,
)
    requires
        is_valid_listing(stored),
        are_distinct(current),
        forall|k: int| #[trigger] tokens(k) != VOID_TOKEN && is_fresh(tokens(k), stored),
        forall|k: int, l: int|
            0 <= k < l < due_mutations(current, stored).len() ==> #[trigger] tokens(k)
                != #[trigger] tokens(l),
    ensures
        stopped_by(current, stored) is None,
        holds_exactly(
            carried_out(record_of(stored), due_mutations(current, stored), tokens),
            current,
        ),
        record_of(stored).historic.is_prefix_of(
            carried_out(record_of(stored), due_mutations(current, stored), tokens).historic,
        ),
{
    let record = record_of(stored);
    lemma_valid_listing_lists(stored);
    assert forall|k: int| is_unused(#[trigger] tokens(k), record) by {
        assert(is_fresh(tokens(k), stored));
        assert forall|a: int| 0 <= a < record.alive.len() implies #[trigger] record.alive[a]
            != tokens(k) by {
            assert(is_complete(stored[a]));
            assert(stored[a].id != Some(tokens(k)));
        }
        assert forall|h: int| 0 <= h < record.historic.len() implies (
        #[trigger] record.historic[h]).token != tokens(k) by {
            assert(is_complete(stored[h]));
            assert(stored[h].id != Some(tokens(k)));
        }
    }
    lemma_complete_rows_hydrate(stored);
    lemma_record_is_brought_up_to_date(current, stored, record, alive_of(stored), tokens);
}

} // verus!
