//! The statements that write the record of short positions, and what they
//! do to its two tables.

use crate::domain::short_position::{ShortPosition, ShortPositionView};
use crate::feeders::ibex_short_provider::{IbexShortFeeder, Mutation, MutationView, VOID_TOKEN};
use vstd::prelude::*;

verus! {

/// A statement on the tables of the record.
#[derive(Debug, PartialEq)]
pub enum Statement {
    /// A new row of the table of alive positions, with the given token.
    InsertAlive { token: u128 },
    /// The rows of the table of alive positions with the token `from` get
    /// the token `to`.
    Rekey { from: u128, to: u128 },
    /// A new row of the historic table: the position under the given token.
    AppendHistoric { token: u128, position: ShortPosition },
}

/// Mathematical value of a [`Statement`].
pub enum StatementView {
    InsertAlive { token: u128 },
    Rekey { from: u128, to: u128 },
    AppendHistoric { token: u128, position: ShortPositionView },
}

impl View for Statement {
    type V = StatementView;

    open spec fn view(&self) -> StatementView {
        match self {
            Statement::InsertAlive { token } => StatementView::InsertAlive { token: *token },
            Statement::Rekey { from, to } => StatementView::Rekey { from: *from, to: *to },
            Statement::AppendHistoric { token, position } => StatementView::AppendHistoric {
                token: *token,
                position: position@,
            },
        }
    }
}

/// Mathematical value of a list of statements.
pub open spec fn statements_view(statements: Vec<Statement>) -> Seq<StatementView> {
    statements@.map_values(|statement: Statement| statement@)
}

/// The statements of a transaction, and the token that it allocated.
#[derive(Debug)]
pub struct Transaction {
    /// Token of the new historic row; the void token for a retirement,
    /// which writes none.
    pub token: u128,
    /// The statements, to be executed in this order, all or none.
    pub statements: Vec<Statement>,
}

/// The statements that write a position under a new token: the table of
/// alive positions first, where the row of the previous statement of the
/// position, if there is one, is given the new token, and a new row is
/// inserted otherwise; then the historic row.
pub open spec fn write_protocol(
    position: ShortPositionView,
    active: Option<u128>,
    token: u128,
) -> Seq<StatementView> {
    seq![
        match active {
            Some(previous) => StatementView::Rekey { from: previous, to: token },
            None => StatementView::InsertAlive { token },
        },
        StatementView::AppendHistoric { token, position },
    ]
}

/// The statement that retires the alive position with the given token: its
/// row is given the void token.
pub open spec fn wipe_protocol(id: u128) -> Seq<StatementView> {
    seq![StatementView::Rekey { from: id, to: VOID_TOKEN }]
}

/// The statements that carry out a mutation, with `token` for what it
/// writes.
pub open spec fn protocol(mutation: MutationView, token: u128) -> Seq<StatementView> {
    match mutation {
        MutationView::Insert(position) => write_protocol(position, None, token),
        MutationView::Update { active, position } => write_protocol(position, Some(active), token),
        MutationView::Retire(id) => wipe_protocol(id),
    }
}

/// Allocates an identity token.
///
/// Trusted: calls `uuid::Uuid::new_v4` and hands out the value of
/// `Uuid::as_u128`. The token is random; its version bits are set, so it is
/// never the void token. Nothing else is claimed of it.
#[verifier::external_body]
pub(crate) fn fresh_token() -> (token: u128)
    ensures
        token != VOID_TOKEN,
{
    uuid::Uuid::new_v4().as_u128()
}

/// Writes the statements that store a position under the given token.
/// `active` is the token of the alive row of the position, when it has one.
pub fn write_statements(position: &ShortPosition, active: Option<u128>, token: u128) -> (statements:
    Vec<Statement>)
    ensures
        statements_view(statements) == write_protocol(position@, active, token),
{
    let mut statements: Vec<Statement> = Vec::new();
    match active {
        Some(previous) => statements.push(Statement::Rekey { from: previous, to: token }),
        None => statements.push(Statement::InsertAlive { token }),
    }
    statements.push(Statement::AppendHistoric { token, position: position.clone() });
    assert(statements_view(statements) =~= write_protocol(position@, active, token));
    statements
}

impl IbexShortFeeder {
    /// Stores a position under a new token, in the place of the alive row with
    /// the token `active` when there is one.
    pub fn insert_short_position(&self, position: &ShortPosition, active: Option<u128>) -> (transaction:
        Transaction)
        ensures
            transaction.token != VOID_TOKEN,
            statements_view(transaction.statements) == write_protocol(
                position@,
                active,
                transaction.token,
            ),
    {
        let token = fresh_token();
        Transaction { token, statements: write_statements(position, active, token) }
    }

    /// Retires the alive position with the given token.
    ///
    /// Rows cannot be deleted from the table of alive positions, so the token
    /// of the row is overwritten with the void one.
    pub fn wipe_short_position(&self, id: u128) -> (transaction: Transaction)
        ensures
            transaction.token == VOID_TOKEN,
            statements_view(transaction.statements) == wipe_protocol(id),
    {
        let mut statements: Vec<Statement> = Vec::new();
        statements.push(Statement::Rekey { from: id, to: VOID_TOKEN });
        assert(statements_view(statements) =~= wipe_protocol(id));
        Transaction { token: VOID_TOKEN, statements }
    }

    /// Gives the transaction that carries out a mutation.
    pub fn transaction_for(&self, mutation: &Mutation) -> (transaction: Transaction)
        ensures
            statements_view(transaction.statements) == protocol(mutation@, transaction.token),
            (mutation@ is Retire) == (transaction.token == VOID_TOKEN),
    {
        match mutation {
            Mutation::Insert(position) => self.insert_short_position(position, None),
            Mutation::Update { active, position } => self.insert_short_position(position, Some(*active)),
            Mutation::Retire(id) => self.wipe_short_position(*id),
        }
    }
}

/// A row of the historic table.
pub struct HistoricRow {
    pub token: u128,
    pub position: ShortPositionView,
}

/// The two tables of the record.
pub struct Record {
    /// The tokens in the table of alive positions, void ones included.
    pub alive: Seq<u128>,
    /// The rows of the historic table, in the order in which they came.
    pub historic: Seq<HistoricRow>,
}

impl Record {
    /// The record after a statement.
    pub open spec fn executed(self, statement: StatementView) -> Record {
        match statement {
            StatementView::InsertAlive { token } => Record { alive: self.alive.push(token), ..self },
            StatementView::Rekey { from, to } => Record {
                alive: self.alive.map_values(
                    |token: u128|
                        if token == from {
                            to
                        } else {
                            token
                        },
                ),
                ..self
            },
            StatementView::AppendHistoric { token, position } => Record {
                historic: self.historic.push(HistoricRow { token, position }),
                ..self
            },
        }
    }

    /// The record after some statements, executed in their order.
    pub open spec fn executed_all(self, statements: Seq<StatementView>) -> Record
        decreases statements.len(),
    {
        if statements.len() == 0 {
            self
        } else {
            self.executed_all(statements.drop_last()).executed(statements.last())
        }
    }
}

/// Retiring a position removes no row: the historic table stays as it is,
/// and in the table of alive positions the rows with the token of the
/// position get the void token while every other row keeps its own.
pub proof fn lemma_retirement_keeps_rows(record: Record, id: u128)
    ensures
        record.executed_all(wipe_protocol(id)).historic == record.historic,
        record.executed_all(wipe_protocol(id)).alive.len() == record.alive.len(),
        forall|k: int|
            0 <= k < record.alive.len() ==> #[trigger] record.executed_all(
                wipe_protocol(id),
            ).alive[k] == if record.alive[k] == id {
                VOID_TOKEN
            } else {
                record.alive[k]
            },
{
    let statements = wipe_protocol(id);
    assert(statements.drop_last() =~= Seq::<StatementView>::empty());
    assert(record.executed_all(statements.drop_last()) == record);
    assert(record.executed_all(statements) == record.executed(statements.last()));
}

/// No statement removes or changes a historic row, nor removes a row of
/// the table of alive positions: after any statements the historic table
/// starts with the rows that it had, and the table of alive positions has
/// at least as many rows.
pub proof fn lemma_history_is_kept(record: Record, statements: Seq<StatementView>)
    ensures
        record.historic.is_prefix_of(record.executed_all(statements).historic),
        record.alive.len() <= record.executed_all(statements).alive.len(),
    decreases statements.len(),
{
    if statements.len() > 0 {
        lemma_history_is_kept(record, statements.drop_last());
    }
}

} // verus!
