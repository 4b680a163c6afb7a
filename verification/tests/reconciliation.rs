use data_harvest::feeders::ibex_short_provider::{
    is_already_stored, is_no_longer_stated, Mutation, Reconciliation, VOID_TOKEN,
};
use data_harvest::feeders::record::{write_statements, Statement};
use data_harvest::feeders::report::{Entry, Failure};
use data_harvest::{
    CnmvError, Company, DataProviderError, DbError, IbexCompanyBd, IbexShortFeeder, RunReport,
    ShortPosition, ShortPositionBd, Weight,
};
use std::collections::HashMap;

fn position(owner: &str, weight: f32, open_date: i64, ticker: &str) -> ShortPosition {
    ShortPosition {
        owner: owner.to_string(),
        weight: Weight::from_bits(weight.to_bits()),
        open_date,
        ticker: ticker.to_string(),
    }
}

fn stored(id: u128, owner: &str, weight: f32, open_date: i64, ticker: &str) -> ShortPositionBd {
    ShortPositionBd {
        id: Some(id),
        owner: Some(owner.to_string()),
        ticker: Some(ticker.to_string()),
        weight: Some(Weight::from_bits(weight.to_bits())),
        open_date: Some(open_date),
    }
}

fn reconcile(current: &Vec<ShortPosition>, rows: &Vec<ShortPositionBd>) -> Reconciliation {
    IbexShortFeeder::new().add_today_data(current, rows).unwrap()
}

/// Applies the mutations to the alive rows, one row for each owner and ticker.
fn apply(
    rows: &Vec<ShortPositionBd>,
    mutations: &Vec<Mutation>,
) -> HashMap<(String, String), (u128, ShortPosition)> {
    let mut alive = HashMap::new();
    for row in rows {
        let position = ShortPosition::try_from(row).unwrap();
        alive.insert(
            (position.owner.clone(), position.ticker.clone()),
            (row.id.unwrap(), position),
        );
    }
    let mut token: u128 = 1 << 100;
    for mutation in mutations {
        token += 1;
        match mutation {
            Mutation::Insert(position) => {
                alive.insert(
                    (position.owner.clone(), position.ticker.clone()),
                    (token, position.clone()),
                );
            }
            Mutation::Update { active, position } => {
                let before = alive.len();
                alive.retain(|_, row| row.0 != *active);
                if alive.len() < before {
                    alive.insert(
                        (position.owner.clone(), position.ticker.clone()),
                        (token, position.clone()),
                    );
                }
            }
            Mutation::Retire(id) => alive.retain(|_, row| row.0 != *id),
        }
    }
    alive
}

fn assert_alive_is(
    alive: &HashMap<(String, String), (u128, ShortPosition)>,
    current: &Vec<ShortPosition>,
) {
    assert_eq!(alive.len(), current.len());
    for position in current {
        let row = alive
            .get(&(position.owner.clone(), position.ticker.clone()))
            .unwrap();
        assert_eq!(&row.1, position);
    }
}

#[test]
fn nothing_stored_and_nothing_current_is_no_change() {
    let found = reconcile(&vec![], &vec![]);
    assert!(found.mutations.is_empty());
    assert!(found.corrupt.is_empty());
    assert!(!found.changed);
}

#[test]
fn first_position_is_inserted() {
    let current = vec![position("FundA", 1.5, 100, "GRF")];
    let found = reconcile(&current, &vec![]);
    assert_eq!(
        found.mutations,
        vec![Mutation::Insert(position("FundA", 1.5, 100, "GRF"))]
    );
    assert!(found.corrupt.is_empty());
    assert!(found.changed);
}

#[test]
fn every_first_position_is_inserted_in_order() {
    let current = vec![
        position("FundA", 1.5, 100, "GRF"),
        position("FundB", 0.5, 200, "GRF"),
        position("FundA", 1.5, 100, "GRF"),
    ];
    let found = reconcile(&current, &vec![]);
    assert_eq!(
        found.mutations,
        vec![
            Mutation::Insert(position("FundA", 1.5, 100, "GRF")),
            Mutation::Insert(position("FundB", 0.5, 200, "GRF")),
            Mutation::Insert(position("FundA", 1.5, 100, "GRF")),
        ]
    );
    assert!(found.changed);
}

#[test]
fn position_that_left_is_retired() {
    let rows = vec![stored(42, "FundA", 1.5, 100, "GRF")];
    let found = reconcile(&vec![], &rows);
    assert_eq!(found.mutations, vec![Mutation::Retire(42)]);
    assert!(found.corrupt.is_empty());
    assert!(found.changed);
}

#[test]
fn changed_weight_is_one_update() {
    let rows = vec![stored(42, "FundA", 1.5, 100, "GRF")];
    let current = vec![position("FundA", 2.0, 100, "GRF")];
    let found = reconcile(&current, &rows);
    assert_eq!(
        found.mutations,
        vec![Mutation::Update {
            active: 42,
            position: position("FundA", 2.0, 100, "GRF")
        }]
    );
    assert!(found.changed);
    assert_alive_is(&apply(&rows, &found.mutations), &current);
}

#[test]
fn changed_date_is_one_update() {
    let rows = vec![stored(42, "FundA", 1.5, 100, "GRF")];
    let current = vec![position("FundA", 1.5, 101, "GRF")];
    let found = reconcile(&current, &rows);
    assert_eq!(
        found.mutations,
        vec![Mutation::Update {
            active: 42,
            position: position("FundA", 1.5, 101, "GRF")
        }]
    );
}

#[test]
fn known_positions_ask_for_nothing() {
    let rows = vec![
        stored(1, "FundA", 1.5, 100, "GRF"),
        stored(2, "FundB", 0.5, 200, "GRF"),
    ];
    let current = vec![
        position("FundB", 0.5, 200, "GRF"),
        position("FundA", 1.5, 100, "GRF"),
    ];
    let found = reconcile(&current, &rows);
    assert!(found.mutations.is_empty());
    assert!(found.corrupt.is_empty());
    assert!(!found.changed);
}

#[test]
fn full_diff_writes_then_retires() {
    let rows = vec![
        stored(1, "Kept", 1.5, 100, "GRF"),
        stored(2, "Gone", 0.5, 200, "GRF"),
        stored(3, "Moved", 0.7, 300, "GRF"),
        stored(4, "Left", 0.9, 400, "GRF"),
    ];
    let current = vec![
        position("New", 3.0, 500, "GRF"),
        position("Moved", 0.8, 301, "GRF"),
        position("Kept", 1.5, 100, "GRF"),
    ];
    let found = reconcile(&current, &rows);
    assert_eq!(
        found.mutations,
        vec![
            Mutation::Insert(position("New", 3.0, 500, "GRF")),
            Mutation::Update {
                active: 3,
                position: position("Moved", 0.8, 301, "GRF")
            },
            Mutation::Retire(2),
            Mutation::Retire(4),
        ]
    );
    assert!(found.changed);
    assert!(found.corrupt.is_empty());
    assert_alive_is(&apply(&rows, &found.mutations), &current);
}

#[test]
fn after_the_mutations_the_alive_positions_are_the_current_ones() {
    let rows = vec![
        stored(11, "A", 1.0, 1, "SLR"),
        stored(12, "B", 2.0, 2, "SLR"),
        stored(13, "C", 3.0, 3, "SLR"),
    ];
    let cases = vec![
        vec![],
        vec![position("A", 1.0, 1, "SLR")],
        vec![position("D", 4.0, 4, "SLR")],
        vec![position("C", 3.5, 3, "SLR"), position("A", 1.0, 1, "SLR")],
        vec![
            position("B", 2.0, 2, "SLR"),
            position("C", 3.0, 3, "SLR"),
            position("A", 1.0, 1, "SLR"),
            position("E", 5.0, 5, "SLR"),
        ],
    ];
    for current in cases {
        let found = reconcile(&current, &rows);
        assert_alive_is(&apply(&rows, &found.mutations), &current);
        let again = reconcile(&current, &rows);
        assert_eq!(found.mutations, again.mutations);
    }
    for current in vec![vec![], vec![position("A", 1.0, 1, "SLR")]] {
        let found = reconcile(&current, &vec![]);
        assert_alive_is(&apply(&vec![], &found.mutations), &current);
    }
}

#[test]
fn same_owner_against_another_asset_is_another_position() {
    let rows = vec![stored(1, "FundA", 1.5, 100, "GRF")];
    let current = vec![position("FundA", 1.5, 100, "SLR")];
    let found = reconcile(&current, &rows);
    assert_eq!(
        found.mutations,
        vec![
            Mutation::Insert(position("FundA", 1.5, 100, "SLR")),
            Mutation::Retire(1)
        ]
    );
}

#[test]
fn first_row_of_the_owner_is_the_one_updated() {
    let rows = vec![
        stored(1, "FundA", 1.5, 100, "GRF"),
        stored(2, "FundA", 1.6, 100, "GRF"),
    ];
    let current = vec![position("FundA", 2.0, 100, "GRF")];
    let found = reconcile(&current, &rows);
    assert_eq!(
        found.mutations,
        vec![Mutation::Update {
            active: 1,
            position: position("FundA", 2.0, 100, "GRF")
        }]
    );
    let feeder = IbexShortFeeder::new();
    assert_eq!(feeder.active_position(&rows, &current[0]), Some(0));
    assert_eq!(
        feeder.active_position(&rows, &position("FundB", 2.0, 100, "GRF")),
        None
    );
    assert_eq!(feeder.active_position(&vec![], &current[0]), None);
}

#[test]
fn row_without_token_cannot_be_retired() {
    let mut lost = stored(0, "FundB", 0.5, 200, "GRF");
    lost.id = None;
    let rows = vec![stored(1, "FundA", 1.5, 100, "GRF"), lost];
    let found = reconcile(&vec![], &rows);
    assert_eq!(found.mutations, vec![Mutation::Retire(1)]);
    assert_eq!(found.corrupt, vec![1]);
    assert!(found.changed);
}

#[test]
fn rows_are_not_read_when_nothing_is_current() {
    let broken = ShortPositionBd {
        id: Some(9),
        owner: None,
        ticker: None,
        weight: None,
        open_date: None,
    };
    let found = reconcile(&vec![], &vec![broken]);
    assert_eq!(found.mutations, vec![Mutation::Retire(9)]);
}

#[test]
fn row_without_token_is_not_updated_but_inserted_anew() {
    let mut lost = stored(0, "FundA", 1.5, 100, "GRF");
    lost.id = None;
    let current = vec![position("FundA", 2.0, 100, "GRF")];
    let found = reconcile(&current, &vec![lost]);
    assert_eq!(
        found.mutations,
        vec![Mutation::Insert(position("FundA", 2.0, 100, "GRF"))]
    );
    assert!(found.corrupt.is_empty());
    assert!(found.changed);
}

#[test]
fn corrupt_row_stops_the_reconciliation() {
    let current = vec![position("FundA", 1.5, 100, "GRF")];
    let feeder = IbexShortFeeder::new();
    let mut row = stored(1, "FundB", 1.5, 100, "GRF");
    row.ticker = None;
    let rows = vec![stored(2, "FundA", 1.5, 100, "GRF"), row];
    assert_eq!(
        feeder.add_today_data(&current, &rows).unwrap_err(),
        DbError::MissingStockInfo("Missing ticker".to_string())
    );
    let mut first = stored(1, "FundB", 1.5, 100, "GRF");
    first.open_date = None;
    first.ticker = None;
    let mut second = stored(3, "FundC", 1.5, 100, "GRF");
    second.owner = None;
    let rows = vec![first, second];
    assert_eq!(
        feeder.add_today_data(&current, &rows).unwrap_err(),
        DbError::MissingStockInfo("Missing open date".to_string())
    );
}

#[test]
fn stored_row_becomes_a_position() {
    let row = stored(7, "FundA", 1.5, 100, "GRF");
    assert_eq!(
        ShortPosition::try_from(&row).unwrap(),
        position("FundA", 1.5, 100, "GRF")
    );
    let mut missing = stored(7, "FundA", 1.5, 100, "GRF");
    missing.id = None;
    assert_eq!(
        ShortPosition::try_from(&missing).unwrap(),
        position("FundA", 1.5, 100, "GRF")
    );
}

#[test]
fn stored_row_with_a_missing_field_is_corrupt() {
    let mut row = stored(7, "FundA", 1.5, 100, "GRF");
    row.owner = None;
    row.weight = None;
    assert_eq!(
        ShortPosition::try_from(&row).unwrap_err(),
        DbError::MissingStockInfo("Missing owner".to_string())
    );
    let mut row = stored(7, "FundA", 1.5, 100, "GRF");
    row.weight = None;
    row.ticker = None;
    assert_eq!(
        ShortPosition::try_from(&row).unwrap_err(),
        DbError::MissingStockInfo("Missing weight".to_string())
    );
    let mut row = stored(7, "FundA", 1.5, 100, "GRF");
    row.open_date = None;
    assert_eq!(
        ShortPosition::try_from(&row).unwrap_err(),
        DbError::MissingStockInfo("Missing open date".to_string())
    );
    let mut row = stored(7, "FundA", 1.5, 100, "GRF");
    row.ticker = None;
    assert_eq!(
        ShortPosition::try_from(&row).unwrap_err(),
        DbError::MissingStockInfo("Missing ticker".to_string())
    );
}

#[test]
fn stored_row_is_compared_with_a_position() {
    let row = stored(7, "FundA", 1.5, 100, "GRF");
    assert!(row.states(&position("FundA", 1.5, 100, "GRF")));
    assert!(!row.states(&position("FundA", 1.6, 100, "GRF")));
    assert!(!row.states(&position("FundA", 1.5, 101, "GRF")));
    assert!(!row.states(&position("FundB", 1.5, 100, "GRF")));
    assert!(!row.states(&position("FundA", 1.5, 100, "SLR")));
    assert!(row.holds(&position("FundA", 9.0, 9, "GRF")));
    assert!(!row.holds(&position("FundB", 1.5, 100, "GRF")));
    assert!(!row.holds(&position("FundA", 1.5, 100, "SLR")));
    let rows = vec![stored(1, "FundB", 1.5, 100, "GRF"), row];
    assert!(is_already_stored(&position("FundA", 1.5, 100, "GRF"), &rows));
    assert!(!is_already_stored(&position("FundA", 1.5, 100, "SLR"), &rows));
    assert!(!is_already_stored(&position("FundA", 1.5, 100, "GRF"), &vec![]));
    let current = vec![position("FundA", 2.0, 1, "GRF")];
    assert!(!is_no_longer_stated(&rows[1], &current));
    assert!(is_no_longer_stated(&rows[0], &current));
    assert!(is_no_longer_stated(&rows[1], &vec![]));
}

#[test]
fn insertion_writes_the_alive_row_and_then_the_historic_row() {
    let feeder = IbexShortFeeder::new();
    let written = position("FundA", 1.5, 100, "GRF");
    let transaction = feeder.insert_short_position(&written, None);
    assert_ne!(transaction.token, VOID_TOKEN);
    assert_eq!(
        transaction.statements,
        vec![
            Statement::InsertAlive {
                token: transaction.token
            },
            Statement::AppendHistoric {
                token: transaction.token,
                position: written.clone()
            },
        ]
    );
    let other = feeder.insert_short_position(&written, None);
    assert_ne!(other.token, transaction.token);
}

#[test]
fn update_moves_the_alive_row_to_a_new_token() {
    let feeder = IbexShortFeeder::new();
    let written = position("FundA", 2.0, 100, "GRF");
    let transaction = feeder.insert_short_position(&written, Some(42));
    assert_ne!(transaction.token, VOID_TOKEN);
    assert_ne!(transaction.token, 42);
    assert_eq!(
        transaction.statements,
        vec![
            Statement::Rekey {
                from: 42,
                to: transaction.token
            },
            Statement::AppendHistoric {
                token: transaction.token,
                position: written.clone()
            },
        ]
    );
    assert_eq!(
        write_statements(&written, Some(42), 77),
        vec![
            Statement::Rekey { from: 42, to: 77 },
            Statement::AppendHistoric {
                token: 77,
                position: written.clone()
            },
        ]
    );
    assert_eq!(
        write_statements(&written, None, 78),
        vec![
            Statement::InsertAlive { token: 78 },
            Statement::AppendHistoric {
                token: 78,
                position: written
            },
        ]
    );
}

#[test]
fn retirement_only_voids_the_token() {
    let feeder = IbexShortFeeder::new();
    let transaction = feeder.wipe_short_position(42);
    assert_eq!(transaction.token, VOID_TOKEN);
    assert_eq!(VOID_TOKEN, 0);
    assert_eq!(
        transaction.statements,
        vec![Statement::Rekey { from: 42, to: 0 }]
    );
}

#[test]
fn each_mutation_has_its_transaction() {
    let feeder = IbexShortFeeder::new();
    let written = position("FundA", 2.0, 100, "GRF");
    let insert = feeder.transaction_for(&Mutation::Insert(written.clone()));
    assert_eq!(insert.statements.len(), 2);
    assert_eq!(
        insert.statements[0],
        Statement::InsertAlive {
            token: insert.token
        }
    );
    let update = feeder.transaction_for(&Mutation::Update {
        active: 5,
        position: written.clone(),
    });
    assert_eq!(
        update.statements[0],
        Statement::Rekey {
            from: 5,
            to: update.token
        }
    );
    assert_eq!(
        update.statements[1],
        Statement::AppendHistoric {
            token: update.token,
            position: written
        }
    );
    let retire = feeder.transaction_for(&Mutation::Retire(5));
    assert_eq!(
        retire.statements,
        vec![Statement::Rekey { from: 5, to: 0 }]
    );
}

#[test]
fn listing_row_becomes_a_company() {
    let row = IbexCompanyBd {
        full_name: Some("Grifols Clase A".to_string()),
        name: Some("GRIFOLS".to_string()),
        ticker: Some("GRF".to_string()),
        isin: Some("ES0171996087".to_string()),
        extra_id: Some("A-58389123".to_string()),
    };
    assert_eq!(
        Company::try_from(&row).unwrap(),
        Company {
            full_name: Some("Grifols Clase A".to_string()),
            name: "GRIFOLS".to_string(),
            ticker: "GRF".to_string(),
            isin: "ES0171996087".to_string(),
            extra_id: Some("A-58389123".to_string()),
        }
    );
    let bare = IbexCompanyBd {
        full_name: None,
        name: Some("MTS".to_string()),
        ticker: Some("MTS".to_string()),
        isin: Some("LU1598757687".to_string()),
        extra_id: None,
    };
    let company = Company::try_from(&bare).unwrap();
    assert_eq!(company.full_name, None);
    assert_eq!(company.extra_id, None);
}

#[test]
fn listing_row_with_a_missing_field_is_refused() {
    let full = || IbexCompanyBd {
        full_name: None,
        name: Some("GRIFOLS".to_string()),
        ticker: Some("GRF".to_string()),
        isin: Some("ES0171996087".to_string()),
        extra_id: None,
    };
    let mut row = full();
    row.name = None;
    row.ticker = None;
    assert_eq!(
        Company::try_from(&row).unwrap_err(),
        DbError::MissingStockInfo("Missing name".to_string())
    );
    let mut row = full();
    row.ticker = None;
    row.isin = None;
    assert_eq!(
        Company::try_from(&row).unwrap_err(),
        DbError::MissingStockInfo("Missing ticker".to_string())
    );
    let mut row = full();
    row.isin = None;
    assert_eq!(
        Company::try_from(&row).unwrap_err(),
        DbError::MissingStockInfo("Missing ISIN".to_string())
    );
    let feeder = IbexShortFeeder::new();
    assert_eq!(
        feeder.stock_listing(&vec![full(), row]).unwrap_err(),
        DbError::Unknown("missing stock information in the DB".to_string())
    );
    let listed = feeder.stock_listing(&vec![full(), full()]).unwrap();
    assert_eq!(listed.len(), 2);
    assert_eq!(listed[1].ticker, "GRF");
    assert!(feeder.stock_listing(&vec![]).unwrap().is_empty());
}

#[test]
fn errors_of_the_record_describe_themselves() {
    assert_eq!(
        DbError::MissingStockInfo("x".to_string()).message(),
        "missing stock information in the DB"
    );
    assert_eq!(DbError::Unknown("x".to_string()).message(), "unknown db error");
}

#[test]
fn report_lists_what_changed_and_what_failed() {
    let mut report = RunReport::new();
    assert!(report.updated.is_empty());
    assert!(report.failed.is_empty());
    assert_eq!(report.record("GRF", Ok(true)), Entry::Updated);
    assert_eq!(report.record("SLR", Ok(false)), Entry::Nothing);
    assert_eq!(
        report.record("MTS", Err(DataProviderError::Cnmv(CnmvError::MissingIsin))),
        Entry::Nothing
    );
    assert_eq!(
        report.record("IAG", Err(DataProviderError::Cnmv(CnmvError::UnknownCompany))),
        Entry::Failed
    );
    assert_eq!(
        report.record(
            "ANA",
            Err(DataProviderError::Db(DbError::Unknown("down".to_string())))
        ),
        Entry::Failed
    );
    assert_eq!(report.record("TEF", Ok(true)), Entry::Updated);
    assert_eq!(report.updated, vec!["GRF".to_string(), "TEF".to_string()]);
    assert_eq!(
        report.failed,
        vec![
            Failure {
                ticker: "IAG".to_string(),
                error: DataProviderError::Cnmv(CnmvError::UnknownCompany),
            },
            Failure {
                ticker: "ANA".to_string(),
                error: DataProviderError::Db(DbError::Unknown("down".to_string())),
            },
        ]
    );
}

/// Executes the statements on the two tables of a record.
fn execute(
    alive: &mut Vec<u128>,
    historic: &mut Vec<(u128, ShortPosition)>,
    statements: &Vec<Statement>,
) {
    for statement in statements {
        match statement {
            Statement::InsertAlive { token } => alive.push(*token),
            Statement::Rekey { from, to } => {
                for slot in alive.iter_mut() {
                    if *slot == *from {
                        *slot = *to;
                    }
                }
            }
            Statement::AppendHistoric { token, position } => {
                historic.push((*token, position.clone()))
            }
        }
    }
}

/// The alive rows joined with the historic rows of the same token.
fn join(alive: &Vec<u128>, historic: &Vec<(u128, ShortPosition)>) -> Vec<ShortPosition> {
    let mut listed = Vec::new();
    for slot in alive {
        for (token, position) in historic {
            if token == slot {
                listed.push(position.clone());
            }
        }
    }
    listed
}

fn sorted_by_owner(mut positions: Vec<ShortPosition>) -> Vec<ShortPosition> {
    positions.sort_by(|one, other| one.owner.cmp(&other.owner));
    positions
}

#[test]
fn after_the_transactions_the_record_lists_the_current_positions() {
    let feeder = IbexShortFeeder::new();
    let rows = vec![
        stored(11, "A", 1.0, 1, "SLR"),
        stored(12, "B", 2.0, 2, "SLR"),
        stored(13, "C", 3.0, 3, "SLR"),
    ];
    let cases = vec![
        vec![],
        vec![position("B", 2.0, 2, "SLR")],
        vec![position("D", 4.0, 4, "SLR"), position("A", 1.5, 1, "SLR")],
        vec![
            position("C", 3.0, 9, "SLR"),
            position("B", 2.0, 2, "SLR"),
            position("E", 5.0, 5, "SLR"),
            position("A", 1.0, 1, "SLR"),
        ],
    ];
    for current in cases {
        let mut alive: Vec<u128> = rows.iter().map(|row| row.id.unwrap()).collect();
        let mut historic: Vec<(u128, ShortPosition)> = rows
            .iter()
            .map(|row| (row.id.unwrap(), ShortPosition::try_from(row).unwrap()))
            .collect();
        let before = historic.clone();
        let found = feeder.add_today_data(&current, &rows).unwrap();
        for mutation in found.mutations.iter() {
            let transaction = feeder.transaction_for(mutation);
            execute(&mut alive, &mut historic, &transaction.statements);
        }
        assert_eq!(
            sorted_by_owner(join(&alive, &historic)),
            sorted_by_owner(current.clone())
        );
        assert_eq!(alive.len(), rows.len() + found.mutations.iter().filter(|m| matches!(m, Mutation::Insert(_))).count());
        assert_eq!(&historic[..before.len()], &before[..]);
    }
}
