use chrono::TimeZone;
use data_harvest::calendar::{the_instant, LocalInstant};
use data_harvest::web_scrappers::cnmv_scrapper::{
    row_outcome, scan_row, scan_table, PositionRow, RowOutcome, WeighedRow,
};
use data_harvest::web_scrappers::page::Cell;
use data_harvest::{
    AliveShortPositions, CnmvError, CnmvProvider, Company, ShortPosition, ShortResponse, Weight,
};

fn weigh(rows: &Vec<PositionRow>) -> Vec<WeighedRow> {
    rows.iter()
        .map(|row| WeighedRow {
            owner: row.owner.clone(),
            weights: row
                .weights
                .iter()
                .map(|numeral| {
                    numeral
                        .parse::<f32>()
                        .ok()
                        .map(|value| Weight::from_bits(value.to_bits()))
                })
                .collect(),
            date: row.date.clone(),
        })
        .collect()
}

fn extract(body: &str, ticker: &str) -> Result<Vec<ShortPosition>, CnmvError> {
    let provider = CnmvProvider::new();
    let page = ShortResponse::parse(body.to_string())?;
    let rows = provider.position_rows(&page)?;
    provider.short_positions(&weigh(&rows), ticker)
}

fn table(rows: &str) -> String {
    format!(
        "<html><body><table><thead><tr><th>Titular</th><th>%</th><th>Fecha</th></tr></thead>\
         <tbody>{}</tbody></table></body></html>",
        rows
    )
}

fn row(owner: &str, weight: &str, date: &str) -> String {
    format!(
        "<tr><td class=\"Izquierda\">{}</td><td data-th=\"% sobre el capital\">{}</td>\
         <td data-th=\"Fecha de la posición\">{}</td></tr>",
        owner, weight, date
    )
}

fn cell(class: Option<&str>, header: Option<&str>, text: Option<&str>) -> Cell {
    Cell {
        class: class.map(String::from),
        header: header.map(String::from),
        text: text.map(String::from),
    }
}

#[test]
fn rows_are_read_as_text() {
    let body = table(&format!(
        "{}{}",
        row("  Fund A \n", "1,5", "02/01/2025"),
        row("Fund B", "0,750", "15/07/2024")
    ));
    let provider = CnmvProvider::new();
    let page = ShortResponse::parse(body).unwrap();
    let rows = provider.position_rows(&page).unwrap();
    assert_eq!(
        rows,
        vec![
            PositionRow {
                owner: None,
                weights: vec![],
                date: None
            },
            PositionRow {
                owner: Some("Fund A".to_string()),
                weights: vec!["1.5".to_string()],
                date: Some("02/01/2025".to_string()),
            },
            PositionRow {
                owner: Some("Fund B".to_string()),
                weights: vec!["0.750".to_string()],
                date: Some("15/07/2024".to_string()),
            },
        ]
    );
}

#[test]
fn positions_come_in_page_order_with_madrid_time() {
    let body = table(&format!(
        "{}{}",
        row("Fund A", "1,5", "02/01/2025"),
        row("Fund B", "0,750", "15/07/2024")
    ));
    let positions = extract(&body, "GRF").unwrap();
    assert_eq!(
        positions,
        vec![
            ShortPosition {
                owner: "Fund A".to_string(),
                weight: Weight::from_bits(1.5f32.to_bits()),
                open_date: 1735828200,
                ticker: "GRF".to_string(),
            },
            ShortPosition {
                owner: "Fund B".to_string(),
                weight: Weight::from_bits(0.75f32.to_bits()),
                open_date: 1721050200,
                ticker: "GRF".to_string(),
            },
        ]
    );
    assert_eq!(positions[0].weight.bits, 1069547520);
}

#[test]
fn disclosure_time_is_half_past_three_in_madrid() {
    let positions = extract(&table(&row("Fund A", "1", "30/03/2025")), "SLR").unwrap();
    let expected = chrono::Utc
        .with_ymd_and_hms(2025, 3, 30, 13, 30, 0)
        .unwrap()
        .timestamp();
    assert_eq!(positions[0].open_date, expected);
    assert_eq!(positions[0].open_date, 1743341400);
}

#[test]
fn comma_and_point_numerals_give_the_same_weight() {
    let with_comma = extract(&table(&row("Fund A", "1,25", "02/01/2025")), "GRF").unwrap();
    let with_point = extract(&table(&row("Fund A", "1.25", "02/01/2025")), "GRF").unwrap();
    assert_eq!(with_comma, with_point);
    assert_eq!(with_comma[0].weight.bits, 1.25f32.to_bits());
}

#[test]
fn page_without_rows_has_no_positions() {
    assert_eq!(extract("<html><body><p>nothing</p></body></html>", "GRF").unwrap(), vec![]);
    assert_eq!(extract(&table(""), "GRF").unwrap(), vec![]);
}

#[test]
fn weight_that_is_no_number_rejects_the_page() {
    let body = table(&format!(
        "{}{}",
        row("Fund A", "1,5", "02/01/2025"),
        row("Fund B", "n/a", "15/07/2024")
    ));
    assert_eq!(extract(&body, "GRF").unwrap_err(), CnmvError::MalformedNumber);
}

#[test]
fn weight_that_is_no_number_rejects_a_row_without_owner_too() {
    let body = table("<tr><td data-th=\"% sobre el capital\">abc</td></tr>");
    assert_eq!(extract(&body, "GRF").unwrap_err(), CnmvError::MalformedNumber);
}

#[test]
fn empty_weight_cell_is_no_number() {
    let body = table(
        "<tr><td class=\"Izquierda\">Fund A</td><td data-th=\"% sobre el capital\"></td>\
         <td data-th=\"Fecha de la posición\">02/01/2025</td></tr>",
    );
    assert_eq!(extract(&body, "GRF").unwrap_err(), CnmvError::MalformedNumber);
}

#[test]
fn date_that_is_no_date_rejects_the_page() {
    let body = table(&format!(
        "{}{}",
        row("Fund A", "1,5", "31/02/2025"),
        row("Fund B", "0,5", "15/07/2024")
    ));
    assert_eq!(extract(&body, "GRF").unwrap_err(), CnmvError::InvalidDate);
    let body = table(&row("Fund A", "1,5", "2025-01-02"));
    assert_eq!(extract(&body, "GRF").unwrap_err(), CnmvError::InvalidDate);
}

#[test]
fn owner_without_date_rejects_the_page() {
    let body = table(
        "<tr><td class=\"Izquierda\">Fund A</td><td data-th=\"% sobre el capital\">1,5</td></tr>",
    );
    assert_eq!(extract(&body, "GRF").unwrap_err(), CnmvError::InvalidDate);
}

#[test]
fn first_bad_row_decides_the_error() {
    let body = table(&format!(
        "{}{}",
        row("Fund A", "1,5", "bad"),
        row("Fund B", "bad", "15/07/2024")
    ));
    assert_eq!(extract(&body, "GRF").unwrap_err(), CnmvError::InvalidDate);
    let body = table(&format!(
        "{}{}",
        row("Fund A", "bad", "bad"),
        row("Fund B", "1", "15/07/2024")
    ));
    assert_eq!(extract(&body, "GRF").unwrap_err(), CnmvError::MalformedNumber);
}

#[test]
fn rows_without_owner_are_skipped() {
    let body = table(&format!(
        "<tr><td data-th=\"% sobre el capital\">3,0</td>\
         <td data-th=\"Fecha de la posición\">not a date</td></tr>{}",
        row("Fund A", "0,5", "02/01/2025")
    ));
    let positions = extract(&body, "GRF").unwrap();
    assert_eq!(positions.len(), 1);
    assert_eq!(positions[0].owner, "Fund A");
    assert_eq!(positions[0].weight.bits, 1056964608);
}

#[test]
fn owner_without_weight_cell_weighs_zero() {
    let body = table(
        "<tr><td class=\"Izquierda\">Fund A</td>\
         <td data-th=\"Fecha de la posición\">02/01/2025</td></tr>",
    );
    let positions = extract(&body, "GRF").unwrap();
    assert_eq!(positions[0].weight, Weight::zero());
    assert_eq!(positions[0].weight.bits, 0);
}

#[test]
fn cell_with_a_class_is_not_read_by_its_header() {
    let cells = vec![
        cell(Some("Derecha"), Some("% sobre el capital"), Some("9,9")),
        cell(Some("Izquierda"), Some("Fecha de la posición"), Some(" Fund A ")),
        cell(None, Some("% sobre el capital"), Some("1,5")),
        cell(None, Some("Otra"), Some("x")),
        cell(None, None, Some("y")),
    ];
    let row = scan_row(&cells);
    assert_eq!(
        row,
        PositionRow {
            owner: Some("Fund A".to_string()),
            weights: vec!["1.5".to_string()],
            date: None,
        }
    );
}

#[test]
fn last_cell_of_each_kind_wins_and_every_weight_is_kept() {
    let cells = vec![
        cell(Some("Izquierda"), None, Some("First")),
        cell(None, Some("% sobre el capital"), Some("1,0")),
        cell(None, Some("Fecha de la posición"), Some("01/01/2025")),
        cell(Some("Izquierda"), None, Some("Second")),
        cell(None, Some("% sobre el capital"), Some("2,0")),
        cell(None, Some("Fecha de la posición"), Some("02/01/2025")),
        cell(Some("Izquierda"), None, None),
        cell(None, Some("Fecha de la posición"), None),
        cell(None, Some("% sobre el capital"), None),
    ];
    let row = scan_row(&cells);
    assert_eq!(
        row,
        PositionRow {
            owner: Some("Second".to_string()),
            weights: vec!["1.0".to_string(), "2.0".to_string(), String::new()],
            date: Some("02/01/2025".to_string()),
        }
    );
}

#[test]
fn scan_of_no_cells_is_blank() {
    assert_eq!(
        scan_row(&vec![]),
        PositionRow {
            owner: None,
            weights: vec![],
            date: None
        }
    );
    assert_eq!(scan_table(&vec![]), vec![]);
    assert_eq!(scan_table(&vec![vec![], vec![]]).len(), 2);
}

#[test]
fn owner_is_trimmed_of_unicode_white_space() {
    let cells = vec![cell(Some("Izquierda"), None, Some("\u{a0}\t Fund\u{2003}A \u{3000}\n"))];
    assert_eq!(scan_row(&cells).owner, Some("Fund\u{2003}A".to_string()));
}

#[test]
fn every_comma_becomes_a_point() {
    let cells = vec![cell(None, Some("% sobre el capital"), Some("1,234,5"))];
    assert_eq!(scan_row(&cells).weights, vec!["1.234.5".to_string()]);
}

#[test]
fn outcome_of_a_row() {
    let full = WeighedRow {
        owner: Some("Fund A".to_string()),
        weights: vec![Some(Weight::from_bits(1)), Some(Weight::from_bits(2))],
        date: Some("02/01/2025".to_string()),
    };
    assert_eq!(
        row_outcome(&full, Some(77), "GRF"),
        RowOutcome::Position(ShortPosition {
            owner: "Fund A".to_string(),
            weight: Weight::from_bits(2),
            open_date: 77,
            ticker: "GRF".to_string(),
        })
    );
    assert_eq!(row_outcome(&full, None, "GRF"), RowOutcome::InvalidDate);
    let spoiled = WeighedRow {
        owner: Some("Fund A".to_string()),
        weights: vec![None, Some(Weight::from_bits(2))],
        date: Some("02/01/2025".to_string()),
    };
    assert_eq!(row_outcome(&spoiled, Some(77), "GRF"), RowOutcome::MalformedNumber);
    assert_eq!(row_outcome(&spoiled, None, "GRF"), RowOutcome::MalformedNumber);
    let blank = WeighedRow {
        owner: None,
        weights: vec![Some(Weight::from_bits(2))],
        date: None,
    };
    assert_eq!(row_outcome(&blank, None, "GRF"), RowOutcome::Skipped);
    assert_eq!(row_outcome(&blank, Some(1), "GRF"), RowOutcome::Skipped);
}

#[test]
fn ticker_comes_from_the_company() {
    let body = table(&row("Fund A", "1,5", "02/01/2025"));
    assert_eq!(extract(&body, "SLR").unwrap()[0].ticker, "SLR");
    assert_eq!(extract(&body, "GRF").unwrap()[0].ticker, "GRF");
}

#[test]
fn request_url_needs_the_nif() {
    let provider = CnmvProvider::new();
    let grifols = Company {
        full_name: Some("Grifols Clase A".to_string()),
        name: "GRIFOLS".to_string(),
        ticker: "GRF".to_string(),
        isin: "ES0171996087".to_string(),
        extra_id: Some("A-58389123".to_string()),
    };
    assert_eq!(
        provider.request_url(&grifols).unwrap(),
        "https://www.cnmv.es/Portal/Consultas/EE/PosicionesCortas.aspx?nif=A-58389123"
    );
    let abroad = Company {
        full_name: None,
        name: "ARCELORMITTAL".to_string(),
        ticker: "MTS".to_string(),
        isin: "LU1598757687".to_string(),
        extra_id: None,
    };
    assert_eq!(provider.request_url(&abroad).unwrap_err(), CnmvError::MissingIsin);
}

#[test]
fn default_provider_is_the_new_one() {
    let company = Company {
        full_name: None,
        name: "SOLARIA".to_string(),
        ticker: "SLR".to_string(),
        isin: "ES0165386014".to_string(),
        extra_id: Some("A83511501".to_string()),
    };
    assert_eq!(
        CnmvProvider::default().request_url(&company).unwrap(),
        CnmvProvider::new().request_url(&company).unwrap()
    );
}

#[test]
fn new_snapshot_is_empty_and_taken_now() {
    let before = chrono::Utc::now().timestamp();
    let snapshot = AliveShortPositions::new();
    let after = chrono::Utc::now().timestamp();
    assert_eq!(snapshot.total, Weight::zero());
    assert!(snapshot.positions.is_empty());
    assert!(before <= snapshot.date && snapshot.date <= after);
    assert!(AliveShortPositions::default().positions.is_empty());
}

#[test]
fn default_position_is_blank() {
    let position = ShortPosition::default();
    assert_eq!(position.owner, "");
    assert_eq!(position.ticker, "");
    assert_eq!(position.weight.bits, 0);
    assert_eq!(position.open_date, 0);
}

#[test]
fn positions_are_equal_by_their_four_fields() {
    let base = ShortPosition {
        owner: "Fund A".to_string(),
        weight: Weight::from_bits(1.5f32.to_bits()),
        open_date: 10,
        ticker: "GRF".to_string(),
    };
    assert_eq!(base.clone(), base);
    let mut other = base.clone();
    other.weight = Weight::from_bits(2.0f32.to_bits());
    assert_ne!(other, base);
    assert!(other.same_position(&base));
    let mut other = base.clone();
    other.open_date = 11;
    assert_ne!(other, base);
    assert!(other.same_position(&base));
    let mut other = base.clone();
    other.owner = "Fund B".to_string();
    assert_ne!(other, base);
    assert!(!other.same_position(&base));
    let mut other = base.clone();
    other.ticker = "SLR".to_string();
    assert_ne!(other, base);
    assert!(!other.same_position(&base));
}

#[test]
fn snapshot_keeps_the_instant_at_which_it_was_taken() {
    let snapshot = AliveShortPositions::taken_at(1735828200);
    assert_eq!(snapshot.date, 1735828200);
    assert_eq!(snapshot.total, Weight::zero());
    assert!(snapshot.positions.is_empty());
    assert_eq!(AliveShortPositions::taken_at(-1).date, -1);
}

#[test]
fn only_a_time_shown_once_denotes_an_instant() {
    assert_eq!(the_instant(Some(LocalInstant::Once(1735828200))), Some(1735828200));
    assert_eq!(the_instant(Some(LocalInstant::Once(-5))), Some(-5));
    assert_eq!(the_instant(Some(LocalInstant::Never)), None);
    assert_eq!(the_instant(Some(LocalInstant::Twice(10, 3610))), None);
    assert_eq!(the_instant(None), None);
}
