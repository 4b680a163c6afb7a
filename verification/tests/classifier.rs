use data_harvest::domain::short_position::{page_kind, PageKind};
use data_harvest::{CnmvError, CnmvProvider, ShortResponse};

const FAILURE: &str = "No ha sido posible completar su consulta";
const NO_DATA: &str = "No se han encontrado datos disponibles";
const HISTORIC: &str = "Serie histórica";

fn page(inner: &str) -> String {
    format!("<html><body><div>{}</div></body></html>", inner)
}

#[test]
fn ordinary_page_is_accepted_as_it_is() {
    let body = page("<table><tr><td>anything</td></tr></table>");
    let checked = ShortResponse::parse(body.clone()).unwrap();
    assert_eq!(checked.as_ref(), body.as_str());
}

#[test]
fn empty_body_is_accepted() {
    let checked = ShortResponse::parse(String::new()).unwrap();
    assert_eq!(checked.as_ref(), "");
}

#[test]
fn failure_marker_is_an_external_error() {
    let body = page(FAILURE);
    match ShortResponse::parse(body) {
        Err(CnmvError::ExternalError(reason)) => {
            assert_eq!(reason, "The request could be processed by the external server")
        }
        other => panic!("unexpected outcome: {:?}", other),
    }
}

#[test]
fn failure_marker_wins_over_every_other_marker() {
    let body = page(&format!("{} {} ES0105777017 {}", NO_DATA, HISTORIC, FAILURE));
    assert!(matches!(
        ShortResponse::parse(body),
        Err(CnmvError::ExternalError(_))
    ));
}

#[test]
fn no_data_with_historic_series_is_accepted() {
    let body = page(&format!("{} <a>{}</a>", NO_DATA, HISTORIC));
    assert!(ShortResponse::parse(body).is_ok());
}

#[test]
fn no_data_with_an_isin_is_accepted_without_positions() {
    let body = page(&format!("<span>ES0105777017</span> {}", NO_DATA));
    let checked = ShortResponse::parse(body).unwrap();
    let provider = CnmvProvider::new();
    let rows = provider.position_rows(&checked).unwrap();
    assert!(rows.is_empty());
    let positions = provider.short_positions(&Vec::new(), "PUIG").unwrap();
    assert!(positions.is_empty());
}

#[test]
fn no_data_alone_is_an_unknown_company() {
    let body = page(NO_DATA);
    assert_eq!(
        ShortResponse::parse(body).unwrap_err(),
        CnmvError::UnknownCompany
    );
}

#[test]
fn isin_is_two_capital_letters_and_ten_digits() {
    let short = page(&format!("ES010577701 {}", NO_DATA));
    assert_eq!(
        ShortResponse::parse(short).unwrap_err(),
        CnmvError::UnknownCompany
    );
    let one_letter = page(&format!("E0105777017 {}", NO_DATA));
    assert_eq!(
        ShortResponse::parse(one_letter).unwrap_err(),
        CnmvError::UnknownCompany
    );
    let small_letters = page(&format!("es0105777017 {}", NO_DATA));
    assert_eq!(
        ShortResponse::parse(small_letters).unwrap_err(),
        CnmvError::UnknownCompany
    );
    let digits_apart = page(&format!("ES01057 77017 {}", NO_DATA));
    assert_eq!(
        ShortResponse::parse(digits_apart).unwrap_err(),
        CnmvError::UnknownCompany
    );
    let other_country = page(&format!("FR0105777017 {}", NO_DATA));
    assert!(ShortResponse::parse(other_country).is_ok());
    let inside_text = page(&format!("xxES01057770179yy {}", NO_DATA));
    assert!(ShortResponse::parse(inside_text).is_ok());
}

#[test]
fn no_data_with_a_foreign_isin_is_accepted_as_it_is() {
    let body = "No se han encontrado datos disponibles FR0000120271".to_string();
    let checked = ShortResponse::parse(body.clone()).unwrap();
    assert_eq!(checked.as_ref(), body.as_str());
}

#[test]
fn historic_marker_must_be_written_with_its_accent() {
    let body = page(&format!("{} Serie historica", NO_DATA));
    assert_eq!(
        ShortResponse::parse(body).unwrap_err(),
        CnmvError::UnknownCompany
    );
}

#[test]
fn classifying_twice_gives_the_same() {
    let bodies = vec![
        page("plain"),
        page(FAILURE),
        page(NO_DATA),
        page(&format!("{} {}", NO_DATA, HISTORIC)),
        page(&format!("{} ES0105777017", NO_DATA)),
    ];
    for body in bodies {
        let first = ShortResponse::parse(body.clone());
        let second = ShortResponse::parse(body.clone());
        match (first, second) {
            (Ok(a), Ok(b)) => {
                assert_eq!(a.as_ref(), b.as_ref());
                let again = ShortResponse::parse(a.as_ref().to_string()).unwrap();
                assert_eq!(again.as_ref(), body.as_str());
            }
            (Err(a), Err(b)) => assert_eq!(a, b),
            (a, b) => panic!("outcomes differ: {:?} and {:?}", a, b),
        }
    }
}

#[test]
fn kind_follows_the_markers() {
    assert_eq!(page_kind(true, true, true, Some(true)), PageKind::ExternalFailure);
    assert_eq!(page_kind(true, false, false, None), PageKind::ExternalFailure);
    assert_eq!(page_kind(false, false, false, None), PageKind::Company);
    assert_eq!(page_kind(false, false, true, Some(false)), PageKind::Company);
    assert_eq!(page_kind(false, true, true, Some(false)), PageKind::Company);
    assert_eq!(page_kind(false, true, true, None), PageKind::Company);
    assert_eq!(page_kind(false, true, false, Some(true)), PageKind::Company);
    assert_eq!(page_kind(false, true, false, Some(false)), PageKind::UnknownCompany);
    assert_eq!(page_kind(false, true, false, None), PageKind::UnknownCompany);
}

#[test]
fn status_other_than_200_is_an_external_error() {
    let provider = CnmvProvider::new();
    let checked = provider.collect_data(404, "404".to_string(), page("plain"));
    assert_eq!(
        checked.unwrap_err(),
        CnmvError::ExternalError("404".to_string())
    );
    let checked = provider.collect_data(500, "500".to_string(), String::new());
    assert_eq!(
        checked.unwrap_err(),
        CnmvError::ExternalError("500".to_string())
    );
}

#[test]
fn status_200_is_checked_by_its_body() {
    let provider = CnmvProvider::new();
    let body = page("plain");
    let checked = provider
        .collect_data(200, "200".to_string(), body.clone())
        .unwrap();
    assert_eq!(checked.as_ref(), body.as_str());
    let failed = provider.collect_data(200, "200".to_string(), page(FAILURE));
    assert!(matches!(failed, Err(CnmvError::ExternalError(_))));
    let unknown = provider.collect_data(200, "200".to_string(), page(NO_DATA));
    assert_eq!(unknown.unwrap_err(), CnmvError::UnknownCompany);
}
