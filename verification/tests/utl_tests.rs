use ecoz2::error::EcozError;
use ecoz2::utl::{ends_with, get_files_from_csv, is_tt_list, TTRow};

fn row(tt: &str, class: &str, selection: &str) -> TTRow {
    TTRow { tt: tt.to_string(), class: class.to_string(), selection: selection.to_string() }
}

fn table() -> Vec<TTRow> {
    vec![
        row("TRAIN", "A", "00001"),
        row("TEST", "A", "00002"),
        row("TRAIN", "Bm", "00003"),
        row("TRAIN", "A", "00004"),
        row("TEST", "Bm", "00005"),
    ]
}

#[test]
fn files_of_a_category() {
    let files = get_files_from_csv(&table(), "TRAIN", &None, "sequences/M32", ".seq").unwrap();
    assert_eq!(
        files,
        vec![
            "data/sequences/M32/A/00001.seq",
            "data/sequences/M32/Bm/00003.seq",
            "data/sequences/M32/A/00004.seq",
        ]
    );
}

#[test]
fn files_of_a_category_and_class() {
    let class = Some("Bm".to_string());
    let files = get_files_from_csv(&table(), "TEST", &class, "predictors", ".prd").unwrap();
    assert_eq!(files, vec!["data/predictors/Bm/00005.prd"]);
}

#[test]
fn empty_class_selects_every_class() {
    let class = Some(String::new());
    let files = get_files_from_csv(&table(), "TEST", &class, "signals", ".wav").unwrap();
    assert_eq!(files, vec!["data/signals/A/00002.wav", "data/signals/Bm/00005.wav"]);
}

#[test]
fn no_files_is_refused() {
    let class = Some("C".to_string());
    assert_eq!(
        get_files_from_csv(&table(), "TRAIN", &class, "signals", ".wav"),
        Err(EcozError::NoFilesGiven)
    );
    assert_eq!(
        get_files_from_csv(&table(), "train", &None, "signals", ".wav"),
        Err(EcozError::NoFilesGiven)
    );
    assert_eq!(
        get_files_from_csv(&vec![], "TRAIN", &None, "signals", ".wav"),
        Err(EcozError::NoFilesGiven)
    );
}

#[test]
fn ends_with_suffix() {
    assert!(ends_with("tt-list.csv", ".csv"));
    assert!(ends_with(".csv", ".csv"));
    assert!(ends_with("anything", ""));
    assert!(!ends_with("csv", ".csv"));
    assert!(!ends_with("list.csv.bak", ".csv"));
    assert!(!ends_with("list.CSV", ".csv"));
    assert!(ends_with("señal.wav", "ñal.wav"));
}

#[test]
fn one_csv_is_a_table() {
    assert!(is_tt_list(&vec!["tt.csv".to_string()]));
    assert!(!is_tt_list(&vec!["tt.csv".to_string(), "other.csv".to_string()]));
    assert!(!is_tt_list(&vec!["data/sequences".to_string()]));
    assert!(!is_tt_list(&vec![]));
}
