use ecoz2::c12n::{class_id_of, classify, C12nResults, CaseOutcome, TestCase};
use ecoz2::ranking::{candidate_rank, rank_models, score_keys, top_ranked};
use ecoz2::error::EcozError;
use ecoz2::score::score_key;

fn names(list: &[&str]) -> Vec<String> {
    list.iter().map(|s| s.to_string()).collect()
}

fn bits(scores: &[f64]) -> Vec<u64> {
    scores.iter().map(|s| s.to_bits()).collect()
}

#[test]
fn score_keys_follow_the_order_of_doubles() {
    let scores = [
        f64::NEG_INFINITY,
        -1.0e300,
        -2.5,
        -1.0,
        -f64::MIN_POSITIVE,
        -0.0,
        0.0,
        f64::MIN_POSITIVE,
        0.1,
        0.9,
        1.0,
        1.0e300,
        f64::INFINITY,
    ];
    for a in scores {
        for b in scores {
            let ka = score_key(a.to_bits()).unwrap();
            let kb = score_key(b.to_bits()).unwrap();
            assert_eq!(ka.cmp(&kb), a.partial_cmp(&b).unwrap(), "{} vs {}", a, b);
        }
    }
}

#[test]
fn score_key_exact_values() {
    assert_eq!(score_key(0.0f64.to_bits()), Some(0x8000_0000_0000_0000));
    assert_eq!(score_key((-0.0f64).to_bits()), Some(0x8000_0000_0000_0000));
    assert_eq!(score_key(1.0f64.to_bits()), Some(0xbff0_0000_0000_0000));
    assert_eq!(score_key((-1.0f64).to_bits()), Some(0x400f_ffff_ffff_ffff));
}

#[test]
fn score_key_refuses_nan() {
    assert_eq!(score_key(f64::NAN.to_bits()), None);
    assert_eq!(score_key((-f64::NAN).to_bits()), None);
    assert_eq!(score_key(0x7ff0_0000_0000_0001), None);
    assert!(score_key(f64::INFINITY.to_bits()).is_some());
    assert_eq!(score_keys(&bits(&[0.5, f64::NAN])), None);
}

#[test]
fn rank_models_sorts_ascending_and_stable() {
    let keys = score_keys(&bits(&[0.3, -1.0, 0.3, 2.0, -1.0])).unwrap();
    assert_eq!(rank_models(&keys), vec![1, 4, 0, 2, 3]);
    assert_eq!(top_ranked(&keys), 3);
    assert_eq!(candidate_rank(&keys, 3), 1);
    assert_eq!(candidate_rank(&keys, 2), 2);
    assert_eq!(candidate_rank(&keys, 0), 3);
    assert_eq!(candidate_rank(&keys, 4), 4);
    assert_eq!(candidate_rank(&keys, 1), 5);
}

#[test]
fn rank_models_agrees_with_a_stable_sort() {
    let scores = [0.5, 0.25, 0.5, -3.0, 7.0, 0.25, 0.5, -0.0, 0.0];
    let keys = score_keys(&bits(&scores)).unwrap();
    let mut expected: Vec<(usize, &f64)> = scores.iter().enumerate().collect();
    expected.sort_by(|a, b| a.1.partial_cmp(b.1).unwrap());
    let expected: Vec<usize> = expected.iter().map(|p| p.0).collect();
    let order = rank_models(&keys);
    assert_eq!(order, expected);
    assert_eq!(top_ranked(&keys), *order.last().unwrap());
    for (place, model) in order.iter().enumerate() {
        assert_eq!(candidate_rank(&keys, *model), order.len() - place);
    }
}

#[test]
fn top_ranked_among_ties_is_the_last_model() {
    let keys = score_keys(&bits(&[1.0, 1.0, 1.0])).unwrap();
    assert_eq!(top_ranked(&keys), 2);
    assert_eq!(rank_models(&keys), vec![0, 1, 2]);
}

#[test]
fn new_results_are_all_zero() {
    let c12n = C12nResults::new(names(&["A", "B"]));
    assert_eq!(c12n.result, vec![vec![0; 3]; 3]);
    assert_eq!(c12n.confusion, vec![vec![0; 3]; 3]);
    assert!(c12n.y_true.is_empty());
    assert!(c12n.y_pred.is_empty());
    assert_eq!(c12n.num_cases(), 0);
}

#[test]
fn add_case_correct_prediction() {
    let mut c12n = C12nResults::new(names(&["A", "B"]));
    let outcome = c12n.add_case(0, "A", bits(&[0.9, 0.1])).unwrap();
    assert_eq!(outcome, CaseOutcome { predicted_id: 0, rank: 1, correct: true });
    assert_eq!(c12n.confusion[0][0], 1);
    assert_eq!(c12n.confusion, vec![vec![1, 0, 0], vec![0, 0, 0], vec![0, 0, 0]]);
    // tests, first candidate, second candidate
    assert_eq!(c12n.result, vec![vec![1, 1, 0], vec![0, 0, 0], vec![1, 1, 0]]);
    assert_eq!(c12n.y_true, names(&["A"]));
    assert_eq!(c12n.y_pred, names(&["A"]));
    assert_eq!(c12n.num_cases(), 1);
}

#[test]
fn add_case_wrong_prediction() {
    let mut c12n = C12nResults::new(names(&["A", "B"]));
    let outcome = c12n.add_case(0, "A", bits(&[0.1, 0.9])).unwrap();
    assert_eq!(outcome, CaseOutcome { predicted_id: 1, rank: 2, correct: false });
    assert_eq!(c12n.confusion[0][1], 1);
    assert_eq!(c12n.confusion, vec![vec![0, 1, 0], vec![0, 0, 0], vec![0, 0, 0]]);
    // never the first candidate
    assert_eq!(c12n.result[0][1], 0);
    assert_eq!(c12n.result[2][1], 0);
    assert_eq!(c12n.result, vec![vec![1, 0, 1], vec![0, 0, 0], vec![1, 0, 1]]);
    assert_eq!(c12n.y_true, names(&["A"]));
    assert_eq!(c12n.y_pred, names(&["B"]));
}

#[test]
fn add_case_with_log_probabilities() {
    let mut c12n = C12nResults::new(names(&["A", "B", "C"]));
    let outcome = c12n.add_case(2, "C", bits(&[-120.5, -80.25, -99.0])).unwrap();
    assert_eq!(outcome, CaseOutcome { predicted_id: 1, rank: 2, correct: false });
    let outcome = c12n.add_case(0, "A", bits(&[-120.5, -80.25, -99.0])).unwrap();
    assert_eq!(outcome, CaseOutcome { predicted_id: 1, rank: 3, correct: false });
    let outcome = c12n.add_case(1, "B", bits(&[-120.5, -80.25, -99.0])).unwrap();
    assert_eq!(outcome, CaseOutcome { predicted_id: 1, rank: 1, correct: true });
    assert_eq!(
        c12n.result,
        vec![vec![1, 0, 0, 1], vec![1, 1, 0, 0], vec![1, 0, 1, 0], vec![3, 1, 1, 1]]
    );
    assert_eq!(
        c12n.confusion,
        vec![vec![0, 1, 0, 0], vec![0, 1, 0, 0], vec![0, 1, 0, 0], vec![0, 0, 0, 0]]
    );
    assert_eq!(c12n.y_true, names(&["C", "A", "B"]));
    assert_eq!(c12n.y_pred, names(&["B", "B", "B"]));
}

#[test]
fn add_case_refuses_nan_and_counts_nothing() {
    let mut c12n = C12nResults::new(names(&["A", "B"]));
    c12n.add_case(1, "B", bits(&[0.2, 0.8])).unwrap();
    let result = c12n.result.clone();
    let confusion = c12n.confusion.clone();
    assert_eq!(
        c12n.add_case(0, "A", bits(&[f64::NAN, 0.1])),
        Err(EcozError::ScoreRangeViolation)
    );
    assert_eq!(c12n.result, result);
    assert_eq!(c12n.confusion, confusion);
    assert_eq!(c12n.y_true.len(), 1);
    assert_eq!(c12n.y_pred.len(), 1);
}

#[test]
fn add_case_counts_never_decrease() {
    let mut c12n = C12nResults::new(names(&["A", "B", "C"]));
    let cases = [
        (0, [0.1, 0.2, 0.3]),
        (1, [0.3, 0.2, 0.1]),
        (2, [0.0, 0.0, 0.0]),
        (1, [-1.0, 5.0, 2.0]),
    ];
    for (n, (class_id, scores)) in cases.iter().enumerate() {
        let before_result = c12n.result.clone();
        let before_confusion = c12n.confusion.clone();
        c12n.add_case(*class_id, "x", bits(scores)).unwrap();
        for i in 0..4 {
            for j in 0..4 {
                assert!(c12n.result[i][j] >= before_result[i][j]);
                assert!(c12n.confusion[i][j] >= before_confusion[i][j]);
            }
        }
        assert_eq!(c12n.num_cases() as usize, n + 1);
    }
}

#[test]
fn class_id_of_finds_first_model_of_the_class() {
    let models = names(&["A", "B", "C", "B"]);
    assert_eq!(class_id_of(&models, &"B".to_string()), Some(1));
    assert_eq!(class_id_of(&models, &"A".to_string()), Some(0));
    assert_eq!(class_id_of(&models, &"D".to_string()), None);
    assert_eq!(class_id_of(&vec![], &"A".to_string()), None);
}

#[test]
fn report_results_without_cases_is_nothing() {
    let c12n = C12nResults::new(names(&["A", "B"]));
    let model_names = names(&["A", "B"]);
    let report = c12n.report_results(model_names.iter().collect(), "mm_4".to_string());
    assert!(report.is_none());
    let none = C12nResults::new(vec![]);
    assert!(none.report_results(vec![], "x".to_string()).is_none());
}

#[test]
fn report_results_summary() {
    let model_names = names(&["Bm", "C", "Long name", "E"]);
    let mut c12n = C12nResults::new(model_names.clone());
    // class 0: two cases, one correct, one taken for class 3
    c12n.add_case(0, "Bm", bits(&[0.9, 0.1, 0.2, 0.3])).unwrap();
    c12n.add_case(0, "Bm", bits(&[0.5, 0.1, 0.2, 0.8])).unwrap();
    // class 1: one case, taken for class 0
    c12n.add_case(1, "C", bits(&[0.9, 0.5, 0.2, 0.3])).unwrap();
    // classes 2 and 3: no cases
    let report = c12n
        .report_results(model_names.iter().collect(), "nb_32".to_string())
        .unwrap();
    assert_eq!(report.shown, vec![0, 1]);
    assert_eq!(report.name_width, 2);
    assert_eq!(report.summary_name, "nb_32_classification.json");
    assert_eq!(report.true_pred_name, "nb_32_y_true_pred.json");
    assert_eq!(report.rows.len(), 2);

    let row = &report.rows[0];
    assert_eq!((row.class_id, row.tests, row.correct), (0, 2, 1));
    assert_eq!(row.confusion, vec![1, 0]);
    // the case taken for class 3 is not shown, as class 3 had no cases
    assert_eq!(row.errors, 0);
    assert_eq!(row.candidate_order, vec![1, 1, 0, 0]);

    let row = &report.rows[1];
    assert_eq!((row.class_id, row.tests, row.correct), (1, 1, 0));
    assert_eq!(row.confusion, vec![1, 0]);
    assert_eq!(row.errors, 1);
    assert_eq!(row.candidate_order, vec![0, 1, 0, 0]);

    assert_eq!((report.total.class_id, report.total.tests, report.total.correct), (4, 3, 1));
    assert_eq!(report.total.candidate_order, vec![1, 2, 0, 0]);

    // accuracies as the report gives them: 50% and 0%, 33% overall
    let accuracy = report.total.correct as f32 / report.total.tests as f32;
    let avg: f32 = report.rows.iter().map(|r| r.correct as f32 / r.tests as f32).sum::<f32>()
        / report.rows.len() as f32;
    assert!((accuracy - 1.0 / 3.0).abs() < 1e-6);
    assert!((avg - 0.25).abs() < 1e-6);
}

#[test]
fn report_results_name_width_counts_bytes_of_shown_classes() {
    let model_names = names(&["A", "Señal", "very long class name"]);
    let mut c12n = C12nResults::new(model_names.clone());
    c12n.add_case(1, "Señal", bits(&[0.0, 1.0, 0.5])).unwrap();
    let report = c12n.report_results(model_names.iter().collect(), "r".to_string()).unwrap();
    assert_eq!(report.shown, vec![1]);
    assert_eq!(report.name_width, 6);
    assert_eq!(report.rows[0].confusion, vec![1]);
}

fn case(class_name: &str, scores: &[f64]) -> TestCase {
    TestCase { class_name: class_name.to_string(), score_bits: bits(scores) }
}

#[test]
fn classify_takes_cases_of_known_classes() {
    let cases = vec![
        case("A", &[0.9, 0.1]),
        case("Z", &[0.5, 0.5]),
        case("A", &[0.1, 0.9]),
        case("B", &[0.2, 0.3]),
    ];
    let classification = classify(names(&["A", "B"]), &cases).unwrap();
    assert_eq!(
        classification.outcomes,
        vec![
            Some(CaseOutcome { predicted_id: 0, rank: 1, correct: true }),
            None,
            Some(CaseOutcome { predicted_id: 1, rank: 2, correct: false }),
            Some(CaseOutcome { predicted_id: 1, rank: 1, correct: true }),
        ]
    );
    let results = classification.results;
    assert_eq!(results.result, vec![vec![2, 1, 1], vec![1, 1, 0], vec![3, 2, 1]]);
    assert_eq!(results.confusion, vec![vec![1, 1, 0], vec![0, 1, 0], vec![0, 0, 0]]);
    assert_eq!(results.y_true, names(&["A", "A", "B"]));
    assert_eq!(results.y_pred, names(&["A", "B", "B"]));
}

#[test]
fn classify_equals_adding_case_by_case() {
    let cases = vec![
        case("C", &[-10.0, -5.0, -7.5]),
        case("B", &[-1.0, -1.0, -1.0]),
        case("A", &[3.0, 2.0, 1.0]),
    ];
    let classification = classify(names(&["A", "B", "C"]), &cases).unwrap();
    let mut one_by_one = C12nResults::new(names(&["A", "B", "C"]));
    one_by_one.add_case(2, "C", bits(&[-10.0, -5.0, -7.5])).unwrap();
    one_by_one.add_case(1, "B", bits(&[-1.0, -1.0, -1.0])).unwrap();
    one_by_one.add_case(0, "A", bits(&[3.0, 2.0, 1.0])).unwrap();
    assert_eq!(classification.results.result, one_by_one.result);
    assert_eq!(classification.results.confusion, one_by_one.confusion);
    assert_eq!(classification.results.y_true, one_by_one.y_true);
    assert_eq!(classification.results.y_pred, one_by_one.y_pred);
}

#[test]
fn classify_refuses_nan_of_a_known_class_only() {
    let unknown = vec![case("Z", &[f64::NAN, 0.5]), case("A", &[0.7, 0.5])];
    let classification = classify(names(&["A", "B"]), &unknown).unwrap();
    assert_eq!(classification.results.num_cases(), 1);
    let known = vec![case("A", &[0.7, 0.5]), case("B", &[f64::NAN, 0.5]), case("A", &[0.1, 0.2])];
    assert_eq!(
        classify(names(&["A", "B"]), &known).err(),
        Some(EcozError::ScoreRangeViolation)
    );
}

#[test]
fn classify_nothing() {
    let classification = classify(names(&["A"]), &vec![]).unwrap();
    assert!(classification.outcomes.is_empty());
    assert_eq!(classification.results.num_cases(), 0);
    assert!(classification.results.report_results(vec![&"A".to_string()], "e".to_string()).is_none());
}
