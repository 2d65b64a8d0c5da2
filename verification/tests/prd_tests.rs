use ecoz2::error::EcozError;
use ecoz2::opts::PrdShowOpts;
use ecoz2::prd::{extract, load, prd_show, Coefficients, PrdShowPlan, Predictor, Selection};

fn predictor(vectors: &[Vec<f64>], order: usize) -> Predictor {
    Predictor {
        class_name: "_".to_string(),
        prediction_order: order,
        vectors: vectors.iter().map(|v| v.iter().map(|x| x.to_bits()).collect()).collect(),
    }
}

fn values(predictor: &Predictor) -> Vec<Vec<f64>> {
    predictor
        .vectors
        .iter()
        .map(|v| v.iter().map(|b| f64::from_bits(*b)).collect())
        .collect()
}

#[test]
fn predictor_save_layout() {
    let prd = predictor(&[vec![1.0, -2.0]], 1);
    let bytes = prd.save();
    let mut expected = vec![1, 0, 0, 0, b'_', 1, 0, 0, 0, 1, 0, 0, 0];
    expected.extend_from_slice(&1.0f64.to_le_bytes());
    expected.extend_from_slice(&(-2.0f64).to_le_bytes());
    assert_eq!(bytes, expected);
}

#[test]
fn predictor_round_trip_is_bit_identical() {
    let vectors = vec![
        vec![1.0, 0.1, 1.0 / 3.0],
        vec![-0.0, f64::MIN_POSITIVE, f64::MAX],
        vec![f64::INFINITY, 2.0f64.sqrt(), -1.0e-310],
    ];
    let prd = Predictor {
        class_name: "ballena ñ".to_string(),
        prediction_order: 2,
        vectors: vectors.iter().map(|v| v.iter().map(|x| x.to_bits()).collect()).collect(),
    };
    let read = load(&prd.save()).unwrap();
    assert_eq!(read.class_name, "ballena ñ");
    assert_eq!(read.prediction_order, 2);
    assert_eq!(read.vectors, prd.vectors);
    for (a, b) in values(&read).iter().flatten().zip(vectors.iter().flatten()) {
        assert_eq!(a.to_bits(), b.to_bits());
    }
}

#[test]
fn predictor_round_trip_keeps_nan_payload() {
    let bits = 0x7ff8_0000_dead_beef_u64;
    let prd = Predictor { class_name: String::new(), prediction_order: 0, vectors: vec![vec![bits]] };
    let read = load(&prd.save()).unwrap();
    assert_eq!(read.vectors, vec![vec![bits]]);
    assert_eq!(read.class_name, "");
}

#[test]
fn predictor_without_vectors() {
    let prd = predictor(&[], 36);
    let bytes = prd.save();
    assert_eq!(bytes.len(), 4 + 1 + 8);
    let read = load(&bytes).unwrap();
    assert_eq!(read.prediction_order, 36);
    assert!(read.vectors.is_empty());
}

#[test]
fn predictor_file_malformed() {
    let prd = predictor(&[vec![1.0, 2.0], vec![3.0, 4.0]], 1);
    let bytes = prd.save();
    for len in 0..bytes.len() {
        assert_eq!(
            load(&bytes[..len]).unwrap_err(),
            EcozError::MalformedPredictorFile,
            "length {}",
            len
        );
    }
    let mut longer = bytes.clone();
    longer.push(0);
    assert_eq!(load(&longer).unwrap_err(), EcozError::MalformedPredictorFile);
    let mut not_text = bytes.clone();
    not_text[4] = 0xff;
    assert_eq!(load(&not_text).unwrap_err(), EcozError::MalformedPredictorFile);
    let mut greatest_order = predictor(&[], 0).save();
    greatest_order[5..9].copy_from_slice(&[0xff; 4]);
    assert_eq!(load(&greatest_order).unwrap_err(), EcozError::MalformedPredictorFile);
    assert!(load(&bytes).is_ok());
}

#[test]
fn show_selects_stored_vectors_by_default() {
    let prd = predictor(&[], 36);
    assert_eq!(
        prd.show(false, false, None, 1, 0),
        Ok(Selection { kind: Coefficients::Autocorrelation, from: 1, to: 36 })
    );
    assert_eq!(
        prd.show(false, false, None, 0, 12),
        Ok(Selection { kind: Coefficients::Autocorrelation, from: 0, to: 12 })
    );
    assert_eq!(
        prd.show(false, false, None, 1, 36),
        Ok(Selection { kind: Coefficients::Autocorrelation, from: 1, to: 36 })
    );
    assert_eq!(
        prd.show(false, false, None, 1, 37),
        Ok(Selection { kind: Coefficients::Autocorrelation, from: 1, to: 36 })
    );
}

#[test]
fn show_selects_predictors_before_reflections() {
    let prd = predictor(&[], 4);
    assert_eq!(prd.show(true, true, None, 1, 0).unwrap().kind, Coefficients::Predictors);
    assert_eq!(prd.show(false, true, None, 1, 0).unwrap().kind, Coefficients::Reflections);
    assert_eq!(Coefficients::Predictors.label(), 'a');
    assert_eq!(Coefficients::Reflections.label(), 'k');
    assert_eq!(Coefficients::Autocorrelation.label(), 'r');
    assert_eq!(Coefficients::Cepstrum(9).label(), 'c');
}

#[test]
fn show_cepstrum_needs_greater_order() {
    let prd = predictor(&[], 36);
    assert_eq!(prd.show(true, true, Some(36), 1, 0), Err(EcozError::CepstrumOrder));
    assert_eq!(prd.show(false, false, Some(0), 1, 0), Err(EcozError::CepstrumOrder));
    assert_eq!(
        prd.show(true, true, Some(37), 1, 0),
        Ok(Selection { kind: Coefficients::Cepstrum(37), from: 1, to: 36 })
    );
    assert_eq!(
        prd.show(false, false, Some(48), 2, 40),
        Ok(Selection { kind: Coefficients::Cepstrum(48), from: 2, to: 40 })
    );
    assert_eq!(
        prd.show(false, false, Some(48), 2, 48),
        Ok(Selection { kind: Coefficients::Cepstrum(48), from: 2, to: 47 })
    );
}

#[test]
fn extract_takes_both_ends() {
    let vectors = vec![vec![10, 11, 12, 13], vec![20, 21, 22, 23]];
    assert_eq!(extract(&vectors, 1, 2), vec![vec![11, 12], vec![21, 22]]);
    assert_eq!(extract(&vectors, 0, 3), vectors);
    assert_eq!(extract(&vectors, 3, 3), vec![vec![13], vec![23]]);
    assert_eq!(extract(&vectors, 2, 1), vec![Vec::<u64>::new(), vec![]]);
    assert!(extract(&vec![], 5, 9).is_empty());
}

fn show_opts(zrs: bool) -> PrdShowOpts {
    PrdShowOpts {
        show_predictors: true,
        show_reflections: false,
        show_cepstrum: Some(40),
        from: 2,
        to: 7,
        file: "p.prd".to_string(),
        zrs,
        pickle: Some("p.pickle".to_string()),
    }
}

#[test]
fn prd_show_plans() {
    match prd_show(show_opts(true)) {
        PrdShowPlan::Native {
            file,
            show_predictors,
            show_reflections,
            show_cepstrum,
            from,
            to,
            pickle,
        } => {
            assert_eq!(file, "p.prd");
            assert!(show_predictors);
            assert!(!show_reflections);
            assert_eq!(show_cepstrum, Some(40));
            assert_eq!((from, to), (2, 7));
            assert_eq!(pickle, Some("p.pickle".to_string()));
        }
        other => panic!("unexpected plan {:?}", other),
    }
    match prd_show(show_opts(false)) {
        PrdShowPlan::Engine { file, show_reflections, from, to } => {
            assert_eq!(file, "p.prd");
            assert!(!show_reflections);
            assert_eq!((from, to), (2, 7));
        }
        other => panic!("unexpected plan {:?}", other),
    }
}
