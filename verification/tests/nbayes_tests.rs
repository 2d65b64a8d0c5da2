use ecoz2::error::EcozError;
use ecoz2::nbayes::{learn, main_nbayes_show, NBayes, Ratio, SymbolRow};
use ecoz2::registry::{find_cc, register_cc, unregister_cc, ClientRegistry, Ecoz2ObserverRef};
use ecoz2::sequence::Sequence;

fn seq(class_name: &str, codebook_size: u32, symbols: &[u16]) -> Sequence {
    Sequence { class_name: class_name.to_string(), codebook_size, symbols: symbols.to_vec() }
}

#[test]
fn learn_counts_symbols() {
    let sequences = vec![seq("A", 4, &[0, 1, 1, 3]), seq("A", 4, &[]), seq("A", 4, &[3, 3, 0])];
    let model = learn(&sequences).unwrap();
    assert_eq!(model.class_name, "A");
    assert_eq!(model.total_symbols, 7);
    assert_eq!(model.frequencies, vec![2, 2, 0, 3]);
}

#[test]
fn learn_one_sequence() {
    let model = learn(&vec![seq("B", 2, &[1, 1, 1])]).unwrap();
    assert_eq!(model.frequencies, vec![0, 3]);
    assert_eq!(model.total_symbols, 3);
}

#[test]
fn learn_refuses_other_class() {
    let sequences = vec![seq("A", 4, &[0]), seq("B", 4, &[1])];
    assert_eq!(learn(&sequences).unwrap_err(), EcozError::ClassMismatch);
}

#[test]
fn learn_refuses_other_codebook() {
    let sequences = vec![seq("A", 4, &[0]), seq("A", 8, &[1])];
    assert_eq!(learn(&sequences).unwrap_err(), EcozError::CodebookMismatch);
}

#[test]
fn learn_reports_the_first_stranger() {
    let sequences = vec![seq("A", 4, &[0]), seq("A", 8, &[1]), seq("B", 4, &[1])];
    assert_eq!(learn(&sequences).unwrap_err(), EcozError::CodebookMismatch);
    let sequences = vec![seq("A", 4, &[0]), seq("B", 8, &[1]), seq("A", 8, &[1])];
    assert_eq!(learn(&sequences).unwrap_err(), EcozError::ClassMismatch);
}

#[test]
fn prob_symbol_is_an_m_estimate() {
    let model = NBayes { class_name: "A".to_string(), total_symbols: 7, frequencies: vec![2, 2, 0, 3] };
    assert_eq!(model.prob_symbol(0), Ratio { numerator: 3, denominator: 11 });
    assert_eq!(model.prob_symbol(2), Ratio { numerator: 1, denominator: 11 });
    assert_eq!(model.prob_symbol(3), Ratio { numerator: 4, denominator: 11 });
    let sum: f64 = (0..4)
        .map(|s| model.prob_symbol(s))
        .map(|r| r.numerator as f64 / r.denominator as f64)
        .sum();
    assert!((sum - 1.0).abs() < 1e-12);
}

#[test]
fn prob_symbol_of_greatest_counts() {
    let model =
        NBayes { class_name: "A".to_string(), total_symbols: usize::MAX, frequencies: vec![usize::MAX] };
    assert_eq!(
        model.prob_symbol(0),
        Ratio { numerator: usize::MAX as u128 + 1, denominator: usize::MAX as u128 + 1 }
    );
}

#[test]
fn show_lists_every_symbol() {
    let model = NBayes { class_name: "A".to_string(), total_symbols: 3, frequencies: vec![0, 3] };
    let rows = main_nbayes_show(&model);
    assert_eq!(
        rows,
        vec![
            SymbolRow { symbol: 0, frequency: 0, prob: Ratio { numerator: 1, denominator: 5 } },
            SymbolRow { symbol: 1, frequency: 3, prob: Ratio { numerator: 4, denominator: 5 } },
        ]
    );
    assert_eq!(model.show(), rows);
}

#[test]
fn registry_gives_handles_in_order() {
    let mut registry = ClientRegistry::new();
    assert_eq!(register_cc(&mut registry, "first"), 0);
    assert_eq!(register_cc(&mut registry, "second"), 1);
    assert_eq!(find_cc(&registry, &0), Some(&"first"));
    assert_eq!(find_cc(&registry, &1), Some(&"second"));
    assert_eq!(find_cc(&registry, &2), None);
    assert_eq!(registry.next_ref_id, 2);
}

#[test]
fn unregister_forgets_one_observer() {
    let mut registry = ClientRegistry::new();
    let a = register_cc(&mut registry, 10u8);
    let b = register_cc(&mut registry, 20u8);
    unregister_cc(&mut registry, a);
    assert_eq!(find_cc(&registry, &a), None);
    assert_eq!(find_cc(&registry, &b), Some(&20));
    unregister_cc(&mut registry, a);
    unregister_cc(&mut registry, 77);
    assert_eq!(registry.clients.len(), 1);
    // handles are not given twice
    assert_eq!(register_cc(&mut registry, 30u8), 2);
}

#[test]
fn observer_ref_keeps_its_handle() {
    assert_eq!(Ecoz2ObserverRef::new(5).ref_id, 5);
    assert_eq!(Ecoz2ObserverRef::new(-1), Ecoz2ObserverRef { ref_id: -1 });
}
