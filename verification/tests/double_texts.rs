use xml_rpc::double_text_valid;

fn agrees_with_machine_parse(text: &str) {
    assert_eq!(
        double_text_valid(text),
        text.parse::<f64>().is_ok(),
        "disagreement on {:?}",
        text
    );
}

#[test]
fn plain_numbers_are_accepted() {
    for t in ["0", "3", "3.14", "-3.14", "+3.14", "2.", ".5", "-.5", "1000000", "0.0"] {
        assert!(double_text_valid(t), "rejected {:?}", t);
        agrees_with_machine_parse(t);
    }
}

#[test]
fn exponents_are_accepted() {
    for t in ["1e5", "1E5", "1e+5", "1e-5", "2.5e-3", "2.E3", ".5e1", "-7e2"] {
        assert!(double_text_valid(t), "rejected {:?}", t);
        agrees_with_machine_parse(t);
    }
}

#[test]
fn special_spellings_are_accepted() {
    for t in ["inf", "INF", "Inf", "-inf", "+inf", "infinity", "Infinity", "-INFINITY", "nan", "NaN", "NAN", "-nan"] {
        assert!(double_text_valid(t), "rejected {:?}", t);
        agrees_with_machine_parse(t);
    }
}

#[test]
fn malformed_texts_are_rejected() {
    for t in [
        "", ".", "+", "-", "abc", "1e", "1e+", "e5", "1.2.3", "..5", "1..", "--1", "+-1",
        " 1", "1 ", "1_000", "0x10", "in", "infin", "infinityy", "nana", "na", "1,5", "1f",
    ] {
        assert!(!double_text_valid(t), "accepted {:?}", t);
        agrees_with_machine_parse(t);
    }
}

#[test]
fn non_ascii_digits_are_rejected() {
    for t in ["١٤", "3.1４", "∞"] {
        assert!(!double_text_valid(t), "accepted {:?}", t);
        agrees_with_machine_parse(t);
    }
}
