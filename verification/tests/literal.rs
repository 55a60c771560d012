use raster_tiles::literal::is_float_text;

#[test]
fn numbers_are_literals() {
    for text in [
        "75", "0", "007", "82.5", "5.", ".5", "+1", "-1", "+.5", "-5.", "1e5", "1E5", "1e+5", "1e-5",
        "1.e5", ".5e5", "2.5E-10", "100", "100.0", "00.00",
    ] {
        assert!(is_float_text(text), "{text:?}");
    }
}

#[test]
fn special_values_are_literals_in_any_case() {
    for text in ["inf", "INF", "Inf", "+inf", "-inf", "infinity", "Infinity", "-INFINITY", "nan", "NaN", "+NAN", "-nan"] {
        assert!(is_float_text(text), "{text:?}");
    }
}

#[test]
fn other_texts_are_no_literals() {
    for text in [
        "", "+", "-", ".", "+.", "e5", ".e5", "1e", "1e+", "1e-", "1e5.5", "1.5.2", "++1", "+-1", " 1",
        "1 ", "1_0", "0x10", "1f32", "infinit", "infinityy", "in", "na", "nann", "i", "abc", "1,5", "٣",
        "1e5e5", "--1", "1-", "e", "E", ".e", "1.e", "inf1", "1inf",
    ] {
        assert!(!is_float_text(text), "{text:?}");
    }
}

#[test]
fn literals_agree_with_the_standard_parser() {
    let pieces = ["", "+", "-", "1", "0", ".", "e", "E", "5", "inf", "nan", "infinity", "NaN", " ", "x"];
    for a in pieces {
        for b in pieces {
            for c in pieces {
                let text = format!("{a}{b}{c}");
                assert_eq!(is_float_text(&text), text.parse::<f32>().is_ok(), "{text:?}");
            }
        }
    }
}
