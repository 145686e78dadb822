use rust_calc::{with_decimal_comma, with_decimal_point};

#[test]
fn rendered_numbers_are_shown_with_a_decimal_comma() {
    assert_eq!(with_decimal_comma("2.5"), "2,5");
    assert_eq!(with_decimal_comma("4"), "4");
    assert_eq!(with_decimal_comma("-0.125"), "-0,125");
    assert_eq!(with_decimal_comma(""), "");
}

#[test]
fn displayed_numbers_are_read_with_a_decimal_point() {
    assert_eq!(with_decimal_point("2,5"), "2.5");
    assert_eq!(with_decimal_point("0,"), "0.");
    assert_eq!(with_decimal_point("17"), "17");
}

#[test]
fn a_shown_number_reads_back_as_rendered() {
    for rendered in ["2.5", "1234.5678", "-3", "0.1"] {
        assert_eq!(with_decimal_point(&with_decimal_comma(rendered)), rendered);
    }
}

#[test]
fn a_read_number_shows_back_as_displayed() {
    for shown in ["2,5", "12", "0,"] {
        assert_eq!(with_decimal_comma(&with_decimal_point(shown)), shown);
    }
}
