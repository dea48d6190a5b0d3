use gcd::decimal::format_number_list;
use gcd::decimal::u64_to_decimal;
use gcd::report::cli_report;
use gcd::report::gcd_form_reply;
use gcd::report::index_html;

#[test]
fn decimal_writes_each_digit() {
    assert_eq!(u64_to_decimal(0), "0");
    assert_eq!(u64_to_decimal(7), "7");
    assert_eq!(u64_to_decimal(10), "10");
    assert_eq!(u64_to_decimal(12345), "12345");
    assert_eq!(u64_to_decimal(u64::MAX), "18446744073709551615");
}

#[test]
fn number_list_matches_debug_rendering() {
    assert_eq!(format_number_list(&vec![]), "[]");
    assert_eq!(format_number_list(&vec![5]), "[5]");
    assert_eq!(format_number_list(&vec![14, 15]), format!("{:?}", vec![14, 15]));
    assert_eq!(format_number_list(&vec![24, 36, 60]), "[24, 36, 60]");
}

#[test]
fn zero_operand_is_rejected() {
    let reply = gcd_form_reply(0, 5);
    assert_eq!(reply, Err("Computing the GCD with zero is boring.".to_string()));
    assert!(gcd_form_reply(5, 0).is_err());
    assert!(gcd_form_reply(0, 0).is_err());
}

#[test]
fn nonzero_operands_get_a_report() {
    let body = gcd_form_reply(12, 18).unwrap();
    assert!(body.contains("6"));
    assert_eq!(
        body,
        "The greatest common divisor of the numbers 12 and 18 is <b>6</b>\n"
    );
}

#[test]
fn cli_report_names_all_operands() {
    assert_eq!(
        cli_report(&vec![14, 15]),
        "The greatest common divisor of [14, 15] is 1"
    );
    assert_eq!(
        cli_report(&vec![24, 36, 60]),
        "The greatest common divisor of [24, 36, 60] is 12"
    );
}

#[test]
fn index_page_holds_the_form() {
    let page = index_html();
    assert!(page.contains("<form action=\"/gcd\" method=\"post\">"));
    assert!(page.contains("name=\"n\""));
    assert!(page.contains("name=\"m\""));
}
