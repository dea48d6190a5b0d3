//! The replies the engine hands back: the form page, the web reply to a
//! submitted pair of operands, and the command-line report for a list.

use crate::decimal::decimal_digits;
use crate::decimal::format_number_list;
use crate::decimal::number_list_text;
use crate::decimal::u64_to_decimal;
use crate::euclid::gcd;
use crate::euclid::gcd_of_all;
use crate::euclid::spec_gcd;
use crate::euclid::spec_gcd_fold;
use vstd::prelude::*;
use vstd::string::StringExecFns;

verus! {

/// The page that prompts for two operands.
pub open spec fn index_page_text() -> Seq<char> {
    r#"
            <title>GCD Calculator</title>
            <form action="/gcd" method="post">
            <input type="text" name="n"/>
            <input type="text" name="m"/>
            <button type="submit">Compute GCD</button>
            </form>
        "#@
}

/// The body of the reply that rejects a zero operand.
pub open spec fn zero_rejection_text() -> Seq<char> {
    "Computing the GCD with zero is boring."@
}

/// The body of the reply that reports the greatest common divisor of `n` and `m`.
pub open spec fn gcd_report_text(n: nat, m: nat) -> Seq<char> {
    "The greatest common divisor of the numbers "@ + decimal_digits(n) + " and "@
        + decimal_digits(m) + " is <b>"@ + decimal_digits(spec_gcd(n, m)) + "</b>\n"@
}

/// The command-line report for a list of operands.
pub open spec fn cli_report_text(s: Seq<u64>) -> Seq<char> {
    "The greatest common divisor of "@ + number_list_text(s) + " is "@
        + decimal_digits(spec_gcd_fold(s))
}

/// The static page with the form that submits two operands.
pub fn index_html() -> (r: &'static str)
    ensures
        r@ == index_page_text(),
{
    r#"
            <title>GCD Calculator</title>
            <form action="/gcd" method="post">
            <input type="text" name="n"/>
            <input type="text" name="m"/>
            <button type="submit">Compute GCD</button>
            </form>
        "#
}

/// Decides the reply to a submitted pair of operands: a zero operand is
/// rejected with an explanation, any other pair gets the sentence that
/// reports their greatest common divisor.
pub fn gcd_form_reply(n: u64, m: u64) -> (r: Result<String, String>)
    ensures
        r is Err <==> (n == 0 || m == 0),
        r matches Err(e) ==> e@ == zero_rejection_text(),
        r matches Ok(s) ==> s@ == gcd_report_text(n as nat, m as nat),
{
    if n == 0 || m == 0 {
        return Err("Computing the GCD with zero is boring.".to_owned());
    }
    let mut body = "The greatest common divisor of the numbers ".to_owned();
    let n_text = u64_to_decimal(n);
    body.append(n_text.as_str());
    body.append(" and ");
    let m_text = u64_to_decimal(m);
    body.append(m_text.as_str());
    body.append(" is <b>");
    let g_text = u64_to_decimal(gcd(n, m));
    body.append(g_text.as_str());
    body.append("</b>\n");
    proof {
        assert(body@ =~= gcd_report_text(n as nat, m as nat));
    }
    Ok(body)
}

/// Writes the command-line report for a non-empty list of non-zero operands.
pub fn cli_report(numbers: &Vec<u64>) -> (s: String)
    requires
        numbers@.len() >= 1,
        forall|i: int| 0 <= i < numbers@.len() ==> numbers@[i] != 0,
    ensures
        s@ == cli_report_text(numbers@),
{
    let mut s = "The greatest common divisor of ".to_owned();
    let list = format_number_list(numbers);
    s.append(list.as_str());
    s.append(" is ");
    let d_text = u64_to_decimal(gcd_of_all(numbers));
    s.append(d_text.as_str());
    proof {
        assert(s@ =~= cli_report_text(numbers@));
    }
    s
}

} // verus!
