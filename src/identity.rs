//! Customer codes, composite entry identifiers and estimate sequencing.
use vstd::prelude::*;

use crate::amount::{digits_of, push_digits};
use crate::records::{DatabaseData, LedgerError};
use crate::text::{chars_of, string_of, upper_of, uppercase};

verus! {

/// Length of a customer code.
pub const CODE_LEN: usize = 4;

/// The code of a company name: the first four characters of its uppercase form.
pub open spec fn customer_code(name: Seq<char>) -> Seq<char> {
    upper_of(name).take(CODE_LEN as int)
}

/// Derives a customer's code from the company name; a name of fewer than
/// four characters is refused.
pub fn generate_customer_code(company_name: &str) -> (r: Result<String, LedgerError>)
    ensures
        r is Err <==> company_name@.len() < CODE_LEN,
        r matches Ok(code) ==> code@ == customer_code(company_name@),
        r matches Ok(code) ==> code@.len() == CODE_LEN,
        r matches Err(e) ==> e == LedgerError::NameTooShort,
{
    let cs = chars_of(company_name);
    if cs.len() < CODE_LEN {
        return Err(LedgerError::NameTooShort);
    }
    let upper = uppercase(company_name);
    let us = chars_of(upper.as_str());
    let mut code: Vec<char> = Vec::new();
    let mut i: usize = 0;
    while i < CODE_LEN
        invariant
            us@ == upper_of(company_name@),
            us@.len() >= CODE_LEN,
            i <= CODE_LEN,
            code@ == us@.take(i as int),
        decreases CODE_LEN - i,
    {
        assert(us@.take(i as int + 1) == us@.take(i as int).push(us@[i as int]));
        code.push(us[i]);
        i += 1;
    }
    Ok(string_of(&code))
}

/// The identifier of a persisted line item: `{code}-{estimate}-{row}`.
pub open spec fn entry_id(code: Seq<char>, estimate_number: nat, row_number: nat) -> Seq<char> {
    code + seq!['-'] + digits_of(estimate_number) + seq!['-'] + digits_of(row_number)
}

/// Composes the identifier of a line item from its customer code, estimate
/// number and row number.
pub fn compose_entry_id(customer_code: &str, estimate_number: usize, row_number: usize) -> (r:
    String)
    ensures
        r@ == entry_id(customer_code@, estimate_number as nat, row_number as nat),
{
    let mut out = chars_of(customer_code);
    out.push('-');
    push_digits(estimate_number as u128, &mut out);
    out.push('-');
    push_digits(row_number as u128, &mut out);
    string_of(&out)
}

/// The largest estimate number recorded for a customer code, or zero.
pub open spec fn max_estimate(history: Seq<DatabaseData>, code: Seq<char>) -> nat
    decreases history.len(),
{
    if history.len() == 0 {
        0
    } else {
        let m = max_estimate(history.drop_last(), code);
        let last = history.last();
        if last.cust_id@ == code && last.estimate_number > m {
            last.estimate_number as nat
        } else {
            m
        }
    }
}

/// The next estimate number of a customer: one more than the largest it
/// has in the history, or one when it has none.
pub open spec fn next_estimate(history: Seq<DatabaseData>, code: Seq<char>) -> nat {
    max_estimate(history, code) + 1
}

/// Computes the next estimate number for a customer code from the full
/// history of persisted line items; `None` when it would not fit a `usize`.
pub fn next_estimate_number(history: &Vec<DatabaseData>, customer_code: &String) -> (r: Option<
    usize,
>)
    ensures
        next_estimate(history@, customer_code@) <= usize::MAX ==> r == Some(
            next_estimate(history@, customer_code@) as usize,
        ),
        next_estimate(history@, customer_code@) > usize::MAX ==> r is None,
{
    let mut max: usize = 0;
    let mut i: usize = 0;
    while i < history.len()
        invariant
            i <= history@.len(),
            max == max_estimate(history@.take(i as int), customer_code@),
        decreases history@.len() - i,
    {
        assert(history@.take(i as int + 1).drop_last() == history@.take(i as int));
        assert(history@.take(i as int + 1).last() == history@[i as int]);
        if history[i].cust_id == *customer_code && history[i].estimate_number > max {
            max = history[i].estimate_number;
        }
        i += 1;
    }
    assert(history@.take(history@.len() as int) == history@);
    if max < usize::MAX {
        Some(max + 1)
    } else {
        None
    }
}

/// The line items of one customer code, in the order of the history.
pub open spec fn records_of(history: Seq<DatabaseData>, code: Seq<char>) -> Seq<DatabaseData>
    decreases history.len(),
{
    if history.len() == 0 {
        Seq::empty()
    } else {
        let prev = records_of(history.drop_last(), code);
        if history.last().cust_id@ == code {
            prev.push(history.last())
        } else {
            prev
        }
    }
}

proof fn lemma_max_of_records(history: Seq<DatabaseData>, code: Seq<char>)
    ensures
        max_estimate(records_of(history, code), code) == max_estimate(history, code),
    decreases history.len(),
{
    if history.len() > 0 {
        lemma_max_of_records(history.drop_last(), code);
        let prev = records_of(history.drop_last(), code);
        if history.last().cust_id@ == code {
            assert(prev.push(history.last()).drop_last() == prev);
        }
    }
}

/// Line items of other customers never change a customer's next estimate
/// number: two histories that hold the same items of a code, in the same
/// order, give that code the same next estimate number, whatever else
/// they hold.
pub proof fn lemma_unrelated_codes_ignored(
    first: Seq<DatabaseData>,
    second: Seq<DatabaseData>,
    code: Seq<char>,
)
    requires
        records_of(first, code) == records_of(second, code),
    ensures
        next_estimate(first, code) == next_estimate(second, code),
{
    lemma_max_of_records(first, code);
    lemma_max_of_records(second, code);
}

} // verus!
