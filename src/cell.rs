//! Spreadsheet cells and the typed values read from them.
//!
//! A row is a sequence of loosely typed cells addressed by a zero-based
//! column. Every read yields a value or an explicit absence; none fails.
use vstd::prelude::*;
use bigdecimal::BigDecimal;
use crate::text::{all_digits, i64_text, int_text, is_blank, is_blank_text, nat_text, parse_i32, i32_literal, trim, trimmed};

verus! {

broadcast use vstd::string::group_string_axioms;

/// One spreadsheet cell.
pub enum Cell {
    /// A text cell, as written.
    Text(String),
    /// A floating-point cell, as the shortest decimal text that reads back as
    /// the same number (`5` for 5.0, `12.5`, `-0.25`).
    Float(String),
    /// An integer cell.
    Int(i64),
    /// Any other cell: empty, boolean, date, duration or error.
    Other,
}

/// Whether `BigDecimal`'s parser accepts `s`.
pub uninterp spec fn decimal_accepts(s: Seq<char>) -> bool;

/// An optional `-` followed by one or more digits.
pub open spec fn is_integer_text(s: Seq<char>) -> bool {
    ||| (s.len() > 0 && all_digits(s))
    ||| (s.len() > 1 && s[0] == '-' && all_digits(s.drop_first()))
}

/// Relies on `<BigDecimal as FromStr>::from_str`: whether it succeeds depends
/// on the text alone, and an optional `-` followed by digits always parses
/// (it goes to `BigInt::from_str_radix` whole, with scale 0).
#[verifier::external_body]
fn parse_decimal(s: &str) -> (r: Option<BigDecimal>)
    ensures
        r.is_some() == decimal_accepts(s@),
        is_integer_text(s@) ==> r.is_some(),
{
    <BigDecimal as std::str::FromStr>::from_str(s).ok()
}

/// Relies on `<BigDecimal as Default>::default`, which is zero.
#[verifier::external_body]
pub(crate) fn decimal_zero() -> (r: BigDecimal) {
    BigDecimal::default()
}

/// A text, or nothing when it is blank.
pub open spec fn non_blank(s: Seq<char>) -> Option<Seq<char>> {
    if is_blank(s) {
        None
    } else {
        Some(s)
    }
}

/// The text a cell holds: a text cell trimmed (nothing when that leaves it
/// empty), a number cell as its decimal text, nothing for any other cell.
pub open spec fn cell_text_of(c: Cell) -> Option<Seq<char>> {
    match c {
        Cell::Text(s) => non_blank(trimmed(s@)),
        Cell::Float(t) => Some(t@),
        Cell::Int(i) => Some(int_text(i as int)),
        Cell::Other => None,
    }
}

/// The text of column `i` of a row; nothing past the row's end.
pub open spec fn text_at(row: Seq<Cell>, i: int) -> Option<Seq<char>> {
    if 0 <= i < row.len() {
        cell_text_of(row[i])
    } else {
        None
    }
}

/// The text of column `i`, or the empty text when there is none.
pub open spec fn text_or_empty(row: Seq<Cell>, i: int) -> Seq<char> {
    match text_at(row, i) {
        Some(t) => t,
        None => Seq::empty(),
    }
}

/// Whether column `i` holds a number that reads as a decimal: any integer
/// cell, and a floating-point cell whose text the decimal parser accepts.
pub open spec fn decimal_at(row: Seq<Cell>, i: int) -> bool {
    0 <= i < row.len() && match row[i] {
        Cell::Int(_) => true,
        Cell::Float(t) => decimal_accepts(t@),
        _ => false,
    }
}

/// The `i32` written in column `i`, when its text spells one.
pub open spec fn i32_at(row: Seq<Cell>, i: int) -> Option<i32> {
    match text_at(row, i) {
        Some(t) => i32_literal(t),
        None => None,
    }
}

/// The view of an optional text.
pub open spec fn opt_view(o: Option<String>) -> Option<Seq<char>> {
    match o {
        Some(s) => Some(s@),
        None => None,
    }
}

proof fn lemma_nat_text_digits(n: nat)
    ensures
        nat_text(n).len() > 0,
        all_digits(nat_text(n)),
    decreases n,
{
    if n >= 10 {
        lemma_nat_text_digits(n / 10);
        let p = nat_text(n / 10);
        assert forall|j: int| 0 <= j < p.push(crate::text::digit_char(n % 10)).len() implies
            crate::text::is_digit(#[trigger] p.push(crate::text::digit_char(n % 10))[j]) by {
            if j < p.len() {
                assert(p.push(crate::text::digit_char(n % 10))[j] == p[j]);
            }
        }
    }
}

proof fn lemma_int_text_is_integer(i: int)
    ensures
        is_integer_text(int_text(i)),
{
    if i < 0 {
        lemma_nat_text_digits((-i) as nat);
        assert((seq!['-'] + nat_text((-i) as nat)).drop_first() =~= nat_text((-i) as nat));
    } else {
        lemma_nat_text_digits(i as nat);
    }
}

/// `s` itself, or nothing when it holds only whitespace.
pub fn blank_to_absent(s: &str) -> (r: Option<String>)
    ensures
        opt_view(r) == non_blank(s@),
{
    if is_blank_text(s) {
        None
    } else {
        Some(String::from_str(s))
    }
}

/// The text of column `i`: a text cell trimmed of surrounding whitespace
/// (absent when nothing is left), a number cell as its decimal text, absent
/// for any other cell and past the row's end.
pub fn cell_text(row: &Vec<Cell>, i: usize) -> (r: Option<String>)
    ensures
        opt_view(r) == text_at(row@, i as int),
{
    if i >= row.len() {
        return None;
    }
    match &row[i] {
        Cell::Text(s) => {
            let t = trim(s.as_str());
            blank_to_absent(t)
        },
        Cell::Float(t) => Some(t.clone()),
        Cell::Int(n) => Some(i64_text(*n)),
        Cell::Other => None,
    }
}

/// The text of column `i`, or the empty string when it is absent.
pub fn cell_text_or_empty(row: &Vec<Cell>, i: usize) -> (r: String)
    ensures
        r@ == text_or_empty(row@, i as int),
{
    match cell_text(row, i) {
        Some(t) => t,
        None => String::new(),
    }
}

/// The decimal in column `i`: an integer cell, or a floating-point cell read
/// through its decimal text. Text and other cells give nothing.
pub fn cell_decimal(row: &Vec<Cell>, i: usize) -> (r: Option<BigDecimal>)
    ensures
        r.is_some() == decimal_at(row@, i as int),
{
    if i >= row.len() {
        return None;
    }
    match &row[i] {
        Cell::Int(n) => {
            let t = i64_text(*n);
            proof {
                lemma_int_text_is_integer(*n as int);
            }
            parse_decimal(t.as_str())
        },
        Cell::Float(t) => parse_decimal(t.as_str()),
        _ => None,
    }
}

/// The `i32` that the text of column `i` spells, if any.
pub fn cell_i32(row: &Vec<Cell>, i: usize) -> (r: Option<i32>)
    ensures
        r == i32_at(row@, i as int),
{
    match cell_text(row, i) {
        Some(t) => parse_i32(t.as_str()),
        None => None,
    }
}

} // verus!
