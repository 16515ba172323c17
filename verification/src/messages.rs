use vstd::prelude::*;
use vstd::string::StringExecFns;

verus! {

/// The character that writes the digit `d`.
pub open spec fn digit(d: nat) -> char {
    if d == 0 {
        '0'
    } else if d == 1 {
        '1'
    } else if d == 2 {
        '2'
    } else if d == 3 {
        '3'
    } else if d == 4 {
        '4'
    } else if d == 5 {
        '5'
    } else if d == 6 {
        '6'
    } else if d == 7 {
        '7'
    } else if d == 8 {
        '8'
    } else {
        '9'
    }
}

/// The decimal numeral of `n`, most significant digit first, without
/// leading zeros.
pub open spec fn decimal(n: nat) -> Seq<char>
    decreases n,
{
    if n < 10 {
        seq![digit(n)]
    } else {
        decimal(n / 10).push(digit(n % 10))
    }
}

/// "Element is absent"
pub open spec fn absent_text() -> Seq<char> {
    "Element is absent"@
}

/// "Shapes of matrices do not conform to each other!"
pub open spec fn not_conform_text() -> Seq<char> {
    "Shapes of matrices do not conform to each other!"@
}

/// "Could not be converted into square matrix!"
pub open spec fn not_square_text() -> Seq<char> {
    "Could not be converted into square matrix!"@
}

/// "Not a vector"
pub open spec fn not_vector_text() -> Seq<char> {
    "Not a vector"@
}

/// "Ill conditioned system"
pub open spec fn ill_conditioned_text() -> Seq<char> {
    "Ill conditioned system"@
}

/// "Diagonal element [r, c] equals to zero!"
pub open spec fn zero_diagonal_text(row: nat, column: nat) -> Seq<char> {
    "Diagonal element ["@ + decimal(row) + ", "@ + decimal(column) + "] equals to zero!"@
}

/// "Element [r, c] does not match with [c, r]!"
pub open spec fn mismatch_text(row: nat, column: nat) -> Seq<char> {
    "Element ["@ + decimal(row) + ", "@ + decimal(column) + "] does not match with ["@ + decimal(
        column,
    ) + ", "@ + decimal(row) + "]!"@
}

/// "Number of rows less than n!"
pub open spec fn few_rows_text(n: nat) -> Seq<char> {
    "Number of rows less than "@ + decimal(n) + "!"@
}

/// "Number of columns less than n!"
pub open spec fn few_columns_text(n: nat) -> Seq<char> {
    "Number of columns less than "@ + decimal(n) + "!"@
}

fn digit_text(d: usize) -> (s: &'static str)
    requires
        d < 10,
    ensures
        s@ == seq![digit(d as nat)],
{
    proof {
        reveal_strlit("0");
        reveal_strlit("1");
        reveal_strlit("2");
        reveal_strlit("3");
        reveal_strlit("4");
        reveal_strlit("5");
        reveal_strlit("6");
        reveal_strlit("7");
        reveal_strlit("8");
        reveal_strlit("9");
    }
    let s: &'static str = if d == 0 {
        "0"
    } else if d == 1 {
        "1"
    } else if d == 2 {
        "2"
    } else if d == 3 {
        "3"
    } else if d == 4 {
        "4"
    } else if d == 5 {
        "5"
    } else if d == 6 {
        "6"
    } else if d == 7 {
        "7"
    } else if d == 8 {
        "8"
    } else {
        "9"
    };
    assert(s@ =~= seq![digit(d as nat)]);
    s
}

/// Writes `n` in decimal.
pub fn decimal_string(n: usize) -> (s: String)
    ensures
        s@ == decimal(n as nat),
    decreases n,
{
    if n < 10 {
        String::from_str(digit_text(n))
    } else {
        let mut s: String = decimal_string(n / 10);
        s.append(digit_text(n % 10));
        assert(s@ =~= decimal(n as nat));
        s
    }
}

pub fn absent_message() -> (s: String)
    ensures
        s@ == absent_text(),
{
    String::from_str("Element is absent")
}

pub fn not_conform_message() -> (s: String)
    ensures
        s@ == not_conform_text(),
{
    String::from_str("Shapes of matrices do not conform to each other!")
}

pub fn not_square_message() -> (s: String)
    ensures
        s@ == not_square_text(),
{
    String::from_str("Could not be converted into square matrix!")
}

pub fn not_vector_message() -> (s: String)
    ensures
        s@ == not_vector_text(),
{
    String::from_str("Not a vector")
}

pub fn ill_conditioned_message() -> (s: String)
    ensures
        s@ == ill_conditioned_text(),
{
    String::from_str("Ill conditioned system")
}

pub fn zero_diagonal_message(row: usize, column: usize) -> (s: String)
    ensures
        s@ == zero_diagonal_text(row as nat, column as nat),
{
    let mut s: String = String::from_str("Diagonal element [");
    s.append(decimal_string(row).as_str());
    s.append(", ");
    s.append(decimal_string(column).as_str());
    s.append("] equals to zero!");
    s
}

pub fn mismatch_message(row: usize, column: usize) -> (s: String)
    ensures
        s@ == mismatch_text(row as nat, column as nat),
{
    let mut s: String = String::from_str("Element [");
    s.append(decimal_string(row).as_str());
    s.append(", ");
    s.append(decimal_string(column).as_str());
    s.append("] does not match with [");
    s.append(decimal_string(column).as_str());
    s.append(", ");
    s.append(decimal_string(row).as_str());
    s.append("]!");
    s
}

pub fn few_rows_message(n: usize) -> (s: String)
    ensures
        s@ == few_rows_text(n as nat),
{
    let mut s: String = String::from_str("Number of rows less than ");
    s.append(decimal_string(n).as_str());
    s.append("!");
    s
}

pub fn few_columns_message(n: usize) -> (s: String)
    ensures
        s@ == few_columns_text(n as nat),
{
    let mut s: String = String::from_str("Number of columns less than ");
    s.append(decimal_string(n).as_str());
    s.append("!");
    s
}

} // verus!
