//! Errors and their text.

use vstd::prelude::*;

verus! {

/// What an operation on arrays can fail with.
#[derive(Debug)]
pub enum ArrowError {
    /// The operation cannot be done on the given array.
    ComputeError(String),
    /// An array was to be made of parts that do not fit together.
    InvalidArgumentError(String),
}

impl ArrowError {
    /// The text of the error, with the kind of the error in front.
    pub open spec fn text(self) -> Seq<char> {
        match self {
            ArrowError::ComputeError(m) => "Compute error: "@ + m@,
            ArrowError::InvalidArgumentError(m) => "Invalid argument error: "@ + m@,
        }
    }

    /// The text of the error, with the kind of the error in front.
    pub fn to_string(&self) -> (r: String)
        ensures
            r@ == self.text(),
            self matches ArrowError::ComputeError(m) ==> r@ == "Compute error: "@ + m@,
            self matches ArrowError::InvalidArgumentError(m) ==> r@ == "Invalid argument error: "@
                + m@,
    {
        match self {
            ArrowError::ComputeError(m) => "Compute error: ".to_owned().concat(m.as_str()),
            ArrowError::InvalidArgumentError(m) => "Invalid argument error: ".to_owned().concat(
                m.as_str(),
            ),
        }
    }
}

/// The decimal digit for a number below ten.
pub open spec fn digit(d: nat) -> char {
    seq!['0', '1', '2', '3', '4', '5', '6', '7', '8', '9'][d as int]
}

/// A number in decimal notation, without leading zeros.
pub open spec fn decimal(n: nat) -> Seq<char>
    decreases n,
{
    if n < 10 {
        seq![digit(n)]
    } else {
        decimal(n / 10).push(digit(n % 10))
    }
}

fn digit_str(d: usize) -> (r: &'static str)
    requires
        d < 10,
    ensures
        r@ == seq![digit(d as nat)],
{
    proof {
        reveal_strlit("0");
        reveal_strlit("1");
        reveal_strlit("2");
        reveal_strlit("3");
        reveal_strlit("4");
        reveal_strlit("5");
        reveal_strlit("6");
        reveal_strlit("7");
        reveal_strlit("8");
        reveal_strlit("9");
    }
    match d {
        0 => "0",
        1 => "1",
        2 => "2",
        3 => "3",
        4 => "4",
        5 => "5",
        6 => "6",
        7 => "7",
        8 => "8",
        _ => "9",
    }
}

/// Writes a number in decimal notation.
pub fn to_decimal(n: usize) -> (r: String)
    ensures
        r@ == decimal(n as nat),
    decreases n,
{
    if n < 10 {
        digit_str(n).to_owned()
    } else {
        let front = to_decimal(n / 10);
        front.concat(digit_str(n % 10))
    }
}

/// The message for a cut that falls inside a character, at byte `offset` of the value buffer.
pub open spec fn boundary_message(offset: nat) -> Seq<char> {
    "The offset "@ + decimal(offset) + " is at an invalid utf-8 boundary."@
}

/// The message for an array of a type that has no substrings.
pub open spec fn unsupported_message(data_type: Seq<char>) -> Seq<char> {
    "substring does not support type "@ + data_type
}

/// The error for a cut that falls inside a character.
pub fn boundary_error(offset: usize) -> (r: ArrowError)
    ensures
        r matches ArrowError::ComputeError(m) && m@ == boundary_message(offset as nat),
        r matches ArrowError::ComputeError(m) && m@ == "The offset "@ + decimal(offset as nat)
            + " is at an invalid utf-8 boundary."@,
{
    let front = "The offset ".to_owned().concat(to_decimal(offset).as_str());
    ArrowError::ComputeError(front.concat(" is at an invalid utf-8 boundary."))
}

/// The error for an array of a type that has no substrings.
pub fn unsupported_error(data_type: &str) -> (r: ArrowError)
    ensures
        r matches ArrowError::ComputeError(m) && m@ == unsupported_message(data_type@),
        r matches ArrowError::ComputeError(m) && m@ == "substring does not support type "@
            + data_type@,
{
    ArrowError::ComputeError("substring does not support type ".to_owned().concat(data_type))
}

} // verus!
