//! The error type shared by every fallible operation of the crate.

use vstd::prelude::*;
use vstd::string::StringExecFns;

verus! {

/// Why an operation was refused.
#[derive(Debug)]
pub enum Error {
    /// A dimension, index, stride or axis is out of range, or two shapes do not match.
    Bounds(String),
    /// The call is not supported, or an operation was misused.
    Interface(String),
    /// The device driver reported a failure.
    Device(String),
}

impl Error {
    /// The human-readable cause carried by the error.
    pub fn message(&self) -> (text: String)
        ensures
            text@ == self.cause(),
    {
        match self {
            Error::Bounds(cause) => cause.clone(),
            Error::Interface(cause) => cause.clone(),
            Error::Device(cause) => cause.clone(),
        }
    }

    /// The text of the message, whatever the variant.
    pub open spec fn cause(&self) -> Seq<char> {
        match self {
            Error::Bounds(cause) => cause@,
            Error::Interface(cause) => cause@,
            Error::Device(cause) => cause@,
        }
    }
}

/// One decimal digit.
pub open spec fn digit(d: int) -> Seq<char> {
    if d == 0 {
        "0"@
    } else if d == 1 {
        "1"@
    } else if d == 2 {
        "2"@
    } else if d == 3 {
        "3"@
    } else if d == 4 {
        "4"@
    } else if d == 5 {
        "5"@
    } else if d == 6 {
        "6"@
    } else if d == 7 {
        "7"@
    } else if d == 8 {
        "8"@
    } else {
        "9"@
    }
}

/// A number in decimal notation, without leading zeros.
pub open spec fn decimal(n: nat) -> Seq<char>
    decreases n,
{
    if n < 10 {
        digit(n as int)
    } else {
        decimal(n / 10) + digit((n % 10) as int)
    }
}

/// The numbers of a list in decimal notation, with a comma and a space between them.
pub open spec fn joined(items: Seq<usize>) -> Seq<char>
    decreases items.len(),
{
    if items.len() == 0 {
        Seq::empty()
    } else if items.len() == 1 {
        decimal(items[0] as nat)
    } else {
        joined(items.drop_last()) + ", "@ + decimal(items.last() as nat)
    }
}

/// A number as messages show it: in decimal notation.
pub open spec fn number_rendering(n: usize) -> Seq<char> {
    decimal(n as nat)
}

/// A list of numbers as messages show it: in square brackets, the numbers in
/// decimal notation with a comma and a space between them.
pub open spec fn list_rendering(items: Seq<usize>) -> Seq<char> {
    "["@ + joined(items) + "]"@
}

/// One decimal digit as text.
fn digit_text(d: usize) -> (text: &'static str)
    requires
        d < 10,
    ensures
        text@ == digit(d as int),
{
    if d == 0 {
        "0"
    } else if d == 1 {
        "1"
    } else if d == 2 {
        "2"
    } else if d == 3 {
        "3"
    } else if d == 4 {
        "4"
    } else if d == 5 {
        "5"
    } else if d == 6 {
        "6"
    } else if d == 7 {
        "7"
    } else if d == 8 {
        "8"
    } else {
        "9"
    }
}

/// A number in decimal notation.
pub(crate) fn number_text(n: usize) -> (text: String)
    ensures
        text@ == number_rendering(n),
    decreases n,
{
    if n < 10 {
        String::from_str(digit_text(n))
    } else {
        number_text(n / 10).concat(digit_text(n % 10))
    }
}

/// A list of numbers in square brackets, with a comma and a space between them.
pub(crate) fn list_text(items: &[usize]) -> (text: String)
    ensures
        text@ == list_rendering(items@),
{
    let mut text = String::from_str("[");
    let mut i: usize = 0;
    assert(items@.take(0) =~= Seq::<usize>::empty());
    assert("["@ + Seq::<char>::empty() =~= "["@);
    while i < items.len()
        invariant
            i <= items@.len(),
            text@ == "["@ + joined(items@.take(i as int)),
        decreases items@.len() - i,
    {
        let number = number_text(items[i]);
        proof {
            let before = items@.take(i as int);
            let after = items@.take(i as int + 1);
            assert(after.drop_last() =~= before);
            assert(after.last() == items@[i as int]);
            if i == 0 {
                assert(joined(before) =~= Seq::<char>::empty());
                assert("["@ + joined(after) =~= "["@ + decimal(items@[0] as nat));
            } else {
                assert("["@ + joined(after) =~= "["@ + joined(before) + ", "@ + decimal(
                    items@[i as int] as nat,
                ));
            }
        }
        if i > 0 {
            text = text.concat(", ");
        }
        text = text.concat(number.as_str());
        i += 1;
    }
    assert(items@.take(items@.len() as int) =~= items@);
    text.concat("]")
}

/// The message of the error that an evaluation ends in where a division meets a zero divisor.
pub open spec fn zero_division_message() -> Seq<char> {
    "division by zero"@
}

/// The message that names one list of dimensions: `what`, then the list.
pub open spec fn message_about(what: Seq<char>, dims: Seq<usize>) -> Seq<char> {
    what + list_rendering(dims)
}

/// The message that names two lists of dimensions: `what`, then the first
/// list, the word "and", and the second list.
pub open spec fn message_between(what: Seq<char>, left: Seq<usize>, right: Seq<usize>) -> Seq<
    char,
> {
    what + list_rendering(left) + " and "@ + list_rendering(right)
}

/// The message that names an index and the limit it broke: `what`, then the
/// index, the words "for dimension", and the limit.
pub open spec fn message_index(what: Seq<char>, index: usize, limit: usize) -> Seq<char> {
    what + number_rendering(index) + " for dimension "@ + number_rendering(limit)
}

/// A bounds error whose message is `what` followed by the rendering of `dims`.
pub(crate) fn bounds_about(what: &str, dims: &[usize]) -> (e: Error)
    ensures
        e is Bounds,
        e.cause() == message_about(what@, dims@),
{
    let text = list_text(dims);
    Error::Bounds(String::from_str(what).concat(text.as_str()))
}

/// A bounds error whose message names two lists of dimensions.
pub(crate) fn bounds_between(what: &str, left: &[usize], right: &[usize]) -> (e: Error)
    ensures
        e is Bounds,
        e.cause() == message_between(what@, left@, right@),
{
    let l = list_text(left);
    let r = list_text(right);
    Error::Bounds(
        String::from_str(what).concat(l.as_str()).concat(" and ").concat(r.as_str()),
    )
}

/// A bounds error whose message names an index and the limit it broke.
pub(crate) fn bounds_index(what: &str, index: usize, limit: usize) -> (e: Error)
    ensures
        e is Bounds,
        e.cause() == message_index(what@, index, limit),
{
    let i = number_text(index);
    let l = number_text(limit);
    Error::Bounds(
        String::from_str(what).concat(i.as_str()).concat(" for dimension ").concat(l.as_str()),
    )
}

} // verus!
