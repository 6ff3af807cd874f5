//! Error types of the arena, and decimal rendering for their messages.

use vstd::prelude::*;

verus! {

/// Errors returned by the arena's mutating operations.
#[derive(Clone, Copy, Debug, PartialEq, Eq, Structural)]
pub enum Error {
    /// The region was opened for read-only access.
    ReadOnly,
    /// Neither the bump path nor the free-list could serve the request.
    InsufficientSpace {
        /// The number of bytes asked for.
        requested: u32,
        /// What was available: the remaining bump space when the free-list
        /// is empty, otherwise the size of the largest free segment.
        available: u32,
    },
}

/// A region image smaller than the minimum an arena needs.
#[derive(Clone, Copy, Debug, PartialEq, Eq, Structural)]
pub struct TooSmall {
    /// The size of the image that was offered.
    pub cap: usize,
    /// The smallest size that would have been accepted.
    pub min_cap: usize,
}

/// Errors returned when opening an arena over an existing byte image.
#[derive(Clone, Copy, Debug, PartialEq, Eq, Structural)]
pub enum OpenError {
    /// The image cannot even hold the header.
    InvalidData(TooSmall),
    /// The image's header does not describe the image.
    BadHeader,
}

/// Tags a size error as invalid data for the caller that opened the image.
pub fn invalid_data(e: TooSmall) -> (r: OpenError)
    ensures
        r == OpenError::InvalidData(e),
{
    OpenError::InvalidData(e)
}

/// The decimal digit character for `d`.
pub open spec fn spec_digit(d: int) -> char
    recommends
        0 <= d < 10,
{
    if d == 0 {
        '0'
    } else if d == 1 {
        '1'
    } else if d == 2 {
        '2'
    } else if d == 3 {
        '3'
    } else if d == 4 {
        '4'
    } else if d == 5 {
        '5'
    } else if d == 6 {
        '6'
    } else if d == 7 {
        '7'
    } else if d == 8 {
        '8'
    } else {
        '9'
    }
}

/// The decimal rendering of `n`, most significant digit first.
pub open spec fn spec_decimal(n: int) -> Seq<char>
    recommends
        n >= 0,
    decreases n,
{
    if n < 10 {
        seq![spec_digit(n)]
    } else {
        spec_decimal(n / 10).push(spec_digit(n % 10))
    }
}

/// One decimal digit as a string slice.
fn digit_str(d: u64) -> (r: &'static str)
    requires
        d < 10,
    ensures
        r@ == seq![spec_digit(d as int)],
{
    if d == 0 {
        proof { reveal_strlit("0"); }
        assert("0"@ =~= seq![spec_digit(0)]);
        "0"
    } else if d == 1 {
        proof { reveal_strlit("1"); }
        assert("1"@ =~= seq![spec_digit(1)]);
        "1"
    } else if d == 2 {
        proof { reveal_strlit("2"); }
        assert("2"@ =~= seq![spec_digit(2)]);
        "2"
    } else if d == 3 {
        proof { reveal_strlit("3"); }
        assert("3"@ =~= seq![spec_digit(3)]);
        "3"
    } else if d == 4 {
        proof { reveal_strlit("4"); }
        assert("4"@ =~= seq![spec_digit(4)]);
        "4"
    } else if d == 5 {
        proof { reveal_strlit("5"); }
        assert("5"@ =~= seq![spec_digit(5)]);
        "5"
    } else if d == 6 {
        proof { reveal_strlit("6"); }
        assert("6"@ =~= seq![spec_digit(6)]);
        "6"
    } else if d == 7 {
        proof { reveal_strlit("7"); }
        assert("7"@ =~= seq![spec_digit(7)]);
        "7"
    } else if d == 8 {
        proof { reveal_strlit("8"); }
        assert("8"@ =~= seq![spec_digit(8)]);
        "8"
    } else {
        proof { reveal_strlit("9"); }
        assert("9"@ =~= seq![spec_digit(9)]);
        "9"
    }
}

/// Renders `n` in decimal.
pub fn decimal_string(n: u64) -> (r: String)
    ensures
        r@ == spec_decimal(n as int),
    decreases n,
{
    if n < 10 {
        let s = String::from_str(digit_str(n));
        assert(s@ =~= spec_decimal(n as int));
        s
    } else {
        let prefix = decimal_string(n / 10);
        let r = prefix.concat(digit_str(n % 10));
        assert(r@ =~= spec_decimal(n as int));
        r
    }
}

/// The message a [`TooSmall`] error carries.
pub open spec fn spec_too_small_message(cap: int, min_cap: int) -> Seq<char> {
    "memmap size is less than the minimum capacity: "@ + spec_decimal(cap) + " < "@
        + spec_decimal(min_cap)
}

impl TooSmall {
    /// Records an image of `cap` bytes where at least `min_cap` were needed.
    pub fn new(cap: usize, min_cap: usize) -> (r: TooSmall)
        ensures
            r.cap == cap,
            r.min_cap == min_cap,
    {
        TooSmall { cap, min_cap }
    }

    /// Renders the error for display.
    pub fn message(&self) -> (r: String)
        ensures
            r@ == spec_too_small_message(self.cap as int, self.min_cap as int),
    {
        let mut s = String::from_str("memmap size is less than the minimum capacity: ");
        s.append(decimal_string(self.cap as u64).as_str());
        s.append(" < ");
        s.append(decimal_string(self.min_cap as u64).as_str());
        assert(s@ =~= spec_too_small_message(self.cap as int, self.min_cap as int));
        s
    }
}

} // verus!
