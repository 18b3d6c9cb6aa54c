//! Samples and errors.

use vstd::prelude::*;
use vstd::string::StringExecFns;

verus! {

/// A complex sample.
#[derive(Debug, PartialEq, Eq, Default)]
pub struct Complex<T> {
    /// Real (in-phase) part.
    pub re: T,
    /// Imaginary (quadrature) part.
    pub im: T,
}

impl<T: Copy> Clone for Complex<T> {
    fn clone(&self) -> (r: Self)
        ensures
            r == *self,
    {
        *self
    }
}

impl<T: Copy> Copy for Complex<T> {

}

impl<T> Complex<T> {
    /// The sample `re + i im`.
    pub fn new(re: T, im: T) -> (r: Self)
        ensures
            r == (Complex { re, im }),
    {
        Complex { re, im }
    }
}

/// A stereo audio sample.
#[derive(Debug, PartialEq, Eq, Default)]
pub struct Stereo<T> {
    /// Left channel.
    pub l: T,
    /// Right channel.
    pub r: T,
}

impl<T: Copy> Clone for Stereo<T> {
    fn clone(&self) -> (r: Self)
        ensures
            r == *self,
    {
        *self
    }
}

impl<T: Copy> Copy for Stereo<T> {

}

impl<T> Stereo<T> {
    /// The sample with the channels `l` and `r`.
    pub fn new(l: T, r: T) -> (s: Self)
        ensures
            s == (Stereo { l, r }),
    {
        Stereo { l, r }
    }
}

/// Why a block refused a request, with the text that it carries.
pub enum Fault {
    /// A parameter is out of its range.
    InvalidParameter(Seq<char>),
    /// An output buffer is too small.
    BufferTooSmall {
        /// Samples called for.
        need: usize,
        /// Samples that the buffer holds.
        got: usize,
    },
    /// No compute device could be had.
    GpuUnavailable(Seq<char>),
}

/// Why a block refused a request.
#[derive(Clone, Debug, PartialEq, Eq)]
pub enum DspError {
    /// A parameter is out of its range; the text says which one.
    InvalidParameter(String),
    /// The output buffer holds `got` samples where `need` are called for.
    BufferTooSmall {
        /// Samples called for.
        need: usize,
        /// Samples that the buffer holds.
        got: usize,
    },
    /// No compute device could be had; the text says what failed.
    GpuUnavailable(String),
}

impl DspError {
    /// What the error says.
    pub open spec fn view(self) -> Fault {
        match self {
            DspError::InvalidParameter(text) => Fault::InvalidParameter(text@),
            DspError::BufferTooSmall { need, got } => Fault::BufferTooSmall { need, got },
            DspError::GpuUnavailable(text) => Fault::GpuUnavailable(text@),
        }
    }

    /// The text of the error.
    pub fn message(&self) -> (text: String)
        ensures
            text@ == match self@ {
                Fault::InvalidParameter(t) => t,
                Fault::BufferTooSmall { need, got } => "buffer too small: need "@ + decimal(
                    need as nat,
                ) + ", got "@ + decimal(got as nat),
                Fault::GpuUnavailable(t) => t,
            },
    {
        match self {
            DspError::InvalidParameter(t) => String::from_str(t.as_str()),
            DspError::BufferTooSmall { need, got } => String::from_str(
                "buffer too small: need ",
            ).concat(decimal_text(*need as u64).as_str()).concat(", got ").concat(
                decimal_text(*got as u64).as_str(),
            ),
            DspError::GpuUnavailable(t) => String::from_str(t.as_str()),
        }
    }
}

/// What the outcome `r` says.
pub open spec fn outcome<T>(r: Result<T, DspError>) -> Result<T, Fault> {
    match r {
        Ok(x) => Ok(x),
        Err(e) => Err(e@),
    }
}

/// The refusal of a parameter, with a fixed text.
pub fn invalid(text: &str) -> (e: DspError)
    ensures
        e@ == Fault::InvalidParameter(text@),
{
    DspError::InvalidParameter(String::from_str(text))
}

/// The digit `d`.
pub open spec fn digit(d: nat) -> Seq<char> {
    if d == 0 {
        "0"@
    } else if d == 1 {
        "1"@
    } else if d == 2 {
        "2"@
    } else if d == 3 {
        "3"@
    } else if d == 4 {
        "4"@
    } else if d == 5 {
        "5"@
    } else if d == 6 {
        "6"@
    } else if d == 7 {
        "7"@
    } else if d == 8 {
        "8"@
    } else {
        "9"@
    }
}

/// `n` in decimal digits.
pub open spec fn decimal(n: nat) -> Seq<char>
    decreases n,
{
    if n < 10 {
        digit(n)
    } else {
        decimal(n / 10) + digit(n % 10)
    }
}

fn digit_text(d: u64) -> (text: &'static str)
    requires
        d < 10,
    ensures
        text@ == digit(d as nat),
{
    if d == 0 {
        "0"
    } else if d == 1 {
        "1"
    } else if d == 2 {
        "2"
    } else if d == 3 {
        "3"
    } else if d == 4 {
        "4"
    } else if d == 5 {
        "5"
    } else if d == 6 {
        "6"
    } else if d == 7 {
        "7"
    } else if d == 8 {
        "8"
    } else {
        "9"
    }
}

/// `n` in decimal digits.
pub fn decimal_text(n: u64) -> (text: String)
    ensures
        text@ == decimal(n as nat),
    decreases n,
{
    if n < 10 {
        String::from_str(digit_text(n))
    } else {
        decimal_text(n / 10).concat(digit_text(n % 10))
    }
}

} // verus!
