//! The error type shared by the mapping core and the columnar store.

use vstd::prelude::*;
use vstd::string::StringExecFns;

verus! {

/// What can go wrong in a mapping or column operation.
#[derive(Debug)]
pub enum Error {
    /// A call into the operating system failed; holds the OS error code when
    /// one was reported.
    Io(Option<i32>),
    /// A mapping of length zero was requested.
    ZeroSizedMapping,
    /// The requested length does not fit the address space.
    SizeExceedsSystemLimit,
    /// Huge pages could not be allocated.
    HugePageAllocationFailed,
    /// The NUMA policy could not be applied.
    NumaAllocationFailed,
    /// The protection flags are incompatible.
    ProtectionError,
    /// The custom alignment is not a power of two.
    AlignmentError,
    /// An argument was rejected; holds the reason.
    InvalidArgument(String),
    /// A platform-specific failure with its code.
    PlatformError(i32),
}

/// The kind of an error, without what it carries.
#[derive(Debug, Clone, Copy, PartialEq, Eq, Structural)]
pub enum ErrorKind {
    /// `Error::Io`.
    Io,
    /// `Error::ZeroSizedMapping`.
    ZeroSizedMapping,
    /// `Error::SizeExceedsSystemLimit`.
    SizeExceedsSystemLimit,
    /// `Error::HugePageAllocationFailed`.
    HugePageAllocationFailed,
    /// `Error::NumaAllocationFailed`.
    NumaAllocationFailed,
    /// `Error::ProtectionError`.
    ProtectionError,
    /// `Error::AlignmentError`.
    AlignmentError,
    /// `Error::InvalidArgument`.
    InvalidArgument,
    /// `Error::PlatformError`.
    PlatformError,
}

/// The kind of an error.
pub open spec fn error_kind(e: Error) -> ErrorKind {
    match e {
        Error::Io(_) => ErrorKind::Io,
        Error::ZeroSizedMapping => ErrorKind::ZeroSizedMapping,
        Error::SizeExceedsSystemLimit => ErrorKind::SizeExceedsSystemLimit,
        Error::HugePageAllocationFailed => ErrorKind::HugePageAllocationFailed,
        Error::NumaAllocationFailed => ErrorKind::NumaAllocationFailed,
        Error::ProtectionError => ErrorKind::ProtectionError,
        Error::AlignmentError => ErrorKind::AlignmentError,
        Error::InvalidArgument(_) => ErrorKind::InvalidArgument,
        Error::PlatformError(_) => ErrorKind::PlatformError,
    }
}

impl Error {
    /// The kind of the error.
    pub fn kind(&self) -> (r: ErrorKind)
        ensures
            r == error_kind(*self),
    {
        match self {
            Error::Io(_) => ErrorKind::Io,
            Error::ZeroSizedMapping => ErrorKind::ZeroSizedMapping,
            Error::SizeExceedsSystemLimit => ErrorKind::SizeExceedsSystemLimit,
            Error::HugePageAllocationFailed => ErrorKind::HugePageAllocationFailed,
            Error::NumaAllocationFailed => ErrorKind::NumaAllocationFailed,
            Error::ProtectionError => ErrorKind::ProtectionError,
            Error::AlignmentError => ErrorKind::AlignmentError,
            Error::InvalidArgument(_) => ErrorKind::InvalidArgument,
            Error::PlatformError(_) => ErrorKind::PlatformError,
        }
    }
}

/// The character of a decimal digit.
pub open spec fn digit_char(d: nat) -> char {
    if d == 0 {
        '0'
    } else if d == 1 {
        '1'
    } else if d == 2 {
        '2'
    } else if d == 3 {
        '3'
    } else if d == 4 {
        '4'
    } else if d == 5 {
        '5'
    } else if d == 6 {
        '6'
    } else if d == 7 {
        '7'
    } else if d == 8 {
        '8'
    } else {
        '9'
    }
}

/// The decimal digits of a number, without leading zeros.
pub open spec fn digits_text(n: nat) -> Seq<char>
    decreases n,
{
    if n < 10 {
        seq![digit_char(n)]
    } else {
        digits_text(n / 10).push(digit_char(n % 10))
    }
}

/// A number in decimal, with a minus sign in front where it is negative.
pub open spec fn decimal_text(value: int) -> Seq<char> {
    if value < 0 {
        seq!['-'] + digits_text((-value) as nat)
    } else {
        digits_text(value as nat)
    }
}

/// The text of a decimal digit.
fn digit_str(d: u64) -> (r: &'static str)
    requires
        d < 10,
    ensures
        r@ == seq![digit_char(d as nat)],
{
    proof {
        reveal_strlit("0");
        reveal_strlit("1");
        reveal_strlit("2");
        reveal_strlit("3");
        reveal_strlit("4");
        reveal_strlit("5");
        reveal_strlit("6");
        reveal_strlit("7");
        reveal_strlit("8");
        reveal_strlit("9");
    }
    let r: &'static str = if d == 0 {
        "0"
    } else if d == 1 {
        "1"
    } else if d == 2 {
        "2"
    } else if d == 3 {
        "3"
    } else if d == 4 {
        "4"
    } else if d == 5 {
        "5"
    } else if d == 6 {
        "6"
    } else if d == 7 {
        "7"
    } else if d == 8 {
        "8"
    } else {
        "9"
    };
    assert(r@ =~= seq![digit_char(d as nat)]);
    r
}

/// Appends a number in decimal to `out`.
fn push_digits(out: &mut String, n: u64)
    ensures
        final(out)@ == old(out)@ + digits_text(n as nat),
    decreases n,
{
    if n >= 10 {
        push_digits(out, n / 10);
    }
    out.append(digit_str(n % 10));
    assert(out@ =~= old(out)@ + digits_text(n as nat));
}

/// A number in decimal.
pub fn decimal(value: i32) -> (r: String)
    ensures
        r@ == decimal_text(value as int),
{
    let mut out: String = String::new();
    if value < 0 {
        proof {
            reveal_strlit("-");
        }
        out.append("-");
        assert(out@ =~= seq!['-']);
        push_digits(&mut out, (-(value as i64)) as u64);
    } else {
        push_digits(&mut out, value as u64);
        assert(out@ =~= digits_text(value as nat));
    }
    out
}

impl Error {
    /// What the message of the error begins with.
    pub open spec fn headline(&self) -> Seq<char> {
        match *self {
            Error::Io(_) => "I/O error"@,
            Error::ZeroSizedMapping => "Memory map size cannot be zero"@,
            Error::SizeExceedsSystemLimit => "Requested memory map size exceeds system limits"@,
            Error::HugePageAllocationFailed => "Failed to allocate huge pages"@,
            Error::NumaAllocationFailed => "NUMA memory allocation failed"@,
            Error::ProtectionError => "Memory protection error"@,
            Error::AlignmentError => "Memory alignment error"@,
            Error::InvalidArgument(_) => "Invalid argument: "@,
            Error::PlatformError(_) => "Platform-specific error code: "@,
        }
    }

    /// What follows the headline: the reason of a rejected argument, and
    /// the code of a failure that has one.
    pub open spec fn detail(&self) -> Seq<char> {
        match *self {
            Error::Io(Some(code)) => ": os error "@ + decimal_text(code as int),
            Error::InvalidArgument(reason) => reason@,
            Error::PlatformError(code) => decimal_text(code as int),
            _ => Seq::empty(),
        }
    }

    /// The message of the error, for people to read.
    pub fn message(&self) -> (r: String)
        ensures
            r@ == self.headline() + self.detail(),
    {
        let r: String = match self {
            Error::Io(code) => {
                let head: String = "I/O error".to_owned();
                match code {
                    Some(c) => {
                        let with_code: String = head.concat(": os error ");
                        with_code.concat(decimal(*c).as_str())
                    },
                    None => head,
                }
            },
            Error::ZeroSizedMapping => "Memory map size cannot be zero".to_owned(),
            Error::SizeExceedsSystemLimit => "Requested memory map size exceeds system limits".to_owned(),
            Error::HugePageAllocationFailed => "Failed to allocate huge pages".to_owned(),
            Error::NumaAllocationFailed => "NUMA memory allocation failed".to_owned(),
            Error::ProtectionError => "Memory protection error".to_owned(),
            Error::AlignmentError => "Memory alignment error".to_owned(),
            Error::InvalidArgument(reason) => {
                let head: String = "Invalid argument: ".to_owned();
                head.concat(reason.as_str())
            },
            Error::PlatformError(code) => {
                let head: String = "Platform-specific error code: ".to_owned();
                head.concat(decimal(*code).as_str())
            },
        };
        assert(r@ =~= self.headline() + self.detail());
        r
    }
}

} // verus!
