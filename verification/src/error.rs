//! What can go wrong while the mapping is opened or read.

use vstd::prelude::*;
use vstd::string::StringExecFns;

verus! {

/// Why shared memory could not be opened or read.
#[derive(Debug)]
pub enum Error {
    UnsupportedPlatform,
    SharedMemoryUnavailable { name: String, source: String },
    MapViewFailed { name: String },
    OutOfBounds { name: String, offset: usize, value_size: usize, mapping_size: usize },
}

/// An [`Error`] with its strings as character sequences.
#[verifier::ext_equal]
pub enum ErrorView {
    UnsupportedPlatform,
    SharedMemoryUnavailable { name: Seq<char>, source: Seq<char> },
    MapViewFailed { name: Seq<char> },
    OutOfBounds { name: Seq<char>, offset: usize, value_size: usize, mapping_size: usize },
}

impl View for Error {
    type V = ErrorView;

    open spec fn view(&self) -> ErrorView {
        match *self {
            Error::UnsupportedPlatform => ErrorView::UnsupportedPlatform,
            Error::SharedMemoryUnavailable { name, source } => ErrorView::SharedMemoryUnavailable {
                name: name@,
                source: source@,
            },
            Error::MapViewFailed { name } => ErrorView::MapViewFailed { name: name@ },
            Error::OutOfBounds { name, offset, value_size, mapping_size } => ErrorView::OutOfBounds {
                name: name@,
                offset,
                value_size,
                mapping_size,
            },
        }
    }
}

/// The decimal digit of `n`, for `n` below ten.
pub open spec fn digit(n: nat) -> char {
    (0x30 + n) as char
}

/// The decimal notation of `n`.
pub open spec fn decimal(n: nat) -> Seq<char>
    decreases n,
{
    if n < 10 {
        seq![digit(n)]
    } else {
        decimal(n / 10).push(digit(n % 10))
    }
}

/// Writes `n` in decimal at the end of `text`.
fn push_decimal(text: &mut String, n: usize)
    ensures
        final(text)@ == old(text)@ + decimal(n as nat),
    decreases n,
{
    if n < 10 {
        text.push((0x30 + n as u8) as char);
        assert(text@ == old(text)@ + decimal(n as nat));
    } else {
        push_decimal(text, n / 10);
        text.push((0x30 + (n % 10) as u8) as char);
        assert(text@ == old(text)@ + decimal(n as nat));
    }
}

/// The sentence that describes an error.
pub open spec fn error_message(error: ErrorView) -> Seq<char> {
    match error {
        ErrorView::UnsupportedPlatform => "LMU shared memory is only available on Windows"@,
        ErrorView::SharedMemoryUnavailable { name, source } => "shared memory '"@ + name
            + "' is unavailable: "@ + source,
        ErrorView::MapViewFailed { name } => "failed to map shared memory '"@ + name + "'"@,
        ErrorView::OutOfBounds { name, offset, value_size, mapping_size } =>
            "read outside shared memory '"@ + name + "': "@ + decimal(offset as nat) + " + "@
                + decimal(value_size as nat) + " > "@ + decimal(mapping_size as nat),
    }
}

impl Error {
    /// Describes the error in a sentence.
    pub fn message(&self) -> (text: String)
        ensures
            text@ == error_message(self@),
    {
        let mut text: String = String::new();
        match self {
            Error::UnsupportedPlatform => {
                text.append("LMU shared memory is only available on Windows");
            },
            Error::SharedMemoryUnavailable { name, source } => {
                text.append("shared memory '");
                text.append(name.as_str());
                text.append("' is unavailable: ");
                text.append(source.as_str());
            },
            Error::MapViewFailed { name } => {
                text.append("failed to map shared memory '");
                text.append(name.as_str());
                text.append("'");
            },
            Error::OutOfBounds { name, offset, value_size, mapping_size } => {
                text.append("read outside shared memory '");
                text.append(name.as_str());
                text.append("': ");
                push_decimal(&mut text, *offset);
                text.append(" + ");
                push_decimal(&mut text, *value_size);
                text.append(" > ");
                push_decimal(&mut text, *mapping_size);
            },
        }
        text
    }
}

/// The number that a decimal notation stands for.
pub open spec fn decimal_value(text: Seq<char>) -> int
    decreases text.len(),
{
    if text.len() == 0 {
        0
    } else {
        10 * decimal_value(text.drop_last()) + (text.last() as u32 - 0x30)
    }
}

/// The decimal notation of a number holds digits only, stands for the number, and begins with
/// a zero for zero alone.
pub proof fn law_decimal_notation(n: nat)
    ensures
        decimal(n).len() > 0,
        forall|i: int| 0 <= i < decimal(n).len() ==> '0' <= #[trigger] decimal(n)[i] <= '9',
        decimal_value(decimal(n)) == n,
        decimal(n)[0] == '0' <==> n == 0,
    decreases n,
{
    reveal_with_fuel(decimal_value, 2);
    if n >= 10 {
        law_decimal_notation(n / 10);
        let text = decimal(n);
        assert(text.drop_last() =~= decimal(n / 10));
        assert(text[0] == decimal(n / 10)[0]);
    } else {
        assert(decimal(n).drop_last() =~= seq![]);
    }
}

/// Messages begin with what failed, and name it with the reason or the numbers.
pub proof fn law_messages(
    name: Seq<char>,
    source: Seq<char>,
    offset: usize,
    value_size: usize,
    mapping_size: usize,
)
    ensures
        error_message(ErrorView::UnsupportedPlatform)
            == "LMU shared memory is only available on Windows"@,
        error_message(ErrorView::SharedMemoryUnavailable { name, source }) == "shared memory '"@
            + name + "' is unavailable: "@ + source,
        error_message(ErrorView::MapViewFailed { name }) == "failed to map shared memory '"@ + name
            + "'"@,
        error_message(ErrorView::OutOfBounds { name, offset, value_size, mapping_size })
            == "read outside shared memory '"@ + name + "': "@ + decimal(offset as nat) + " + "@
            + decimal(value_size as nat) + " > "@ + decimal(mapping_size as nat),
{
}

} // verus!
