//! Errors.

use vstd::prelude::*;
use vstd::string::StringExecFns;

verus! {

/// What could not be done.
#[derive(Clone, Copy, PartialEq, Eq, Structural)]
pub enum OnDiskOperation {
    /// Load an integer.
    LoadType,
    /// Store an integer.
    WriteType,
    /// Load a structure.
    ReadStruct,
    /// Store a structure.
    WriteStruct,
}

/// A buffer has the wrong size for what it should be loaded from or stored in it.
pub struct OnDiskError {
    /// What could not be done.
    pub operation: OnDiskOperation,
    /// Name of the type.
    pub name: String,
    /// How many bytes it takes.
    pub length: usize,
    /// How many bytes the buffer has.
    pub buffer_length: usize,
}

/// The character for a decimal digit.
pub open spec fn digit(d: nat) -> char {
    (48 + d) as char
}

/// `n` in decimal notation.
pub open spec fn decimal(n: nat) -> Seq<char>
    decreases n,
{
    if n < 10 {
        seq![digit(n)]
    } else {
        decimal(n / 10).push(digit(n % 10))
    }
}

/// The number that a text of decimal digits stands for.
pub open spec fn number(text: Seq<char>) -> nat
    decreases text.len(),
{
    if text.len() == 0 {
        0
    } else {
        10 * number(text.drop_last()) + (text.last() as nat - '0' as nat) as nat
    }
}

/// What is written for a number are decimal digits, which stand for just that number, without
/// leading zeros.
pub proof fn law_decimal_reads_back(n: nat)
    ensures
        number(decimal(n)) == n,
        decimal(n).len() > 0,
        forall|i: int| 0 <= i < decimal(n).len() ==> '0' <= #[trigger] decimal(n)[i] <= '9',
        decimal(n)[0] == '0' ==> n == 0 && decimal(n).len() == 1,
    decreases n,
{
    if n < 10 {
        assert(decimal(n).drop_last() == Seq::<char>::empty());
        assert(number(decimal(n).drop_last()) == 0);
    } else {
        law_decimal_reads_back(n / 10);
        assert(decimal(n).drop_last() == decimal(n / 10));
        assert(decimal(n).last() == digit(n % 10));
    }
}

/// What the text for an error says: what could not be done, with which type, its size, and the
/// size of the buffer.
pub proof fn law_error_text(error: OnDiskError)
    ensures
        error.text() == match error.operation {
            OnDiskOperation::LoadType => "Cannot load type "@,
            OnDiskOperation::WriteType => "Cannot write type "@,
            OnDiskOperation::ReadStruct => "Cannot read struct "@,
            OnDiskOperation::WriteStruct => "Cannot write struct "@,
        } + error.name@ + " (length "@ + decimal(error.length as nat) + match error.operation {
            OnDiskOperation::LoadType | OnDiskOperation::ReadStruct => ") from buffer of length "@,
            OnDiskOperation::WriteType | OnDiskOperation::WriteStruct => {
                ") into buffer of length "@
            },
        } + decimal(error.buffer_length as nat),
{
}

/// A decimal digit.
fn digit_str(d: usize) -> (s: &'static str)
    requires
        d < 10,
    ensures
        s@ == seq![digit(d as nat)],
{
    proof {
        reveal_strlit("0");
        reveal_strlit("1");
        reveal_strlit("2");
        reveal_strlit("3");
        reveal_strlit("4");
        reveal_strlit("5");
        reveal_strlit("6");
        reveal_strlit("7");
        reveal_strlit("8");
        reveal_strlit("9");
    }
    match d {
        0 => "0",
        1 => "1",
        2 => "2",
        3 => "3",
        4 => "4",
        5 => "5",
        6 => "6",
        7 => "7",
        8 => "8",
        _ => "9",
    }
}

/// Append `n` in decimal notation.
fn append_decimal(text: &mut String, n: usize)
    ensures
        final(text)@ == old(text)@ + decimal(n as nat),
    decreases n,
{
    if n < 10 {
        text.append(digit_str(n));
    } else {
        append_decimal(text, n / 10);
        text.append(digit_str(n % 10));
        assert(text@ == old(text)@ + decimal(n as nat));
    }
}

impl OnDiskError {
    /// The error is for an operation on a type of the given name that takes `length` bytes, with
    /// a buffer of `buffer_length` bytes.
    pub open spec fn says(
        self,
        operation: OnDiskOperation,
        name: Seq<char>,
        length: nat,
        buffer_length: nat,
    ) -> bool {
        &&& self.operation == operation
        &&& self.name@ == name
        &&& self.length == length
        &&& self.buffer_length == buffer_length
    }

    /// The text for the error.
    pub open spec fn text(self) -> Seq<char> {
        let (before, between) = match self.operation {
            OnDiskOperation::LoadType => ("Cannot load type "@, ") from buffer of length "@),
            OnDiskOperation::WriteType => ("Cannot write type "@, ") into buffer of length "@),
            OnDiskOperation::ReadStruct => ("Cannot read struct "@, ") from buffer of length "@),
            OnDiskOperation::WriteStruct => ("Cannot write struct "@, ") into buffer of length "@),
        };
        before + self.name@ + " (length "@ + decimal(self.length as nat) + between + decimal(
            self.buffer_length as nat,
        )
    }

    /// The text for the error.
    pub fn message(&self) -> (message: String)
        ensures
            message@ == self.text(),
    {
        let (before, between) = match self.operation {
            OnDiskOperation::LoadType => ("Cannot load type ", ") from buffer of length "),
            OnDiskOperation::WriteType => ("Cannot write type ", ") into buffer of length "),
            OnDiskOperation::ReadStruct => ("Cannot read struct ", ") from buffer of length "),
            OnDiskOperation::WriteStruct => ("Cannot write struct ", ") into buffer of length "),
        };
        let mut message = String::from_str(before);
        message.append(self.name.as_str());
        message.append(" (length ");
        append_decimal(&mut message, self.length);
        message.append(between);
        append_decimal(&mut message, self.buffer_length);
        message
    }
}

} // verus!
