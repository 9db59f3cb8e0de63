//! The call that installs a curve: the command for the controller's
//! firmware method, and what the reply to it means.

use crate::board::Board;
use crate::board::Fan;
use crate::curve::Curve;
use crate::number::hex;
use crate::number::hex_fixed;
use crate::number::lemma_hex_fixed_low_byte;
use crate::number::push_hex;
use crate::number::push_hex_fixed;
use crate::text::starts_with;
use vstd::prelude::*;

verus! {

/// Why a curve could not be installed.
#[derive(Debug)]
pub enum CurveError {
    /// The controller answered with an error: its whole reply.
    Acpi(String),
    /// The board has no such fan.
    InvalidFan(Fan),
    /// The command could not be delivered: the text of the I/O error.
    Io(String),
}

impl CurveError {
    /// The error as a sentence for the user.
    pub open spec fn spec_message(&self) -> Seq<char> {
        match self {
            CurveError::Acpi(reply) => "acpi_call returned an error `"@ + reply@ + "`"@,
            CurveError::InvalidFan(fan) => "Fan `"@ + fan.spec_name()
                + "` not supported on this board."@,
            CurveError::Io(error) => "failed to write to file "@ + error@,
        }
    }

    /// The error as a sentence for the user.
    pub fn message(&self) -> (r: String)
        ensures
            r@ == self.spec_message(),
    {
        match self {
            CurveError::Acpi(reply) => {
                let mut r = String::from_str("acpi_call returned an error `");
                r.append(reply.as_str());
                r.append("`");
                r
            },
            CurveError::InvalidFan(fan) => {
                let mut r = String::from_str("Fan `");
                r.append(fan.name());
                r.append("` not supported on this board.");
                r
            },
            CurveError::Io(error) => {
                let mut r = String::from_str("failed to write to file ");
                r.append(error.as_str());
                r
            },
        }
    }
}

/// The path of the firmware method that takes a curve.
pub open spec fn method_path() -> Seq<char> {
    "\\_SB.PCI0.SBRG.EC0.SUFC"@
}

/// Parameter `j` of the method: the four bytes from `4 * j` on as one
/// number, the first byte lowest.
pub open spec fn word(bytes: Seq<u8>, j: int) -> nat {
    (bytes[4 * j] + 0x100 * bytes[4 * j + 1] + 0x1_0000 * bytes[4 * j + 2] + 0x100_0000 * bytes[4
        * j + 3]) as nat
}

/// A parameter as the method takes it: `0x` and eight hexadecimal digits.
pub open spec fn word_text(w: nat) -> Seq<char> {
    seq!['0', 'x'] + hex_fixed(w, 8)
}

/// The first `n` parameters, a space after each.
pub open spec fn words_text(bytes: Seq<u8>, n: nat) -> Seq<char>
    decreases n,
{
    if n == 0 {
        Seq::empty()
    } else {
        words_text(bytes, (n - 1) as nat) + word_text(word(bytes, n - 1)) + seq![' ']
    }
}

/// The command that installs the curve `bytes` for the fan at address
/// `fan`: the method's path, the sixteen bytes as four parameters, and the
/// address as `0x` and its hexadecimal digits, with single spaces between.
pub open spec fn command_text(bytes: Seq<u8>, fan: u32) -> Seq<char> {
    method_path() + seq![' '] + words_text(bytes, 4) + seq!['0', 'x'] + hex(fan as nat)
}

/// A parameter shows its four bytes, the last one first, as two digits
/// each.
pub proof fn lemma_word_text(bytes: Seq<u8>, j: int)
    requires
        0 <= j < 4,
        bytes.len() == 16,
    ensures
        word_text(word(bytes, j)) == seq!['0', 'x'] + hex_fixed(bytes[4 * j + 3] as nat, 2)
            + hex_fixed(bytes[4 * j + 2] as nat, 2) + hex_fixed(bytes[4 * j + 1] as nat, 2)
            + hex_fixed(bytes[4 * j] as nat, 2),
{
    let b0 = bytes[4 * j] as nat;
    let b1 = bytes[4 * j + 1] as nat;
    let b2 = bytes[4 * j + 2] as nat;
    let b3 = bytes[4 * j + 3] as nat;
    lemma_hex_fixed_low_byte(0x100 * (0x100 * b3 + b2) + b1, b0, 6);
    lemma_hex_fixed_low_byte(0x100 * b3 + b2, b1, 4);
    lemma_hex_fixed_low_byte(b3, b2, 2);
    lemma_hex_fixed_low_byte(0, b3, 0);
    assert(hex_fixed(0, 0) + hex_fixed(b3, 2) == hex_fixed(b3, 2));
}

/// Builds the command that installs `curve` for the fan at address `fan`.
pub fn make_command(curve: &Curve, fan: u32) -> (r: String)
    ensures
        r@ == command_text(curve@, fan),
{
    let bytes = curve.bytes();
    let mut command = String::from_str("\\_SB.PCI0.SBRG.EC0.SUFC");
    command.append(" ");
    proof {
        reveal_strlit(" ");
        reveal_strlit("0x");
        assert(" "@ =~= seq![' ']);
        assert("0x"@ =~= seq!['0', 'x']);
    }
    let mut j: usize = 0;
    while j < 4
        invariant
            j <= 4,
            bytes@ == curve@,
            " "@ == seq![' '],
            "0x"@ == seq!['0', 'x'],
            command@ == method_path() + seq![' '] + words_text(curve@, j as nat),
        decreases 4 - j,
    {
        let b0: u32 = bytes[4 * j] as u32;
        let b1: u32 = bytes[4 * j + 1] as u32;
        let b2: u32 = bytes[4 * j + 2] as u32;
        let b3: u32 = bytes[4 * j + 3] as u32;
        assert(b0 | (b1 << 8) | (b2 << 16) | (b3 << 24) == b0 + 0x100 * b1 + 0x1_0000 * b2
            + 0x100_0000 * b3) by (bit_vector)
            requires
                b0 < 256,
                b1 < 256,
                b2 < 256,
                b3 < 256,
        ;
        let param: u32 = b0 | (b1 << 8) | (b2 << 16) | (b3 << 24);
        assert(param == word(curve@, j as int));
        command.append("0x");
        push_hex_fixed(&mut command, param, 8);
        command.append(" ");
        assert(command@ =~= method_path() + seq![' '] + words_text(curve@, (j + 1) as nat));
        j = j + 1;
    }
    command.append("0x");
    push_hex(&mut command, fan);
    assert(command@ =~= command_text(curve@, fan));
    command
}

/// What the controller's reply to a command means: a reply that begins with
/// `Error:` is an error and is handed on whole; any other reply, the empty
/// one too, is success.
pub open spec fn reply_outcome(reply: String) -> Result<(), CurveError> {
    if "Error:"@.is_prefix_of(reply@) {
        Err(CurveError::Acpi(reply))
    } else {
        Ok(())
    }
}

/// Reads the controller's reply to a command.
pub fn acpi_result(reply: String) -> (r: Result<(), CurveError>)
    ensures
        r == reply_outcome(reply),
{
    if starts_with(reply.as_str(), "Error:") {
        Err(CurveError::Acpi(reply))
    } else {
        Ok(())
    }
}

impl Curve {
    /// Prepares the call that applies the fan curve to `fan`: the command to
    /// send to the controller. What the controller answers goes to
    /// [`acpi_result`]. A fan that the board does not have is an error.
    pub fn apply(&self, board: Board, fan: Fan) -> (r: Result<String, CurveError>)
        ensures
            match fan.spec_address() {
                Some(address) => r is Ok && r->Ok_0@ == command_text(self@, address),
                None => r == Err::<String, CurveError>(CurveError::InvalidFan(fan)),
            },
    {
        match board {
            Board::Ga401 => {},
        }
        match fan.address() {
            Some(address) => Ok(make_command(self, address)),
            None => Err(CurveError::InvalidFan(fan)),
        }
    }
}

} // verus!
