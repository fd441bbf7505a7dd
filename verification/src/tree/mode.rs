//! The modes that an entry of a tree can have.

use vstd::prelude::*;
use vstd::std_specs::convert::TryFromSpecImpl;
use crate::tree::error::Error;

verus! {

/// The byte of the digit 0.
pub const D0: u8 = 0x30;

/// The byte of the digit 1.
pub const D1: u8 = 0x31;

/// The byte of the digit 2.
pub const D2: u8 = 0x32;

/// The byte of the digit 4.
pub const D4: u8 = 0x34;

/// The byte of the digit 5.
pub const D5: u8 = 0x35;

/// The byte of the digit 6.
pub const D6: u8 = 0x36;

/// The byte of the digit 7.
pub const D7: u8 = 0x37;

/// The byte of the digit 9.
pub const D9: u8 = 0x39;

/// What an entry of a tree stands for, in the order of the numbers that git
/// gives the modes.
#[derive(Clone, Copy, PartialEq, Eq, Debug, PartialOrd, Ord, Hash, Structural)]
pub enum Mode {
    /// A directory.
    Tree,
    /// A file.
    Blob,
    /// A file that can be executed.
    BlobExecutable,
    /// A symbolic link.
    Link,
    /// A commit of another repository.
    Commit,
}

impl Mode {
    /// The digits that stand for the mode in a tree.
    pub open spec fn text(self) -> Seq<u8> {
        match self {
            Mode::Tree => seq![D4, D0, D0, D0, D0],
            Mode::Blob => seq![D1, D0, D0, D6, D4, D4],
            Mode::BlobExecutable => seq![D1, D0, D0, D7, D5, D5],
            Mode::Link => seq![D1, D2, D0, D0, D0, D0],
            Mode::Commit => seq![D1, D6, D0, D0, D0, D0],
        }
    }

    /// The mode that the digits `text` stand for, if any.
    pub open spec fn named_by(text: Seq<u8>) -> Option<Mode> {
        if text == Mode::Tree.text() {
            Some(Mode::Tree)
        } else if text == Mode::Blob.text() {
            Some(Mode::Blob)
        } else if text == Mode::BlobExecutable.text() {
            Some(Mode::BlobExecutable)
        } else if text == Mode::Link.text() {
            Some(Mode::Link)
        } else if text == Mode::Commit.text() {
            Some(Mode::Commit)
        } else {
            None
        }
    }

    /// The number that the digits of the mode read as, in base eight.
    pub fn bits(self) -> (bits: u16)
        ensures
            bits == octal(self.text()),
    {
        proof {
            lemma_octal_of_modes();
        }
        match self {
            Mode::Tree => 0o040000,
            Mode::Blob => 0o100644,
            Mode::BlobExecutable => 0o100755,
            Mode::Link => 0o120000,
            Mode::Commit => 0o160000,
        }
    }
}

/// The number that `digits` read as in base eight.
pub open spec fn octal(digits: Seq<u8>) -> nat
    decreases digits.len(),
{
    if digits.len() == 0 {
        0
    } else {
        (8 * octal(digits.drop_last()) + (digits.last() - D0)) as nat
    }
}

/// The numbers of the five modes.
pub proof fn lemma_octal_of_modes()
    ensures
        octal(Mode::Tree.text()) == 0o040000,
        octal(Mode::Blob.text()) == 0o100644,
        octal(Mode::BlobExecutable.text()) == 0o100755,
        octal(Mode::Link.text()) == 0o120000,
        octal(Mode::Commit.text()) == 0o160000,
{
    reveal_with_fuel(octal, 7);
}

/// Whether `bytes` holds exactly the six bytes given.
fn is_six(bytes: &[u8], a: u8, b: u8, c: u8, d: u8, e: u8, f: u8) -> (same: bool)
    ensures
        same == (bytes@ == seq![a, b, c, d, e, f]),
{
    let same = bytes.len() == 6 && bytes[0] == a && bytes[1] == b && bytes[2] == c && bytes[3] == d
        && bytes[4] == e && bytes[5] == f;
    assert(same ==> bytes@ =~= seq![a, b, c, d, e, f]);
    same
}

/// Whether `bytes` holds exactly the five bytes given.
fn is_five(bytes: &[u8], a: u8, b: u8, c: u8, d: u8, e: u8) -> (same: bool)
    ensures
        same == (bytes@ == seq![a, b, c, d, e]),
{
    let same = bytes.len() == 5 && bytes[0] == a && bytes[1] == b && bytes[2] == c && bytes[3] == d
        && bytes[4] == e;
    assert(same ==> bytes@ =~= seq![a, b, c, d, e]);
    same
}

impl<'a> TryFrom<&'a [u8]> for Mode {
    type Error = Error;

    /// The mode that the digits `mode` stand for.
    fn try_from(mode: &'a [u8]) -> (res: Result<Self, Self::Error>) {
        if is_five(mode, D4, D0, D0, D0, D0) {
            Ok(Mode::Tree)
        } else if is_six(mode, D1, D0, D0, D6, D4, D4) {
            Ok(Mode::Blob)
        } else if is_six(mode, D1, D0, D0, D7, D5, D5) {
            Ok(Mode::BlobExecutable)
        } else if is_six(mode, D1, D2, D0, D0, D0, D0) {
            Ok(Mode::Link)
        } else if is_six(mode, D1, D6, D0, D0, D0, D0) {
            Ok(Mode::Commit)
        } else {
            Err(Error::UnknownMode)
        }
    }
}

impl<'a> TryFromSpecImpl<&'a [u8]> for Mode {
    open spec fn obeys_try_from_spec() -> bool {
        true
    }

    open spec fn try_from_spec(mode: &'a [u8]) -> Result<Self, Self::Error> {
        match Mode::named_by(mode@) {
            Some(m) => Ok(m),
            None => Err(Error::UnknownMode),
        }
    }
}

} // verus!
