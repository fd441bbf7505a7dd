//! What the bytes of a tree mean: the entry that stands at the start of
//! some bytes, and the entries that bytes are made of.

use vstd::prelude::*;
use crate::tree::error::Error;
use crate::tree::mode::{Mode, D0, D9};

verus! {

/// The byte between the mode and the file name.
pub const SPACE: u8 = 0x20;

/// The byte that ends the file name.
pub const NULL: u8 = 0;

/// The length of an object id.
pub const OID_LEN: usize = 20;

/// An entry with its file name and object id as the bytes they hold.
pub struct EntryView {
    pub mode: Mode,
    pub filename: Seq<u8>,
    pub oid: Seq<u8>,
}

/// Whether `byte` is one of the digits 0 to 9.
pub open spec fn is_digit(byte: u8) -> bool {
    D0 <= byte <= D9
}

/// The bytes that a mode is written with.
pub open spec fn digit() -> spec_fn(u8) -> bool {
    |byte: u8| is_digit(byte)
}

/// The bytes that a file name can hold.
pub open spec fn name_byte() -> spec_fn(u8) -> bool {
    |byte: u8| byte != NULL
}

/// How many bytes at the start of `bytes` are of the kind `keep`, counting
/// no further than `limit`.
pub open spec fn leading(bytes: Seq<u8>, keep: spec_fn(u8) -> bool, limit: nat) -> nat
    decreases limit,
{
    if limit > 0 && bytes.len() > 0 && keep(bytes[0]) {
        1 + leading(bytes.skip(1), keep, (limit - 1) as nat)
    } else {
        0
    }
}

/// The entry at the start of `bytes` and the bytes after it, or the first
/// thing that is wrong with it.
pub open spec fn decode_entry(bytes: Seq<u8>) -> Result<(EntryView, Seq<u8>), Error> {
    let width = leading(bytes, digit(), 6);
    if width < 5 || width >= bytes.len() || bytes[width as int] != SPACE {
        Err(Error::InvalidMode)
    } else {
        match Mode::named_by(bytes.take(width as int)) {
            None => Err(Error::UnknownMode),
            Some(mode) => {
                let named = bytes.skip((width + 1) as int);
                let length = leading(named, name_byte(), named.len());
                if length == 0 || length >= named.len() {
                    Err(Error::InvalidFilename)
                } else {
                    let tail = named.skip((length + 1) as int);
                    if tail.len() < OID_LEN {
                        Err(Error::InvalidOid)
                    } else {
                        Ok(
                            (
                                EntryView {
                                    mode,
                                    filename: named.take(length as int),
                                    oid: tail.take(OID_LEN as int),
                                },
                                tail.skip(OID_LEN as int),
                            ),
                        )
                    }
                }
            },
        }
    }
}

/// `entries` and then what `rest` decodes to, where anything is left.
pub open spec fn decode_more(entries: Seq<EntryView>, rest: Seq<u8>) -> Result<
    Seq<EntryView>,
    Error,
>
    decreases rest.len(), 1nat,
{
    if rest.len() == 0 {
        Ok(entries)
    } else {
        match decode(rest) {
            Ok(more) => Ok(entries + more),
            Err(e) => Err(e),
        }
    }
}

/// The entries that `bytes` are made of: one at least, one after the other,
/// up to the last byte. Where an entry is malformed, the first thing that
/// is wrong with the first such entry.
pub open spec fn decode(bytes: Seq<u8>) -> Result<Seq<EntryView>, Error>
    decreases bytes.len(), 0nat,
{
    match decode_entry(bytes) {
        Err(e) => Err(e),
        Ok((entry, rest)) => {
            proof {
                lemma_entry_is_not_empty(bytes);
            }
            decode_more(seq![entry], rest)
        },
    }
}

/// Where the first `count` bytes are of the kind `keep` and the count stops
/// at the limit, at the end or at a byte of another kind, `count` is the
/// number that `leading` gives.
pub proof fn lemma_leading(bytes: Seq<u8>, keep: spec_fn(u8) -> bool, limit: nat, count: nat)
    requires
        count <= limit,
        count <= bytes.len(),
        forall|j: int| 0 <= j < count ==> keep(#[trigger] bytes[j]),
        count == limit || count == bytes.len() || !keep(bytes[count as int]),
    ensures
        leading(bytes, keep, limit) == count,
    decreases limit,
{
    if count > 0 {
        assert(keep(bytes[0]));
        let rest = bytes.skip(1);
        assert forall|j: int| 0 <= j < count - 1 implies keep(#[trigger] rest[j]) by {
            assert(rest[j] == bytes[j + 1]);
        }
        lemma_leading(rest, keep, (limit - 1) as nat, (count - 1) as nat);
    }
}

/// `leading` counts bytes of the kind `keep` only, stays within the limit
/// and within the bytes, and stops before the limit and the end only at a
/// byte of another kind.
pub proof fn lemma_leading_counts(bytes: Seq<u8>, keep: spec_fn(u8) -> bool, limit: nat)
    ensures
        leading(bytes, keep, limit) <= limit,
        leading(bytes, keep, limit) <= bytes.len(),
        forall|j: int| 0 <= j < leading(bytes, keep, limit) ==> keep(#[trigger] bytes[j]),
        leading(bytes, keep, limit) < limit && leading(bytes, keep, limit) < bytes.len() ==> !keep(
            bytes[leading(bytes, keep, limit) as int],
        ),
    decreases limit,
{
    if limit > 0 && bytes.len() > 0 && keep(bytes[0]) {
        let rest = bytes.skip(1);
        lemma_leading_counts(rest, keep, (limit - 1) as nat);
        let count = leading(bytes, keep, limit);
        assert forall|j: int| 0 <= j < count implies keep(#[trigger] bytes[j]) by {
            if j > 0 {
                assert(bytes[j] == rest[j - 1]);
            }
        }
        if count < limit && count < bytes.len() {
            assert(bytes[count as int] == rest[count - 1]);
        }
    }
}

/// An entry takes up bytes: what is left after it is shorter than what it
/// was read from.
pub proof fn lemma_entry_is_not_empty(bytes: Seq<u8>)
    requires
        decode_entry(bytes) is Ok,
    ensures
        decode_entry(bytes).unwrap().1.len() + 28 <= bytes.len(),
{
    lemma_leading_counts(bytes, digit(), 6);
    let width = leading(bytes, digit(), 6);
    let named = bytes.skip((width + 1) as int);
    lemma_leading_counts(named, name_byte(), named.len());
}

/// Decoding goes entry by entry: with bytes left, the entries so far and
/// then what the rest decodes to is the entries with the next one and then
/// what the bytes after that one decode to; a malformed entry fails the
/// whole.
pub proof fn lemma_decode_more_step(entries: Seq<EntryView>, rest: Seq<u8>)
    requires
        rest.len() > 0,
    ensures
        decode_more(entries, rest) == match decode_entry(rest) {
            Ok((entry, after)) => decode_more(entries.push(entry), after),
            Err(e) => Err(e),
        },
{
    match decode_entry(rest) {
        Ok((entry, after)) => {
            assert(decode(rest) == decode_more(seq![entry], after));
            if after.len() == 0 {
                assert(entries + seq![entry] =~= entries.push(entry));
            } else {
                match decode(after) {
                    Ok(more) => {
                        assert(entries + (seq![entry] + more) =~= entries.push(entry) + more);
                    },
                    Err(e) => {},
                }
            }
        },
        Err(e) => {},
    }
}

} // verus!
