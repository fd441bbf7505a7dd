//! The decoder of trees.

use vstd::prelude::*;
use vstd::slice::slice_subrange;
use crate::tree::entry::{Entry, Tree};
use crate::tree::grammar::{
    decode, decode_entry, decode_more, digit, is_digit, leading, lemma_decode_more_step,
    lemma_entry_is_not_empty, lemma_leading, name_byte, EntryView, NULL, OID_LEN, SPACE,
};
use crate::tree::laws::{encode, is_tree, lemma_decode_decides, lemma_decode_sound};
use crate::tree::error::Error;
use crate::tree::mode::{Mode, D0, D9};

verus! {

/// Whether `byte` is one of the digits 0 to 9.
fn is_digit_byte(byte: u8) -> (digit: bool)
    ensures
        digit == is_digit(byte),
{
    D0 <= byte && byte <= D9
}

/// The number of digits at the start of `i`, counted up to six.
fn mode_width(i: &[u8]) -> (width: usize)
    ensures
        width == leading(i@, digit(), 6),
{
    let mut width: usize = 0;
    while width < 6 && width < i.len() && is_digit_byte(i[width])
        invariant
            width <= 6,
            width <= i@.len(),
            forall|j: int| 0 <= j < width ==> (digit())(#[trigger] i@[j]),
        decreases 6 - width,
    {
        width += 1;
    }
    proof {
        lemma_leading(i@, digit(), 6, width as nat);
    }
    width
}

/// The number of bytes at the start of `i` before the first null byte.
fn name_length(i: &[u8]) -> (length: usize)
    ensures
        length == leading(i@, name_byte(), i@.len()),
{
    let mut length: usize = 0;
    while length < i.len() && i[length] != NULL
        invariant
            length <= i@.len(),
            forall|j: int| 0 <= j < length ==> (name_byte())(#[trigger] i@[j]),
        decreases i@.len() - length,
    {
        length += 1;
    }
    proof {
        lemma_leading(i@, name_byte(), i@.len(), length as nat);
    }
    length
}

/// What decoding one entry gives, as the grammar sees it.
pub open spec fn entry_result(res: Result<(&[u8], Entry), Error>) -> Result<
    (EntryView, Seq<u8>),
    Error,
> {
    match res {
        Ok((rest, entry)) => Ok((entry@, rest@)),
        Err(e) => Err(e),
    }
}

/// What decoding a tree gives, as the grammar sees it.
pub open spec fn tree_result(res: Result<Tree, Error>) -> Result<Seq<EntryView>, Error> {
    match res {
        Ok(tree) => Ok(tree@),
        Err(e) => Err(e),
    }
}

/// Decodes the entry at the start of `i`, and hands it out with the bytes
/// after it.
pub fn parse_entry<'a>(i: &'a [u8]) -> (res: Result<(&'a [u8], Entry<'a>), Error>)
    ensures
        entry_result(res) == decode_entry(i@),
        res matches Ok((rest, _)) ==> rest@.len() < i@.len(),
{
    let width = mode_width(i);
    if width < 5 || width >= i.len() || i[width] != SPACE {
        return Err(Error::InvalidMode);
    }
    let mode = match Mode::try_from(slice_subrange(i, 0, width)) {
        Ok(mode) => mode,
        Err(e) => {
            return Err(e);
        },
    };
    let named = slice_subrange(i, width + 1, i.len());
    let length = name_length(named);
    if length == 0 || length >= named.len() {
        return Err(Error::InvalidFilename);
    }
    let tail = slice_subrange(named, length + 1, named.len());
    if tail.len() < OID_LEN {
        return Err(Error::InvalidOid);
    }
    let entry = Entry {
        mode,
        filename: slice_subrange(named, 0, length),
        oid: slice_subrange(tail, 0, OID_LEN),
    };
    let rest = slice_subrange(tail, OID_LEN, tail.len());
    proof {
        assert(i@.subrange(0, width as int) =~= i@.take(width as int));
        assert(named@ =~= i@.skip(width + 1));
        assert(tail@ =~= named@.skip(length + 1));
        assert(entry.filename@ =~= named@.take(length as int));
        assert(entry.oid@ =~= tail@.take(OID_LEN as int));
        assert(rest@ =~= tail@.skip(OID_LEN as int));
        lemma_entry_is_not_empty(i@);
    }
    Ok((rest, entry))
}

/// Decodes the entries that `i` is made of, up to its last byte.
pub fn parse<'a>(i: &'a [u8]) -> (res: Result<(&'a [u8], Tree<'a>), Error>)
    ensures
        match res {
            Ok((rest, tree)) => rest@.len() == 0 && decode(i@) == Ok::<_, Error>(tree@),
            Err(e) => decode(i@) == Err::<Seq<EntryView>, _>(e),
        },
{
    let (mut rest, first) = match parse_entry(i) {
        Ok(parsed) => parsed,
        Err(e) => {
            return Err(e);
        },
    };
    let mut entries: Vec<Entry<'a>> = Vec::new();
    entries.push(first);
    assert(entries@.map_values(|entry: Entry<'a>| entry@) =~= seq![first@]);
    while rest.len() > 0
        invariant
            decode(i@) == decode_more(entries@.map_values(|entry: Entry<'a>| entry@), rest@),
        decreases rest@.len(),
    {
        let ghost before = entries@.map_values(|entry: Entry<'a>| entry@);
        proof {
            lemma_decode_more_step(before, rest@);
        }
        match parse_entry(rest) {
            Err(e) => {
                return Err(e);
            },
            Ok((after, entry)) => {
                entries.push(entry);
                assert(entries@.map_values(|entry: Entry<'a>| entry@) =~= before.push(entry@));
                rest = after;
            },
        }
    }
    Ok((rest, Tree { entries }))
}

impl<'a> Tree<'a> {
    /// The tree that `d` holds: `d` is one entry or more, each a mode of
    /// five or six digits, a space, a file name that is not empty, a null
    /// byte and twenty bytes of object id. Else the first thing that is
    /// wrong with the first entry that is malformed.
    pub fn from_bytes(d: &'a [u8]) -> (res: Result<Tree<'a>, Error>)
        ensures
            tree_result(res) == decode(d@),
            res is Ok <==> is_tree(d@),
            res matches Ok(tree) ==> encode(tree@) == d@,
    {
        proof {
            lemma_decode_decides(d@);
            if decode(d@) is Ok {
                lemma_decode_sound(d@);
            }
        }
        match parse(d) {
            Ok((_, tree)) => Ok(tree),
            Err(e) => Err(e),
        }
    }
}

} // verus!
