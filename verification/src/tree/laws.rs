//! Decoding is the inverse of writing a tree down: what decodes to entries
//! is those entries written one after the other, and entries written down
//! decode to themselves.

use vstd::prelude::*;
use crate::tree::grammar::{
    decode, decode_entry, decode_more, digit, leading, lemma_decode_more_step,
    lemma_entry_is_not_empty, lemma_leading, lemma_leading_counts, name_byte, EntryView, NULL,
    OID_LEN, SPACE,
};
use crate::tree::error::Error;
use crate::tree::mode::Mode;

verus! {

/// Whether an entry can stand in a tree: its name is not empty and holds no
/// null byte, and its object id has twenty bytes.
pub open spec fn well_formed(entry: EntryView) -> bool {
    &&& entry.filename.len() > 0
    &&& forall|j: int| 0 <= j < entry.filename.len() ==> #[trigger] entry.filename[j] != NULL
    &&& entry.oid.len() == OID_LEN
}

/// The bytes of one entry: the digits of the mode, a space, the name, a
/// null byte, the object id.
pub open spec fn encode_entry(entry: EntryView) -> Seq<u8> {
    entry.mode.text() + seq![SPACE] + entry.filename + seq![NULL] + entry.oid
}

/// The bytes of a tree: those of its entries, one after the other.
pub open spec fn encode(entries: Seq<EntryView>) -> Seq<u8>
    decreases entries.len(),
{
    if entries.len() == 0 {
        Seq::empty()
    } else {
        encode_entry(entries[0]) + encode(entries.skip(1))
    }
}

/// The digits of each mode name that mode and no other, are five or six,
/// and are digits.
pub proof fn lemma_mode_text(mode: Mode)
    ensures
        Mode::named_by(mode.text()) == Some(mode),
        5 <= mode.text().len() <= 6,
        forall|j: int| 0 <= j < mode.text().len() ==> (digit())(#[trigger] mode.text()[j]),
{
    assert(Mode::Tree.text().len() == 5);
    assert(Mode::Blob.text()[3] != Mode::BlobExecutable.text()[3]);
    assert(Mode::Blob.text()[1] != Mode::Link.text()[1]);
    assert(Mode::Blob.text()[1] != Mode::Commit.text()[1]);
    assert(Mode::BlobExecutable.text()[1] != Mode::Link.text()[1]);
    assert(Mode::BlobExecutable.text()[1] != Mode::Commit.text()[1]);
    assert(Mode::Link.text()[1] != Mode::Commit.text()[1]);
}

/// The digits that name a mode are the digits of that mode.
pub proof fn lemma_named_by(text: Seq<u8>)
    requires
        Mode::named_by(text) is Some,
    ensures
        Mode::named_by(text).unwrap().text() == text,
{
}

/// An entry that decodes is well formed, and the bytes it was decoded from
/// are the entry written down and then the bytes left over.
pub proof fn lemma_decode_entry_sound(bytes: Seq<u8>)
    requires
        decode_entry(bytes) is Ok,
    ensures
        well_formed(decode_entry(bytes).unwrap().0),
        bytes == encode_entry(decode_entry(bytes).unwrap().0) + decode_entry(bytes).unwrap().1,
{
    let (entry, rest) = decode_entry(bytes).unwrap();
    let width = leading(bytes, digit(), 6);
    lemma_leading_counts(bytes, digit(), 6);
    lemma_named_by(bytes.take(width as int));
    let named = bytes.skip((width + 1) as int);
    let length = leading(named, name_byte(), named.len());
    lemma_leading_counts(named, name_byte(), named.len());
    let tail = named.skip((length + 1) as int);
    assert(bytes =~= encode_entry(entry) + rest);
}

/// A well-formed entry written down, with any bytes after it, decodes to
/// that entry and leaves those bytes.
pub proof fn lemma_decode_entry_complete(entry: EntryView, rest: Seq<u8>)
    requires
        well_formed(entry),
    ensures
        decode_entry(encode_entry(entry) + rest) == Ok::<_, Error>(
            (entry, rest),
        ),
{
    let bytes = encode_entry(entry) + rest;
    let text = entry.mode.text();
    lemma_mode_text(entry.mode);
    let width = text.len();
    assert forall|j: int| 0 <= j < width implies (digit())(#[trigger] bytes[j]) by {
        assert(bytes[j] == text[j]);
    }
    assert(bytes[width as int] == SPACE);
    lemma_leading(bytes, digit(), 6, width);
    assert(bytes.take(width as int) =~= text);
    let named = bytes.skip((width + 1) as int);
    let length = entry.filename.len();
    assert(named =~= entry.filename + seq![NULL] + entry.oid + rest);
    assert forall|j: int| 0 <= j < length implies (name_byte())(#[trigger] named[j]) by {
        assert(named[j] == entry.filename[j]);
    }
    assert(named[length as int] == NULL);
    lemma_leading(named, name_byte(), named.len(), length);
    let tail = named.skip((length + 1) as int);
    assert(tail =~= entry.oid + rest);
    assert(named.take(length as int) =~= entry.filename);
    assert(tail.take(OID_LEN as int) =~= entry.oid);
    assert(tail.skip(OID_LEN as int) =~= rest);
}

/// Entries written down one after the other, after entries already
/// decoded, decode to all of them.
pub proof fn lemma_decode_more_complete(before: Seq<EntryView>, entries: Seq<EntryView>)
    requires
        forall|j: int| 0 <= j < entries.len() ==> well_formed(#[trigger] entries[j]),
    ensures
        decode_more(before, encode(entries)) == Ok::<_, Error>(
            before + entries,
        ),
    decreases entries.len(),
{
    if entries.len() == 0 {
        assert(before + entries =~= before);
    } else {
        let first = entries[0];
        let others = entries.skip(1);
        assert(well_formed(first));
        lemma_mode_text(first.mode);
        lemma_decode_entry_complete(first, encode(others));
        lemma_decode_more_step(before, encode(entries));
        assert forall|j: int| 0 <= j < others.len() implies well_formed(#[trigger] others[j]) by {
            assert(others[j] == entries[j + 1]);
        }
        lemma_decode_more_complete(before.push(first), others);
        assert(before.push(first) + others =~= before + entries);
    }
}

/// What is left to decode after some entries, once it decodes, is the
/// entries that follow written down; they are well formed.
pub proof fn lemma_decode_more_sound(before: Seq<EntryView>, rest: Seq<u8>)
    requires
        decode_more(before, rest) is Ok,
    ensures
        ({
            let all = decode_more(before, rest).unwrap();
            &&& all.len() >= before.len()
            &&& all.take(before.len() as int) == before
            &&& rest.len() > 0 ==> all.len() > before.len()
            &&& encode(all.skip(before.len() as int)) == rest
            &&& forall|j: int| before.len() <= j < all.len() ==> well_formed(#[trigger] all[j])
        }),
    decreases rest.len(),
{
    let all = decode_more(before, rest).unwrap();
    if rest.len() == 0 {
        assert(all.take(before.len() as int) =~= before);
        assert(all.skip(before.len() as int) =~= Seq::<EntryView>::empty());
    } else {
        lemma_decode_more_step(before, rest);
        let (entry, after) = decode_entry(rest).unwrap();
        lemma_entry_is_not_empty(rest);
        lemma_decode_entry_sound(rest);
        let longer = before.push(entry);
        lemma_decode_more_sound(longer, after);
        assert(all.take(before.len() as int) =~= longer.take(before.len() as int));
        assert(longer.take(before.len() as int) =~= before);
        let follow = all.skip(before.len() as int);
        assert(all[before.len() as int] == all.take(longer.len() as int)[before.len() as int]);
        assert(follow[0] == entry);
        assert(follow.skip(1) =~= all.skip(longer.len() as int));
        assert forall|j: int| before.len() <= j < all.len() implies well_formed(
            #[trigger] all[j],
        ) by {
            if j == before.len() {
            }
        }
    }
}

/// Bytes that decode to a tree are its entries written down one after the
/// other: there is one entry at least, and each is well formed.
pub proof fn lemma_decode_sound(bytes: Seq<u8>)
    requires
        decode(bytes) is Ok,
    ensures
        decode(bytes).unwrap().len() >= 1,
        forall|j: int|
            0 <= j < decode(bytes).unwrap().len() ==> well_formed(
                #[trigger] decode(bytes).unwrap()[j],
            ),
        encode(decode(bytes).unwrap()) == bytes,
{
    let (entry, rest) = decode_entry(bytes).unwrap();
    let all = decode(bytes).unwrap();
    lemma_decode_entry_sound(bytes);
    lemma_decode_more_sound(seq![entry], rest);
    assert(all[0] == all.take(1)[0]);
    assert(all.skip(0) =~= all);
    assert(encode(all) == encode_entry(all[0]) + encode(all.skip(1)));
}

/// Well-formed entries, one at least, written down one after the other
/// decode to themselves.
pub proof fn lemma_decode_complete(entries: Seq<EntryView>)
    requires
        entries.len() >= 1,
        forall|j: int| 0 <= j < entries.len() ==> well_formed(#[trigger] entries[j]),
    ensures
        decode(encode(entries)) == Ok::<_, Error>(entries),
{
    let first = entries[0];
    let others = entries.skip(1);
    lemma_decode_entry_complete(first, encode(others));
    assert forall|j: int| 0 <= j < others.len() implies well_formed(#[trigger] others[j]) by {
        assert(others[j] == entries[j + 1]);
    }
    lemma_decode_more_complete(seq![first], others);
    assert(seq![first] + others =~= entries);
}

/// Whether `bytes` are a tree written down: well-formed entries, one at
/// least, one after the other.
pub open spec fn is_tree(bytes: Seq<u8>) -> bool {
    exists|entries: Seq<EntryView>|
        {
            &&& entries.len() >= 1
            &&& forall|j: int| 0 <= j < entries.len() ==> well_formed(#[trigger] entries[j])
            &&& #[trigger] encode(entries) == bytes
        }
}

/// Decoding succeeds on the bytes that are a tree written down, and on no
/// others.
pub proof fn lemma_decode_decides(bytes: Seq<u8>)
    ensures
        decode(bytes) is Ok <==> is_tree(bytes),
{
    if decode(bytes) is Ok {
        lemma_decode_sound(bytes);
        assert(encode(decode(bytes).unwrap()) == bytes);
    }
    if is_tree(bytes) {
        let entries = choose|entries: Seq<EntryView>|
            {
                &&& entries.len() >= 1
                &&& forall|j: int| 0 <= j < entries.len() ==> well_formed(#[trigger] entries[j])
                &&& #[trigger] encode(entries) == bytes
            };
        lemma_decode_complete(entries);
    }
}

} // verus!
