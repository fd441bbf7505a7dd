use git_kit::tree::{parse, parse_entry, Entry, Error, Mode, Tree};

const OID_A: &[u8] = b"aaaaaaaaaaaaaaaaaaaa";
const OID_B: &[u8] = b"\0\x01\x02\x03\x04\x05\x06\x07\x08\x09\x0a\x0b\x0c\x0d\x0e\x0f\x10\x11\x12\x13";

fn entry_bytes(mode: &[u8], name: &[u8], oid: &[u8]) -> Vec<u8> {
    let mut out = Vec::new();
    out.extend_from_slice(mode);
    out.push(b' ');
    out.extend_from_slice(name);
    out.push(0);
    out.extend_from_slice(oid);
    out
}

#[test]
fn each_mode_is_named_by_its_digits() {
    assert_eq!(Mode::try_from(&b"40000"[..]), Ok(Mode::Tree));
    assert_eq!(Mode::try_from(&b"100644"[..]), Ok(Mode::Blob));
    assert_eq!(Mode::try_from(&b"100755"[..]), Ok(Mode::BlobExecutable));
    assert_eq!(Mode::try_from(&b"120000"[..]), Ok(Mode::Link));
    assert_eq!(Mode::try_from(&b"160000"[..]), Ok(Mode::Commit));
}

#[test]
fn other_digits_name_no_mode() {
    assert_eq!(Mode::try_from(&b"040000"[..]), Err(Error::UnknownMode));
    assert_eq!(Mode::try_from(&b"100600"[..]), Err(Error::UnknownMode));
    assert_eq!(Mode::try_from(&b"4000"[..]), Err(Error::UnknownMode));
    assert_eq!(Mode::try_from(&b"400000"[..]), Err(Error::UnknownMode));
    assert_eq!(Mode::try_from(&b"1006440"[..]), Err(Error::UnknownMode));
    assert_eq!(Mode::try_from(&b""[..]), Err(Error::UnknownMode));
}

#[test]
fn mode_bits_read_the_digits_in_base_eight() {
    assert_eq!(Mode::Tree.bits(), 0o040000);
    assert_eq!(Mode::Blob.bits(), 0o100644);
    assert_eq!(Mode::BlobExecutable.bits(), 0o100755);
    assert_eq!(Mode::Link.bits(), 0o120000);
    assert_eq!(Mode::Commit.bits(), 0o160000);
    assert_eq!(Mode::Tree.bits(), 16384);
    assert_eq!(Mode::Blob.bits(), 33188);
}

#[test]
fn modes_are_ordered_as_their_bits() {
    let modes = [
        Mode::Tree,
        Mode::Blob,
        Mode::BlobExecutable,
        Mode::Link,
        Mode::Commit,
    ];
    for pair in modes.windows(2) {
        assert!(pair[0] < pair[1]);
        assert!(pair[0].bits() < pair[1].bits());
    }
}

#[test]
fn tree_of_one_entry() {
    let bytes = entry_bytes(b"100644", b"README.md", OID_A);
    assert_eq!(
        Tree::from_bytes(&bytes),
        Ok(Tree {
            entries: vec![Entry {
                mode: Mode::Blob,
                filename: b"README.md",
                oid: OID_A,
            }],
        })
    );
}

#[test]
fn tree_of_every_mode_in_order() {
    let mut bytes = entry_bytes(b"40000", b"src", OID_A);
    bytes.extend(entry_bytes(b"100644", b"a b.txt", OID_B));
    bytes.extend(entry_bytes(b"100755", b"run.sh", OID_A));
    bytes.extend(entry_bytes(b"120000", b"link", OID_B));
    bytes.extend(entry_bytes(b"160000", b"\xff\xfe", OID_A));
    let tree = Tree::from_bytes(&bytes).unwrap();
    let expected: Vec<(Mode, &[u8], &[u8])> = vec![
        (Mode::Tree, b"src", OID_A),
        (Mode::Blob, b"a b.txt", OID_B),
        (Mode::BlobExecutable, b"run.sh", OID_A),
        (Mode::Link, b"link", OID_B),
        (Mode::Commit, b"\xff\xfe", OID_A),
    ];
    assert_eq!(tree.entries.len(), expected.len());
    for (entry, (mode, filename, oid)) in tree.entries.iter().zip(expected) {
        assert_eq!(entry.mode, mode);
        assert_eq!(entry.filename, filename);
        assert_eq!(entry.oid, oid);
    }
}

#[test]
fn object_id_may_hold_any_byte() {
    let bytes = entry_bytes(b"100644", b"f", OID_B);
    let tree = Tree::from_bytes(&bytes).unwrap();
    assert_eq!(tree.entries[0].oid, OID_B);
    assert_eq!(tree.entries[0].filename, b"f");
}

#[test]
fn decoded_entries_written_down_are_the_bytes() {
    let mut bytes = entry_bytes(b"40000", b"dir", OID_B);
    bytes.extend(entry_bytes(b"100755", b"tool", OID_A));
    let tree = Tree::from_bytes(&bytes).unwrap();
    let mut written = Vec::new();
    for entry in &tree.entries {
        let digits: &[u8] = match entry.mode {
            Mode::Tree => b"40000",
            Mode::Blob => b"100644",
            Mode::BlobExecutable => b"100755",
            Mode::Link => b"120000",
            Mode::Commit => b"160000",
        };
        written.extend(entry_bytes(digits, entry.filename, entry.oid));
    }
    assert_eq!(written, bytes);
}

#[test]
fn no_bytes_are_no_tree() {
    assert_eq!(Tree::from_bytes(b""), Err(Error::InvalidMode));
}

#[test]
fn mode_needs_five_or_six_digits_and_a_space() {
    assert_eq!(
        Tree::from_bytes(&entry_bytes(b"4000", b"src", OID_A)),
        Err(Error::InvalidMode)
    );
    assert_eq!(
        Tree::from_bytes(&entry_bytes(b"1006440", b"src", OID_A)),
        Err(Error::InvalidMode)
    );
    assert_eq!(
        Tree::from_bytes(&entry_bytes(b"10064x", b"src", OID_A)),
        Err(Error::InvalidMode)
    );
    assert_eq!(Tree::from_bytes(b"100644"), Err(Error::InvalidMode));
    assert_eq!(Tree::from_bytes(b"40000\tname"), Err(Error::InvalidMode));
    assert_eq!(Tree::from_bytes(b" 40000 name"), Err(Error::InvalidMode));
}

#[test]
fn digits_of_no_mode_are_refused() {
    assert_eq!(
        Tree::from_bytes(&entry_bytes(b"100600", b"src", OID_A)),
        Err(Error::UnknownMode)
    );
    assert_eq!(
        Tree::from_bytes(&entry_bytes(b"040000", b"src", OID_A)),
        Err(Error::UnknownMode)
    );
    assert_eq!(Tree::from_bytes(b"12345 "), Err(Error::UnknownMode));
}

#[test]
fn file_name_needs_a_byte_and_a_null_after_it() {
    assert_eq!(
        Tree::from_bytes(&entry_bytes(b"100644", b"", OID_A)),
        Err(Error::InvalidFilename)
    );
    assert_eq!(
        Tree::from_bytes(b"100644 name-without-end"),
        Err(Error::InvalidFilename)
    );
    assert_eq!(Tree::from_bytes(b"100644 "), Err(Error::InvalidFilename));
}

#[test]
fn object_id_needs_twenty_bytes() {
    assert_eq!(
        Tree::from_bytes(&entry_bytes(b"100644", b"name", &OID_A[..19])),
        Err(Error::InvalidOid)
    );
    assert_eq!(
        Tree::from_bytes(&entry_bytes(b"100644", b"name", b"")),
        Err(Error::InvalidOid)
    );
}

#[test]
fn bytes_after_the_last_entry_are_refused() {
    let mut bytes = entry_bytes(b"100644", b"name", OID_A);
    bytes.push(b'x');
    assert_eq!(Tree::from_bytes(&bytes), Err(Error::InvalidMode));

    let mut bytes = entry_bytes(b"100644", b"name", OID_A);
    bytes.extend(entry_bytes(b"777777", b"other", OID_A));
    assert_eq!(Tree::from_bytes(&bytes), Err(Error::UnknownMode));

    let mut bytes = entry_bytes(b"100644", b"name", OID_A);
    bytes.extend(entry_bytes(b"40000", b"other", &OID_B[..5]));
    assert_eq!(Tree::from_bytes(&bytes), Err(Error::InvalidOid));
}

#[test]
fn parse_entry_hands_out_the_bytes_after_the_entry() {
    let mut bytes = entry_bytes(b"120000", b"link", OID_A);
    bytes.extend_from_slice(b"the rest");
    assert_eq!(
        parse_entry(&bytes),
        Ok((
            &b"the rest"[..],
            Entry {
                mode: Mode::Link,
                filename: b"link",
                oid: OID_A,
            }
        ))
    );
    assert_eq!(parse_entry(b"the rest"), Err(Error::InvalidMode));
}

#[test]
fn parse_leaves_nothing() {
    let mut bytes = entry_bytes(b"40000", b"a", OID_A);
    bytes.extend(entry_bytes(b"40000", b"b", OID_B));
    let (rest, tree) = parse(&bytes).unwrap();
    assert!(rest.is_empty());
    assert_eq!(tree.entries.len(), 2);
    assert_eq!(tree.entries[1].filename, b"b");
    assert_eq!(tree, Tree::from_bytes(&bytes).unwrap());
}
