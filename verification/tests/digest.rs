use ferret::digest::{hash_bytes, hash_chunks, to_hex, ContentHasher, HashProgress, ReadEvent};

const HELLO: &str = "2cf24dba5fb0a30e26e83b2ac5b9e29e1b161e5c1fa7425e73043362938b9824";
const EMPTY: &str = "e3b0c44298fc1c149afbf4c8996fb92427ae41e4649b934ca495991b7852b855";
const ABC: &str = "ba7816bf8f01cfea414140de5dae2223b00361a396177a9cb410ff61f20015ad";

#[test]
fn known_digests() {
    assert_eq!(hash_bytes(b"hello"), HELLO);
    assert_eq!(hash_bytes(b""), EMPTY);
    assert_eq!(hash_bytes(b"abc"), ABC);
    assert_ne!(hash_bytes(b"hello"), hash_bytes(b"world"));
}

#[test]
fn chunking_does_not_change_the_digest() {
    assert_eq!(hash_chunks(&vec![b"he".to_vec(), b"l".to_vec(), b"lo".to_vec()]), HELLO);
    assert_eq!(hash_chunks(&vec![b"hello".to_vec()]), HELLO);
    assert_eq!(hash_chunks(&vec![Vec::new(), b"hello".to_vec(), Vec::new()]), HELLO);
    assert_eq!(hash_chunks(&Vec::new()), EMPTY);
    let big: Vec<u8> = (0..20000u32).map(|i| (i % 251) as u8).collect();
    let chunks: Vec<Vec<u8>> = big.chunks(8192).map(|c| c.to_vec()).collect();
    assert_eq!(chunks.len(), 3);
    assert_eq!(hash_chunks(&chunks), hash_bytes(&big));
}

#[test]
fn hasher_takes_chunks_in_order() {
    let mut hasher = ContentHasher::new();
    hasher.update(b"a");
    hasher.update(b"bc");
    assert_eq!(hasher.finalize(), ABC);
    let mut swapped = ContentHasher::new();
    swapped.update(b"bc");
    swapped.update(b"a");
    assert_ne!(swapped.finalize(), ABC);
    assert_eq!(ContentHasher::new().finalize().len(), 64);
}

#[test]
fn reading_steps_end_with_a_digest_or_nothing() {
    let mut state = ContentHasher::new();
    for chunk in [&b"hel"[..], &b"lo"[..]] {
        state = match state.advance(ReadEvent::Data(chunk)) {
            HashProgress::Reading(next) => next,
            HashProgress::Finished(_) => panic!("data must not end the file"),
        };
    }
    match state.advance(ReadEvent::Data(&[])) {
        HashProgress::Finished(Some(hex)) => assert_eq!(hex, HELLO),
        _ => panic!("an empty read ends the file with its digest"),
    }

    let state = match ContentHasher::new().advance(ReadEvent::Data(b"partial")) {
        HashProgress::Reading(next) => next,
        HashProgress::Finished(_) => panic!("data must not end the file"),
    };
    match state.advance(ReadEvent::Failed) {
        HashProgress::Finished(None) => {}
        _ => panic!("a failed read leaves no digest"),
    }

    match ContentHasher::new().advance(ReadEvent::Data(&[])) {
        HashProgress::Finished(Some(hex)) => assert_eq!(hex, EMPTY),
        _ => panic!("an empty file has the digest of nothing"),
    }
}

#[test]
fn hexadecimal_is_lower_case_high_nibble_first() {
    assert_eq!(to_hex(&[]), "");
    assert_eq!(to_hex(&[0x00, 0x0f, 0xf0, 0xab, 0x19, 0xff]), "000ff0ab19ff");
}
