use fdm::digest::{FileHash, MAX_HASHED};

#[test]
fn a_file_is_hashed_piece_by_piece() {
    let mut hash = FileHash::new();
    assert_eq!(hash.room(), MAX_HASHED);
    hash.feed(b"a");
    hash.feed(b"");
    hash.feed(b"bc");
    assert_eq!(hash.room(), MAX_HASHED - 3);
    assert_eq!(
        hash.finish(),
        "ba7816bf8f01cfea414140de5dae2223b00361a396177a9cb410ff61f20015ad"
    );
}

#[test]
fn the_pieces_do_not_matter() {
    let body: Vec<u8> = (0..5000u32).map(|n| n as u8).collect();
    let mut whole = FileHash::new();
    whole.feed(&body);
    let mut parts = FileHash::new();
    for piece in body.chunks(77) {
        parts.feed(piece);
    }
    assert_eq!(whole.finish(), parts.finish());
}

#[test]
fn an_empty_file_has_a_digest() {
    assert_eq!(
        FileHash::new().finish(),
        "e3b0c44298fc1c149afbf4c8996fb92427ae41e4649b934ca495991b7852b855"
    );
}
