use snapdiff::hasher::{hash_bytes, hash_chunks, DigestStream, HashType};

#[test]
fn blake3() {
    let test_string = "aprettylongteststring".as_bytes();
    let hashed = hash_bytes(HashType::BLAKE3, test_string);
    assert_eq!(
        hashed,
        [
            0xFD, 0x5F, 0x22, 0xE8, 0x95, 0x82, 0x18, 0xD6, 0x9A, 0x96, 0xAC, 0x77, 0xCD, 0xCD,
            0xAA, 0xA7, 0x51, 0xCE, 0x81, 0xF3, 0x04, 0x86, 0xC8, 0x49, 0xA6, 0xD7, 0x66, 0x81,
            0x68, 0xDB, 0x22, 0x2D,
        ]
    )
}

#[test]
fn md5() {
    let test_string = "adifferentbutstillprettylongteststring".as_bytes();
    let hashed = hash_bytes(HashType::MD5, test_string);
    assert_eq!(
        hashed,
        [
            0x6C, 0x39, 0x5D, 0xC4, 0xC5, 0x81, 0xAE, 0x7A, 0x55, 0x74, 0xC4, 0x5B, 0xE3, 0xFB,
            0x92, 0x58
        ]
    )
}

#[test]
fn sha3() {
    let test_string =
        "adifferentbutstillprettylongteststringwithaslightlydifferentcontent".as_bytes();
    let hashed = hash_bytes(HashType::SHA3, test_string);
    println!("{:#04X?}", hashed);
    assert_eq!(
        hashed,
        [
            0xA1, 0x55, 0xE2, 0x73, 0x63, 0x51, 0x36, 0xC5, 0x25, 0xFB, 0x36, 0xA8, 0x81, 0xD6,
            0x02, 0x21, 0xCC, 0xC5, 0x48, 0x9B, 0xE7, 0x18, 0xCC, 0x57, 0xCE, 0x66, 0xBA, 0x78,
            0xBA, 0x26, 0x33, 0x7E,
        ]
    )
}

fn chunked(algorithm: HashType, content: &[u8], split: usize) -> Vec<u8> {
    let mut stream = DigestStream::new(algorithm);
    stream.update(&content[..split]);
    stream.update(&content[split..]);
    stream.finalize()
}

#[test]
fn md5_chunk_boundaries_do_not_matter() {
    let content = "somecontentthatwillbesplitatdifferentplaces".as_bytes();
    let whole = hash_bytes(HashType::MD5, content);
    assert_eq!(chunked(HashType::MD5, content, 1), whole);
    assert_eq!(chunked(HashType::MD5, content, 17), whole);
    assert_eq!(chunked(HashType::MD5, content, content.len()), whole);
}

#[test]
fn sha3_chunk_boundaries_do_not_matter() {
    let content = "somecontentthatwillbesplitatdifferentplaces".as_bytes();
    let whole = hash_bytes(HashType::SHA3, content);
    assert_eq!(chunked(HashType::SHA3, content, 1), whole);
    assert_eq!(chunked(HashType::SHA3, content, 17), whole);
    assert_eq!(chunked(HashType::SHA3, content, 0), whole);
}

#[test]
fn blake3_chunk_boundaries_do_not_matter() {
    let content = "somecontentthatwillbesplitatdifferentplaces".as_bytes();
    let whole = hash_bytes(HashType::BLAKE3, content);
    assert_eq!(chunked(HashType::BLAKE3, content, 1), whole);
    assert_eq!(chunked(HashType::BLAKE3, content, 17), whole);
}

#[test]
fn hash_chunks_equals_hash_of_concatenation() {
    let chunks: Vec<Vec<u8>> = vec![
        "first".as_bytes().to_vec(),
        "".as_bytes().to_vec(),
        "secondpart".as_bytes().to_vec(),
        "third".as_bytes().to_vec(),
    ];
    let whole = "firstsecondpartthird".as_bytes();
    assert_eq!(hash_chunks(HashType::MD5, &chunks), hash_bytes(HashType::MD5, whole));
    assert_eq!(hash_chunks(HashType::SHA3, &chunks), hash_bytes(HashType::SHA3, whole));
    assert_eq!(hash_chunks(HashType::BLAKE3, &chunks), hash_bytes(HashType::BLAKE3, whole));
}

#[test]
fn hashing_is_deterministic() {
    let content = "thesamecontenttwice".as_bytes();
    assert_eq!(hash_bytes(HashType::MD5, content), hash_bytes(HashType::MD5, content));
    assert_eq!(hash_bytes(HashType::SHA3, content), hash_bytes(HashType::SHA3, content));
    assert_eq!(hash_bytes(HashType::BLAKE3, content), hash_bytes(HashType::BLAKE3, content));
}

#[test]
fn digest_widths() {
    assert_eq!(hash_bytes(HashType::MD5, b"x").len(), 16);
    assert_eq!(hash_bytes(HashType::SHA3, b"x").len(), 32);
    assert_eq!(hash_bytes(HashType::BLAKE3, b"x").len(), 32);
}
