use rtt_com::bytes::{byte_of_word_32, byte_of_word_64, word_32_from_bytes, word_64_from_bytes};

#[test]
fn word_32_assembly_is_little_endian() {
    assert_eq!(word_32_from_bytes(0x01, 0x02, 0x03, 0x04), 0x04030201);
    assert_eq!(word_32_from_bytes(0xff, 0, 0, 0), 0xff);
    assert_eq!(word_32_from_bytes(0, 0, 0, 0xff), 0xff000000);
}

#[test]
fn word_64_assembly_is_little_endian() {
    assert_eq!(
        word_64_from_bytes(0x01, 0x02, 0x03, 0x04, 0x05, 0x06, 0x07, 0x08),
        0x0807060504030201
    );
}

#[test]
fn word_32_bytes_round_trip() {
    let w = 0xcafe_f00d_u32;
    let b: Vec<u8> = (0..4).map(|i| byte_of_word_32(w, i)).collect();
    assert_eq!(b, vec![0x0d, 0xf0, 0xfe, 0xca]);
    assert_eq!(word_32_from_bytes(b[0], b[1], b[2], b[3]), w);
}

#[test]
fn word_64_bytes_round_trip() {
    let w = 0x0123_4567_89ab_cdef_u64;
    let b: Vec<u8> = (0..8).map(|i| byte_of_word_64(w, i)).collect();
    assert_eq!(b, vec![0xef, 0xcd, 0xab, 0x89, 0x67, 0x45, 0x23, 0x01]);
    assert_eq!(
        word_64_from_bytes(b[0], b[1], b[2], b[3], b[4], b[5], b[6], b[7]),
        w
    );
}
