use rtt_com::adapter::{read, read_mem_32bit, read_mem_64bit, write_mem_32bit, write_mem_64bit};
use rtt_com::interface::{MemoryError, RttInterface};
use rtt_com::ram::RamTransport;

fn ram(size: usize, has_8bit: bool, has_native_64bit: bool) -> RamTransport {
    RamTransport {
        ram: vec![0u8; size],
        has_8bit,
        has_native_64bit,
        core: 0,
    }
}

#[test]
fn word_32_ops_reject_unaligned_addresses() {
    let mut t = ram(64, true, true);
    for addr in [1u64, 2, 3, 5, 6, 7, 9] {
        assert!(matches!(
            t.read_word_32(addr),
            Err(MemoryError::MemoryNotAligned { address, alignment: 4 }) if address == addr
        ));
        assert!(matches!(
            t.write_word_32(addr, 0),
            Err(MemoryError::MemoryNotAligned { address, alignment: 4 }) if address == addr
        ));
        let mut buf = vec![0u32; 2];
        assert!(matches!(
            t.read_32(addr, &mut buf),
            Err(MemoryError::MemoryNotAligned { address, alignment: 4 }) if address == addr
        ));
        assert!(matches!(
            t.write_32(addr, &vec![0u32; 2]),
            Err(MemoryError::MemoryNotAligned { address, alignment: 4 }) if address == addr
        ));
    }
}

#[test]
fn word_64_ops_reject_unaligned_addresses() {
    let mut t = ram(64, true, true);
    for addr in [1u64, 2, 3, 4, 5, 6, 7, 12] {
        assert!(matches!(
            t.read_word_64(addr),
            Err(MemoryError::MemoryNotAligned { address, alignment: 8 }) if address == addr
        ));
        assert!(matches!(
            t.write_word_64(addr, 0),
            Err(MemoryError::MemoryNotAligned { address, alignment: 8 }) if address == addr
        ));
        let mut buf = vec![0u64; 1];
        assert!(matches!(
            t.read_64(addr, &mut buf),
            Err(MemoryError::MemoryNotAligned { address, alignment: 8 }) if address == addr
        ));
        assert!(matches!(
            t.write_64(addr, &vec![0u64; 1]),
            Err(MemoryError::MemoryNotAligned { address, alignment: 8 }) if address == addr
        ));
    }
}

#[test]
fn byte_ops_need_no_alignment() {
    let mut t = ram(16, true, false);
    assert!(t.write_word_8(3, 0x5a).is_ok());
    assert_eq!(t.read_word_8(3).unwrap(), 0x5a);
    assert!(t.write_8(5, &vec![1, 2, 3]).is_ok());
    let mut buf = vec![0u8; 3];
    assert!(t.read_8(5, &mut buf).is_ok());
    assert_eq!(buf, vec![1, 2, 3]);
}

#[test]
fn round_trip_unaligned_address_and_length() {
    let mut t = ram(64, true, false);
    let data = vec![0xde, 0xad, 0xbe, 0xef, 0x01, 0x02, 0x03];
    assert!(rtt_com::adapter::write(&mut t, 3, &data).is_ok());
    let mut back = vec![0u8; 7];
    assert!(read(&mut t, 3, &mut back).is_ok());
    assert_eq!(back, data);
}

#[test]
fn round_trip_aligned_64bit_path() {
    let mut t = ram(64, false, true);
    let data: Vec<u8> = (0u8..16).collect();
    assert!(rtt_com::adapter::write(&mut t, 8, &data).is_ok());
    let mut back = vec![0u8; 16];
    assert!(read(&mut t, 8, &mut back).is_ok());
    assert_eq!(back, data);
}

#[test]
fn round_trip_aligned_32bit_path_without_8bit_support() {
    let mut t = ram(64, false, false);
    let data = vec![9, 8, 7, 6, 5, 4, 3, 2];
    assert!(rtt_com::adapter::write(&mut t, 4, &data).is_ok());
    let mut back = vec![0u8; 8];
    assert!(read(&mut t, 4, &mut back).is_ok());
    assert_eq!(back, data);
}

#[test]
fn round_trip_lead_mid_and_tail_segments() {
    let mut t = ram(64, true, false);
    let data: Vec<u8> = (1u8..=11).collect();
    assert!(rtt_com::adapter::write(&mut t, 2, &data).is_ok());
    let mut back = vec![0u8; 11];
    assert!(read(&mut t, 2, &mut back).is_ok());
    assert_eq!(back, data);
}

#[test]
fn write_without_8bit_support_fails_unaligned() {
    let mut t = ram(64, false, false);
    assert!(matches!(
        rtt_com::adapter::write(&mut t, 2, &vec![1, 2, 3, 4]),
        Err(MemoryError::MemoryNotAligned { address: 2, alignment: 4 })
    ));
    assert!(matches!(
        rtt_com::adapter::write(&mut t, 4, &vec![1, 2, 3, 4, 5]),
        Err(MemoryError::MemoryNotAligned { address: 4, alignment: 4 })
    ));
}

#[test]
fn read_without_8bit_support_still_works_unaligned() {
    let mut t = ram(16, false, false);
    for (i, b) in [0x10u8, 0x11, 0x12, 0x13, 0x14, 0x15, 0x16, 0x17]
        .iter()
        .enumerate()
    {
        t.ram[i] = *b;
    }
    let mut back = vec![0u8; 5];
    assert!(read(&mut t, 1, &mut back).is_ok());
    assert_eq!(back, vec![0x11, 0x12, 0x13, 0x14, 0x15]);
}

#[test]
fn mem_helpers_reject_bad_lengths_with_other() {
    let mut t = ram(64, true, true);
    let mut buf = vec![0u8; 5];
    assert!(matches!(
        read_mem_64bit(&mut t, 0, &mut buf),
        Err(MemoryError::Other(_))
    ));
    assert!(matches!(
        write_mem_64bit(&mut t, 0, &vec![0u8; 4]),
        Err(MemoryError::Other(_))
    ));
    let mut buf = vec![0u8; 3];
    assert!(matches!(
        read_mem_32bit(&mut t, 0, &mut buf),
        Err(MemoryError::Other(_))
    ));
    assert!(matches!(
        write_mem_32bit(&mut t, 0, &vec![0u8; 2]),
        Err(MemoryError::Other(_))
    ));
}

#[test]
fn mem_helpers_reject_unaligned_addresses() {
    let mut t = ram(64, true, true);
    let mut buf = vec![0u8; 8];
    assert!(matches!(
        read_mem_64bit(&mut t, 4, &mut buf),
        Err(MemoryError::MemoryNotAligned { address: 4, alignment: 8 })
    ));
    assert!(matches!(
        write_mem_32bit(&mut t, 2, &vec![0u8; 4]),
        Err(MemoryError::MemoryNotAligned { address: 2, alignment: 4 })
    ));
}

#[test]
fn default_32bit_write_path_is_little_endian() {
    let mut t = ram(16, false, false);
    assert!(rtt_com::adapter::write(&mut t, 0, &vec![0x01, 0x02, 0x03, 0x04]).is_ok());
    assert_eq!(t.read_word_32(0).unwrap(), 0x04030201);
}

#[test]
fn mem_64bit_helpers_are_little_endian() {
    let mut t = ram(16, true, true);
    assert!(t.write_word_64(0, 0x0807060504030201).is_ok());
    let mut back = vec![0u8; 8];
    assert!(read_mem_64bit(&mut t, 0, &mut back).is_ok());
    assert_eq!(back, vec![0x01, 0x02, 0x03, 0x04, 0x05, 0x06, 0x07, 0x08]);
}

#[test]
fn empty_read_and_write_succeed_at_any_address() {
    let mut t = ram(8, false, false);
    let before = t.ram.clone();
    assert!(rtt_com::adapter::write(&mut t, u64::MAX, &Vec::new()).is_ok());
    assert!(rtt_com::adapter::write(&mut t, 3, &Vec::new()).is_ok());
    let mut empty: Vec<u8> = Vec::new();
    assert!(read(&mut t, u64::MAX, &mut empty).is_ok());
    assert!(read(&mut t, 5, &mut empty).is_ok());
    assert_eq!(t.ram, before);
}

#[test]
fn write_leaves_neighbouring_bytes_alone() {
    let mut t = ram(16, true, false);
    for i in 0..16 {
        t.ram[i] = 0xaa;
    }
    assert!(rtt_com::adapter::write(&mut t, 3, &vec![1, 2, 3, 4, 5]).is_ok());
    assert_eq!(
        t.ram,
        vec![
            0xaa, 0xaa, 0xaa, 1, 2, 3, 4, 5, 0xaa, 0xaa, 0xaa, 0xaa, 0xaa, 0xaa, 0xaa, 0xaa
        ]
    );
}

#[test]
fn trailing_partial_write_stores_the_buffers_tail() {
    // The trailing partial word is taken from the end of the buffer and
    // written at the tail address, after the whole 32-bit words.
    let mut t = ram(16, true, false);
    assert!(rtt_com::adapter::write(&mut t, 0, &vec![1, 2, 3, 4, 5]).is_ok());
    assert_eq!(&t.ram[0..5], &[1, 2, 3, 4, 5]);
    assert_eq!(t.ram[4], 5);
}

#[test]
fn out_of_range_access_reports_other() {
    let mut t = ram(8, true, true);
    assert!(matches!(t.read_word_32(8), Err(MemoryError::Other(_))));
    assert!(matches!(t.read_word_64(8), Err(MemoryError::Other(_))));
    assert!(matches!(t.read_word_8(8), Err(MemoryError::Other(_))));
    assert!(matches!(
        t.write_word_32(8, 0),
        Err(MemoryError::Other(_))
    ));
    assert!(matches!(t.write_word_8(8, 0), Err(MemoryError::Other(_))));
}

#[test]
fn capability_queries_and_flush() {
    let mut t = ram(8, true, false);
    assert_eq!(t.core_id(), 0);
    assert_eq!(t.supports_8bit_transfers().unwrap(), true);
    assert_eq!(t.supports_native_64bit_access(), false);
    assert!(t.flush().is_ok());
    let mut u = ram(8, false, true);
    assert_eq!(u.supports_8bit_transfers().unwrap(), false);
    assert_eq!(u.supports_native_64bit_access(), true);
}
