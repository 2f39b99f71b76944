use vstd::prelude::*;

use crate::bytes::{le_bytes_32, le_bytes_64, le_word_32, le_word_64};

verus! {

/// One past the largest 64-bit address: the size of the target address space.
pub open spec fn address_space() -> int {
    0x1_0000_0000_0000_0000
}

/// The `len` bytes of memory `m` starting at `address`.
pub open spec fn mem_bytes(m: Map<u64, u8>, address: u64, len: nat) -> Seq<u8>
    recommends
        address + len <= address_space(),
{
    Seq::new(len, |i: int| m[(address + i) as u64])
}

/// The memory that results from writing `data` at `address` of `m`, byte by
/// byte, and changing nothing else.
pub open spec fn mem_write_bytes(m: Map<u64, u8>, address: u64, data: Seq<u8>) -> Map<u64, u8>
    recommends
        address + data.len() <= address_space(),
{
    Map::total(
        |a: u64|
            if address <= a < address + data.len() {
                data[a - address]
            } else {
                m[a]
            },
    )
}

/// The error a memory operation reports.
#[derive(Debug, PartialEq, Eq)]
pub enum MemoryError {
    /// Any other error occurred: a transport-level failure, or a malformed
    /// buffer length handed to one of the width-specific helpers.
    Other(String),
    /// Unaligned memory access.
    MemoryNotAligned {
        /// The address of the access.
        address: u64,
        /// The required alignment in bytes (address increments).
        alignment: usize,
    },
}

/// The error a primitive reports for an address that misses its alignment.
pub open spec fn not_aligned(address: u64, alignment: usize) -> MemoryError {
    MemoryError::MemoryNotAligned { address, alignment }
}

/// True when `m0` and `m1` agree on every address outside
/// `[address, address + len)`.
pub open spec fn unchanged_outside(m0: Map<u64, u8>, m1: Map<u64, u8>, address: u64, len: nat) -> bool {
    forall|a: u64| a < address || address + len <= a ==> m0[a] == #[trigger] m1[a]
}

/// An operation that left `[a1, a1 + l1)` alone also left every larger range
/// around it alone.
pub proof fn lemma_unchanged_outside_widen(
    m0: Map<u64, u8>,
    m1: Map<u64, u8>,
    a1: u64,
    l1: nat,
    address: u64,
    len: nat,
)
    requires
        unchanged_outside(m0, m1, a1, l1),
        address <= a1,
        a1 + l1 <= address + len,
    ensures
        unchanged_outside(m0, m1, address, len),
{
    assert forall|a: u64| a < address || address + len <= a implies m0[a] == #[trigger] m1[a] by {
        assert(a < a1 || a1 + l1 <= a);
    };
}

/// Two operations that each left every address outside `[address,
/// address + len)` alone, run one after the other, leave those addresses
/// alone too.
pub proof fn lemma_unchanged_outside_trans(
    m0: Map<u64, u8>,
    m1: Map<u64, u8>,
    m2: Map<u64, u8>,
    address: u64,
    len: nat,
)
    requires
        unchanged_outside(m0, m1, address, len),
        unchanged_outside(m1, m2, address, len),
    ensures
        unchanged_outside(m0, m2, address, len),
{
    assert forall|a: u64| a < address || address + len <= a implies m0[a] == #[trigger] m2[a] by {
        assert(m1[a] == m0[a]);
        assert(m2[a] == m1[a]);
    };
}

/// True when `m` holds exactly `data` at the addresses
/// `[address, address + data.len())`.
pub open spec fn holds_bytes(m: Map<u64, u8>, address: u64, data: Seq<u8>) -> bool
    recommends
        address + data.len() <= address_space(),
{
    forall|a: u64| address <= a < address + data.len() ==> #[trigger] m[a] == data[a - address]
}

/// True when `m` holds the little-endian bytes of `words` starting at
/// `address`, one 32-bit word every four bytes.
pub open spec fn holds_words_32(m: Map<u64, u8>, address: u64, words: Seq<u32>) -> bool
    recommends
        address + 4 * words.len() <= address_space(),
{
    forall|i: int|
        0 <= i < words.len() ==> holds_bytes(m, (address + 4 * i) as u64, #[trigger] le_bytes_32(words[i]))
}

/// True when `m` holds the little-endian bytes of `words` starting at
/// `address`, one 64-bit word every eight bytes.
pub open spec fn holds_words_64(m: Map<u64, u8>, address: u64, words: Seq<u64>) -> bool
    recommends
        address + 8 * words.len() <= address_space(),
{
    forall|i: int|
        0 <= i < words.len() ==> holds_bytes(m, (address + 8 * i) as u64, #[trigger] le_bytes_64(words[i]))
}

/// The 32-bit word stored little-endian at `address`.
pub open spec fn word_32_at(m: Map<u64, u8>, address: u64) -> u32
    recommends
        address + 4 <= address_space(),
{
    le_word_32(mem_bytes(m, address, 4))
}

/// The 64-bit word stored little-endian at `address`.
pub open spec fn word_64_at(m: Map<u64, u8>, address: u64) -> u64
    recommends
        address + 8 <= address_space(),
{
    le_word_64(mem_bytes(m, address, 8))
}

/// Trait that must be implemented to access the RTT region on the target.
///
/// A transport is modelled by the bytes of the target memory it reaches
/// (`mem`) and by whether it can move single bytes (`supports_8bit`). Every
/// operation may fail with `MemoryError::Other` at any time: a transport
/// failure is never ruled out. What each contract pins down is the result on
/// success, that an alignment violation is reported as `MemoryNotAligned`
/// before any transfer, and which bytes an operation may touch.
pub trait RttInterface: Sized {
    /// The bytes of target memory, one at every 64-bit address.
    spec fn mem(&self) -> Map<u64, u8>;

    /// Whether the transport can move single bytes (8-bit transfers).
    spec fn supports_8bit(&self) -> bool;

    /// The core this accessor targets.
    fn core_id(&self) -> usize;

    /// Does this interface support native 64-bit wide accesses.
    ///
    /// If false all 64-bit operations may be split into 32 or 8 bit
    /// operations. The answer may change between calls (it can depend on the
    /// core or context currently selected), so it is queried fresh each time
    /// and nothing relates one answer to the next.
    fn supports_native_64bit_access(&mut self) -> (r: bool)
        ensures
            final(self).mem() == old(self).mem(),
            final(self).supports_8bit() == old(self).supports_8bit(),
    ;

    /// Read a 64-bit word at `address`.
    ///
    /// The address has to be 8-byte aligned; otherwise
    /// `MemoryError::MemoryNotAligned` is returned.
    fn read_word_64(&mut self, address: u64) -> (r: Result<u64, MemoryError>)
        ensures
            final(self).mem() == old(self).mem(),
            final(self).supports_8bit() == old(self).supports_8bit(),
            address % 8 != 0 ==> r == Err::<u64, MemoryError>(not_aligned(address, 8)),
            r matches Err(e) ==> (e is MemoryNotAligned ==> e == not_aligned(address, 8)
                && address % 8 != 0),
            r matches Ok(w) ==> address % 8 == 0 && w == word_64_at(old(self).mem(), address),
    ;

    /// Read a 32-bit word at `address`.
    ///
    /// The address has to be 4-byte aligned; otherwise
    /// `MemoryError::MemoryNotAligned` is returned.
    fn read_word_32(&mut self, address: u64) -> (r: Result<u32, MemoryError>)
        ensures
            final(self).mem() == old(self).mem(),
            final(self).supports_8bit() == old(self).supports_8bit(),
            address % 4 != 0 ==> r == Err::<u32, MemoryError>(not_aligned(address, 4)),
            r matches Err(e) ==> (e is MemoryNotAligned ==> e == not_aligned(address, 4)
                && address % 4 != 0),
            r matches Ok(w) ==> address % 4 == 0 && w == word_32_at(old(self).mem(), address),
    ;

    /// Read one byte at `address`. No alignment constraint.
    fn read_word_8(&mut self, address: u64) -> (r: Result<u8, MemoryError>)
        ensures
            final(self).mem() == old(self).mem(),
            final(self).supports_8bit() == old(self).supports_8bit(),
            r matches Err(e) ==> e is Other,
            r matches Ok(b) ==> b == old(self).mem()[address],
    ;

    /// Read a block of 64-bit words at `address`, one word every eight bytes
    /// in ascending address order. The number of words read is `data.len()`.
    ///
    /// The address has to be 8-byte aligned; otherwise
    /// `MemoryError::MemoryNotAligned` is returned.
    fn read_64(&mut self, address: u64, data: &mut Vec<u64>) -> (r: Result<(), MemoryError>)
        requires
            address + 8 * old(data)@.len() <= address_space(),
        ensures
            final(self).mem() == old(self).mem(),
            final(self).supports_8bit() == old(self).supports_8bit(),
            final(data)@.len() == old(data)@.len(),
            address % 8 != 0 ==> r == Err::<(), MemoryError>(not_aligned(address, 8)) && final(data)@ == old(data)@,
            r matches Err(e) ==> (e is MemoryNotAligned ==> e == not_aligned(address, 8)
                && address % 8 != 0),
            r is Ok ==> address % 8 == 0 && (forall|i: int|
                0 <= i < old(data)@.len() ==> #[trigger] final(data)@[i] == word_64_at(old(self).mem(), (address + 8 * i) as u64)),
    ;

    /// Read a block of 32-bit words at `address`, one word every four bytes
    /// in ascending address order. The number of words read is `data.len()`.
    ///
    /// The address has to be 4-byte aligned; otherwise
    /// `MemoryError::MemoryNotAligned` is returned.
    fn read_32(&mut self, address: u64, data: &mut Vec<u32>) -> (r: Result<(), MemoryError>)
        requires
            address + 4 * old(data)@.len() <= address_space(),
        ensures
            final(self).mem() == old(self).mem(),
            final(self).supports_8bit() == old(self).supports_8bit(),
            final(data)@.len() == old(data)@.len(),
            address % 4 != 0 ==> r == Err::<(), MemoryError>(not_aligned(address, 4)) && final(data)@ == old(data)@,
            r matches Err(e) ==> (e is MemoryNotAligned ==> e == not_aligned(address, 4)
                && address % 4 != 0),
            r is Ok ==> address % 4 == 0 && (forall|i: int|
                0 <= i < old(data)@.len() ==> #[trigger] final(data)@[i] == word_32_at(old(self).mem(), (address + 4 * i) as u64)),
    ;

    /// Read a block of bytes at `address`, in ascending address order.
    /// The number of bytes read is `data.len()`. No alignment constraint.
    fn read_8(&mut self, address: u64, data: &mut Vec<u8>) -> (r: Result<(), MemoryError>)
        requires
            address + old(data)@.len() <= address_space(),
        ensures
            final(self).mem() == old(self).mem(),
            final(self).supports_8bit() == old(self).supports_8bit(),
            final(data)@.len() == old(data)@.len(),
            r matches Err(e) ==> e is Other,
            r is Ok ==> holds_bytes(old(self).mem(), address, final(data)@),
    ;

    /// Write a 64-bit word at `address`.
    ///
    /// The address has to be 8-byte aligned; otherwise
    /// `MemoryError::MemoryNotAligned` is returned before anything is written.
    fn write_word_64(&mut self, address: u64, data: u64) -> (r: Result<(), MemoryError>)
        ensures
            final(self).supports_8bit() == old(self).supports_8bit(),
            unchanged_outside(old(self).mem(), final(self).mem(), address, 8),
            address % 8 != 0 ==> r == Err::<(), MemoryError>(not_aligned(address, 8)) && final(self).mem() == old(self).mem(),
            r matches Err(e) ==> (e is MemoryNotAligned ==> e == not_aligned(address, 8)
                && address % 8 != 0),
            r is Ok ==> address % 8 == 0 && holds_bytes(final(self).mem(), address, le_bytes_64(data)),
    ;

    /// Write a 32-bit word at `address`.
    ///
    /// The address has to be 4-byte aligned; otherwise
    /// `MemoryError::MemoryNotAligned` is returned before anything is written.
    fn write_word_32(&mut self, address: u64, data: u32) -> (r: Result<(), MemoryError>)
        ensures
            final(self).supports_8bit() == old(self).supports_8bit(),
            unchanged_outside(old(self).mem(), final(self).mem(), address, 4),
            address % 4 != 0 ==> r == Err::<(), MemoryError>(not_aligned(address, 4)) && final(self).mem() == old(self).mem(),
            r matches Err(e) ==> (e is MemoryNotAligned ==> e == not_aligned(address, 4)
                && address % 4 != 0),
            r is Ok ==> address % 4 == 0 && holds_bytes(final(self).mem(), address, le_bytes_32(data)),
    ;

    /// Write one byte at `address`. No alignment constraint.
    fn write_word_8(&mut self, address: u64, data: u8) -> (r: Result<(), MemoryError>)
        ensures
            final(self).supports_8bit() == old(self).supports_8bit(),
            unchanged_outside(old(self).mem(), final(self).mem(), address, 1),
            r matches Err(e) ==> e is Other,
            r is Ok ==> final(self).mem()[address] == data,
    ;

    /// Write a block of 64-bit words at `address`, one word every eight bytes
    /// in ascending address order. The number of words written is
    /// `data.len()`.
    ///
    /// The address has to be 8-byte aligned; otherwise
    /// `MemoryError::MemoryNotAligned` is returned before anything is written.
    /// On any other failure part of the block may already have been written,
    /// but never a byte outside it.
    fn write_64(&mut self, address: u64, data: &Vec<u64>) -> (r: Result<(), MemoryError>)
        requires
            address + 8 * data@.len() <= address_space(),
        ensures
            final(self).supports_8bit() == old(self).supports_8bit(),
            unchanged_outside(old(self).mem(), final(self).mem(), address, (8 * data@.len()) as nat),
            address % 8 != 0 ==> r == Err::<(), MemoryError>(not_aligned(address, 8)) && final(self).mem() == old(self).mem(),
            r matches Err(e) ==> (e is MemoryNotAligned ==> e == not_aligned(address, 8)
                && address % 8 != 0),
            r is Ok ==> address % 8 == 0 && holds_words_64(final(self).mem(), address, data@),
    ;

    /// Write a block of 32-bit words at `address`, one word every four bytes
    /// in ascending address order. The number of words written is
    /// `data.len()`.
    ///
    /// The address has to be 4-byte aligned; otherwise
    /// `MemoryError::MemoryNotAligned` is returned before anything is written.
    /// On any other failure part of the block may already have been written,
    /// but never a byte outside it.
    fn write_32(&mut self, address: u64, data: &Vec<u32>) -> (r: Result<(), MemoryError>)
        requires
            address + 4 * data@.len() <= address_space(),
        ensures
            final(self).supports_8bit() == old(self).supports_8bit(),
            unchanged_outside(old(self).mem(), final(self).mem(), address, (4 * data@.len()) as nat),
            address % 4 != 0 ==> r == Err::<(), MemoryError>(not_aligned(address, 4)) && final(self).mem() == old(self).mem(),
            r matches Err(e) ==> (e is MemoryNotAligned ==> e == not_aligned(address, 4)
                && address % 4 != 0),
            r is Ok ==> address % 4 == 0 && holds_words_32(final(self).mem(), address, data@),
    ;

    /// Write a block of bytes at `address`, in ascending address order. The
    /// number of bytes written is `data.len()`. No alignment constraint.
    ///
    /// On failure part of the block may already have been written, but never
    /// a byte outside it.
    fn write_8(&mut self, address: u64, data: &Vec<u8>) -> (r: Result<(), MemoryError>)
        requires
            address + data@.len() <= address_space(),
        ensures
            final(self).supports_8bit() == old(self).supports_8bit(),
            unchanged_outside(old(self).mem(), final(self).mem(), address, data@.len()),
            r matches Err(e) ==> e is Other,
            r is Ok ==> holds_bytes(final(self).mem(), address, data@),
    ;

    /// Returns whether the current platform supports native 8-bit transfers.
    /// Determining this may itself need a transport round trip, so the query
    /// can fail.
    fn supports_8bit_transfers(&self) -> (r: Result<bool, MemoryError>)
        ensures
            r matches Ok(b) ==> b == self.supports_8bit(),
            r matches Err(e) ==> e is Other,
    ;

    /// Flush any outstanding operations.
    ///
    /// For performance, debug probe implementations may choose to batch
    /// writes; to assure that any such batched writes have in fact been
    /// issued, `flush` can be called. Takes no arguments, but may return
    /// failure if a batched operation fails.
    fn flush(&mut self) -> (r: Result<(), MemoryError>)
        ensures
            final(self).mem() == old(self).mem(),
            final(self).supports_8bit() == old(self).supports_8bit(),
            r matches Err(e) ==> e is Other,
    ;
}

} // verus!
