use vstd::prelude::*;

use crate::bytes::{
    byte_of_word_32, byte_of_word_64, le_bytes_32, le_bytes_64, le_word_32, le_word_64,
    lemma_le_bytes_32_of_word, lemma_le_bytes_64_of_word, word_32_from_bytes, word_64_from_bytes,
};
use crate::interface::{
    address_space, holds_bytes, holds_words_32, holds_words_64, lemma_unchanged_outside_trans,
    lemma_unchanged_outside_widen, mem_bytes, not_aligned, unchanged_outside, word_32_at,
    word_64_at, MemoryError, RttInterface,
};

verus! {

/// Copy `data[from..to]` into a fresh vector.
fn copy_range(data: &Vec<u8>, from: usize, to: usize) -> (r: Vec<u8>)
    requires
        from <= to <= data@.len(),
    ensures
        r@ == data@.subrange(from as int, to as int),
{
    let mut out: Vec<u8> = Vec::new();
    let mut i: usize = from;
    while i < to
        invariant
            from <= i <= to <= data@.len(),
            out@ == data@.subrange(from as int, i as int),
        decreases to - i,
    {
        out.push(data[i]);
        proof {
            assert(out@ =~= data@.subrange(from as int, i + 1 as int));
        }
        i += 1;
    }
    out
}

/// Pack `data[from..from + 4 * n]` into `n` little-endian 32-bit words.
fn words_32_of_range(data: &Vec<u8>, from: usize, n: usize) -> (r: Vec<u32>)
    requires
        from + 4 * n <= data@.len(),
    ensures
        r@.len() == n,
        forall|i: int|
            0 <= i < n ==> #[trigger] r@[i] == le_word_32(
                data@.subrange(from + 4 * i, from + 4 * i + 4),
            ),
{
    let total = data.len();
    let mut out: Vec<u32> = Vec::new();
    let mut i: usize = 0;
    while i < n
        invariant
            i <= n,
            from + 4 * n <= total <= usize::MAX,
            total == data@.len(),
            out@.len() == i,
            forall|k: int|
                0 <= k < i ==> #[trigger] out@[k] == le_word_32(
                    data@.subrange(from + 4 * k, from + 4 * k + 4),
                ),
        decreases n - i,
    {
        let j = from + 4 * i;
        let w = word_32_from_bytes(data[j], data[j + 1], data[j + 2], data[j + 3]);
        proof {
            assert(seq![data@[j as int], data@[j + 1], data@[j + 2], data@[j + 3]] =~= data@
                .subrange(j as int, j + 4));
        }
        out.push(w);
        i += 1;
    }
    out
}

/// Pack `data[from..from + 8 * n]` into `n` little-endian 64-bit words.
fn words_64_of_range(data: &Vec<u8>, from: usize, n: usize) -> (r: Vec<u64>)
    requires
        from + 8 * n <= data@.len(),
    ensures
        r@.len() == n,
        forall|i: int|
            0 <= i < n ==> #[trigger] r@[i] == le_word_64(
                data@.subrange(from + 8 * i, from + 8 * i + 8),
            ),
{
    let total = data.len();
    let mut out: Vec<u64> = Vec::new();
    let mut i: usize = 0;
    while i < n
        invariant
            i <= n,
            from + 8 * n <= total <= usize::MAX,
            total == data@.len(),
            out@.len() == i,
            forall|k: int|
                0 <= k < i ==> #[trigger] out@[k] == le_word_64(
                    data@.subrange(from + 8 * k, from + 8 * k + 8),
                ),
        decreases n - i,
    {
        let j = from + 8 * i;
        let w = word_64_from_bytes(
            data[j],
            data[j + 1],
            data[j + 2],
            data[j + 3],
            data[j + 4],
            data[j + 5],
            data[j + 6],
            data[j + 7],
        );
        proof {
            assert(seq![
                data@[j as int],
                data@[j + 1],
                data@[j + 2],
                data@[j + 3],
                data@[j + 4],
                data@[j + 5],
                data@[j + 6],
                data@[j + 7],
            ] =~= data@.subrange(j as int, j + 8));
        }
        out.push(w);
        i += 1;
    }
    out
}

/// A memory that holds 32-bit words whose little-endian bytes were taken from
/// `data`, word by word, holds `data` itself.
pub proof fn lemma_holds_words_32_bytes(m: Map<u64, u8>, address: u64, words: Seq<u32>, data: Seq<
    u8,
>)
    requires
        address + data.len() <= address_space(),
        data.len() == 4 * words.len(),
        holds_words_32(m, address, words),
        forall|i: int|
            0 <= i < words.len() ==> #[trigger] words[i] == le_word_32(
                data.subrange(4 * i, 4 * i + 4),
            ),
    ensures
        holds_bytes(m, address, data),
{
    assert forall|a: u64| address <= a < address + data.len() implies #[trigger] m[a] == data[a
        - address] by {
        let j = a - address;
        let i = j / 4;
        let k = j % 4;
        assert(j == 4 * i + k && 0 <= k < 4);
        assert(0 <= i < words.len());
        let chunk = data.subrange(4 * i, 4 * i + 4);
        assert(words[i] == le_word_32(chunk));
        assert(holds_bytes(m, (address + 4 * i) as u64, le_bytes_32(words[i])));
        lemma_le_bytes_32_of_word(chunk);
        let base = (address + 4 * i) as u64;
        assert(m[a] == chunk[a - base]);
        assert(chunk[a - base] == data[j]);
    };
}

/// A memory that holds 64-bit words whose little-endian bytes were taken from
/// `data`, word by word, holds `data` itself.
pub proof fn lemma_holds_words_64_bytes(m: Map<u64, u8>, address: u64, words: Seq<u64>, data: Seq<
    u8,
>)
    requires
        address + data.len() <= address_space(),
        data.len() == 8 * words.len(),
        holds_words_64(m, address, words),
        forall|i: int|
            0 <= i < words.len() ==> #[trigger] words[i] == le_word_64(
                data.subrange(8 * i, 8 * i + 8),
            ),
    ensures
        holds_bytes(m, address, data),
{
    assert forall|a: u64| address <= a < address + data.len() implies #[trigger] m[a] == data[a
        - address] by {
        let j = a - address;
        let i = j / 8;
        let k = j % 8;
        assert(j == 8 * i + k && 0 <= k < 8);
        assert(0 <= i < words.len());
        let chunk = data.subrange(8 * i, 8 * i + 8);
        assert(words[i] == le_word_64(chunk));
        assert(holds_bytes(m, (address + 8 * i) as u64, le_bytes_64(words[i])));
        lemma_le_bytes_64_of_word(chunk);
        let base = (address + 8 * i) as u64;
        assert(m[a] == chunk[a - base]);
        assert(chunk[a - base] == data[j]);
    };
}

/// Reads bytes using 32-bit memory access. `address` must be 4-byte aligned
/// and `data.len()` an exact multiple of 4: a bad length is reported as
/// `MemoryError::Other`, a bad address as `MemoryError::MemoryNotAligned`.
/// On success the buffer holds the `data.len()` bytes of target memory at
/// `address`, each 32-bit word converted from little-endian.
pub fn read_mem_32bit<T: RttInterface>(iface: &mut T, address: u64, data: &mut Vec<u8>) -> (r:
    Result<(), MemoryError>)
    requires
        address + old(data)@.len() <= address_space(),
    ensures
        final(iface).mem() == old(iface).mem(),
        final(iface).supports_8bit() == old(iface).supports_8bit(),
        final(data)@.len() == old(data)@.len(),
        old(data)@.len() % 4 != 0 ==> (r matches Err(e) && e is Other && final(data)@ == old(
            data,
        )@),
        old(data)@.len() % 4 == 0 && address % 4 != 0 ==> r == Err::<(), MemoryError>(
            not_aligned(address, 4),
        ) && final(data)@ == old(data)@,
        r matches Err(e) ==> (e is MemoryNotAligned ==> e == not_aligned(address, 4) && address % 4
            != 0),
        r is Ok ==> address % 4 == 0 && old(data)@.len() % 4 == 0 && final(data)@ == mem_bytes(
            old(iface).mem(),
            address,
            old(data)@.len(),
        ),
{
    let ghost m0 = iface.mem();
    let len = data.len();
    if len % 4 != 0 {
        return Err(
            MemoryError::Other("Call to read_mem_32bit with data.len() not a multiple of 4".to_owned()),
        );
    }
    let n = len / 4;
    let mut words: Vec<u32> = Vec::new();
    while words.len() < n
        invariant
            words@.len() <= n,
        decreases n - words@.len(),
    {
        words.push(0u32);
    }
    match iface.read_32(address, &mut words) {
        Ok(u) => u,
        Err(e) => {
            return Err(e);
        },
    };
    let mut i: usize = 0;
    while i < n
        invariant
            i <= n,
            len == data@.len(),
            len % 4 == 0,
            n == len / 4,
            address % 4 == 0,
            address + len <= address_space(),
            iface.mem() == m0,
            words@.len() == n,
            forall|k: int|
                0 <= k < n ==> #[trigger] words@[k] == word_32_at(m0, (address + 4 * k) as u64),
            forall|j: int| 0 <= j < 4 * i ==> #[trigger] data@[j] == m0[(address + j) as u64],
        decreases n - i,
    {
        let w = words[i];
        data.set(4 * i, byte_of_word_32(w, 0));
        data.set(4 * i + 1, byte_of_word_32(w, 1));
        data.set(4 * i + 2, byte_of_word_32(w, 2));
        data.set(4 * i + 3, byte_of_word_32(w, 3));
        proof {
            let chunk = mem_bytes(m0, (address + 4 * i) as u64, 4);
            lemma_le_bytes_32_of_word(chunk);
            assert forall|j: int| 0 <= j < 4 * (i + 1) implies #[trigger] data@[j] == m0[(address
                + j) as u64] by {
                if 4 * i <= j {
                    assert(data@[j] == chunk[j - 4 * i]);
                }
            };
        }
        i += 1;
    }
    proof {
        assert(data@ =~= mem_bytes(m0, address, len as nat));
    }
    Ok(())
}

/// Reads bytes using 64-bit memory access. `address` must be 8-byte aligned
/// and `data.len()` an exact multiple of 8: a bad length is reported as
/// `MemoryError::Other`, a bad address as `MemoryError::MemoryNotAligned`.
/// On success the buffer holds the `data.len()` bytes of target memory at
/// `address`, each 64-bit word converted from little-endian.
pub fn read_mem_64bit<T: RttInterface>(iface: &mut T, address: u64, data: &mut Vec<u8>) -> (r:
    Result<(), MemoryError>)
    requires
        address + old(data)@.len() <= address_space(),
    ensures
        final(iface).mem() == old(iface).mem(),
        final(iface).supports_8bit() == old(iface).supports_8bit(),
        final(data)@.len() == old(data)@.len(),
        old(data)@.len() % 8 != 0 ==> (r matches Err(e) && e is Other && final(data)@ == old(
            data,
        )@),
        old(data)@.len() % 8 == 0 && address % 8 != 0 ==> r == Err::<(), MemoryError>(
            not_aligned(address, 8),
        ) && final(data)@ == old(data)@,
        r matches Err(e) ==> (e is MemoryNotAligned ==> e == not_aligned(address, 8) && address % 8
            != 0),
        r is Ok ==> address % 8 == 0 && old(data)@.len() % 8 == 0 && final(data)@ == mem_bytes(
            old(iface).mem(),
            address,
            old(data)@.len(),
        ),
{
    let ghost m0 = iface.mem();
    let len = data.len();
    if len % 8 != 0 {
        return Err(
            MemoryError::Other("Call to read_mem_64bit with data.len() not a multiple of 8".to_owned()),
        );
    }
    let n = len / 8;
    let mut words: Vec<u64> = Vec::new();
    while words.len() < n
        invariant
            words@.len() <= n,
        decreases n - words@.len(),
    {
        words.push(0u64);
    }
    match iface.read_64(address, &mut words) {
        Ok(u) => u,
        Err(e) => {
            return Err(e);
        },
    };
    let mut i: usize = 0;
    while i < n
        invariant
            i <= n,
            len == data@.len(),
            len % 8 == 0,
            n == len / 8,
            address % 8 == 0,
            address + len <= address_space(),
            iface.mem() == m0,
            words@.len() == n,
            forall|k: int|
                0 <= k < n ==> #[trigger] words@[k] == word_64_at(m0, (address + 8 * k) as u64),
            forall|j: int| 0 <= j < 8 * i ==> #[trigger] data@[j] == m0[(address + j) as u64],
        decreases n - i,
    {
        let w = words[i];
        data.set(8 * i, byte_of_word_64(w, 0));
        data.set(8 * i + 1, byte_of_word_64(w, 1));
        data.set(8 * i + 2, byte_of_word_64(w, 2));
        data.set(8 * i + 3, byte_of_word_64(w, 3));
        data.set(8 * i + 4, byte_of_word_64(w, 4));
        data.set(8 * i + 5, byte_of_word_64(w, 5));
        data.set(8 * i + 6, byte_of_word_64(w, 6));
        data.set(8 * i + 7, byte_of_word_64(w, 7));
        proof {
            let chunk = mem_bytes(m0, (address + 8 * i) as u64, 8);
            lemma_le_bytes_64_of_word(chunk);
            assert forall|j: int| 0 <= j < 8 * (i + 1) implies #[trigger] data@[j] == m0[(address
                + j) as u64] by {
                if 8 * i <= j {
                    assert(data@[j] == chunk[j - 8 * i]);
                }
            };
        }
        i += 1;
    }
    proof {
        assert(data@ =~= mem_bytes(m0, address, len as nat));
    }
    Ok(())
}

/// Writes bytes using 32-bit memory access. `address` must be 4-byte aligned
/// and `data.len()` an exact multiple of 4: a bad length is reported as
/// `MemoryError::Other`, a bad address as `MemoryError::MemoryNotAligned`.
/// The bytes are converted to little-endian 32-bit words before the transfer.
/// No byte outside `[address, address + data.len())` is touched.
pub fn write_mem_32bit<T: RttInterface>(iface: &mut T, address: u64, data: &Vec<u8>) -> (r: Result<
    (),
    MemoryError,
>)
    requires
        address + data@.len() <= address_space(),
    ensures
        final(iface).supports_8bit() == old(iface).supports_8bit(),
        unchanged_outside(
            old(iface).mem(),
            final(iface).mem(),
            address,
            data@.len(),
        ),
        data@.len() % 4 != 0 ==> (r matches Err(e) && e is Other && final(iface).mem() == old(
            iface,
        ).mem()),
        data@.len() % 4 == 0 && address % 4 != 0 ==> r == Err::<(), MemoryError>(
            not_aligned(address, 4),
        ) && final(iface).mem() == old(iface).mem(),
        r matches Err(e) ==> (e is MemoryNotAligned ==> e == not_aligned(address, 4) && address % 4
            != 0),
        r is Ok ==> address % 4 == 0 && data@.len() % 4 == 0 && holds_bytes(
            final(iface).mem(),
            address,
            data@,
        ),
{
    let len = data.len();
    if len % 4 != 0 {
        return Err(
            MemoryError::Other("Call to write_mem_32bit with data.len() not a multiple of 4".to_owned()),
        );
    }
    let words = words_32_of_range(data, 0, len / 4);
    match iface.write_32(address, &words) {
        Ok(u) => u,
        Err(e) => {
            return Err(e);
        },
    };
    proof {
        lemma_holds_words_32_bytes(iface.mem(), address, words@, data@);
    }
    Ok(())
}

/// Writes bytes using 64-bit memory access. `address` must be 8-byte aligned
/// and `data.len()` an exact multiple of 8: a bad length is reported as
/// `MemoryError::Other`, a bad address as `MemoryError::MemoryNotAligned`.
/// The bytes are converted to little-endian 64-bit words before the transfer.
/// No byte outside `[address, address + data.len())` is touched.
pub fn write_mem_64bit<T: RttInterface>(iface: &mut T, address: u64, data: &Vec<u8>) -> (r: Result<
    (),
    MemoryError,
>)
    requires
        address + data@.len() <= address_space(),
    ensures
        final(iface).supports_8bit() == old(iface).supports_8bit(),
        unchanged_outside(
            old(iface).mem(),
            final(iface).mem(),
            address,
            data@.len(),
        ),
        data@.len() % 8 != 0 ==> (r matches Err(e) && e is Other && final(iface).mem() == old(
            iface,
        ).mem()),
        data@.len() % 8 == 0 && address % 8 != 0 ==> r == Err::<(), MemoryError>(
            not_aligned(address, 8),
        ) && final(iface).mem() == old(iface).mem(),
        r matches Err(e) ==> (e is MemoryNotAligned ==> e == not_aligned(address, 8) && address % 8
            != 0),
        r is Ok ==> address % 8 == 0 && data@.len() % 8 == 0 && holds_bytes(
            final(iface).mem(),
            address,
            data@,
        ),
{
    let len = data.len();
    if len % 8 != 0 {
        return Err(
            MemoryError::Other("Call to write_mem_64bit with data.len() not a multiple of 8".to_owned()),
        );
    }
    let words = words_64_of_range(data, 0, len / 8);
    match iface.write_64(address, &words) {
        Ok(u) => u,
        Err(e) => {
            return Err(e);
        },
    };
    proof {
        lemma_holds_words_64_bytes(iface.mem(), address, words@, data@);
    }
    Ok(())
}

/// Read `data.len()` bytes of target memory at `address` into `data`.
///
/// This function tries to use the fastest way of reading: native 64-bit
/// access when the transport supports it and address and length allow it,
/// else plain 32-bit access, else an over-read through 32-bit access. The
/// over-read widens the range to the surrounding 4-byte-aligned one, reads
/// that, and copies the requested bytes out; memory just outside the
/// requested range is read and discarded, so this path is discouraged for
/// memory-mapped registers with read side effects. No path needs 8-bit
/// transfer support, so an alignment error is never reported: only transport
/// failures propagate. An empty buffer returns at once, without touching the
/// transport.
pub fn read<T: RttInterface>(iface: &mut T, address: u64, data: &mut Vec<u8>) -> (r: Result<
    (),
    MemoryError,
>)
    requires
        address + old(data)@.len() <= address_space(),
        address % 4 != 0 || old(data)@.len() % 4 != 0 ==> old(data)@.len() + 6 <= usize::MAX,
    ensures
        final(iface).mem() == old(iface).mem(),
        final(iface).supports_8bit() == old(iface).supports_8bit(),
        final(data)@.len() == old(data)@.len(),
        old(data)@.len() == 0 ==> r is Ok && final(data)@ == old(data)@,
        r is Ok ==> final(data)@ == mem_bytes(old(iface).mem(), address, old(data)@.len()),
        r matches Err(e) ==> e is Other,
{
    let ghost m0 = iface.mem();
    let len = data.len();
    if len == 0 {
        return Ok(());
    }
    if iface.supports_native_64bit_access() && address % 8 == 0 && len % 8 == 0 {
        match read_mem_64bit(iface, address, data) {
            Ok(u) => u,
            Err(e) => {
                return Err(e);
            },
        };
        Ok(())
    } else if address % 4 == 0 && len % 4 == 0 {
        match read_mem_32bit(iface, address, data) {
            Ok(u) => u,
            Err(e) => {
                return Err(e);
            },
        };
        Ok(())
    } else {
        let rem = (address % 4) as usize;
        let padded = (rem + len + 3) / 4 * 4;
        let start = address - rem as u64;
        proof {
            let q = address / 4;
            assert(address == 4 * q + rem);
            assert(start == 4 * q);
            assert(start % 4 == 0);
            let s = (address_space() - start) / 4;
            assert(address_space() - start == 4 * s);
            assert(rem + len + 3 <= 4 * s + 3);
            vstd::arithmetic::div_mod::lemma_div_is_ordered(rem + len + 3, 4 * s + 3, 4);
            assert((4 * s + 3) / 4 == s);
            assert(start + padded <= address_space());
            assert(rem + len <= padded);
            assert(padded % 4 == 0);
        }
        let mut buffer: Vec<u8> = Vec::new();
        while buffer.len() < padded
            invariant
                buffer@.len() <= padded,
            decreases padded - buffer@.len(),
        {
            buffer.push(0u8);
        }
        match read_mem_32bit(iface, start, &mut buffer) {
            Ok(u) => u,
            Err(e) => {
                return Err(e);
            },
        };
        let mut i: usize = 0;
        while i < len
            invariant
                i <= len,
                len == data@.len(),
                rem < 4,
                rem + len <= padded,
                buffer@.len() == padded,
                start as int == address - rem,
                address + len <= address_space(),
                iface.mem() == m0,
                buffer@ == mem_bytes(m0, start, padded as nat),
                forall|j: int| 0 <= j < i ==> #[trigger] data@[j] == m0[(address + j) as u64],
            decreases len - i,
        {
            data.set(i, buffer[rem + i]);
            proof {
                assert(buffer@[rem + i] == m0[(start + (rem + i)) as u64]);
                assert(start + (rem + i) == address + i);
            }
            i += 1;
        }
        proof {
            assert(data@ =~= mem_bytes(m0, address, len as nat));
        }
        Ok(())
    }
}

/// Write the bytes of `data` to target memory at `address`.
///
/// The range is split into a leading run up to the next 4-byte boundary, a
/// middle run of whole 32-bit words, and a trailing run; the leading and
/// trailing runs go through 8-bit transfers. When `address` is 4-byte aligned
/// and `data.len()` a multiple of 4 only 32-bit writes occur. Any other shape
/// needs 8-bit transfer support, and without it the call fails with
/// `MemoryError::MemoryNotAligned` before anything is written: an unaligned
/// write cannot fall back to widening the range the way `read` does, since
/// that would clobber memory outside the range. An empty buffer returns at
/// once, without touching the transport. On failure part of the range may
/// already have been written, but never a byte outside it.
pub fn write<T: RttInterface>(iface: &mut T, address: u64, data: &Vec<u8>) -> (r: Result<
    (),
    MemoryError,
>)
    requires
        address + data@.len() <= address_space(),
    ensures
        final(iface).supports_8bit() == old(iface).supports_8bit(),
        unchanged_outside(old(iface).mem(), final(iface).mem(), address, data@.len()),
        data@.len() == 0 ==> r is Ok && final(iface).mem() == old(iface).mem(),
        r is Ok ==> holds_bytes(final(iface).mem(), address, data@),
        (address % 4 != 0 || data@.len() % 4 != 0) && data@.len() > 0 && !old(
            iface,
        ).supports_8bit() ==> !(r is Ok),
        r matches Err(e) ==> (e is MemoryNotAligned ==> e == not_aligned(address, 4) && (address
            % 4 != 0 || data@.len() % 4 != 0) && !old(iface).supports_8bit()),
{
    let ghost m0 = iface.mem();
    let len = data.len();
    if len == 0 {
        return Ok(());
    }
    let rem = (address % 4) as usize;
    let lead_to_boundary: usize = if rem == 0 {
        0
    } else {
        4 - rem
    };
    let lead: usize = if lead_to_boundary < len {
        lead_to_boundary
    } else {
        len
    };
    let nwords = (len - lead) / 4;
    let mid = 4 * nwords;
    let tail = len - lead - mid;
    proof {
        assert(lead + mid + tail == len);
        assert(mid <= len - lead);
    }

    if address % 4 != 0 || len % 4 != 0 {
        let supported = match iface.supports_8bit_transfers() {
            Ok(b) => b,
            Err(e) => {
                return Err(e);
            },
        };
        if !supported {
            return Err(MemoryError::MemoryNotAligned { address, alignment: 4 });
        }
        if lead > 0 {
            let lead_buf = copy_range(data, 0, lead);
            match iface.write_8(address, &lead_buf) {
                Ok(u) => u,
                Err(e) => {
                    proof {
                        lemma_unchanged_outside_widen(
                            m0,
                            iface.mem(),
                            address,
                            lead as nat,
                            address,
                            len as nat,
                        );
                    }
                    return Err(e);
                },
            };
        }
    }
    let ghost m1 = iface.mem();
    let ghost lead_seq = data@.subrange(0, lead as int);
    proof {
        assert(holds_bytes(m1, address, lead_seq));
        lemma_unchanged_outside_widen(m0, m1, address, lead as nat, address, len as nat);
    }

    if nwords > 0 {
        let words = words_32_of_range(data, lead, nwords);
        proof {
            assert(lead == lead_to_boundary);
            let q = address / 4;
            assert(address == 4 * q + rem);
            if rem == 0 {
                assert((address + lead) % 4 == 0);
            } else {
                assert(address + lead == 4 * (q + 1));
                assert((address + lead) % 4 == 0);
            }
        }
        let mid_addr = address + lead as u64;
        match iface.write_32(mid_addr, &words) {
            Ok(u) => u,
            Err(e) => {
                proof {
                    lemma_unchanged_outside_widen(
                        m1,
                        iface.mem(),
                        mid_addr,
                        (4 * words@.len()) as nat,
                        address,
                        len as nat,
                    );
                    lemma_unchanged_outside_trans(m0, m1, iface.mem(), address, len as nat);
                }
                return Err(e);
            },
        };
        proof {
            let sub = data@.subrange(lead as int, lead + mid);
            assert forall|i: int| 0 <= i < words@.len() implies #[trigger] words@[i] == le_word_32(
                sub.subrange(4 * i, 4 * i + 4),
            ) by {
                assert(sub.subrange(4 * i, 4 * i + 4) =~= data@.subrange(
                    lead + 4 * i,
                    lead + 4 * i + 4,
                ));
            };
            lemma_holds_words_32_bytes(iface.mem(), mid_addr, words@, sub);
        }
    }
    let ghost m2 = iface.mem();
    let ghost mid_seq = data@.subrange(lead as int, lead + mid);
    proof {
        if mid > 0 {
            assert(holds_bytes(m2, (address + lead) as u64, mid_seq));
            lemma_unchanged_outside_widen(
                m1,
                m2,
                (address + lead) as u64,
                mid as nat,
                address,
                len as nat,
            );
            lemma_unchanged_outside_trans(m0, m1, m2, address, len as nat);
        } else {
            assert(m2 == m1);
        }
        assert(unchanged_outside(m0, m2, address, len as nat));
    }

    if tail > 0 {
        let tail_buf = copy_range(data, lead + mid, len);
        let tail_addr = address + lead as u64 + mid as u64;
        match iface.write_8(tail_addr, &tail_buf) {
            Ok(u) => u,
            Err(e) => {
                proof {
                    lemma_unchanged_outside_widen(
                        m2,
                        iface.mem(),
                        tail_addr,
                        tail as nat,
                        address,
                        len as nat,
                    );
                    lemma_unchanged_outside_trans(m0, m2, iface.mem(), address, len as nat);
                }
                return Err(e);
            },
        };
    }
    let ghost m3 = iface.mem();
    let ghost tail_seq = data@.subrange(lead + mid, len as int);
    proof {
        if tail > 0 {
            assert(holds_bytes(m3, (address + lead + mid) as u64, tail_seq));
            lemma_unchanged_outside_widen(
                m2,
                m3,
                (address + lead + mid) as u64,
                tail as nat,
                address,
                len as nat,
            );
            lemma_unchanged_outside_trans(m0, m2, m3, address, len as nat);
        } else {
            assert(m3 == m2);
        }
        assert(unchanged_outside(m0, m3, address, len as nat));
        assert forall|a: u64| address <= a < address + len implies #[trigger] m3[a] == data@[a
            - address] by {
            let j = a - address;
            if j < lead {
                assert(m1[a] == lead_seq[j]);
                if mid > 0 {
                    assert(m2[a] == m1[a]);
                } else {
                    assert(m2 == m1);
                }
                if tail > 0 {
                    assert(m3[a] == m2[a]);
                } else {
                    assert(m3 == m2);
                }
            } else if j < lead + mid {
                assert(m2[a] == mid_seq[j - lead]);
                if tail > 0 {
                    assert(m3[a] == m2[a]);
                } else {
                    assert(m3 == m2);
                }
            } else {
                assert(m3[a] == tail_seq[j - (lead + mid)]);
            }
        };
    }
    Ok(())
}

/// Round trip: reading back a range that a successful `write` (or any of the
/// width-specific write helpers) has just stored yields exactly the bytes
/// that were written. A successful write ensures `holds_bytes` of the new
/// memory, a successful read returns `mem_bytes` of it, and this law joins
/// the two, for every address and every buffer, whatever their alignment.
pub proof fn lemma_write_read_round_trip(m: Map<u64, u8>, address: u64, data: Seq<u8>)
    requires
        address + data.len() <= address_space(),
        holds_bytes(m, address, data),
    ensures
        mem_bytes(m, address, data.len()) == data,
{
    assert forall|j: int| 0 <= j < data.len() implies mem_bytes(m, address, data.len())[j]
        == data[j] by {
        let a = (address + j) as u64;
        assert(m[a] == data[a - address]);
    };
    assert(mem_bytes(m, address, data.len()) =~= data);
}

} // verus!
