use vstd::prelude::*;

use crate::bytes::{byte_of_word_32, byte_of_word_64, word_32_from_bytes, word_64_from_bytes};
use crate::interface::{
    holds_bytes, lemma_unchanged_outside_trans, lemma_unchanged_outside_widen, mem_bytes,
    unchanged_outside, MemoryError, RttInterface,
};

verus! {

/// A transport backed by local memory: target addresses `0..ram.len()` map
/// to the bytes of `ram`, every other address reads as zero and rejects
/// transfers with `MemoryError::Other`. The capability flags are plain
/// fields, so every combination the bulk operations' width-selection policy
/// distinguishes can be exercised.
pub struct RamTransport {
    /// The bytes of the simulated target memory, address 0 first.
    pub ram: Vec<u8>,
    /// Whether 8-bit transfers are reported as supported.
    pub has_8bit: bool,
    /// Whether native 64-bit access is reported as supported.
    pub has_native_64bit: bool,
    /// The core this accessor reports.
    pub core: usize,
}

impl RttInterface for RamTransport {
    open spec fn mem(&self) -> Map<u64, u8> {
        Map::total(
            |a: u64|
                if a < self.ram@.len() {
                    self.ram@[a as int]
                } else {
                    0u8
                },
        )
    }

    open spec fn supports_8bit(&self) -> bool {
        self.has_8bit
    }

    fn core_id(&self) -> usize {
        self.core
    }

    fn supports_native_64bit_access(&mut self) -> (r: bool) {
        self.has_native_64bit
    }

    fn read_word_64(&mut self, address: u64) -> (r: Result<u64, MemoryError>) {
        if address % 8 != 0 {
            return Err(MemoryError::MemoryNotAligned { address, alignment: 8 });
        }
        let limit = self.ram.len() as u64;
        if address > limit || limit - address < 8 {
            return Err(MemoryError::Other("read_word_64 outside the mapped range".to_owned()));
        }
        let i = address as usize;
        let w = word_64_from_bytes(
            self.ram[i],
            self.ram[i + 1],
            self.ram[i + 2],
            self.ram[i + 3],
            self.ram[i + 4],
            self.ram[i + 5],
            self.ram[i + 6],
            self.ram[i + 7],
        );
        proof {
            assert(mem_bytes(self.mem(), address, 8) =~= seq![
                self.ram@[i as int],
                self.ram@[i + 1],
                self.ram@[i + 2],
                self.ram@[i + 3],
                self.ram@[i + 4],
                self.ram@[i + 5],
                self.ram@[i + 6],
                self.ram@[i + 7],
            ]);
        }
        Ok(w)
    }

    fn read_word_32(&mut self, address: u64) -> (r: Result<u32, MemoryError>) {
        if address % 4 != 0 {
            return Err(MemoryError::MemoryNotAligned { address, alignment: 4 });
        }
        let limit = self.ram.len() as u64;
        if address > limit || limit - address < 4 {
            return Err(MemoryError::Other("read_word_32 outside the mapped range".to_owned()));
        }
        let i = address as usize;
        let w = word_32_from_bytes(self.ram[i], self.ram[i + 1], self.ram[i + 2], self.ram[i + 3]);
        proof {
            assert(mem_bytes(self.mem(), address, 4) =~= seq![
                self.ram@[i as int],
                self.ram@[i + 1],
                self.ram@[i + 2],
                self.ram@[i + 3],
            ]);
        }
        Ok(w)
    }

    fn read_word_8(&mut self, address: u64) -> (r: Result<u8, MemoryError>) {
        let limit = self.ram.len() as u64;
        if address >= limit {
            return Err(MemoryError::Other("read_word_8 outside the mapped range".to_owned()));
        }
        Ok(self.ram[address as usize])
    }

    fn read_64(&mut self, address: u64, data: &mut Vec<u64>) -> (r: Result<(), MemoryError>) {
        if address % 8 != 0 {
            return Err(MemoryError::MemoryNotAligned { address, alignment: 8 });
        }
        let ghost m0 = self.mem();
        let ghost c0 = self.supports_8bit();
        let n = data.len();
        let mut i: usize = 0;
        while i < n
            invariant
                i <= n,
                n == data@.len(),
                n == old(data)@.len(),
                address % 8 == 0,
                address + 8 * n <= crate::interface::address_space(),
                self.mem() == m0,
                self.supports_8bit() == c0,
                m0 == old(self).mem(),
                c0 == old(self).supports_8bit(),
                forall|k: int|
                    0 <= k < i ==> #[trigger] data@[k] == crate::interface::word_64_at(
                        m0,
                        (address + 8 * k) as u64,
                    ),
            decreases n - i,
        {
            let a = address + 8 * (i as u64);
            let w = match self.read_word_64(a) {
                Ok(w) => w,
                Err(e) => {
                    return Err(e);
                },
            };
            data.set(i, w);
            i += 1;
        }
        Ok(())
    }

    fn read_32(&mut self, address: u64, data: &mut Vec<u32>) -> (r: Result<(), MemoryError>) {
        if address % 4 != 0 {
            return Err(MemoryError::MemoryNotAligned { address, alignment: 4 });
        }
        let ghost m0 = self.mem();
        let ghost c0 = self.supports_8bit();
        let n = data.len();
        let mut i: usize = 0;
        while i < n
            invariant
                i <= n,
                n == data@.len(),
                n == old(data)@.len(),
                address % 4 == 0,
                address + 4 * n <= crate::interface::address_space(),
                self.mem() == m0,
                self.supports_8bit() == c0,
                m0 == old(self).mem(),
                c0 == old(self).supports_8bit(),
                forall|k: int|
                    0 <= k < i ==> #[trigger] data@[k] == crate::interface::word_32_at(
                        m0,
                        (address + 4 * k) as u64,
                    ),
            decreases n - i,
        {
            let a = address + 4 * (i as u64);
            let w = match self.read_word_32(a) {
                Ok(w) => w,
                Err(e) => {
                    return Err(e);
                },
            };
            data.set(i, w);
            i += 1;
        }
        Ok(())
    }

    fn read_8(&mut self, address: u64, data: &mut Vec<u8>) -> (r: Result<(), MemoryError>) {
        let ghost m0 = self.mem();
        let ghost c0 = self.supports_8bit();
        let n = data.len();
        let mut i: usize = 0;
        while i < n
            invariant
                i <= n,
                n == data@.len(),
                n == old(data)@.len(),
                address + n <= crate::interface::address_space(),
                self.mem() == m0,
                self.supports_8bit() == c0,
                m0 == old(self).mem(),
                c0 == old(self).supports_8bit(),
                forall|k: int| 0 <= k < i ==> #[trigger] data@[k] == m0[(address + k) as u64],
            decreases n - i,
        {
            let a = address + (i as u64);
            let b = match self.read_word_8(a) {
                Ok(b) => b,
                Err(e) => {
                    return Err(e);
                },
            };
            data.set(i, b);
            i += 1;
        }
        proof {
            assert forall|aa: u64| address <= aa < address + data@.len() implies #[trigger] m0[aa]
                == data@[aa - address] by {
                let k = aa - address;
                assert(data@[k] == m0[(address + k) as u64]);
            };
        }
        Ok(())
    }

    fn write_word_64(&mut self, address: u64, data: u64) -> (r: Result<(), MemoryError>) {
        if address % 8 != 0 {
            return Err(MemoryError::MemoryNotAligned { address, alignment: 8 });
        }
        let limit = self.ram.len() as u64;
        if address > limit || limit - address < 8 {
            return Err(MemoryError::Other("write_word_64 outside the mapped range".to_owned()));
        }
        let ghost m0 = self.mem();
        let i = address as usize;
        self.ram.set(i, byte_of_word_64(data, 0));
        self.ram.set(i + 1, byte_of_word_64(data, 1));
        self.ram.set(i + 2, byte_of_word_64(data, 2));
        self.ram.set(i + 3, byte_of_word_64(data, 3));
        self.ram.set(i + 4, byte_of_word_64(data, 4));
        self.ram.set(i + 5, byte_of_word_64(data, 5));
        self.ram.set(i + 6, byte_of_word_64(data, 6));
        self.ram.set(i + 7, byte_of_word_64(data, 7));
        proof {
            assert forall|a: u64| a < address || address + 8 <= a implies m0[a]
                == #[trigger] self.mem()[a] by {};
            assert forall|a: u64| address <= a < address + 8 implies #[trigger] self.mem()[a]
                == crate::bytes::le_bytes_64(data)[a - address] by {};
        }
        Ok(())
    }

    fn write_word_32(&mut self, address: u64, data: u32) -> (r: Result<(), MemoryError>) {
        if address % 4 != 0 {
            return Err(MemoryError::MemoryNotAligned { address, alignment: 4 });
        }
        let limit = self.ram.len() as u64;
        if address > limit || limit - address < 4 {
            return Err(MemoryError::Other("write_word_32 outside the mapped range".to_owned()));
        }
        let ghost m0 = self.mem();
        let i = address as usize;
        self.ram.set(i, byte_of_word_32(data, 0));
        self.ram.set(i + 1, byte_of_word_32(data, 1));
        self.ram.set(i + 2, byte_of_word_32(data, 2));
        self.ram.set(i + 3, byte_of_word_32(data, 3));
        proof {
            assert forall|a: u64| a < address || address + 4 <= a implies m0[a]
                == #[trigger] self.mem()[a] by {};
            assert forall|a: u64| address <= a < address + 4 implies #[trigger] self.mem()[a]
                == crate::bytes::le_bytes_32(data)[a - address] by {};
        }
        Ok(())
    }

    fn write_word_8(&mut self, address: u64, data: u8) -> (r: Result<(), MemoryError>) {
        let limit = self.ram.len() as u64;
        if address >= limit {
            return Err(MemoryError::Other("write_word_8 outside the mapped range".to_owned()));
        }
        let ghost m0 = self.mem();
        self.ram.set(address as usize, data);
        proof {
            assert forall|a: u64| a < address || address + 1 <= a implies m0[a]
                == #[trigger] self.mem()[a] by {};
        }
        Ok(())
    }

    fn write_64(&mut self, address: u64, data: &Vec<u64>) -> (r: Result<(), MemoryError>) {
        if address % 8 != 0 {
            return Err(MemoryError::MemoryNotAligned { address, alignment: 8 });
        }
        let ghost m0 = self.mem();
        let ghost c0 = self.supports_8bit();
        let n = data.len();
        let mut i: usize = 0;
        while i < n
            invariant
                i <= n,
                n == data@.len(),
                address % 8 == 0,
                address + 8 * n <= crate::interface::address_space(),
                self.supports_8bit() == c0,
                m0 == old(self).mem(),
                c0 == old(self).supports_8bit(),
                unchanged_outside(m0, self.mem(), address, (8 * i) as nat),
                forall|k: int|
                    0 <= k < i ==> holds_bytes(
                        self.mem(),
                        (address + 8 * k) as u64,
                        #[trigger] crate::bytes::le_bytes_64(data@[k]),
                    ),
            decreases n - i,
        {
            let a = address + 8 * (i as u64);
            let ghost mp = self.mem();
            match self.write_word_64(a, data[i]) {
                Ok(u) => u,
                Err(e) => {
                    proof {
                        lemma_unchanged_outside_widen(
                            mp,
                            self.mem(),
                            a,
                            8,
                            address,
                            (8 * n) as nat,
                        );
                        lemma_unchanged_outside_widen(
                            m0,
                            mp,
                            address,
                            (8 * i) as nat,
                            address,
                            (8 * n) as nat,
                        );
                        lemma_unchanged_outside_trans(m0, mp, self.mem(), address, (8 * n) as nat);
                    }
                    return Err(e);
                },
            };
            proof {
                lemma_unchanged_outside_widen(mp, self.mem(), a, 8, address, (8 * (i + 1)) as nat);
                lemma_unchanged_outside_widen(
                    m0,
                    mp,
                    address,
                    (8 * i) as nat,
                    address,
                    (8 * (i + 1)) as nat,
                );
                lemma_unchanged_outside_trans(m0, mp, self.mem(), address, (8 * (i + 1)) as nat);
                assert forall|k: int| 0 <= k < i + 1 implies holds_bytes(
                    self.mem(),
                    (address + 8 * k) as u64,
                    #[trigger] crate::bytes::le_bytes_64(data@[k]),
                ) by {
                    let base = (address + 8 * k) as u64;
                    let bs = crate::bytes::le_bytes_64(data@[k]);
                    if k < i {
                        assert forall|aa: u64| base <= aa < base + bs.len() implies
                            #[trigger] self.mem()[aa] == bs[aa - base] by {
                            assert(mp[aa] == bs[aa - base]);
                            assert(self.mem()[aa] == mp[aa]);
                        };
                    }
                };
            }
            i += 1;
        }
        proof {
            lemma_unchanged_outside_widen(
                m0,
                self.mem(),
                address,
                (8 * n) as nat,
                address,
                (8 * data@.len()) as nat,
            );
        }
        Ok(())
    }

    fn write_32(&mut self, address: u64, data: &Vec<u32>) -> (r: Result<(), MemoryError>) {
        if address % 4 != 0 {
            return Err(MemoryError::MemoryNotAligned { address, alignment: 4 });
        }
        let ghost m0 = self.mem();
        let ghost c0 = self.supports_8bit();
        let n = data.len();
        let mut i: usize = 0;
        while i < n
            invariant
                i <= n,
                n == data@.len(),
                address % 4 == 0,
                address + 4 * n <= crate::interface::address_space(),
                self.supports_8bit() == c0,
                m0 == old(self).mem(),
                c0 == old(self).supports_8bit(),
                unchanged_outside(m0, self.mem(), address, (4 * i) as nat),
                forall|k: int|
                    0 <= k < i ==> holds_bytes(
                        self.mem(),
                        (address + 4 * k) as u64,
                        #[trigger] crate::bytes::le_bytes_32(data@[k]),
                    ),
            decreases n - i,
        {
            let a = address + 4 * (i as u64);
            let ghost mp = self.mem();
            match self.write_word_32(a, data[i]) {
                Ok(u) => u,
                Err(e) => {
                    proof {
                        lemma_unchanged_outside_widen(
                            mp,
                            self.mem(),
                            a,
                            4,
                            address,
                            (4 * n) as nat,
                        );
                        lemma_unchanged_outside_widen(
                            m0,
                            mp,
                            address,
                            (4 * i) as nat,
                            address,
                            (4 * n) as nat,
                        );
                        lemma_unchanged_outside_trans(m0, mp, self.mem(), address, (4 * n) as nat);
                    }
                    return Err(e);
                },
            };
            proof {
                lemma_unchanged_outside_widen(mp, self.mem(), a, 4, address, (4 * (i + 1)) as nat);
                lemma_unchanged_outside_widen(
                    m0,
                    mp,
                    address,
                    (4 * i) as nat,
                    address,
                    (4 * (i + 1)) as nat,
                );
                lemma_unchanged_outside_trans(m0, mp, self.mem(), address, (4 * (i + 1)) as nat);
                assert forall|k: int| 0 <= k < i + 1 implies holds_bytes(
                    self.mem(),
                    (address + 4 * k) as u64,
                    #[trigger] crate::bytes::le_bytes_32(data@[k]),
                ) by {
                    let base = (address + 4 * k) as u64;
                    let bs = crate::bytes::le_bytes_32(data@[k]);
                    if k < i {
                        assert forall|aa: u64| base <= aa < base + bs.len() implies
                            #[trigger] self.mem()[aa] == bs[aa - base] by {
                            assert(mp[aa] == bs[aa - base]);
                            assert(self.mem()[aa] == mp[aa]);
                        };
                    }
                };
            }
            i += 1;
        }
        proof {
            lemma_unchanged_outside_widen(
                m0,
                self.mem(),
                address,
                (4 * n) as nat,
                address,
                (4 * data@.len()) as nat,
            );
        }
        Ok(())
    }

    fn write_8(&mut self, address: u64, data: &Vec<u8>) -> (r: Result<(), MemoryError>) {
        let ghost m0 = self.mem();
        let ghost c0 = self.supports_8bit();
        let n = data.len();
        let mut i: usize = 0;
        while i < n
            invariant
                i <= n,
                n == data@.len(),
                address + n <= crate::interface::address_space(),
                self.supports_8bit() == c0,
                m0 == old(self).mem(),
                c0 == old(self).supports_8bit(),
                unchanged_outside(m0, self.mem(), address, i as nat),
                forall|k: int| 0 <= k < i ==> #[trigger] self.mem()[(address + k) as u64]
                    == data@[k],
            decreases n - i,
        {
            let a = address + (i as u64);
            let ghost mp = self.mem();
            match self.write_word_8(a, data[i]) {
                Ok(u) => u,
                Err(e) => {
                    proof {
                        lemma_unchanged_outside_widen(mp, self.mem(), a, 1, address, n as nat);
                        lemma_unchanged_outside_widen(
                            m0,
                            mp,
                            address,
                            i as nat,
                            address,
                            n as nat,
                        );
                        lemma_unchanged_outside_trans(m0, mp, self.mem(), address, n as nat);
                    }
                    return Err(e);
                },
            };
            proof {
                lemma_unchanged_outside_widen(mp, self.mem(), a, 1, address, (i + 1) as nat);
                lemma_unchanged_outside_widen(m0, mp, address, i as nat, address, (i + 1) as nat);
                lemma_unchanged_outside_trans(m0, mp, self.mem(), address, (i + 1) as nat);
                assert forall|k: int| 0 <= k < i + 1 implies #[trigger] self.mem()[(address
                    + k) as u64] == data@[k] by {
                    if k < i {
                        assert(self.mem()[(address + k) as u64] == mp[(address + k) as u64]);
                    }
                };
            }
            i += 1;
        }
        proof {
            assert forall|aa: u64| address <= aa < address + data@.len() implies
                #[trigger] self.mem()[aa] == data@[aa - address] by {
                let k = aa - address;
                assert(self.mem()[(address + k) as u64] == data@[k]);
            };
        }
        Ok(())
    }

    fn supports_8bit_transfers(&self) -> (r: Result<bool, MemoryError>) {
        Ok(self.has_8bit)
    }

    fn flush(&mut self) -> (r: Result<(), MemoryError>) {
        Ok(())
    }
}

} // verus!
