//! The allocation table: the on-disk array mapping each cluster to its
//! successor, or to an end-of-chain, bad-cluster or free marker. It is
//! decoded once, at open time, from the first table copy on the disk,
//! and never mutated afterwards.

use vstd::prelude::*;

use crate::bytes::{le16, le32, read_le_u16, read_le_u32};
use crate::fs::{FatError, FatType};

verus! {

/// What one table entry says about a cluster: the next cluster of the
/// chain, or a terminal classification.
#[derive(Debug, Copy, Clone, PartialEq, Eq, Structural)]
pub enum ClusterLink {
    /// The cluster is unallocated (entry value 0).
    Free,
    /// The chain continues at this cluster.
    Next(u32),
    /// The cluster is the last one of its chain.
    EndOfChain,
    /// The cluster is marked unusable.
    Bad,
}

/// How many entries a table region of `len` bytes decodes to: two entries
/// per aligned three-byte group, one per two bytes, or one per four bytes.
pub open spec fn spec_entry_count(ft: FatType, len: int) -> int {
    match ft {
        FatType::Fat12 => 2 * (len / 3),
        FatType::Fat16 => len / 2,
        FatType::Fat32 => len / 4,
    }
}

/// The value of entry `i` of a table region `r`, by variant: 12-bit entries
/// are packed two to three bytes (nibbles split on the middle byte), 16-bit
/// entries are plain little-endian words, 32-bit entries are little-endian
/// double words masked to their low 28 bits.
pub open spec fn spec_fat_entry(ft: FatType, r: Seq<u8>, i: int) -> u32 {
    match ft {
        FatType::Fat12 => if i % 2 == 0 {
            (r[3 * (i / 2)] as u32) | (((r[3 * (i / 2) + 1] as u32) & 0x0F) << 8)
        } else {
            ((r[3 * (i / 2) + 1] as u32) >> 4) | ((r[3 * (i / 2) + 2] as u32) << 4)
        },
        FatType::Fat16 => le16(r, 2 * i) as u32,
        FatType::Fat32 => (le32(r, 4 * i) as u32) & 0x0FFF_FFFF,
    }
}

/// All entries of a table region, in order.
pub open spec fn spec_fat_entries(ft: FatType, r: Seq<u8>) -> Seq<u32> {
    Seq::new(spec_entry_count(ft, r.len() as int) as nat, |i: int| spec_fat_entry(ft, r, i))
}

/// The least entry value that marks the end of a chain.
pub open spec fn spec_eoc_threshold(ft: FatType) -> u32 {
    match ft {
        FatType::Fat12 => 0xFF8,
        FatType::Fat16 => 0xFFF8,
        FatType::Fat32 => 0x0FFF_FFF8,
    }
}

/// The entry value that marks a bad cluster.
pub open spec fn spec_bad_value(ft: FatType) -> u32 {
    match ft {
        FatType::Fat12 => 0xFF7,
        FatType::Fat16 => 0xFFF7,
        FatType::Fat32 => 0x0FFF_FFF7,
    }
}

/// The classification of an entry value: 0 is free, the reserved bad-cluster
/// value is bad, values at or above the variant's threshold end the chain,
/// and anything else is the next cluster.
pub open spec fn spec_classify(ft: FatType, v: u32) -> ClusterLink {
    if v == 0 {
        ClusterLink::Free
    } else if v == spec_bad_value(ft) {
        ClusterLink::Bad
    } else if v >= spec_eoc_threshold(ft) {
        ClusterLink::EndOfChain
    } else {
        ClusterLink::Next(v)
    }
}

/// The decoded allocation table: one `u32` per cluster, indexed by cluster
/// number, read once from the first on-disk table copy.
#[derive(Debug)]
pub struct FatTable {
    pub fat_type: FatType,
    pub entries: Vec<u32>,
}

impl FatTable {
    /// Decodes a whole table region according to the variant's bit packing.
    pub fn from_bytes(region: &[u8], ft: FatType) -> (t: FatTable)
        ensures
            t.fat_type == ft,
            t.entries@ == spec_fat_entries(ft, region@),
    {
        let len = region.len();
        let mut entries: Vec<u32> = Vec::new();
        match ft {
            FatType::Fat12 => {
                let n = len / 3;
                let mut k: usize = 0;
                while k < n
                    invariant
                        k <= n,
                        n == len / 3,
                        len == region@.len(),
                        entries@.len() == 2 * k,
                        forall|j: int| 0 <= j < 2 * k ==> entries@[j] == spec_fat_entry(ft, region@, j),
                        ft == FatType::Fat12,
                    decreases n - k,
                {
                    let b0 = region[3 * k];
                    let b1 = region[3 * k + 1];
                    let b2 = region[3 * k + 2];
                    let even = (b0 as u32) | (((b1 as u32) & 0x0F) << 8u32);
                    let odd = ((b1 as u32) >> 4u32) | ((b2 as u32) << 4u32);
                    assert((2 * k as int) % 2 == 0 && (2 * k as int) / 2 == k as int);
                    assert((2 * k as int + 1) % 2 == 1 && (2 * k as int + 1) / 2 == k as int);
                    entries.push(even);
                    entries.push(odd);
                    k = k + 1;
                }
            },
            FatType::Fat16 => {
                let n = len / 2;
                let mut i: usize = 0;
                while i < n
                    invariant
                        i <= n,
                        n == len / 2,
                        len == region@.len(),
                        entries@.len() == i,
                        forall|j: int| 0 <= j < i ==> entries@[j] == spec_fat_entry(ft, region@, j),
                        ft == FatType::Fat16,
                    decreases n - i,
                {
                    let v = read_le_u16(region, 2 * i);
                    entries.push(v as u32);
                    i = i + 1;
                }
            },
            FatType::Fat32 => {
                let n = len / 4;
                let mut i: usize = 0;
                while i < n
                    invariant
                        i <= n,
                        n == len / 4,
                        len == region@.len(),
                        entries@.len() == i,
                        forall|j: int| 0 <= j < i ==> entries@[j] == spec_fat_entry(ft, region@, j),
                        ft == FatType::Fat32,
                    decreases n - i,
                {
                    let v = read_le_u32(region, 4 * i);
                    entries.push(v & 0x0FFF_FFFF);
                    i = i + 1;
                }
            },
        }
        let t = FatTable { fat_type: ft, entries };
        assert(t.entries@ =~= spec_fat_entries(ft, region@));
        t
    }

    /// The next-cluster lookup: the classification of the entry for
    /// `cluster`, or a corruption error when the cluster lies outside the
    /// decoded table.
    pub fn lookup(&self, cluster: u32) -> (r: Result<ClusterLink, FatError>)
        ensures
            cluster as int >= self.entries@.len() ==> r == Err::<ClusterLink, FatError>(FatError::Corrupted),
            (cluster as int) < self.entries@.len() ==> r == Ok::<ClusterLink, FatError>(
                spec_classify(self.fat_type, self.entries@[cluster as int]),
            ),
    {
        if cluster as usize >= self.entries.len() {
            return Err(FatError::Corrupted);
        }
        let v = self.entries[cluster as usize];
        let bad: u32 = match self.fat_type {
            FatType::Fat12 => 0xFF7,
            FatType::Fat16 => 0xFFF7,
            FatType::Fat32 => 0x0FFF_FFF7,
        };
        let eoc: u32 = match self.fat_type {
            FatType::Fat12 => 0xFF8,
            FatType::Fat16 => 0xFFF8,
            FatType::Fat32 => 0x0FFF_FFF8,
        };
        if v == 0 {
            Ok(ClusterLink::Free)
        } else if v == bad {
            Ok(ClusterLink::Bad)
        } else if v >= eoc {
            Ok(ClusterLink::EndOfChain)
        } else {
            Ok(ClusterLink::Next(v))
        }
    }
}

/// Law: twelve-bit decoding is a byte-level round trip. The two entries
/// decoded from one aligned three-byte group (an even index `i` and its odd
/// neighbour `i + 1`) carry exactly the nibble-interleaved contents of those
/// three bytes, so the bytes can be reconstructed from the entries.
pub proof fn lemma_fat12_pack_round_trip(r: Seq<u8>, i: int)
    requires
        0 <= i,
        i % 2 == 0,
        3 * (i / 2) + 3 <= r.len(),
    ensures
        ({
            let e = spec_fat_entry(FatType::Fat12, r, i);
            let o = spec_fat_entry(FatType::Fat12, r, i + 1);
            &&& (e & 0xFF) == r[3 * (i / 2)]
            &&& ((e >> 8u32) | ((o & 0x0F) << 4u32)) == r[3 * (i / 2) + 1]
            &&& (o >> 4u32) == r[3 * (i / 2) + 2]
        }),
{
    let b0 = r[3 * (i / 2)];
    let b1 = r[3 * (i / 2) + 1];
    let b2 = r[3 * (i / 2) + 2];
    assert((i + 1) % 2 == 1 && (i + 1) / 2 == i / 2);
    let e = spec_fat_entry(FatType::Fat12, r, i);
    let o = spec_fat_entry(FatType::Fat12, r, i + 1);
    assert(e == (b0 as u32) | (((b1 as u32) & 0x0F) << 8u32));
    assert(o == ((b1 as u32) >> 4u32) | ((b2 as u32) << 4u32));
    assert({
        let e = (b0 as u32) | (((b1 as u32) & 0x0F) << 8u32);
        let o = ((b1 as u32) >> 4u32) | ((b2 as u32) << 4u32);
        &&& (e & 0xFF) == b0
        &&& ((e >> 8u32) | ((o & 0x0F) << 4u32)) == b1
        &&& (o >> 4u32) == b2
    }) by (bit_vector);
}

} // verus!
