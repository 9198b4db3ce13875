//! The cluster-chain file reader: walks the allocation table from a
//! starting cluster and presents the chain's concatenated bytes as one
//! sequential stream, optionally capped by a declared file length.

use vstd::prelude::*;

use crate::fs::{min_int, spec_clamp_read, FatError, FatFileSystem};
use crate::slice::SeekFrom;
use crate::table::{spec_classify, ClusterLink, FatTable};

verus! {

/// The reader's whole state: where the chain starts, the declared length
/// cap (files have one, directories none), the cluster the cursor is in
/// (`None` once the end of the chain was passed), and how many bytes were
/// produced so far.
#[derive(Debug)]
pub struct FatFile {
    pub first_cluster: u32,
    pub size: Option<u32>,
    pub current_cluster: Option<u32>,
    pub offset: u64,
}

/// Whether the declared length cap has been reached.
pub open spec fn at_size_cap(f: FatFile) -> bool {
    match f.size {
        Some(s) => f.offset >= s,
        None => false,
    }
}

/// How many bytes the next read may yield before clamping to the image:
/// no more than the caller asked, than the current cluster still holds, or
/// than the declared length still allows.
pub open spec fn spec_want(f: FatFile, cs: int, max: int) -> int {
    let capped = min_int(max, cs - f.offset as int % cs);
    match f.size {
        Some(s) => min_int(capped, s - f.offset),
        None => capped,
    }
}

/// Whether cluster `c` lies fully inside the image, so that reads of it
/// yield whole clusters rather than stopping short.
pub open spec fn cluster_on_disk(fs: FatFileSystem, c: u32) -> bool {
    fs.spec_offset_from_cluster(c as int) + fs.boot.bpb.spec_cluster_size() <= fs.disk@.len()
}

/// The cluster the chain continues at after `c`, or `None` when the link
/// is anything a sequential reader stops at: the end of the chain, a bad,
/// free or out-of-table link.
pub open spec fn chain_next(fs: FatFileSystem, c: u32) -> Option<u32> {
    if c as int >= fs.table.entries@.len() {
        None
    } else {
        match spec_classify(fs.fat_type, fs.table.entries@[c as int]) {
            ClusterLink::Next(n) => Some(n),
            _ => None,
        }
    }
}

/// The bytes of cluster `c` from position `within` to the cluster's end.
pub open spec fn cluster_tail(fs: FatFileSystem, c: u32, within: int) -> Seq<u8> {
    fs.disk@.subrange(
        fs.spec_offset_from_cluster(c as int) + within,
        fs.spec_offset_from_cluster(c as int) + fs.boot.bpb.spec_cluster_size(),
    )
}

/// The byte stream before a chain cursor, for up to `fuel` clusters: the
/// rest of the current cluster, then each following cluster whole, ending
/// where the walk ends. A cluster below 2 cannot be addressed at all and
/// contributes nothing.
pub open spec fn chain_rest(fs: FatFileSystem, oc: Option<u32>, within: int, fuel: nat) -> Seq<u8>
    decreases fuel,
{
    if fuel == 0 {
        Seq::empty()
    } else {
        match oc {
            None => Seq::empty(),
            Some(c) => if c < 2 {
                Seq::empty()
            } else {
                cluster_tail(fs, c, within) + chain_rest(fs, chain_next(fs, c), 0, (fuel - 1) as nat)
            },
        }
    }
}

/// Whether the walk from the cursor ends cleanly within `fuel` clusters:
/// every cluster met is a real, on-image cluster inside the table, and the
/// last link is the end-of-chain mark.
pub open spec fn chain_clean(fs: FatFileSystem, oc: Option<u32>, fuel: nat) -> bool
    decreases fuel,
{
    match oc {
        None => true,
        Some(c) => fuel > 0 && 2 <= c && (c as int) < fs.table.entries@.len()
            && cluster_on_disk(fs, c)
            && match spec_classify(fs.fat_type, fs.table.entries@[c as int]) {
                ClusterLink::Next(n) => chain_clean(fs, Some(n), (fuel - 1) as nat),
                ClusterLink::EndOfChain => true,
                _ => false,
            },
    }
}

/// Whether the walk from the cursor runs, within `fuel` clusters and
/// without leaving the image, into a link a reader must refuse: a cluster
/// below 2, one outside the table, or a bad or free mark.
pub open spec fn chain_corrupt(fs: FatFileSystem, oc: Option<u32>, fuel: nat) -> bool
    decreases fuel,
{
    match oc {
        None => false,
        Some(c) => fuel > 0 && (c < 2 || (cluster_on_disk(fs, c) && (
            (c as int) >= fs.table.entries@.len()
            || match spec_classify(fs.fat_type, fs.table.entries@[c as int]) {
                ClusterLink::Next(n) => chain_corrupt(fs, Some(n), (fuel - 1) as nat),
                ClusterLink::EndOfChain => false,
                _ => true,
            }
        ))),
    }
}

/// The fuel that bounds every finite walk: a walk of more clusters than
/// the table holds must revisit one and never ends.
pub open spec fn chain_fuel(fs: FatFileSystem) -> nat {
    (fs.table.entries@.len() + 1) as nat
}

/// The byte stream still before a chain reader's cursor.
pub open spec fn file_rest(fs: FatFileSystem, f: FatFile) -> Seq<u8> {
    chain_rest(
        fs,
        f.current_cluster,
        f.offset as int % fs.boot.bpb.spec_cluster_size(),
        chain_fuel(fs),
    )
}

/// A chain reader in a state its contracts pin down completely: no length
/// cap (directories have none), a cleanly ending walk before it, and a
/// cursor far enough from the offset limit.
pub open spec fn file_walk_clean(fs: FatFileSystem, f: FatFile) -> bool {
    &&& f.size is None
    &&& chain_clean(fs, f.current_cluster, chain_fuel(fs))
    &&& f.offset + file_rest(fs, f).len() + fs.boot.bpb.spec_cluster_size() <= u64::MAX
}

/// The corrupt counterpart: no length cap, a walk that runs into a refused
/// link, and a cursor far enough from the offset limit.
pub open spec fn file_walk_corrupt(fs: FatFileSystem, f: FatFile) -> bool {
    &&& f.size is None
    &&& chain_corrupt(fs, f.current_cluster, chain_fuel(fs))
    &&& f.offset + file_rest(fs, f).len() + fs.boot.bpb.spec_cluster_size() <= u64::MAX
}

/// A walk ends cleanly or at a refused link, never both.
pub proof fn lemma_chain_clean_not_corrupt(fs: FatFileSystem, oc: Option<u32>, fuel: nat)
    requires
        chain_clean(fs, oc, fuel),
    ensures
        !chain_corrupt(fs, oc, fuel),
    decreases fuel,
{
    match oc {
        None => {},
        Some(c) => {
            if fuel > 0 && c >= 2 && (c as int) < fs.table.entries@.len() {
                match spec_classify(fs.fat_type, fs.table.entries@[c as int]) {
                    ClusterLink::Next(n) => {
                        lemma_chain_clean_not_corrupt(fs, Some(n), (fuel - 1) as nat);
                    },
                    _ => {},
                }
            }
        },
    }
}

/// A cluster's size is at least one byte on any well-formed filesystem.
pub proof fn lemma_cs_pos(fs: FatFileSystem)
    requires
        fs.wf(),
    ensures
        fs.boot.bpb.spec_cluster_size() >= 1,
{
    assert(fs.boot.bpb.sectors_per_cluster as int * fs.boot.bpb.bytes_per_sector as int >= 1)
        by (nonlinear_arith)
        requires
            fs.boot.bpb.sectors_per_cluster as int >= 1,
            fs.boot.bpb.bytes_per_sector as int >= 1,
    ;
}

/// The byte position of a real cluster is never negative.
pub proof fn lemma_cluster_pos_nonneg(fs: FatFileSystem, c: u32)
    requires
        c >= 2,
    ensures
        fs.spec_offset_from_cluster(c as int) >= 0,
{
    let pos = fs.spec_offset_from_cluster(c as int);
    assert(pos >= 0) by (nonlinear_arith)
        requires
            pos == ((c - 2) * fs.boot.bpb.sectors_per_cluster as int
                + fs.first_data_sector as int) * fs.boot.bpb.bytes_per_sector as int,
            c >= 2,
            fs.boot.bpb.sectors_per_cluster as int >= 0,
            fs.first_data_sector as int >= 0,
            fs.boot.bpb.bytes_per_sector as int >= 0,
    ;
}

/// A walk that ends (cleanly or at a refused link) within `f1` clusters
/// ends the same way with any more fuel, and the bytes before the cursor
/// do not change: the extra fuel is never consumed.
pub proof fn lemma_chain_fuel_grows(fs: FatFileSystem, oc: Option<u32>, w: int, f1: nat, f2: nat)
    requires
        f1 <= f2,
        chain_clean(fs, oc, f1) || chain_corrupt(fs, oc, f1),
    ensures
        chain_clean(fs, oc, f1) ==> chain_clean(fs, oc, f2),
        chain_corrupt(fs, oc, f1) ==> chain_corrupt(fs, oc, f2),
        chain_rest(fs, oc, w, f2) == chain_rest(fs, oc, w, f1),
    decreases f1,
{
    match oc {
        None => {},
        Some(c) => {
            if c < 2 {
            } else {
                let nx = chain_next(fs, c);
                match nx {
                    Some(n) => {
                        lemma_chain_fuel_grows(fs, Some(n), 0, (f1 - 1) as nat, (f2 - 1) as nat);
                    },
                    None => {
                        assert(chain_rest(fs, nx, 0, (f1 - 1) as nat)
                            == chain_rest(fs, nx, 0, (f2 - 1) as nat));
                    },
                }
                assert(chain_rest(fs, oc, w, f1)
                    == cluster_tail(fs, c, w) + chain_rest(fs, nx, 0, (f1 - 1) as nat));
                assert(chain_rest(fs, oc, w, f2)
                    == cluster_tail(fs, c, w) + chain_rest(fs, nx, 0, (f2 - 1) as nat));
            }
        },
    }
}

/// A walk of `fuel` clusters carries at most `fuel` whole clusters of
/// bytes.
pub proof fn lemma_chain_rest_len(fs: FatFileSystem, oc: Option<u32>, w: int, fuel: nat)
    requires
        chain_clean(fs, oc, fuel) || chain_corrupt(fs, oc, fuel),
        0 <= w <= fs.boot.bpb.spec_cluster_size(),
    ensures
        chain_rest(fs, oc, w, fuel).len() <= fuel * fs.boot.bpb.spec_cluster_size(),
    decreases fuel,
{
    let cs = fs.boot.bpb.spec_cluster_size();
    assert(fuel as int * cs >= 0) by (nonlinear_arith)
        requires
            fuel as int >= 0,
            cs >= 0,
    ;
    match oc {
        None => {},
        Some(c) => {
            if c >= 2 && fuel > 0 && cluster_on_disk(fs, c) {
                let pos = fs.spec_offset_from_cluster(c as int);
                assert(pos >= 0) by (nonlinear_arith)
                    requires
                        pos == ((c - 2) * fs.boot.bpb.sectors_per_cluster as int
                            + fs.first_data_sector as int) * fs.boot.bpb.bytes_per_sector as int,
                        c >= 2,
                        fs.boot.bpb.sectors_per_cluster as int >= 0,
                        fs.first_data_sector as int >= 0,
                        fs.boot.bpb.bytes_per_sector as int >= 0,
                ;
                assert(cluster_tail(fs, c, w).len() == cs - w);
                let nx = chain_next(fs, c);
                match nx {
                    Some(n) => {
                        lemma_chain_rest_len(fs, Some(n), 0, (fuel - 1) as nat);
                    },
                    None => {
                        lemma_chain_rest_len(fs, None, 0, (fuel - 1) as nat);
                    },
                }
                assert((fuel - 1) as nat * cs + cs == fuel as int * cs) by (nonlinear_arith)
                    requires
                        fuel >= 1,
                ;
            }
        },
    }
}

/// Where `steps` links from cluster `c` lead: the cluster reached, `None`
/// when the chain ends first, or a corruption error on a bad or free
/// cluster or one outside the table.
pub open spec fn spec_walk(t: FatTable, c: u32, steps: nat) -> Result<Option<u32>, FatError>
    decreases steps,
{
    if steps == 0 {
        Ok(Some(c))
    } else if c as int >= t.entries@.len() {
        Err(FatError::Corrupted)
    } else {
        match spec_classify(t.fat_type, t.entries@[c as int]) {
            ClusterLink::Next(n) => spec_walk(t, n, (steps - 1) as nat),
            ClusterLink::EndOfChain => Ok(None),
            _ => Err(FatError::Corrupted),
        }
    }
}

impl FatFile {
    /// A reader at the start of the chain beginning at `first_cluster`,
    /// with `size` as the declared length for ordinary files and `None`
    /// for directories.
    pub fn new(first_cluster: u32, size: Option<u32>) -> (f: FatFile)
        ensures
            f.first_cluster == first_cluster,
            f.size == size,
            f.current_cluster == Some(first_cluster),
            f.offset == 0,
    {
        FatFile { first_cluster, size, current_cluster: Some(first_cluster), offset: 0 }
    }

    /// Reads up to `max` bytes at the cursor, never past the end of the
    /// current cluster. Past the end of the chain, or at the declared
    /// length, reads yield no bytes and no error. When the read exhausts
    /// the current cluster the table is consulted: the chain advances, or
    /// ends, or the read fails on a bad, free or out-of-table cluster.
    pub fn read(&mut self, fs: &FatFileSystem, max: usize) -> (r: Result<Vec<u8>, FatError>)
        requires
            fs.wf(),
        ensures
            final(self).first_cluster == old(self).first_cluster,
            final(self).size == old(self).size,
            (old(self).current_cluster is None || at_size_cap(*old(self))) ==> (
                r matches Ok(v) && v@ == Seq::<u8>::empty() && *final(self) == *old(self)
            ),
            (old(self).current_cluster matches Some(c) && !at_size_cap(*old(self)) && c < 2) ==> (
                r == Err::<Vec<u8>, FatError>(FatError::Corrupted) && *final(self) == *old(self)
            ),
            (old(self).current_cluster matches Some(c) && !at_size_cap(*old(self)) && c >= 2
                && old(self).offset + fs.boot.bpb.spec_cluster_size() > u64::MAX) ==> (
                r == Err::<Vec<u8>, FatError>(FatError::Corrupted) && *final(self) == *old(self)
            ),
            (old(self).current_cluster is Some && !at_size_cap(*old(self))
                && old(self).current_cluster.unwrap() >= 2
                && old(self).offset + fs.boot.bpb.spec_cluster_size() <= u64::MAX) ==> ({
                let c = old(self).current_cluster.unwrap();
                let cs = fs.boot.bpb.spec_cluster_size();
                let pos = fs.spec_offset_from_cluster(c as int) + old(self).offset as int % cs;
                let want = spec_want(*old(self), cs, max as int);
                let actual = spec_clamp_read(fs.disk@.len() as int, pos, want);
                let new_off = old(self).offset + actual;
                &&& (r matches Ok(v) ==> v@.len() == actual && final(self).offset == new_off
                    && (pos <= fs.disk@.len() ==> v@ == fs.disk@.subrange(pos, pos + actual)))
                &&& (r matches Err(_) ==> *final(self) == *old(self))
                &&& (if new_off % cs == 0 && actual > 0 {
                    if (c as int) < fs.table.entries@.len() {
                        match spec_classify(fs.fat_type, fs.table.entries@[c as int]) {
                            ClusterLink::Next(n) => (if n >= 2 {
                                r matches Ok(_) && final(self).current_cluster == Some(n)
                            } else {
                                r == Err::<Vec<u8>, FatError>(FatError::Corrupted)
                            }),
                            ClusterLink::EndOfChain => (r matches Ok(_)
                                && final(self).current_cluster == None::<u32>),
                            _ => r == Err::<Vec<u8>, FatError>(FatError::Corrupted),
                        }
                    } else {
                        r == Err::<Vec<u8>, FatError>(FatError::Corrupted)
                    }
                } else {
                    r matches Ok(_) && final(self).current_cluster == old(self).current_cluster
                })
            }),
    {
        let c: u32 = match self.current_cluster {
            None => {
                return Ok(Vec::new());
            },
            Some(c) => c,
        };
        match self.size {
            Some(s) => {
                if self.offset >= s as u64 {
                    return Ok(Vec::new());
                }
            },
            None => {},
        }
        if c < 2 {
            return Err(FatError::Corrupted);
        }
        let cs: u64 = fs.get_cluster_size() as u64;
        assert(cs >= 1) by (nonlinear_arith)
            requires
                cs == fs.boot.bpb.sectors_per_cluster as u64 * fs.boot.bpb.bytes_per_sector as u64,
                fs.boot.bpb.sectors_per_cluster >= 1,
                fs.boot.bpb.bytes_per_sector >= 1,
        ;
        if self.offset > u64::MAX - cs {
            return Err(FatError::Corrupted);
        }
        let within: u64 = self.offset % cs;
        let cluster_rem: u64 = cs - within;
        let mut want: u64 = if (max as u64) < cluster_rem {
            max as u64
        } else {
            cluster_rem
        };
        match self.size {
            Some(s) => {
                let file_rem: u64 = s as u64 - self.offset;
                if file_rem < want {
                    want = file_rem;
                }
            },
            None => {},
        }
        let pos: u64 = fs.offset_from_cluster(c) + within;
        let v = fs.read_at(pos, want);
        let actual: u64 = v.len() as u64;
        self.offset = self.offset + actual;
        if self.offset % cs == 0 && actual > 0 {
            match fs.table.lookup(c) {
                Err(e) => {
                    self.offset = self.offset - actual;
                    return Err(e);
                },
                Ok(ClusterLink::Next(n)) => {
                    if n < 2 {
                        self.offset = self.offset - actual;
                        return Err(FatError::Corrupted);
                    }
                    self.current_cluster = Some(n);
                },
                Ok(ClusterLink::EndOfChain) => {
                    self.current_cluster = None;
                },
                Ok(_) => {
                    self.offset = self.offset - actual;
                    return Err(FatError::Corrupted);
                },
            }
        }
        Ok(v)
    }

    /// Moves the cursor to an absolute byte offset by walking the chain
    /// from its start, one table lookup per whole cluster skipped. An
    /// end-relative seek needs a declared length; a negative target, or one
    /// past a declared length, is an input error. A target past the end of
    /// the chain parks the cursor there, where reads yield nothing.
    pub fn seek(&mut self, fs: &FatFileSystem, pos: SeekFrom) -> (r: Result<u64, FatError>)
        requires
            fs.wf(),
        ensures
            final(self).first_cluster == old(self).first_cluster,
            final(self).size == old(self).size,
            (pos matches SeekFrom::End(_) && old(self).size is None) ==> (
                r == Err::<u64, FatError>(FatError::InvalidSeek) && *final(self) == *old(self)
            ),
            !(pos matches SeekFrom::End(_) && old(self).size is None) ==> ({
                let target: int = match pos {
                    SeekFrom::Start(x) => x as int,
                    SeekFrom::Current(x) => old(self).offset + x,
                    SeekFrom::End(x) => old(self).size.unwrap() + x,
                };
                if target < 0 || (old(self).size is Some && target > old(self).size.unwrap())
                    || target > u64::MAX {
                    &&& r == Err::<u64, FatError>(FatError::InvalidSeek)
                    &&& *final(self) == *old(self)
                } else {
                    let steps = (target / fs.boot.bpb.spec_cluster_size()) as nat;
                    match spec_walk(fs.table, old(self).first_cluster, steps) {
                        Ok(oc) => {
                            &&& r == Ok::<u64, FatError>(target as u64)
                            &&& final(self).offset == target
                            &&& final(self).current_cluster == oc
                        },
                        Err(e) => r == Err::<u64, FatError>(e) && *final(self) == *old(self),
                    }
                }
            }),
    {
        let target_i: i128 = match pos {
            SeekFrom::Start(x) => x as i128,
            SeekFrom::Current(x) => self.offset as i128 + x as i128,
            SeekFrom::End(x) => match self.size {
                Some(s) => s as i128 + x as i128,
                None => {
                    return Err(FatError::InvalidSeek);
                },
            },
        };
        if target_i < 0 || target_i > u64::MAX as i128 {
            return Err(FatError::InvalidSeek);
        }
        match self.size {
            Some(s) => {
                if target_i > s as i128 {
                    return Err(FatError::InvalidSeek);
                }
            },
            None => {},
        }
        let target: u64 = target_i as u64;
        let cs: u64 = fs.get_cluster_size() as u64;
        assert(cs >= 1) by (nonlinear_arith)
            requires
                cs == fs.boot.bpb.sectors_per_cluster as u64 * fs.boot.bpb.bytes_per_sector as u64,
                fs.boot.bpb.sectors_per_cluster >= 1,
                fs.boot.bpb.bytes_per_sector >= 1,
        ;
        let steps: u64 = target / cs;
        let mut cur: u32 = self.first_cluster;
        let mut i: u64 = 0;
        while i < steps
            invariant
                i <= steps,
                fs.wf(),
                spec_walk(fs.table, old(self).first_cluster, steps as nat)
                    == spec_walk(fs.table, cur, (steps - i) as nat),
                *self == *old(self),
                !(pos matches SeekFrom::End(_) && old(self).size is None),
                target as int == (match pos {
                    SeekFrom::Start(x) => x as int,
                    SeekFrom::Current(x) => old(self).offset + x,
                    SeekFrom::End(x) => old(self).size.unwrap() + x,
                }),
                old(self).size is Some ==> target <= old(self).size.unwrap(),
                steps as int == target as int / fs.boot.bpb.spec_cluster_size(),
            decreases steps - i,
        {
            match fs.table.lookup(cur) {
                Err(e) => {
                    return Err(e);
                },
                Ok(ClusterLink::Next(n)) => {
                    cur = n;
                },
                Ok(ClusterLink::EndOfChain) => {
                    self.current_cluster = None;
                    self.offset = target;
                    return Ok(target);
                },
                Ok(_) => {
                    return Err(FatError::Corrupted);
                },
            }
            i = i + 1;
        }
        self.current_cluster = Some(cur);
        self.offset = target;
        Ok(target)
    }
}

} // verus!
