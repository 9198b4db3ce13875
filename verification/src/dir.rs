//! The directory reader: iterates raw 32-byte records from either a
//! byte-range view (the fixed legacy root) or a cluster-chain reader (all
//! subdirectories and the FAT32 root), decodes them, filters deleted
//! entries, and stops at the end-of-directory marker.

use vstd::prelude::*;

use crate::bytes::{copy_bytes, le16, le32, read_le_u16, read_le_u32};
use crate::file::{
    chain_clean, chain_fuel, chain_next, chain_rest, cluster_tail, file_rest, file_walk_clean,
    file_walk_corrupt, lemma_chain_fuel_grows, lemma_chain_rest_len, lemma_cluster_pos_nonneg,
    lemma_chain_clean_not_corrupt, lemma_cs_pos, spec_want, FatFile,
};
use crate::fs::{min_int, spec_clamp_read, FatError, FatFileSystem, FatType};
use crate::slice::FatSlice;
use crate::table::{spec_classify, ClusterLink};

verus! {

/// One decoded 32-byte directory record: the raw 8+3 short name, the
/// attribute byte, the raw timestamp fields, the starting cluster and the
/// file size.
#[derive(Debug)]
pub struct DirEntry {
    pub name: Vec<u8>,
    pub attrs: u8,
    pub create_time: u16,
    pub create_date: u16,
    pub access_date: u16,
    pub modify_time: u16,
    pub modify_date: u16,
    pub first_cluster: u32,
    pub size: u32,
}

impl DirEntry {
    /// Whether the entry names a subdirectory (its directory attribute bit
    /// is set).
    pub fn is_dir(&self) -> (r: bool)
        ensures
            r == (self.attrs & 0x10 != 0),
    {
        self.attrs & 0x10 != 0
    }

    /// A reader over the entry's content, capped at its declared size.
    pub fn open_file(&self) -> (f: FatFile)
        ensures
            f.first_cluster == self.first_cluster,
            f.size == Some(self.size),
            f.current_cluster == Some(self.first_cluster),
            f.offset == 0,
    {
        FatFile::new(self.first_cluster, Some(self.size))
    }

    /// A directory reader over the entry's cluster chain. Directories carry
    /// no declared length: their chain alone bounds them.
    pub fn open_dir(&self) -> (d: FatDir)
        ensures
            !d.ended,
            (d.rdr is File),
            d.rdr.as_file().first_cluster == self.first_cluster,
            d.rdr.as_file().size == None::<u32>,
            d.rdr.as_file().current_cluster == Some(self.first_cluster),
            d.rdr.as_file().offset == 0,
    {
        FatDir::new(FatDirReader::File(FatFile::new(self.first_cluster, None)))
    }
}

/// Whether `e` holds exactly what the 32-byte record `rec` encodes: the
/// name bytes, the attribute byte, the raw timestamps, the starting cluster
/// (whose high word exists only on FAT32 volumes) and the 32-bit size.
pub open spec fn entry_matches(e: DirEntry, rec: Seq<u8>, ft: FatType) -> bool {
    &&& e.name@ == rec.subrange(0, 11)
    &&& e.attrs == rec[11]
    &&& e.create_time == le16(rec, 14)
    &&& e.create_date == le16(rec, 16)
    &&& e.access_date == le16(rec, 18)
    &&& e.modify_time == le16(rec, 22)
    &&& e.modify_date == le16(rec, 24)
    &&& e.first_cluster == if ft == FatType::Fat32 {
        le16(rec, 20) * 0x10000 + le16(rec, 26)
    } else {
        le16(rec, 26)
    }
    &&& e.size == le32(rec, 28)
}

/// Decodes one raw 32-byte directory record.
pub fn decode_dir_entry(rec: &[u8], ft: FatType) -> (e: DirEntry)
    requires
        rec@.len() == 32,
    ensures
        entry_matches(e, rec@, ft),
{
    let lo = read_le_u16(rec, 26);
    let first_cluster: u32 = if let FatType::Fat32 = ft {
        let hi = read_le_u16(rec, 20);
        (hi as u32) * 0x10000 + (lo as u32)
    } else {
        lo as u32
    };
    DirEntry {
        name: copy_bytes(rec, 0, 11),
        attrs: rec[11],
        create_time: read_le_u16(rec, 14),
        create_date: read_le_u16(rec, 16),
        access_date: read_le_u16(rec, 18),
        modify_time: read_le_u16(rec, 22),
        modify_date: read_le_u16(rec, 24),
        first_cluster,
        size: read_le_u32(rec, 28),
    }
}

/// The externally visible raw records of a directory region: whole 32-byte
/// records up to the first end-of-directory marker (first byte 0), with
/// deleted records (first byte 0xE5) filtered out. A trailing partial
/// record ends the sequence.
pub open spec fn visible_records(region: Seq<u8>) -> Seq<Seq<u8>>
    decreases region.len(),
{
    if region.len() < 32 {
        Seq::empty()
    } else if region[0] == 0 {
        Seq::empty()
    } else if region[0] == 0xE5 {
        visible_records(region.skip(32))
    } else {
        seq![region.take(32)] + visible_records(region.skip(32))
    }
}

/// A directory region of `n` bytes shows at most `n / 32` records: each
/// one, visible or deleted, consumes 32 bytes.
pub proof fn lemma_visible_records_len(region: Seq<u8>)
    ensures
        visible_records(region).len() <= region.len() / 32,
    decreases region.len(),
{
    if region.len() >= 32 && region[0] != 0 {
        lemma_visible_records_len(region.skip(32));
    }
}

/// What reading one visible record from a region yields: the next record
/// not deleted, the end of the listing (a short tail or an end marker), or
/// -- when the region ends at a link the reader must refuse -- the
/// corruption error, which fires while the record overlapping the region's
/// end is being assembled.
pub open spec fn next_record_outcome(region: Seq<u8>, corrupt: bool) -> Result<
    Option<Seq<u8>>,
    FatError,
>
    decreases region.len(),
{
    if corrupt && region.len() <= 32 {
        Err(FatError::Corrupted)
    } else if region.len() < 32 {
        Ok(None)
    } else if region[0] == 0 {
        Ok(None)
    } else if region[0] == 0xE5 {
        next_record_outcome(region.skip(32), corrupt)
    } else {
        Ok(Some(region.take(32)))
    }
}

/// The region left once one visible record was read past the deleted ones
/// before it.
pub open spec fn after_next_record(region: Seq<u8>) -> Seq<u8>
    decreases region.len(),
{
    if region.len() < 32 {
        region
    } else if region[0] == 0xE5 {
        after_next_record(region.skip(32))
    } else if region[0] == 0 {
        region
    } else {
        region.skip(32)
    }
}

/// All visible records of a region in order, or the corruption error when
/// the region ends at a refused link and no end marker or short tail stops
/// the listing before the error is reached.
pub open spec fn listing_outcome(region: Seq<u8>, corrupt: bool) -> Result<Seq<Seq<u8>>, FatError>
    decreases region.len(),
{
    if corrupt && region.len() <= 32 {
        Err(FatError::Corrupted)
    } else if region.len() < 32 {
        Ok(Seq::empty())
    } else if region[0] == 0 {
        Ok(Seq::empty())
    } else if region[0] == 0xE5 {
        listing_outcome(region.skip(32), corrupt)
    } else {
        match listing_outcome(region.skip(32), corrupt) {
            Ok(rest) => Ok(seq![region.take(32)] + rest),
            Err(e) => Err(e),
        }
    }
}

/// Law: when no refused link cuts the walk, listing a region never fails
/// and yields exactly its visible records -- a chain-backed directory and a
/// fixed-root one share the same record-sequence semantics.
pub proof fn lemma_listing_total(region: Seq<u8>)
    ensures
        listing_outcome(region, false) == Ok::<Seq<Seq<u8>>, FatError>(visible_records(region)),
    decreases region.len(),
{
    if region.len() >= 32 && region[0] != 0 {
        lemma_listing_total(region.skip(32));
    }
}

/// One reading step refines the whole listing: the record the next read
/// yields is the listing's head, and the listing goes on over the region
/// that read leaves behind.
pub proof fn lemma_listing_step(region: Seq<u8>, corrupt: bool)
    ensures
        listing_outcome(region, corrupt) == match next_record_outcome(region, corrupt) {
            Err(e) => Err::<Seq<Seq<u8>>, FatError>(e),
            Ok(None) => Ok::<Seq<Seq<u8>>, FatError>(Seq::empty()),
            Ok(Some(rec)) => match listing_outcome(after_next_record(region), corrupt) {
                Ok(rest) => Ok::<Seq<Seq<u8>>, FatError>(seq![rec] + rest),
                Err(e2) => Err::<Seq<Seq<u8>>, FatError>(e2),
            },
        },
        next_record_outcome(region, corrupt) matches Ok(Some(_))
            ==> after_next_record(region).len() + 32 <= region.len(),
    decreases region.len(),
{
    if !(corrupt && region.len() <= 32) && region.len() >= 32 && region[0] == 0xE5 {
        lemma_listing_step(region.skip(32), corrupt);
    }
}

/// The bytes a byte-range view still has before it, clamped to the image.
pub open spec fn slice_rest(s: FatSlice, d: Seq<u8>) -> Seq<u8> {
    d.subrange(min_int(s.begin + s.offset, d.len() as int), min_int(s.begin + s.size, d.len() as int))
}

/// The two ways a directory's records reach the reader: a fixed byte-range
/// view for the legacy root, a cluster-chain reader for everything else.
#[derive(Debug)]
pub enum FatDirReader {
    Root(FatSlice),
    File(FatFile),
}

impl FatDirReader {
    /// The backing view's own consistency.
    pub open spec fn wf(self) -> bool {
        match self {
            FatDirReader::Root(s) => s.wf(),
            FatDirReader::File(_) => true,
        }
    }

    /// The byte-range view behind a legacy root reader.
    pub open spec fn as_root(self) -> FatSlice {
        match self {
            FatDirReader::Root(s) => s,
            FatDirReader::File(_) => arbitrary(),
        }
    }

    /// The cluster-chain reader behind every other directory.
    pub open spec fn as_file(self) -> FatFile {
        match self {
            FatDirReader::File(f) => f,
            FatDirReader::Root(_) => arbitrary(),
        }
    }

    /// Reads the next raw record: 32 bytes, or fewer when the region ends
    /// first. Over a fixed region one bounded read suffices; over a chain
    /// the record is assembled across cluster boundaries.
    fn read_record(&mut self, fs: &FatFileSystem) -> (r: Result<Vec<u8>, FatError>)
        requires
            fs.wf(),
            old(self).wf(),
        ensures
            final(self).wf(),
            (*old(self)) is Root ==> ({
                let s = old(self).as_root();
                let region = slice_rest(s, fs.disk@);
                &&& (*final(self)) is Root
                &&& ({
                    let s2 = final(self).as_root();
                    &&& s2.begin == s.begin
                    &&& s2.size == s.size
                    &&& r matches Ok(v) && (if region.len() >= 32 {
                        v@ == region.take(32) && s2.offset == s.offset + 32
                            && slice_rest(s2, fs.disk@) == region.skip(32)
                    } else {
                        v@ == region && v@.len() < 32
                    })
                })
            }),
            (*old(self)) is File ==> ({
                let f0 = old(self).as_file();
                &&& (*final(self)) is File
                &&& final(self).as_file().first_cluster == f0.first_cluster
                &&& final(self).as_file().size == f0.size
                &&& (r matches Ok(v) ==> v@.len() <= 32
                    && final(self).as_file().offset == f0.offset + v@.len())
                &&& (r matches Err(e) ==> e == FatError::Corrupted)
            }),
            ((*old(self)) is File && file_walk_clean(*fs, old(self).as_file())) ==> ({
                let f0 = old(self).as_file();
                let region = file_rest(*fs, f0);
                let f2 = final(self).as_file();
                &&& r matches Ok(v) && (if region.len() >= 32 {
                    v@ == region.take(32) && file_rest(*fs, f2) == region.skip(32)
                        && file_walk_clean(*fs, f2)
                } else {
                    v@ == region && file_rest(*fs, f2).len() == 0 && file_walk_clean(*fs, f2)
                })
            }),
            ((*old(self)) is File && file_walk_corrupt(*fs, old(self).as_file())) ==> ({
                let f0 = old(self).as_file();
                let region = file_rest(*fs, f0);
                let f2 = final(self).as_file();
                if region.len() <= 32 {
                    r == Err::<Vec<u8>, FatError>(FatError::Corrupted)
                } else {
                    &&& r matches Ok(v) && v@ == region.take(32)
                    &&& file_rest(*fs, f2) == region.skip(32)
                    &&& file_walk_corrupt(*fs, f2)
                }
            }),
    {
        match self {
            FatDirReader::Root(s) => {
                let ghost s0 = *s;
                let ghost region = slice_rest(s0, fs.disk@);
                let v = s.read(fs, 32);
                proof {
                    let d = fs.disk@;
                    let len = d.len() as int;
                    let pos = s0.begin + s0.offset;
                    if pos >= len {
                        assert(v@ =~= region);
                    } else {
                        assert(region.len() == min_int(s0.size - s0.offset, len - pos));
                        if region.len() >= 32 {
                            assert(v@ =~= region.take(32));
                            assert(slice_rest(*s, d) =~= region.skip(32));
                        } else {
                            assert(v@ =~= region);
                        }
                    }
                }
                Ok(v)
            },
            FatDirReader::File(f) => {
                let ghost f0 = *f;
                let ghost region0 = file_rest(*fs, f0);
                let ghost g_clean = file_walk_clean(*fs, f0);
                let ghost g_corr = file_walk_corrupt(*fs, f0);
                let mut buf: Vec<u8> = Vec::new();
                let mut end = false;
                let mut failure: Option<FatError> = None;
                proof {
                    if g_clean || g_corr {
                        assert(buf@ =~= region0.take(0));
                        assert(region0.skip(0) =~= region0);
                    }
                }
                while !end && failure.is_none() && buf.len() < 32
                    invariant
                        fs.wf(),
                        buf@.len() <= 32,
                        failure matches Some(e) ==> e == FatError::Corrupted,
                        f.first_cluster == f0.first_cluster,
                        f.size == f0.size,
                        f.offset == f0.offset + buf@.len(),
                        region0 == file_rest(*fs, f0),
                        g_clean == file_walk_clean(*fs, f0),
                        g_corr == file_walk_corrupt(*fs, f0),
                        g_clean ==> ({
                            &&& failure is None
                            &&& buf@.len() <= region0.len()
                            &&& buf@ == region0.take(buf@.len() as int)
                            &&& (!end ==> file_rest(*fs, *f) == region0.skip(buf@.len() as int)
                                && file_walk_clean(*fs, *f))
                            &&& (end ==> buf@.len() < 32 && buf@ == region0
                                && file_rest(*fs, *f).len() == 0 && file_walk_clean(*fs, *f))
                        }),
                        g_corr ==> ({
                            &&& !end
                            &&& (failure is None ==> ({
                                &&& buf@.len() <= region0.len()
                                &&& buf@ == region0.take(buf@.len() as int)
                                &&& file_rest(*fs, *f) == region0.skip(buf@.len() as int)
                                &&& (buf@.len() == 32 ==> file_rest(*fs, *f).len() > 0)
                                &&& file_walk_corrupt(*fs, *f)
                            }))
                            &&& (failure is Some ==> failure == Some(FatError::Corrupted)
                                && region0.len() <= 32)
                        }),
                    decreases 32 - buf@.len() + (if end || failure is Some { 0int } else { 1int }),
                {
                    let ghost fcur = *f;
                    let ghost k = buf@.len() as int;
                    let ghost cs = fs.boot.bpb.spec_cluster_size();
                    let ghost restk = file_rest(*fs, fcur);
                    let want: usize = 32 - buf.len();
                    proof {
                        lemma_cs_pos(*fs);
                    }
                    match f.read(fs, want) {
                        Err(e) => {
                            proof {
                                if g_clean || g_corr {
                                    let fuel1 = (chain_fuel(*fs) - 1) as nat;
                                    let c = fcur.current_cluster.unwrap();
                                    if c >= 2 {
                                        let within = fcur.offset as int % cs;
                                        let pos = fs.spec_offset_from_cluster(c as int) + within;
                                        let want_s = spec_want(fcur, cs, want as int);
                                        let actual = spec_clamp_read(
                                            fs.disk@.len() as int, pos, want_s);
                                        lemma_cluster_pos_nonneg(*fs, c);
                                        assert(cluster_tail(*fs, c, within).len() == cs - within);
                                        assert(actual == want_s);
                                        assert((fcur.offset as int + actual) % cs
                                            == (if within + actual == cs { 0int } else {
                                                within + actual
                                            })) by (nonlinear_arith)
                                            requires
                                                cs > 0,
                                                within == fcur.offset as int % cs,
                                                0 <= actual,
                                                within + actual <= cs,
                                                fcur.offset as int >= 0,
                                        ;
                                        assert(within + actual == cs);
                                        if (c as int) < fs.table.entries@.len() {
                                            match spec_classify(
                                                fs.fat_type, fs.table.entries@[c as int]) {
                                                ClusterLink::Next(n) => {
                                                    assert(n < 2);
                                                    assert(chain_next(*fs, c) == Some(n));
                                                    assert(chain_rest(*fs, Some(n), 0, fuel1)
                                                        =~= Seq::<u8>::empty());
                                                },
                                                ClusterLink::EndOfChain => {
                                                    assert(false);
                                                },
                                                _ => {
                                                    assert(chain_next(*fs, c) is None);
                                                },
                                            }
                                        } else {
                                            assert(chain_next(*fs, c) is None);
                                        }
                                        assert(chain_rest(*fs, chain_next(*fs, c), 0, fuel1)
                                            =~= Seq::<u8>::empty());
                                        assert(chain_fuel(*fs) >= 1);
                                        assert(restk =~= cluster_tail(*fs, c, within)
                                            + chain_rest(*fs, chain_next(*fs, c), 0, fuel1));
                                        assert(restk =~= cluster_tail(*fs, c, within));
                                        if g_clean {
                                            if (c as int) < fs.table.entries@.len() {
                                                match spec_classify(
                                                    fs.fat_type,
                                                    fs.table.entries@[c as int],
                                                ) {
                                                    ClusterLink::Next(n) => {
                                                        assert(chain_clean(*fs, Some(n), fuel1));
                                                        assert(n >= 2);
                                                    },
                                                    _ => {},
                                                }
                                            }
                                            assert(false);
                                        }
                                        assert(restk.len() <= want as int);
                                    } else {
                                        assert(restk =~= Seq::<u8>::empty());
                                        if g_clean {
                                            assert(false);
                                        }
                                    }
                                    assert(region0.len() == k + restk.len());
                                    assert(region0.len() <= 32);
                                }
                            }
                            failure = Some(e);
                        },
                        Ok(mut chunk) => {
                            let ghost ch = chunk@;
                            proof {
                                if g_clean || g_corr {
                                    let fuel1 = (chain_fuel(*fs) - 1) as nat;
                                    match fcur.current_cluster {
                                        None => {
                                            assert(restk =~= Seq::<u8>::empty());
                                            assert(ch.len() == 0);
                                        },
                                        Some(c) => {
                                            assert(c >= 2);
                                            let within = fcur.offset as int % cs;
                                            let pos = fs.spec_offset_from_cluster(c as int)
                                                + within;
                                            let want_s = spec_want(fcur, cs, want as int);
                                            let actual = spec_clamp_read(
                                                fs.disk@.len() as int, pos, want_s);
                                            lemma_cluster_pos_nonneg(*fs, c);
                                            assert(cluster_tail(*fs, c, within).len()
                                                == cs - within);
                                            assert(actual == want_s);
                                            assert(1 <= actual <= want as int);
                                            assert(ch =~= restk.take(actual));
                                            assert((fcur.offset as int + actual) % cs
                                                == (if within + actual == cs { 0int } else {
                                                    within + actual
                                                })) by (nonlinear_arith)
                                                requires
                                                    cs > 0,
                                                    within == fcur.offset as int % cs,
                                                    0 <= actual,
                                                    within + actual <= cs,
                                                    fcur.offset as int >= 0,
                                            ;
                                            if within + actual == cs {
                                                // the read ended the cluster: the chain advanced
                                                match spec_classify(
                                                    fs.fat_type,
                                                    fs.table.entries@[c as int],
                                                ) {
                                                    ClusterLink::Next(n) => {
                                                        assert(f.current_cluster == Some(n));
                                                        lemma_chain_fuel_grows(
                                                            *fs, Some(n), 0, fuel1,
                                                            chain_fuel(*fs));
                                                        assert(file_rest(*fs, *f)
                                                            =~= restk.skip(actual));
                                                    },
                                                    ClusterLink::EndOfChain => {
                                                        assert(chain_rest(*fs,
                                                            chain_next(*fs, c), 0, fuel1)
                                                            =~= Seq::<u8>::empty());
                                                        assert(file_rest(*fs, *f)
                                                            =~= restk.skip(actual));
                                                    },
                                                    _ => {
                                                        assert(false);
                                                    },
                                                }
                                            } else {
                                                // same cluster, the cursor moved inside it
                                                assert(f.current_cluster == Some(c));
                                                assert(f.offset as int % cs == within + actual);
                                                assert(cluster_tail(*fs, c, within + actual)
                                                    =~= cluster_tail(*fs, c, within)
                                                        .skip(actual));
                                                assert(file_rest(*fs, *f)
                                                    =~= restk.skip(actual));
                                            }
                                            assert(region0.skip(k).skip(actual)
                                                =~= region0.skip(k + actual));
                                        },
                                    }
                                }
                            }
                            if chunk.len() == 0 {
                                proof {
                                    if g_clean || g_corr {
                                        assert(g_clean);
                                        assert(restk.len() == 0);
                                        assert(buf@ =~= region0);
                                    }
                                }
                                end = true;
                            } else {
                                assert(chunk@.len() <= want);
                                buf.append(&mut chunk);
                                proof {
                                    if g_clean || g_corr {
                                        assert(buf@ =~= region0.take(k + ch.len()));
                                    }
                                }
                            }
                        },
                    }
                }
                proof {
                    if g_clean && buf@.len() == 32 {
                        assert(buf@ =~= region0.take(32));
                    }
                    if g_corr {
                        match failure {
                            Some(_) => {},
                            None => {
                                assert(buf@.len() == 32 && region0.len() > 32);
                                assert(buf@ =~= region0.take(32));
                            },
                        }
                    }
                }
                match failure {
                    Some(e) => Err(e),
                    None => Ok(buf),
                }
            },
        }
    }
}

/// A directory: a record source and a flag that latches once the
/// end-of-directory marker (or the region's end) was met.
#[derive(Debug)]
pub struct FatDir {
    pub rdr: FatDirReader,
    pub ended: bool,
}

impl FatDir {
    /// The backing view's own consistency.
    pub open spec fn wf(self) -> bool {
        self.rdr.wf()
    }

    /// A directory over the given record source, positioned at its start.
    pub fn new(rdr: FatDirReader) -> (d: FatDir)
        ensures
            d.rdr == rdr,
            !d.ended,
    {
        FatDir { rdr, ended: false }
    }

    /// The next visible entry, or `None` once the directory is exhausted.
    /// Deleted records are skipped, never surfaced; an end-of-directory
    /// marker or a short record ends the sequence for good. Over a fixed
    /// root region the result is exactly the head of the region's visible
    /// records.
    pub fn next_entry(&mut self, fs: &FatFileSystem) -> (r: Result<Option<DirEntry>, FatError>)
        requires
            fs.wf(),
            old(self).wf(),
        ensures
            final(self).wf(),
            old(self).ended ==> (r == Ok::<Option<DirEntry>, FatError>(None)
                && *final(self) == *old(self)),
            (!old(self).ended && old(self).rdr is Root) ==> ({
                let s = old(self).rdr.as_root();
                let recs = visible_records(slice_rest(s, fs.disk@));
                &&& final(self).rdr is Root
                &&& final(self).rdr.as_root().begin == s.begin
                &&& final(self).rdr.as_root().size == s.size
                &&& (recs.len() == 0 ==> r == Ok::<Option<DirEntry>, FatError>(None)
                    && final(self).ended)
                &&& (recs.len() > 0 ==> ({
                    &&& r matches Ok(Some(e)) && entry_matches(e, recs[0], fs.fat_type)
                    &&& visible_records(slice_rest(final(self).rdr.as_root(), fs.disk@))
                        == recs.drop_first()
                    &&& !final(self).ended
                }))
            }),
            (!old(self).ended && old(self).rdr is File) ==> ({
                let f0 = old(self).rdr.as_file();
                &&& final(self).rdr is File
                &&& final(self).rdr.as_file().first_cluster == f0.first_cluster
                &&& final(self).rdr.as_file().size == f0.size
                &&& (r matches Ok(Some(e)) ==> e.name@.len() == 11
                    && final(self).rdr.as_file().offset >= f0.offset + 32
                    && (final(self).rdr.as_file().offset - f0.offset) % 32 == 0)
                &&& (r matches Err(e) ==> e == FatError::Corrupted)
            }),
            r matches Ok(Some(e)) ==> (e.name@.len() == 11 && e.name@[0] != 0
                && e.name@[0] != 0xE5),
            (!old(self).ended && old(self).rdr is File
                && (file_walk_clean(*fs, old(self).rdr.as_file())
                    || file_walk_corrupt(*fs, old(self).rdr.as_file()))) ==> ({
                let f0 = old(self).rdr.as_file();
                let region = file_rest(*fs, f0);
                let corrupt = file_walk_corrupt(*fs, f0);
                match next_record_outcome(region, corrupt) {
                    Err(e) => r == Err::<Option<DirEntry>, FatError>(e),
                    Ok(None) => (r == Ok::<Option<DirEntry>, FatError>(None)
                        && final(self).ended),
                    Ok(Some(rec)) => ({
                        let f2 = final(self).rdr.as_file();
                        &&& r matches Ok(Some(e)) && entry_matches(e, rec, fs.fat_type)
                        &&& !final(self).ended
                        &&& file_rest(*fs, f2) == after_next_record(region)
                        &&& (file_walk_clean(*fs, f0) ==> file_walk_clean(*fs, f2))
                        &&& (corrupt ==> file_walk_corrupt(*fs, f2))
                    }),
                }
            }),
    {
        if self.ended {
            return Ok(None);
        }
        let ghost s0 = self.rdr.as_root();
        let ghost recs0 = visible_records(slice_rest(s0, fs.disk@));
        let ghost fd0 = self.rdr.as_file();
        let ghost fregion0 = file_rest(*fs, fd0);
        let ghost fg_clean = file_walk_clean(*fs, fd0);
        let ghost fg_corr = file_walk_corrupt(*fs, fd0);
        let mut fuel: u64 = match &self.rdr {
            FatDirReader::Root(s) => (s.size - s.offset) / 32 + 1,
            FatDirReader::File(_) => {
                let n = fs.table.entries.len() as u64;
                let cs = fs.get_cluster_size() as u64;
                assert(cs >= 1) by (nonlinear_arith)
                    requires
                        cs == fs.boot.bpb.sectors_per_cluster as u64
                            * fs.boot.bpb.bytes_per_sector as u64,
                        fs.boot.bpb.sectors_per_cluster >= 1,
                        fs.boot.bpb.bytes_per_sector >= 1,
                ;
                proof {
                    if fg_clean || fg_corr {
                        lemma_chain_rest_len(
                            *fs,
                            fd0.current_cluster,
                            fd0.offset as int % fs.boot.bpb.spec_cluster_size(),
                            chain_fuel(*fs),
                        );
                        vstd::arithmetic::div_mod::lemma_div_is_ordered(
                            fregion0.len() as int,
                            (n + 1) as int * cs as int,
                            32,
                        );
                    }
                }
                if n >= u64::MAX / cs {
                    u64::MAX
                } else {
                    assert((n + 1) * cs <= u64::MAX) by (nonlinear_arith)
                        requires
                            cs >= 1,
                            n < u64::MAX as u64 / cs,
                    ;
                    (n + 1) * cs / 32 + 2
                }
            },
        };
        while fuel > 0
            invariant
                fs.wf(),
                self.rdr.wf(),
                !self.ended,
                !old(self).ended,
                old(self).rdr is Root ==> ({
                    let s = self.rdr.as_root();
                    &&& self.rdr is Root
                    &&& s.begin == s0.begin
                    &&& s.size == s0.size
                    &&& visible_records(slice_rest(s, fs.disk@)) == recs0
                    &&& fuel as int >= (s.size - s.offset) / 32 + 1
                }),
                old(self).rdr is File ==> ({
                    let fc = old(self).rdr.as_file();
                    &&& self.rdr is File
                    &&& self.rdr.as_file().first_cluster == fc.first_cluster
                    &&& self.rdr.as_file().size == fc.size
                    &&& self.rdr.as_file().offset >= fc.offset
                    &&& (self.rdr.as_file().offset - fc.offset) % 32 == 0
                }),
                (old(self).rdr is File && (fg_clean || fg_corr)) ==> ({
                    let fc = self.rdr.as_file();
                    &&& next_record_outcome(file_rest(*fs, fc), fg_corr)
                        == next_record_outcome(fregion0, fg_corr)
                    &&& after_next_record(file_rest(*fs, fc)) == after_next_record(fregion0)
                    &&& (fg_clean ==> file_walk_clean(*fs, fc))
                    &&& (fg_corr ==> file_walk_corrupt(*fs, fc))
                    &&& fuel as int >= file_rest(*fs, fc).len() / 32 + 1
                }),
                s0 == old(self).rdr.as_root(),
                recs0 == visible_records(slice_rest(s0, fs.disk@)),
                fd0 == old(self).rdr.as_file(),
                fregion0 == file_rest(*fs, fd0),
                fg_clean == file_walk_clean(*fs, fd0),
                fg_corr == file_walk_corrupt(*fs, fd0),
            decreases fuel,
        {
            let ghost s_before = self.rdr.as_root();
            let ghost region = slice_rest(s_before, fs.disk@);
            let ghost fc_before = self.rdr.as_file();
            let ghost fregion = file_rest(*fs, fc_before);
            let ghost fguard = old(self).rdr is File && (fg_clean || fg_corr);
            let rec = match self.rdr.read_record(fs) {
                Ok(v) => v,
                Err(e) => {
                    proof {
                        if fguard {
                            if fg_clean {
                                assert(false);
                            }
                            assert(fregion.len() <= 32);
                            assert(next_record_outcome(fregion, fg_corr)
                                == Err::<Option<Seq<u8>>, FatError>(FatError::Corrupted));
                        }
                    }
                    return Err(e);
                },
            };
            if rec.len() < 32 {
                proof {
                    if old(self).rdr is Root {
                        assert(region.len() < 32);
                        assert(recs0.len() == 0);
                    }
                    if fguard {
                        if fg_corr {
                            assert(false);
                        }
                        assert(fregion.len() < 32);
                        assert(next_record_outcome(fregion, fg_corr)
                            == Ok::<Option<Seq<u8>>, FatError>(None));
                    }
                }
                self.ended = true;
                return Ok(None);
            }
            let b0 = rec[0];
            proof {
                if fguard {
                    assert(fregion.len() >= 32 && rec@ == fregion.take(32));
                    assert(rec@[0] == fregion[0]);
                    if fg_corr {
                        assert(fregion.len() > 32);
                    }
                }
            }
            if b0 == 0 {
                proof {
                    if old(self).rdr is Root {
                        assert(region.len() >= 32 && region[0] == 0);
                        assert(recs0.len() == 0);
                    }
                    if fguard {
                        assert(next_record_outcome(fregion, fg_corr)
                            == Ok::<Option<Seq<u8>>, FatError>(None));
                    }
                }
                self.ended = true;
                return Ok(None);
            }
            if b0 != 0xE5 {
                let e = decode_dir_entry(rec.as_slice(), fs.fat_type());
                proof {
                    assert(e.name@[0] == rec@[0]);
                    if old(self).rdr is Root {
                        assert(region.len() >= 32 && region[0] != 0 && region[0] != 0xE5);
                        assert(recs0 == seq![region.take(32)] + visible_records(region.skip(32)));
                        assert(recs0[0] == region.take(32));
                        assert(visible_records(slice_rest(self.rdr.as_root(), fs.disk@))
                            =~= recs0.drop_first());
                    }
                    if fguard {
                        assert(next_record_outcome(fregion, fg_corr)
                            == Ok::<Option<Seq<u8>>, FatError>(Some(fregion.take(32))));
                        assert(after_next_record(fregion) == fregion.skip(32));
                        assert(file_rest(*fs, self.rdr.as_file()) == fregion.skip(32));
                    }
                }
                return Ok(Some(e));
            }
            proof {
                if old(self).rdr is Root {
                    assert(region.len() >= 32 && region[0] == 0xE5);
                    assert(visible_records(region) == visible_records(region.skip(32)));
                    let s = self.rdr.as_root();
                    assert((s.size - s.offset) / 32 + 1 == (s_before.size - s_before.offset) / 32);
                }
                if fguard {
                    assert(next_record_outcome(fregion, fg_corr)
                        == next_record_outcome(fregion.skip(32), fg_corr));
                    assert(after_next_record(fregion) == after_next_record(fregion.skip(32)));
                    assert(file_rest(*fs, self.rdr.as_file()) == fregion.skip(32));
                    assert(file_rest(*fs, self.rdr.as_file()).len() / 32
                        == fregion.len() / 32 - 1);
                }
            }
            fuel = fuel - 1;
        }
        proof {
            if old(self).rdr is Root {
                assert(false);
            }
        }
        Err(FatError::Corrupted)
    }

    /// Every remaining visible entry of the directory, in order. Over a
    /// fixed root region the list is exactly the region's visible records,
    /// decoded; over a chain the walk fails on corruption instead of
    /// looping on a cyclic chain.
    pub fn entries(&mut self, fs: &FatFileSystem) -> (r: Result<Vec<DirEntry>, FatError>)
        requires
            fs.wf(),
            old(self).wf(),
        ensures
            final(self).wf(),
            old(self).ended ==> (r matches Ok(v) && v@.len() == 0),
            (!old(self).ended && old(self).rdr is Root) ==> ({
                let recs = visible_records(slice_rest(old(self).rdr.as_root(), fs.disk@));
                &&& r matches Ok(v) && v@.len() == recs.len()
                    && (forall|i: int| 0 <= i < recs.len()
                        ==> entry_matches(#[trigger] v@[i], recs[i], fs.fat_type))
                &&& final(self).ended
            }),
            (!old(self).ended && old(self).rdr is File) ==> (final(self).rdr is File
                && (r matches Err(e) ==> e == FatError::Corrupted)),
            (!old(self).ended && old(self).rdr is File
                && (file_walk_clean(*fs, old(self).rdr.as_file())
                    || file_walk_corrupt(*fs, old(self).rdr.as_file()))) ==> ({
                let f0 = old(self).rdr.as_file();
                let region = file_rest(*fs, f0);
                let corrupt = file_walk_corrupt(*fs, f0);
                match listing_outcome(region, corrupt) {
                    Err(e) => r == Err::<Vec<DirEntry>, FatError>(e),
                    Ok(recs) => (r matches Ok(v) && v@.len() == recs.len()
                        && (forall|i: int| 0 <= i < recs.len()
                            ==> entry_matches(#[trigger] v@[i], recs[i], fs.fat_type))
                        && final(self).ended),
                }
            }),
    {
        let mut out: Vec<DirEntry> = Vec::new();
        if self.ended {
            return Ok(out);
        }
        let ghost s0 = self.rdr.as_root();
        let ghost recs0 = visible_records(slice_rest(s0, fs.disk@));
        let ghost fd0 = self.rdr.as_file();
        let ghost fregion0 = file_rest(*fs, fd0);
        let ghost fg_clean = file_walk_clean(*fs, fd0);
        let ghost fg_corr = file_walk_corrupt(*fs, fd0);
        let mut fuel: u64 = match &self.rdr {
            FatDirReader::Root(s) => {
                proof {
                    lemma_visible_records_len(slice_rest(*s, fs.disk@));
                    vstd::arithmetic::div_mod::lemma_div_is_ordered(
                        slice_rest(*s, fs.disk@).len() as int,
                        s.size - s.offset,
                        32,
                    );
                }
                (s.size - s.offset) / 32 + 1
            },
            FatDirReader::File(_) => {
                let n = fs.table.entries.len() as u64;
                let cs = fs.get_cluster_size() as u64;
                assert(cs >= 1) by (nonlinear_arith)
                    requires
                        cs == fs.boot.bpb.sectors_per_cluster as u64
                            * fs.boot.bpb.bytes_per_sector as u64,
                        fs.boot.bpb.sectors_per_cluster >= 1,
                        fs.boot.bpb.bytes_per_sector >= 1,
                ;
                proof {
                    if fg_clean || fg_corr {
                        lemma_chain_rest_len(
                            *fs,
                            fd0.current_cluster,
                            fd0.offset as int % fs.boot.bpb.spec_cluster_size(),
                            chain_fuel(*fs),
                        );
                        vstd::arithmetic::div_mod::lemma_div_is_ordered(
                            fregion0.len() as int,
                            (n + 1) as int * cs as int,
                            32,
                        );
                    }
                }
                if n >= u64::MAX / cs {
                    u64::MAX
                } else {
                    assert((n + 1) * cs <= u64::MAX) by (nonlinear_arith)
                        requires
                            cs >= 1,
                            n < u64::MAX as u64 / cs,
                    ;
                    (n + 1) * cs / 32 + 2
                }
            },
        };
        proof {
            if fg_clean || fg_corr {
                match listing_outcome(fregion0, fg_corr) {
                    Ok(recs) => {
                        assert(recs.skip(0) =~= recs);
                    },
                    Err(_) => {},
                }
            }
        }
        while fuel > 0
            invariant
                fs.wf(),
                self.wf(),
                !old(self).ended,
                s0 == old(self).rdr.as_root(),
                recs0 == visible_records(slice_rest(s0, fs.disk@)),
                fd0 == old(self).rdr.as_file(),
                fregion0 == file_rest(*fs, fd0),
                fg_clean == file_walk_clean(*fs, fd0),
                fg_corr == file_walk_corrupt(*fs, fd0),
                (old(self).rdr is File && (fg_clean || fg_corr)) ==> ({
                    let fc = self.rdr.as_file();
                    &&& !self.ended
                    &&& (fg_clean ==> file_walk_clean(*fs, fc))
                    &&& (fg_corr ==> file_walk_corrupt(*fs, fc))
                    &&& match listing_outcome(fregion0, fg_corr) {
                        Ok(recs) => ({
                            &&& out@.len() <= recs.len()
                            &&& (forall|i: int| 0 <= i < out@.len()
                                ==> entry_matches(#[trigger] out@[i], recs[i], fs.fat_type))
                            &&& listing_outcome(file_rest(*fs, fc), fg_corr)
                                == Ok::<Seq<Seq<u8>>, FatError>(recs.skip(out@.len() as int))
                        }),
                        Err(e) => listing_outcome(file_rest(*fs, fc), fg_corr)
                            == Err::<Seq<Seq<u8>>, FatError>(e),
                    }
                    &&& fuel as int >= file_rest(*fs, fc).len() / 32 + 1
                }),
                old(self).rdr is Root ==> ({
                    let s = self.rdr.as_root();
                    &&& self.rdr is Root
                    &&& !self.ended
                    &&& s.begin == s0.begin
                    &&& s.size == s0.size
                    &&& out@.len() <= recs0.len()
                    &&& visible_records(slice_rest(s, fs.disk@))
                        == recs0.skip(out@.len() as int)
                    &&& (forall|i: int| 0 <= i < out@.len()
                        ==> entry_matches(#[trigger] out@[i], recs0[i], fs.fat_type))
                    &&& fuel as int >= recs0.len() - out@.len() + 1
                }),
                old(self).rdr is File ==> self.rdr is File,
            decreases fuel,
        {
            let ghost out_len = out@.len() as int;
            let ghost recs_cur = visible_records(slice_rest(self.rdr.as_root(), fs.disk@));
            let ghost fc_before = self.rdr.as_file();
            let ghost fregion = file_rest(*fs, fc_before);
            let ghost fguard = old(self).rdr is File && (fg_clean || fg_corr);
            proof {
                if fguard {
                    lemma_listing_step(fregion, fg_corr);
                    if fg_clean {
                        lemma_chain_clean_not_corrupt(
                            *fs,
                            fc_before.current_cluster,
                            chain_fuel(*fs),
                        );
                    }
                    assert(file_walk_corrupt(*fs, fc_before) == fg_corr);
                }
            }
            match self.next_entry(fs) {
                Err(e) => {
                    proof {
                        if old(self).rdr is Root {
                            assert(false);
                        }
                        if fguard {
                            match next_record_outcome(fregion, fg_corr) {
                                Err(e2) => {
                                    assert(e2 == e);
                                    assert(listing_outcome(fregion, fg_corr)
                                        == Err::<Seq<Seq<u8>>, FatError>(e2));
                                },
                                Ok(None) => {
                                    assert(false);
                                },
                                Ok(Some(_)) => {
                                    assert(false);
                                },
                            }
                        }
                    }
                    return Err(e);
                },
                Ok(None) => {
                    proof {
                        if old(self).rdr is Root {
                            assert(recs_cur.len() == 0);
                            assert(out@.len() == recs0.len());
                        }
                        if fguard {
                            match next_record_outcome(fregion, fg_corr) {
                                Ok(None) => {},
                                Ok(Some(_)) => {
                                    assert(false);
                                },
                                Err(_) => {
                                    assert(false);
                                },
                            }
                            assert(listing_outcome(fregion, fg_corr)
                                == Ok::<Seq<Seq<u8>>, FatError>(Seq::empty()));
                            match listing_outcome(fregion0, fg_corr) {
                                Ok(recs) => {
                                    assert(recs.skip(out_len) =~= Seq::<Seq<u8>>::empty());
                                    assert(out@.len() == recs.len());
                                },
                                Err(_) => {
                                    assert(false);
                                },
                            }
                        }
                    }
                    return Ok(out);
                },
                Ok(Some(e)) => {
                    proof {
                        if old(self).rdr is Root {
                            assert(recs_cur.len() > 0);
                            assert(recs_cur[0] == recs0[out_len]);
                            assert(recs_cur.drop_first() =~= recs0.skip(out_len + 1));
                        }
                        if fguard {
                            match next_record_outcome(fregion, fg_corr) {
                                Ok(Some(rec)) => {
                                    match listing_outcome(fregion0, fg_corr) {
                                        Ok(recs) => {
                                            assert(listing_outcome(fregion, fg_corr)
                                                == Ok::<Seq<Seq<u8>>, FatError>(
                                                recs.skip(out_len)));
                                            match listing_outcome(
                                                after_next_record(fregion), fg_corr) {
                                                Ok(rest) => {
                                                    assert(recs.skip(out_len)
                                                        == seq![rec] + rest);
                                                    assert(recs.skip(out_len).len()
                                                        == 1 + rest.len());
                                                    assert(recs.len() >= out_len + 1);
                                                    assert(rec == recs.skip(out_len)[0]);
                                                    assert(recs.skip(out_len)[0]
                                                        == recs[out_len]);
                                                    assert((seq![rec] + rest).skip(1)
                                                        =~= rest);
                                                    assert(recs.skip(out_len).skip(1)
                                                        =~= recs.skip(out_len + 1));
                                                    assert(rest == recs.skip(out_len + 1));
                                                },
                                                Err(_) => {
                                                    assert(false);
                                                },
                                            }
                                        },
                                        Err(e2) => {
                                            match listing_outcome(
                                                after_next_record(fregion), fg_corr) {
                                                Ok(_) => {
                                                    assert(false);
                                                },
                                                Err(_) => {},
                                            }
                                        },
                                    }
                                    assert(after_next_record(fregion).len() + 32
                                        <= fregion.len());
                                    vstd::arithmetic::div_mod::lemma_div_is_ordered(
                                        after_next_record(fregion).len() as int + 32,
                                        fregion.len() as int,
                                        32,
                                    );
                                },
                                _ => {
                                    assert(false);
                                },
                            }
                        }
                    }
                    out.push(e);
                },
            }
            fuel = fuel - 1;
        }
        proof {
            if old(self).rdr is Root {
                assert(false);
            }
            if old(self).rdr is File && (fg_clean || fg_corr) {
                assert(false);
            }
        }
        Err(FatError::Corrupted)
    }
}

impl FatFileSystem {
    /// The root directory: FAT12 and FAT16 keep it in a fixed sector run
    /// just before the data area; FAT32 stores it as an ordinary cluster
    /// chain named by the boot record.
    pub fn root_dir(&self) -> (d: FatDir)
        requires
            self.wf(),
        ensures
            d.wf(),
            !d.ended,
            self.fat_type != FatType::Fat32 ==> ({
                let s = d.rdr.as_root();
                &&& d.rdr is Root
                &&& s.begin == self.spec_offset_from_sector(
                    self.first_data_sector - self.root_dir_sectors)
                &&& s.size == self.root_dir_sectors as int * self.boot.bpb.bytes_per_sector as int
                &&& s.offset == 0
            }),
            self.fat_type == FatType::Fat32 ==> ({
                let f = d.rdr.as_file();
                &&& d.rdr is File
                &&& f.first_cluster == self.boot.bpb.root_dir_first_cluster
                &&& f.size == None::<u32>
                &&& f.current_cluster == Some(self.boot.bpb.root_dir_first_cluster)
                &&& f.offset == 0
            }),
    {
        proof {
            assert(self.boot.bpb.fats as int * self.boot.bpb.spec_sectors_per_fat() >= 0)
                by (nonlinear_arith)
                requires
                    self.boot.bpb.fats as int >= 0,
                    self.boot.bpb.spec_sectors_per_fat() >= 0,
            ;
        }
        match self.fat_type {
            FatType::Fat12 | FatType::Fat16 => {
                let first = self.first_data_sector - self.root_dir_sectors;
                FatDir::new(FatDirReader::Root(FatSlice::from_sectors(
                    first,
                    self.root_dir_sectors,
                    self,
                )))
            },
            FatType::Fat32 => FatDir::new(FatDirReader::File(FatFile::new(
                self.boot.bpb.root_dir_first_cluster,
                None,
            ))),
        }
    }
}

} // verus!
