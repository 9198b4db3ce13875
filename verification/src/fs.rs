//! Boot-record decoding, FAT-variant detection, and the shared filesystem
//! state with its sector/cluster arithmetic.
//!
//! The filesystem handle owns an in-memory image of the backing stream's
//! bytes; every reader derived from it (byte-range views, cluster-chain
//! readers, directory readers) borrows the handle for the duration of a
//! single operation, so physical access stays serialized.

use vstd::prelude::*;

use crate::bytes::{copy_bytes, le16, le32, read_le_u16, read_le_u32, utf8_lossy};
use crate::table::{spec_fat_entries, FatTable};

verus! {

/// The FAT variant, decided once from the total cluster count and fixed for
/// the life of the filesystem handle.
#[derive(Debug, Copy, Clone, PartialEq, Eq, Structural)]
pub enum FatType {
    Fat12,
    Fat16,
    Fat32,
}

/// Everything that can go wrong while opening or reading a volume.
#[derive(Debug, Copy, Clone, PartialEq, Eq, Structural)]
pub enum FatError {
    /// A fixed-layout region ends past the end of the image.
    UnexpectedEof,
    /// The boot sector does not end in the mandatory 0x55, 0xAA signature.
    InvalidSignature,
    /// The geometry fields are unusable: a zero sector or cluster size, or a
    /// data area that starts past the last sector.
    InvalidGeometry,
    /// A structural-corruption failure: a cluster index outside the decoded
    /// table, a bad cluster met mid-chain, or a chain longer than the table
    /// allows.
    Corrupted,
    /// A seek on a bounded view would leave its window.
    InvalidSeek,
}

/// The variant a total cluster count dictates: below 4085 clusters the
/// table entries are 12-bit, below 65525 they are 16-bit, else 32-bit.
pub open spec fn fat_type_of_clusters(c: int) -> FatType {
    if c < 4085 {
        FatType::Fat12
    } else if c < 65525 {
        FatType::Fat16
    } else {
        FatType::Fat32
    }
}

/// The geometry facts read once from the boot sector. Which of the
/// extended fields carry data depends on the variant: when the legacy
/// 16-bit sectors-per-table field is zero, the extended block is present
/// and read; otherwise the extended fields stay zero or empty.
#[derive(Debug)]
pub struct FatBiosParameterBlock {
    pub bytes_per_sector: u16,
    pub sectors_per_cluster: u8,
    pub reserved_sectors: u16,
    pub fats: u8,
    pub root_entries: u16,
    pub total_sectors_16: u16,
    pub media: u8,
    pub sectors_per_fat_16: u16,
    pub sectors_per_track: u16,
    pub heads: u16,
    pub hidden_sectors: u32,
    pub total_sectors_32: u32,
    // Extended BIOS Parameter Block
    pub sectors_per_fat_32: u32,
    pub extended_flags: u16,
    pub fs_version: u16,
    pub root_dir_first_cluster: u32,
    pub fs_info_sector: u16,
    pub backup_boot_sector: u16,
    pub reserved_0: Vec<u8>,
    pub drive_num: u8,
    pub reserved_1: u8,
    pub ext_sig: u8,
    pub volume_id: u32,
    pub volume_label: Vec<u8>,
    pub fs_type_label: Vec<u8>,
}

impl FatBiosParameterBlock {
    /// The usable total sector count: the 32-bit field when the 16-bit one
    /// is zero, else the 16-bit one.
    pub open spec fn spec_total_sectors(self) -> int {
        if self.total_sectors_16 == 0 {
            self.total_sectors_32 as int
        } else {
            self.total_sectors_16 as int
        }
    }

    /// The usable sectors-per-table count, by the same convention.
    pub open spec fn spec_sectors_per_fat(self) -> int {
        if self.sectors_per_fat_16 == 0 {
            self.sectors_per_fat_32 as int
        } else {
            self.sectors_per_fat_16 as int
        }
    }

    /// How many sectors the legacy fixed root directory occupies:
    /// its entries at 32 bytes each, rounded up to whole sectors.
    pub open spec fn spec_root_dir_sectors(self) -> int {
        (self.root_entries as int * 32 + self.bytes_per_sector as int - 1)
            / self.bytes_per_sector as int
    }

    /// The first sector of the data area: past the reserved sectors, every
    /// table copy, and the legacy root directory.
    pub open spec fn spec_first_data_sector(self) -> int {
        self.reserved_sectors as int + self.fats as int * self.spec_sectors_per_fat()
            + self.spec_root_dir_sectors()
    }

    /// How many whole clusters the data area holds.
    pub open spec fn spec_total_clusters(self) -> int {
        (self.spec_total_sectors() - self.spec_first_data_sector())
            / self.sectors_per_cluster as int
    }

    /// The size of one cluster in bytes.
    pub open spec fn spec_cluster_size(self) -> int {
        self.sectors_per_cluster as int * self.bytes_per_sector as int
    }
}

/// The boot record: the BIOS Parameter Block together with the jump code,
/// OEM name, boot code and the mandatory two-byte signature.
#[derive(Debug)]
pub struct FatBootRecord {
    pub bootjmp: Vec<u8>,
    pub oem_name: Vec<u8>,
    pub bpb: FatBiosParameterBlock,
    pub boot_code: Vec<u8>,
    pub boot_sig: Vec<u8>,
}

/// Whether `b` holds exactly the BIOS Parameter Block encoded in the boot
/// sector bytes `d`: every multi-byte integer little-endian, at the fixed
/// offsets, with the extended fields present exactly when the legacy 16-bit
/// sectors-per-table field is zero.
pub open spec fn bpb_matches(b: FatBiosParameterBlock, d: Seq<u8>) -> bool {
    &&& b.bytes_per_sector == le16(d, 11)
    &&& b.sectors_per_cluster == d[13]
    &&& b.reserved_sectors == le16(d, 14)
    &&& b.fats == d[16]
    &&& b.root_entries == le16(d, 17)
    &&& b.total_sectors_16 == le16(d, 19)
    &&& b.media == d[21]
    &&& b.sectors_per_fat_16 == le16(d, 22)
    &&& b.sectors_per_track == le16(d, 24)
    &&& b.heads == le16(d, 26)
    &&& b.hidden_sectors == le32(d, 28)
    &&& b.total_sectors_32 == le32(d, 32)
    &&& if le16(d, 22) == 0 {
        &&& b.sectors_per_fat_32 == le32(d, 36)
        &&& b.extended_flags == le16(d, 40)
        &&& b.fs_version == le16(d, 42)
        &&& b.root_dir_first_cluster == le32(d, 44)
        &&& b.fs_info_sector == le16(d, 48)
        &&& b.backup_boot_sector == le16(d, 50)
        &&& b.reserved_0@ == d.subrange(52, 64)
        &&& b.drive_num == d[64]
        &&& b.reserved_1 == d[65]
        &&& b.ext_sig == d[66]
        &&& b.volume_id == le32(d, 67)
        &&& b.volume_label@ == d.subrange(71, 82)
        &&& b.fs_type_label@ == d.subrange(82, 90)
    } else {
        &&& b.sectors_per_fat_32 == 0
        &&& b.extended_flags == 0
        &&& b.fs_version == 0
        &&& b.root_dir_first_cluster == 0
        &&& b.fs_info_sector == 0
        &&& b.backup_boot_sector == 0
        &&& b.reserved_0@ == Seq::<u8>::empty()
        &&& b.drive_num == d[36]
        &&& b.reserved_1 == d[37]
        &&& b.ext_sig == d[38]
        &&& b.volume_id == le32(d, 39)
        &&& b.volume_label@ == d.subrange(43, 54)
        &&& b.fs_type_label@ == d.subrange(54, 62)
    }
}

/// Whether `b` holds exactly the boot record encoded in the boot sector
/// bytes `d`. The boot code is shorter when the extended block is present,
/// so that the sector stays 512 bytes with the signature in its last two.
pub open spec fn boot_matches(b: FatBootRecord, d: Seq<u8>) -> bool {
    &&& b.bootjmp@ == d.subrange(0, 3)
    &&& b.oem_name@ == d.subrange(3, 11)
    &&& bpb_matches(b.bpb, d)
    &&& b.boot_code@ == if le16(d, 22) == 0 {
        d.subrange(90, 510)
    } else {
        d.subrange(62, 510)
    }
    &&& b.boot_sig@ == d.subrange(510, 512)
}

/// Whether the image is long enough for a boot sector and that sector ends
/// in the mandatory signature.
pub open spec fn sig_ok(d: Seq<u8>) -> bool {
    d.len() >= 512 && d[510] == 0x55 && d[511] == 0xAA
}

/// The total sector count encoded in the boot sector bytes.
pub open spec fn disk_total_sectors(d: Seq<u8>) -> int {
    if le16(d, 19) == 0 {
        le32(d, 32)
    } else {
        le16(d, 19)
    }
}

/// The sectors-per-table count encoded in the boot sector bytes.
pub open spec fn disk_sectors_per_fat(d: Seq<u8>) -> int {
    if le16(d, 22) == 0 {
        le32(d, 36)
    } else {
        le16(d, 22)
    }
}

/// The legacy root directory's sector count, from the boot sector bytes.
pub open spec fn disk_root_dir_sectors(d: Seq<u8>) -> int {
    (le16(d, 17) * 32 + le16(d, 11) - 1) / le16(d, 11)
}

/// The first data sector, from the boot sector bytes.
pub open spec fn disk_first_data_sector(d: Seq<u8>) -> int {
    le16(d, 14) + d[16] * disk_sectors_per_fat(d) + disk_root_dir_sectors(d)
}

/// The total cluster count, from the boot sector bytes.
pub open spec fn disk_total_clusters(d: Seq<u8>) -> int {
    (disk_total_sectors(d) - disk_first_data_sector(d)) / (d[13] as int)
}

/// Where the first allocation-table copy begins, in bytes.
pub open spec fn disk_fat_offset(d: Seq<u8>) -> int {
    le16(d, 14) * le16(d, 11)
}

/// How long the allocation-table region is, in bytes.
pub open spec fn disk_fat_size(d: Seq<u8>) -> int {
    disk_sectors_per_fat(d) * le16(d, 11)
}

/// The bytes of the first allocation-table copy.
pub open spec fn disk_fat_region(d: Seq<u8>) -> Seq<u8> {
    d.subrange(disk_fat_offset(d), disk_fat_offset(d) + disk_fat_size(d))
}

/// Whether the geometry fields are usable: nonzero sector and cluster
/// sizes, and a data area that starts within the volume.
pub open spec fn geometry_ok(d: Seq<u8>) -> bool {
    &&& le16(d, 11) != 0
    &&& d[13] != 0
    &&& disk_first_data_sector(d) <= disk_total_sectors(d)
}

/// Whether the allocation-table region lies within the image.
pub open spec fn fat_region_ok(d: Seq<u8>) -> bool {
    disk_fat_offset(d) + disk_fat_size(d) <= d.len()
}

/// Whether an image opens successfully.
pub open spec fn open_ok(d: Seq<u8>) -> bool {
    d.len() >= 512 && sig_ok(d) && geometry_ok(d) && fat_region_ok(d)
}

/// The smaller of two mathematical integers.
pub open spec fn min_int(a: int, b: int) -> int {
    if a < b {
        a
    } else {
        b
    }
}

/// How many bytes a read of `want` bytes at absolute offset `pos` of an
/// image of `len` bytes actually yields: reads never cross the image's end,
/// and a position at or past the end yields nothing.
pub open spec fn spec_clamp_read(len: int, pos: int, want: int) -> int {
    if pos >= len {
        0
    } else {
        min_int(want, len - pos)
    }
}

/// The trailing ASCII spaces of a label, removed.
pub open spec fn trim_trailing_spaces(s: Seq<u8>) -> Seq<u8>
    decreases s.len(),
{
    if s.len() == 0 {
        s
    } else if s[s.len() - 1] == 0x20 {
        trim_trailing_spaces(s.drop_last())
    } else {
        s
    }
}

/// One open filesystem: the image of the backing stream, the decoded boot
/// record, the detected variant, the decoded allocation table, and the
/// derived geometry constants.
#[derive(Debug)]
pub struct FatFileSystem {
    pub disk: Vec<u8>,
    pub fat_type: FatType,
    pub boot: FatBootRecord,
    pub first_data_sector: u32,
    pub root_dir_sectors: u32,
    pub table: FatTable,
}

impl FatFileSystem {
    /// The internal consistency every open filesystem keeps: usable
    /// geometry, derived constants that agree with the boot record, and a
    /// table decoded for the detected variant.
    pub open spec fn wf(self) -> bool {
        &&& self.boot.bpb.bytes_per_sector > 0
        &&& self.boot.bpb.sectors_per_cluster > 0
        &&& self.boot.bpb.spec_first_data_sector() <= self.boot.bpb.spec_total_sectors()
        &&& self.first_data_sector == self.boot.bpb.spec_first_data_sector()
        &&& self.root_dir_sectors == self.boot.bpb.spec_root_dir_sectors()
        &&& self.fat_type == fat_type_of_clusters(self.boot.bpb.spec_total_clusters())
        &&& self.table.fat_type == self.fat_type
    }

    /// The byte offset of a sector.
    pub open spec fn spec_offset_from_sector(self, sector: int) -> int {
        sector * self.boot.bpb.bytes_per_sector as int
    }

    /// The first sector of a cluster: clusters are numbered from 2 and laid
    /// out consecutively from the first data sector.
    pub open spec fn spec_sector_from_cluster(self, cluster: int) -> int {
        (cluster - 2) * self.boot.bpb.sectors_per_cluster as int + self.first_data_sector as int
    }

    /// The byte offset of a cluster's first byte.
    pub open spec fn spec_offset_from_cluster(self, cluster: int) -> int {
        self.spec_offset_from_sector(self.spec_sector_from_cluster(cluster))
    }

    /// Opens a filesystem over the raw bytes of a volume image: decodes the
    /// boot record, validates the signature and the geometry, detects the
    /// variant, and decodes the first allocation-table copy.
    pub fn new(disk: Vec<u8>) -> (r: Result<FatFileSystem, FatError>)
        ensures
            match r {
                Ok(fs) => {
                    &&& open_ok(disk@)
                    &&& fs.wf()
                    &&& fs.disk@ == disk@
                    &&& boot_matches(fs.boot, disk@)
                    &&& fs.fat_type == fat_type_of_clusters(disk_total_clusters(disk@))
                    &&& fs.first_data_sector == disk_first_data_sector(disk@)
                    &&& fs.root_dir_sectors == disk_root_dir_sectors(disk@)
                    &&& fs.table.entries@ == spec_fat_entries(fs.fat_type, disk_fat_region(disk@))
                },
                Err(e) => {
                    &&& !open_ok(disk@)
                    &&& (e == FatError::InvalidSignature <==> disk@.len() >= 512 && !sig_ok(disk@))
                    &&& (e == FatError::InvalidGeometry <==> sig_ok(disk@) && !geometry_ok(disk@))
                    &&& (e == FatError::UnexpectedEof <==> disk@.len() < 512 || (sig_ok(disk@)
                        && geometry_ok(disk@) && !fat_region_ok(disk@)))
                },
            },
    {
        let boot = match Self::read_boot_record(disk.as_slice()) {
            Ok(b) => b,
            Err(e) => {
                return Err(e);
            },
        };
        if !(boot.boot_sig[0] == 0x55 && boot.boot_sig[1] == 0xAA) {
            return Err(FatError::InvalidSignature);
        }
        let bps: u16 = boot.bpb.bytes_per_sector;
        let spc: u8 = boot.bpb.sectors_per_cluster;
        if bps == 0 || spc == 0 {
            return Err(FatError::InvalidGeometry);
        }
        let total_sectors: u32 = if boot.bpb.total_sectors_16 == 0 {
            boot.bpb.total_sectors_32
        } else {
            boot.bpb.total_sectors_16 as u32
        };
        let sectors_per_fat: u32 = if boot.bpb.sectors_per_fat_16 == 0 {
            boot.bpb.sectors_per_fat_32
        } else {
            boot.bpb.sectors_per_fat_16 as u32
        };
        let root_dir_sectors: u32 = ((boot.bpb.root_entries as u32) * 32 + (bps as u32 - 1))
            / (bps as u32);
        let fats_n: u64 = boot.bpb.fats as u64;
        let spf_n: u64 = sectors_per_fat as u64;
        assert(fats_n * spf_n <= 0xFE_FFFF_FF01u64) by (nonlinear_arith)
            requires
                fats_n <= 255u64,
                spf_n <= 0xFFFF_FFFFu64,
        ;
        let first_data_sector_64: u64 = boot.bpb.reserved_sectors as u64 + fats_n * spf_n
            + root_dir_sectors as u64;
        if first_data_sector_64 > total_sectors as u64 {
            return Err(FatError::InvalidGeometry);
        }
        let first_data_sector: u32 = first_data_sector_64 as u32;
        let data_sectors: u32 = total_sectors - first_data_sector;
        let total_clusters: u32 = data_sectors / (spc as u32);
        let fat_type = Self::fat_type_from_clusters(total_clusters);

        assert((boot.bpb.reserved_sectors as u64) * (bps as u64) <= 0xFFFE_0001u64)
            by (nonlinear_arith)
            requires
                boot.bpb.reserved_sectors <= 0xFFFFu16,
                bps <= 0xFFFFu16,
        ;
        let fat_offset: u64 = (boot.bpb.reserved_sectors as u64) * (bps as u64);
        assert(spf_n * (bps as u64) <= 0xFFFE_FFFF_0001u64) by (nonlinear_arith)
            requires
                spf_n <= 0xFFFF_FFFFu64,
                bps <= 0xFFFFu16,
        ;
        let fat_size: u64 = spf_n * (bps as u64);
        let fat_end: u64 = fat_offset + fat_size;
        if fat_end > disk.len() as u64 {
            return Err(FatError::UnexpectedEof);
        }
        let region = vstd::slice::slice_subrange(
            disk.as_slice(),
            fat_offset as usize,
            fat_end as usize,
        );
        let table = FatTable::from_bytes(region, fat_type);
        Ok(FatFileSystem {
            disk,
            fat_type,
            boot,
            first_data_sector,
            root_dir_sectors,
            table,
        })
    }

    /// Reads up to `want` bytes of the image at absolute offset `pos`,
    /// clamped to the image's end. This is the single point through which
    /// every reader touches the backing bytes.
    pub fn read_at(&self, pos: u64, want: u64) -> (r: Vec<u8>)
        ensures
            r@.len() == spec_clamp_read(self.disk@.len() as int, pos as int, want as int),
            pos as int <= self.disk@.len() ==> r@ == self.disk@.subrange(
                pos as int,
                pos as int + spec_clamp_read(self.disk@.len() as int, pos as int, want as int),
            ),
    {
        let len: usize = self.disk.len();
        if pos >= len as u64 {
            let r: Vec<u8> = Vec::new();
            assert(pos as int <= self.disk@.len() ==> r@ =~= self.disk@.subrange(
                pos as int, pos as int));
            return r;
        }
        let avail: u64 = len as u64 - pos;
        let n: u64 = if want < avail {
            want
        } else {
            avail
        };
        copy_bytes(self.disk.as_slice(), pos as usize, n as usize)
    }

    /// The detected variant.
    pub fn fat_type(&self) -> (r: FatType)
        ensures
            r == self.fat_type,
    {
        self.fat_type
    }

    /// The volume id from the extended fields of the boot record.
    pub fn volume_id(&self) -> (r: u32)
        ensures
            r == self.boot.bpb.volume_id,
    {
        self.boot.bpb.volume_id
    }

    /// The volume label with its trailing padding removed: the format pads
    /// labels with ASCII spaces, and exactly those are trimmed. Labels are
    /// ASCII in valid media; each such byte becomes the character with its
    /// own value, and any other label still decodes deterministically from
    /// its bytes.
    pub fn volume_label(&self) -> (r: String)
        ensures
            r@ == crate::bytes::utf8_lossy_of(trim_trailing_spaces(self.boot.bpb.volume_label@)),
            ({
                let t = trim_trailing_spaces(self.boot.bpb.volume_label@);
                (forall|i: int| 0 <= i < t.len() ==> t[i] < 0x80) ==> (
                    r@.len() == t.len()
                    && forall|i: int| 0 <= i < t.len() ==> r@[i] == t[i] as char
                )
            }),
    {
        let label = &self.boot.bpb.volume_label;
        let ghost whole = label@;
        let mut end: usize = label.len();
        assert(label@.subrange(0, end as int) =~= whole);
        while end > 0 && label[end - 1] == 0x20
            invariant
                end <= label@.len(),
                label@ == whole,
                trim_trailing_spaces(whole) == trim_trailing_spaces(whole.subrange(0, end as int)),
            decreases end,
        {
            assert(whole.subrange(0, end as int).drop_last() =~= whole.subrange(0, end - 1));
            end = end - 1;
        }
        proof {
            let t = whole.subrange(0, end as int);
            if end > 0 {
                assert(t[t.len() - 1] != 0x20);
            }
            assert(trim_trailing_spaces(t) == t);
        }
        let prefix = copy_bytes(label.as_slice(), 0, end);
        utf8_lossy(prefix.as_slice())
    }

    /// The variant a total cluster count dictates, with the boundaries at
    /// exactly 4085 and 65525 clusters.
    pub fn fat_type_from_clusters(total_clusters: u32) -> (r: FatType)
        ensures
            r == fat_type_of_clusters(total_clusters as int),
    {
        if total_clusters < 4085 {
            FatType::Fat12
        } else if total_clusters < 65525 {
            FatType::Fat16
        } else {
            FatType::Fat32
        }
    }

    /// Decodes the BIOS Parameter Block from the boot sector bytes.
    fn read_bpb(d: &[u8]) -> (r: FatBiosParameterBlock)
        requires
            d@.len() >= 512,
        ensures
            bpb_matches(r, d@),
    {
        let bytes_per_sector = read_le_u16(d, 11);
        let sectors_per_cluster = d[13];
        let reserved_sectors = read_le_u16(d, 14);
        let fats = d[16];
        let root_entries = read_le_u16(d, 17);
        let total_sectors_16 = read_le_u16(d, 19);
        let media = d[21];
        let sectors_per_fat_16 = read_le_u16(d, 22);
        let sectors_per_track = read_le_u16(d, 24);
        let heads = read_le_u16(d, 26);
        let hidden_sectors = read_le_u32(d, 28);
        let total_sectors_32 = read_le_u32(d, 32);
        if sectors_per_fat_16 == 0 {
            FatBiosParameterBlock {
                bytes_per_sector,
                sectors_per_cluster,
                reserved_sectors,
                fats,
                root_entries,
                total_sectors_16,
                media,
                sectors_per_fat_16,
                sectors_per_track,
                heads,
                hidden_sectors,
                total_sectors_32,
                sectors_per_fat_32: read_le_u32(d, 36),
                extended_flags: read_le_u16(d, 40),
                fs_version: read_le_u16(d, 42),
                root_dir_first_cluster: read_le_u32(d, 44),
                fs_info_sector: read_le_u16(d, 48),
                backup_boot_sector: read_le_u16(d, 50),
                reserved_0: copy_bytes(d, 52, 12),
                drive_num: d[64],
                reserved_1: d[65],
                ext_sig: d[66],
                volume_id: read_le_u32(d, 67),
                volume_label: copy_bytes(d, 71, 11),
                fs_type_label: copy_bytes(d, 82, 8),
            }
        } else {
            FatBiosParameterBlock {
                bytes_per_sector,
                sectors_per_cluster,
                reserved_sectors,
                fats,
                root_entries,
                total_sectors_16,
                media,
                sectors_per_fat_16,
                sectors_per_track,
                heads,
                hidden_sectors,
                total_sectors_32,
                sectors_per_fat_32: 0,
                extended_flags: 0,
                fs_version: 0,
                root_dir_first_cluster: 0,
                fs_info_sector: 0,
                backup_boot_sector: 0,
                reserved_0: Vec::new(),
                drive_num: d[36],
                reserved_1: d[37],
                ext_sig: d[38],
                volume_id: read_le_u32(d, 39),
                volume_label: copy_bytes(d, 43, 11),
                fs_type_label: copy_bytes(d, 54, 8),
            }
        }
    }

    /// Decodes the whole boot record, or fails when the image cannot hold a
    /// full boot sector.
    fn read_boot_record(d: &[u8]) -> (r: Result<FatBootRecord, FatError>)
        ensures
            d@.len() < 512 ==> r == Err::<FatBootRecord, FatError>(FatError::UnexpectedEof),
            d@.len() >= 512 ==> (r matches Ok(b) && boot_matches(b, d@)),
    {
        if d.len() < 512 {
            return Err(FatError::UnexpectedEof);
        }
        let bootjmp = copy_bytes(d, 0, 3);
        let oem_name = copy_bytes(d, 3, 8);
        let bpb = Self::read_bpb(d);
        let boot_code = if bpb.sectors_per_fat_16 == 0 {
            copy_bytes(d, 90, 420)
        } else {
            copy_bytes(d, 62, 448)
        };
        let boot_sig = copy_bytes(d, 510, 2);
        Ok(FatBootRecord { bootjmp, oem_name, bpb, boot_code, boot_sig })
    }

    /// The byte offset of a sector.
    pub fn offset_from_sector(&self, sector: u32) -> (r: u64)
        ensures
            r == self.spec_offset_from_sector(sector as int),
    {
        assert((sector as u64) * (self.boot.bpb.bytes_per_sector as u64)
            <= 0xFFFE_FFFF_0001u64) by (nonlinear_arith)
            requires
                sector <= 0xFFFF_FFFFu32,
                self.boot.bpb.bytes_per_sector <= 0xFFFFu16,
        ;
        (sector as u64) * (self.boot.bpb.bytes_per_sector as u64)
    }

    /// The first sector of a cluster.
    pub fn sector_from_cluster(&self, cluster: u32) -> (r: u32)
        requires
            cluster >= 2,
            self.spec_sector_from_cluster(cluster as int) <= u32::MAX,
        ensures
            r == self.spec_sector_from_cluster(cluster as int),
    {
        (cluster - 2) * (self.boot.bpb.sectors_per_cluster as u32) + self.first_data_sector
    }

    /// The size of one cluster in bytes.
    pub fn get_cluster_size(&self) -> (r: u32)
        ensures
            r == self.boot.bpb.spec_cluster_size(),
    {
        assert((self.boot.bpb.sectors_per_cluster as u32) * (self.boot.bpb.bytes_per_sector as u32)
            <= 0xFE_FF01u32) by (nonlinear_arith)
            requires
                self.boot.bpb.sectors_per_cluster <= 0xFFu8,
                self.boot.bpb.bytes_per_sector <= 0xFFFFu16,
        ;
        (self.boot.bpb.sectors_per_cluster as u32) * (self.boot.bpb.bytes_per_sector as u32)
    }

    /// The byte offset of a cluster's first byte.
    pub fn offset_from_cluster(&self, cluster: u32) -> (r: u64)
        requires
            cluster >= 2,
        ensures
            r == self.spec_offset_from_cluster(cluster as int),
            r <= 0xFF_FF00_0000_0000u64,
    {
        let c64: u64 = (cluster - 2) as u64;
        let spc64: u64 = self.boot.bpb.sectors_per_cluster as u64;
        let bps64: u64 = self.boot.bpb.bytes_per_sector as u64;
        assert(c64 * spc64 <= 0xFE_FFFF_FF01u64) by (nonlinear_arith)
            requires
                c64 <= 0xFFFF_FFFFu64,
                spc64 <= 0xFFu64,
        ;
        let sector: u64 = c64 * spc64 + self.first_data_sector as u64;
        assert(sector * bps64 <= 0xFF_FF00_0000_0000u64) by (nonlinear_arith)
            requires
                sector <= 0xFF_FFFF_FF00u64,
                bps64 <= 0xFFFFu64,
        ;
        sector * bps64
    }
}

/// Law: the cluster→sector mapping round-trips. For any cluster `c` of the
/// volume, applying the inverse arithmetic to the first sector of `c`
/// recovers `c` itself.
pub proof fn lemma_cluster_sector_round_trip(fs: FatFileSystem, c: int)
    requires
        fs.wf(),
        2 <= c < fs.boot.bpb.spec_total_clusters(),
    ensures
        (fs.spec_sector_from_cluster(c) - fs.first_data_sector)
            / (fs.boot.bpb.sectors_per_cluster as int) + 2 == c,
{
    let spc = fs.boot.bpb.sectors_per_cluster as int;
    assert((c - 2) * spc / spc == c - 2) by (nonlinear_arith)
        requires
            0 < spc,
    ;
}

} // verus!
