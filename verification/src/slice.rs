//! The bounded byte-range view: an absolute window of the backing image
//! with an independent cursor, the uniform low-level primitive behind the
//! legacy fixed root directory and any other fixed-region read.

use vstd::prelude::*;

use crate::fs::{min_int, spec_clamp_read, FatError, FatFileSystem};

verus! {

/// Where a seek counts from: the window's start, the current cursor, or
/// the window's end.
#[derive(Debug, Copy, Clone, PartialEq, Eq, Structural)]
pub enum SeekFrom {
    Start(u64),
    Current(i64),
    End(i64),
}

/// A `[begin, begin + size)` byte window of the shared image, with its own
/// cursor. Created fresh for each logical sub-region; it holds no bytes of
/// its own and borrows the filesystem per read.
#[derive(Debug)]
pub struct FatSlice {
    pub begin: u64,
    pub size: u64,
    pub offset: u64,
}

impl FatSlice {
    /// The cursor never leaves the window, and the window's end stays
    /// expressible as a byte offset.
    pub open spec fn wf(self) -> bool {
        &&& self.offset <= self.size
        &&& self.begin + self.size <= u64::MAX
    }

    /// A view of the `size` bytes from absolute offset `begin`, with the
    /// cursor at the window's start.
    pub fn new(begin: u64, size: u64) -> (s: FatSlice)
        requires
            begin + size <= u64::MAX,
        ensures
            s.begin == begin,
            s.size == size,
            s.offset == 0,
            s.wf(),
    {
        FatSlice { begin, size, offset: 0 }
    }

    /// A view of a whole run of sectors.
    pub fn from_sectors(first_sector: u32, sectors_count: u32, fs: &FatFileSystem) -> (s: FatSlice)
        ensures
            s.begin == fs.spec_offset_from_sector(first_sector as int),
            s.size == sectors_count as int * fs.boot.bpb.bytes_per_sector as int,
            s.offset == 0,
            s.wf(),
    {
        let bps: u64 = fs.boot.bpb.bytes_per_sector as u64;
        assert((first_sector as u64) * bps <= 0xFFFE_FFFF_0001u64) by (nonlinear_arith)
            requires
                first_sector <= 0xFFFF_FFFFu32,
                bps <= 0xFFFFu64,
        ;
        assert((sectors_count as u64) * bps <= 0xFFFE_FFFF_0001u64) by (nonlinear_arith)
            requires
                sectors_count <= 0xFFFF_FFFFu32,
                bps <= 0xFFFFu64,
        ;
        FatSlice::new((first_sector as u64) * bps, (sectors_count as u64) * bps)
    }

    /// Reads up to `max` bytes at the cursor: no more than the window
    /// holds past the cursor, clamped to the image's end, advancing the
    /// cursor by what was actually read. A cursor at the window's end
    /// yields no bytes.
    pub fn read(&mut self, fs: &FatFileSystem, max: usize) -> (r: Vec<u8>)
        requires
            old(self).wf(),
        ensures
            final(self).wf(),
            final(self).begin == old(self).begin,
            final(self).size == old(self).size,
            ({
                let pos = old(self).begin + old(self).offset;
                let want = min_int(old(self).size - old(self).offset, max as int);
                let actual = spec_clamp_read(fs.disk@.len() as int, pos, want);
                &&& r@.len() == actual
                &&& (pos <= fs.disk@.len() ==> r@ == fs.disk@.subrange(pos, pos + actual))
                &&& final(self).offset == old(self).offset + actual
            }),
    {
        let pos: u64 = self.begin + self.offset;
        let window_rem: u64 = self.size - self.offset;
        let want: u64 = if (max as u64) < window_rem {
            max as u64
        } else {
            window_rem
        };
        let r = fs.read_at(pos, want);
        self.offset = self.offset + r.len() as u64;
        r
    }

    /// Moves the cursor. A target outside `[0, size]` is refused with an
    /// input error and the cursor stays; the window's end itself is a legal
    /// target and makes further reads yield nothing.
    pub fn seek(&mut self, pos: SeekFrom) -> (r: Result<u64, FatError>)
        requires
            old(self).wf(),
        ensures
            final(self).wf(),
            final(self).begin == old(self).begin,
            final(self).size == old(self).size,
            ({
                let target: int = match pos {
                    SeekFrom::Start(x) => x as int,
                    SeekFrom::Current(x) => old(self).offset + x,
                    SeekFrom::End(x) => old(self).size + x,
                };
                if target < 0 || target > old(self).size {
                    &&& r == Err::<u64, FatError>(FatError::InvalidSeek)
                    &&& final(self).offset == old(self).offset
                } else {
                    &&& r == Ok::<u64, FatError>(target as u64)
                    &&& final(self).offset == target
                }
            }),
    {
        let target: i128 = match pos {
            SeekFrom::Start(x) => x as i128,
            SeekFrom::Current(x) => self.offset as i128 + x as i128,
            SeekFrom::End(x) => self.size as i128 + x as i128,
        };
        if target < 0 || target > self.size as i128 {
            Err(FatError::InvalidSeek)
        } else {
            self.offset = target as u64;
            Ok(self.offset)
        }
    }
}

} // verus!
