//! Pack files: a directory of named entries stored in one file. The
//! library reads the header and the directory; the bytes come from the
//! file system around it.
use vstd::prelude::*;
use crate::bytes::{u32_at, read_u32_at};
use crate::crc::{crc_block, crc_of};
use crate::msg::zero_from;
use crate::text::{chars_of, chars_eq, eq_ignore_ascii_case, fixed_string, seq_eq_ignore_ascii_case, lossy_text};

verus! {

#[derive(Debug, Clone, Copy, PartialEq, Eq)]
pub enum PakError {
    InvalidHeader,
    InvalidDirectory,
    EntryNotFound,
}

#[derive(Debug, Clone)]
pub struct PakEntry {
    pub name: String,
    pub offset: u32,
    pub length: u32,
}

impl PakEntry {
    /// A copy of the entry.
    pub fn clone_entry(&self) -> (r: PakEntry)
        ensures
            entry_view(r) == entry_view(*self),
    {
        PakEntry { name: self.name.clone(), offset: self.offset, length: self.length }
    }
}

/// An entry as the contracts see it: name, offset, length.
pub open spec fn entry_view(e: PakEntry) -> (Seq<char>, u32, u32) {
    (e.name@, e.offset, e.length)
}

/// The size of one directory record: a 56-byte name, offset, length.
pub const PAK_ENTRY_SIZE: usize = 64;

pub open spec fn pack_magic() -> Seq<u8> {
    seq![0x50u8, 0x41u8, 0x43u8, 0x4bu8]
}

/// The directory's offset and length that a 12-byte pack header gives.
pub open spec fn spec_pak_header(header: Seq<u8>) -> Result<(u32, u32), PakError> {
    if header.take(4) != pack_magic() {
        Err(PakError::InvalidHeader)
    } else if u32_at(header, 8) % 64 != 0 {
        Err(PakError::InvalidDirectory)
    } else {
        Ok((u32_at(header, 4), u32_at(header, 8)))
    }
}

/// The `i`th record of a directory.
pub open spec fn pak_record(dir: Seq<u8>, i: int) -> (Seq<char>, u32, u32) {
    let rec = dir.subrange(64 * i, 64 * i + 64);
    let name = rec.take(56);
    (lossy_text(name.take(zero_from(name, 0))), u32_at(rec, 56), u32_at(rec, 60))
}

/// The entries of a directory, one per 64-byte record.
pub open spec fn pak_records(dir: Seq<u8>) -> Seq<(Seq<char>, u32, u32)> {
    Seq::new(dir.len() / 64, |i: int| pak_record(dir, i))
}

/// The count and directory CRC of the stock `pak0.pak`.
pub const PAK0_COUNT: usize = 339;
pub const PAK0_CRC: u16 = 52883;

#[derive(Debug)]
pub struct Pak {
    path: String,
    entries: Vec<PakEntry>,
    dir_crc: u16,
}

impl Pak {
    pub closed spec fn spec_path(&self) -> Seq<char> {
        self.path@
    }

    pub closed spec fn spec_entries(&self) -> Seq<(Seq<char>, u32, u32)> {
        Seq::new(self.entries@.len(), |i: int| entry_view(self.entries@[i]))
    }

    pub closed spec fn spec_dir_crc(&self) -> u16 {
        self.dir_crc
    }

    /// Checks a pack header and gives the directory's offset and length.
    pub fn parse_header(header: &[u8]) -> (r: Result<(u32, u32), PakError>)
        requires
            header@.len() >= 12,
        ensures
            r == spec_pak_header(header@),
    {
        if !(header[0] == 0x50 && header[1] == 0x41 && header[2] == 0x43 && header[3] == 0x4b) {
            proof {
                if header@.take(4) == pack_magic() {
                    assert(header@[0] == header@.take(4)[0]);
                    assert(header@[1] == header@.take(4)[1]);
                    assert(header@[2] == header@.take(4)[2]);
                    assert(header@[3] == header@.take(4)[3]);
                }
            }
            return Err(PakError::InvalidHeader);
        }
        assert(header@.take(4) =~= pack_magic());
        let dir_offset = read_u32_at(header, 4);
        let dir_length = read_u32_at(header, 8);
        if dir_length % 64 != 0 {
            return Err(PakError::InvalidDirectory);
        }
        Ok((dir_offset, dir_length))
    }

    /// The pack whose directory is `dir`, read from the file at `path`.
    pub fn from_directory(path: String, dir: &[u8]) -> (r: Self)
        ensures
            r.spec_path() == path@,
            r.spec_entries() == pak_records(dir@),
            r.spec_dir_crc() == crc_of(dir@),
    {
        let dir_crc = crc_block(dir);
        let count = dir.len() / 64;
        let mut entries: Vec<PakEntry> = Vec::new();
        let mut k: usize = 0;
        while k < count
            invariant
                count == dir.len() / 64,
                k <= count,
                entries@.len() == k,
                forall|i: int| 0 <= i < k ==> entry_view(#[trigger] entries@[i]) == pak_record(dir@, i),
            decreases count - k,
        {
            assert(k * 64 + 64 <= dir@.len()) by (nonlinear_arith)
                requires
                    k < count,
                    count == dir@.len() / 64,
            ;
            let c = k * 64;
            let rec = &dir[c..c + 64];
            let name = fixed_string(&rec[0..56]);
            let offset = read_u32_at(rec, 56);
            let length = read_u32_at(rec, 60);
            proof {
                assert(rec@ == dir@.subrange(64 * k, 64 * k + 64));
                assert(rec@.subrange(0, 56) =~= rec@.take(56));
            }
            entries.push(PakEntry { name, offset, length });
            k = k + 1;
        }
        let r = Pak { path, entries, dir_crc };
        assert(r.spec_entries() =~= pak_records(dir@));
        r
    }

    pub fn entries(&self) -> (r: &[PakEntry])
        ensures
            Seq::new(r@.len(), |i: int| entry_view(r@[i])) == self.spec_entries(),
    {
        let r = self.entries.as_slice();
        assert(Seq::new(r@.len(), |i: int| entry_view(r@[i])) =~= self.spec_entries());
        r
    }

    pub fn dir_crc(&self) -> (r: u16)
        ensures
            r == self.spec_dir_crc(),
    {
        self.dir_crc
    }

    pub fn path(&self) -> (r: &str)
        ensures
            r@ == self.spec_path(),
    {
        self.path.as_str()
    }

    /// The first entry named exactly `name`.
    pub fn find(&self, name: &str) -> (r: Option<&PakEntry>)
        ensures
            match r {
                Some(e) => exists|i: int| 0 <= i < self.spec_entries().len()
                    && self.spec_entries()[i] == entry_view(*e)
                    && e.name@ == name@
                    && forall|j: int| 0 <= j < i ==> (#[trigger] self.spec_entries()[j]).0 != name@,
                None => forall|j: int| 0 <= j < self.spec_entries().len() ==> (#[trigger] self.spec_entries()[j]).0 != name@,
            },
    {
        let wanted = chars_of(name);
        let mut i: usize = 0;
        while i < self.entries.len()
            invariant
                i <= self.entries@.len(),
                wanted@ == name@,
                forall|j: int| 0 <= j < i ==> (#[trigger] self.spec_entries()[j]).0 != name@,
            decreases self.entries@.len() - i,
        {
            let candidate = chars_of(self.entries[i].name.as_str());
            if chars_eq(candidate.as_slice(), wanted.as_slice()) {
                assert(self.spec_entries()[i as int] == entry_view(self.entries@[i as int]));
                return Some(&self.entries[i]);
            }
            assert(self.spec_entries()[i as int].0 != name@);
            i = i + 1;
        }
        None
    }

    /// The first entry whose name equals `name` up to ASCII case.
    pub fn find_case_insensitive(&self, name: &str) -> (r: Option<&PakEntry>)
        ensures
            match r {
                Some(e) => exists|i: int| 0 <= i < self.spec_entries().len()
                    && self.spec_entries()[i] == entry_view(*e)
                    && seq_eq_ignore_ascii_case(e.name@, name@)
                    && forall|j: int| 0 <= j < i ==> !seq_eq_ignore_ascii_case((#[trigger] self.spec_entries()[j]).0, name@),
                None => forall|j: int| 0 <= j < self.spec_entries().len()
                    ==> !seq_eq_ignore_ascii_case((#[trigger] self.spec_entries()[j]).0, name@),
            },
    {
        let wanted = chars_of(name);
        let mut i: usize = 0;
        while i < self.entries.len()
            invariant
                i <= self.entries@.len(),
                wanted@ == name@,
                forall|j: int| 0 <= j < i ==> !seq_eq_ignore_ascii_case((#[trigger] self.spec_entries()[j]).0, name@),
            decreases self.entries@.len() - i,
        {
            let candidate = chars_of(self.entries[i].name.as_str());
            if eq_ignore_ascii_case(candidate.as_slice(), wanted.as_slice()) {
                assert(self.spec_entries()[i as int] == entry_view(self.entries@[i as int]));
                return Some(&self.entries[i]);
            }
            assert(!seq_eq_ignore_ascii_case(self.spec_entries()[i as int].0, name@));
            i = i + 1;
        }
        None
    }

    /// Whether this is the stock `pak0.pak`, by its entry count and
    /// directory CRC.
    pub fn is_stock_pak0(&self) -> (r: bool)
        ensures
            r == (self.spec_entries().len() == PAK0_COUNT && self.spec_dir_crc() == PAK0_CRC),
    {
        self.entries.len() == PAK0_COUNT && self.dir_crc == PAK0_CRC
    }
}

} // verus!
