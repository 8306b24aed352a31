//! WAD2 files: a directory of named lumps, looked up by a cleaned-up,
//! lower-case name of at most 16 bytes.
use vstd::prelude::*;
use vstd::string::StringSliceAdditionalSpecFns;
use crate::bytes::{u32_at, read_u32_at};
use crate::msg::{zero_from, lemma_zero_from_bounds};
use crate::text::{chars_of, chars_eq, lossy_text, string_from_utf8_lossy, fixed_string};

verus! {

#[derive(Debug, Clone, Copy, PartialEq, Eq)]
pub enum WadError {
    InvalidHeader,
    InvalidDirectory,
    UnsupportedCompression(u8),
    EntryNotFound,
}

#[derive(Debug, Clone)]
pub struct WadEntry {
    pub name: String,
    pub filepos: u32,
    pub disksize: u32,
    pub size: u32,
    pub typ: u8,
    pub compression: u8,
}

/// An entry as the contracts see it.
pub struct WadEntryView {
    pub name: Seq<char>,
    pub filepos: u32,
    pub disksize: u32,
    pub size: u32,
    pub typ: u8,
    pub compression: u8,
}

pub open spec fn wad_entry_view(e: WadEntry) -> WadEntryView {
    WadEntryView {
        name: e.name@,
        filepos: e.filepos,
        disksize: e.disksize,
        size: e.size,
        typ: e.typ,
        compression: e.compression,
    }
}

pub open spec fn lower_byte(b: u8) -> u8 {
    if 65 <= b && b <= 90 {
        (b + 32) as u8
    } else {
        b
    }
}

/// The 16-byte name field that a name makes: its first 16 bytes in lower
/// case, zero-padded.
pub open spec fn name_field(bytes: Seq<u8>) -> Seq<u8> {
    Seq::new(16, |i: int| if i < bytes.len() { lower_byte(bytes[i]) } else { 0u8 })
}

/// A lump name as lookups compare it: the field up to its first zero,
/// decoded.
pub open spec fn clean_name(bytes: Seq<u8>) -> Seq<char> {
    let f = name_field(bytes);
    lossy_text(f.take(zero_from(f, 0)))
}

pub open spec fn wad_magic() -> Seq<u8> {
    seq![0x57u8, 0x41u8, 0x44u8, 0x32u8]
}

/// The directory record at `off`.
pub open spec fn wad_record(d: Seq<u8>, off: int) -> WadEntryView {
    WadEntryView {
        name: clean_name(d.subrange(off + 16, off + 32)),
        filepos: u32_at(d, off),
        disksize: u32_at(d, off + 4),
        size: u32_at(d, off + 8),
        typ: d[off + 12],
        compression: d[off + 13],
    }
}

/// The entries of a WAD2 file, or why it is refused.
pub open spec fn spec_wad(d: Seq<u8>) -> Result<Seq<WadEntryView>, WadError> {
    if d.len() < 12 || d.take(4) != wad_magic() {
        Err(WadError::InvalidHeader)
    } else {
        let count = u32_at(d, 4) as int;
        let dir = u32_at(d, 8) as int;
        if dir + count * 32 > d.len() {
            Err(WadError::InvalidDirectory)
        } else {
            Ok(Seq::new(count as nat, |i: int| wad_record(d, dir + 32 * i)))
        }
    }
}

/// The bytes of an entry, when it is stored uncompressed within the file.
pub open spec fn spec_entry_bytes(d: Seq<u8>, e: WadEntryView) -> Result<Seq<u8>, WadError> {
    if e.compression != 0 {
        Err(WadError::UnsupportedCompression(e.compression))
    } else if e.filepos + e.disksize > d.len() {
        Err(WadError::InvalidDirectory)
    } else {
        Ok(d.subrange(e.filepos as int, e.filepos + e.disksize))
    }
}

#[derive(Debug)]
pub struct Wad {
    path: String,
    data: Vec<u8>,
    entries: Vec<WadEntry>,
}

/// The cleaned-up form of a name that a caller looks up.
fn cleanup_name_str(name: &str) -> (r: String)
    ensures
        r@ == clean_name(name.spec_bytes()),
{
    cleanup_name_bytes(name.as_bytes())
}

/// The cleaned-up name of a name field or of a looked-up name.
pub(crate) fn cleanup_name_bytes(bytes: &[u8]) -> (r: String)
    ensures
        r@ == clean_name(bytes@),
{
    let mut out: Vec<u8> = Vec::new();
    let mut i: usize = 0;
    while i < 16
        invariant
            i <= 16,
            out@ == name_field(bytes@).take(i as int),
        decreases 16 - i,
    {
        let c = if i < bytes.len() {
            let b = bytes[i];
            if 65 <= b && b <= 90 { b + 32 } else { b }
        } else {
            0u8
        };
        out.push(c);
        assert(out@ =~= name_field(bytes@).take(i + 1));
        i = i + 1;
    }
    assert(out@ =~= name_field(bytes@));
    fixed_string(out.as_slice())
}

impl Wad {
    pub closed spec fn spec_path(&self) -> Seq<char> {
        self.path@
    }

    pub closed spec fn spec_data(&self) -> Seq<u8> {
        self.data@
    }

    pub closed spec fn spec_entries(&self) -> Seq<WadEntryView> {
        Seq::new(self.entries@.len(), |i: int| wad_entry_view(self.entries@[i]))
    }

    /// Reads the directory of a WAD2 file held in memory.
    pub fn from_bytes(data: Vec<u8>) -> (r: Result<Self, WadError>)
        ensures
            match spec_wad(data@) {
                Ok(entries) => r matches Ok(w) && w.spec_path() == "<memory>"@ && w.spec_data() == data@
                    && w.spec_entries() == entries,
                Err(e) => r == Err::<Self, WadError>(e),
            },
    {
        Self::parse_with_path("<memory>".to_owned(), data)
    }

    /// Reads the directory of a WAD2 file read from `path`.
    pub fn parse_with_path(path: String, data: Vec<u8>) -> (r: Result<Self, WadError>)
        ensures
            match spec_wad(data@) {
                Ok(entries) => r matches Ok(w) && w.spec_path() == path@ && w.spec_data() == data@
                    && w.spec_entries() == entries,
                Err(e) => r == Err::<Self, WadError>(e),
            },
    {
        if data.len() < 12 {
            return Err(WadError::InvalidHeader);
        }
        if !(data[0] == 0x57 && data[1] == 0x41 && data[2] == 0x44 && data[3] == 0x32) {
            proof {
                if data@.take(4) == wad_magic() {
                    assert(data@[0] == data@.take(4)[0]);
                    assert(data@[1] == data@.take(4)[1]);
                    assert(data@[2] == data@.take(4)[2]);
                    assert(data@[3] == data@.take(4)[3]);
                }
            }
            return Err(WadError::InvalidHeader);
        }
        assert(data@.take(4) =~= wad_magic());
        let num_lumps = read_u32_at(data.as_slice(), 4);
        let dir_offset = read_u32_at(data.as_slice(), 8);
        let dir_end: u64 = dir_offset as u64 + num_lumps as u64 * 32;
        if dir_end > data.len() as u64 {
            return Err(WadError::InvalidDirectory);
        }
        let count = num_lumps as usize;
        let mut entries: Vec<WadEntry> = Vec::new();
        let mut k: usize = 0;
        while k < count
            invariant
                k <= count,
                count == num_lumps,
                dir_offset as int + count * 32 <= data@.len(),
                data@.len() == data.len(),
                entries@.len() == k,
                forall|i: int| 0 <= i < k ==> wad_entry_view(#[trigger] entries@[i]) == wad_record(data@, dir_offset + 32 * i),
            decreases count - k,
        {
            assert(dir_offset as int + 32 * k + 32 <= data@.len()) by (nonlinear_arith)
                requires
                    k < count,
                    dir_offset as int + count * 32 <= data@.len(),
            ;
            let off = dir_offset as usize + 32 * k;
            let filepos = read_u32_at(data.as_slice(), off);
            let disksize = read_u32_at(data.as_slice(), off + 4);
            let size = read_u32_at(data.as_slice(), off + 8);
            let typ = data[off + 12];
            let compression = data[off + 13];
            let name = cleanup_name_bytes(&data[off + 16..off + 32]);
            entries.push(WadEntry { name, filepos, disksize, size, typ, compression });
            k = k + 1;
        }
        let w = Wad { path, data, entries };
        assert(w.spec_entries() =~= Seq::new(count as nat, |i: int| wad_record(w.spec_data(), dir_offset + 32 * i)));
        Ok(w)
    }

    pub fn entries(&self) -> (r: &[WadEntry])
        ensures
            Seq::new(r@.len(), |i: int| wad_entry_view(r@[i])) == self.spec_entries(),
    {
        let r = self.entries.as_slice();
        assert(Seq::new(r@.len(), |i: int| wad_entry_view(r@[i])) =~= self.spec_entries());
        r
    }

    /// The first entry whose name matches `name` cleaned up.
    pub fn find(&self, name: &str) -> (r: Option<&WadEntry>)
        ensures
            match r {
                Some(e) => exists|i: int| 0 <= i < self.spec_entries().len()
                    && self.spec_entries()[i] == wad_entry_view(*e)
                    && e.name@ == clean_name(name.spec_bytes())
                    && forall|j: int| 0 <= j < i ==> (#[trigger] self.spec_entries()[j]).name != clean_name(name.spec_bytes()),
                None => forall|j: int| 0 <= j < self.spec_entries().len()
                    ==> (#[trigger] self.spec_entries()[j]).name != clean_name(name.spec_bytes()),
            },
    {
        let cleaned = cleanup_name_str(name);
        let wanted = chars_of(cleaned.as_str());
        let mut i: usize = 0;
        while i < self.entries.len()
            invariant
                i <= self.entries@.len(),
                wanted@ == clean_name(name.spec_bytes()),
                forall|j: int| 0 <= j < i ==> (#[trigger] self.spec_entries()[j]).name != clean_name(name.spec_bytes()),
            decreases self.entries@.len() - i,
        {
            let candidate = chars_of(self.entries[i].name.as_str());
            assert(self.spec_entries()[i as int] == wad_entry_view(self.entries@[i as int]));
            if chars_eq(candidate.as_slice(), wanted.as_slice()) {
                return Some(&self.entries[i]);
            }
            i = i + 1;
        }
        None
    }

    /// The bytes of the entry named `name`.
    pub fn get(&self, name: &str) -> (r: Result<&[u8], WadError>)
        ensures
            match self.find_spec(name.spec_bytes()) {
                None => r == Err::<&[u8], WadError>(WadError::EntryNotFound),
                Some(e) => match spec_entry_bytes(self.spec_data(), e) {
                    Ok(bytes) => r matches Ok(s) && s@ == bytes,
                    Err(x) => r == Err::<&[u8], WadError>(x),
                },
            },
    {
        proof {
            self.lemma_find_spec(name.spec_bytes());
        }
        let entry = match self.find(name) {
            Some(e) => e,
            None => {
                return Err(WadError::EntryNotFound);
            },
        };
        self.get_entry(entry)
    }

    /// The first entry with the cleaned-up name of `name`.
    pub open spec fn find_spec(&self, name: Seq<u8>) -> Option<WadEntryView> {
        let k = first_match(self.spec_entries(), clean_name(name), 0);
        if k < self.spec_entries().len() {
            Some(self.spec_entries()[k])
        } else {
            None
        }
    }

    proof fn lemma_find_spec(&self, name: Seq<u8>)
        ensures
            forall|i: int| 0 <= i < self.spec_entries().len() && self.spec_entries()[i].name == clean_name(name)
                && (forall|j: int| 0 <= j < i ==> (#[trigger] self.spec_entries()[j]).name != clean_name(name))
                ==> first_match(self.spec_entries(), clean_name(name), 0) == i,
            (forall|j: int| 0 <= j < self.spec_entries().len() ==> (#[trigger] self.spec_entries()[j]).name != clean_name(name))
                ==> first_match(self.spec_entries(), clean_name(name), 0) >= self.spec_entries().len(),
    {
        assert forall|i: int| 0 <= i < self.spec_entries().len() && self.spec_entries()[i].name == clean_name(name)
            && (forall|j: int| 0 <= j < i ==> (#[trigger] self.spec_entries()[j]).name != clean_name(name))
            implies first_match(self.spec_entries(), clean_name(name), 0) == i by {
            lemma_first_match(self.spec_entries(), clean_name(name), 0, i);
        }
        if forall|j: int| 0 <= j < self.spec_entries().len() ==> (#[trigger] self.spec_entries()[j]).name != clean_name(name) {
            lemma_first_match(self.spec_entries(), clean_name(name), 0, self.spec_entries().len() as int);
        }
    }

    /// The bytes of an entry of this file.
    pub fn get_entry(&self, entry: &WadEntry) -> (r: Result<&[u8], WadError>)
        ensures
            match spec_entry_bytes(self.spec_data(), wad_entry_view(*entry)) {
                Ok(bytes) => r matches Ok(s) && s@ == bytes,
                Err(x) => r == Err::<&[u8], WadError>(x),
            },
    {
        if entry.compression != 0 {
            return Err(WadError::UnsupportedCompression(entry.compression));
        }
        let end: u64 = entry.filepos as u64 + entry.disksize as u64;
        if end > self.data.len() as u64 {
            return Err(WadError::InvalidDirectory);
        }
        let start = entry.filepos as usize;
        let stop = start + entry.disksize as usize;
        Ok(&self.data[start..stop])
    }

    pub fn path(&self) -> (r: &str)
        ensures
            r@ == self.spec_path(),
    {
        self.path.as_str()
    }
}

/// Index of the first entry from `i` on named `name`, or the length.
pub open spec fn first_match(entries: Seq<WadEntryView>, name: Seq<char>, i: int) -> int
    decreases entries.len() - i,
{
    if i < 0 || i >= entries.len() {
        entries.len() as int
    } else if entries[i].name == name {
        i
    } else {
        first_match(entries, name, i + 1)
    }
}

proof fn lemma_first_match(entries: Seq<WadEntryView>, name: Seq<char>, i: int, k: int)
    requires
        0 <= i <= k <= entries.len(),
        k < entries.len() ==> entries[k].name == name,
        forall|j: int| i <= j < k ==> (#[trigger] entries[j]).name != name,
    ensures
        first_match(entries, name, i) == k,
    decreases k - i,
{
    if i < k {
        lemma_first_match(entries, name, i + 1, k);
    }
}

} // verus!
