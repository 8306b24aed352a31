//! The header of a BSP map (version 29): where its fifteen lumps lie, the
//! entity text, and the map checksums.
use vstd::prelude::*;
use crate::bytes::{u32_at, read_u32_at};
use crate::md4::{block_checksum, spec_block_checksum};
use crate::text::{lossy_text, string_from_utf8_lossy, string_of, chars_of};
use crate::data_paths::trim_end_char;

verus! {

pub const BSP_VERSION: i32 = 29;
pub const HEADER_LUMPS: usize = 15;

pub const LUMP_ENTITIES: usize = 0;
pub const LUMP_PLANES: usize = 1;
pub const LUMP_TEXTURES: usize = 2;
pub const LUMP_VERTEXES: usize = 3;
pub const LUMP_VISIBILITY: usize = 4;
pub const LUMP_NODES: usize = 5;
pub const LUMP_TEXINFO: usize = 6;
pub const LUMP_FACES: usize = 7;
pub const LUMP_LIGHTING: usize = 8;
pub const LUMP_CLIPNODES: usize = 9;
pub const LUMP_LEAFS: usize = 10;
pub const LUMP_MARKSURFACES: usize = 11;
pub const LUMP_EDGES: usize = 12;
pub const LUMP_SURFEDGES: usize = 13;
pub const LUMP_MODELS: usize = 14;

pub const MAX_MAP_HULLS: usize = 4;

#[derive(Debug, Copy, Clone, PartialEq, Eq, Structural)]
pub struct Lump {
    pub offset: u32,
    pub length: u32,
}

#[derive(Debug, Clone, Copy, PartialEq, Eq)]
pub enum BspError {
    InvalidHeader,
    UnsupportedVersion(i32),
    InvalidLump,
}

#[derive(Debug)]
pub struct Bsp {
    data: Vec<u8>,
    pub version: i32,
    pub lumps: [Lump; 15],
}

/// The lump directory of a map file.
pub open spec fn header_lumps(d: Seq<u8>) -> Seq<Lump> {
    Seq::new(15, |i: int| Lump { offset: u32_at(d, 4 + 8 * i), length: u32_at(d, 8 + 8 * i) })
}

/// What a map file's header says: its version and lumps.
pub open spec fn spec_bsp_header(d: Seq<u8>) -> Result<Seq<Lump>, BspError> {
    if d.len() < 124 {
        Err(BspError::InvalidHeader)
    } else if u32_at(d, 0) as i32 != BSP_VERSION {
        Err(BspError::UnsupportedVersion(u32_at(d, 0) as i32))
    } else {
        Ok(header_lumps(d))
    }
}

/// The bytes of a lump, when it lies within the file.
pub open spec fn spec_lump(d: Seq<u8>, lumps: Seq<Lump>, index: int) -> Result<Seq<u8>, BspError> {
    if index < 0 || index >= 15 {
        Err(BspError::InvalidLump)
    } else {
        let l = lumps[index];
        if l.offset + l.length > d.len() {
            Err(BspError::InvalidLump)
        } else {
            Ok(d.subrange(l.offset as int, l.offset + l.length))
        }
    }
}

/// The two map checksums over lumps `1..n`: the first XORs the block
/// checksums of them all, the second leaves out the visibility, leaf and
/// node lumps.
pub open spec fn checksums_upto(d: Seq<u8>, lumps: Seq<Lump>, n: int) -> Result<(u32, u32), BspError>
    decreases n,
{
    if n <= 1 {
        Ok((0u32, 0u32))
    } else {
        match checksums_upto(d, lumps, n - 1) {
            Err(e) => Err(e),
            Ok((c1, c2)) => match spec_lump(d, lumps, n - 1) {
                Err(e) => Err(e),
                Ok(bytes) => {
                    let v = spec_block_checksum(bytes);
                    let skip = n - 1 == LUMP_VISIBILITY || n - 1 == LUMP_LEAFS || n - 1 == LUMP_NODES;
                    Ok((c1 ^ v, if skip { c2 } else { c2 ^ v }))
                },
            },
        }
    }
}

impl Bsp {
    pub closed spec fn spec_data(&self) -> Seq<u8> {
        self.data@
    }

    pub closed spec fn spec_version(&self) -> i32 {
        self.version
    }

    pub closed spec fn spec_lumps(&self) -> Seq<Lump> {
        self.lumps@
    }

    /// Reads the header of a map file.
    pub fn from_bytes(data: Vec<u8>) -> (r: Result<Self, BspError>)
        ensures
            match spec_bsp_header(data@) {
                Ok(lumps) => r matches Ok(b) && b.spec_data() == data@ && b.spec_version() == BSP_VERSION
                    && b.spec_lumps() == lumps,
                Err(e) => r == Err::<Self, BspError>(e),
            },
    {
        if data.len() < 4 + HEADER_LUMPS * 8 {
            return Err(BspError::InvalidHeader);
        }
        let version = read_u32_at(data.as_slice(), 0) as i32;
        if version != BSP_VERSION {
            return Err(BspError::UnsupportedVersion(version));
        }
        let mut lumps = [Lump { offset: 0, length: 0 }; 15];
        let mut i: usize = 0;
        while i < HEADER_LUMPS
            invariant
                i <= 15,
                data@.len() >= 124,
                lumps@.len() == 15,
                forall|k: int| 0 <= k < i ==> #[trigger] lumps@[k] == header_lumps(data@)[k],
            decreases 15 - i,
        {
            let ofs = read_u32_at(data.as_slice(), 4 + 8 * i);
            let len = read_u32_at(data.as_slice(), 8 + 8 * i);
            lumps[i] = Lump { offset: ofs, length: len };
            i = i + 1;
        }
        assert(lumps@ =~= header_lumps(data@));
        Ok(Bsp { data, version, lumps })
    }

    /// The bytes of lump `index`.
    pub fn lump_slice(&self, index: usize) -> (r: Result<&[u8], BspError>)
        ensures
            match spec_lump(self.spec_data(), self.spec_lumps(), index as int) {
                Ok(bytes) => r matches Ok(s) && s@ == bytes,
                Err(e) => r == Err::<&[u8], BspError>(e),
            },
    {
        if index >= HEADER_LUMPS {
            return Err(BspError::InvalidLump);
        }
        let lump = self.lumps[index];
        let end = lump.offset as u64 + lump.length as u64;
        if end > self.data.len() as u64 {
            return Err(BspError::InvalidLump);
        }
        let start = lump.offset as usize;
        let stop = start + lump.length as usize;
        Ok(&self.data[start..stop])
    }

    /// The entity text: the entity lump decoded, without trailing NULs.
    pub fn entities_text(&self) -> (r: Result<String, BspError>)
        ensures
            match spec_lump(self.spec_data(), self.spec_lumps(), LUMP_ENTITIES as int) {
                Ok(bytes) => r matches Ok(s) && s@ == trim_end_char(lossy_text(bytes), '\0'),
                Err(e) => r == Err::<String, BspError>(e),
            },
    {
        let data = match self.lump_slice(LUMP_ENTITIES) {
            Ok(d) => d,
            Err(e) => {
                return Err(e);
            },
        };
        let text = string_from_utf8_lossy(data);
        let chars = chars_of(text.as_str());
        let mut end: usize = chars.len();
        assert(chars@.take(chars@.len() as int) =~= chars@);
        while end > 0 && chars[end - 1] == '\0'
            invariant
                end <= chars@.len(),
                trim_end_char(chars@.take(end as int), '\0') == trim_end_char(chars@, '\0'),
            decreases end,
        {
            assert(chars@.take(end as int).drop_last() =~= chars@.take(end - 1));
            end = end - 1;
        }
        let mut out: Vec<char> = Vec::new();
        let mut i: usize = 0;
        while i < end
            invariant
                i <= end <= chars@.len(),
                out@ == chars@.take(i as int),
            decreases end - i,
        {
            out.push(chars[i]);
            assert(out@ =~= chars@.take(i + 1));
            i = i + 1;
        }
        Ok(string_of(out.as_slice()))
    }

    /// The two map checksums; an error when a lump lies outside the file.
    pub fn map_checksums(&self) -> (r: Result<(u32, u32), BspError>)
        ensures
            r == checksums_upto(self.spec_data(), self.spec_lumps(), 15),
    {
        let mut checksum: u32 = 0;
        let mut checksum2: u32 = 0;
        let mut i: usize = 1;
        while i < HEADER_LUMPS
            invariant
                1 <= i <= 15,
                checksums_upto(self.spec_data(), self.spec_lumps(), i as int) == Ok::<(u32, u32), BspError>((checksum, checksum2)),
            decreases 15 - i,
        {
            let data = match self.lump_slice(i) {
                Ok(d) => d,
                Err(e) => {
                    proof {
                        lemma_checksums_fail(self.spec_data(), self.spec_lumps(), i as int + 1, 15);
                    }
                    return Err(e);
                },
            };
            let value = block_checksum(data);
            checksum = checksum ^ value;
            if !(i == LUMP_VISIBILITY || i == LUMP_LEAFS || i == LUMP_NODES) {
                checksum2 = checksum2 ^ value;
            }
            i = i + 1;
        }
        Ok((checksum, checksum2))
    }
}

/// Once a lump fails, every later count fails the same way.
proof fn lemma_checksums_fail(d: Seq<u8>, lumps: Seq<Lump>, k: int, n: int)
    requires
        1 < k <= n,
        checksums_upto(d, lumps, k) is Err,
    ensures
        checksums_upto(d, lumps, n) == checksums_upto(d, lumps, k),
    decreases n - k,
{
    if k < n {
        lemma_checksums_fail(d, lumps, k, n - 1);
    }
}

/// The checksums are computed exactly when every lump from 1 to `n - 1`
/// lies within the file.
pub proof fn law_checksums_need_lumps(d: Seq<u8>, lumps: Seq<Lump>, n: int)
    requires
        n <= 15,
    ensures
        checksums_upto(d, lumps, n) is Ok <==> forall|i: int| 1 <= i < n ==> #[trigger] spec_lump(d, lumps, i) is Ok,
    decreases n,
{
    if n > 1 {
        law_checksums_need_lumps(d, lumps, n - 1);
        if checksums_upto(d, lumps, n - 1) is Ok && spec_lump(d, lumps, n - 1) is Ok {
            assert forall|i: int| 1 <= i < n implies #[trigger] spec_lump(d, lumps, i) is Ok by {
                if i < n - 1 {
                    assert(spec_lump(d, lumps, i) is Ok);
                }
            }
        }
    }
}

/// The entity lump never counts: two files that differ only in where the
/// entity text lies (and what it says) have the same checksums.
pub proof fn law_entities_lump_ignored(d1: Seq<u8>, l1: Seq<Lump>, d2: Seq<u8>, l2: Seq<Lump>, n: int)
    requires
        n <= 15,
        forall|i: int| 1 <= i < n ==> #[trigger] spec_lump(d1, l1, i) == spec_lump(d2, l2, i),
    ensures
        checksums_upto(d1, l1, n) == checksums_upto(d2, l2, n),
    decreases n,
{
    if n > 1 {
        assert(spec_lump(d1, l1, n - 1) == spec_lump(d2, l2, n - 1));
        law_entities_lump_ignored(d1, l1, d2, l2, n - 1);
    }
}

} // verus!
