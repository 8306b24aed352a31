//! The lumps of a map that drawing needs: vertices, edges, texture
//! mappings, faces, texture headers and light maps. Floating-point values
//! are kept as their bits.
use vstd::prelude::*;
use crate::bsp::{
    Bsp, BspError, LUMP_EDGES, LUMP_FACES, LUMP_LIGHTING, LUMP_SURFEDGES, LUMP_TEXINFO, LUMP_TEXTURES,
    LUMP_VERTEXES, spec_lump,
};
use crate::bytes::{read_u16_at, read_u32_at, u16_at, u32_at};
use crate::wad::{clean_name, cleanup_name_bytes};

verus! {

/// A texture's header in the map: its name, size and the offsets of its
/// four mip levels.
#[derive(Debug)]
pub struct BspTexture {
    pub name: String,
    pub width: u32,
    pub height: u32,
    pub offsets: [u32; 4],
}

/// How a face maps onto its texture: two axes with offsets (bits of 32-bit
/// floats), the texture and flags.
#[derive(Debug, Clone, Copy, PartialEq, Eq)]
pub struct TexInfo {
    pub s_vec: [u32; 3],
    pub s_offset: u32,
    pub t_vec: [u32; 3],
    pub t_offset: u32,
    pub texture_id: i32,
    pub flags: i32,
}

#[derive(Debug, Clone, Copy, PartialEq, Eq)]
pub struct Face {
    pub plane_num: u16,
    pub side: u16,
    pub first_edge: i32,
    pub num_edges: u16,
    pub texinfo: u16,
    pub styles: [u8; 4],
    pub light_ofs: i32,
}

/// The drawable parts of a map; vertices are the bits of 32-bit floats.
#[derive(Debug)]
pub struct BspRender {
    pub vertices: Vec<[u32; 3]>,
    pub edges: Vec<[u16; 2]>,
    pub surf_edges: Vec<i32>,
    pub texinfo: Vec<TexInfo>,
    pub faces: Vec<Face>,
    pub textures: Vec<BspTexture>,
    pub lighting: Vec<u8>,
}

pub const DVERTEX_SIZE: usize = 12;
pub const DEDGE_SIZE: usize = 4;
pub const DSURFEDGE_SIZE: usize = 4;
pub const DTEXINFO_SIZE: usize = 40;
pub const DFACE_SIZE: usize = 20;

pub struct TextureView {
    pub name: Seq<char>,
    pub width: u32,
    pub height: u32,
    pub offsets: [u32; 4],
}

pub open spec fn texture_view(t: BspTexture) -> TextureView {
    TextureView { name: t.name@, width: t.width, height: t.height, offsets: t.offsets }
}

pub open spec fn texture_views(v: Seq<BspTexture>) -> Seq<TextureView> {
    Seq::new(v.len(), |i: int| texture_view(v[i]))
}

/// A lump of fixed-size records: refused unless its length is a whole
/// number of records.
pub open spec fn spec_records<T>(d: Seq<u8>, size: nat, rec: spec_fn(int) -> T) -> Result<Seq<T>, BspError> {
    if d.len() % size != 0 {
        Err(BspError::InvalidLump)
    } else {
        Ok(Seq::new(d.len() / size, rec))
    }
}

pub open spec fn vertex_rec(d: Seq<u8>, i: int) -> [u32; 3] {
    [u32_at(d, 12 * i), u32_at(d, 12 * i + 4), u32_at(d, 12 * i + 8)]
}

pub open spec fn edge_rec(d: Seq<u8>, i: int) -> [u16; 2] {
    [u16_at(d, 4 * i), u16_at(d, 4 * i + 2)]
}

pub open spec fn surf_edge_rec(d: Seq<u8>, i: int) -> i32 {
    u32_at(d, 4 * i) as i32
}

pub open spec fn texinfo_rec(d: Seq<u8>, i: int) -> TexInfo {
    let o = 40 * i;
    TexInfo {
        s_vec: [u32_at(d, o), u32_at(d, o + 4), u32_at(d, o + 8)],
        s_offset: u32_at(d, o + 12),
        t_vec: [u32_at(d, o + 16), u32_at(d, o + 20), u32_at(d, o + 24)],
        t_offset: u32_at(d, o + 28),
        texture_id: u32_at(d, o + 32) as i32,
        flags: u32_at(d, o + 36) as i32,
    }
}

pub open spec fn face_rec(d: Seq<u8>, i: int) -> Face {
    let o = 20 * i;
    Face {
        plane_num: u16_at(d, o),
        side: u16_at(d, o + 2),
        first_edge: u32_at(d, o + 4) as i32,
        num_edges: u16_at(d, o + 8),
        texinfo: u16_at(d, o + 10),
        styles: [d[o + 12], d[o + 13], d[o + 14], d[o + 15]],
        light_ofs: u32_at(d, o + 16) as i32,
    }
}

pub open spec fn spec_vertices(d: Seq<u8>) -> Result<Seq<[u32; 3]>, BspError> {
    spec_records(d, 12, |i: int| vertex_rec(d, i))
}

pub open spec fn spec_edges(d: Seq<u8>) -> Result<Seq<[u16; 2]>, BspError> {
    spec_records(d, 4, |i: int| edge_rec(d, i))
}

pub open spec fn spec_surf_edges(d: Seq<u8>) -> Result<Seq<i32>, BspError> {
    spec_records(d, 4, |i: int| surf_edge_rec(d, i))
}

pub open spec fn spec_texinfo(d: Seq<u8>) -> Result<Seq<TexInfo>, BspError> {
    spec_records(d, 40, |i: int| texinfo_rec(d, i))
}

pub open spec fn spec_faces(d: Seq<u8>) -> Result<Seq<Face>, BspError> {
    spec_records(d, 20, |i: int| face_rec(d, i))
}

/// The offset of texture `i` in the texture lump's directory.
pub open spec fn texture_offset(d: Seq<u8>, i: int) -> i32 {
    u32_at(d, 4 + 4 * i) as i32
}

/// A texture whose header runs past the lump.
pub open spec fn texture_cut(d: Seq<u8>, i: int) -> bool {
    texture_offset(d, i) > 0 && texture_offset(d, i) + 40 > d.len()
}

/// Texture `i`: an empty one where the directory holds no offset.
pub open spec fn texture_rec(d: Seq<u8>, i: int) -> TextureView {
    let off = texture_offset(d, i) as int;
    if off <= 0 {
        TextureView { name: Seq::empty(), width: 0, height: 0, offsets: [0u32, 0u32, 0u32, 0u32] }
    } else {
        TextureView {
            name: clean_name(d.subrange(off, off + 16)),
            width: u32_at(d, off + 16),
            height: u32_at(d, off + 20),
            offsets: [u32_at(d, off + 24), u32_at(d, off + 28), u32_at(d, off + 32), u32_at(d, off + 36)],
        }
    }
}

/// The texture lump: empty, or a count, a directory of offsets and the
/// headers they point at.
pub open spec fn spec_textures(d: Seq<u8>) -> Result<Seq<TextureView>, BspError> {
    if d.len() == 0 {
        Ok(Seq::empty())
    } else if d.len() < 4 {
        Err(BspError::InvalidLump)
    } else {
        let count = u32_at(d, 0) as i32;
        if count < 0 || d.len() < 4 + 4 * count {
            Err(BspError::InvalidLump)
        } else if exists|i: int| 0 <= i < count && #[trigger] texture_cut(d, i) {
            Err(BspError::InvalidLump)
        } else {
            Ok(Seq::new(count as nat, |i: int| texture_rec(d, i)))
        }
    }
}

pub struct RenderView {
    pub vertices: Seq<[u32; 3]>,
    pub edges: Seq<[u16; 2]>,
    pub surf_edges: Seq<i32>,
    pub texinfo: Seq<TexInfo>,
    pub faces: Seq<Face>,
    pub textures: Seq<TextureView>,
    pub lighting: Seq<u8>,
}

/// The drawable parts of a map, or the first lump that fails, in the order
/// vertices, edges, surface edges, texture mappings, faces, textures, light.
pub open spec fn spec_render(d: Seq<u8>, lumps: Seq<crate::bsp::Lump>) -> Result<RenderView, BspError> {
    match spec_lump(d, lumps, LUMP_VERTEXES as int) {
        Err(e) => Err(e),
        Ok(lv) => match spec_vertices(lv) {
            Err(e) => Err(e),
            Ok(vertices) => match spec_lump(d, lumps, LUMP_EDGES as int) {
                Err(e) => Err(e),
                Ok(le) => match spec_edges(le) {
                    Err(e) => Err(e),
                    Ok(edges) => match spec_lump(d, lumps, LUMP_SURFEDGES as int) {
                        Err(e) => Err(e),
                        Ok(ls) => match spec_surf_edges(ls) {
                            Err(e) => Err(e),
                            Ok(surf_edges) => match spec_lump(d, lumps, LUMP_TEXINFO as int) {
                                Err(e) => Err(e),
                                Ok(lt) => match spec_texinfo(lt) {
                                    Err(e) => Err(e),
                                    Ok(texinfo) => match spec_lump(d, lumps, LUMP_FACES as int) {
                                        Err(e) => Err(e),
                                        Ok(lf) => match spec_faces(lf) {
                                            Err(e) => Err(e),
                                            Ok(faces) => match spec_lump(d, lumps, LUMP_TEXTURES as int) {
                                                Err(e) => Err(e),
                                                Ok(lx) => match spec_textures(lx) {
                                                    Err(e) => Err(e),
                                                    Ok(textures) => match spec_lump(d, lumps, LUMP_LIGHTING as int) {
                                                        Err(e) => Err(e),
                                                        Ok(lighting) => Ok(RenderView {
                                                            vertices,
                                                            edges,
                                                            surf_edges,
                                                            texinfo,
                                                            faces,
                                                            textures,
                                                            lighting,
                                                        }),
                                                    },
                                                },
                                            },
                                        },
                                    },
                                },
                            },
                        },
                    },
                },
            },
        },
    }
}

/// The vertex that a surface edge starts from: the first end of a
/// forward edge, the second end of a reversed one (a negative index).
pub open spec fn edge_vertex(edges: Seq<[u16; 2]>, e: i32) -> Option<u16> {
    if e >= 0 {
        if (e as int) < edges.len() {
            Some(edges[e as int][0])
        } else {
            None
        }
    } else {
        if -(e as int) < edges.len() {
            Some(edges[-(e as int)][1])
        } else {
            None
        }
    }
}

/// Whether the `k`-th edge of a face leads to a vertex in the table.
pub open spec fn corner_ok(r: RenderView, f: Face, k: int) -> bool {
    match edge_vertex(r.edges, r.surf_edges[f.first_edge + k]) {
        Some(v) => (v as int) < r.vertices.len(),
        None => false,
    }
}

pub open spec fn corner(r: RenderView, f: Face, k: int) -> [u32; 3] {
    r.vertices[edge_vertex(r.edges, r.surf_edges[f.first_edge + k])->0 as int]
}

/// The corners of face `i`, in edge order; none when the face, its
/// texture mapping, its edges or their vertices are not in the tables.
pub open spec fn spec_face_corners(r: RenderView, i: int) -> Option<Seq<[u32; 3]>> {
    if !(0 <= i < r.faces.len()) {
        None
    } else {
        let f = r.faces[i];
        if f.texinfo as int >= r.texinfo.len() || f.first_edge < 0 || f.first_edge + f.num_edges > r.surf_edges.len() {
            None
        } else if exists|k: int| 0 <= k < f.num_edges && !#[trigger] corner_ok(r, f, k) {
            None
        } else {
            Some(Seq::new(f.num_edges as nat, |k: int| corner(r, f, k)))
        }
    }
}

impl BspRender {
    pub open spec fn view(&self) -> RenderView {
        RenderView {
            vertices: self.vertices@,
            edges: self.edges@,
            surf_edges: self.surf_edges@,
            texinfo: self.texinfo@,
            faces: self.faces@,
            textures: texture_views(self.textures@),
            lighting: self.lighting@,
        }
    }
}

fn parse_vertices(data: &[u8]) -> (r: Result<Vec<[u32; 3]>, BspError>)
    ensures
        match spec_vertices(data@) {
            Ok(v) => r matches Ok(x) && x@ == v,
            Err(e) => r == Err::<Vec<[u32; 3]>, BspError>(e),
        },
{
    if data.len() % DVERTEX_SIZE != 0 {
        return Err(BspError::InvalidLump);
    }
    let n = data.len() / DVERTEX_SIZE;
    let mut out: Vec<[u32; 3]> = Vec::new();
    let mut i: usize = 0;
    while i < n
        invariant
            n == data@.len() / 12,
            data@.len() % 12 == 0,
            data@.len() == data.len(),
            i <= n,
            out@ == Seq::new(i as nat, |k: int| vertex_rec(data@, k)),
        decreases n - i,
    {
        assert(12 * i + 12 <= data@.len()) by (nonlinear_arith)
            requires
                i < n,
                n == data@.len() / 12,
        ;
        let o = 12 * i;
        out.push([read_u32_at(data, o), read_u32_at(data, o + 4), read_u32_at(data, o + 8)]);
        i = i + 1;
        assert(out@ =~= Seq::new(i as nat, |k: int| vertex_rec(data@, k)));
    }
    Ok(out)
}

fn parse_edges(data: &[u8]) -> (r: Result<Vec<[u16; 2]>, BspError>)
    ensures
        match spec_edges(data@) {
            Ok(v) => r matches Ok(x) && x@ == v,
            Err(e) => r == Err::<Vec<[u16; 2]>, BspError>(e),
        },
{
    if data.len() % DEDGE_SIZE != 0 {
        return Err(BspError::InvalidLump);
    }
    let n = data.len() / DEDGE_SIZE;
    let mut out: Vec<[u16; 2]> = Vec::new();
    let mut i: usize = 0;
    while i < n
        invariant
            n == data@.len() / 4,
            data@.len() == data.len(),
            i <= n,
            out@ == Seq::new(i as nat, |k: int| edge_rec(data@, k)),
        decreases n - i,
    {
        assert(4 * i + 4 <= data@.len()) by (nonlinear_arith)
            requires
                i < n,
                n == data@.len() / 4,
        ;
        let o = 4 * i;
        out.push([read_u16_at(data, o), read_u16_at(data, o + 2)]);
        i = i + 1;
        assert(out@ =~= Seq::new(i as nat, |k: int| edge_rec(data@, k)));
    }
    Ok(out)
}

fn parse_surf_edges(data: &[u8]) -> (r: Result<Vec<i32>, BspError>)
    ensures
        match spec_surf_edges(data@) {
            Ok(v) => r matches Ok(x) && x@ == v,
            Err(e) => r == Err::<Vec<i32>, BspError>(e),
        },
{
    if data.len() % DSURFEDGE_SIZE != 0 {
        return Err(BspError::InvalidLump);
    }
    let n = data.len() / DSURFEDGE_SIZE;
    let mut out: Vec<i32> = Vec::new();
    let mut i: usize = 0;
    while i < n
        invariant
            n == data@.len() / 4,
            data@.len() == data.len(),
            i <= n,
            out@ == Seq::new(i as nat, |k: int| surf_edge_rec(data@, k)),
        decreases n - i,
    {
        assert(4 * i + 4 <= data@.len()) by (nonlinear_arith)
            requires
                i < n,
                n == data@.len() / 4,
        ;
        out.push(read_u32_at(data, 4 * i) as i32);
        i = i + 1;
        assert(out@ =~= Seq::new(i as nat, |k: int| surf_edge_rec(data@, k)));
    }
    Ok(out)
}

fn parse_texinfo(data: &[u8]) -> (r: Result<Vec<TexInfo>, BspError>)
    ensures
        match spec_texinfo(data@) {
            Ok(v) => r matches Ok(x) && x@ == v,
            Err(e) => r == Err::<Vec<TexInfo>, BspError>(e),
        },
{
    if data.len() % DTEXINFO_SIZE != 0 {
        return Err(BspError::InvalidLump);
    }
    let n = data.len() / DTEXINFO_SIZE;
    let mut out: Vec<TexInfo> = Vec::new();
    let mut i: usize = 0;
    while i < n
        invariant
            n == data@.len() / 40,
            data@.len() == data.len(),
            i <= n,
            out@ == Seq::new(i as nat, |k: int| texinfo_rec(data@, k)),
        decreases n - i,
    {
        assert(40 * i + 40 <= data@.len()) by (nonlinear_arith)
            requires
                i < n,
                n == data@.len() / 40,
        ;
        let o = 40 * i;
        out.push(TexInfo {
            s_vec: [read_u32_at(data, o), read_u32_at(data, o + 4), read_u32_at(data, o + 8)],
            s_offset: read_u32_at(data, o + 12),
            t_vec: [read_u32_at(data, o + 16), read_u32_at(data, o + 20), read_u32_at(data, o + 24)],
            t_offset: read_u32_at(data, o + 28),
            texture_id: read_u32_at(data, o + 32) as i32,
            flags: read_u32_at(data, o + 36) as i32,
        });
        i = i + 1;
        assert(out@ =~= Seq::new(i as nat, |k: int| texinfo_rec(data@, k)));
    }
    Ok(out)
}

fn parse_faces(data: &[u8]) -> (r: Result<Vec<Face>, BspError>)
    ensures
        match spec_faces(data@) {
            Ok(v) => r matches Ok(x) && x@ == v,
            Err(e) => r == Err::<Vec<Face>, BspError>(e),
        },
{
    if data.len() % DFACE_SIZE != 0 {
        return Err(BspError::InvalidLump);
    }
    let n = data.len() / DFACE_SIZE;
    let mut out: Vec<Face> = Vec::new();
    let mut i: usize = 0;
    while i < n
        invariant
            n == data@.len() / 20,
            data@.len() == data.len(),
            i <= n,
            out@ == Seq::new(i as nat, |k: int| face_rec(data@, k)),
        decreases n - i,
    {
        assert(20 * i + 20 <= data@.len()) by (nonlinear_arith)
            requires
                i < n,
                n == data@.len() / 20,
        ;
        let o = 20 * i;
        out.push(Face {
            plane_num: read_u16_at(data, o),
            side: read_u16_at(data, o + 2),
            first_edge: read_u32_at(data, o + 4) as i32,
            num_edges: read_u16_at(data, o + 8),
            texinfo: read_u16_at(data, o + 10),
            styles: [data[o + 12], data[o + 13], data[o + 14], data[o + 15]],
            light_ofs: read_u32_at(data, o + 16) as i32,
        });
        i = i + 1;
        assert(out@ =~= Seq::new(i as nat, |k: int| face_rec(data@, k)));
    }
    Ok(out)
}

/// A texture's name field: lower-cased, cut at the first zero.
fn parse_texture_name(bytes: &[u8]) -> (r: String)
    ensures
        r@ == clean_name(bytes@),
{
    cleanup_name_bytes(bytes)
}

fn parse_textures(data: &[u8]) -> (r: Result<Vec<BspTexture>, BspError>)
    ensures
        match spec_textures(data@) {
            Ok(v) => r matches Ok(x) && texture_views(x@) == v,
            Err(e) => r == Err::<Vec<BspTexture>, BspError>(e),
        },
{
    if data.len() == 0 {
        let out: Vec<BspTexture> = Vec::new();
        assert(texture_views(out@) =~= Seq::<TextureView>::empty());
        return Ok(out);
    }
    if data.len() < 4 {
        return Err(BspError::InvalidLump);
    }
    let count = read_u32_at(data, 0) as i32;
    if count < 0 || (data.len() - 4) / 4 < count as usize {
        proof {
            if count >= 0 {
                let x = (data@.len() - 4) as int;
                assert(x < 4 * (count as int)) by (nonlinear_arith)
                    requires
                        x / 4 < count as int,
                        x >= 0;
            }
        }
        return Err(BspError::InvalidLump);
    }
    proof {
        let x = (data@.len() - 4) as int;
        assert(4 * (count as int) <= x) by (nonlinear_arith)
            requires
                x / 4 >= count as int,
                x >= 0;
    }
    let n = count as usize;
    let mut out: Vec<BspTexture> = Vec::new();
    let mut i: usize = 0;
    while i < n
        invariant
            n == count,
            count == u32_at(data@, 0) as i32,
            4 + 4 * n <= data@.len(),
            data@.len() == data.len(),
            i <= n,
            forall|k: int| 0 <= k < i ==> !#[trigger] texture_cut(data@, k),
            texture_views(out@) == Seq::new(i as nat, |k: int| texture_rec(data@, k)),
        decreases n - i,
    {
        let offset = read_u32_at(data, 4 + 4 * i) as i32;
        let ghost before = texture_views(out@);
        if offset <= 0 {
            out.push(BspTexture { name: String::new(), width: 0, height: 0, offsets: [0, 0, 0, 0] });
        } else {
            let off = offset as usize;
            if off > data.len() || data.len() - off < 40 {
                proof {
                    assert(texture_cut(data@, i as int));
                }
                return Err(BspError::InvalidLump);
            }
            let name = parse_texture_name(vstd::slice::slice_subrange(data, off, off + 16));
            let t = BspTexture {
                name,
                width: read_u32_at(data, off + 16),
                height: read_u32_at(data, off + 20),
                offsets: [read_u32_at(data, off + 24), read_u32_at(data, off + 28), read_u32_at(data, off + 32), read_u32_at(data, off + 36)],
            };
            out.push(t);
        }
        proof {
            assert(!texture_cut(data@, i as int));
            assert(texture_views(out@) =~= before.push(texture_rec(data@, i as int)));
        }
        i = i + 1;
        proof {
            assert(texture_views(out@) =~= Seq::new(i as nat, |k: int| texture_rec(data@, k)));
        }
    }
    Ok(out)
}

impl BspRender {
    /// Reads the drawable lumps of a map.
    pub fn from_bsp(bsp: &Bsp) -> (r: Result<Self, BspError>)
        ensures
            match spec_render(bsp.spec_data(), bsp.spec_lumps()) {
                Ok(v) => r matches Ok(x) && x.view() == v,
                Err(e) => r matches Err(x) && x == e,
            },
    {
        let vertices = parse_vertices(bsp.lump_slice(LUMP_VERTEXES)?)?;
        let edges = parse_edges(bsp.lump_slice(LUMP_EDGES)?)?;
        let surf_edges = parse_surf_edges(bsp.lump_slice(LUMP_SURFEDGES)?)?;
        let texinfo = parse_texinfo(bsp.lump_slice(LUMP_TEXINFO)?)?;
        let faces = parse_faces(bsp.lump_slice(LUMP_FACES)?)?;
        let textures = parse_textures(bsp.lump_slice(LUMP_TEXTURES)?)?;
        let lighting = vstd::slice::slice_to_vec(bsp.lump_slice(LUMP_LIGHTING)?);
        Ok(BspRender { vertices, edges, surf_edges, texinfo, faces, textures, lighting })
    }

    /// The positions (vertex bits) of the corners of face `face_index`, in
    /// edge order; the caller computes texture coordinates from them with the
    /// face's mapping. None when the face, its texture mapping, an edge or a
    /// vertex is missing.
    pub fn face_vertices(&self, face_index: usize) -> (r: Option<Vec<[u32; 3]>>)
        ensures
            match spec_face_corners(self.view(), face_index as int) {
                Some(cs) => r matches Some(v) && v@ == cs,
                None => r is None,
            },
    {
        let ghost rv = self.view();
        if face_index >= self.faces.len() {
            return None;
        }
        let face = self.faces[face_index];
        if face.texinfo as usize >= self.texinfo.len() {
            return None;
        }
        if face.first_edge < 0 {
            return None;
        }
        let first = face.first_edge as usize;
        let n = face.num_edges as usize;
        if n > self.surf_edges.len() || first > self.surf_edges.len() - n {
            return None;
        }
        let mut out: Vec<[u32; 3]> = Vec::new();
        let mut k: usize = 0;
        while k < n
            invariant
                rv == self.view(),
                face == rv.faces[face_index as int],
                first == face.first_edge,
                n == face.num_edges,
                first + n <= self.surf_edges@.len(),
                k <= n,
                forall|j: int| 0 <= j < k ==> #[trigger] corner_ok(rv, face, j),
                out@ == Seq::new(k as nat, |j: int| corner(rv, face, j)),
            decreases n - k,
        {
            let e = self.surf_edges[first + k];
            let vert = if e >= 0 {
                let ei = e as usize;
                if ei >= self.edges.len() {
                    proof {
                        assert(!corner_ok(rv, face, k as int));
                    }
                    return None;
                }
                self.edges[ei][0]
            } else {
                let ei = (-(e as i64)) as u64;
                if ei >= self.edges.len() as u64 {
                    proof {
                        assert(!corner_ok(rv, face, k as int));
                    }
                    return None;
                }
                self.edges[ei as usize][1]
            };
            if vert as usize >= self.vertices.len() {
                proof {
                    assert(!corner_ok(rv, face, k as int));
                }
                return None;
            }
            let ghost before = out@;
            out.push(self.vertices[vert as usize]);
            proof {
                assert(corner_ok(rv, face, k as int));
                assert(out@ =~= before.push(corner(rv, face, k as int)));
            }
            k = k + 1;
            proof {
                assert(out@ =~= Seq::new(k as nat, |j: int| corner(rv, face, j)));
            }
        }
        Some(out)
    }
}

} // verus!
