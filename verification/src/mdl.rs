//! Alias models (MDL): skins, triangles and animation frames. Floating-point
//! header fields are kept as their bits, and each vertex as the three packed
//! bytes the file stores; scaling them into positions is left to the caller.
use vstd::prelude::*;
use crate::bytes::{read_u32_at, u32_at};
use crate::msg::zero_from;
use crate::palette::{Palette, spec_expand};
use crate::text::{fixed_string, lossy_text};

verus! {

/// The "IDPO" tag that opens a model file.
pub const IDPOLYHEADER: u32 = 0x4f50_4449;
pub const MDL_VERSION: i32 = 6;

/// The size of the fixed header.
pub const MDL_HEADER_SIZE: usize = 84;

#[derive(Debug, Clone, Copy, PartialEq, Eq)]
pub enum MdlError {
    InvalidHeader,
    UnsupportedVersion(i32),
    UnexpectedEof,
    UnsupportedSkinType(i32),
    UnsupportedFrameType(i32),
    InvalidData(&'static str),
}

/// The fixed part of a model file. Vectors and the other floating-point
/// fields are the bits of 32-bit floats.
#[derive(Debug, Clone, Copy, PartialEq, Eq)]
pub struct MdlHeader {
    pub scale: [u32; 3],
    pub translate: [u32; 3],
    pub bounding_radius: u32,
    pub eye_position: [u32; 3],
    pub num_skins: u32,
    pub skin_width: u32,
    pub skin_height: u32,
    pub num_verts: u32,
    pub num_tris: u32,
    pub num_frames: u32,
    pub sync_type: i32,
    pub flags: i32,
    pub size: u32,
}

#[derive(Debug)]
pub enum MdlSkin {
    Single { width: u32, height: u32, indices: Vec<u8> },
    /// Skins shown in turn; the intervals are the bits of 32-bit floats.
    Group { width: u32, height: u32, intervals: Vec<u32>, frames: Vec<Vec<u8>> },
}

#[derive(Debug, Clone, Copy, PartialEq, Eq)]
pub struct MdlTriangle {
    pub faces_front: bool,
    pub indices: [u16; 3],
}

/// A vertex as stored: three bytes that the header's scale and translation
/// turn into a position, and the index of its normal.
#[derive(Debug, Clone, Copy, PartialEq, Eq)]
pub struct MdlVertex {
    pub coords: [u8; 3],
    pub normal_index: u8,
}

#[derive(Debug)]
pub struct MdlFrame {
    pub name: String,
    pub vertices: Vec<MdlVertex>,
}

#[derive(Debug)]
pub enum MdlFrameGroup {
    Single(MdlFrame),
    /// Frames shown in turn; the intervals are the bits of 32-bit floats.
    Group { intervals: Vec<u32>, frames: Vec<MdlFrame> },
}

#[derive(Debug)]
pub struct AliasModel {
    pub header: MdlHeader,
    pub skins: Vec<MdlSkin>,
    pub triangles: Vec<MdlTriangle>,
    pub frames: Vec<MdlFrameGroup>,
}

// ---- views ----

pub enum SkinView {
    Single { width: u32, height: u32, indices: Seq<u8> },
    Group { width: u32, height: u32, intervals: Seq<u32>, frames: Seq<Seq<u8>> },
}

pub open spec fn byte_views(v: Seq<Vec<u8>>) -> Seq<Seq<u8>> {
    Seq::new(v.len(), |i: int| v[i]@)
}

pub open spec fn skin_view(s: MdlSkin) -> SkinView {
    match s {
        MdlSkin::Single { width, height, indices } => SkinView::Single { width, height, indices: indices@ },
        MdlSkin::Group { width, height, intervals, frames } => SkinView::Group {
            width,
            height,
            intervals: intervals@,
            frames: byte_views(frames@),
        },
    }
}

pub open spec fn skin_views(v: Seq<MdlSkin>) -> Seq<SkinView> {
    Seq::new(v.len(), |i: int| skin_view(v[i]))
}

pub struct FrameView {
    pub name: Seq<char>,
    pub vertices: Seq<MdlVertex>,
}

pub open spec fn frame_view(f: MdlFrame) -> FrameView {
    FrameView { name: f.name@, vertices: f.vertices@ }
}

pub open spec fn frame_views(v: Seq<MdlFrame>) -> Seq<FrameView> {
    Seq::new(v.len(), |i: int| frame_view(v[i]))
}

pub enum GroupView {
    Single(FrameView),
    Group { intervals: Seq<u32>, frames: Seq<FrameView> },
}

pub open spec fn group_view(g: MdlFrameGroup) -> GroupView {
    match g {
        MdlFrameGroup::Single(f) => GroupView::Single(frame_view(f)),
        MdlFrameGroup::Group { intervals, frames } => GroupView::Group { intervals: intervals@, frames: frame_views(frames@) },
    }
}

pub open spec fn group_views(v: Seq<MdlFrameGroup>) -> Seq<GroupView> {
    Seq::new(v.len(), |i: int| group_view(v[i]))
}

// ---- the file layout ----

/// The 32-bit word at `p`, when the data holds one there.
pub open spec fn word_at(d: Seq<u8>, p: int) -> Option<u32> {
    if 0 <= p && p + 4 <= d.len() {
        Some(u32_at(d, p))
    } else {
        None
    }
}

/// A count at `p`: a signed word that must not be negative.
pub open spec fn count_at(d: Seq<u8>, p: int, label: &'static str) -> Result<u32, MdlError> {
    match word_at(d, p) {
        None => Err(MdlError::UnexpectedEof),
        Some(w) => if (w as i32) < 0 {
            Err(MdlError::InvalidData(label))
        } else {
            Ok(w)
        },
    }
}

/// `n` words from `p`.
pub open spec fn spec_words(d: Seq<u8>, p: int, n: nat) -> Result<(Seq<u32>, int), MdlError> {
    if p + 4 * n <= d.len() {
        Ok((Seq::new(n, |i: int| u32_at(d, p + 4 * i)), p + 4 * n))
    } else {
        Err(MdlError::UnexpectedEof)
    }
}

/// `n` blocks of `size` bytes from `p`.
pub open spec fn spec_blocks(d: Seq<u8>, p: int, n: nat, size: nat) -> Result<(Seq<Seq<u8>>, int), MdlError> {
    if p + n * size <= d.len() {
        Ok((Seq::new(n, |i: int| d.subrange(p + i * size, p + i * size + size)), p + n * size))
    } else {
        Err(MdlError::UnexpectedEof)
    }
}

pub open spec fn spec_header(d: Seq<u8>) -> Result<MdlHeader, MdlError> {
    match word_at(d, 0) {
        None => Err(MdlError::UnexpectedEof),
        Some(ident) => if ident != IDPOLYHEADER {
            Err(MdlError::InvalidHeader)
        } else {
            match word_at(d, 4) {
                None => Err(MdlError::UnexpectedEof),
                Some(v) => if v as i32 != MDL_VERSION {
                    Err(MdlError::UnsupportedVersion(v as i32))
                } else if d.len() < 48 {
                    Err(MdlError::UnexpectedEof)
                } else {
                    match count_at(d, 48, "num_skins") {
                        Err(e) => Err(e),
                        Ok(num_skins) => match count_at(d, 52, "skin_width") {
                            Err(e) => Err(e),
                            Ok(skin_width) => match count_at(d, 56, "skin_height") {
                                Err(e) => Err(e),
                                Ok(skin_height) => match count_at(d, 60, "num_verts") {
                                    Err(e) => Err(e),
                                    Ok(num_verts) => match count_at(d, 64, "num_tris") {
                                        Err(e) => Err(e),
                                        Ok(num_tris) => match count_at(d, 68, "num_frames") {
                                            Err(e) => Err(e),
                                            Ok(num_frames) => if d.len() < 84 {
                                                Err(MdlError::UnexpectedEof)
                                            } else {
                                                Ok(MdlHeader {
                                                    scale: [u32_at(d, 8), u32_at(d, 12), u32_at(d, 16)],
                                                    translate: [u32_at(d, 20), u32_at(d, 24), u32_at(d, 28)],
                                                    bounding_radius: u32_at(d, 32),
                                                    eye_position: [u32_at(d, 36), u32_at(d, 40), u32_at(d, 44)],
                                                    num_skins,
                                                    skin_width,
                                                    skin_height,
                                                    num_verts,
                                                    num_tris,
                                                    num_frames,
                                                    sync_type: u32_at(d, 72) as i32,
                                                    flags: u32_at(d, 76) as i32,
                                                    size: u32_at(d, 80),
                                                })
                                            },
                                        },
                                    },
                                },
                            },
                        },
                    }
                },
            }
        },
    }
}

/// One skin at `p`: its type word, then one block of `size` bytes (type
/// 0), or a count, that many intervals and that many blocks (type 1).
pub open spec fn spec_skin(d: Seq<u8>, p: int, w: u32, h: u32) -> Result<(SkinView, int), MdlError> {
    let size = (w * h) as nat;
    match word_at(d, p) {
        None => Err(MdlError::UnexpectedEof),
        Some(t) => if t as i32 == 0 {
            if p + 4 + size <= d.len() {
                Ok((SkinView::Single { width: w, height: h, indices: d.subrange(p + 4, p + 4 + size) }, p + 4 + size))
            } else {
                Err(MdlError::UnexpectedEof)
            }
        } else if t as i32 == 1 {
            match count_at(d, p + 4, "skin_group_count") {
                Err(e) => Err(e),
                Ok(n) => match spec_words(d, p + 8, n as nat) {
                    Err(e) => Err(e),
                    Ok((intervals, q)) => match spec_blocks(d, q, n as nat, size) {
                        Err(e) => Err(e),
                        Ok((frames, r)) => Ok((SkinView::Group { width: w, height: h, intervals, frames }, r)),
                    },
                },
            }
        } else {
            Err(MdlError::UnsupportedSkinType(t as i32))
        },
    }
}

pub open spec fn spec_skins(d: Seq<u8>, p: int, n: nat, w: u32, h: u32) -> Result<(Seq<SkinView>, int), MdlError>
    decreases n,
{
    if n == 0 {
        Ok((Seq::empty(), p))
    } else {
        match spec_skin(d, p, w, h) {
            Err(e) => Err(e),
            Ok((s, q)) => match spec_skins(d, q, (n - 1) as nat, w, h) {
                Err(e) => Err(e),
                Ok((rest, e)) => Ok((seq![s] + rest, e)),
            },
        }
    }
}

/// A triangle index: a word that must fit in 16 bits.
pub open spec fn index_at(d: Seq<u8>, p: int) -> Result<u16, MdlError> {
    match word_at(d, p) {
        None => Err(MdlError::UnexpectedEof),
        Some(w) => if (w as i32) < 0 || (w as i32) > 65535 {
            Err(MdlError::InvalidData("triangle index out of range"))
        } else {
            Ok(w as u16)
        },
    }
}

/// One triangle at `p`: a front-facing flag and three vertex indices.
pub open spec fn spec_triangle(d: Seq<u8>, p: int) -> Result<MdlTriangle, MdlError> {
    match word_at(d, p) {
        None => Err(MdlError::UnexpectedEof),
        Some(front) => match index_at(d, p + 4) {
            Err(e) => Err(e),
            Ok(a) => match index_at(d, p + 8) {
                Err(e) => Err(e),
                Ok(b) => match index_at(d, p + 12) {
                    Err(e) => Err(e),
                    Ok(c) => Ok(MdlTriangle { faces_front: front != 0, indices: [a, b, c] }),
                },
            },
        },
    }
}

pub open spec fn spec_triangles(d: Seq<u8>, p: int, n: nat) -> Result<Seq<MdlTriangle>, MdlError>
    decreases n,
{
    if n == 0 {
        Ok(Seq::empty())
    } else {
        match spec_triangle(d, p) {
            Err(e) => Err(e),
            Ok(t) => match spec_triangles(d, p + 16, (n - 1) as nat) {
                Err(e) => Err(e),
                Ok(rest) => Ok(seq![t] + rest),
            },
        }
    }
}

pub open spec fn vertex_at(d: Seq<u8>, p: int) -> MdlVertex {
    MdlVertex { coords: [d[p], d[p + 1], d[p + 2]], normal_index: d[p + 3] }
}

/// One frame at `p`: two bounding vertices, a 16-byte name and `nv`
/// vertices of four bytes each.
pub open spec fn spec_frame(d: Seq<u8>, p: int, nv: nat) -> Result<(FrameView, int), MdlError> {
    if p + 24 + 4 * nv <= d.len() {
        let f = d.subrange(p + 8, p + 24);
        Ok((
            FrameView {
                name: lossy_text(f.take(zero_from(f, 0))),
                vertices: Seq::new(nv, |i: int| vertex_at(d, p + 24 + 4 * i)),
            },
            p + 24 + 4 * nv,
        ))
    } else {
        Err(MdlError::UnexpectedEof)
    }
}

pub open spec fn spec_frames(d: Seq<u8>, p: int, n: nat, nv: nat) -> Result<(Seq<FrameView>, int), MdlError>
    decreases n,
{
    if n == 0 {
        Ok((Seq::empty(), p))
    } else {
        match spec_frame(d, p, nv) {
            Err(e) => Err(e),
            Ok((f, q)) => match spec_frames(d, q, (n - 1) as nat, nv) {
                Err(e) => Err(e),
                Ok((rest, e)) => Ok((seq![f] + rest, e)),
            },
        }
    }
}

/// One entry of the animation at `p`: its type word, then a frame (type 0),
/// or a count, that many intervals and that many frames (type 1).
pub open spec fn spec_group(d: Seq<u8>, p: int, nv: nat) -> Result<(GroupView, int), MdlError> {
    match word_at(d, p) {
        None => Err(MdlError::UnexpectedEof),
        Some(t) => if t as i32 == 0 {
            match spec_frame(d, p + 4, nv) {
                Err(e) => Err(e),
                Ok((f, q)) => Ok((GroupView::Single(f), q)),
            }
        } else if t as i32 == 1 {
            match count_at(d, p + 4, "frame_group_count") {
                Err(e) => Err(e),
                Ok(n) => match spec_words(d, p + 8, n as nat) {
                    Err(e) => Err(e),
                    Ok((intervals, q)) => match spec_frames(d, q, n as nat, nv) {
                        Err(e) => Err(e),
                        Ok((frames, r)) => Ok((GroupView::Group { intervals, frames }, r)),
                    },
                },
            }
        } else {
            Err(MdlError::UnsupportedFrameType(t as i32))
        },
    }
}

/// The bytes of one frame of `nv` vertices.
pub open spec fn frame_size(nv: nat) -> int {
    24 + 4 * nv as int
}

proof fn lemma_frames_layout(d: Seq<u8>, q: int, n: nat, nv: nat)
    requires
        spec_frames(d, q, n, nv) is Ok,
    ensures
        ({
            let (fs, e) = spec_frames(d, q, n, nv)->Ok_0;
            &&& fs.len() == n
            &&& e == q + n * frame_size(nv)
            &&& forall|k: int| 0 <= k < n ==> spec_frame(d, q + k * frame_size(nv), nv)
                == Ok::<(FrameView, int), MdlError>((#[trigger] fs[k], q + (k + 1) * frame_size(nv)))
        }),
    decreases n,
{
    if n > 0 {
        let s = frame_size(nv);
        let (f, q1) = spec_frame(d, q, nv)->Ok_0;
        assert(q1 == q + s);
        lemma_frames_layout(d, q1, (n - 1) as nat, nv);
        let (rest, e1) = spec_frames(d, q1, (n - 1) as nat, nv)->Ok_0;
        let fs = seq![f] + rest;
        assert(e1 == q + n * s) by (nonlinear_arith)
            requires
                e1 == q1 + (n - 1) * s,
                q1 == q + s,
        ;
        assert(spec_frames(d, q, n, nv)->Ok_0 == (fs, e1));
        assert forall|k: int| 0 <= k < n implies spec_frame(d, q + k * s, nv)
            == Ok::<(FrameView, int), MdlError>((#[trigger] fs[k], q + (k + 1) * s)) by {
            if k == 0 {
                assert(fs[0] == f);
                assert(q + k * s == q && q + (k + 1) * s == q + s) by (nonlinear_arith)
                    requires
                        k == 0,
                ;
            } else {
                assert(spec_frame(d, q1 + (k - 1) * s, nv) == Ok::<(FrameView, int), MdlError>((rest[k - 1], q1 + (k - 1 + 1) * s)));
                assert(fs[k] == rest[k - 1]);
                assert(q1 + (k - 1) * s == q + k * s && q1 + k * s == q + (k + 1) * s) by (nonlinear_arith)
                    requires
                        q1 == q + s,
                ;
            }
        }
    }
}

/// The layout of a frame group: type word 1 at `p`, the count `n` after
/// it, then the `n` intervals, then the `n` frames one after another. A
/// group read from `p` has exactly those intervals and frames, and reading
/// goes on after its last frame.
pub proof fn law_frame_group_layout(d: Seq<u8>, p: int, nv: nat)
    ensures
        spec_group(d, p, nv) matches Ok((GroupView::Group { intervals, frames }, r)) ==> {
            let n = u32_at(d, p + 4) as int;
            let first = p + 8 + 4 * n;
            &&& u32_at(d, p) == 1
            &&& intervals.len() == n
            &&& frames.len() == n
            &&& forall|k: int| 0 <= k < n ==> #[trigger] intervals[k] == u32_at(d, p + 8 + 4 * k)
            &&& forall|k: int| 0 <= k < n ==> spec_frame(d, first + k * frame_size(nv), nv)
                == Ok::<(FrameView, int), MdlError>((#[trigger] frames[k], first + (k + 1) * frame_size(nv)))
            &&& r == first + n * frame_size(nv)
        },
{
    if let Ok((GroupView::Group { intervals, frames }, r)) = spec_group(d, p, nv) {
        let t = u32_at(d, p);
        assert(word_at(d, p) == Some(t));
        assert(t as i32 == 1 ==> t == 1) by (bit_vector);
        assert(t as i32 == 1);
        let n = u32_at(d, p + 4);
        assert(count_at(d, p + 4, "frame_group_count") == Ok::<u32, MdlError>(n));
        assert(spec_words(d, p + 8, n as nat) is Ok);
        lemma_frames_layout(d, p + 8 + 4 * n, n as nat, nv);
    }
}

pub open spec fn spec_groups(d: Seq<u8>, p: int, n: nat, nv: nat) -> Result<Seq<GroupView>, MdlError>
    decreases n,
{
    if n == 0 {
        Ok(Seq::empty())
    } else {
        match spec_group(d, p, nv) {
            Err(e) => Err(e),
            Ok((g, q)) => match spec_groups(d, q, (n - 1) as nat, nv) {
                Err(e) => Err(e),
                Ok(rest) => Ok(seq![g] + rest),
            },
        }
    }
}

/// The whole file: the header, the skins, the triangles and the frames, in
/// that order. A skin size past the machine's limit is refused before any
/// skin is read.
pub open spec fn spec_model(d: Seq<u8>) -> Result<(MdlHeader, Seq<SkinView>, Seq<MdlTriangle>, Seq<GroupView>), MdlError> {
    match spec_header(d) {
        Err(e) => Err(e),
        Ok(h) => if h.skin_width * h.skin_height > usize::MAX {
            Err(MdlError::InvalidData("skin size overflow"))
        } else {
            match spec_skins(d, 84, h.num_skins as nat, h.skin_width, h.skin_height) {
                Err(e) => Err(e),
                Ok((skins, p)) => match spec_triangles(d, p, h.num_tris as nat) {
                    Err(e) => Err(e),
                    Ok(tris) => match spec_groups(d, p + 16 * h.num_tris, h.num_frames as nat, h.num_verts as nat) {
                        Err(e) => Err(e),
                        Ok(groups) => Ok((h, skins, tris, groups)),
                    },
                },
            }
        },
    }
}

// ---- reading ----

fn read_word(data: &[u8], at: usize) -> (r: Result<u32, MdlError>)
    ensures
        match word_at(data@, at as int) {
            Some(w) => r == Ok::<u32, MdlError>(w),
            None => r == Err::<u32, MdlError>(MdlError::UnexpectedEof),
        },
{
    if at > data.len() || data.len() - at < 4 {
        Err(MdlError::UnexpectedEof)
    } else {
        Ok(read_u32_at(data, at))
    }
}

fn read_count(data: &[u8], at: usize, label: &'static str) -> (r: Result<u32, MdlError>)
    ensures
        r == count_at(data@, at as int, label),
{
    let w = read_word(data, at)?;
    if (w as i32) < 0 {
        Err(MdlError::InvalidData(label))
    } else {
        Ok(w)
    }
}

fn read_index(data: &[u8], at: usize) -> (r: Result<u16, MdlError>)
    ensures
        r == index_at(data@, at as int),
{
    let w = read_word(data, at)?;
    let v = w as i32;
    if v < 0 || v > 65535 {
        Err(MdlError::InvalidData("triangle index out of range"))
    } else {
        Ok(w as u16)
    }
}

fn parse_words(data: &[u8], at: usize, n: u32) -> (r: Result<(Vec<u32>, usize), MdlError>)
    requires
        at <= data.len(),
    ensures
        r matches Ok((_, e)) ==> e <= data@.len(),
        match spec_words(data@, at as int, n as nat) {
            Ok((ws, q)) => r matches Ok((v, e)) && v@ == ws && e == q,
            Err(x) => r == Err::<(Vec<u32>, usize), MdlError>(x),
        },
{
    if (data.len() - at) / 4 < n as usize {
        proof {
            let x = (data@.len() - at) as int;
            assert(x < 4 * (n as int)) by (nonlinear_arith)
                requires
                    x / 4 < n as int,
                    x >= 0;
        }
        return Err(MdlError::UnexpectedEof);
    }
    proof {
        let x = (data@.len() - at) as int;
        assert(4 * (n as int) <= x) by (nonlinear_arith)
            requires
                x / 4 >= n as int,
                x >= 0;
    }
    let mut words: Vec<u32> = Vec::new();
    let mut i: usize = 0;
    while i < n as usize
        invariant
            i <= n,
            at + 4 * (n as int) <= data.len(),
            words@ == Seq::new(i as nat, |k: int| u32_at(data@, at + 4 * k)),
        decreases n - i,
    {
        assert(at + 4 * (i as int) + 4 <= data.len());
        words.push(read_u32_at(data, at + 4 * i));
        i = i + 1;
        assert(words@ =~= Seq::new(i as nat, |k: int| u32_at(data@, at + 4 * k)));
    }
    Ok((words, at + 4 * (n as usize)))
}

fn parse_blocks(data: &[u8], at: usize, n: u32, size: usize) -> (r: Result<(Vec<Vec<u8>>, usize), MdlError>)
    requires
        at <= data.len(),
    ensures
        r matches Ok((_, e)) ==> e <= data@.len(),
        match spec_blocks(data@, at as int, n as nat, size as nat) {
            Ok((bs, q)) => r matches Ok((v, e)) && byte_views(v@) == bs && e == q,
            Err(x) => r == Err::<(Vec<Vec<u8>>, usize), MdlError>(x),
        },
{
    let total = match (n as usize).checked_mul(size) {
        Some(t) => t,
        None => {
            return Err(MdlError::UnexpectedEof);
        },
    };
    if total > data.len() - at {
        return Err(MdlError::UnexpectedEof);
    }
    let mut blocks: Vec<Vec<u8>> = Vec::new();
    let mut i: u32 = 0;
    let mut pos: usize = at;
    while i < n
        invariant
            i <= n,
            total == (n as int) * (size as int),
            at + total <= data.len(),
            pos == at + (i as int) * (size as int),
            byte_views(blocks@) == Seq::new(i as nat, |k: int| data@.subrange(at + k * size, at + k * size + size)),
        decreases n - i,
    {
        proof {
            vstd::arithmetic::mul::lemma_mul_inequality((i + 1) as int, n as int, size as int);
            assert((i + 1) as int * size as int == (i as int) * (size as int) + size) by (nonlinear_arith);
        }
        let block = vstd::slice::slice_to_vec(vstd::slice::slice_subrange(data, pos, pos + size));
        let ghost before = byte_views(blocks@);
        blocks.push(block);
        proof {
            assert(byte_views(blocks@) =~= before.push(block@));
            assert(block@ == data@.subrange(at + (i as int) * (size as int), at + (i as int) * (size as int) + size));
        }
        pos = pos + size;
        i = i + 1;
        proof {
            assert(byte_views(blocks@) =~= Seq::new(i as nat, |k: int| data@.subrange(at + k * size, at + k * size + size)));
        }
    }
    proof {
        assert(byte_views(blocks@) =~= Seq::new(n as nat, |k: int| data@.subrange(at as int + k * (size as nat), at as int + k * (size as nat) + (size as nat))));
    }
    Ok((blocks, pos))
}

fn parse_skin(data: &[u8], at: usize, width: u32, height: u32, size: usize) -> (r: Result<(MdlSkin, usize), MdlError>)
    requires
        at <= data.len(),
        size == width * height,
    ensures
        r matches Ok((_, e)) ==> e <= data@.len(),
        match spec_skin(data@, at as int, width, height) {
            Ok((sv, q)) => r matches Ok((sk, e)) && skin_view(sk) == sv && e == q,
            Err(x) => r == Err::<(MdlSkin, usize), MdlError>(x),
        },
{
    let t = read_word(data, at)? as i32;
    if t == 0 {
        if size > data.len() - (at + 4) {
            return Err(MdlError::UnexpectedEof);
        }
        let indices = vstd::slice::slice_to_vec(vstd::slice::slice_subrange(data, at + 4, at + 4 + size));
        Ok((MdlSkin::Single { width, height, indices }, at + 4 + size))
    } else if t == 1 {
        let n = read_count(data, at + 4, "skin_group_count")?;
        let (intervals, q) = parse_words(data, at + 8, n)?;
        let (frames, r) = parse_blocks(data, q, n, size)?;
        Ok((MdlSkin::Group { width, height, intervals, frames }, r))
    } else {
        Err(MdlError::UnsupportedSkinType(t))
    }
}

fn parse_skins(data: &[u8], at: usize, n: u32, width: u32, height: u32, size: usize) -> (r: Result<(Vec<MdlSkin>, usize), MdlError>)
    requires
        at <= data.len(),
        size == width * height,
    ensures
        r matches Ok((_, e)) ==> e <= data@.len(),
        match spec_skins(data@, at as int, n as nat, width, height) {
            Ok((ss, q)) => r matches Ok((v, e)) && skin_views(v@) == ss && e == q,
            Err(x) => r == Err::<(Vec<MdlSkin>, usize), MdlError>(x),
        },
{
    let mut skins: Vec<MdlSkin> = Vec::new();
    let mut pos = at;
    let mut i: u32 = 0;
    while i < n
        invariant
            i <= n,
            pos <= data.len(),
            size == width * height,
            spec_skins(data@, at as int, n as nat, width, height) == match spec_skins(data@, pos as int, (n - i) as nat, width, height) {
                Ok((rest, e)) => Ok((skin_views(skins@) + rest, e)),
                Err(x) => Err::<(Seq<SkinView>, int), MdlError>(x),
            },
        decreases n - i,
    {
        let (skin, next) = parse_skin(data, pos, width, height, size)?;
        let ghost before = skin_views(skins@);
        skins.push(skin);
        proof {
            assert(skin_views(skins@) =~= before.push(skin_view(skin)));
            match spec_skins(data@, next as int, (n - i - 1) as nat, width, height) {
                Ok((rest, e)) => {
                    assert(before + (seq![skin_view(skin)] + rest) =~= before.push(skin_view(skin)) + rest);
                },
                Err(_) => {},
            }
        }
        pos = next;
        i = i + 1;
    }
    assert(skin_views(skins@) + Seq::<SkinView>::empty() =~= skin_views(skins@));
    Ok((skins, pos))
}

fn parse_triangles(data: &[u8], at: usize, n: u32) -> (r: Result<Vec<MdlTriangle>, MdlError>)
    requires
        at <= data.len(),
    ensures
        match spec_triangles(data@, at as int, n as nat) {
            Ok(ts) => r matches Ok(v) && v@ == ts && at + 16 * (n as int) <= data.len(),
            Err(x) => r == Err::<Vec<MdlTriangle>, MdlError>(x),
        },
{
    let mut tris: Vec<MdlTriangle> = Vec::new();
    let mut pos = at;
    let mut i: u32 = 0;
    while i < n
        invariant
            i <= n,
            pos == at + 16 * (i as int),
            pos <= data.len(),
            spec_triangles(data@, at as int, n as nat) == match spec_triangles(data@, pos as int, (n - i) as nat) {
                Ok(rest) => Ok(tris@ + rest),
                Err(x) => Err::<Seq<MdlTriangle>, MdlError>(x),
            },
        decreases n - i,
    {
        let front = read_word(data, pos)?;
        let a = read_index(data, pos + 4)?;
        let b = read_index(data, pos + 8)?;
        let c = read_index(data, pos + 12)?;
        let t = MdlTriangle { faces_front: front != 0, indices: [a, b, c] };
        let ghost before = tris@;
        tris.push(t);
        proof {
            match spec_triangles(data@, pos + 16, (n - i - 1) as nat) {
                Ok(rest) => {
                    assert(before + (seq![t] + rest) =~= before.push(t) + rest);
                },
                Err(_) => {},
            }
        }
        pos = pos + 16;
        i = i + 1;
    }
    assert(tris@ + Seq::<MdlTriangle>::empty() =~= tris@);
    Ok(tris)
}

fn parse_frame(data: &[u8], at: usize, nv: u32) -> (r: Result<(MdlFrame, usize), MdlError>)
    requires
        at <= data.len(),
    ensures
        r matches Ok((_, e)) ==> e <= data@.len(),
        match spec_frame(data@, at as int, nv as nat) {
            Ok((f, q)) => r matches Ok((fr, e)) && frame_view(fr) == f && e == q,
            Err(x) => r == Err::<(MdlFrame, usize), MdlError>(x),
        },
{
    let need: u64 = 24 + 4 * (nv as u64);
    if need > (data.len() - at) as u64 {
        return Err(MdlError::UnexpectedEof);
    }
    let name = fixed_string(vstd::slice::slice_subrange(data, at + 8, at + 24));
    let mut vertices: Vec<MdlVertex> = Vec::new();
    let mut i: u32 = 0;
    let base = at + 24;
    while i < nv
        invariant
            i <= nv,
            base == at + 24,
            base + 4 * (nv as int) <= data.len(),
            vertices@ == Seq::new(i as nat, |k: int| vertex_at(data@, base + 4 * k)),
        decreases nv - i,
    {
        let p = base + 4 * (i as usize);
        let v = MdlVertex { coords: [data[p], data[p + 1], data[p + 2]], normal_index: data[p + 3] };
        vertices.push(v);
        i = i + 1;
        proof {
            assert(v == vertex_at(data@, p as int));
            assert(vertices@ =~= Seq::new(i as nat, |k: int| vertex_at(data@, base + 4 * k)));
        }
    }
    Ok((MdlFrame { name, vertices }, base + 4 * (nv as usize)))
}

fn parse_frames(data: &[u8], at: usize, n: u32, nv: u32) -> (r: Result<(Vec<MdlFrame>, usize), MdlError>)
    requires
        at <= data.len(),
    ensures
        r matches Ok((_, e)) ==> e <= data@.len(),
        match spec_frames(data@, at as int, n as nat, nv as nat) {
            Ok((fs, q)) => r matches Ok((v, e)) && frame_views(v@) == fs && e == q,
            Err(x) => r == Err::<(Vec<MdlFrame>, usize), MdlError>(x),
        },
{
    let mut frames: Vec<MdlFrame> = Vec::new();
    let mut pos = at;
    let mut i: u32 = 0;
    while i < n
        invariant
            i <= n,
            pos <= data.len(),
            spec_frames(data@, at as int, n as nat, nv as nat) == match spec_frames(data@, pos as int, (n - i) as nat, nv as nat) {
                Ok((rest, e)) => Ok((frame_views(frames@) + rest, e)),
                Err(x) => Err::<(Seq<FrameView>, int), MdlError>(x),
            },
        decreases n - i,
    {
        let (frame, next) = parse_frame(data, pos, nv)?;
        let ghost before = frame_views(frames@);
        frames.push(frame);
        proof {
            assert(frame_views(frames@) =~= before.push(frame_view(frame)));
            match spec_frames(data@, next as int, (n - i - 1) as nat, nv as nat) {
                Ok((rest, e)) => {
                    assert(before + (seq![frame_view(frame)] + rest) =~= before.push(frame_view(frame)) + rest);
                },
                Err(_) => {},
            }
        }
        pos = next;
        i = i + 1;
    }
    assert(frame_views(frames@) + Seq::<FrameView>::empty() =~= frame_views(frames@));
    Ok((frames, pos))
}

fn parse_group(data: &[u8], at: usize, nv: u32) -> (r: Result<(MdlFrameGroup, usize), MdlError>)
    requires
        at <= data.len(),
    ensures
        r matches Ok((_, e)) ==> e <= data@.len(),
        match spec_group(data@, at as int, nv as nat) {
            Ok((g, q)) => r matches Ok((gr, e)) && group_view(gr) == g && e == q,
            Err(x) => r == Err::<(MdlFrameGroup, usize), MdlError>(x),
        },
{
    let t = read_word(data, at)? as i32;
    if t == 0 {
        let (frame, next) = parse_frame(data, at + 4, nv)?;
        Ok((MdlFrameGroup::Single(frame), next))
    } else if t == 1 {
        let n = read_count(data, at + 4, "frame_group_count")?;
        let (intervals, q) = parse_words(data, at + 8, n)?;
        let (frames, r) = parse_frames(data, q, n, nv)?;
        Ok((MdlFrameGroup::Group { intervals, frames }, r))
    } else {
        Err(MdlError::UnsupportedFrameType(t))
    }
}

fn parse_groups(data: &[u8], at: usize, n: u32, nv: u32) -> (r: Result<Vec<MdlFrameGroup>, MdlError>)
    requires
        at <= data.len(),
    ensures
        match spec_groups(data@, at as int, n as nat, nv as nat) {
            Ok(gs) => r matches Ok(v) && group_views(v@) == gs,
            Err(x) => r == Err::<Vec<MdlFrameGroup>, MdlError>(x),
        },
{
    let mut groups: Vec<MdlFrameGroup> = Vec::new();
    let mut pos = at;
    let mut i: u32 = 0;
    while i < n
        invariant
            i <= n,
            pos <= data.len(),
            spec_groups(data@, at as int, n as nat, nv as nat) == match spec_groups(data@, pos as int, (n - i) as nat, nv as nat) {
                Ok(rest) => Ok(group_views(groups@) + rest),
                Err(x) => Err::<Seq<GroupView>, MdlError>(x),
            },
        decreases n - i,
    {
        let (group, next) = parse_group(data, pos, nv)?;
        let ghost before = group_views(groups@);
        groups.push(group);
        proof {
            assert(group_views(groups@) =~= before.push(group_view(group)));
            match spec_groups(data@, next as int, (n - i - 1) as nat, nv as nat) {
                Ok(rest) => {
                    assert(before + (seq![group_view(group)] + rest) =~= before.push(group_view(group)) + rest);
                },
                Err(_) => {},
            }
        }
        pos = next;
        i = i + 1;
    }
    assert(group_views(groups@) + Seq::<GroupView>::empty() =~= group_views(groups@));
    Ok(groups)
}

fn parse_header(data: &[u8]) -> (r: Result<MdlHeader, MdlError>)
    ensures
        r == spec_header(data@),
{
    let ident = read_word(data, 0)?;
    if ident != IDPOLYHEADER {
        return Err(MdlError::InvalidHeader);
    }
    let version = read_word(data, 4)? as i32;
    if version != MDL_VERSION {
        return Err(MdlError::UnsupportedVersion(version));
    }
    if data.len() < 48 {
        return Err(MdlError::UnexpectedEof);
    }
    let num_skins = read_count(data, 48, "num_skins")?;
    let skin_width = read_count(data, 52, "skin_width")?;
    let skin_height = read_count(data, 56, "skin_height")?;
    let num_verts = read_count(data, 60, "num_verts")?;
    let num_tris = read_count(data, 64, "num_tris")?;
    let num_frames = read_count(data, 68, "num_frames")?;
    if data.len() < 84 {
        return Err(MdlError::UnexpectedEof);
    }
    Ok(MdlHeader {
        scale: [read_u32_at(data, 8), read_u32_at(data, 12), read_u32_at(data, 16)],
        translate: [read_u32_at(data, 20), read_u32_at(data, 24), read_u32_at(data, 28)],
        bounding_radius: read_u32_at(data, 32),
        eye_position: [read_u32_at(data, 36), read_u32_at(data, 40), read_u32_at(data, 44)],
        num_skins,
        skin_width,
        skin_height,
        num_verts,
        num_tris,
        num_frames,
        sync_type: read_u32_at(data, 72) as i32,
        flags: read_u32_at(data, 76) as i32,
        size: read_u32_at(data, 80),
    })
}

impl AliasModel {
    /// Reads a model file: header, skins, triangles and frames.
    pub fn from_bytes(data: &[u8]) -> (r: Result<Self, MdlError>)
        ensures
            match spec_model(data@) {
                Ok((h, skins, tris, groups)) => r matches Ok(m) && m.header == h && skin_views(m.skins@) == skins
                    && m.triangles@ == tris && group_views(m.frames@) == groups,
                Err(x) => r matches Err(e) && e == x,
            },
    {
        let header = parse_header(data)?;
        let size = match (header.skin_width as usize).checked_mul(header.skin_height as usize) {
            Some(v) => v,
            None => {
                return Err(MdlError::InvalidData("skin size overflow"));
            },
        };
        let (skins, p) = parse_skins(data, MDL_HEADER_SIZE, header.num_skins, header.skin_width, header.skin_height, size)?;
        let triangles = parse_triangles(data, p, header.num_tris)?;
        let frames = parse_groups(data, p + 16 * (header.num_tris as usize), header.num_frames, header.num_verts)?;
        Ok(AliasModel { header, skins, triangles, frames })
    }
}

impl MdlSkin {
    /// Each picture of the skin as RGBA bytes; index 255 is transparent.
    pub fn expand_rgba(&self, palette: &Palette) -> (r: Vec<Vec<u8>>)
        requires
            palette.wf(),
        ensures
            match skin_view(*self) {
                SkinView::Single { indices, .. } => byte_views(r@) == seq![spec_expand(palette.spec_colors(), indices, Some(255u8))],
                SkinView::Group { frames, .. } => byte_views(r@) == Seq::new(frames.len(), |i: int| spec_expand(palette.spec_colors(), frames[i], Some(255u8))),
            },
    {
        match self {
            MdlSkin::Single { indices, .. } => {
                let mut out: Vec<Vec<u8>> = Vec::new();
                out.push(palette.expand_indices(indices.as_slice(), Some(255)));
                assert(byte_views(out@) =~= seq![spec_expand(palette.spec_colors(), indices@, Some(255u8))]);
                out
            },
            MdlSkin::Group { frames, .. } => {
                let ghost fs = byte_views(frames@);
                let mut out: Vec<Vec<u8>> = Vec::new();
                let mut i: usize = 0;
                while i < frames.len()
                    invariant
                        palette.wf(),
                        fs == byte_views(frames@),
                        i <= frames@.len(),
                        byte_views(out@) == Seq::new(i as nat, |k: int| spec_expand(palette.spec_colors(), fs[k], Some(255u8))),
                    decreases frames@.len() - i,
                {
                    let ghost before = byte_views(out@);
                    let e = palette.expand_indices(frames[i].as_slice(), Some(255));
                    out.push(e);
                    proof {
                        assert(byte_views(out@) =~= before.push(e@));
                        assert(frames@[i as int]@ == fs[i as int]);
                    }
                    i = i + 1;
                    assert(byte_views(out@) =~= Seq::new(i as nat, |k: int| spec_expand(palette.spec_colors(), fs[k], Some(255u8))));
                }
                out
            },
        }
    }
}

} // verus!
