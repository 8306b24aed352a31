//! Data handed to a renderer: its configuration, textures and lightmaps,
//! model textures, on-screen text, and how an entity's model is drawn.
use vstd::prelude::*;
use crate::bsp_render::{BspRender, Face, RenderView};
use crate::palette::{Palette, spec_rgba};
use crate::server::{lower_chars, lower_text};

verus! {

#[derive(Debug, Clone, Copy, PartialEq, Eq)]
pub struct RendererConfig {
    pub width: u32,
    pub height: u32,
    pub vsync: bool,
}

impl Default for RendererConfig {
    /// A 1280 by 720 window with vertical sync.
    fn default() -> (c: Self)
        ensures
            c.width == 1280 && c.height == 720 && c.vsync,
    {
        RendererConfig { width: 1280, height: 720, vsync: true }
    }
}

/// A world texture with its four mip levels of color indices.
#[derive(Debug, Clone, PartialEq, Eq)]
pub struct RenderTexture {
    pub name: String,
    pub width: u32,
    pub height: u32,
    pub mips: [Vec<u8>; 4],
}

/// A surface's lightmap: the light styles that feed it and one block of
/// samples per style.
#[derive(Debug, Clone, PartialEq, Eq)]
pub struct RenderLightmap {
    pub width: u32,
    pub height: u32,
    pub styles: Vec<u8>,
    pub samples: Vec<Vec<u8>>,
}

/// A world texture as uploaded for drawing.
#[derive(Debug, Clone, PartialEq, Eq)]
pub struct GpuTexture {
    pub width: u32,
    pub height: u32,
    pub mips: [Vec<u8>; 4],
}

/// A lightmap as uploaded for drawing: the combined samples.
#[derive(Debug, Clone, PartialEq, Eq)]
pub struct GpuLightmap {
    pub width: u32,
    pub height: u32,
    pub samples: Vec<u8>,
}

#[derive(Debug, Clone, Copy, PartialEq, Eq, Structural)]
pub enum RenderEntityKind {
    Brush,
    Alias,
    Sprite,
}

/// An alias-model skin or a sprite frame in RGBA.
#[derive(Debug, Clone, PartialEq, Eq)]
pub struct RenderModelTexture {
    pub width: u32,
    pub height: u32,
    pub rgba: Vec<u8>,
}

/// A line of on-screen text at a pixel position, in an RGBA color.
#[derive(Debug, Clone, PartialEq, Eq)]
pub struct UiText {
    pub text: String,
    pub x: i32,
    pub y: i32,
    pub color: [u8; 4],
}

#[derive(Debug, Clone, PartialEq, Eq)]
pub struct UiLayer {
    pub texts: Vec<UiText>,
}

impl Default for UiLayer {
    fn default() -> (l: Self)
        ensures
            l.texts@.len() == 0,
    {
        UiLayer { texts: Vec::new() }
    }
}

/// How a model is drawn, from its name: `*n` names a brush model of the
/// map, a name ending in `.spr` (in any case) a sprite, anything else an
/// alias model.
pub open spec fn spec_model_kind(name: Seq<char>) -> RenderEntityKind {
    if name.len() > 0 && name[0] == '*' {
        RenderEntityKind::Brush
    } else if lower_text(name).len() >= 4 && lower_text(name).subrange(lower_text(name).len() - 4, lower_text(name).len() as int) == seq!['.', 's', 'p', 'r'] {
        RenderEntityKind::Sprite
    } else {
        RenderEntityKind::Alias
    }
}

pub fn model_kind_from_name(name: &str) -> (k: RenderEntityKind)
    ensures
        k == spec_model_kind(name@),
{
    let low = lower_chars(name);
    if low.len() > 0 && low[0] == '*' {
        return RenderEntityKind::Brush;
    }
    let n = low.len();
    if n >= 4 && low[n - 4] == '.' && low[n - 3] == 's' && low[n - 2] == 'p' && low[n - 1] == 'r' {
        assert(lower_text(name@).subrange(n - 4, n as int) =~= seq!['.', 's', 'p', 'r']);
        return RenderEntityKind::Sprite;
    }
    proof {
        if n >= 4 && lower_text(name@).subrange(n - 4, n as int) == seq!['.', 's', 'p', 'r'] {
            assert(lower_text(name@).subrange(n - 4, n as int)[0] == low@[n - 4]);
            assert(lower_text(name@).subrange(n - 4, n as int)[1] == low@[n - 3]);
            assert(lower_text(name@).subrange(n - 4, n as int)[2] == low@[n - 2]);
            assert(lower_text(name@).subrange(n - 4, n as int)[3] == low@[n - 1]);
        }
    }
    RenderEntityKind::Alias
}

/// A palette color with the given alpha; white where there is no palette.
pub fn rgba_from_palette(palette: Option<&Palette>, index: u8, alpha: u8) -> (r: [u8; 4])
    requires
        palette matches Some(p) ==> p.wf(),
    ensures
        match palette {
            Some(p) => r@ == spec_rgba(p.spec_colors(), index, None).update(3, alpha),
            None => r@ == seq![255u8, 255u8, 255u8, alpha],
        },
{
    let mut rgba: [u8; 4] = match palette {
        Some(p) => p.rgba_for(index, None),
        None => [255u8, 255u8, 255u8, 255u8],
    };
    rgba.set(3, alpha);
    assert(rgba@ =~= match palette {
        Some(p) => spec_rgba(p.spec_colors(), index, None).update(3, alpha),
        None => seq![255u8, 255u8, 255u8, alpha],
    });
    rgba
}

/// An RGB color with the given alpha.
pub fn rgba_from_rgb(color: [u8; 3], alpha: u8) -> (r: [u8; 4])
    ensures
        r@ == seq![color@[0], color@[1], color@[2], alpha],
{
    let r = [color[0], color[1], color[2], alpha];
    assert(r@ =~= seq![color@[0], color@[1], color@[2], alpha]);
    r
}

/// The triangles of a convex polygon of `vertex_count` corners as a fan
/// around corner 0: `(0, i, i + 1)` for each `i` from 1 to `vertex_count - 2`;
/// none below three corners.
pub open spec fn spec_fan(vertex_count: nat) -> Seq<u32> {
    if vertex_count < 3 {
        Seq::empty()
    } else {
        Seq::new(((vertex_count - 2) * 3) as nat, |k: int|
            if k % 3 == 0 { 0u32 } else if k % 3 == 1 { (k / 3 + 1) as u32 } else { (k / 3 + 2) as u32 })
    }
}

pub fn triangulate_fan(vertex_count: usize) -> (r: Vec<u32>)
    ensures
        r@ == spec_fan(vertex_count as nat),
{
    let mut indices: Vec<u32> = Vec::new();
    if vertex_count < 3 {
        assert(indices@ =~= spec_fan(vertex_count as nat));
        return indices;
    }
    let mut i: usize = 1;
    while i < vertex_count - 1
        invariant
            3 <= vertex_count,
            1 <= i <= vertex_count - 1,
            indices@ == spec_fan(vertex_count as nat).take(3 * (i - 1)),
        decreases vertex_count - i,
    {
        indices.push(0);
        indices.push(i as u32);
        indices.push((i + 1) as u32);
        proof {
            let f = spec_fan(vertex_count as nat);
            assert(3 * i <= f.len()) by (nonlinear_arith)
                requires
                    i < vertex_count - 1,
                    f.len() == (vertex_count - 2) * 3,
            ;
            let b = 3 * (i - 1);
            assert((b / 3) == i - 1 && b % 3 == 0) by (nonlinear_arith)
                requires
                    b == 3 * (i - 1),
                    i >= 1,
            ;
            assert(((b + 1) / 3) == i - 1 && (b + 1) % 3 == 1) by (nonlinear_arith)
                requires
                    b == 3 * (i - 1),
                    i >= 1,
            ;
            assert(((b + 2) / 3) == i - 1 && (b + 2) % 3 == 2) by (nonlinear_arith)
                requires
                    b == 3 * (i - 1),
                    i >= 1,
            ;
            assert(indices@ =~= f.take(3 * i));
        }
        i = i + 1;
    }
    proof {
        let f = spec_fan(vertex_count as nat);
        assert(3 * (i - 1) == f.len());
        assert(f.take(3 * (i - 1)) =~= f);
    }
    indices
}

/// Whether a texture is drawn with holes: its name starts with `{`.
pub open spec fn spec_transparent_name(name: Seq<char>) -> bool {
    name.len() > 0 && name[0] == '{'
}

pub fn is_transparent_texture_name(name: &str) -> (r: bool)
    ensures
        r == spec_transparent_name(name@),
{
    crate::text::starts_with_char(name, '{')
}

/// The texture that a face's mapping names, when the mapping and the
/// texture exist.
pub open spec fn face_texture_id(v: RenderView, face: Face) -> Option<int> {
    if (face.texinfo as int) < v.texinfo.len() && v.texinfo[face.texinfo as int].texture_id >= 0 {
        Some(v.texinfo[face.texinfo as int].texture_id as int)
    } else {
        None
    }
}

/// The name of a face's texture; none where there is no texture or its
/// name is empty.
pub fn texture_name_for_face(bsp: &BspRender, face: &Face) -> (r: Option<String>)
    ensures
        match face_texture_id(bsp.view(), *face) {
            Some(t) => if t < bsp.view().textures.len() && bsp.view().textures[t].name.len() > 0 {
                r matches Some(s) && s@ == bsp.view().textures[t].name
            } else {
                r is None
            },
            None => r is None,
        },
{
    let ti = face.texinfo as usize;
    if ti >= bsp.texinfo.len() {
        return None;
    }
    let id = bsp.texinfo[ti].texture_id;
    if id < 0 {
        return None;
    }
    let index = id as usize;
    if index >= bsp.textures.len() {
        return None;
    }
    let name = &bsp.textures[index].name;
    if name.as_str().is_empty() {
        return None;
    }
    Some(name.clone())
}

/// Where a face's texture went among the uploaded textures
/// (`texture_map` by map texture).
pub fn texture_index_for_face(bsp: &BspRender, face: &Face, texture_map: &[Option<usize>]) -> (r: Option<usize>)
    ensures
        match face_texture_id(bsp.view(), *face) {
            Some(t) => r == (if t < texture_map@.len() { texture_map@[t] } else { None }),
            None => r is None,
        },
{
    let ti = face.texinfo as usize;
    if ti >= bsp.texinfo.len() {
        return None;
    }
    let id = bsp.texinfo[ti].texture_id;
    if id < 0 {
        return None;
    }
    let index = id as usize;
    if index >= texture_map.len() {
        return None;
    }
    texture_map[index]
}

} // verus!
