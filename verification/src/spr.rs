//! Sprite frames: color-indexed pictures drawn facing the viewer.
use vstd::prelude::*;
use crate::bytes::{read_u32_at, u32_at};
use crate::palette::{Palette, spec_expand};

verus! {

#[derive(Debug, Clone, Copy, PartialEq, Eq)]
pub enum SprError {
    InvalidHeader,
    UnsupportedVersion(i32),
    UnexpectedEof,
    UnsupportedFrameType(i32),
    InvalidData(&'static str),
}

/// The "IDSP" tag that opens a sprite file.
pub const IDSPRITE: u32 = 0x5053_4449;
pub const SPR_VERSION: i32 = 1;

/// The fixed part of a sprite file; the radius and beam length as the
/// bits of 32-bit floats.
#[derive(Debug, Clone, Copy, PartialEq, Eq, Structural)]
pub struct SpriteHeader {
    pub sprite_type: i32,
    pub bounding_radius: u32,
    pub width: u32,
    pub height: u32,
    pub num_frames: u32,
    pub beam_length: u32,
    pub sync_type: i32,
}

#[derive(Debug)]
pub struct Sprite {
    pub header: SpriteHeader,
    pub frames: Vec<SpriteFrame>,
}

/// A frame: one picture, or a group shown in turn, with the time each
/// stays up (the bits of 32-bit floats).
#[derive(Debug)]
pub enum SpriteFrame {
    Single(SpriteImage),
    Group { intervals: Vec<u32>, frames: Vec<SpriteImage> },
}

#[derive(Debug)]
pub struct SpriteImage {
    pub width: u32,
    pub height: u32,
    pub origin: (i32, i32),
    pub pixels: Vec<u8>,
}

pub struct ImageView {
    pub width: u32,
    pub height: u32,
    pub origin: (i32, i32),
    pub pixels: Seq<u8>,
}

pub open spec fn image_view(i: SpriteImage) -> ImageView {
    ImageView { width: i.width, height: i.height, origin: i.origin, pixels: i.pixels@ }
}

pub open spec fn image_views(v: Seq<SpriteImage>) -> Seq<ImageView> {
    Seq::new(v.len(), |i: int| image_view(v[i]))
}

pub enum FrameView {
    Single(ImageView),
    Group { intervals: Seq<u32>, frames: Seq<ImageView> },
}

pub open spec fn frame_view(f: SpriteFrame) -> FrameView {
    match f {
        SpriteFrame::Single(i) => FrameView::Single(image_view(i)),
        SpriteFrame::Group { intervals, frames } => FrameView::Group { intervals: intervals@, frames: image_views(frames@) },
    }
}

pub open spec fn frame_views(v: Seq<SpriteFrame>) -> Seq<FrameView> {
    Seq::new(v.len(), |i: int| frame_view(v[i]))
}

/// The 32-bit word at `p`, when the data holds one there.
pub open spec fn word_at(d: Seq<u8>, p: int) -> Option<u32> {
    if 0 <= p && p + 4 <= d.len() {
        Some(u32_at(d, p))
    } else {
        None
    }
}

/// A count at `p`: a signed word that must not be negative.
pub open spec fn count_at(d: Seq<u8>, p: int, label: &'static str) -> Result<u32, SprError> {
    match word_at(d, p) {
        None => Err(SprError::UnexpectedEof),
        Some(w) => if (w as i32) < 0 {
            Err(SprError::InvalidData(label))
        } else {
            Ok(w)
        },
    }
}

/// One picture at `p`: width, height, origin, then width times height
/// color indices; and the position after it.
pub open spec fn spec_image(d: Seq<u8>, p: int) -> Result<(ImageView, int), SprError> {
    match count_at(d, p, "frame_width") {
        Err(e) => Err(e),
        Ok(w) => match count_at(d, p + 4, "frame_height") {
            Err(e) => Err(e),
            Ok(h) => match (word_at(d, p + 8), word_at(d, p + 12)) {
                (Some(ox), Some(oy)) => if w * h > usize::MAX {
                    Err(SprError::InvalidData("frame size overflow"))
                } else if p + 16 + w * h > d.len() {
                    Err(SprError::UnexpectedEof)
                } else {
                    Ok((
                        ImageView { width: w, height: h, origin: (ox as i32, oy as i32), pixels: d.subrange(p + 16, p + 16 + w * h) },
                        p + 16 + w * h,
                    ))
                },
                _ => Err(SprError::UnexpectedEof),
            },
        },
    }
}

/// `n` pictures one after another from `p`.
pub open spec fn spec_images(d: Seq<u8>, p: int, n: nat) -> Result<(Seq<ImageView>, int), SprError>
    decreases n,
{
    if n == 0 {
        Ok((Seq::empty(), p))
    } else {
        match spec_image(d, p) {
            Err(e) => Err(e),
            Ok((i, q)) => match spec_images(d, q, (n - 1) as nat) {
                Err(e) => Err(e),
                Ok((rest, e)) => Ok((seq![i] + rest, e)),
            },
        }
    }
}

/// `n` words from `p`.
pub open spec fn spec_words(d: Seq<u8>, p: int, n: nat) -> Result<(Seq<u32>, int), SprError> {
    if p + 4 * n <= d.len() {
        Ok((Seq::new(n, |i: int| u32_at(d, p + 4 * i)), p + 4 * n))
    } else {
        Err(SprError::UnexpectedEof)
    }
}

/// One frame at `p`: its type word, then a picture (type 0), or a count,
/// that many intervals and that many pictures (type 1).
pub open spec fn spec_frame(d: Seq<u8>, p: int) -> Result<(FrameView, int), SprError> {
    match word_at(d, p) {
        None => Err(SprError::UnexpectedEof),
        Some(t) => if t as i32 == 0 {
            match spec_image(d, p + 4) {
                Err(e) => Err(e),
                Ok((i, q)) => Ok((FrameView::Single(i), q)),
            }
        } else if t as i32 == 1 {
            match count_at(d, p + 4, "frame_group_count") {
                Err(e) => Err(e),
                Ok(n) => match spec_words(d, p + 8, n as nat) {
                    Err(e) => Err(e),
                    Ok((intervals, q)) => match spec_images(d, q, n as nat) {
                        Err(e) => Err(e),
                        Ok((frames, r)) => Ok((FrameView::Group { intervals, frames }, r)),
                    },
                },
            }
        } else {
            Err(SprError::UnsupportedFrameType(t as i32))
        },
    }
}

/// `n` frames one after another from `p`.
pub open spec fn spec_frames(d: Seq<u8>, p: int, n: nat) -> Result<Seq<FrameView>, SprError>
    decreases n,
{
    if n == 0 {
        Ok(Seq::empty())
    } else {
        match spec_frame(d, p) {
            Err(e) => Err(e),
            Ok((f, q)) => match spec_frames(d, q, (n - 1) as nat) {
                Err(e) => Err(e),
                Ok(rest) => Ok(seq![f] + rest),
            },
        }
    }
}

/// The header: tag, version, type, radius, width, height, frame count,
/// beam length and sync type, read in that order.
pub open spec fn spec_header(d: Seq<u8>) -> Result<SpriteHeader, SprError> {
    match word_at(d, 0) {
        None => Err(SprError::UnexpectedEof),
        Some(ident) => if ident != IDSPRITE {
            Err(SprError::InvalidHeader)
        } else {
            match word_at(d, 4) {
                None => Err(SprError::UnexpectedEof),
                Some(v) => if v as i32 != SPR_VERSION {
                    Err(SprError::UnsupportedVersion(v as i32))
                } else if d.len() < 16 {
                    Err(SprError::UnexpectedEof)
                } else {
                    match count_at(d, 16, "width") {
                        Err(e) => Err(e),
                        Ok(w) => match count_at(d, 20, "height") {
                            Err(e) => Err(e),
                            Ok(h) => match count_at(d, 24, "num_frames") {
                                Err(e) => Err(e),
                                Ok(n) => if d.len() < 36 {
                                    Err(SprError::UnexpectedEof)
                                } else {
                                    Ok(SpriteHeader {
                                        sprite_type: u32_at(d, 8) as i32,
                                        bounding_radius: u32_at(d, 12),
                                        width: w,
                                        height: h,
                                        num_frames: n,
                                        beam_length: u32_at(d, 28),
                                        sync_type: u32_at(d, 32) as i32,
                                    })
                                },
                            },
                        },
                    }
                },
            }
        },
    }
}

pub open spec fn spec_sprite(d: Seq<u8>) -> Result<(SpriteHeader, Seq<FrameView>), SprError> {
    match spec_header(d) {
        Err(e) => Err(e),
        Ok(h) => match spec_frames(d, 36, h.num_frames as nat) {
            Err(e) => Err(e),
            Ok(fs) => Ok((h, fs)),
        },
    }
}

fn read_word(data: &[u8], at: usize) -> (r: Result<u32, SprError>)
    ensures
        match word_at(data@, at as int) {
            Some(w) => r == Ok::<u32, SprError>(w),
            None => r == Err::<u32, SprError>(SprError::UnexpectedEof),
        },
{
    if at > data.len() || data.len() - at < 4 {
        Err(SprError::UnexpectedEof)
    } else {
        Ok(read_u32_at(data, at))
    }
}

fn read_count(data: &[u8], at: usize, label: &'static str) -> (r: Result<u32, SprError>)
    ensures
        r == count_at(data@, at as int, label),
{
    let w = read_word(data, at)?;
    if (w as i32) < 0 {
        Err(SprError::InvalidData(label))
    } else {
        Ok(w)
    }
}

fn parse_image(data: &[u8], at: usize) -> (r: Result<(SpriteImage, usize), SprError>)
    requires
        at <= data.len(),
    ensures
        r matches Ok((_, e)) ==> e <= data@.len(),
        match spec_image(data@, at as int) {
            Ok((i, q)) => r matches Ok((img, e)) && image_view(img) == i && e == q,
            Err(x) => r == Err::<(SpriteImage, usize), SprError>(x),
        },
{
    let width = read_count(data, at, "frame_width")?;
    if data.len() - at < 8 {
        return Err(SprError::UnexpectedEof);
    }
    let height = read_count(data, at + 4, "frame_height")?;
    if data.len() - at < 16 {
        return Err(SprError::UnexpectedEof);
    }
    let origin_x = read_u32_at(data, at + 8) as i32;
    let origin_y = read_u32_at(data, at + 12) as i32;
    let size = match (width as usize).checked_mul(height as usize) {
        Some(v) => v,
        None => {
            return Err(SprError::InvalidData("frame size overflow"));
        },
    };
    let start = at + 16;
    if size > data.len() - start {
        return Err(SprError::UnexpectedEof);
    }
    let pixels = vstd::slice::slice_to_vec(slice_subrange(data, start, start + size));
    Ok((SpriteImage { width, height, origin: (origin_x, origin_y), pixels }, start + size))
}

fn slice_subrange(data: &[u8], from: usize, to: usize) -> (r: &[u8])
    requires
        from <= to <= data.len(),
    ensures
        r@ == data@.subrange(from as int, to as int),
{
    vstd::slice::slice_subrange(data, from, to)
}

fn parse_images(data: &[u8], at: usize, n: u32) -> (r: Result<(Vec<SpriteImage>, usize), SprError>)
    requires
        at <= data.len(),
    ensures
        r matches Ok((_, e)) ==> e <= data@.len(),
        match spec_images(data@, at as int, n as nat) {
            Ok((is, q)) => r matches Ok((v, e)) && image_views(v@) == is && e == q,
            Err(x) => r == Err::<(Vec<SpriteImage>, usize), SprError>(x),
        },
{
    let mut images: Vec<SpriteImage> = Vec::new();
    let mut pos = at;
    let mut i: u32 = 0;
    while i < n
        invariant
            i <= n,
            pos <= data.len(),
            spec_images(data@, at as int, n as nat) == match spec_images(data@, pos as int, (n - i) as nat) {
                Ok((rest, e)) => Ok((image_views(images@) + rest, e)),
                Err(x) => Err::<(Seq<ImageView>, int), SprError>(x),
            },
        decreases n - i,
    {
        let (img, next) = parse_image(data, pos)?;
        let ghost before = image_views(images@);
        proof {
            let v = image_view(img);
            assert(spec_images(data@, pos as int, (n - i) as nat) == match spec_images(data@, next as int, (n - i - 1) as nat) {
                Ok((rest, e)) => Ok((seq![v] + rest, e)),
                Err(x) => Err::<(Seq<ImageView>, int), SprError>(x),
            });
        }
        images.push(img);
        proof {
            assert(image_views(images@) =~= before.push(image_view(img)));
            match spec_images(data@, next as int, (n - i - 1) as nat) {
                Ok((rest, e)) => {
                    assert(before + (seq![image_view(img)] + rest) =~= before.push(image_view(img)) + rest);
                },
                Err(_) => {},
            }
        }
        pos = next;
        i = i + 1;
    }
    assert(image_views(images@) + Seq::<ImageView>::empty() =~= image_views(images@));
    Ok((images, pos))
}

fn parse_words(data: &[u8], at: usize, n: u32) -> (r: Result<(Vec<u32>, usize), SprError>)
    requires
        at <= data.len(),
    ensures
        r matches Ok((_, e)) ==> e <= data@.len(),
        match spec_words(data@, at as int, n as nat) {
            Ok((ws, q)) => r matches Ok((v, e)) && v@ == ws && e == q,
            Err(x) => r == Err::<(Vec<u32>, usize), SprError>(x),
        },
{
    if (data.len() - at) / 4 < n as usize {
        proof {
            let x = (data@.len() - at) as int;
            assert(x < 4 * (n as int)) by (nonlinear_arith)
                requires
                    x / 4 < n as int,
                    x >= 0;
        }
        return Err(SprError::UnexpectedEof);
    }
    proof {
        let x = (data@.len() - at) as int;
        assert(4 * (n as int) <= x) by (nonlinear_arith)
            requires
                x / 4 >= n as int,
                x >= 0;
    }
    let mut words: Vec<u32> = Vec::new();
    let mut i: usize = 0;
    while i < n as usize
        invariant
            i <= n,
            at + 4 * (n as int) <= data@.len(),
            words@ == Seq::new(i as nat, |k: int| u32_at(data@, at + 4 * k)),
        decreases n - i,
    {
        assert(at + 4 * (i as int) + 4 <= data.len());
        words.push(read_u32_at(data, at + 4 * i));
        i = i + 1;
        assert(words@ =~= Seq::new(i as nat, |k: int| u32_at(data@, at + 4 * k)));
    }
    Ok((words, at + 4 * (n as usize)))
}

fn parse_frame(data: &[u8], at: usize) -> (r: Result<(SpriteFrame, usize), SprError>)
    requires
        at <= data.len(),
    ensures
        r matches Ok((_, e)) ==> e <= data@.len(),
        match spec_frame(data@, at as int) {
            Ok((f, q)) => r matches Ok((fr, e)) && frame_view(fr) == f && e == q,
            Err(x) => r == Err::<(SpriteFrame, usize), SprError>(x),
        },
{
    let t = read_word(data, at)? as i32;
    if t == 0 {
        let (img, next) = parse_image(data, at + 4)?;
        Ok((SpriteFrame::Single(img), next))
    } else if t == 1 {
        let n = read_count(data, at + 4, "frame_group_count")?;
        let (intervals, q) = parse_words(data, at + 8, n)?;
        let (frames, r) = parse_images(data, q, n)?;
        Ok((SpriteFrame::Group { intervals, frames }, r))
    } else {
        Err(SprError::UnsupportedFrameType(t))
    }
}

fn parse_header(data: &[u8]) -> (r: Result<SpriteHeader, SprError>)
    ensures
        r == spec_header(data@),
{
    let ident = read_word(data, 0)?;
    if ident != IDSPRITE {
        return Err(SprError::InvalidHeader);
    }
    let version = read_word(data, 4)? as i32;
    if version != SPR_VERSION {
        return Err(SprError::UnsupportedVersion(version));
    }
    if data.len() < 16 {
        return Err(SprError::UnexpectedEof);
    }
    let width = read_count(data, 16, "width")?;
    let height = read_count(data, 20, "height")?;
    let num_frames = read_count(data, 24, "num_frames")?;
    if data.len() < 36 {
        return Err(SprError::UnexpectedEof);
    }
    Ok(SpriteHeader {
        sprite_type: read_u32_at(data, 8) as i32,
        bounding_radius: read_u32_at(data, 12),
        width,
        height,
        num_frames,
        beam_length: read_u32_at(data, 28),
        sync_type: read_u32_at(data, 32) as i32,
    })
}

impl Sprite {
    /// Reads a sprite file: its header, then each of its frames.
    pub fn from_bytes(data: &[u8]) -> (r: Result<Self, SprError>)
        ensures
            match spec_sprite(data@) {
                Ok((h, fs)) => r matches Ok(s) && s.header == h && frame_views(s.frames@) == fs,
                Err(x) => r matches Err(e) && e == x,
            },
    {
        let header = parse_header(data)?;
        let mut frames: Vec<SpriteFrame> = Vec::new();
        let mut pos: usize = 36;
        let mut i: u32 = 0;
        let n = header.num_frames;
        while i < n
            invariant
                i <= n,
                n == header.num_frames,
                pos <= data.len(),
                header == spec_header(data@)->Ok_0,
                spec_header(data@) is Ok,
                spec_frames(data@, 36, n as nat) == match spec_frames(data@, pos as int, (n - i) as nat) {
                    Ok(rest) => Ok(frame_views(frames@) + rest),
                    Err(x) => Err::<Seq<FrameView>, SprError>(x),
                },
            decreases n - i,
        {
            let (frame, next) = parse_frame(data, pos)?;
            let ghost before = frame_views(frames@);
            frames.push(frame);
            proof {
                assert(frame_views(frames@) =~= before.push(frame_view(frame)));
                match spec_frames(data@, next as int, (n - i - 1) as nat) {
                    Ok(rest) => {
                        assert(before + (seq![frame_view(frame)] + rest) =~= before.push(frame_view(frame)) + rest);
                    },
                    Err(_) => {},
                }
            }
            pos = next;
            i = i + 1;
        }
        assert(frame_views(frames@) + Seq::<FrameView>::empty() =~= frame_views(frames@));
        Ok(Sprite { header, frames })
    }
}

/// The color index that sprites leave transparent.
pub const SPRITE_TRANSPARENT: u8 = 255;

impl SpriteImage {
    /// The frame as RGBA bytes; index 255 is transparent.
    pub fn expand_rgba(&self, palette: &Palette) -> (r: Vec<u8>)
        requires
            palette.wf(),
        ensures
            r@ == spec_expand(palette.spec_colors(), self.pixels@, Some(SPRITE_TRANSPARENT)),
    {
        palette.expand_indices(self.pixels.as_slice(), Some(SPRITE_TRANSPARENT))
    }
}

} // verus!
