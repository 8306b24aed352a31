//! The client's cache of alias models and sprites, by model index, with
//! their skins and frames expanded to RGBA through the palette.
use vstd::prelude::*;
use crate::mdl::{AliasModel, MdlError, MdlSkin, SkinView, byte_views, group_views, skin_view, skin_views, spec_model};
use crate::palette::{Palette, Rgb, spec_expand};
use crate::server::lower_text;
use crate::spr::{FrameView, Sprite, SpriteFrame, SprError, frame_view, frame_views, image_view, spec_sprite};
use crate::text::{chars_of, chars_eq, split_chars, split_on, views};
use crate::vfs::FsError;

verus! {

#[derive(Debug)]
pub enum ModelCacheError {
    Fs(FsError),
    Mdl(MdlError),
    Spr(SprError),
    UnsupportedFormat(String),
}

#[derive(Debug, Clone, PartialEq, Eq)]
pub struct ModelTexture {
    pub width: u32,
    pub height: u32,
    pub rgba: Vec<u8>,
}

#[derive(Debug)]
pub enum ModelKind {
    Alias(AliasModel),
    Sprite(Sprite),
}

#[derive(Debug)]
pub struct ModelAsset {
    pub kind: ModelKind,
    pub textures: Vec<ModelTexture>,
}

#[derive(Debug)]
pub struct ModelCache {
    models: Vec<Option<ModelAsset>>,
}

// ---- file names ----

/// The last component of a path as `Path::file_name` finds it: empty and
/// `.` components are passed over, and a trailing `..` has no file name.
pub open spec fn trailing_name(pieces: Seq<Seq<char>>) -> Option<Seq<char>>
    decreases pieces.len(),
{
    if pieces.len() == 0 {
        None
    } else if pieces.last().len() == 0 || pieces.last() == "."@ {
        trailing_name(pieces.drop_last())
    } else if pieces.last() == ".."@ {
        None
    } else {
        Some(pieces.last())
    }
}

/// The index of the last `.` in `s`, or -1.
pub open spec fn last_dot(s: Seq<char>) -> int
    decreases s.len(),
{
    if s.len() == 0 {
        -1
    } else if s.last() == '.' {
        s.len() - 1
    } else {
        last_dot(s.drop_last())
    }
}

/// A file name's extension: what follows its last dot, unless there is no
/// dot or the only dot opens the name.
pub open spec fn file_extension(f: Seq<char>) -> Option<Seq<char>> {
    if last_dot(f) <= 0 {
        None
    } else {
        Some(f.skip(last_dot(f) + 1))
    }
}

pub open spec fn path_extension(name: Seq<char>) -> Option<Seq<char>> {
    match trailing_name(split_on(name, '/')) {
        None => None,
        Some(f) => file_extension(f),
    }
}

/// The lower-cased extension of a model name that the cache loads: none
/// for an empty name, a brush model (`*n`) or a name without extension.
pub open spec fn model_ext(name: Seq<char>) -> Option<Seq<char>> {
    if name.len() == 0 || name[0] == '*' {
        None
    } else {
        match path_extension(name) {
            None => None,
            Some(e) => Some(lower_text(e)),
        }
    }
}

proof fn lemma_last_dot_bounds(s: Seq<char>)
    ensures
        -1 <= last_dot(s) < s.len(),
        last_dot(s) >= 0 ==> s[last_dot(s)] == '.',
    decreases s.len(),
{
    if s.len() > 0 && s.last() != '.' {
        lemma_last_dot_bounds(s.drop_last());
    }
}

fn last_dot_exec(s: &[char]) -> (r: usize)
    ensures
        -1 <= last_dot(s@) < s@.len(),
        r == (if last_dot(s@) < 0 { s@.len() as int } else { last_dot(s@) }),
{
    proof {
        lemma_last_dot_bounds(s@);
    }
    let mut i: usize = s.len();
    assert(s@.take(i as int) =~= s@);
    while i > 0
        invariant
            i <= s@.len(),
            last_dot(s@.take(i as int)) == last_dot(s@),
            forall|k: int| i <= k < s@.len() ==> s@[k] != '.',
        decreases i,
    {
        if s[i - 1] == '.' {
            return i - 1;
        }
        assert(s@.take(i as int).drop_last() =~= s@.take(i - 1));
        i = i - 1;
    }
    s.len()
}

/// The lower-cased extension that `model_ext` gives.
fn model_extension(name: &str) -> (r: Option<Vec<char>>)
    ensures
        match model_ext(name@) {
            Some(e) => r matches Some(x) && x@ == e,
            None => r is None,
        },
{
    let chars = chars_of(name);
    if chars.len() == 0 || chars[0] == '*' {
        return None;
    }
    assert(chars@.skip(0) =~= chars@);
    let pieces = split_chars(chars.as_slice(), 0, '/');
    let ghost pv = views(pieces@);
    let dot: Vec<char> = chars_of(".");
    let dotdot: Vec<char> = chars_of("..");
    let mut n: usize = pieces.len();
    assert(pv.take(n as int) =~= pv);
    loop
        invariant
            n <= pieces@.len(),
            pv == views(pieces@),
            pv == split_on(name@, '/'),
            trailing_name(pv.take(n as int)) == trailing_name(pv),
            dot@ == "."@,
            dotdot@ == ".."@,
            name@.len() > 0 && name@[0] != '*',
        decreases n,
    {
        if n == 0 {
            return None;
        }
        let piece = &pieces[n - 1];
        assert(pv.take(n as int).last() == piece@);
        if piece.len() == 0 || chars_eq(piece.as_slice(), dot.as_slice()) {
            assert(pv.take(n as int).drop_last() =~= pv.take(n - 1));
            n = n - 1;
        } else if chars_eq(piece.as_slice(), dotdot.as_slice()) {
            return None;
        } else {
            let d = last_dot_exec(piece.as_slice());
            if d == 0 || d >= piece.len() {
                return None;
            }
            let mut ext: Vec<char> = Vec::new();
            let mut k: usize = d + 1;
            while k < piece.len()
                invariant
                    d + 1 <= k <= piece@.len(),
                    ext@ == lower_text(piece@.skip(d + 1).take(k - d - 1)),
                decreases piece@.len() - k,
            {
                ext.push(crate::text::ascii_lower_exec(piece[k]));
                assert(lower_text(piece@.skip(d + 1).take(k - d)) =~= ext@);
                k = k + 1;
            }
            assert(piece@.skip(d + 1).take(k - d - 1) =~= piece@.skip(d + 1));
            return Some(ext);
        }
    }
}

/// Whether the cache reads a file for this model name.
pub fn wants_model_file(name: &str) -> (r: bool)
    ensures
        r == (model_ext(name@) is Some),
{
    model_extension(name).is_some()
}

// ---- textures ----

/// A texture as (width, height, RGBA bytes).
pub open spec fn texture_view(t: ModelTexture) -> (u32, u32, Seq<u8>) {
    (t.width, t.height, t.rgba@)
}

pub open spec fn texture_views(v: Seq<ModelTexture>) -> Seq<(u32, u32, Seq<u8>)> {
    Seq::new(v.len(), |i: int| texture_view(v[i]))
}

/// The textures of one skin: one per picture, 255 transparent.
pub open spec fn skin_textures(colors: Seq<Rgb>, s: SkinView) -> Seq<(u32, u32, Seq<u8>)> {
    match s {
        SkinView::Single { width, height, indices } => seq![(width, height, spec_expand(colors, indices, Some(255u8)))],
        SkinView::Group { width, height, frames, .. } => Seq::new(frames.len(), |k: int| (width, height, spec_expand(colors, frames[k], Some(255u8)))),
    }
}

pub open spec fn skins_textures(colors: Seq<Rgb>, skins: Seq<SkinView>) -> Seq<(u32, u32, Seq<u8>)>
    decreases skins.len(),
{
    if skins.len() == 0 {
        Seq::empty()
    } else {
        skins_textures(colors, skins.drop_last()) + skin_textures(colors, skins.last())
    }
}

/// The textures of one sprite frame: one per picture, 255 transparent.
pub open spec fn frame_textures(colors: Seq<Rgb>, f: FrameView) -> Seq<(u32, u32, Seq<u8>)> {
    match f {
        FrameView::Single(img) => seq![(img.width, img.height, spec_expand(colors, img.pixels, Some(255u8)))],
        FrameView::Group { frames, .. } => Seq::new(frames.len(), |k: int| (frames[k].width, frames[k].height, spec_expand(colors, frames[k].pixels, Some(255u8)))),
    }
}

pub open spec fn frames_textures(colors: Seq<Rgb>, frames: Seq<FrameView>) -> Seq<(u32, u32, Seq<u8>)>
    decreases frames.len(),
{
    if frames.len() == 0 {
        Seq::empty()
    } else {
        frames_textures(colors, frames.drop_last()) + frame_textures(colors, frames.last())
    }
}

pub open spec fn palette_colors_of(palette: Option<&Palette>) -> Option<Seq<Rgb>> {
    match palette {
        Some(p) => Some(p.spec_colors()),
        None => None,
    }
}

/// An alias model's textures: none without a palette.
pub open spec fn alias_textures(colors: Option<Seq<Rgb>>, skins: Seq<SkinView>) -> Seq<(u32, u32, Seq<u8>)> {
    match colors {
        Some(c) => skins_textures(c, skins),
        None => Seq::empty(),
    }
}

/// A sprite's textures: none without a palette.
pub open spec fn sprite_textures(colors: Option<Seq<Rgb>>, frames: Seq<FrameView>) -> Seq<(u32, u32, Seq<u8>)> {
    match colors {
        Some(c) => frames_textures(c, frames),
        None => Seq::empty(),
    }
}

fn build_alias_textures(model: &AliasModel, palette: Option<&Palette>) -> (r: Vec<ModelTexture>)
    requires
        palette matches Some(p) ==> p.wf(),
    ensures
        texture_views(r@) == alias_textures(palette_colors_of(palette), skin_views(model.skins@)),
{
    let mut textures: Vec<ModelTexture> = Vec::new();
    let p = match palette {
        Some(p) => p,
        None => {
            assert(texture_views(textures@) =~= Seq::empty());
            return textures;
        },
    };
    let ghost c = p.spec_colors();
    let ghost sv = skin_views(model.skins@);
    let mut i: usize = 0;
    assert(texture_views(textures@) =~= skins_textures(c, sv.take(0)));
    while i < model.skins.len()
        invariant
            p.wf(),
            c == p.spec_colors(),
            sv == skin_views(model.skins@),
            i <= model.skins@.len(),
            texture_views(textures@) == skins_textures(c, sv.take(i as int)),
        decreases model.skins@.len() - i,
    {
        let skin = &model.skins[i];
        let mut pictures = skin.expand_rgba(p);
        let (width, height) = match skin {
            MdlSkin::Single { width, height, .. } => (*width, *height),
            MdlSkin::Group { width, height, .. } => (*width, *height),
        };
        let ghost before = texture_views(textures@);
        let ghost all = byte_views(pictures@);
        let ghost total = pictures@.len();
        assert(total == pictures.len());
        let mut k: usize = 0;
        while pictures.len() > 0
            invariant
                k <= total,
                total == all.len(),
                total <= usize::MAX,
                byte_views(pictures@) == all.skip(k as int),
                texture_views(textures@) == before + Seq::new(k as nat, |j: int| (width, height, all[j])),
            decreases pictures@.len(),
        {
            assert(all.skip(k as int).len() > 0);
            assert(k < total);
            let ghost old_p = pictures@;
            assert(byte_views(old_p)[0] == all.skip(k as int)[0]);
            let pic = pictures.remove(0);
            assert(pic@ == all[k as int]);
            assert(pictures@ =~= old_p.skip(1));
            assert forall|j: int| 0 <= j < pictures@.len() implies #[trigger] byte_views(pictures@)[j] == all.skip(k + 1)[j] by {
                assert(byte_views(old_p)[j + 1] == all.skip(k as int)[j + 1]);
            }
            assert(byte_views(pictures@) =~= all.skip(k + 1));
            let ghost old_t = textures@;
            textures.push(ModelTexture { width, height, rgba: pic });
            assert(texture_views(textures@) =~= texture_views(old_t).push((width, height, all[k as int])));
            assert(texture_views(textures@) =~= before + Seq::new((k + 1) as nat, |j: int| (width, height, all[j])));
            k = k + 1;
        }
        assert(k == total) by {
            assert(all.skip(k as int).len() == 0);
        }
        proof {
            assert(sv[i as int] == skin_view(*skin));
            assert(Seq::new(k as nat, |j: int| (width, height, all[j])) =~= skin_textures(c, sv[i as int]));
            assert(sv.take(i + 1).drop_last() =~= sv.take(i as int));
        }
        i = i + 1;
    }
    assert(sv.take(i as int) =~= sv);
    textures
}

fn build_sprite_textures(sprite: &Sprite, palette: Option<&Palette>) -> (r: Vec<ModelTexture>)
    requires
        palette matches Some(p) ==> p.wf(),
    ensures
        texture_views(r@) == sprite_textures(palette_colors_of(palette), frame_views(sprite.frames@)),
{
    let mut textures: Vec<ModelTexture> = Vec::new();
    let p = match palette {
        Some(p) => p,
        None => {
            assert(texture_views(textures@) =~= Seq::empty());
            return textures;
        },
    };
    let ghost c = p.spec_colors();
    let ghost fv = frame_views(sprite.frames@);
    let mut i: usize = 0;
    assert(texture_views(textures@) =~= frames_textures(c, fv.take(0)));
    while i < sprite.frames.len()
        invariant
            p.wf(),
            c == p.spec_colors(),
            fv == frame_views(sprite.frames@),
            i <= sprite.frames@.len(),
            texture_views(textures@) == frames_textures(c, fv.take(i as int)),
        decreases sprite.frames@.len() - i,
    {
        let ghost before = texture_views(textures@);
        match &sprite.frames[i] {
            SpriteFrame::Single(image) => {
                let rgba = image.expand_rgba(p);
                textures.push(ModelTexture { width: image.width, height: image.height, rgba });
                assert(texture_views(textures@) =~= before + frame_textures(c, fv[i as int]));
            },
            SpriteFrame::Group { frames, .. } => {
                let mut k: usize = 0;
                while k < frames.len()
                    invariant
                        p.wf(),
                        c == p.spec_colors(),
                        k <= frames@.len(),
                        texture_views(textures@) == before + Seq::new(k as nat, |j: int| (frames@[j].width, frames@[j].height, spec_expand(c, frames@[j].pixels@, Some(255u8)))),
                    decreases frames@.len() - k,
                {
                    let img = &frames[k];
                    let rgba = img.expand_rgba(p);
                    let ghost old_t = textures@;
                    textures.push(ModelTexture { width: img.width, height: img.height, rgba });
                    assert(texture_views(textures@) =~= texture_views(old_t).push((frames@[k as int].width, frames@[k as int].height, spec_expand(c, frames@[k as int].pixels@, Some(255u8)))));
                    assert(texture_views(textures@) =~= before + Seq::new((k + 1) as nat, |j: int| (frames@[j].width, frames@[j].height, spec_expand(c, frames@[j].pixels@, Some(255u8)))));
                    k = k + 1;
                }
                proof {
                    assert(Seq::new(k as nat, |j: int| (frames@[j].width, frames@[j].height, spec_expand(c, frames@[j].pixels@, Some(255u8)))) =~= frame_textures(c, fv[i as int]));
                }
            },
        }
        proof {
            assert(fv.take(i + 1).drop_last() =~= fv.take(i as int));
        }
        i = i + 1;
    }
    assert(fv.take(i as int) =~= fv);
    textures
}

// ---- loading ----

/// Why loading a model failed.
pub enum LoadFailure {
    Fs(FsError),
    Mdl(MdlError),
    Spr(SprError),
    Unsupported,
}

/// What loading does with one model name, given the file read for it
/// (none where no file was read).
pub enum LoadStep {
    Skip,
    Alias(Seq<u8>),
    Sprite(Seq<u8>),
    Fail(LoadFailure),
}

pub open spec fn file_view(f: Option<Result<Vec<u8>, FsError>>) -> Option<Result<Seq<u8>, FsError>> {
    match f {
        None => None,
        Some(Ok(v)) => Some(Ok(v@)),
        Some(Err(e)) => Some(Err(e)),
    }
}

/// A name without a model extension, a file not read or not found, and a
/// map (`.bsp`) are skipped; a read error fails; `.mdl` and `.spr` files
/// are parsed, and a parse error fails; any other extension is refused.
pub open spec fn load_step(name: Seq<char>, file: Option<Result<Seq<u8>, FsError>>) -> LoadStep {
    match model_ext(name) {
        None => LoadStep::Skip,
        Some(ext) => match file {
            None => LoadStep::Skip,
            Some(Err(FsError::NotFound)) => LoadStep::Skip,
            Some(Err(e)) => LoadStep::Fail(LoadFailure::Fs(e)),
            Some(Ok(bytes)) => if ext == "mdl"@ {
                match spec_model(bytes) {
                    Ok(_) => LoadStep::Alias(bytes),
                    Err(e) => LoadStep::Fail(LoadFailure::Mdl(e)),
                }
            } else if ext == "spr"@ {
                match spec_sprite(bytes) {
                    Ok(_) => LoadStep::Sprite(bytes),
                    Err(e) => LoadStep::Fail(LoadFailure::Spr(e)),
                }
            } else if ext == "bsp"@ {
                LoadStep::Skip
            } else {
                LoadStep::Fail(LoadFailure::Unsupported)
            },
        },
    }
}

pub open spec fn step_at(names: Seq<String>, files: Seq<Option<Result<Vec<u8>, FsError>>>, j: int) -> LoadStep {
    load_step(names[j]@, file_view(files[j]))
}

/// The first name from `i` on whose step fails, or the number of names.
pub open spec fn first_failure(names: Seq<String>, files: Seq<Option<Result<Vec<u8>, FsError>>>, i: int) -> int
    decreases names.len() - i,
{
    if i >= names.len() {
        names.len() as int
    } else if step_at(names, files, i) is Fail {
        i
    } else {
        first_failure(names, files, i + 1)
    }
}

/// The cache entry that a step leaves: none for a skip, else the parsed
/// model or sprite with its textures.
pub open spec fn asset_matches(a: Option<ModelAsset>, step: LoadStep, colors: Option<Seq<Rgb>>) -> bool {
    match step {
        LoadStep::Alias(bytes) => a matches Some(asset) && asset.kind matches ModelKind::Alias(m)
            && spec_model(bytes) == Ok::<_, MdlError>((m.header, skin_views(m.skins@), m.triangles@, group_views(m.frames@)))
            && texture_views(asset.textures@) == alias_textures(colors, skin_views(m.skins@)),
        LoadStep::Sprite(bytes) => a matches Some(asset) && asset.kind matches ModelKind::Sprite(sp)
            && spec_sprite(bytes) == Ok::<_, SprError>((sp.header, frame_views(sp.frames@)))
            && texture_views(asset.textures@) == sprite_textures(colors, frame_views(sp.frames@)),
        _ => a is None,
    }
}

/// The error that a failed step gives, for the model name `name`.
pub open spec fn error_matches(e: ModelCacheError, step: LoadStep, name: Seq<char>) -> bool {
    match step {
        LoadStep::Fail(LoadFailure::Fs(x)) => e == ModelCacheError::Fs(x),
        LoadStep::Fail(LoadFailure::Mdl(x)) => e == ModelCacheError::Mdl(x),
        LoadStep::Fail(LoadFailure::Spr(x)) => e == ModelCacheError::Spr(x),
        LoadStep::Fail(LoadFailure::Unsupported) => e matches ModelCacheError::UnsupportedFormat(s) && s@ == name,
        _ => false,
    }
}

impl ModelCache {
    pub closed spec fn entries(&self) -> Seq<Option<ModelAsset>> {
        self.models@
    }

    pub fn new() -> (r: Self)
        ensures
            r.entries().len() == 0,
    {
        ModelCache { models: Vec::new() }
    }

    pub fn clear(&mut self)
        ensures
            final(self).entries().len() == 0,
    {
        self.models.clear();
    }

    pub fn models(&self) -> (r: &[Option<ModelAsset>])
        ensures
            r@ == self.entries(),
    {
        self.models.as_slice()
    }

    /// Loads the models named in a model list, by index, from the files read
    /// for them (`files[i]` for `names[i]`; none where `wants_model_file`
    /// says no file is needed). Stops at the first name whose step fails:
    /// the entries before it are filled, the rest stay empty.
    pub fn load(&mut self, palette: Option<&Palette>, names: &[String], files: &[Option<Result<Vec<u8>, FsError>>]) -> (r: Result<(), ModelCacheError>)
        requires
            files@.len() == names@.len(),
            palette matches Some(p) ==> p.wf(),
        ensures
            final(self).entries().len() == names@.len(),
            forall|j: int| 0 <= j < first_failure(names@, files@, 0)
                ==> asset_matches(#[trigger] final(self).entries()[j], step_at(names@, files@, j), palette_colors_of(palette)),
            forall|j: int| first_failure(names@, files@, 0) <= j < names@.len() ==> #[trigger] final(self).entries()[j] is None,
            first_failure(names@, files@, 0) == names@.len() ==> r is Ok,
            first_failure(names@, files@, 0) < names@.len() ==> (r matches Err(e)
                && error_matches(e, step_at(names@, files@, first_failure(names@, files@, 0)), names@[first_failure(names@, files@, 0)]@)),
    {
        self.models.clear();
        let mut i: usize = 0;
        while i < names.len()
            invariant
                i <= names@.len(),
                self.models@.len() == i,
                forall|j: int| 0 <= j < i ==> #[trigger] self.models@[j] is None,
            decreases names@.len() - i,
        {
            self.models.push(None);
            i = i + 1;
        }
        let mut i: usize = 0;
        while i < names.len()
            invariant
                files@.len() == names@.len(),
                palette matches Some(p) ==> p.wf(),
                i <= names@.len(),
                self.models@.len() == names@.len(),
                first_failure(names@, files@, 0) == first_failure(names@, files@, i as int),
                forall|j: int| 0 <= j < i ==> asset_matches(#[trigger] self.models@[j], step_at(names@, files@, j), palette_colors_of(palette)),
                forall|j: int| i <= j < names@.len() ==> #[trigger] self.models@[j] is None,
            decreases names@.len() - i,
        {
            let name = &names[i];
            let ghost step = step_at(names@, files@, i as int);
            let ext = match model_extension(name.as_str()) {
                Some(e) => e,
                None => {
                    i = i + 1;
                    continue;
                },
            };
            let bytes: &Vec<u8> = match &files[i] {
                None => {
                    i = i + 1;
                    continue;
                },
                Some(Err(FsError::NotFound)) => {
                    i = i + 1;
                    continue;
                },
                Some(Err(e)) => {
                    return Err(ModelCacheError::Fs(*e));
                },
                Some(Ok(b)) => b,
            };
            let mdl = chars_of("mdl");
            let spr = chars_of("spr");
            let bsp = chars_of("bsp");
            let asset = if chars_eq(ext.as_slice(), mdl.as_slice()) {
                let model = match AliasModel::from_bytes(bytes.as_slice()) {
                    Ok(m) => m,
                    Err(e) => {
                        return Err(ModelCacheError::Mdl(e));
                    },
                };
                let textures = build_alias_textures(&model, palette);
                ModelAsset { kind: ModelKind::Alias(model), textures }
            } else if chars_eq(ext.as_slice(), spr.as_slice()) {
                let sprite = match Sprite::from_bytes(bytes.as_slice()) {
                    Ok(sp) => sp,
                    Err(e) => {
                        return Err(ModelCacheError::Spr(e));
                    },
                };
                let textures = build_sprite_textures(&sprite, palette);
                ModelAsset { kind: ModelKind::Sprite(sprite), textures }
            } else if chars_eq(ext.as_slice(), bsp.as_slice()) {
                i = i + 1;
                continue;
            } else {
                return Err(ModelCacheError::UnsupportedFormat(name.clone()));
            };
            self.models.set(i, Some(asset));
            i = i + 1;
        }
        Ok(())
    }
}

} // verus!
