//! The 256-color palette and the expansion of color indices to RGBA.
use vstd::prelude::*;

verus! {

#[derive(Debug, Clone, Copy, PartialEq, Eq, Structural)]
pub struct Rgb(pub u8, pub u8, pub u8);

#[derive(Debug, Clone, Copy, PartialEq, Eq)]
pub enum PaletteError {
    InvalidLength,
}

#[derive(Debug, Clone, PartialEq, Eq)]
pub struct Palette {
    colors: Vec<Rgb>,
}

/// The colors that the first 768 bytes of `data` give, three bytes each.
pub open spec fn palette_colors(data: Seq<u8>) -> Seq<Rgb> {
    Seq::new(256, |i: int| Rgb(data[3 * i], data[3 * i + 1], data[3 * i + 2]))
}

/// The RGBA value of a color index: fully transparent black for the
/// transparent index, else the color with full alpha.
pub open spec fn spec_rgba(colors: Seq<Rgb>, index: u8, transparent: Option<u8>) -> Seq<u8> {
    if transparent == Some(index) {
        seq![0u8, 0u8, 0u8, 0u8]
    } else {
        let c = colors[index as int];
        seq![c.0, c.1, c.2, 255u8]
    }
}

/// The RGBA bytes of the indices `indices`, four per index.
pub open spec fn spec_expand(colors: Seq<Rgb>, indices: Seq<u8>, transparent: Option<u8>) -> Seq<u8>
    decreases indices.len(),
{
    if indices.len() == 0 {
        Seq::empty()
    } else {
        spec_expand(colors, indices.drop_last(), transparent) + spec_rgba(colors, indices.last(), transparent)
    }
}

impl Palette {
    pub closed spec fn spec_colors(&self) -> Seq<Rgb> {
        self.colors@
    }

    /// A palette always has 256 colors.
    pub open spec fn wf(&self) -> bool {
        self.spec_colors().len() == 256
    }

    /// The palette in the first 768 bytes of `data`.
    pub fn from_bytes(data: &[u8]) -> (r: Result<Self, PaletteError>)
        ensures
            data@.len() < 768 ==> r == Err::<Self, PaletteError>(PaletteError::InvalidLength),
            data@.len() >= 768 ==> (r matches Ok(p) && p.wf() && p.spec_colors() == palette_colors(data@)),
    {
        if data.len() < 768 {
            return Err(PaletteError::InvalidLength);
        }
        let mut colors: Vec<Rgb> = Vec::new();
        let mut i: usize = 0;
        while i < 256
            invariant
                i <= 256,
                data@.len() >= 768,
                colors@.len() == i,
                forall|k: int| 0 <= k < i ==> #[trigger] colors@[k] == Rgb(data@[3 * k], data@[3 * k + 1], data@[3 * k + 2]),
            decreases 256 - i,
        {
            let base = i * 3;
            colors.push(Rgb(data[base], data[base + 1], data[base + 2]));
            i = i + 1;
        }
        let p = Palette { colors };
        assert(p.spec_colors() =~= palette_colors(data@));
        Ok(p)
    }

    pub fn rgba_for(&self, index: u8, transparent_index: Option<u8>) -> (r: [u8; 4])
        requires
            self.wf(),
        ensures
            r@ == spec_rgba(self.spec_colors(), index, transparent_index),
    {
        let transparent = match transparent_index {
            Some(t) => t == index,
            None => false,
        };
        if transparent {
            let r = [0u8, 0u8, 0u8, 0u8];
            assert(r@ =~= seq![0u8, 0u8, 0u8, 0u8]);
            return r;
        }
        let c = self.colors[index as usize];
        let r = [c.0, c.1, c.2, 255u8];
        assert(r@ =~= spec_rgba(self.spec_colors(), index, transparent_index));
        r
    }

    /// The RGBA bytes of a run of color indices.
    pub fn expand_indices(&self, indices: &[u8], transparent_index: Option<u8>) -> (r: Vec<u8>)
        requires
            self.wf(),
        ensures
            r@ == spec_expand(self.spec_colors(), indices@, transparent_index),
    {
        let mut out: Vec<u8> = Vec::new();
        let mut i: usize = 0;
        assert(indices@.take(0) =~= Seq::<u8>::empty());
        while i < indices.len()
            invariant
                self.wf(),
                i <= indices@.len(),
                out@ == spec_expand(self.spec_colors(), indices@.take(i as int), transparent_index),
            decreases indices@.len() - i,
        {
            let px = self.rgba_for(indices[i], transparent_index);
            assert(indices@.take(i + 1).drop_last() =~= indices@.take(i as int));
            out.push(px[0]);
            out.push(px[1]);
            out.push(px[2]);
            out.push(px[3]);
            assert(out@ =~= spec_expand(self.spec_colors(), indices@.take(i + 1), transparent_index));
            i = i + 1;
        }
        assert(indices@.take(i as int) =~= indices@);
        out
    }
}

} // verus!
