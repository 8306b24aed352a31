//! PCX images: 8-bit run-length encoded pictures with an optional
//! palette at the end of the file.
use vstd::prelude::*;
use crate::bytes::{u16_at, read_u16_at};
use crate::palette::{Palette, PaletteError, Rgb, palette_colors, spec_expand};

verus! {

#[derive(Debug, Clone, Copy, PartialEq, Eq)]
pub enum PcxError {
    InvalidHeader,
    UnsupportedFormat,
    UnexpectedEof,
    MissingPalette,
    Palette(PaletteError),
}

#[derive(Debug, Clone, PartialEq)]
pub struct PcxImage {
    pub width: u32,
    pub height: u32,
    pub indices: Vec<u8>,
    pub palette: Option<Palette>,
}

/// One decoded row: bytes are read from `off` until the row holds at
/// least `bpl` bytes. A byte with its two top bits set repeats the next
/// byte as many times as its low six bits say; any other byte stands for
/// itself. Gives the row and the offset after it; `None` when the data
/// ends first.
pub open spec fn decode_row(d: Seq<u8>, off: int, row: Seq<u8>, bpl: nat) -> Option<(Seq<u8>, int)>
    decreases d.len() - off,
{
    if row.len() >= bpl {
        Some((row, off))
    } else if off < 0 || off >= d.len() {
        None
    } else {
        let byte = d[off];
        if byte & 0xc0 == 0xc0 {
            if off + 1 >= d.len() {
                None
            } else {
                decode_row(d, off + 2, row + Seq::new((byte & 0x3f) as nat, |k: int| d[off + 1]), bpl)
            }
        } else {
            decode_row(d, off + 1, row.push(byte), bpl)
        }
    }
}

/// `rows` decoded rows from `off` on, each cut to `width` bytes.
pub open spec fn decode_rows(d: Seq<u8>, off: int, rows: nat, bpl: nat, width: nat) -> Option<Seq<u8>>
    decreases rows,
{
    if rows == 0 {
        Some(Seq::empty())
    } else {
        match decode_row(d, off, Seq::empty(), bpl) {
            None => None,
            Some((row, next)) => match decode_rows(d, next, (rows - 1) as nat, bpl, width) {
                Some(rest) => Some(row.take(width as int) + rest),
                None => None,
            },
        }
    }
}

/// The palette at the end of a file: a 0x0c byte and 768 color bytes.
pub open spec fn trailing_palette(d: Seq<u8>) -> Option<Seq<Rgb>> {
    if d.len() >= 769 && d[d.len() - 769] == 0x0c {
        Some(palette_colors(d.skip(d.len() - 768)))
    } else {
        None
    }
}

/// What a PCX file holds: width, height, color indices row by row, and
/// its palette if it has one.
pub open spec fn spec_pcx(d: Seq<u8>) -> Result<(u32, u32, Seq<u8>, Option<Seq<Rgb>>), PcxError> {
    if d.len() < 128 || d[0] != 0x0a || d[2] != 1 {
        Err(PcxError::InvalidHeader)
    } else if d[3] != 8 || d[65] != 1 {
        Err(PcxError::UnsupportedFormat)
    } else {
        let x_min = u16_at(d, 4);
        let y_min = u16_at(d, 6);
        let x_max = u16_at(d, 8);
        let y_max = u16_at(d, 10);
        let bpl = u16_at(d, 66);
        if x_max < x_min || y_max < y_min {
            Err(PcxError::InvalidHeader)
        } else {
            let width = x_max - x_min + 1;
            let height = y_max - y_min + 1;
            if bpl < width {
                Err(PcxError::InvalidHeader)
            } else {
                match decode_rows(d, 128, height as nat, bpl as nat, width as nat) {
                    None => Err(PcxError::UnexpectedEof),
                    Some(indices) => Ok((width as u32, height as u32, indices, trailing_palette(d))),
                }
            }
        }
    }
}

pub open spec fn palette_view(p: Option<Palette>) -> Option<Seq<Rgb>> {
    match p {
        Some(q) => Some(q.spec_colors()),
        None => None,
    }
}

/// Decodes one row from `off`; the row holds at least `bpl` bytes.
fn decode_row_exec(data: &[u8], off: usize, bpl: usize) -> (r: Option<(Vec<u8>, usize)>)
    requires
        off <= data@.len(),
    ensures
        match decode_row(data@, off as int, Seq::empty(), bpl as nat) {
            None => r is None,
            Some((row, next)) => r matches Some((v, n)) && v@ == row && n == next && n <= data@.len()
                && v@.len() >= bpl,
        },
{
    let mut row: Vec<u8> = Vec::new();
    let mut offset = off;
    while row.len() < bpl
        invariant
            off <= offset <= data@.len(),
            decode_row(data@, off as int, Seq::empty(), bpl as nat) == decode_row(data@, offset as int, row@, bpl as nat),
        decreases data@.len() - offset,
    {
        if offset >= data.len() {
            return None;
        }
        let byte = data[offset];
        offset = offset + 1;
        if byte & 0xc0 == 0xc0 {
            let count = (byte & 0x3f) as usize;
            if offset >= data.len() {
                return None;
            }
            let value = data[offset];
            offset = offset + 1;
            let ghost before = row@;
            let mut k: usize = 0;
            while k < count
                invariant
                    k <= count,
                    row@ == before + Seq::new(k as nat, |j: int| value),
                decreases count - k,
            {
                row.push(value);
                assert(row@ =~= before + Seq::new((k + 1) as nat, |j: int| value));
                k = k + 1;
            }
            assert(row@ =~= before + Seq::new((byte & 0x3f) as nat, |j: int| data@[offset - 1]));
        } else {
            row.push(byte);
        }
    }
    proof {
        if offset > data@.len() {
            assert(false);
        }
    }
    Some((row, offset))
}

impl PcxImage {
    /// Decodes a PCX file.
    pub fn from_bytes(data: &[u8]) -> (r: Result<Self, PcxError>)
        ensures
            match spec_pcx(data@) {
                Ok((w, h, indices, pal)) => r matches Ok(img) && img.width == w && img.height == h
                    && img.indices@ == indices && palette_view(img.palette) == pal
                    && (img.palette matches Some(p) ==> p.wf()),
                Err(e) => r == Err::<Self, PcxError>(e),
            },
    {
        if data.len() < 128 {
            return Err(PcxError::InvalidHeader);
        }
        if data[0] != 0x0a || data[2] != 1 {
            return Err(PcxError::InvalidHeader);
        }
        let bits_per_pixel = data[3];
        let x_min = read_u16_at(data, 4);
        let y_min = read_u16_at(data, 6);
        let x_max = read_u16_at(data, 8);
        let y_max = read_u16_at(data, 10);
        let planes = data[65];
        let bytes_per_line = read_u16_at(data, 66) as usize;
        if bits_per_pixel != 8 || planes != 1 {
            return Err(PcxError::UnsupportedFormat);
        }
        if x_max < x_min || y_max < y_min {
            return Err(PcxError::InvalidHeader);
        }
        let width = (x_max - x_min) as usize + 1;
        let height = (y_max - y_min) as usize + 1;
        if bytes_per_line < width {
            return Err(PcxError::InvalidHeader);
        }
        let ghost outcome = spec_pcx(data@);
        assert(outcome == match decode_rows(data@, 128, height as nat, bytes_per_line as nat, width as nat) {
            None => Err(PcxError::UnexpectedEof),
            Some(ix) => Ok((width as u32, height as u32, ix, trailing_palette(data@))),
        });
        let mut indices: Vec<u8> = Vec::new();
        let mut offset: usize = 128;
        let mut y: usize = 0;
        while y < height
            invariant
                y <= height,
                offset <= data@.len(),
                width <= bytes_per_line,
                outcome == spec_pcx(data@),
                outcome == match decode_rows(data@, 128, height as nat, bytes_per_line as nat, width as nat) {
                    None => Err(PcxError::UnexpectedEof),
                    Some(ix) => Ok((width as u32, height as u32, ix, trailing_palette(data@))),
                },
                decode_rows(data@, 128, height as nat, bytes_per_line as nat, width as nat) == match decode_rows(
                    data@,
                    offset as int,
                    (height - y) as nat,
                    bytes_per_line as nat,
                    width as nat,
                ) {
                    Some(rest) => Some(indices@ + rest),
                    None => None::<Seq<u8>>,
                },
            decreases height - y,
        {
            match decode_row_exec(data, offset, bytes_per_line) {
                None => {
                    return Err(PcxError::UnexpectedEof);
                },
                Some((row, next)) => {
                    let ghost before = indices@;
                    let mut k: usize = 0;
                    while k < width
                        invariant
                            k <= width <= row@.len(),
                            indices@ == before + row@.take(k as int),
                        decreases width - k,
                    {
                        indices.push(row[k]);
                        assert(indices@ =~= before + row@.take(k + 1));
                        k = k + 1;
                    }
                    proof {
                        match decode_rows(data@, next as int, (height - y - 1) as nat, bytes_per_line as nat, width as nat) {
                            Some(rest) => {
                                assert(before + (row@.take(width as int) + rest) =~= indices@ + rest);
                            },
                            None => {},
                        }
                    }
                    offset = next;
                },
            }
            y = y + 1;
        }
        assert(indices@ + Seq::<u8>::empty() =~= indices@);
        let palette = if data.len() >= 769 {
            let palette_start = data.len() - 769;
            if data[palette_start] == 0x0c {
                match Palette::from_bytes(&data[palette_start + 1..data.len()]) {
                    Ok(p) => {
                        assert(data@.subrange(palette_start + 1, data@.len() as int) =~= data@.skip(data@.len() - 768));
                        Some(p)
                    },
                    Err(e) => {
                        return Err(PcxError::Palette(e));
                    },
                }
            } else {
                None
            }
        } else {
            None
        };
        Ok(PcxImage { width: width as u32, height: height as u32, indices, palette })
    }

    /// The image as RGBA bytes, with its own palette or else `fallback`.
    pub fn expand_rgba(&self, fallback: Option<&Palette>) -> (r: Result<Vec<u8>, PcxError>)
        requires
            self.palette matches Some(p) ==> p.wf(),
            fallback matches Some(p) ==> p.wf(),
        ensures
            match (self.palette, fallback) {
                (Some(p), _) => r matches Ok(v) && v@ == spec_expand(p.spec_colors(), self.indices@, None),
                (None, Some(p)) => r matches Ok(v) && v@ == spec_expand(p.spec_colors(), self.indices@, None),
                (None, None) => r == Err::<Vec<u8>, PcxError>(PcxError::MissingPalette),
            },
    {
        let palette = match &self.palette {
            Some(p) => p,
            None => match fallback {
                Some(p) => p,
                None => {
                    return Err(PcxError::MissingPalette);
                },
            },
        };
        Ok(palette.expand_indices(self.indices.as_slice(), None))
    }
}

} // verus!
