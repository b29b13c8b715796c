//! Mip textures: a palette-indexed bitmap with four mipmap levels, or a bare
//! header whose pixel data is to be found in a texture archive.
use vstd::prelude::*;
use crate::bytes::{cstr_of, decode_name, le_u32_at, name_field_ok, read_u32};
use crate::error::DecodeError;

verus! {

pub const NAME_LEN: usize = 16;

pub const MIP_NUM: usize = 4;

/// Bytes of the fixed header: name, width, height, four mip offsets.
pub const MIPTEX_HEADER_SIZE: usize = 40;

/// 256 RGB triples.
pub const COLOR_TABLE_SIZE: usize = 768;

/// First byte of the name of a chroma-keyed texture.
pub const TRANSPARENT_PREFIX: u8 = 0x7B;

pub open spec fn mip_divisor(level: int) -> int {
    if level == 0 {
        1
    } else if level == 1 {
        4
    } else if level == 2 {
        16
    } else {
        64
    }
}

pub open spec fn side_divisor(level: int) -> int {
    if level == 0 {
        1
    } else if level == 1 {
        2
    } else if level == 2 {
        4
    } else {
        8
    }
}

/// Number of palette indices stored for a mip level.
pub open spec fn mip_len(width: u32, height: u32, level: int) -> int {
    (width as int * height as int) / mip_divisor(level)
}

/// Where the palette starts: after the last level and two padding bytes.
pub open spec fn palette_offset(width: u32, height: u32, offset3: u32) -> int {
    offset3 as int + mip_len(width, height, 3) + 2
}

/// The header fields of a record, read from its bytes.
pub open spec fn hdr_width(b: Seq<u8>) -> u32 {
    le_u32_at(b, 16)
}

pub open spec fn hdr_height(b: Seq<u8>) -> u32 {
    le_u32_at(b, 20)
}

pub open spec fn hdr_offset(b: Seq<u8>, i: int) -> u32 {
    le_u32_at(b, 24 + 4 * i)
}

/// Some mip offset is zero: the record carries no pixel data.
pub open spec fn hdr_absent(b: Seq<u8>) -> bool {
    exists|i: int| 0 <= i < MIP_NUM && hdr_offset(b, i) == 0
}

/// The decoded pixel data of a present texture.
pub struct MipLevelsView {
    pub levels: Seq<Seq<u8>>,
    pub palette: Seq<u8>,
}

/// What a mip texture record decodes to.
pub struct MipTextureView {
    pub name: Seq<u8>,
    pub width: u32,
    pub height: u32,
    pub data: Option<MipLevelsView>,
}

pub open spec fn level_in_bounds(b: Seq<u8>, i: int) -> bool {
    hdr_offset(b, i) as int + mip_len(hdr_width(b), hdr_height(b), i) <= b.len()
}

pub open spec fn palette_in_bounds(b: Seq<u8>) -> bool {
    palette_offset(hdr_width(b), hdr_height(b), hdr_offset(b, 3)) + COLOR_TABLE_SIZE <= b.len()
}

pub open spec fn level_of(b: Seq<u8>, i: int) -> Seq<u8> {
    b.subrange(
        hdr_offset(b, i) as int,
        hdr_offset(b, i) as int + mip_len(hdr_width(b), hdr_height(b), i),
    )
}

pub open spec fn palette_of(b: Seq<u8>) -> Seq<u8> {
    let p = palette_offset(hdr_width(b), hdr_height(b), hdr_offset(b, 3));
    b.subrange(p, p + COLOR_TABLE_SIZE)
}

/// The decoding of a mip texture record whose mip offsets are relative to its
/// first byte.
pub open spec fn miptex_of(b: Seq<u8>) -> Result<MipTextureView, DecodeError> {
    if b.len() < MIPTEX_HEADER_SIZE {
        Err(DecodeError::OutOfBounds)
    } else if !name_field_ok(b.subrange(0, NAME_LEN as int)) {
        Err(DecodeError::InvalidName)
    } else if hdr_absent(b) {
        Ok(
            MipTextureView {
                name: cstr_of(b.subrange(0, NAME_LEN as int)),
                width: hdr_width(b),
                height: hdr_height(b),
                data: None,
            },
        )
    } else if (forall|i: int| 0 <= i < MIP_NUM ==> level_in_bounds(b, i)) && palette_in_bounds(
        b,
    ) {
        Ok(
            MipTextureView {
                name: cstr_of(b.subrange(0, NAME_LEN as int)),
                width: hdr_width(b),
                height: hdr_height(b),
                data: Some(
                    MipLevelsView {
                        levels: Seq::new(MIP_NUM as nat, |i: int| level_of(b, i)),
                        palette: palette_of(b),
                    },
                ),
            },
        )
    } else {
        Err(DecodeError::OutOfBounds)
    }
}

/// The fixed header of a mip texture record.
pub struct MipTex {
    pub name: Vec<u8>,
    pub width: u32,
    pub height: u32,
    pub offsets: [u32; 4],
}

impl MipTex {
    /// Read the header: `OutOfBounds` under 40 bytes, `InvalidName` for a
    /// name field that is neither NUL-terminated nor UTF-8.
    pub fn parse(b: &[u8]) -> (r: Result<MipTex, DecodeError>)
        ensures
            match r {
                Ok(h) => {
                    &&& b@.len() >= MIPTEX_HEADER_SIZE
                    &&& name_field_ok(b@.subrange(0, NAME_LEN as int))
                    &&& h.name@ == cstr_of(b@.subrange(0, NAME_LEN as int))
                    &&& h.width == hdr_width(b@)
                    &&& h.height == hdr_height(b@)
                    &&& forall|i: int| 0 <= i < MIP_NUM ==> h.offsets@[i] == hdr_offset(b@, i)
                },
                Err(e) => if b@.len() < MIPTEX_HEADER_SIZE {
                    e == DecodeError::OutOfBounds
                } else {
                    !name_field_ok(b@.subrange(0, NAME_LEN as int)) && e
                        == DecodeError::InvalidName
                },
            },
    {
        if b.len() < MIPTEX_HEADER_SIZE {
            return Err(DecodeError::OutOfBounds);
        }
        let name = match decode_name(vstd::slice::slice_subrange(b, 0, NAME_LEN)) {
            Some(n) => n,
            None => {
                return Err(DecodeError::InvalidName);
            },
        };
        let offsets = [read_u32(b, 24), read_u32(b, 28), read_u32(b, 32), read_u32(b, 36)];
        Ok(MipTex { name, width: read_u32(b, 16), height: read_u32(b, 20), offsets })
    }

    /// Some mip offset is zero.
    pub open spec fn spec_absent(&self) -> bool {
        exists|i: int| 0 <= i < MIP_NUM && self.offsets@[i] == 0
    }

    pub fn is_absent(&self) -> (r: bool)
        ensures
            r == self.spec_absent(),
    {
        self.offsets[0] == 0 || self.offsets[1] == 0 || self.offsets[2] == 0 || self.offsets[3]
            == 0
    }

    /// The texture's name, cut at its first NUL.
    pub fn get_name(&self) -> (r: Vec<u8>)
        ensures
            r@ == self.name@,
    {
        self.name.clone()
    }

    /// Pixel count of the full-size level.
    fn area(&self) -> (r: u64)
        ensures
            r == self.width as int * self.height as int,
    {
        proof {
            let w = self.width as int;
            let h = self.height as int;
            assert(0 <= w * h <= 0xffff_fffe_0000_0001) by (nonlinear_arith)
                requires
                    0 <= w <= 0xffff_ffff,
                    0 <= h <= 0xffff_ffff,
            ;
        }
        self.width as u64 * self.height as u64
    }

    /// The palette indices of one mip level in `buf`, which starts at the
    /// record's first byte.
    pub fn mip_indices<'a>(&self, buf: &'a [u8], level: usize) -> (r: Result<&'a [u8], DecodeError>)
        requires
            level < MIP_NUM,
        ensures
            ({
                let off = self.offsets@[level as int] as int;
                let n = mip_len(self.width, self.height, level as int);
                match r {
                    Ok(s) => off + n <= buf@.len() && s@ == buf@.subrange(off, off + n),
                    Err(e) => off + n > buf@.len() && e == DecodeError::OutOfBounds,
                }
            }),
    {
        let area = self.area();
        let n: u64 = if level == 0 {
            area
        } else if level == 1 {
            area / 4
        } else if level == 2 {
            area / 16
        } else {
            area / 64
        };
        let off = self.offsets[level] as u64;
        let len = buf.len() as u64;
        if off > len || n > len - off {
            Err(DecodeError::OutOfBounds)
        } else {
            Ok(vstd::slice::slice_subrange(buf, off as usize, (off + n) as usize))
        }
    }

    /// The 768-byte palette after the last level and two padding bytes.
    pub fn get_color_table<'a>(&self, buf: &'a [u8]) -> (r: Result<&'a [u8], DecodeError>)
        ensures
            ({
                let p = palette_offset(self.width, self.height, self.offsets@[3]);
                match r {
                    Ok(s) => p + COLOR_TABLE_SIZE <= buf@.len() && s@ == buf@.subrange(
                        p,
                        p + COLOR_TABLE_SIZE,
                    ),
                    Err(e) => p + COLOR_TABLE_SIZE > buf@.len() && e == DecodeError::OutOfBounds,
                }
            }),
    {
        let p = self.offsets[3] as u64 + self.area() / 64 + 2;
        let len = buf.len() as u64;
        if p > len || (COLOR_TABLE_SIZE as u64) > len - p {
            Err(DecodeError::OutOfBounds)
        } else {
            Ok(vstd::slice::slice_subrange(buf, p as usize, p as usize + COLOR_TABLE_SIZE))
        }
    }
}

/// A texture named with a leading `{` is chroma-keyed.
pub open spec fn is_keyed(name: Seq<u8>) -> bool {
    name.len() > 0 && name[0] == TRANSPARENT_PREFIX
}

/// Alpha of palette entry `k`: zero for pure blue under a chroma-keyed name.
pub open spec fn alpha_of(palette: Seq<u8>, k: int, keyed: bool) -> u8 {
    if keyed && palette[3 * k] == 0 && palette[3 * k + 1] == 0 && palette[3 * k + 2] == 255 {
        0
    } else {
        255
    }
}

/// Four RGBA bytes for each palette index.
pub open spec fn rgba_of(indices: Seq<u8>, palette: Seq<u8>, keyed: bool) -> Seq<u8>
    decreases indices.len(),
{
    if indices.len() == 0 {
        Seq::empty()
    } else {
        let k = indices.last() as int;
        rgba_of(indices.drop_last(), palette, keyed) + seq![
            palette[3 * k],
            palette[3 * k + 1],
            palette[3 * k + 2],
            alpha_of(palette, k, keyed),
        ]
    }
}

/// Pixel `i` of the RGBA bytes: the palette color of index `i` and its alpha.
pub proof fn lemma_rgba_at(indices: Seq<u8>, palette: Seq<u8>, keyed: bool, i: int)
    requires
        0 <= i < indices.len(),
    ensures
        rgba_of(indices, palette, keyed).len() == 4 * indices.len(),
        rgba_of(indices, palette, keyed)[4 * i] == palette[3 * indices[i]],
        rgba_of(indices, palette, keyed)[4 * i + 1] == palette[3 * indices[i] + 1],
        rgba_of(indices, palette, keyed)[4 * i + 2] == palette[3 * indices[i] + 2],
        rgba_of(indices, palette, keyed)[4 * i + 3] == alpha_of(palette, indices[i] as int, keyed),
    decreases indices.len(),
{
    let prev = indices.drop_last();
    let a = rgba_of(prev, palette, keyed);
    let k = indices.last() as int;
    let b = seq![palette[3 * k], palette[3 * k + 1], palette[3 * k + 2], alpha_of(palette, k, keyed)];
    assert(rgba_of(indices, palette, keyed) == a + b);
    if prev.len() > 0 {
        lemma_rgba_at(prev, palette, keyed, 0);
    }
    assert(a.len() == 4 * prev.len());
    if i < indices.len() - 1 {
        lemma_rgba_at(prev, palette, keyed, i);
        assert(prev[i] == indices[i]);
        assert((a + b)[4 * i] == a[4 * i]);
        assert((a + b)[4 * i + 1] == a[4 * i + 1]);
        assert((a + b)[4 * i + 2] == a[4 * i + 2]);
        assert((a + b)[4 * i + 3] == a[4 * i + 3]);
    } else {
        assert((a + b)[4 * i] == b[0]);
        assert((a + b)[4 * i + 1] == b[1]);
        assert((a + b)[4 * i + 2] == b[2]);
        assert((a + b)[4 * i + 3] == b[3]);
    }
}

/// Chroma keying: a pixel whose palette color is pure blue gets alpha 0 in a
/// texture whose name starts with `{`, and alpha 255 in any other texture.
pub proof fn lemma_transparency(indices: Seq<u8>, palette: Seq<u8>, name: Seq<u8>, i: int)
    requires
        0 <= i < indices.len(),
        palette[3 * indices[i]] == 0,
        palette[3 * indices[i] + 1] == 0,
        palette[3 * indices[i] + 2] == 255,
    ensures
        rgba_of(indices, palette, is_keyed(name))[4 * i + 3] == (if name.len() > 0 && name[0]
            == TRANSPARENT_PREFIX {
            0u8
        } else {
            255u8
        }),
{
    lemma_rgba_at(indices, palette, is_keyed(name), i);
}

/// The four levels of palette indices and the palette of a present texture.
pub struct MipLevels {
    pub levels: Vec<Vec<u8>>,
    pub palette: Vec<u8>,
}

/// Pixel data of a texture: present, or to be found elsewhere by name.
pub enum MipData {
    Absent,
    Present(MipLevels),
}

/// A decoded mip texture.
pub struct MipTexture {
    pub name: Vec<u8>,
    pub width: u32,
    pub height: u32,
    pub data: MipData,
}

impl View for MipTexture {
    type V = MipTextureView;

    open spec fn view(&self) -> MipTextureView {
        MipTextureView {
            name: self.name@,
            width: self.width,
            height: self.height,
            data: match self.data {
                MipData::Absent => None,
                MipData::Present(l) => Some(
                    MipLevelsView {
                        levels: Seq::new(l.levels@.len(), |i: int| l.levels@[i]@),
                        palette: l.palette@,
                    },
                ),
            },
        }
    }
}

impl MipTexture {
    /// A present texture holds four levels and a full palette.
    pub open spec fn wf(&self) -> bool {
        match self.data {
            MipData::Absent => true,
            MipData::Present(l) => l.levels@.len() == MIP_NUM && l.palette@.len()
                == COLOR_TABLE_SIZE,
        }
    }

    /// Decode a mip texture record; its mip offsets are relative to its first
    /// byte. A record with any zero offset decodes as absent.
    pub fn parse(file: &[u8]) -> (r: Result<MipTexture, DecodeError>)
        ensures
            match r {
                Ok(t) => t.wf() && miptex_of(file@) == Ok::<MipTextureView, DecodeError>(t@),
                Err(e) => miptex_of(file@) == Err::<MipTextureView, DecodeError>(e),
            },
            file@.len() >= MIPTEX_HEADER_SIZE && name_field_ok(file@.subrange(0, NAME_LEN as int))
                && hdr_absent(file@) ==> r is Ok && r->Ok_0.data is Absent,
    {
        let h = MipTex::parse(file)?;
        if h.is_absent() {
            let t = MipTexture { name: h.name, width: h.width, height: h.height, data: MipData::Absent };
            proof {
                let i = choose|i: int| 0 <= i < MIP_NUM && h.offsets@[i] == 0;
                assert(hdr_offset(file@, i) == 0);
            }
            return Ok(t);
        }
        assert(!hdr_absent(file@));
        let mut levels: Vec<Vec<u8>> = Vec::with_capacity(MIP_NUM);
        let mut i: usize = 0;
        while i < MIP_NUM
            invariant
                i <= MIP_NUM,
                file@.len() >= MIPTEX_HEADER_SIZE,
                !hdr_absent(file@),
                name_field_ok(file@.subrange(0, NAME_LEN as int)),
                h.width == hdr_width(file@),
                h.height == hdr_height(file@),
                forall|k: int| 0 <= k < MIP_NUM ==> h.offsets@[k] == hdr_offset(file@, k),
                levels@.len() == i,
                forall|k: int| 0 <= k < i ==> level_in_bounds(file@, k),
                forall|k: int| 0 <= k < i ==> (#[trigger] levels@[k])@ == level_of(file@, k),
            decreases MIP_NUM - i,
        {
            let s = match h.mip_indices(file, i) {
                Ok(s) => s,
                Err(e) => {
                    assert(!level_in_bounds(file@, i as int));
                    return Err(e);
                },
            };
            levels.push(vstd::slice::slice_to_vec(s));
            i = i + 1;
        }
        let palette = match h.get_color_table(file) {
            Ok(p) => vstd::slice::slice_to_vec(p),
            Err(e) => {
                return Err(e);
            },
        };
        let t = MipTexture {
            name: h.name,
            width: h.width,
            height: h.height,
            data: MipData::Present(MipLevels { levels, palette }),
        };
        assert(!hdr_absent(file@));
        assert(t@.data->Some_0.levels =~= Seq::new(MIP_NUM as nat, |k: int| level_of(file@, k)));
        Ok(t)
    }

    pub open spec fn spec_is_absent(&self) -> bool {
        self.data is Absent
    }

    /// The texture carries no pixel data of its own.
    pub fn is_absent(&self) -> (r: bool)
        ensures
            r == self.spec_is_absent(),
    {
        match self.data {
            MipData::Absent => true,
            MipData::Present(_) => false,
        }
    }

    /// RGBA bytes of a mip level: nothing for an absent texture or a level
    /// past the fourth. Pure blue under a name starting with `{` gets alpha 0,
    /// every other pixel alpha 255.
    pub fn pixels(&self, mip_level: usize) -> (r: Option<Vec<u8>>)
        requires
            self.wf(),
        ensures
            match self.data {
                MipData::Absent => r is None,
                MipData::Present(l) => if mip_level < MIP_NUM {
                    r is Some && r->Some_0@ == rgba_of(
                        l.levels@[mip_level as int]@,
                        l.palette@,
                        is_keyed(self.name@),
                    )
                } else {
                    r is None
                },
            },
    {
        match &self.data {
            MipData::Absent => None,
            MipData::Present(l) => {
                if mip_level >= MIP_NUM {
                    return None;
                }
                let keyed = self.name.len() > 0 && self.name[0] == TRANSPARENT_PREFIX;
                let indices = &l.levels[mip_level];
                let palette = &l.palette;
                let mut out: Vec<u8> = Vec::new();
                let mut i: usize = 0;
                while i < indices.len()
                    invariant
                        i <= indices@.len(),
                        palette@.len() == COLOR_TABLE_SIZE,
                        keyed == is_keyed(self.name@),
                        out@ == rgba_of(indices@.subrange(0, i as int), palette@, keyed),
                    decreases indices@.len() - i,
                {
                    let k = indices[i] as usize;
                    let red = palette[3 * k];
                    let green = palette[3 * k + 1];
                    let blue = palette[3 * k + 2];
                    let alpha: u8 = if keyed && red == 0 && green == 0 && blue == 255 {
                        0
                    } else {
                        255
                    };
                    out.push(red);
                    out.push(green);
                    out.push(blue);
                    out.push(alpha);
                    proof {
                        let sub = indices@.subrange(0, i + 1);
                        assert(sub.drop_last() =~= indices@.subrange(0, i as int));
                        assert(sub.last() == indices@[i as int]);
                    }
                    i = i + 1;
                }
                assert(indices@.subrange(0, indices@.len() as int) =~= indices@);
                Some(out)
            },
        }
    }

    /// The RGB color at column `x`, row `y` of a mip level; nothing for an
    /// absent texture, a level past the fourth, or a position past the
    /// level's stored indices.
    pub fn color(&self, mip_level: usize, x: u32, y: u32) -> (r: Option<[u8; 3]>)
        requires
            self.wf(),
        ensures
            match self.data {
                MipData::Absent => r is None,
                MipData::Present(l) => {
                    let w = self.width as int / side_divisor(mip_level as int);
                    let p = w * y as int + x as int;
                    if mip_level < MIP_NUM && p < l.levels@[mip_level as int]@.len() {
                        let k = l.levels@[mip_level as int]@[p] as int;
                        r is Some && r->Some_0@ == seq![
                            l.palette@[3 * k],
                            l.palette@[3 * k + 1],
                            l.palette@[3 * k + 2],
                        ]
                    } else {
                        r is None
                    }
                },
            },
    {
        let width = match self.width(mip_level) {
            Some(w) => w,
            None => {
                return None;
            },
        };
        match &self.data {
            MipData::Absent => None,
            MipData::Present(l) => {
                proof {
                    let w = width as int;
                    assert(0 <= w * (y as int) <= 0xffff_fffe_0000_0001) by (nonlinear_arith)
                        requires
                            0 <= w <= 0xffff_ffff,
                            0 <= y <= 0xffff_ffff,
                    ;
                }
                let p = width as u64 * y as u64 + x as u64;
                let indices = &l.levels[mip_level];
                if p >= indices.len() as u64 {
                    return None;
                }
                let k = indices[p as usize] as usize;
                let rgb = [l.palette[3 * k], l.palette[3 * k + 1], l.palette[3 * k + 2]];
                assert(rgb@ =~= seq![l.palette@[3 * k], l.palette@[3 * k + 1], l.palette@[3 * k + 2]]);
                Some(rgb)
            },
        }
    }

    /// Width of a mip level; nothing past the fourth.
    pub fn width(&self, mip_level: usize) -> (r: Option<u32>)
        ensures
            r == (if mip_level < MIP_NUM {
                Some((self.width as int / side_divisor(mip_level as int)) as u32)
            } else {
                None::<u32>
            }),
    {
        if mip_level == 0 {
            Some(self.width)
        } else if mip_level == 1 {
            Some(self.width / 2)
        } else if mip_level == 2 {
            Some(self.width / 4)
        } else if mip_level == 3 {
            Some(self.width / 8)
        } else {
            None
        }
    }

    /// Height of a mip level; nothing past the fourth.
    pub fn height(&self, mip_level: usize) -> (r: Option<u32>)
        ensures
            r == (if mip_level < MIP_NUM {
                Some((self.height as int / side_divisor(mip_level as int)) as u32)
            } else {
                None::<u32>
            }),
    {
        if mip_level == 0 {
            Some(self.height)
        } else if mip_level == 1 {
            Some(self.height / 2)
        } else if mip_level == 2 {
            Some(self.height / 4)
        } else if mip_level == 3 {
            Some(self.height / 8)
        } else {
            None
        }
    }
}

/// The texture directory of the textures lump lies inside it.
pub open spec fn texture_dir_ok(l: Seq<u8>) -> bool {
    l.len() >= 4 && 4 + 4 * (le_u32_at(l, 0) as int) <= l.len()
}

pub open spec fn texture_count(l: Seq<u8>) -> int {
    le_u32_at(l, 0) as int
}

pub open spec fn texture_offset(l: Seq<u8>, i: int) -> int {
    le_u32_at(l, 4 + 4 * i) as int
}

/// The decoding of the `i`-th texture of a textures lump.
pub open spec fn texture_at(l: Seq<u8>, i: int) -> Result<MipTextureView, DecodeError> {
    if texture_offset(l, i) > l.len() {
        Err(DecodeError::OutOfBounds)
    } else {
        miptex_of(l.subrange(texture_offset(l, i), l.len() as int))
    }
}

/// The textures lump decodes to `t`.
pub open spec fn textures_ok(l: Seq<u8>, t: Seq<MipTextureView>) -> bool {
    &&& texture_dir_ok(l)
    &&& t.len() == texture_count(l)
    &&& forall|i: int| 0 <= i < t.len() ==> texture_at(l, i) == Ok::<MipTextureView, DecodeError>(t[i])
}

/// The textures lump fails with `e`: at its directory, or at the first
/// texture that does not decode.
pub open spec fn textures_fail(l: Seq<u8>, e: DecodeError) -> bool {
    ||| !texture_dir_ok(l) && e == DecodeError::OutOfBounds
    ||| {
        &&& texture_dir_ok(l)
        &&& exists|i: int|
            0 <= i < texture_count(l) && texture_at(l, i) == Err::<MipTextureView, DecodeError>(e)
                && forall|j: int| 0 <= j < i ==> (#[trigger] texture_at(l, j)) is Ok
    }
}

/// Decode the textures lump: a count, that many offsets relative to the
/// lump's start, and a mip texture record at each.
pub fn parse_textures(lump: &[u8]) -> (r: Result<Vec<MipTexture>, DecodeError>)
    ensures
        match r {
            Ok(v) => textures_ok(lump@, v@.map_values(|t: MipTexture| t@)) && forall|i: int|
                0 <= i < v@.len() ==> (#[trigger] v@[i]).wf(),
            Err(e) => textures_fail(lump@, e),
        },
{
    let len = lump.len();
    if len < 4 {
        return Err(DecodeError::OutOfBounds);
    }
    let count = read_u32(lump, 0);
    if 4 + 4 * (count as u64) > len as u64 {
        return Err(DecodeError::OutOfBounds);
    }
    let mut out: Vec<MipTexture> = Vec::new();
    let mut i: usize = 0;
    while i < count as usize
        invariant
            len == lump@.len(),
            texture_dir_ok(lump@),
            count as int == texture_count(lump@),
            i <= count,
            out@.len() == i,
            forall|k: int| 0 <= k < i ==> (#[trigger] out@[k]).wf(),
            forall|k: int|
                0 <= k < i ==> texture_at(lump@, k) == Ok::<MipTextureView, DecodeError>(
                    (#[trigger] out@[k])@,
                ),
        decreases count - i,
    {
        let off = read_u32(lump, 4 + 4 * i) as usize;
        let t = if off > len {
            Err(DecodeError::OutOfBounds)
        } else {
            MipTexture::parse(vstd::slice::slice_subrange(lump, off, len))
        };
        match t {
            Ok(t) => {
                out.push(t);
            },
            Err(e) => {
                assert(texture_at(lump@, i as int) == Err::<MipTextureView, DecodeError>(e));
                assert forall|j: int| 0 <= j < i implies (#[trigger] texture_at(lump@, j)) is Ok by {
                    assert(texture_at(lump@, j) == Ok::<MipTextureView, DecodeError>(out@[j]@));
                }
                return Err(e);
            },
        }
        i = i + 1;
    }
    proof {
        let views = out@.map_values(|t: MipTexture| t@);
        assert forall|k: int| 0 <= k < views.len() implies texture_at(lump@, k) == Ok::<
            MipTextureView,
            DecodeError,
        >(views[k]) by {
            assert(views[k] == out@[k]@);
        }
    }
    Ok(out)
}

/// An RGBA pixel packed little-endian into a `u32`.
pub open spec fn pack_rgba(r: u8, g: u8, b: u8, a: u8) -> u32 {
    (r as int + 256 * (g as int) + 65536 * (b as int) + 16777216 * (a as int)) as u32
}

/// The packed pixel of palette index `k`.
pub open spec fn packed_of(palette: Seq<u8>, k: int, keyed: bool) -> u32 {
    pack_rgba(palette[3 * k], palette[3 * k + 1], palette[3 * k + 2], alpha_of(palette, k, keyed))
}

/// The image of a level fits in the level's pixel count:
/// `(w / d) * (h / d) <= w * h / (d * d)`.
pub proof fn lemma_level_area(w: int, h: int, d: int)
    requires
        0 <= w,
        0 <= h,
        0 < d,
    ensures
        (w / d) * (h / d) <= (w * h) / (d * d),
        0 <= (w / d) * (h / d),
{
    let a = w / d;
    let b = h / d;
    vstd::arithmetic::div_mod::lemma_fundamental_div_mod(w, d);
    vstd::arithmetic::div_mod::lemma_fundamental_div_mod(h, d);
    vstd::arithmetic::div_mod::lemma_mod_pos_bound(w, d);
    vstd::arithmetic::div_mod::lemma_mod_pos_bound(h, d);
    assert(0 <= a && 0 <= b) by {
        vstd::arithmetic::div_mod::lemma_div_pos_is_pos(w, d);
        vstd::arithmetic::div_mod::lemma_div_pos_is_pos(h, d);
    }
    assert(a * b * (d * d) <= w * h && 0 <= a * b) by (nonlinear_arith)
        requires
            0 <= a,
            0 <= b,
            a * d <= w,
            b * d <= h,
            0 < d,
    ;
    assert(0 < d * d) by (nonlinear_arith)
        requires
            0 < d,
    ;
    assert(a * b * (d * d) == (d * d) * (a * b)) by (nonlinear_arith);
    vstd::arithmetic::div_mod::lemma_div_is_ordered(a * b * (d * d), w * h, d * d);
    vstd::arithmetic::div_mod::lemma_div_multiples_vanish(a * b, d * d);
}

/// Chroma keying of packed pixels: a pure blue palette entry packs to RGB
/// (0, 0, 255) with alpha 0 under a chroma-keyed name, and with alpha 255
/// under any other name.
pub proof fn lemma_packed_transparency(palette: Seq<u8>, k: int, keyed: bool)
    requires
        palette[3 * k] == 0,
        palette[3 * k + 1] == 0,
        palette[3 * k + 2] == 255,
    ensures
        packed_of(palette, k, keyed) == (if keyed {
            pack_rgba(0, 0, 255, 0)
        } else {
            pack_rgba(0, 0, 255, 255)
        }),
        pack_rgba(0, 0, 255, 0) == 0x00ff_0000,
        pack_rgba(0, 0, 255, 255) == 0xffff_0000,
{
}

/// A decoded image of `width` by `height` pixels, row by row. A mip level
/// holds `w * h / 4^level` pixels, which may run past the last full row.
pub struct Texture {
    pub width: u32,
    pub height: u32,
    pub pixels: Vec<u32>,
}

impl Texture {
    pub open spec fn wf(&self) -> bool {
        self.width as int * self.height as int <= self.pixels@.len()
    }

    /// Position of pixel `(x, y)` in `pixels`.
    pub open spec fn spec_index(&self, x: u32, y: u32) -> int {
        self.width as int * y as int + x as int
    }

    proof fn lemma_index_in_range(&self, x: u32, y: u32)
        requires
            x < self.width,
            y < self.height,
        ensures
            0 <= self.spec_index(x, y) < self.width as int * self.height as int,
            0 <= self.width as int * y as int <= self.spec_index(x, y),
    {
        let w = self.width as int;
        let h = self.height as int;
        assert(0 <= w * (y as int)) by (nonlinear_arith)
            requires
                0 <= w,
                0 <= y,
        ;
        assert(0 <= w * (y as int) + (x as int) < w * h) by (nonlinear_arith)
            requires
                0 <= x < w,
                0 <= y < h,
        ;
    }

    /// The pixel at column `x`, row `y`.
    pub fn get(&self, x: u32, y: u32) -> (r: u32)
        requires
            self.wf(),
            x < self.width,
            y < self.height,
        ensures
            r == self.pixels@[self.spec_index(x, y)],
    {
        proof {
            self.lemma_index_in_range(x, y);
        }
        let n = self.pixels.len();
        assert(self.spec_index(x, y) < n);
        let i = self.width as usize * y as usize + x as usize;
        self.pixels[i]
    }

    /// Overwrite the pixel at column `x`, row `y`.
    pub fn set(&mut self, x: u32, y: u32, color: u32)
        requires
            old(self).wf(),
            x < old(self).width,
            y < old(self).height,
        ensures
            final(self).wf(),
            final(self).width == old(self).width,
            final(self).height == old(self).height,
            final(self).pixels@ == old(self).pixels@.update(old(self).spec_index(x, y), color),
    {
        proof {
            self.lemma_index_in_range(x, y);
        }
        let n = self.pixels.len();
        assert(self.spec_index(x, y) < n);
        let i = self.width as usize * y as usize + x as usize;
        self.pixels.set(i, color);
    }
}

impl MipTex {
    /// Decode one mip level into packed RGBA pixels: the level's
    /// `width * height / 4^level` palette indices, colored through
    /// `col_table`, with chroma-keyed blue made transparent under a name
    /// starting with `{`. The image is `width >> level` by `height >> level`.
    pub fn read_texture(&self, buf: &[u8], col_table: &[u8], mip_level: usize) -> (r: Result<
        Texture,
        DecodeError,
    >)
        requires
            mip_level < MIP_NUM,
            col_table@.len() >= COLOR_TABLE_SIZE,
        ensures
            ({
                let n = mip_len(self.width, self.height, mip_level as int);
                let off = self.offsets@[mip_level as int] as int;
                match r {
                    Ok(t) => {
                        &&& off + n <= buf@.len()
                        &&& t.wf()
                        &&& t.width == self.level_width(mip_level as int)
                        &&& t.height == self.level_height(mip_level as int)
                        &&& t.pixels@.len() == n
                        &&& forall|i: int|
                            0 <= i < n ==> t.pixels@[i] == packed_of(
                                col_table@,
                                buf@[off + i] as int,
                                is_keyed(self.name@),
                            )
                    },
                    Err(e) => off + n > buf@.len() && e == DecodeError::OutOfBounds,
                }
            }),
    {
        let indices = self.mip_indices(buf, mip_level)?;
        let d: u32 = if mip_level == 0 {
            1
        } else if mip_level == 1 {
            2
        } else if mip_level == 2 {
            4
        } else {
            8
        };
        let width = self.width / d;
        let height = self.height / d;
        proof {
            lemma_level_area(self.width as int, self.height as int, d as int);
            if mip_level == 0 {
                assert(d == 1 && mip_divisor(0) == 1);
            } else if mip_level == 1 {
                assert(d == 2 && mip_divisor(1) == 4);
            } else if mip_level == 2 {
                assert(d == 4 && mip_divisor(2) == 16);
            } else {
                assert(d == 8 && mip_divisor(3) == 64);
            }
            assert(mip_divisor(mip_level as int) == d as int * d as int);
        }
        let n = indices.len();
        let keyed = self.name.len() > 0 && self.name[0] == TRANSPARENT_PREFIX;
        let mut pixels: Vec<u32> = Vec::with_capacity(n);
        let mut i: usize = 0;
        while i < n
            invariant
                n == indices@.len(),
                col_table@.len() >= COLOR_TABLE_SIZE,
                keyed == is_keyed(self.name@),
                i <= n,
                pixels@.len() == i,
                forall|j: int|
                    0 <= j < i ==> pixels@[j] == packed_of(col_table@, indices@[j] as int, keyed),
            decreases n - i,
        {
            let k = indices[i] as usize;
            let red = col_table[3 * k];
            let green = col_table[3 * k + 1];
            let blue = col_table[3 * k + 2];
            let alpha: u8 = if keyed && red == 0 && green == 0 && blue == 255 {
                0
            } else {
                255
            };
            let color = red as u32 + 256 * (green as u32) + 65536 * (blue as u32) + 16777216 * (
            alpha as u32);
            pixels.push(color);
            i = i + 1;
        }
        Ok(Texture { width, height, pixels })
    }

    /// Width of a mip level.
    pub open spec fn level_width(&self, mip_level: int) -> int {
        self.width as int / side_divisor(mip_level)
    }

    /// Height of a mip level.
    pub open spec fn level_height(&self, mip_level: int) -> int {
        self.height as int / side_divisor(mip_level)
    }

    /// The level's indices and the palette both lie inside `buf`.
    pub open spec fn level_in(&self, buf: Seq<u8>, mip_level: int) -> bool {
        let p = palette_offset(self.width, self.height, self.offsets@[3]);
        &&& p + COLOR_TABLE_SIZE <= buf.len()
        &&& self.offsets@[mip_level] as int + mip_len(self.width, self.height, mip_level)
            <= buf.len()
    }

    /// `t` is mip level `mip_level` of the record that `buf` starts with.
    pub open spec fn is_level_of(&self, t: Texture, buf: Seq<u8>, mip_level: int) -> bool {
        let p = palette_offset(self.width, self.height, self.offsets@[3]);
        let off = self.offsets@[mip_level] as int;
        &&& t.wf()
        &&& t.width == self.level_width(mip_level)
        &&& t.height == self.level_height(mip_level)
        &&& t.pixels@.len() == mip_len(self.width, self.height, mip_level)
        &&& forall|i: int|
            0 <= i < t.pixels@.len() ==> t.pixels@[i] == packed_of(
                buf.subrange(p, p + COLOR_TABLE_SIZE),
                buf[off + i] as int,
                is_keyed(self.name@),
            )
    }

    /// Decode one mip level of the record that `buf` starts with.
    pub fn get_texture(&self, buf: &[u8], mip_level: usize) -> (r: Result<Texture, DecodeError>)
        requires
            mip_level < MIP_NUM,
        ensures
            match r {
                Ok(t) => self.level_in(buf@, mip_level as int) && self.is_level_of(
                    t,
                    buf@,
                    mip_level as int,
                ),
                Err(e) => !self.level_in(buf@, mip_level as int) && e == DecodeError::OutOfBounds,
            },
    {
        let col_table = self.get_color_table(buf)?;
        self.read_texture(buf, col_table, mip_level)
    }
}

} // verus!
