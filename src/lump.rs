//! The lump container: a version number followed by a directory of fifteen
//! (offset, length) entries, each naming a byte region of the file.
use vstd::prelude::*;
use crate::bytes::{le_u32_at, read_u32};
use crate::error::DecodeError;
use crate::record::{Record, records_of, read_mul_structs};

verus! {

pub const HLBSP_VERSION: u32 = 30;

pub const LUMPS_NUM: usize = 15;

/// Size of the version field and the lump directory.
pub const HEADER_SIZE: usize = 124;

/// The lumps of the directory, in their on-disk order.
#[derive(Debug, Clone, Copy, PartialEq, Eq, Structural)]
pub enum LumpType {
    Entities,
    Planes,
    Textures,
    Vertices,
    Visibility,
    Nodes,
    TexInfo,
    Faces,
    Lighting,
    Clipnodes,
    Leaves,
    Marksurfaces,
    Edges,
    Surfedges,
    Models,
}

impl LumpType {
    pub open spec fn spec_index(self) -> nat {
        match self {
            LumpType::Entities => 0,
            LumpType::Planes => 1,
            LumpType::Textures => 2,
            LumpType::Vertices => 3,
            LumpType::Visibility => 4,
            LumpType::Nodes => 5,
            LumpType::TexInfo => 6,
            LumpType::Faces => 7,
            LumpType::Lighting => 8,
            LumpType::Clipnodes => 9,
            LumpType::Leaves => 10,
            LumpType::Marksurfaces => 11,
            LumpType::Edges => 12,
            LumpType::Surfedges => 13,
            LumpType::Models => 14,
        }
    }

    /// Position of this lump in the directory.
    pub fn index(self) -> (r: usize)
        ensures
            r == self.spec_index(),
            r < LUMPS_NUM,
    {
        match self {
            LumpType::Entities => 0,
            LumpType::Planes => 1,
            LumpType::Textures => 2,
            LumpType::Vertices => 3,
            LumpType::Visibility => 4,
            LumpType::Nodes => 5,
            LumpType::TexInfo => 6,
            LumpType::Faces => 7,
            LumpType::Lighting => 8,
            LumpType::Clipnodes => 9,
            LumpType::Leaves => 10,
            LumpType::Marksurfaces => 11,
            LumpType::Edges => 12,
            LumpType::Surfedges => 13,
            LumpType::Models => 14,
        }
    }
}

/// One directory entry: a byte region of the file.
#[derive(Debug, Clone, Copy, PartialEq, Eq, Structural)]
pub struct Lump {
    pub offset: u32,
    pub length: u32,
}

impl Lump {
    /// The region lies inside a buffer of `len` bytes.
    pub open spec fn in_bounds(self, len: nat) -> bool {
        self.offset as int + self.length as int <= len
    }

    /// The bytes of the region.
    pub open spec fn spec_data(self, file: Seq<u8>) -> Seq<u8> {
        file.subrange(self.offset as int, self.offset as int + self.length as int)
    }

    /// The region's bytes in `buf`, or `OutOfBounds` when it passes its end.
    pub fn read_data<'a>(&self, buf: &'a [u8]) -> (r: Result<&'a [u8], DecodeError>)
        ensures
            match r {
                Ok(s) => self.in_bounds(buf@.len()) && s@ == self.spec_data(buf@),
                Err(e) => !self.in_bounds(buf@.len()) && e == DecodeError::OutOfBounds,
            },
    {
        let off = self.offset as usize;
        let len = self.length as usize;
        if off > buf.len() || len > buf.len() - off {
            Err(DecodeError::OutOfBounds)
        } else {
            Ok(vstd::slice::slice_subrange(buf, off, off + len))
        }
    }

    /// The records that the region holds.
    pub fn read_array<R: Record>(&self, buf: &[u8]) -> (r: Result<Vec<R>, DecodeError>)
        ensures
            match r {
                Ok(v) => self.in_bounds(buf@.len()) && v@ == records_of::<R>(
                    self.spec_data(buf@),
                ),
                Err(e) => !self.in_bounds(buf@.len()) && e == DecodeError::OutOfBounds,
            },
    {
        let data = self.read_data(buf)?;
        Ok(read_mul_structs(data))
    }

    /// The one record at the region's start.
    pub fn read_struct<R: Record>(&self, buf: &[u8]) -> (r: Result<R, DecodeError>)
        ensures
            match r {
                Ok(v) => self.offset as int + R::spec_size() <= buf@.len() && v == R::spec_at(
                    buf@,
                    self.offset as int,
                ),
                Err(e) => self.offset as int + R::spec_size() > buf@.len() && e
                    == DecodeError::OutOfBounds,
            },
    {
        let off = self.offset as usize;
        let size = R::size();
        if off > buf.len() || size > buf.len() - off {
            Err(DecodeError::OutOfBounds)
        } else {
            Ok(R::read_at(buf, off))
        }
    }
}

impl Record for Lump {
    open spec fn spec_size() -> nat {
        8
    }

    open spec fn spec_at(b: Seq<u8>, at: int) -> Lump {
        Lump { offset: le_u32_at(b, at), length: le_u32_at(b, at + 4) }
    }

    fn size() -> (r: usize) {
        8
    }

    fn read_at(b: &[u8], at: usize) -> (r: Lump) {
        Lump { offset: read_u32(b, at), length: read_u32(b, at + 4) }
    }
}

/// Why a buffer has no valid header: under 4 bytes, a version other than 30,
/// or too short for the directory.
pub open spec fn header_error(file: Seq<u8>) -> Option<DecodeError> {
    if file.len() < 4 {
        Some(DecodeError::OutOfBounds)
    } else if le_u32_at(file, 0) != HLBSP_VERSION {
        Some(DecodeError::VersionMismatch)
    } else if file.len() < HEADER_SIZE {
        Some(DecodeError::OutOfBounds)
    } else {
        None
    }
}

/// The directory entry of a lump, read from the file.
pub open spec fn lump_entry(file: Seq<u8>, t: LumpType) -> Lump {
    Lump::spec_at(file, 4 + 8 * (t.spec_index() as int))
}

/// The version field and the lump directory.
pub struct Header {
    pub version: u32,
    pub lumps: Vec<Lump>,
}

impl Header {
    pub open spec fn wf(&self) -> bool {
        self.lumps@.len() == LUMPS_NUM
    }

    /// Read the version and directory. A buffer under 4 bytes, or under the
    /// header's size with the right version, is `OutOfBounds`; a version other
    /// than 30 is `VersionMismatch`.
    pub fn parse(file: &[u8]) -> (r: Result<Header, DecodeError>)
        ensures
            match r {
                Ok(h) => {
                    &&& header_error(file@) is None
                    &&& h.wf()
                    &&& file@.len() >= HEADER_SIZE
                    &&& h.version == HLBSP_VERSION
                    &&& le_u32_at(file@, 0) == HLBSP_VERSION
                    &&& forall|i: int|
                        0 <= i < LUMPS_NUM ==> h.lumps@[i] == Lump::spec_at(file@, 4 + 8 * i)
                },
                Err(e) => header_error(file@) == Some(e),
            },
    {
        let len = file.len();
        if len < 4 {
            return Err(DecodeError::OutOfBounds);
        }
        let version = read_u32(file, 0);
        if version != HLBSP_VERSION {
            return Err(DecodeError::VersionMismatch);
        }
        if file.len() < HEADER_SIZE {
            return Err(DecodeError::OutOfBounds);
        }
        let mut lumps: Vec<Lump> = Vec::with_capacity(LUMPS_NUM);
        let mut i: usize = 0;
        while i < LUMPS_NUM
            invariant
                i <= LUMPS_NUM,
                file@.len() >= HEADER_SIZE,
                len == file@.len(),
                lumps@.len() == i,
                forall|k: int| 0 <= k < i ==> lumps@[k] == Lump::spec_at(file@, 4 + 8 * k),
            decreases LUMPS_NUM - i,
        {
            lumps.push(Lump::read_at(file, 4 + 8 * i));
            i = i + 1;
        }
        Ok(Header { version, lumps })
    }
}

/// A BSP file with its validated header; the lump regions themselves are
/// checked only when read.
pub struct RawMap {
    pub file: Vec<u8>,
    pub header: Header,
}

impl RawMap {
    pub open spec fn wf(&self) -> bool {
        &&& self.header.wf()
        &&& self.header.version == HLBSP_VERSION
        &&& self.file@.len() >= HEADER_SIZE
        &&& forall|i: int|
            0 <= i < LUMPS_NUM ==> self.header.lumps@[i] == Lump::spec_at(self.file@, 4 + 8 * i)
    }

    /// The directory entry of a lump.
    pub open spec fn spec_lump(&self, t: LumpType) -> Lump {
        self.header.lumps@[t.spec_index() as int]
    }

    /// Parse the container: version check, then the fifteen directory entries.
    pub fn parse(file: &[u8]) -> (r: Result<RawMap, DecodeError>)
        ensures
            match r {
                Ok(m) => header_error(file@) is None && m.wf() && m.file@ == file@,
                Err(e) => header_error(file@) == Some(e),
            },
            file@.len() >= 4 && le_u32_at(file@, 0) != HLBSP_VERSION ==> r
                == Err::<RawMap, DecodeError>(DecodeError::VersionMismatch),
    {
        let header = Header::parse(file)?;
        Ok(RawMap { file: vstd::slice::slice_to_vec(file), header })
    }

    /// The bytes of one lump, or `OutOfBounds` when its region passes the end
    /// of the file.
    pub fn lump_data(&self, lump_type: LumpType) -> (r: Result<&[u8], DecodeError>)
        requires
            self.wf(),
        ensures
            match r {
                Ok(s) => self.spec_lump(lump_type).in_bounds(self.file@.len()) && s@
                    == self.spec_lump(lump_type).spec_data(self.file@) && s@.len()
                    == self.spec_lump(lump_type).length,
                Err(e) => !self.spec_lump(lump_type).in_bounds(self.file@.len()) && e
                    == DecodeError::OutOfBounds,
            },
            self.spec_lump(lump_type).in_bounds(self.file@.len()) ==> r is Ok,
    {
        let lump = self.header.lumps[lump_type.index()];
        lump.read_data(self.file.as_slice())
    }
}

} // verus!
