//! The six square faces of a sky cubemap, checked to share one size.
use vstd::prelude::*;

verus! {

/// Number of faces of a cubemap.
pub const SIDES_NUM: usize = 6;

/// One decoded face image: RGBA bytes, row by row.
pub struct SideImage {
    pub width: u32,
    pub height: u32,
    pub rgba: Vec<u8>,
}

#[derive(Debug, Clone, Copy, PartialEq, Eq, Structural)]
pub enum CubemapError {
    /// A face whose width differs from the first face's.
    DifferentDimension { got: u32, expected: u32 },
    /// A face that is not square.
    NotSquare { width: u32, height: u32 },
}

/// What is wrong with face `i`, measured against the first face's width.
pub open spec fn side_error(sides: Seq<SideImage>, i: int) -> Option<CubemapError> {
    if i > 0 && sides[i].width != sides[0].width {
        Some(CubemapError::DifferentDimension { got: sides[i].width, expected: sides[0].width })
    } else if sides[i].width != sides[i].height {
        Some(CubemapError::NotSquare { width: sides[i].width, height: sides[i].height })
    } else {
        None
    }
}

/// A cubemap of six square faces of one dimension.
pub struct Cubemap {
    pub dimension: u32,
    pub sides: Vec<Vec<u8>>,
}

impl Cubemap {
    /// Assemble the faces, in the order right, left, up, down, back, front.
    /// Fails at the first face that is not square or whose width differs from
    /// the first face's.
    pub fn from_sides(sides: Vec<SideImage>) -> (r: Result<Cubemap, CubemapError>)
        requires
            sides@.len() == SIDES_NUM,
        ensures
            match r {
                Ok(c) => {
                    &&& forall|i: int| 0 <= i < SIDES_NUM ==> side_error(sides@, i) is None
                    &&& c.dimension == sides@[0].width
                    &&& c.sides@.len() == SIDES_NUM
                    &&& forall|i: int| 0 <= i < SIDES_NUM ==> (#[trigger] c.sides@[i])@ == sides@[i].rgba@
                },
                Err(e) => exists|i: int|
                    0 <= i < SIDES_NUM && side_error(sides@, i) == Some(e) && forall|j: int|
                        0 <= j < i ==> (#[trigger] side_error(sides@, j)) is None,
            },
    {
        let dimension = sides[0].width;
        let mut out: Vec<Vec<u8>> = Vec::with_capacity(SIDES_NUM);
        let mut i: usize = 0;
        while i < SIDES_NUM
            invariant
                sides@.len() == SIDES_NUM,
                dimension == sides@[0].width,
                i <= SIDES_NUM,
                out@.len() == i,
                forall|j: int| 0 <= j < i ==> (#[trigger] side_error(sides@, j)) is None,
                forall|j: int| 0 <= j < i ==> (#[trigger] out@[j])@ == sides@[j].rgba@,
            decreases SIDES_NUM - i,
        {
            let side = &sides[i];
            if i > 0 && side.width != dimension {
                assert(side_error(sides@, i as int) == Some(
                    CubemapError::DifferentDimension { got: side.width, expected: dimension },
                ));
                return Err(CubemapError::DifferentDimension { got: side.width, expected: dimension });
            }
            if side.width != side.height {
                assert(side_error(sides@, i as int) == Some(
                    CubemapError::NotSquare { width: side.width, height: side.height },
                ));
                return Err(CubemapError::NotSquare { width: side.width, height: side.height });
            }
            out.push(side.rgba.clone());
            i = i + 1;
        }
        Ok(Cubemap { dimension, sides: out })
    }

    pub fn dimension(&self) -> (r: u32)
        ensures
            r == self.dimension,
    {
        self.dimension
    }

    pub fn sides(&self) -> (r: &[Vec<u8>])
        ensures
            r@ == self.sides@,
    {
        self.sides.as_slice()
    }
}

} // verus!
