//! Image-backed textures: a raster of RGB bytes sampled by clamped texel
//! coordinates.
use vstd::prelude::*;

verus! {

/// An RGB image, `nx` texels wide and `ny` high, stored row by row with three
/// bytes per texel.
#[derive(Clone)]
pub struct ImageTexture {
    pub image: Vec<u8>,
    pub nx: u32,
    pub ny: u32,
}

/// Byte offset of texel `(i, j)` once both coordinates are clamped into the
/// image.
pub open spec fn texel_offset(nx: int, ny: int, i: int, j: int) -> int {
    let ci = if i < nx - 1 { i } else { nx - 1 };
    let cj = if j < ny - 1 { j } else { ny - 1 };
    3 * ci + 3 * nx * cj
}

impl ImageTexture {
    /// The image is non-empty and holds exactly three bytes per texel.
    pub open spec fn wf(&self) -> bool {
        &&& self.nx >= 1
        &&& self.ny >= 1
        &&& self.image@.len() == 3 * (self.nx as int) * (self.ny as int)
    }

    /// Wraps a raster of `nx * ny` RGB texels; `None` when the dimensions are
    /// zero or do not match the length of the data.
    pub fn new(image: Vec<u8>, nx: u32, ny: u32) -> (r: Option<ImageTexture>)
        ensures
            r.is_some() <==> (nx >= 1 && ny >= 1 && image@.len() == 3 * (nx as int) * (ny as int)),
            r matches Some(t) ==> t.wf() && t.image@ == image@ && t.nx == nx && t.ny == ny,
    {
        if nx == 0 || ny == 0 {
            return None;
        }
        let n = image.len() as u128;
        assert((nx as int) * (ny as int) <= u64::MAX) by (nonlinear_arith)
            requires
                nx <= u32::MAX,
                ny <= u32::MAX,
        ;
        let area = (nx as u64) * (ny as u64);
        let want = 3 * (area as u128);
        assert(want == 3 * (nx as int) * (ny as int)) by (nonlinear_arith)
            requires
                want == 3 * area,
                area == (nx as int) * (ny as int),
        ;
        if n != want {
            return None;
        }
        Some(ImageTexture { image, nx, ny })
    }

    /// The RGB bytes of texel `(i, j)`, each coordinate clamped to the last
    /// column or row of the image.
    pub fn texel(&self, i: usize, j: usize) -> (r: (u8, u8, u8))
        requires
            self.wf(),
        ensures
            ({
                let off = texel_offset(self.nx as int, self.ny as int, i as int, j as int);
                r == (self.image@[off], self.image@[off + 1], self.image@[off + 2])
            }),
    {
        let nx = self.nx as usize;
        let ny = self.ny as usize;
        let ci = if i < nx - 1 { i } else { nx - 1 };
        let cj = if j < ny - 1 { j } else { ny - 1 };
        let len = self.image.len();
        proof {
            let (x, y, a, b) = (nx as int, ny as int, ci as int, cj as int);
            assert(3 * a + 3 * x * b + 2 < 3 * x * y && 3 * x * b <= 3 * x * y && 3 * x <= 3 * x * y)
                by (nonlinear_arith)
                requires
                    0 <= a < x,
                    0 <= b < y,
            ;
        }
        let row = 3 * nx * cj;
        let index = 3 * ci + row;
        (self.image[index], self.image[index + 1], self.image[index + 2])
    }
}

} // verus!
