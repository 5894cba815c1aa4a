use vstd::prelude::*;

verus! {

/// Bytes per texel: red, green and blue.
pub const BYTES_PER_PIXEL: i32 = 3;

/// `x` held to the closed range `[lo, hi]`.
pub open spec fn clamp_int(x: int, lo: int, hi: int) -> int {
    if x < lo {
        lo
    } else if x > hi {
        hi
    } else {
        x
    }
}

/// Width, height and byte count that make a well-formed RGB raster whose sizes
/// fit the texture's signed 32-bit addressing.
pub open spec fn valid_raster(len: int, width: int, height: int) -> bool {
    &&& 1 <= width
    &&& 1 <= height
    &&& BYTES_PER_PIXEL * width <= i32::MAX
    &&& height <= i32::MAX
    &&& len == BYTES_PER_PIXEL * width * height
}

/// Offset of the first byte of texel `(i, j)` in a raster of `width` by
/// `height` texels, stored row by row, once both coordinates are clamped into
/// the raster (nearest texel at the border).
pub open spec fn texel_offset(width: int, height: int, i: int, j: int) -> int {
    clamp_int(j, 0, height - 1) * (BYTES_PER_PIXEL * width) + clamp_int(i, 0, width - 1)
        * BYTES_PER_PIXEL
}

/// A texture backed by a raster of 8-bit RGB texels, stored row by row from the
/// top.
pub struct ImageTecture {
    data: Vec<u8>,
    width: i32,
    height: i32,
    bytes_per_scanline: i32,
}

impl ImageTecture {
    #[verifier::type_invariant]
    spec fn inv(self) -> bool {
        &&& valid_raster(self.data@.len() as int, self.width as int, self.height as int)
        &&& self.bytes_per_scanline == BYTES_PER_PIXEL * self.width
        &&& self.data@.len() <= usize::MAX
    }

    /// The raster's bytes.
    pub closed spec fn texels(self) -> Seq<u8> {
        self.data@
    }

    /// Width in texels.
    pub closed spec fn spec_width(self) -> int {
        self.width as int
    }

    /// Height in texels.
    pub closed spec fn spec_height(self) -> int {
        self.height as int
    }

    /// A texture over `data`, `width` by `height` RGB texels stored row by row.
    /// There is none when the sizes do not describe such a raster.
    pub fn new(data: Vec<u8>, width: u32, height: u32) -> (r: Option<ImageTecture>)
        ensures
            r.is_some() <==> valid_raster(data@.len() as int, width as int, height as int),
            r matches Some(t) ==> {
                &&& t.texels() == data@
                &&& t.spec_width() == width
                &&& t.spec_height() == height
            },
    {
        if width < 1 || height < 1 || 3 * (width as u64) > i32::MAX as u64 || height as u64
            > i32::MAX as u64 {
            return None;
        }
        proof {
            assert(3 * (width as int) * (height as int) <= (i32::MAX as int) * (i32::MAX as int))
                by (nonlinear_arith)
                requires
                    3 * width <= i32::MAX,
                    height <= i32::MAX,
            ;
        }
        let expected: u64 = 3 * (width as u64) * (height as u64);
        if data.len() as u64 != expected {
            return None;
        }
        let w: i32 = width as i32;
        Some(ImageTecture { data, width: w, height: height as i32, bytes_per_scanline: 3 * w })
    }

    /// Width in texels.
    pub fn width(&self) -> (r: i32)
        ensures
            r == self.spec_width(),
            r >= 1,
    {
        proof {
            use_type_invariant(self);
        }
        self.width
    }

    /// Height in texels.
    pub fn height(&self) -> (r: i32)
        ensures
            r == self.spec_height(),
            r >= 1,
    {
        proof {
            use_type_invariant(self);
        }
        self.height
    }

    /// The red, green and blue bytes of texel `(i, j)`, column `i` and row `j`
    /// from the top; coordinates outside the raster are clamped to its border.
    pub fn get_pixel(&self, i: i32, j: i32) -> (r: (u8, u8, u8))
        ensures
            ({
                let o = texel_offset(self.spec_width(), self.spec_height(), i as int, j as int);
                r == (self.texels()[o], self.texels()[o + 1], self.texels()[o + 2])
            }),
    {
        proof {
            use_type_invariant(self);
        }
        let ci: i32 = if i < 0 {
            0
        } else if i > self.width - 1 {
            self.width - 1
        } else {
            i
        };
        let cj: i32 = if j < 0 {
            0
        } else if j > self.height - 1 {
            self.height - 1
        } else {
            j
        };
        proof {
            let w = self.width as int;
            let h = self.height as int;
            assert(cj as int * (3 * w) + ci as int * 3 + 2 < 3 * w * h
                && 0 <= cj as int * (3 * w)) by (nonlinear_arith)
                requires
                    0 <= cj < h,
                    0 <= ci < w,
            ;
            assert(self.data@.len() == 3 * w * h);
            assert(self.bytes_per_scanline as int == 3 * w);
            assert((cj as usize) as int * (self.bytes_per_scanline as usize) as int == cj as int * (3 * w));
        }
        let row_start: usize = (cj as usize) * (self.bytes_per_scanline as usize);
        let index: usize = row_start + (ci as usize) * 3;
        (self.data[index], self.data[index + 1], self.data[index + 2])
    }
}

} // verus!
