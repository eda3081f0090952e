use vstd::prelude::*;

verus! {

/// A texture read from an image: `nx` by `ny` pixels, three bytes (red,
/// green, blue) per pixel, row by row from the top.
#[derive(Clone, Debug)]
pub struct ImageTexture {
    data: Vec<u8>,
    nx: u32,
    ny: u32,
}

/// `v` held to `0..=hi`.
pub open spec fn clamp_to(v: int, hi: int) -> int {
    if v < 0 {
        0
    } else if v > hi {
        hi
    } else {
        v
    }
}

impl ImageTexture {
    pub closed spec fn data(&self) -> Seq<u8> {
        self.data@
    }

    pub closed spec fn width(&self) -> nat {
        self.nx as nat
    }

    pub closed spec fn height(&self) -> nat {
        self.ny as nat
    }

    /// The image has at least one pixel and bytes for all of them.
    pub open spec fn wf(&self) -> bool {
        self.width() >= 1 && self.height() >= 1 && self.data().len() >= 3 * self.width()
            * self.height()
    }

    /// Offset in the byte data of the first byte of the pixel that texel
    /// coordinates `(i, j)` select once clamped to the image.
    pub open spec fn texel_offset(&self, i: int, j: int) -> int {
        3 * (clamp_to(i, self.width() - 1) + self.width() * clamp_to(j, self.height() - 1))
    }

    pub fn new(pixels: Vec<u8>, nx: u32, ny: u32) -> (r: ImageTexture)
        requires
            nx >= 1,
            ny >= 1,
            pixels@.len() >= 3 * nx * ny,
        ensures
            r.wf(),
            r.data() == pixels@,
            r.width() == nx,
            r.height() == ny,
    {
        ImageTexture { data: pixels, nx: nx, ny: ny }
    }

    /// Width of the image in pixels.
    pub fn nx(&self) -> (r: u32)
        ensures
            r == self.width(),
    {
        self.nx
    }

    /// Height of the image in pixels.
    pub fn ny(&self) -> (r: u32)
        ensures
            r == self.height(),
    {
        self.ny
    }

    /// The colour bytes of the pixel in column `i` and row `j`, where both are
    /// first clamped to the image so that any coordinates select a pixel.
    pub fn texel(&self, i: i32, j: i32) -> (r: (u8, u8, u8))
        requires
            self.wf(),
        ensures
            ({
                let o = self.texel_offset(i as int, j as int);
                r == (self.data()[o], self.data()[o + 1], self.data()[o + 2])
            }),
    {
        let ci: u32 = if i < 0 {
            0
        } else if i as u32 > self.nx - 1 {
            self.nx - 1
        } else {
            i as u32
        };
        let cj: u32 = if j < 0 {
            0
        } else if j as u32 > self.ny - 1 {
            self.ny - 1
        } else {
            j as u32
        };
        let len = self.data.len();
        proof {
            let w = self.nx as int;
            let h = self.ny as int;
            vstd::arithmetic::mul::lemma_mul_inequality(cj as int, h - 1, w);
            vstd::arithmetic::mul::lemma_mul_is_distributive_sub_other_way(w, h, 1);
            vstd::arithmetic::mul::lemma_mul_is_commutative(w, cj as int);
            vstd::arithmetic::mul::lemma_mul_is_associative(3, w, h);
            assert(ci as int + w * cj as int <= w * h - 1);
            assert(3 * (ci as int + w * cj as int) + 2 < self.data@.len());
        }
        let row: usize = self.nx as usize * cj as usize;
        let base: usize = 3 * (ci as usize + row);
        (self.data[base], self.data[base + 1], self.data[base + 2])
    }
}

} // verus!
