use vstd::prelude::*;

verus! {

/// One pixel: red, green and blue, eight bits each.
#[derive(Clone, Copy, Debug, PartialEq, Eq, Structural)]
pub struct Pixel {
    pub r: u8,
    pub g: u8,
    pub b: u8,
}

impl Pixel {
    /// The pixel with the given channels.
    pub fn new(r: u8, g: u8, b: u8) -> (pixel: Self)
        ensures
            pixel == (Pixel { r, g, b }),
    {
        Self { r, g, b }
    }

    /// Black.
    pub fn default() -> (pixel: Self)
        ensures
            pixel == Self::black(),
    {
        Self { r: 0, g: 0, b: 0 }
    }

    /// The pixel whose channels are all zero.
    pub open spec fn black() -> Pixel {
        Pixel { r: 0, g: 0, b: 0 }
    }

    /// The channels: red, green, blue.
    pub fn to_rgb(&self) -> (rgb: (u8, u8, u8))
        ensures
            rgb == (self.r, self.g, self.b),
    {
        (self.r, self.g, self.b)
    }
}

/// Every channel of a pixel lies in `0 ..= 255`.
pub proof fn lemma_channels_in_range(pixel: Pixel)
    ensures
        0 <= pixel.r <= 255,
        0 <= pixel.g <= 255,
        0 <= pixel.b <= 255,
{
}

/// A grid of pixels, kept row by row.
pub struct Image {
    pub data: Vec<Pixel>,
    pub rows: usize,
    pub cols: usize,
}

impl Image {
    /// The grid holds `rows * cols` pixels.
    pub open spec fn wf(&self) -> bool {
        self.data@.len() == self.rows * self.cols
    }

    /// The place of the pixel in row `i` and column `j`.
    pub open spec fn offset(&self, i: int, j: int) -> int {
        i * self.cols + j
    }

    /// A black image, `width` pixels wide and `height` pixels high.
    pub fn new(width: usize, height: usize) -> (image: Self)
        requires
            width * height <= usize::MAX,
        ensures
            image.cols == width,
            image.rows == height,
            image.wf(),
            forall|k: int| 0 <= k < image.data@.len() ==> image.data@[k] == Pixel::black(),
    {
        let mut data: Vec<Pixel> = Vec::new();
        let total = width * height;
        let mut k: usize = 0;
        while k < total
            invariant
                0 <= k <= total,
                data@.len() == k,
                forall|n: int| 0 <= n < k ==> data@[n] == Pixel::black(),
            decreases total - k,
        {
            data.push(Pixel::default());
            k += 1;
        }
        assert(height * width == width * height) by (nonlinear_arith);
        Image { data, rows: height, cols: width }
    }

    /// The pixel in row `i` and column `j`.
    pub fn get(&self, i: usize, j: usize) -> (pixel: &Pixel)
        requires
            0 <= self.offset(i as int, j as int) < self.data@.len(),
        ensures
            *pixel == self.data@[self.offset(i as int, j as int)],
    {
        assert(self.data@.len() == self.data.len() <= usize::MAX);
        &self.data[i * self.cols + j]
    }

    /// Puts `p` in row `i` and column `j`.
    pub fn set(&mut self, i: usize, j: usize, p: Pixel)
        requires
            0 <= old(self).offset(i as int, j as int) < old(self).data@.len(),
        ensures
            final(self).data@ == old(self).data@.update(old(self).offset(i as int, j as int), p),
            final(self).rows == old(self).rows,
            final(self).cols == old(self).cols,
    {
        assert(self.data@.len() == self.data.len() <= usize::MAX);
        let at = i * self.cols + j;
        self.data[at] = p;
    }
}

} // verus!
