use super::image::{Image, Pixel};
use crate::runtime::runtime::{Job, Manager, WorkConfig};
use std::sync::Arc;
use vstd::prelude::*;

verus! {

/// The coordinates of the pixels of a grid, row by row: (row, column).
pub open spec fn grid(width: nat, height: nat) -> Seq<(usize, usize)> {
    Seq::new(
        width * height,
        |k: int| ((k / width as int) as usize, (k % width as int) as usize),
    )
}

/// In a grid that is `width` wide, the pixel in row `i` and column `j`
/// stands at `i * width + j`.
pub proof fn lemma_grid_at(width: nat, height: nat, i: int, j: int)
    requires
        0 <= i < height,
        0 <= j < width,
        width * height <= usize::MAX,
    ensures
        0 <= i * width + j < width * height,
        grid(width, height)[i * width + j] == (i as usize, j as usize),
{
    assert(0 <= i * width && i * width + width <= width * height) by (nonlinear_arith)
        requires
            0 <= i < height,
            0 <= width,
    ;
    vstd::arithmetic::div_mod::lemma_fundamental_div_mod_converse(
        i * width + j,
        width as int,
        i,
        j,
    );
    assert(i <= usize::MAX && j <= usize::MAX) by (nonlinear_arith)
        requires
            0 <= i < height,
            0 <= j < width,
            width * height <= usize::MAX,
    ;
}

/// All pixel coordinates of a grid, row by row.
pub fn pixel_indexes(width: usize, height: usize) -> (indexes: Vec<(usize, usize)>)
    requires
        width * height <= usize::MAX,
    ensures
        indexes@ == grid(width as nat, height as nat),
{
    let mut indexes: Vec<(usize, usize)> = Vec::new();
    let mut i: usize = 0;
    while i < height
        invariant
            0 <= i <= height,
            width * height <= usize::MAX,
            indexes@.len() == i * width,
            forall|k: int|
                0 <= k < indexes@.len() ==> indexes@[k] == grid(width as nat, height as nat)[k],
        decreases height - i,
    {
        let mut j: usize = 0;
        while j < width
            invariant
                0 <= i < height,
                0 <= j <= width,
                width * height <= usize::MAX,
                indexes@.len() == i * width + j,
                forall|k: int|
                    0 <= k < indexes@.len() ==> indexes@[k] == grid(width as nat, height as nat)[k],
            decreases width - j,
        {
            proof {
                lemma_grid_at(width as nat, height as nat, i as int, j as int);
            }
            let idx = (i, j);
            indexes.push(idx);
            j += 1;
        }
        assert((i + 1) * width == i * width + width) by (nonlinear_arith);
        i += 1;
    }
    assert(indexes@.len() == width * height) by (nonlinear_arith)
        requires
            indexes@.len() == i * width,
            i == height,
    ;
    indexes
}

/// Renders an image by running a job on the coordinates of every pixel.
pub struct Renderer<WC: WorkConfig<Input = (usize, usize), Output = Pixel>> {
    job: Arc<WC::Job>,
    image_width: usize,
    image_height: usize,
}

impl<WC> Renderer<WC> where WC: WorkConfig<Input = (usize, usize), Output = Pixel> {
    /// The job that computes a pixel from its coordinates.
    pub closed spec fn job(&self) -> WC::Job {
        *self.job
    }

    /// The width of the image, in pixels.
    pub closed spec fn width(&self) -> usize {
        self.image_width
    }

    /// The height of the image, in pixels.
    pub closed spec fn height(&self) -> usize {
        self.image_height
    }

    /// The image can be rendered: its pixels can be counted, and their
    /// number fits the scheduler's configuration.
    pub open spec fn renderable(&self) -> bool {
        &&& self.width() * self.height() <= usize::MAX
        &&& Manager::<WC>::valid_config((self.width() * self.height()) as nat)
    }

    /// A renderer for images of the given size.
    pub fn new(job: WC::Job, image_width: usize, image_height: usize) -> (renderer: Self)
        ensures
            renderer.job() == job,
            renderer.width() == image_width,
            renderer.height() == image_height,
    {
        Self { job: Arc::new(job), image_width, image_height }
    }

    /// Whether `render` may be called.
    pub fn can_render(&self) -> (ok: bool)
        ensures
            ok == self.renderable(),
    {
        match self.image_width.checked_mul(self.image_height) {
            Some(total) => Manager::<WC>::accepts(total),
            None => false,
        }
    }

    /// Runs the job on every pixel's coordinates and lays the results out
    /// as an image of the renderer's width and height.
    pub fn render(&self) -> (image: Image)
        requires
            self.renderable(),
        ensures
            image.cols == self.width(),
            image.rows == self.height(),
            image.wf(),
            forall|i: int, j: int|
                0 <= i < self.height() && 0 <= j < self.width() ==> self.job().produces(
                    (i as usize, j as usize),
                    #[trigger] image.data@[image.offset(i, j)],
                ),
            forall|k: int|
                0 <= k < image.data@.len() ==> {
                    &&& 0 <= (#[trigger] image.data@[k]).r <= 255
                    &&& 0 <= image.data@[k].g <= 255
                    &&& 0 <= image.data@[k].b <= 255
                },
    {
        let (w, h) = (self.image_width, self.image_height);
        let indexes = pixel_indexes(w, h);
        let mut result = Image::new(w, h);
        result.data = Manager::<WC>::run(&self.job, indexes);
        proof {
            assert(h * w == w * h) by (nonlinear_arith);
            assert forall|i: int, j: int| 0 <= i < h && 0 <= j < w implies self.job().produces(
                (i as usize, j as usize),
                #[trigger] result.data@[result.offset(i, j)],
            ) by {
                lemma_grid_at(w as nat, h as nat, i, j);
            }
        }
        result
    }
}

} // verus!
