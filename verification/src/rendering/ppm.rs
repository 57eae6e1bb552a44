use super::image::{Image, Pixel};
use vstd::prelude::*;

verus! {

/// The byte of a blank.
pub const SPACE: u8 = 32;

/// The byte that ends a line.
pub const NEWLINE: u8 = 10;

/// The decimal digits of `n` as text, the most significant first.
pub open spec fn decimal(n: nat) -> Seq<u8>
    decreases n,
{
    if n < 10 {
        seq![(n + 48) as u8]
    } else {
        decimal(n / 10).push((n % 10 + 48) as u8)
    }
}

/// The parts in order, with `sep` between each two of them.
pub open spec fn joined(parts: Seq<Seq<u8>>, sep: u8) -> Seq<u8>
    decreases parts.len(),
{
    if parts.len() == 0 {
        Seq::empty()
    } else if parts.len() == 1 {
        parts[0]
    } else {
        joined(parts.drop_last(), sep).push(sep) + parts.last()
    }
}

/// A pixel as text: its three channels in decimal, blanks between them.
pub open spec fn pixel_text(pixel: Pixel) -> Seq<u8> {
    joined(
        seq![decimal(pixel.r as nat), decimal(pixel.g as nat), decimal(pixel.b as nat)],
        SPACE,
    )
}

/// Row `r` of an image as text: its pixels from left to right, blanks
/// between them.
pub open spec fn row_text(image: Image, r: int) -> Seq<u8> {
    joined(Seq::new(image.cols as nat, |c: int| pixel_text(image.data@[image.offset(r, c)])), SPACE)
}

/// The first lines of a plain-text pixmap: the format's mark, the width and
/// the height, and the greatest channel value.
pub open spec fn header_text(image: Image) -> Seq<u8> {
    seq![80u8, 51u8, NEWLINE] + decimal(image.cols as nat) + seq![SPACE] + decimal(
        image.rows as nat,
    ) + seq![NEWLINE, 50u8, 53u8, 53u8, NEWLINE]
}

/// An image as a plain-text pixmap: the header, then the rows from top to
/// bottom, one on a line.
pub open spec fn ppm_text(image: Image) -> Seq<u8> {
    header_text(image) + joined(Seq::new(image.rows as nat, |r: int| row_text(image, r)), NEWLINE)
}

/// Joining one part more: the separator comes between, not before the first.
pub proof fn lemma_joined_next(parts: Seq<Seq<u8>>, sep: u8, next: Seq<u8>)
    ensures
        joined(parts.push(next), sep) == if parts.len() == 0 {
            next
        } else {
            joined(parts, sep).push(sep) + next
        },
{
    assert(parts.push(next).drop_last() =~= parts);
}

/// Appends the decimal digits of `n`.
fn push_decimal(out: &mut Vec<u8>, n: usize)
    ensures
        final(out)@ == old(out)@ + decimal(n as nat),
    decreases n,
{
    if n >= 10 {
        push_decimal(out, n / 10);
    }
    let digit: u8 = (n % 10) as u8;
    out.push(digit + 48);
    assert(out@ =~= old(out)@ + decimal(n as nat));
}

/// Appends a pixel as text.
fn push_pixel(out: &mut Vec<u8>, pixel: &Pixel)
    ensures
        final(out)@ == old(out)@ + pixel_text(*pixel),
{
    push_decimal(out, pixel.r as usize);
    out.push(SPACE);
    push_decimal(out, pixel.g as usize);
    out.push(SPACE);
    push_decimal(out, pixel.b as usize);
    proof {
        let r = decimal(pixel.r as nat);
        let g = decimal(pixel.g as nat);
        let b = decimal(pixel.b as nat);
        lemma_joined_next(seq![r, g], SPACE, b);
        lemma_joined_next(seq![r], SPACE, g);
        assert(seq![r, g, b] =~= seq![r, g].push(b));
        assert(seq![r, g] =~= seq![r].push(g));
        assert(out@ =~= old(out)@ + pixel_text(*pixel));
    }
}

impl Image {
    /// The image as a plain-text pixmap.
    pub fn to_ppm(&self) -> (text: Vec<u8>)
        requires
            self.rows * self.cols <= self.data@.len(),
        ensures
            text@ == ppm_text(*self),
    {
        let mut out: Vec<u8> = Vec::new();
        out.push(80);
        out.push(51);
        out.push(NEWLINE);
        push_decimal(&mut out, self.cols);
        out.push(SPACE);
        push_decimal(&mut out, self.rows);
        out.push(NEWLINE);
        out.push(50);
        out.push(53);
        out.push(53);
        out.push(NEWLINE);
        assert(out@ =~= header_text(*self));
        let ghost rows = Seq::new(self.rows as nat, |r: int| row_text(*self, r));
        let mut r: usize = 0;
        while r < self.rows
            invariant
                self.rows * self.cols <= self.data@.len(),
                0 <= r <= self.rows,
                rows == Seq::new(self.rows as nat, |r: int| row_text(*self, r)),
                out@ == header_text(*self) + joined(rows.subrange(0, r as int), NEWLINE),
            decreases self.rows - r,
        {
            if r > 0 {
                out.push(NEWLINE);
            }
            let ghost before = out@;
            let ghost pixels = Seq::new(
                self.cols as nat,
                |c: int| pixel_text(self.data@[self.offset(r as int, c)]),
            );
            let mut c: usize = 0;
            while c < self.cols
                invariant
                    self.rows * self.cols <= self.data@.len(),
                    0 <= r < self.rows,
                    0 <= c <= self.cols,
                    pixels == Seq::new(
                        self.cols as nat,
                        |c: int| pixel_text(self.data@[self.offset(r as int, c)]),
                    ),
                    out@ == before + joined(pixels.subrange(0, c as int), SPACE),
                decreases self.cols - c,
            {
                if c > 0 {
                    out.push(SPACE);
                }
                proof {
                    assert(0 <= r * self.cols && r * self.cols + self.cols <= self.rows * self.cols)
                        by (nonlinear_arith)
                        requires
                            0 <= r < self.rows,
                            0 <= self.cols,
                    ;
                    assert(self.data@.len() == self.data.len());
                    lemma_joined_next(pixels.subrange(0, c as int), SPACE, pixels[c as int]);
                    assert(pixels.subrange(0, c + 1) =~= pixels.subrange(0, c as int).push(
                        pixels[c as int],
                    ));
                }
                push_pixel(&mut out, &self.data[r * self.cols + c]);
                c += 1;
            }
            proof {
                assert(pixels.subrange(0, self.cols as int) =~= pixels);
                lemma_joined_next(rows.subrange(0, r as int), NEWLINE, rows[r as int]);
                assert(rows.subrange(0, r + 1) =~= rows.subrange(0, r as int).push(rows[r as int]));
            }
            r += 1;
        }
        assert(rows.subrange(0, self.rows as int) =~= rows);
        out
    }
}

} // verus!
