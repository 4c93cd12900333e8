//! Pictures of the screen.
//!
//! A [`Frame`] holds an RGBA image of the `image` crate. Its model is its rows,
//! top to bottom, each a sequence of pixels, and its width.

use image::GenericImageView;
use vstd::prelude::*;

verus! {

/// A pixel: red, green, blue, alpha.
pub type Pixel = (u8, u8, u8, u8);

/// An 8-bit RGBA picture.
#[verifier::external_body]
pub struct Frame {
    inner: image::RgbaImage,
}

/// What a frame shows: its rows, top to bottom.
pub uninterp spec fn frame_rows(f: Frame) -> Seq<Seq<(u8, u8, u8, u8)>>;

/// How many pixels each of its rows has.
pub uninterp spec fn frame_width(f: Frame) -> nat;

/// What `image::load_from_memory_with_format` makes of bytes in PNG format: the
/// width and the rows of the picture, or the text of the error.
pub uninterp spec fn png_picture(bytes: Seq<u8>) -> Result<
    (nat, Seq<Seq<(u8, u8, u8, u8)>>),
    Seq<char>,
>;

/// All rows have the same width, and width and height fit a `u32`.
pub open spec fn rectangular(rows: Seq<Seq<Pixel>>, width: nat) -> bool {
    &&& width <= u32::MAX
    &&& rows.len() <= u32::MAX
    &&& forall|y: int| 0 <= y < rows.len() ==> (#[trigger] rows[y]).len() == width
}

/// The rectangle of `rows` whose top left corner is `(x, y)`.
pub open spec fn part_of(rows: Seq<Seq<Pixel>>, x: int, y: int, w: nat, h: nat) -> Seq<Seq<Pixel>> {
    Seq::new(h, |j: int| rows[y + j].subrange(x, x + w))
}

/// `rows` with `top` written over it, its top left corner at `(x, y)`.
pub open spec fn pasted(rows: Seq<Seq<Pixel>>, top: Seq<Seq<Pixel>>, x: int, y: int, w: nat) -> Seq<
    Seq<Pixel>,
> {
    Seq::new(
        rows.len(),
        |j: int|
            if y <= j < y + top.len() {
                rows[j].subrange(0, x) + top[j - y] + rows[j].subrange(x + w, rows[j].len() as int)
            } else {
                rows[j]
            },
    )
}

/// A row of `w` transparent black pixels.
pub open spec fn blank_row(w: nat) -> Seq<Pixel> {
    Seq::new(w, |i: int| (0u8, 0u8, 0u8, 0u8))
}

/// The rows of a picture that is stored as four bytes per pixel, row by row.
pub open spec fn rows_of(bytes: Seq<u8>, w: nat, h: nat) -> Seq<Seq<Pixel>> {
    Seq::new(h, |j: int| Seq::new(w, |i: int| pixel_at(bytes, (j * w + i) * 4)))
}

pub open spec fn pixel_at(bytes: Seq<u8>, at: int) -> Pixel {
    (bytes[at], bytes[at + 1], bytes[at + 2], bytes[at + 3])
}

impl Frame {
    pub open spec fn rows(self) -> Seq<Seq<Pixel>> {
        frame_rows(self)
    }

    pub open spec fn wide(self) -> nat {
        frame_width(self)
    }

    pub open spec fn tall(self) -> nat {
        frame_rows(self).len()
    }

    pub open spec fn valid(self) -> bool {
        rectangular(frame_rows(self), frame_width(self))
    }

    /// `RgbaImage::new`: a picture of the given size, every byte zero. It panics
    /// where the buffer, or one row of it, is larger than a vector can be.
    #[verifier::external_body]
    pub(crate) fn blank(width: u32, height: u32) -> (r: Frame)
        requires
            4 * width <= usize::MAX,
            4 * (width as int * height as int) <= isize::MAX,
        ensures
            r.valid(),
            frame_width(r) == width,
            frame_rows(r) == Seq::new(height as nat, |j: int| blank_row(width as nat)),
    {
        Frame { inner: image::RgbaImage::new(width, height) }
    }

    /// `RgbaImage::from_raw`: takes a buffer that holds the pixels row by row, four
    /// bytes each, and refuses one that is too short.
    #[verifier::external_body]
    fn from_raw(width: u32, height: u32, bytes: Vec<u8>) -> (r: Option<Frame>)
        requires
            4 * width <= usize::MAX,
        ensures
            r is Some <==> 4 * (width as int * height as int) <= bytes@.len(),
            r matches Some(f) ==> f.valid() && frame_width(f) == width && frame_rows(f) == rows_of(
                bytes@,
                width as nat,
                height as nat,
            ),
    {
        match image::RgbaImage::from_raw(width, height, bytes) {
            Some(inner) => Some(Frame { inner }),
            None => None,
        }
    }

    /// `RgbaImage::dimensions`: width and height. All rows of a picture have its
    /// width.
    #[verifier::external_body]
    fn size(&self) -> (r: (u32, u32))
        ensures
            r.0 == frame_width(*self),
            r.1 == frame_rows(*self).len(),
            rectangular(frame_rows(*self), r.0 as nat),
    {
        self.inner.dimensions()
    }

    /// `RgbaImage::get_pixel`: the pixel at a position inside the picture. It
    /// panics outside.
    #[verifier::external_body]
    fn read_pixel(&self, x: u32, y: u32) -> (r: (u8, u8, u8, u8))
        requires
            x < frame_width(*self),
            y < frame_rows(*self).len(),
        ensures
            r == frame_rows(*self)[y as int][x as int],
    {
        let p = self.inner.get_pixel(x, y);
        (p[0], p[1], p[2], p[3])
    }

    /// `GenericImageView::view` and `SubImage::to_image`: a copy of a rectangle
    /// that lies inside the picture. `view` panics on one that does not.
    #[verifier::external_body]
    pub(crate) fn part(&self, x: u32, y: u32, w: u32, h: u32) -> (r: Frame)
        requires
            x + w <= frame_width(*self),
            y + h <= frame_rows(*self).len(),
        ensures
            r.valid(),
            frame_width(r) == w,
            frame_rows(r) == part_of(frame_rows(*self), x as int, y as int, w as nat, h as nat),
    {
        Frame { inner: self.inner.view(x, y, w, h).to_image() }
    }

    /// `image::imageops::replace`: writes another picture over this one, its top
    /// left corner at `(x, y)`. Stated where it fits; elsewhere it is clipped.
    #[verifier::external_body]
    pub(crate) fn paste(&mut self, top: &Frame, x: i64, y: i64)
        requires
            0 <= x,
            0 <= y,
            x + frame_width(*top) <= frame_width(*old(self)),
            y + frame_rows(*top).len() <= frame_rows(*old(self)).len(),
        ensures
            frame_width(*final(self)) == frame_width(*old(self)),
            frame_rows(*final(self)) == pasted(
                frame_rows(*old(self)),
                frame_rows(*top),
                x as int,
                y as int,
                frame_width(*top),
            ),
    {
        image::imageops::replace(&mut self.inner, &top.inner, x, y);
    }

    /// `image::load_from_memory_with_format` with the PNG format, and a copy of the
    /// picture's view with every pixel as 8-bit RGBA; the error as its text. The
    /// decoder refuses what takes more than 512 MiB.
    #[verifier::external_body]
    pub(crate) fn from_png(bytes: &[u8]) -> (r: Result<Frame, String>)
        ensures
            match r {
                Ok(f) => f.valid() && png_picture(bytes@) == Ok::<_, Seq<char>>(
                    (frame_width(f), frame_rows(f)),
                ),
                Err(e) => png_picture(bytes@) == Err::<(nat, Seq<Seq<Pixel>>), _>(e@),
            },
    {
        match image::load_from_memory_with_format(bytes, image::ImageFormat::Png) {
            Ok(d) => Ok(Frame { inner: d.view(0, 0, d.width(), d.height()).to_image() }),
            Err(e) => Err(e.to_string()),
        }
    }

    /// A picture from its pixels, row by row, four bytes each. `None` where the
    /// number of bytes does not match the size, or a row is longer than a length
    /// can say.
    pub fn from_rgba(width: u32, height: u32, bytes: Vec<u8>) -> (r: Option<Frame>)
        ensures
            r is Some <==> bytes@.len() == 4 * (width as int * height as int) && 4 * width <= usize::MAX,
            r matches Some(f) ==> f.valid() && f.wide() == width && f.tall() == height && f.rows()
                == rows_of(bytes@, width as nat, height as nat),
    {
        proof {
            assert(0 <= width as int * height as int <= 0xffff_ffff * 0xffff_ffff) by (nonlinear_arith)
                requires
                    0 <= width <= 0xffff_ffff,
                    0 <= height <= 0xffff_ffff,
            ;
        }
        if bytes.len() as u128 != 4 * (width as u128 * height as u128) || 4 * (width as u128)
            > usize::MAX as u128 {
            return None;
        }
        Frame::from_raw(width, height, bytes)
    }

    pub fn dimensions(&self) -> (r: (u32, u32))
        ensures
            r.0 == self.wide(),
            r.1 == self.tall(),
            self.valid(),
    {
        self.size()
    }

    pub fn width(&self) -> (r: u32)
        ensures
            r == self.wide(),
            self.valid(),
    {
        self.size().0
    }

    pub fn height(&self) -> (r: u32)
        ensures
            r == self.tall(),
            self.valid(),
    {
        self.size().1
    }

    pub fn get_pixel(&self, x: u32, y: u32) -> (r: Pixel)
        requires
            x < self.wide(),
            y < self.tall(),
        ensures
            r == self.rows()[y as int][x as int],
    {
        self.read_pixel(x, y)
    }

    /// The pixels row by row, four bytes each.
    pub fn to_rgba(&self) -> (r: Vec<u8>)
        ensures
            r@.len() == 4 * (self.wide() * self.tall()),
            rows_of(r@, self.wide(), self.tall()) == self.rows(),
    {
        let (w, h) = self.size();
        let mut r: Vec<u8> = Vec::new();
        let mut y: u32 = 0;
        while y < h
            invariant
                y <= h,
                w == self.wide(),
                h == self.tall(),
                self.valid(),
                r@.len() == 4 * (w * y),
                forall|j: int, i: int|
                    0 <= j < y && 0 <= i < w ==> pixel_at(r@, (#[trigger] (j * w + i)) * 4)
                        == self.rows()[j][i],
            decreases h - y,
        {
            let mut x: u32 = 0;
            while x < w
                invariant
                    x <= w,
                    y < h,
                    w == self.wide(),
                    h == self.tall(),
                    self.valid(),
                    r@.len() == 4 * (w * y + x),
                    forall|j: int, i: int|
                        (0 <= j < y && 0 <= i < w) || (j == y && 0 <= i < x) ==> pixel_at(
                            r@,
                            (#[trigger] (j * w + i)) * 4,
                        ) == self.rows()[j][i],
                decreases w - x,
            {
                let p = self.read_pixel(x, y);
                let ghost before = r@;
                r.push(p.0);
                r.push(p.1);
                r.push(p.2);
                r.push(p.3);
                proof {
                    assert forall|j: int, i: int|
                        (0 <= j < y && 0 <= i < w) || (j == y && 0 <= i < x + 1) implies pixel_at(
                        r@,
                        (#[trigger] (j * w + i)) * 4,
                    ) == self.rows()[j][i] by {
                        if j == y && i == x {
                            assert(j * w == w * y) by (nonlinear_arith)
                                requires
                                    j == y,
                            ;
                        } else {
                            assert(0 <= j * w + i < w * y + x) by (nonlinear_arith)
                                requires
                                    (0 <= j < y && 0 <= i < w) || (j == y && 0 <= i < x),
                                    0 <= x,
                            ;
                            assert(pixel_at(before, (j * w + i) * 4) == self.rows()[j][i]);
                        }
                    }
                }
                x = x + 1;
            }
            proof {
                assert(w * (y + 1) == w * y + w) by (nonlinear_arith);
            }
            y = y + 1;
        }
        proof {
            let rows = rows_of(r@, self.wide(), self.tall());
            assert forall|j: int| 0 <= j < self.rows().len() implies rows[j] == self.rows()[j] by {
                assert forall|i: int| 0 <= i < w implies rows[j][i] == self.rows()[j][i] by {
                    assert(rows[j][i] == pixel_at(r@, (j * w + i) * 4));
                }
                assert(rows[j] =~= self.rows()[j]);
            }
            assert(rows =~= self.rows());
        }
        r
    }
}

} // verus!
