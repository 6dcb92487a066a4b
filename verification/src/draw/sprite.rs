//! Sprites: decoded pictures copied onto the frame, with alpha as a mask.

use vstd::prelude::*;

use crate::picture::{
    cell, decode_as, format_named, format_of, grid, lemma_cell, picture_data, picture_height,
    picture_is_integral, picture_pixels, picture_width, read_out, Texel,
};
use crate::raster::{frame_len, lemma_paint_push, paint, Plot};
use crate::{pixel_at, Drawable, Point, Rgba};

verus! {

/// A picture and the point at which it is anchored. The picture is held as its width,
/// its height and its pixels row by row from the top, each row from the left, each
/// pixel as its four bytes red, green, blue, alpha. It holds one pixel for each of
/// its places and no more.
pub struct Sprite {
    width: u32,
    height: u32,
    pixels: Vec<[u8; 4]>,
    point: Point,
}

impl Sprite {
    #[verifier::type_invariant]
    spec fn complete(self) -> bool {
        self.pixels@.len() == self.width * self.height
    }

    /// The sprite of the picture that a file of the given name and contents encodes,
    /// anchored at `point`. The extension of the name chooses the format, and without
    /// a format there is no sprite. The result is `None` as well where the decoder
    /// fails on the contents, and where the picture has pixels of floating-point
    /// channels. Which contents decode, and to which pixels, is the decoder's matter:
    /// a sprite that is returned is the sprite of some decoded picture.
    pub fn new(filename: &str, contents: &[u8], point: Point) -> (sprite: Option<Sprite>)
        ensures
            format_named(filename@) is None ==> sprite is None,
            sprite matches Some(s) ==> s.anchor() == point && s.pixels().len() == s.columns()
                * s.rows(),
            sprite matches Some(s) ==> exists|img: image::DynamicImage|
                s.columns() == picture_width(img) && s.rows() == picture_height(img)
                    && s.pixels() == picture_data(
                    picture_width(img),
                    picture_height(img),
                    picture_pixels(img),
                ),
    {
        match format_of(filename) {
            Some(format) => match decode_as(contents, format) {
                Some(img) => {
                    let sprite = Sprite::from_picture(&img, point);
                    // The picture just decoded is the one that the sprite is of.
                    assert(sprite matches Some(s) ==> s.columns() == picture_width(img));
                    sprite
                },
                None => None,
            },
            None => None,
        }
    }

    /// The sprite of a decoded picture, anchored at `point`: it holds the pixels of the
    /// picture, converted to 8-bit RGBA. A picture of floating-point channels gives
    /// `None`, unless it has no pixel at all.
    pub fn from_picture(img: &image::DynamicImage, point: Point) -> (sprite: Option<Sprite>)
        ensures
            sprite is None <==> !picture_is_integral(*img) && picture_width(*img) > 0
                && picture_height(*img) > 0,
            sprite matches Some(s) ==> s.columns() == picture_width(*img) && s.rows()
                == picture_height(*img) && s.pixels() == picture_data(
                picture_width(*img),
                picture_height(*img),
                picture_pixels(*img),
            ) && s.anchor() == point,
    {
        match read_out(img) {
            Some(data) => Sprite::from_pixels(img.width(), img.height(), data, point),
            None => None,
        }
    }

    /// The sprite of a picture of `width` columns and `height` rows, anchored at `point`.
    /// `pixels` holds the pixels row by row from the top, each row from the left; the
    /// result is `None` unless it holds exactly one pixel for each place of the picture.
    pub fn from_pixels(width: u32, height: u32, pixels: Vec<[u8; 4]>, point: Point) -> (sprite:
        Option<Sprite>)
        ensures
            sprite is Some <==> pixels@.len() == width * height,
            sprite matches Some(s) ==> s.columns() == width && s.rows() == height && s.pixels()
                == pixels@ && s.anchor() == point,
    {
        assert(width * height <= 0xffff_ffff * 0xffff_ffff) by (nonlinear_arith)
            requires
                0 <= width <= 0xffff_ffff,
                0 <= height <= 0xffff_ffff,
        ;
        if pixels.len() as u64 == width as u64 * height as u64 {
            Some(Sprite { width, height, pixels, point })
        } else {
            None
        }
    }

    /// The width of the picture.
    pub closed spec fn columns(&self) -> u32 {
        self.width
    }

    /// The height of the picture.
    pub closed spec fn rows(&self) -> u32 {
        self.height
    }

    /// The pixels of the picture, row by row from the top, each row from the left.
    pub closed spec fn pixels(&self) -> Seq<[u8; 4]> {
        self.pixels@
    }

    /// The point at which the picture is anchored.
    pub closed spec fn anchor(&self) -> Point {
        self.point
    }

    /// The pixels of the picture, each with its column and row.
    pub open spec fn texels(&self) -> Seq<Texel> {
        grid(self.columns(), self.pixels())
    }
}

/// Whether a pixel of the picture is copied: all but the fully transparent ones.
pub open spec fn is_visible(pixel: Texel) -> bool {
    pixel.2[3] != 0
}

/// The write that copies a pixel of a picture of `height` rows anchored at `anchor`.
/// Columns count to the right of the anchor. Rows are flipped: row 0 of the picture
/// lies `height` above the anchor, and each further row one lower.
pub open spec fn pixel_plot(height: u32, anchor: Point, pixel: Texel) -> Plot {
    Plot {
        x: pixel.0 + anchor.x,
        y: anchor.y + height - pixel.1,
        rgba: (pixel.2[0], pixel.2[1], pixel.2[2], pixel.2[3]),
    }
}

/// The pixel writes of a sprite: one for each visible pixel of the picture, in the
/// order of the picture's pixels. Alpha only masks; no colour is blended.
pub open spec fn sprite_trace(height: u32, pixels: Seq<Texel>, anchor: Point) -> Seq<Plot> {
    pixels.filter(|p: Texel| is_visible(p)).map_values(|p: Texel| pixel_plot(height, anchor, p))
}

impl Drawable for Sprite {
    open spec fn trace(&self) -> Seq<Plot> {
        sprite_trace(self.rows(), self.texels(), self.anchor())
    }

    /// Copies the visible pixels of the picture, each to its place above the anchor.
    fn draw(&self, frame: &mut [u8]) {
        proof {
            use_type_invariant(self);
        }
        let ghost before = frame@;
        let ghost texels = grid(self.width, self.pixels@);
        let ghost visible = |p: Texel| is_visible(p);
        let ghost plot = |p: Texel| pixel_plot(self.height, self.point, p);
        assert(texels.take(0).filter(visible) =~= Seq::<Texel>::empty()) by {
            reveal(Seq::filter);
        }
        // Column and row of the pixel that is next.
        let mut x: u32 = 0;
        let mut y: u32 = 0;
        for k in 0..self.pixels.len()
            invariant
                frame@.len() == frame_len(),
                self.pixels@.len() == self.width * self.height,
                texels == grid(self.width, self.pixels@),
                visible == |p: Texel| is_visible(p),
                plot == |p: Texel| pixel_plot(self.height, self.point, p),
                k == y * self.width + x,
                self.width == 0 || x < self.width,
                frame@ == paint(before, texels.take(k as int).filter(visible).map_values(plot)),
        {
            let bytes = self.pixels[k];
            proof {
                assert(self.width > 0 && y < self.height) by (nonlinear_arith)
                    requires
                        k == y * self.width + x,
                        k < self.width * self.height,
                        self.width == 0 || x < self.width,
                ;
                lemma_cell(self.width, x, y);
                assert(cell(self.width, k as int) == (x, y));
                let p = texels[k as int];
                assert(p == (x, y, bytes));
                let seen = texels.take(k as int);
                seen.lemma_filter_push(p, visible);
                assert(seen.push(p) =~= texels.take(k + 1));
                if is_visible(p) {
                    lemma_paint_push(before, seen.filter(visible).map_values(plot), plot(p));
                    assert(seen.filter(visible).push(p).map_values(plot) =~= seen.filter(
                        visible,
                    ).map_values(plot).push(plot(p)));
                }
            }
            // A fully transparent pixel is skipped; any other is copied as it is.
            if bytes[3] != 0x00 {
                let c = Rgba::from_pixel(bytes);
                pixel_at(
                    x as i64 + self.point.x as i64,
                    -(y as i64) + self.point.y as i64 + self.height as i64,
                    frame,
                    &c,
                );
            }
            x += 1;
            if x == self.width {
                assert((y + 1) * self.width == y * self.width + self.width) by (nonlinear_arith);
                x = 0;
                y += 1;
            }
        }
        assert(texels.take(self.pixels.len() as int) =~= texels);
    }
}

} // verus!
