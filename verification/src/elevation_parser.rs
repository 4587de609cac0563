//! Decoding raster tiles into elevation fields.
//!
//! An image tile packs one height per pixel into its three colour channels, in
//! centimetres above a floor ten kilometres below zero. Heights decoded from an
//! image are therefore exact whole centimetres.

use crate::error::{PngError, TextError};
use crate::field::{field_offset, FIELD_LEN, FIELD_SIDE};
use crate::text::{text_tokens, token_texts, tokenize};
use vstd::prelude::*;
use vstd::string::*;

verus! {

/// The packed channel value that marks a pixel without a measurement.
pub const NO_DATA: u32 = 8388608;

/// The packed channel value that stands for a height of zero.
pub const ZERO_LEVEL: u32 = 1000000;

/// An image laid out as rows of pixels, three channel bytes per pixel: red,
/// green, blue.
#[derive(Debug)]
pub struct RgbRaster {
    width: u32,
    height: u32,
    pixels: Vec<u8>,
}

/// What a raster holds: its size and its channel bytes, row by row.
pub struct RasterView {
    pub width: u32,
    pub height: u32,
    pub pixels: Seq<u8>,
}

impl View for RgbRaster {
    type V = RasterView;

    closed spec fn view(&self) -> RasterView {
        RasterView { width: self.width, height: self.height, pixels: self.pixels@ }
    }
}

impl RgbRaster {
    #[verifier::type_invariant]
    closed spec fn inv(self) -> bool {
        self.pixels@.len() == 3 * (self.width * self.height)
    }

    /// Takes over `pixels` as an image of the given size, if there are exactly
    /// three bytes for each of its pixels.
    pub fn new(width: u32, height: u32, pixels: Vec<u8>) -> (raster: Option<RgbRaster>)
        ensures
            raster is Some <==> pixels@.len() == 3 * (width * height),
            raster matches Some(r) ==> r@ == (RasterView { width, height, pixels: pixels@ }),
    {
        assert(3 * (width * height) <= 3 * (0xffff_ffff * 0xffff_ffff)) by (nonlinear_arith)
            requires
                0 <= width <= 0xffff_ffff,
                0 <= height <= 0xffff_ffff,
        ;
        let expected: u128 = 3 * ((width as u128) * (height as u128));
        if pixels.len() as u128 == expected {
            Some(RgbRaster { width, height, pixels })
        } else {
            None
        }
    }

    /// Number of pixels per row.
    pub fn width(&self) -> (width: u32)
        ensures
            width == self@.width,
    {
        self.width
    }

    /// Number of rows.
    pub fn height(&self) -> (height: u32)
        ensures
            height == self@.height,
    {
        self.height
    }

    /// The channel bytes, row by row: three for each pixel.
    pub fn pixels(&self) -> (pixels: &[u8])
        ensures
            pixels@ == self@.pixels,
            pixels@.len() == 3 * (self@.width * self@.height),
    {
        proof {
            use_type_invariant(self);
        }
        self.pixels.as_slice()
    }
}

/// The three channels of a pixel read as one 24-bit number, red first.
pub open spec fn packed(red: u8, green: u8, blue: u8) -> int {
    red * 65536 + green * 256 + blue
}

/// Height in centimetres that a packed channel value stands for. A pixel
/// without a measurement counts as height zero.
pub open spec fn centimetres(packed: int) -> int {
    if packed == NO_DATA {
        0
    } else {
        packed - ZERO_LEVEL
    }
}

/// Heights, in centimetres, of the pixels of a raster, in the raster's order.
pub open spec fn raster_heights(pixels: Seq<u8>) -> Seq<i32> {
    Seq::new(
        (pixels.len() / 3) as nat,
        |i: int| centimetres(packed(pixels[3 * i], pixels[3 * i + 1], pixels[3 * i + 2])) as i32,
    )
}

/// The token that marks a cell without a measurement: a lone `e`.
pub open spec fn is_no_data(token: Seq<char>) -> bool {
    token == seq!['e']
}

/// Token `i` can not be given a value: it is not the no-data mark and it does
/// not read as a number.
pub open spec fn unreadable<T>(tokens: Seq<Seq<char>>, readings: Seq<Option<T>>, i: int) -> bool {
    !is_no_data(tokens[i]) && readings[i] is None
}

/// Every one of the first `n` tokens can be given a value.
pub open spec fn readable_before<T>(
    tokens: Seq<Seq<char>>,
    readings: Seq<Option<T>>,
    n: int,
) -> bool {
    forall|j: int| 0 <= j < n ==> !unreadable(tokens, readings, j)
}

/// The value of a token: `no_data` for the no-data mark, else the number that
/// the token reads as.
pub open spec fn token_value<T>(token: Seq<char>, reading: Option<T>, no_data: T) -> T {
    if is_no_data(token) {
        no_data
    } else {
        reading->0
    }
}

/// Position, among the channel bytes of a raster `width` pixels wide, of the
/// first byte of the pixel at (`row`, `column`).
pub open spec fn pixel_offset(width: int, row: int, column: int) -> int {
    3 * (row * width + column)
}

/// The heights read off a field-sized raster are laid out as a field: the
/// sample at (`row`, `column`) is the height of the pixel at that row and
/// column.
pub proof fn lemma_raster_heights_by_cell(pixels: Seq<u8>, row: int, column: int)
    requires
        pixels.len() == 3 * FIELD_LEN,
        0 <= row < FIELD_SIDE,
        0 <= column < FIELD_SIDE,
    ensures
        raster_heights(pixels).len() == FIELD_LEN,
        raster_heights(pixels)[field_offset(row, column)] == centimetres(
            packed(
                pixels[pixel_offset(256, row, column)],
                pixels[pixel_offset(256, row, column) + 1],
                pixels[pixel_offset(256, row, column) + 2],
            ),
        ),
        -1000000 <= raster_heights(pixels)[field_offset(row, column)] <= 15777215,
{
}

/// What decoding an image payload yields: the width, the height and the RGB
/// channel bytes of the image, or nothing when the payload cannot be decoded.
pub uninterp spec fn decoded_rgb(payload: Seq<u8>) -> Option<(u32, u32, Seq<u8>)>;

/// Decodes an image payload to 8-bit RGB with the `image` crate:
/// `io::Reader::new` over a cursor on the payload, `with_guessed_format`,
/// `decode`, then `DynamicImage::to_rgb8`, whose size and raw buffer are
/// handed back.
///
/// Trusted: the outcome depends on the payload alone, and the buffer of a
/// decoded image holds three bytes per pixel. A failure to sniff the format is
/// reported as the decoder's input error.
#[verifier::external_body]
fn decode_rgb(data: &[u8]) -> (decoded: Result<(u32, u32, Vec<u8>), image::ImageError>)
    ensures
        match decoded {
            Ok((width, height, pixels)) => decoded_rgb(data@) == Some((width, height, pixels@))
                && pixels@.len() == 3 * (width * height),
            Err(_) => decoded_rgb(data@) is None,
        },
{
    let reader = image::io::Reader::new(std::io::Cursor::new(data)).with_guessed_format()?;
    let rgb = reader.decode()?.to_rgb8();
    Ok((rgb.width(), rgb.height(), rgb.into_raw()))
}

/// Decoders for elevation tiles.
#[derive(Clone, Copy, Debug)]
pub struct ElevationParser {}

impl ElevationParser {
    /// Height, in centimetres, encoded by one pixel.
    pub fn pixel_height(red: u8, green: u8, blue: u8) -> (height: i32)
        ensures
            height == centimetres(packed(red, green, blue)),
    {
        let combined: u32 = ((red as u32) << 16) | ((green as u32) << 8) | (blue as u32);
        assert(combined == packed(red, green, blue)) by (bit_vector)
            requires
                combined == ((red as u32) << 16) | ((green as u32) << 8) | (blue as u32),
        ;
        if combined == NO_DATA {
            0
        } else {
            combined as i32 - ZERO_LEVEL as i32
        }
    }

    /// Reads the heights off a decoded image. The image must be exactly as
    /// large as an elevation field; pixel (`column`, `row`) becomes the sample
    /// at that row and column of the field.
    pub fn heights_from_rgb(raster: &RgbRaster) -> (result: Result<Vec<i32>, PngError>)
        ensures
            match result {
                Ok(heights) => {
                    &&& raster@.width == FIELD_SIDE
                    &&& raster@.height == FIELD_SIDE
                    &&& heights@ == raster_heights(raster@.pixels)
                    &&& heights@.len() == FIELD_LEN
                },
                Err(PngError::ImageSize { width, height }) => {
                    &&& !(raster@.width == FIELD_SIDE && raster@.height == FIELD_SIDE)
                    &&& width == raster@.width
                    &&& height == raster@.height
                },
                Err(PngError::Undecodable(_)) => false,
            },
    {
        proof {
            use_type_invariant(raster);
        }
        if raster.width != 256 || raster.height != 256 {
            return Err(PngError::ImageSize { width: raster.width, height: raster.height });
        }
        let mut heights: Vec<i32> = Vec::with_capacity(FIELD_LEN);
        let mut i: usize = 0;
        while i < FIELD_LEN
            invariant
                raster.pixels@.len() == 3 * FIELD_LEN,
                i <= FIELD_LEN,
                heights@.len() == i,
                forall|j: int| 0 <= j < i ==> #[trigger] heights@[j] == raster_heights(raster.pixels@)[j],
            decreases FIELD_LEN - i,
        {
            let height: i32 = Self::pixel_height(
                raster.pixels[3 * i],
                raster.pixels[3 * i + 1],
                raster.pixels[3 * i + 2],
            );
            heights.push(height);
            i += 1;
        }
        assert(heights@ =~= raster_heights(raster.pixels@));
        Ok(heights)
    }

    /// Decodes an image tile into an elevation field of whole centimetres.
    ///
    /// The payload must decode to an image that is exactly as large as an
    /// elevation field. Either the whole field is returned or an error; never
    /// a part of a field.
    pub fn parse_png(data: &[u8]) -> (result: Result<Vec<i32>, PngError>)
        ensures
            match result {
                Ok(heights) => {
                    &&& decoded_rgb(data@) matches Some((width, height, pixels))
                    &&& width == FIELD_SIDE
                    &&& height == FIELD_SIDE
                    &&& heights@ == raster_heights(pixels)
                    &&& heights@.len() == FIELD_LEN
                },
                Err(PngError::Undecodable(_)) => decoded_rgb(data@) is None,
                Err(PngError::ImageSize { width, height }) => {
                    &&& decoded_rgb(data@) matches Some((w, h, _))
                    &&& w == width
                    &&& h == height
                    &&& !(w == FIELD_SIDE && h == FIELD_SIDE)
                },
            },
    {
        match decode_rgb(data) {
            Err(report) => Err(PngError::Undecodable(report)),
            Ok((width, height, pixels)) => {
                let raster: RgbRaster = RgbRaster::new(width, height, pixels).unwrap();
                Self::heights_from_rgb(&raster)
            },
        }
    }

    /// Splits a text tile into its tokens, line by line. Blank lines hold no
    /// token; white space around lines and tokens is dropped.
    pub fn tokenize_txt(data: &str) -> (tokens: Vec<String>)
        ensures
            token_texts(tokens@) == text_tokens(data@),
    {
        tokenize(data)
    }

    /// Tells whether a token is the no-data mark.
    pub fn is_no_data_token(token: &str) -> (marked: bool)
        ensures
            marked == is_no_data(token@),
    {
        if token.unicode_len() == 1 {
            let c: char = token.get_char(0);
            assert(c == 'e' ==> token@ =~= seq!['e']);
            c == 'e'
        } else {
            false
        }
    }

    /// Assembles an elevation field from the tokens of a text tile.
    ///
    /// `readings[i]` is the number that `tokens[i]` reads as, or `None` if it
    /// does not read as a number; the caller chooses the number type and does
    /// the reading. A no-data token takes the value `no_data` whatever its
    /// reading says. The first token that can not be given a value fails the
    /// decode; after that the number of values must be that of a whole field.
    pub fn parse_txt<T: Copy>(tokens: &[String], readings: &[Option<T>], no_data: T) -> (result:
        Result<Vec<T>, TextError>)
        requires
            tokens@.len() == readings@.len(),
        ensures
            match result {
                Ok(values) => {
                    &&& readable_before(token_texts(tokens@), readings@, tokens@.len() as int)
                    &&& tokens@.len() == FIELD_LEN
                    &&& values@.len() == FIELD_LEN
                    &&& forall|i: int|
                        0 <= i < FIELD_LEN ==> #[trigger] values@[i] == token_value(
                            tokens@[i]@,
                            readings@[i],
                            no_data,
                        )
                },
                Err(TextError::InvalidToken(text)) => exists|i: int|
                    {
                        &&& 0 <= i < tokens@.len()
                        &&& readable_before(token_texts(tokens@), readings@, i)
                        &&& #[trigger] unreadable(token_texts(tokens@), readings@, i)
                        &&& text@ == tokens@[i]@
                    },
                Err(TextError::ValueCount(found)) => {
                    &&& readable_before(token_texts(tokens@), readings@, tokens@.len() as int)
                    &&& found == tokens@.len()
                    &&& found != FIELD_LEN
                },
            },
    {
        let mut values: Vec<T> = Vec::new();
        let mut i: usize = 0;
        while i < tokens.len()
            invariant
                tokens@.len() == readings@.len(),
                i <= tokens@.len(),
                values@.len() == i,
                readable_before(token_texts(tokens@), readings@, i as int),
                forall|j: int|
                    0 <= j < i ==> #[trigger] values@[j] == token_value(
                        tokens@[j]@,
                        readings@[j],
                        no_data,
                    ),
            decreases tokens@.len() - i,
        {
            if Self::is_no_data_token(tokens[i].as_str()) {
                values.push(no_data);
            } else {
                match readings[i] {
                    Some(value) => {
                        values.push(value);
                    },
                    None => {
                        assert(unreadable(token_texts(tokens@), readings@, i as int));
                        return Err(TextError::InvalidToken(tokens[i].clone()));
                    },
                }
            }
            i += 1;
        }
        if values.len() != FIELD_LEN {
            return Err(TextError::ValueCount(values.len()));
        }
        Ok(values)
    }

    /// Number of samples in an elevation array.
    pub fn get_elevation_array_len<T>(elevations: &[T]) -> (len: usize)
        ensures
            len == elevations@.len(),
    {
        elevations.len()
    }
}

} // verus!
