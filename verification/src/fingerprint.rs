//! The fingerprint of a decoded image.
//!
//! A fingerprint is a similarity digest: images that look alike tend to have
//! equal or close fingerprints, and nothing is claimed of how rarely two
//! different images share one.

use vstd::prelude::*;

verus! {

/// The side of the square of frequencies from which a fingerprint takes its
/// bits: 8 by 8, one bit for each.
pub const FINGERPRINT_SIDE: u32 = 8;

/// The number of letters of a fingerprint: 64 bits and one byte that tells the
/// kind of digest, in base 64.
pub const FINGERPRINT_LENGTH: usize = 12;

/// A decoded image reduced to grey levels, one byte for each pixel, row by row
/// from the top left.
#[derive(Debug, PartialEq, Eq)]
pub struct PixelGrid {
    width: u32,
    height: u32,
    pixels: Vec<u8>,
}

/// The mathematical content of a [`PixelGrid`].
pub struct GridView {
    pub width: nat,
    pub height: nat,
    pub pixels: Seq<u8>,
}

/// The greatest number that the image library can use to find a pixel: it
/// counts the pixels of an image in 32 bits.
pub const MAX_PIXELS: u64 = 0xffff_ffff;

/// The number of rows of the grid that an image is reduced to before its
/// frequencies are taken: four for each row of the fingerprint's square.
pub const WORKING_ROWS: u64 = 32;

/// A grid has at least one pixel, and as many grey levels as its width and
/// height ask for. It has no more pixels than the image library can count,
/// and its rows are no longer than lets the library count the pixels of the
/// image that it makes on the way, which has as many columns as the grid and
/// `WORKING_ROWS` rows.
pub open spec fn grid_shape(width: nat, height: nat, len: nat) -> bool {
    &&& width > 0
    &&& height > 0
    &&& len == width * height
    &&& width * height <= MAX_PIXELS
    &&& width * WORKING_ROWS <= MAX_PIXELS
}

impl View for PixelGrid {
    type V = GridView;

    closed spec fn view(&self) -> GridView {
        GridView {
            width: self.width as nat,
            height: self.height as nat,
            pixels: self.pixels@,
        }
    }
}

impl PixelGrid {
    #[verifier::type_invariant]
    spec fn well_formed(&self) -> bool {
        grid_shape(self.width as nat, self.height as nat, self.pixels@.len())
    }

    /// Makes a grid from its width, its height and its grey levels. There is
    /// a grid exactly when neither side is 0, `pixels` holds one level for
    /// each pixel, and the image is not larger than `grid_shape` allows.
    pub fn new(width: u32, height: u32, pixels: Vec<u8>) -> (grid: Option<PixelGrid>)
        ensures
            grid is Some <==> grid_shape(width as nat, height as nat, pixels@.len()),
            grid matches Some(g) ==> g@ == (GridView {
                width: width as nat,
                height: height as nat,
                pixels: pixels@,
            }),
    {
        assert(width * height <= 0xffff_ffff * 0xffff_ffff) by (nonlinear_arith)
            requires
                0 <= width <= 0xffff_ffff,
                0 <= height <= 0xffff_ffff,
        ;
        let area: u64 = (width as u64) * (height as u64);
        if width > 0 && height > 0 && pixels.len() as u64 == area && area <= MAX_PIXELS && (
        width as u64) * WORKING_ROWS <= MAX_PIXELS {
            Some(PixelGrid { width, height, pixels })
        } else {
            None
        }
    }

    /// The number of pixels in a row.
    pub fn width(&self) -> (width: u32)
        ensures
            width == self@.width,
    {
        self.width
    }

    /// The number of rows.
    pub fn height(&self) -> (height: u32)
        ensures
            height == self@.height,
    {
        self.height
    }

    /// The grey levels, row by row.
    pub fn pixels(&self) -> (pixels: &Vec<u8>)
        ensures
            pixels@ == self@.pixels,
    {
        &self.pixels
    }
}

/// The text that `img_hash` gives for a grey image of the given width, height
/// and levels: `ImageHash::hash` with `HashType::DCT` and a hash size of `side`,
/// rendered by `ImageHash::to_base64`. It depends on these values alone.
pub uninterp spec fn dct_hash_text(side: nat, width: nat, height: nat, pixels: Seq<u8>) -> Seq<char>;

/// The fingerprint of a grid: its frequency digest over the fixed side.
pub open spec fn fingerprint_of(grid: GridView) -> Seq<char> {
    dct_hash_text(FINGERPRINT_SIDE as nat, grid.width, grid.height, grid.pixels)
}

/// Calls `img_hash::ImageHash::hash` with `HashType::DCT` on the grid as an
/// `image::GrayImage`, and renders the hash with `ImageHash::to_base64`.
///
/// Trusted: the text is the one that `dct_hash_text` names, which says that
/// the hash is a function of the hash size and the pixels alone. The grid has
/// no empty side and holds a level for each pixel, so that the image can be
/// built and resized. The `image` crate finds a pixel by its row times the
/// width plus its column, in 32 bits; the grid has no more pixels than that
/// holds, and neither has the image of the grid's width and four times `side`
/// rows that resizing makes on the way. With a hash size of 8 the hash has 64 bits; `to_base64`
/// puts one byte for the kind of hash in front of their 8 bytes and renders
/// the 9 bytes as 12 letters.
#[verifier::external_body]
fn dct_hash(grid: &PixelGrid, side: u32) -> (text: String)
    requires
        grid.well_formed(),
        1 <= side <= 64,
        grid@.width * (4 * side) <= MAX_PIXELS,
    ensures
        text@ == dct_hash_text(side as nat, grid@.width, grid@.height, grid@.pixels),
        side == 8 ==> text@.len() == 12,
{
    let image = image::GrayImage::from_raw(grid.width, grid.height, grid.pixels.clone()).unwrap();
    img_hash::ImageHash::hash(&image, side, img_hash::HashType::DCT).to_base64()
}

/// Computes the fingerprint of a decoded image.
pub fn fingerprint(grid: &PixelGrid) -> (text: String)
    ensures
        text@ == fingerprint_of(grid@),
        text@.len() == FINGERPRINT_LENGTH,
{
    proof {
        use_type_invariant(grid);
    }
    dct_hash(grid, FINGERPRINT_SIDE)
}

/// Grids of equal content have equal fingerprints: computing the fingerprint
/// again, from the same pixels, gives the same text.
pub proof fn lemma_fingerprint_deterministic(first: PixelGrid, second: PixelGrid)
    requires
        first@ == second@,
    ensures
        fingerprint_of(first@) == fingerprint_of(second@),
{
}

} // verus!
