use crate::canvas::{Canvas, Raster};
use crate::result::SARError;
use crate::sa::Color;
use crate::symbol::SymbolId;
use vstd::prelude::*;

verus! {

/// Width and height of one sprite in its sheet.
pub const SYMBOL_PIXELS: u32 = 64;

/// Number of sprites in one row of a sheet.
pub const SYMBOL_WIDTH_NUM: u32 = 16;

/// The four sheets that the sprites are tiled in. The pixels of `R`, `G` and
/// `B` are masks that take the layer's colour; those of `Color` are used as
/// they are.
#[derive(Debug, Clone, Copy, PartialEq, Eq, Hash, Structural)]
pub enum ImageSheet {
    R,
    G,
    B,
    Color,
}

/// The place of a sprite: its sheet and the number of its cell, counted
/// row by row.
#[derive(Debug, Clone, Copy, PartialEq, Eq, Structural)]
pub struct ImageIndex {
    pub sheet: ImageSheet,
    pub index: u32,
}

/// The rows that a band of symbol ids skips: none up to `second`, one from
/// there up to `third`, two after `third`; `third` itself skips none.
pub open spec fn skipped_cells(id: u32, second: u32, third: u32) -> int {
    if second <= id < third {
        16
    } else if id > third {
        32
    } else {
        0
    }
}

/// The cell that holds the sprite of a symbol, if any sheet does:
/// ids 1 to 80 lie in sheet `R`, 240 to 480 in `G`, 481 to 720 in `B` and
/// 721 to 768 in `Color`.
pub open spec fn atlas_cell(id: u32) -> Option<ImageIndex> {
    if 1 <= id <= 80 {
        Some(ImageIndex { sheet: ImageSheet::R, index: (id - 1) as u32 })
    } else if 240 <= id <= 480 {
        Some(
            ImageIndex {
                sheet: ImageSheet::G,
                index: (id - 240 - skipped_cells(id, 305, 400)) as u32,
            },
        )
    } else if 481 <= id <= 720 {
        Some(
            ImageIndex {
                sheet: ImageSheet::B,
                index: (id - 480 - skipped_cells(id, 561, 641)) as u32,
            },
        )
    } else if 721 <= id <= 768 {
        Some(ImageIndex { sheet: ImageSheet::Color, index: (id - 720) as u32 })
    } else {
        None
    }
}

/// Every cell that holds a sprite has a number below 768.
pub proof fn atlas_cells_are_bounded(id: u32)
    ensures
        atlas_cell(id) matches Some(cell) ==> cell.index < 768,
{
}

impl ImageIndex {
    /// Looks a symbol up in the atlas.
    pub fn get(id: SymbolId) -> (r: Option<Self>)
        ensures
            r == atlas_cell(id.0),
    {
        let id: u32 = id.id();
        if 1 <= id && id <= 80 {
            Some(Self { sheet: ImageSheet::R, index: id - 1 })
        } else if 240 <= id && id <= 480 {
            let offset: u32 = if 305 <= id && id < 400 {
                240 + 16
            } else if id > 400 {
                240 + 16 * 2
            } else {
                240
            };
            Some(Self { sheet: ImageSheet::G, index: id - offset })
        } else if 481 <= id && id <= 720 {
            let offset: u32 = if 561 <= id && id < 641 {
                480 + 16
            } else if id > 641 {
                480 + 16 * 2
            } else {
                480
            };
            Some(Self { sheet: ImageSheet::B, index: id - offset })
        } else if 721 <= id && id <= 768 {
            Some(Self { sheet: ImageSheet::Color, index: id - 720 })
        } else {
            None
        }
    }

    /// The column and row, in pixels, of the top-left corner of the cell.
    pub open spec fn origin(self) -> (nat, nat) {
        ((self.index % 16 * 64) as nat, (self.index / 16 * 64) as nat)
    }
}

/// A sprite cut from its sheet, under the name of the sheet.
#[derive(Debug, Clone, PartialEq, Eq)]
pub enum Image {
    R(Canvas),
    G(Canvas),
    B(Canvas),
    Color(Canvas),
}

impl Image {
    /// The sheet that the sprite was cut from.
    pub open spec fn sheet(&self) -> ImageSheet {
        match self {
            Image::R(_) => ImageSheet::R,
            Image::G(_) => ImageSheet::G,
            Image::B(_) => ImageSheet::B,
            Image::Color(_) => ImageSheet::Color,
        }
    }

    /// The sprite's pixels.
    pub open spec fn canvas(&self) -> Canvas {
        match self {
            Image::R(image) => *image,
            Image::G(image) => *image,
            Image::B(image) => *image,
            Image::Color(image) => *image,
        }
    }

    pub fn inner(&self) -> (image: &Canvas)
        ensures
            *image == self.canvas(),
    {
        match self {
            Image::R(image) => image,
            Image::G(image) => image,
            Image::B(image) => image,
            Image::Color(image) => image,
        }
    }

    pub fn new_with_sheet(image: Canvas, index: ImageIndex) -> (r: Self)
        ensures
            r.sheet() == index.sheet,
            r.canvas() == image,
    {
        match index.sheet {
            ImageSheet::R => Self::R(image),
            ImageSheet::G => Self::G(image),
            ImageSheet::B => Self::B(image),
            ImageSheet::Color => Self::Color(image),
        }
    }

    /// Whether the sprite keeps its own colours instead of taking the
    /// layer's.
    pub fn is_color(&self) -> (yes: bool)
        ensures
            yes == (self.sheet() == ImageSheet::Color),
    {
        match self {
            Image::Color(_) => true,
            _ => false,
        }
    }
}

/// `image::guess_format`, `image::load_from_memory_with_format`, `DynamicImage::to_rgba8`: decodes
/// an image file in memory as the format that its first bytes tell, to RGBA with eight bits a
/// channel. What comes back depends on `bytes` only; an image has one pixel for every position.
#[verifier::external_body]
fn decode_sheet(bytes: &[u8]) -> (r: Result<Canvas, image::ImageError>)
    ensures
        r matches Ok(sheet) ==> sheet.wf() && image_decoded(bytes@) == Some(sheet@),
        r is Err ==> image_decoded(bytes@) is None,
{
    let sheet = image::load_from_memory_with_format(bytes, image::guess_format(bytes)?)?.to_rgba8();
    let pixels = sheet.pixels().map(|p| Color { r: p.0[0], g: p.0[1], b: p.0[2], a: p.0[3] });
    Ok(Canvas { width: sheet.width(), height: sheet.height(), pixels: pixels.collect() })
}

/// The four sprite sheets.
#[derive(Debug, Clone, PartialEq, Eq)]
pub struct Resource {
    pub r: Canvas,
    pub g: Canvas,
    pub b: Canvas,
    pub color: Canvas,
}

impl Resource {
    /// Every sheet holds one pixel for every position.
    pub open spec fn wf(&self) -> bool {
        self.r.wf() && self.g.wf() && self.b.wf() && self.color.wf()
    }

    /// The pixels of one of the sheets.
    pub open spec fn sheet(&self, sheet: ImageSheet) -> Raster {
        match sheet {
            ImageSheet::R => self.r@,
            ImageSheet::G => self.g@,
            ImageSheet::B => self.b@,
            ImageSheet::Color => self.color@,
        }
    }

    /// The sprite of a symbol: the part of its sheet that lies in its cell,
    /// which is smaller than the cell where the sheet ends inside it. `None`
    /// where no sheet holds the symbol.
    pub open spec fn sprite(&self, id: u32) -> Option<Raster> {
        match atlas_cell(id) {
            Some(cell) => Some(
                self.sheet(cell.sheet).crop(cell.origin().0, cell.origin().1, 64, 64),
            ),
            None => None,
        }
    }

    /// Decodes the four sheets from image files held in memory; fails where one does not decode.
    pub fn new(r: &[u8], g: &[u8], b: &[u8], color: &[u8]) -> (res: Result<Self, SARError>)
        ensures
            match res {
                Ok(resource) => {
                    &&& resource.wf()
                    &&& image_decoded(r@) == Some(resource.r@)
                    &&& image_decoded(g@) == Some(resource.g@)
                    &&& image_decoded(b@) == Some(resource.b@)
                    &&& image_decoded(color@) == Some(resource.color@)
                },
                Err(e) => {
                    &&& e is ImageError
                    &&& image_decoded(r@) is None || image_decoded(g@) is None || image_decoded(b@)
                        is None || image_decoded(color@) is None
                },
            },
    {
        let r = match decode_sheet(r) {
            Ok(sheet) => sheet,
            Err(e) => return Err(SARError::ImageError(e)),
        };
        let g = match decode_sheet(g) {
            Ok(sheet) => sheet,
            Err(e) => return Err(SARError::ImageError(e)),
        };
        let b = match decode_sheet(b) {
            Ok(sheet) => sheet,
            Err(e) => return Err(SARError::ImageError(e)),
        };
        let color = match decode_sheet(color) {
            Ok(sheet) => sheet,
            Err(e) => return Err(SARError::ImageError(e)),
        };
        Ok(Self::from_sheets(r, g, b, color))
    }

    /// Takes the four sheets as they are.
    pub fn from_sheets(r: Canvas, g: Canvas, b: Canvas, color: Canvas) -> (resource: Self)
        ensures
            resource == (Resource { r, g, b, color }),
    {
        Self { r, g, b, color }
    }

    /// Cuts the sprite of a symbol from its sheet.
    pub fn get_image(&self, id: SymbolId) -> (r: Option<Image>)
        requires
            self.wf(),
        ensures
            match r {
                Some(image) => atlas_cell(id.0) matches Some(cell) && image.sheet() == cell.sheet
                    && image.canvas().wf() && Some(image.canvas()@) == self.sprite(id.0),
                None => atlas_cell(id.0) is None,
            },
    {
        let index = match ImageIndex::get(id) {
            Some(index) => index,
            None => return None,
        };
        proof {
            atlas_cells_are_bounded(id.0);
        }
        let (x, y) = Self::get_coordinates(&index);
        let sheet: &Canvas = match index.sheet {
            ImageSheet::R => &self.r,
            ImageSheet::G => &self.g,
            ImageSheet::B => &self.b,
            ImageSheet::Color => &self.color,
        };
        let image = sheet.crop(x, y, SYMBOL_PIXELS, SYMBOL_PIXELS);
        Some(Image::new_with_sheet(image, index))
    }

    /// The column and row, in pixels, of the top-left corner of a cell.
    pub fn get_coordinates(index: &ImageIndex) -> (at: (u32, u32))
        requires
            index.index / 16 * 64 <= u32::MAX,
        ensures
            at.0 == index.origin().0,
            at.1 == index.origin().1,
    {
        let x: u32 = index.index % SYMBOL_WIDTH_NUM * SYMBOL_PIXELS;
        let y: u32 = index.index / SYMBOL_WIDTH_NUM * SYMBOL_PIXELS;
        (x, y)
    }
}

/// What the image file `bytes` holds, as RGBA with eight bits a channel: its
/// size and its pixels row by row. `None` where the first bytes tell no
/// format that the library is built with, or where the file does not decode.
pub uninterp spec fn image_decoded(bytes: Seq<u8>) -> Option<Raster>;

} // verus!
