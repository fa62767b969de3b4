use crate::decode::{
    decompress, decrypt, decrypted, format_of, masked, prs_decoded, validate_format, Compression,
    SIGNATURE_SIZE,
};
use crate::result::SARError;
use crate::sa::{Color, Position};
use crate::symbol::{Symbol, SymbolId};
use vstd::prelude::*;
use vstd::slice::slice_subrange;

verus! {

/// Number of bytes that the header takes.
pub const HEADER_SIZE: usize = 8;

/// Number of bytes that one layer record takes. The records follow the
/// header back to back.
pub const LAYER_SIZE: usize = 12;

/// The name is cut after this many UTF-16 code units.
pub const NAME_LIMIT: usize = 13;

/// The size byte of a composition of normal size.
pub const HEADER_SIZE_NORMAL: u8 = 0x80;

/// The size byte of a team flag.
pub const HEADER_SIZE_TEAM_FLAG: u8 = 0x40;

/// What a layer's alpha field is multiplied with to fill eight bits.
pub const ALPHA_FACTOR: u8 = 37;

/// What a layer's colour fields are multiplied with to fill eight bits.
pub const COLOR_FACTOR: u8 = 4;

/// The number that four bytes spell in big-endian order.
pub open spec fn be32(b0: u8, b1: u8, b2: u8, b3: u8) -> u32 {
    (b0 * 0x100_0000 + b1 * 0x1_0000 + b2 * 0x100 + b3) as u32
}

/// The number that four bytes spell in little-endian order.
pub open spec fn le32(b0: u8, b1: u8, b2: u8, b3: u8) -> u32 {
    (b0 + b1 * 0x100 + b2 * 0x1_0000 + b3 * 0x100_0000) as u32
}

/// The number that two bytes spell in little-endian order.
pub open spec fn le16(b0: u8, b1: u8) -> u16 {
    (b0 + b1 * 0x100) as u16
}

fn read_be32(b0: u8, b1: u8, b2: u8, b3: u8) -> (v: u32)
    ensures
        v == be32(b0, b1, b2, b3),
{
    let v: u32 = ((b0 as u32) << 24) | ((b1 as u32) << 16) | ((b2 as u32) << 8) | (b3 as u32);
    assert(((b0 as u32) << 24) | ((b1 as u32) << 16) | ((b2 as u32) << 8) | (b3 as u32) == b0
        * 0x100_0000 + b1 * 0x1_0000 + b2 * 0x100 + b3) by (bit_vector);
    v
}

fn read_le32(b0: u8, b1: u8, b2: u8, b3: u8) -> (v: u32)
    ensures
        v == le32(b0, b1, b2, b3),
{
    let v: u32 = (b0 as u32) | ((b1 as u32) << 8) | ((b2 as u32) << 16) | ((b3 as u32) << 24);
    assert((b0 as u32) | ((b1 as u32) << 8) | ((b2 as u32) << 16) | ((b3 as u32) << 24) == b0 + b1
        * 0x100 + b2 * 0x1_0000 + b3 * 0x100_0000) by (bit_vector);
    v
}

fn read_le16(b0: u8, b1: u8) -> (v: u16)
    ensures
        v == le16(b0, b1),
{
    let v: u16 = (b0 as u16) | ((b1 as u16) << 8);
    assert((b0 as u16) | ((b1 as u16) << 8) == b0 + b1 * 0x100) by (bit_vector);
    v
}

/// `value * factor`, or 255 where the product is larger.
pub open spec fn scaled(value: u8, factor: u8) -> u8 {
    if value * factor > 255 {
        255u8
    } else {
        (value * factor) as u8
    }
}

fn saturating_scale(value: u8, factor: u8) -> (v: u8)
    ensures
        v == scaled(value, factor),
{
    assert(value * factor <= 255 * 255) by (nonlinear_arith)
        requires
            value <= 255,
            factor <= 255,
    ;
    let product: u16 = (value as u16) * (factor as u16);
    if product > 255 {
        255
    } else {
        product as u8
    }
}

impl Position {
    /// The position that the first two bytes of `bytes` spell: x, then y.
    pub open spec fn at(bytes: Seq<u8>) -> Position {
        Position { x: bytes[0], y: bytes[1] }
    }

    /// Reads a position from the start of `bytes`.
    pub fn parse(bytes: &[u8]) -> (r: Result<Self, SARError>)
        ensures
            match r {
                Ok(p) => bytes@.len() >= 2 && p == Position::at(bytes@),
                Err(e) => e is Truncated && bytes@.len() < 2,
            },
    {
        if bytes.len() < 2 {
            return Err(SARError::Truncated);
        }
        Ok(Self { x: bytes[0], y: bytes[1] })
    }
}

/// The metadata at the start of a decoded body.
#[derive(Debug, Clone, Copy, PartialEq, Eq, Structural)]
pub struct Header {
    /// Who made the composition.
    pub author_id: u32,
    /// Number of layers in the composition.
    pub layers: u8,
    /// The size byte: tells a normal composition from a team flag.
    pub height: u8,
    /// The byte after the size byte.
    pub width: u8,
    /// Sound effect identifier.
    pub sound_effect: u8,
}

impl Header {
    /// The header that the first eight bytes of `bytes` spell.
    pub open spec fn at(bytes: Seq<u8>) -> Header {
        Header {
            author_id: be32(bytes[0], bytes[1], bytes[2], bytes[3]),
            layers: bytes[4],
            height: bytes[5],
            width: bytes[6],
            sound_effect: bytes[7],
        }
    }

    /// Reads the header from the start of `bytes`.
    pub fn parse(bytes: &[u8]) -> (r: Result<Self, SARError>)
        ensures
            match r {
                Ok(h) => bytes@.len() >= 8 && h == Header::at(bytes@),
                Err(e) => e is Truncated && bytes@.len() < 8,
            },
    {
        if bytes.len() < HEADER_SIZE {
            return Err(SARError::Truncated);
        }
        Ok(
            Header {
                author_id: read_be32(bytes[0], bytes[1], bytes[2], bytes[3]),
                layers: bytes[4],
                height: bytes[5],
                width: bytes[6],
                sound_effect: bytes[7],
            },
        )
    }

    pub fn layers(&self) -> (n: u8)
        ensures
            n == self.layers,
    {
        self.layers
    }
}

/// One placed sprite: where its four corners go, which sprite it is, and
/// its colour as the file stores it.
#[derive(Debug, Clone, Copy, PartialEq, Eq, Structural)]
pub struct Layer {
    /// Top-left position of the layer
    pub top_left: Position,
    /// Bottom-left position of the layer
    pub bottom_left: Position,
    /// Top-right position of the layer
    pub top_right: Position,
    /// Bottom-right position of the layer
    pub bottom_right: Position,
    /// Whether the layer is hidden
    pub is_hidden: bool,
    /// Symbol ID of the layer, ten bits
    pub symbol_id: u16,
    /// Alpha/transparency value of the layer, three bits
    pub alpha: u8,
    /// Red color component, six bits
    pub color_r: u8,
    /// Green color component, six bits
    pub color_g: u8,
    /// Blue color component, six bits
    pub color_b: u8,
}

// Bit masks for layer data
pub const LAYER_IS_HIDDEN: u32 = 0x8000_0000;

pub const MASK_SYMBOL_ID: u32 = 0x7fe0_0000;

pub const MASK_ALPHA: u32 = 0x001c_0000;

pub const MASK_COLOR_R: u32 = 0x0000_003f;

pub const MASK_COLOR_G: u32 = 0x0000_0fc0;

pub const MASK_COLOR_B: u32 = 0x0003_f000;

/// The `width` bits of `data` that start `shift` bits above the lowest, as
/// a number; `scale` is two to the `shift` and `range` two to the `width`.
pub open spec fn field(data: u32, scale: int, range: int) -> int {
    (data as int / scale) % range
}

impl Layer {
    /// Every field fits the number of bits that the file gives it.
    pub open spec fn wf(self) -> bool {
        &&& self.symbol_id <= 1023
        &&& self.alpha <= 7
        &&& self.color_r <= 63
        &&& self.color_g <= 63
        &&& self.color_b <= 63
    }

    /// The layer that the first twelve bytes of `bytes` spell: four
    /// positions, then 32 bits in little-endian order that hold, from the
    /// highest bit down, the hidden flag, ten bits of symbol id, three bits of
    /// alpha and six bits each of blue, green and red.
    pub open spec fn at(bytes: Seq<u8>) -> Layer {
        let data = le32(bytes[8], bytes[9], bytes[10], bytes[11]);
        Layer {
            top_left: Position::at(bytes.subrange(0, 2)),
            bottom_left: Position::at(bytes.subrange(2, 4)),
            top_right: Position::at(bytes.subrange(4, 6)),
            bottom_right: Position::at(bytes.subrange(6, 8)),
            is_hidden: field(data, 0x8000_0000, 2) == 1,
            symbol_id: field(data, 0x20_0000, 0x400) as u16,
            alpha: field(data, 0x4_0000, 8) as u8,
            color_r: field(data, 1, 0x40) as u8,
            color_g: field(data, 0x40, 0x40) as u8,
            color_b: field(data, 0x1000, 0x40) as u8,
        }
    }

    /// Reads a layer from the start of `bytes`.
    pub fn parse(bytes: &[u8]) -> (r: Result<Self, SARError>)
        ensures
            match r {
                Ok(layer) => bytes@.len() >= 12 && layer == Layer::at(bytes@) && layer.wf(),
                Err(e) => e is Truncated && bytes@.len() < 12,
            },
    {
        if bytes.len() < LAYER_SIZE {
            return Err(SARError::Truncated);
        }
        let top_left = match Position::parse(slice_subrange(bytes, 0, 2)) {
            Ok(position) => position,
            Err(e) => return Err(e),
        };
        let bottom_left = match Position::parse(slice_subrange(bytes, 2, 4)) {
            Ok(position) => position,
            Err(e) => return Err(e),
        };
        let top_right = match Position::parse(slice_subrange(bytes, 4, 6)) {
            Ok(position) => position,
            Err(e) => return Err(e),
        };
        let bottom_right = match Position::parse(slice_subrange(bytes, 6, 8)) {
            Ok(position) => position,
            Err(e) => return Err(e),
        };
        let layer_data: u32 = read_le32(bytes[8], bytes[9], bytes[10], bytes[11]);
        Ok(
            Self {
                top_left,
                bottom_left,
                top_right,
                bottom_right,
                is_hidden: Self::extract_is_hidden(layer_data),
                symbol_id: Self::extract_symbol_id(layer_data),
                alpha: Self::extract_alpha(layer_data),
                color_r: Self::extract_color_r(layer_data),
                color_g: Self::extract_color_g(layer_data),
                color_b: Self::extract_color_b(layer_data),
            },
        )
    }

    /// Extracts the hidden flag from the layer data
    pub fn extract_is_hidden(layer_data: u32) -> (hidden: bool)
        ensures
            hidden == (field(layer_data, 0x8000_0000, 2) == 1),
    {
        assert(((layer_data & 0x8000_0000) != 0) == ((layer_data / 0x8000_0000) % 2 == 1))
            by (bit_vector);
        (layer_data & LAYER_IS_HIDDEN) != 0
    }

    /// Extracts the symbol ID from the layer data
    pub fn extract_symbol_id(layer_data: u32) -> (id: u16)
        ensures
            id == field(layer_data, 0x20_0000, 0x400),
            id <= 1023,
    {
        assert((layer_data & 0x7fe0_0000) >> 21 == (layer_data / 0x20_0000) % 0x400)
            by (bit_vector);
        assert((layer_data & 0x7fe0_0000) >> 21 <= 1023) by (bit_vector);
        ((layer_data & MASK_SYMBOL_ID) >> 21) as u16
    }

    /// Extracts the alpha value from the layer data
    pub fn extract_alpha(layer_data: u32) -> (alpha: u8)
        ensures
            alpha == field(layer_data, 0x4_0000, 8),
            alpha <= 7,
    {
        assert((layer_data & 0x001c_0000) >> 18 == (layer_data / 0x4_0000) % 8) by (bit_vector);
        assert((layer_data & 0x001c_0000) >> 18 <= 7) by (bit_vector);
        ((layer_data & MASK_ALPHA) >> 18) as u8
    }

    /// Extracts the red color component from the layer data
    pub fn extract_color_r(layer_data: u32) -> (red: u8)
        ensures
            red == field(layer_data, 1, 0x40),
            red <= 63,
    {
        assert(layer_data & 0x0000_003f == (layer_data / 1) % 0x40) by (bit_vector);
        assert(layer_data & 0x0000_003f <= 63) by (bit_vector);
        (layer_data & MASK_COLOR_R) as u8
    }

    /// Extracts the green color component from the layer data
    pub fn extract_color_g(layer_data: u32) -> (green: u8)
        ensures
            green == field(layer_data, 0x40, 0x40),
            green <= 63,
    {
        assert((layer_data & 0x0000_0fc0) >> 6 == (layer_data / 0x40) % 0x40) by (bit_vector);
        assert((layer_data & 0x0000_0fc0) >> 6 <= 63) by (bit_vector);
        ((layer_data & MASK_COLOR_G) >> 6) as u8
    }

    /// Extracts the blue color component from the layer data
    pub fn extract_color_b(layer_data: u32) -> (blue: u8)
        ensures
            blue == field(layer_data, 0x1000, 0x40),
            blue <= 63,
    {
        assert((layer_data & 0x0003_f000) >> 12 == (layer_data / 0x1000) % 0x40) by (bit_vector);
        assert((layer_data & 0x0003_f000) >> 12 <= 63) by (bit_vector);
        ((layer_data & MASK_COLOR_B) >> 12) as u8
    }

    pub fn top_left(&self) -> (p: Position)
        ensures
            p == self.top_left,
    {
        self.top_left
    }

    pub fn bottom_left(&self) -> (p: Position)
        ensures
            p == self.bottom_left,
    {
        self.bottom_left
    }

    pub fn top_right(&self) -> (p: Position)
        ensures
            p == self.top_right,
    {
        self.top_right
    }

    pub fn bottom_right(&self) -> (p: Position)
        ensures
            p == self.bottom_right,
    {
        self.bottom_right
    }

    pub fn symbol(&self) -> (s: Symbol)
        ensures
            s.id == SymbolId(self.symbol_id as u32),
    {
        Symbol::new(SymbolId::new(self.symbol_id as u32))
    }

    /// The layer's colour in eight bits a channel: alpha times 37 and each
    /// of red, green and blue times 4, none above 255.
    pub open spec fn color_spec(self) -> Color {
        Color {
            a: scaled(self.alpha, ALPHA_FACTOR),
            r: scaled(self.color_r, COLOR_FACTOR),
            g: scaled(self.color_g, COLOR_FACTOR),
            b: scaled(self.color_b, COLOR_FACTOR),
        }
    }

    /// The layer's colour in eight bits a channel.
    pub fn color(&self) -> (c: Color)
        ensures
            c == self.color_spec(),
            self.wf() ==> c.r <= 252 && c.g <= 252 && c.b <= 252,
            self.wf() ==> c.r % 4 == 0 && c.g % 4 == 0 && c.b % 4 == 0,
    {
        let a = saturating_scale(self.alpha, ALPHA_FACTOR);
        let r = saturating_scale(self.color_r, COLOR_FACTOR);
        let g = saturating_scale(self.color_g, COLOR_FACTOR);
        let b = saturating_scale(self.color_b, COLOR_FACTOR);
        Color::new(a, r, g, b)
    }

    pub fn is_hidden(&self) -> (hidden: bool)
        ensures
            hidden == self.is_hidden,
    {
        self.is_hidden
    }
}

/// An expanded colour channel of a layer read from a file is at most 252,
/// and 252 is reached; expanded alpha is 255 for the highest alpha field and
/// 37 times the field below it.
pub proof fn quantization_bound(layer: Layer)
    requires
        layer.wf(),
    ensures
        layer.color_spec().r <= 252,
        layer.color_spec().g <= 252,
        layer.color_spec().b <= 252,
        layer.color_r == 63 ==> layer.color_spec().r == 252,
        layer.color_g == 63 ==> layer.color_spec().g == 252,
        layer.color_b == 63 ==> layer.color_spec().b == 252,
        layer.alpha == 7 ==> layer.color_spec().a == 255,
        layer.alpha < 7 ==> layer.color_spec().a == layer.alpha * 37,
{
}

/// The layers of a composition, first on top.
#[derive(Debug, Clone, PartialEq, Eq)]
pub struct Layers {
    pub layers: Vec<Layer>,
}

impl Layers {
    /// The layers that `bytes` spells: one for every complete record.
    pub open spec fn within(bytes: Seq<u8>) -> Seq<Layer> {
        Seq::new(
            (bytes.len() / 12) as nat,
            |k: int| Layer::at(bytes.subrange(12 * k, 12 * k + 12)),
        )
    }

    /// Reads one layer from every complete record in `bytes`.
    pub fn parse(bytes: &[u8]) -> (r: Result<Self, SARError>)
        ensures
            r matches Ok(l) && l.layers@ == Layers::within(bytes@) && forall|k: int|
                0 <= k < l.layers@.len() ==> (#[trigger] l.layers@[k]).wf(),
    {
        let count: usize = bytes.len() / LAYER_SIZE;
        let mut layers: Vec<Layer> = Vec::with_capacity(count);
        let mut k: usize = 0;
        while k < count
            invariant
                bytes@.len() <= usize::MAX,
                count == bytes@.len() / 12,
                k <= count,
                layers@.len() == k,
                forall|j: int|
                    0 <= j < k ==> layers@[j] == Layer::at(bytes@.subrange(12 * j, 12 * j + 12)),
                forall|j: int| 0 <= j < k ==> (#[trigger] layers@[j]).wf(),
            decreases count - k,
        {
            assert(12 * k + 12 <= bytes@.len()) by {
                assert(12 * (bytes@.len() / 12) <= bytes@.len()) by {
                    vstd::arithmetic::div_mod::lemma_fundamental_div_mod(bytes@.len() as int, 12);
                }
            }
            let record = slice_subrange(bytes, k * LAYER_SIZE, k * LAYER_SIZE + LAYER_SIZE);
            match Layer::parse(record) {
                Ok(layer) => layers.push(layer),
                Err(e) => return Err(e),
            }
            k += 1;
        }
        assert(layers@ =~= Layers::within(bytes@));
        Ok(Self { layers })
    }
}

impl From<Layers> for Vec<Layer> {
    fn from(layers: Layers) -> (v: Self) {
        layers.layers
    }
}

impl vstd::std_specs::convert::FromSpecImpl<Layers> for Vec<Layer> {
    open spec fn obeys_from_spec() -> bool {
        true
    }

    open spec fn from_spec(layers: Layers) -> Self {
        layers.layers
    }
}

/// The mathematical content of a [`Payload`].
pub struct Artwork {
    pub header: Header,
    pub layers: Seq<Layer>,
    pub name: Seq<u16>,
}

/// A decoded composition: header, layers and name.
#[derive(Debug, Clone, PartialEq, Eq)]
pub struct Payload {
    /// The header containing metadata about the SAR file
    pub header: Header,
    /// The layers, first on top; as many as the header says
    pub layers: Vec<Layer>,
    /// Name of the composition in UTF-16 code units, at most 13
    pub name: Vec<u16>,
}

impl View for Payload {
    type V = Artwork;

    open spec fn view(&self) -> Artwork {
        Artwork { header: self.header, layers: self.layers@, name: self.name@ }
    }
}

impl Artwork {
    /// There are as many layers as the header says, each with fields that
    /// fit their bits, and the name is no longer than its limit.
    pub open spec fn wf(self) -> bool {
        &&& self.layers.len() == self.header.layers
        &&& self.name.len() <= 13
        &&& forall|k: int| 0 <= k < self.layers.len() ==> (#[trigger] self.layers[k]).wf()
    }
}

/// Where the layer records of a body with this header end and its name
/// begins.
pub open spec fn layers_end(header: Header) -> int {
    8 + 12 * header.layers
}

/// The name that `bytes` holds from `start` on: one code unit for every
/// complete pair of bytes, low byte first, but no more than thirteen. A
/// `start` past the end gives the empty name.
pub open spec fn name_from(bytes: Seq<u8>, start: int) -> Seq<u16> {
    let from = if start < bytes.len() {
        start
    } else {
        bytes.len() as int
    };
    let pairs = (bytes.len() - from) / 2;
    Seq::new(
        (if pairs < 13 {
            pairs
        } else {
            13
        }) as nat,
        |k: int| le16(bytes[from + 2 * k], bytes[from + 2 * k + 1]),
    )
}

/// The composition that the decoded body `bytes` spells, or `None` where
/// `bytes` ends before the header or before the last layer that the header
/// announces.
pub open spec fn artwork_in(bytes: Seq<u8>) -> Option<Artwork> {
    if bytes.len() < 8 {
        None
    } else {
        let header = Header::at(bytes);
        if bytes.len() < layers_end(header) {
            None
        } else {
            Some(
                Artwork {
                    header,
                    layers: Layers::within(bytes.subrange(8, layers_end(header))),
                    name: name_from(bytes, layers_end(header)),
                },
            )
        }
    }
}

/// What a UTF-16 string reads as, with U+FFFD for every unpaired surrogate.
pub uninterp spec fn utf16_lossy(units: Seq<u16>) -> Seq<char>;

/// `String::from_utf16_lossy`: decodes UTF-16, replacing invalid data with
/// the replacement character.
#[verifier::external_body]
fn string_from_utf16_lossy(units: &[u16]) -> (s: String)
    ensures
        s@ == utf16_lossy(units@),
{
    String::from_utf16_lossy(units)
}

impl Payload {
    pub open spec fn wf(&self) -> bool {
        self@.wf()
    }

    /// Reads a composition from a decoded body.
    pub fn parse(bytes: &[u8]) -> (r: Result<Self, SARError>)
        ensures
            match r {
                Ok(p) => artwork_in(bytes@) == Some(p@) && p.wf() && p.layers@.len()
                    == p.header.layers,
                Err(e) => e is Truncated && artwork_in(bytes@) is None,
            },
    {
        if bytes.len() < HEADER_SIZE {
            return Err(SARError::Truncated);
        }
        let header = match Header::parse(slice_subrange(bytes, 0, HEADER_SIZE)) {
            Ok(header) => header,
            Err(e) => return Err(e),
        };
        assert(bytes@.subrange(0, 8) =~= bytes@.take(8));
        assert(header == Header::at(bytes@));
        let end: usize = HEADER_SIZE + LAYER_SIZE * (header.layers() as usize);
        if bytes.len() < end {
            return Err(SARError::Truncated);
        }
        let layers = match Layers::parse(slice_subrange(bytes, HEADER_SIZE, end)) {
            Ok(layers) => layers,
            Err(e) => return Err(e),
        };
        let name = match Self::parse_name(bytes, &header) {
            Ok(name) => name,
            Err(e) => return Err(e),
        };
        assert(layers.layers@.len() == header.layers);
        Ok(Self { header, layers: layers.layers, name })
    }

    /// Reads the name that follows the layers that `header` announces.
    pub fn parse_name(bytes: &[u8], header: &Header) -> (r: Result<Vec<u16>, SARError>)
        ensures
            r matches Ok(name) && name@ == name_from(bytes@, layers_end(*header)),
    {
        let start: usize = HEADER_SIZE + LAYER_SIZE * (header.layers() as usize);
        let from: usize = if start < bytes.len() {
            start
        } else {
            bytes.len()
        };
        let pairs: usize = (bytes.len() - from) / 2;
        let count: usize = if pairs < NAME_LIMIT {
            pairs
        } else {
            NAME_LIMIT
        };
        let mut name: Vec<u16> = Vec::with_capacity(count);
        let mut k: usize = 0;
        while k < count
            invariant
                bytes@.len() <= usize::MAX,
                from <= bytes@.len(),
                count <= (bytes@.len() - from) / 2,
                k <= count,
                name@.len() == k,
                forall|j: int|
                    0 <= j < k ==> name@[j] == le16(bytes@[from + 2 * j], bytes@[from + 2 * j + 1]),
            decreases count - k,
        {
            assert(from + 2 * k + 1 < bytes@.len()) by {
                assert(2 * ((bytes@.len() - from) / 2) <= bytes@.len() - from) by {
                    vstd::arithmetic::div_mod::lemma_fundamental_div_mod(
                        bytes@.len() - from,
                        2,
                    );
                }
            }
            name.push(read_le16(bytes[from + 2 * k], bytes[from + 2 * k + 1]));
            k += 1;
        }
        assert(name@ =~= name_from(bytes@, layers_end(*header)));
        Ok(name)
    }

    pub fn author_id(&self) -> (id: u32)
        ensures
            id == self.header.author_id,
    {
        self.header.author_id
    }

    /// The height of the view in canvas pixels.
    pub fn height(&self) -> (r: Result<u8, SARError>)
        ensures
            r is Ok <==> view_size(self.header) is Some,
            r matches Ok(h) ==> view_size(self.header) matches Some(size) && h == size.1,
            r matches Err(e) ==> e == SARError::InvalidSize(self.header.height),
    {
        if self.header.height == HEADER_SIZE_NORMAL {
            Ok(96)
        } else if self.header.height == HEADER_SIZE_TEAM_FLAG {
            Ok(32)
        } else {
            Err(SARError::InvalidSize(self.header.height))
        }
    }

    /// The width of the view in canvas pixels.
    pub fn width(&self) -> (r: Result<u8, SARError>)
        ensures
            r is Ok <==> view_size(self.header) is Some,
            r matches Ok(w) ==> view_size(self.header) matches Some(size) && w == size.0,
            r matches Err(e) ==> e == SARError::InvalidSize(self.header.height),
    {
        if self.header.height == HEADER_SIZE_NORMAL {
            Ok(193)
        } else if self.header.height == HEADER_SIZE_TEAM_FLAG {
            Ok(32)
        } else {
            Err(SARError::InvalidSize(self.header.height))
        }
    }

    /// A copy of the layers, first on top.
    pub fn layers(&self) -> (layers: Vec<Layer>)
        ensures
            layers@ == self.layers@,
    {
        let mut layers: Vec<Layer> = Vec::with_capacity(self.layers.len());
        let mut k: usize = 0;
        while k < self.layers.len()
            invariant
                k <= self.layers@.len(),
                layers@ == self.layers@.take(k as int),
            decreases self.layers@.len() - k,
        {
            layers.push(self.layers[k]);
            assert(self.layers@.take(k + 1) =~= self.layers@.take(k as int).push(
                self.layers@[k as int],
            ));
            k += 1;
        }
        assert(self.layers@.take(k as int) =~= self.layers@);
        layers
    }

    /// The name as text.
    pub fn name(&self) -> (name: String)
        ensures
            name@ == utf16_lossy(self.name@),
    {
        string_from_utf16_lossy(self.name.as_slice())
    }
}

/// The width and height of the view that a header's size byte stands for:
/// 193 by 96 for a normal composition, 32 by 32 for a team flag.
pub open spec fn view_size(header: Header) -> Option<(u8, u8)> {
    if header.height == HEADER_SIZE_NORMAL {
        Some((193u8, 96u8))
    } else if header.height == HEADER_SIZE_TEAM_FLAG {
        Some((32u8, 32u8))
    } else {
        None
    }
}

/// The decoded body of the file `bytes`, whose format tag says `compression`:
/// everything after the first four bytes, decrypted and, where the tag says
/// so, unmasked and expanded. `None` where the expansion fails.
pub open spec fn body_of(bytes: Seq<u8>, compression: Compression) -> Option<Seq<u8>> {
    let plain = decrypted(bytes.skip(4));
    match compression {
        Compression::Uncompressed => Some(plain),
        Compression::Compressed => prs_decoded(masked(plain)),
    }
}

/// Checks the signature of a file and decodes its body.
pub fn get_body(bytes: Vec<u8>) -> (r: Result<Vec<u8>, SARError>)
    ensures
        match r {
            Ok(body) => format_of(bytes@) matches Some(c) && body_of(bytes@, c) == Some(body@),
            Err(SARError::InvalidFileHeader) => format_of(bytes@) is None,
            Err(SARError::IoError(_)) => format_of(bytes@) matches Some(c) && body_of(bytes@, c)
                is None,
            Err(_) => false,
        },
{
    let compression = match validate_format(bytes.as_slice()) {
        Ok(compression) => compression,
        Err(e) => return Err(e),
    };
    let mut body: Vec<u8> = vstd::slice::slice_to_vec(
        slice_subrange(bytes.as_slice(), SIGNATURE_SIZE, bytes.len()),
    );
    assert(body@ =~= bytes@.skip(4));
    decrypt(&mut body);
    match compression {
        Compression::Uncompressed => Ok(body),
        Compression::Compressed => decompress(&mut body),
    }
}

/// Whether `r` is what reading the file `bytes` gives: the composition in
/// its decoded body, or the error that tells what is wrong with it.
pub open spec fn parsed(bytes: Seq<u8>, r: Result<Payload, SARError>) -> bool {
    match r {
        Ok(p) => format_of(bytes) matches Some(c) && body_of(bytes, c) matches Some(body)
            && artwork_in(body) == Some(p@),
        Err(SARError::InvalidFileHeader) => format_of(bytes) is None,
        Err(SARError::IoError(_)) => format_of(bytes) matches Some(c) && body_of(bytes, c) is None,
        Err(SARError::Truncated) => format_of(bytes) matches Some(c) && body_of(bytes, c) matches Some(
            body,
        ) && artwork_in(body) is None,
        Err(_) => false,
    }
}

/// Reads a composition from the bytes of a SAR file.
pub fn parse(bytes: Vec<u8>) -> (r: Result<Payload, SARError>)
    ensures
        parsed(bytes@, r),
        r matches Ok(p) ==> p.wf() && p.layers@.len() == p.header.layers,
{
    let body = match get_body(bytes) {
        Ok(body) => body,
        Err(e) => return Err(e),
    };
    Payload::parse(body.as_slice())
}

/// Reading the same bytes twice gives the same composition, or twice an
/// error of the same kind.
pub proof fn parse_is_deterministic(
    bytes: Seq<u8>,
    first: Result<Payload, SARError>,
    second: Result<Payload, SARError>,
)
    requires
        parsed(bytes, first),
        parsed(bytes, second),
    ensures
        first is Ok <==> second is Ok,
        first is Ok ==> first->Ok_0@ == second->Ok_0@,
        first matches Err(e) ==> (e is InvalidFileHeader <==> second->Err_0 is InvalidFileHeader)
            && (e is IoError <==> second->Err_0 is IoError) && (e is Truncated
            <==> second->Err_0 is Truncated),
{
}

/// A file that does not start with `sar` is never read as a composition,
/// whatever follows.
pub proof fn bad_signature_is_rejected(bytes: Seq<u8>, r: Result<Payload, SARError>)
    requires
        parsed(bytes, r),
        bytes.len() < 3 || bytes[0] != 0x73 || bytes[1] != 0x61 || bytes[2] != 0x72,
    ensures
        r matches Err(e) && e is InvalidFileHeader,
{
}

/// A body that holds its header and layers and fewer than 26 bytes after
/// them is read without error, and its name has one code unit for every
/// complete pair of those bytes, which is fewer than thirteen.
pub proof fn short_name_is_kept(body: Seq<u8>)
    requires
        body.len() >= 8,
        body.len() >= layers_end(Header::at(body)),
        body.len() - layers_end(Header::at(body)) < 26,
    ensures
        artwork_in(body) is Some,
        artwork_in(body)->Some_0.name.len() == (body.len() - layers_end(Header::at(body))) / 2,
        artwork_in(body)->Some_0.name.len() < 13,
{
}

/// The layers of a body are its records in file order: layer `i` is what
/// the twelve bytes from byte `8 + 12 * i` on spell.
pub proof fn layers_follow_the_header(body: Seq<u8>, i: int)
    requires
        artwork_in(body) is Some,
        0 <= i < Header::at(body).layers,
    ensures
        artwork_in(body)->Some_0.layers.len() == Header::at(body).layers,
        8 + 12 * i + 12 <= body.len(),
        artwork_in(body)->Some_0.layers[i] == Layer::at(body.subrange(8 + 12 * i, 8 + 12 * i + 12)),
{
    let end = layers_end(Header::at(body));
    let records = body.subrange(8, end);
    assert(records.len() == 12 * Header::at(body).layers);
    assert(records.subrange(12 * i, 12 * i + 12) =~= body.subrange(8 + 12 * i, 8 + 12 * i + 12));
}

/// The name of a body starts right after its last layer: its unit `k` is
/// spelled by the two bytes from byte `8 + 12 * n + 2 * k` on, low byte
/// first, where `n` is the number of layers.
pub proof fn name_follows_the_layers(body: Seq<u8>, k: int)
    requires
        artwork_in(body) is Some,
        0 <= k < artwork_in(body)->Some_0.name.len(),
    ensures
        layers_end(Header::at(body)) + 2 * k + 1 < body.len(),
        artwork_in(body)->Some_0.name[k] == le16(
            body[layers_end(Header::at(body)) + 2 * k],
            body[layers_end(Header::at(body)) + 2 * k + 1],
        ),
{
}

/// A body with 26 bytes or more after its layers has a name of exactly
/// thirteen code units, and no body has a longer one.
pub proof fn long_name_is_cut(body: Seq<u8>)
    requires
        artwork_in(body) is Some,
    ensures
        artwork_in(body)->Some_0.name.len() <= 13,
        body.len() - layers_end(Header::at(body)) >= 26 ==> artwork_in(body)->Some_0.name.len()
            == 13,
{
}

} // verus!
