use crate::canvas::{
    blend, lemma_crop_inside, lemma_index_in_bounds, lemma_row_major, over, transparent, Canvas,
    Raster,
};
use crate::payload::{view_size, Layer, Payload};
use crate::resource::{atlas_cell, ImageSheet, Resource, SYMBOL_PIXELS};
use crate::result::SARError;
use crate::sa::Color;
use crate::symbol::SymbolId;
use imageproc::geometric_transformations::{warp_into, Interpolation};
use vstd::prelude::*;

verus! {

/// `imageproc`'s projective transformation, carried through unopened.
#[verifier::external_type_specification]
#[verifier::external_body]
pub struct ExProjection(imageproc::geometric_transformations::Projection);

/// Width of the canvas that the layers' positions refer to.
pub const CANVAS_WIDTH: u32 = 256;

/// Height of the canvas that the layers' positions refer to.
pub const CANVAS_HEIGHT: u32 = 256;

/// How a sprite is coloured.
#[derive(Debug, Clone, Copy, PartialEq, Eq, Structural)]
pub enum RenderColor {
    /// Every pixel that the sprite covers takes this colour.
    Color(Color),
    /// Every pixel that the sprite covers takes the sprite's colour there.
    Sprite,
}

/// What becomes of the pixel `base` under the sprite pixel `symbol`: where
/// the sprite has any alpha, the colour is laid over it, else it stays.
pub open spec fn paint_pixel(base: Color, symbol: Color, color: RenderColor) -> Color {
    if symbol.a > 0 {
        match color {
            RenderColor::Color(c) => over(base, c),
            RenderColor::Sprite => over(base, symbol),
        }
    } else {
        base
    }
}

/// `base` with the sprite `symbol` painted onto it, position by position.
pub open spec fn painted(base: Raster, symbol: Raster, color: RenderColor) -> Raster {
    Raster {
        width: base.width,
        height: base.height,
        pixels: Seq::new(
            base.pixels.len(),
            |i: int|
                paint_pixel(
                    base.pixels[i],
                    symbol.at(i % (base.width as int), i / (base.width as int)),
                    color,
                ),
        ),
    }
}

/// The corners of a sprite in its own pixels: top-left, top-right,
/// bottom-right, bottom-left.
pub open spec fn source_square() -> Seq<(u32, u32)> {
    seq![(0u32, 0u32), (64u32, 0u32), (64u32, 64u32), (0u32, 64u32)]
}

/// The corners that a layer puts its sprite's corners on, in the same order.
pub open spec fn quad(layer: Layer) -> Seq<(u32, u32)> {
    seq![
        (layer.top_left.x as u32, layer.top_left.y as u32),
        (layer.top_right.x as u32, layer.top_right.y as u32),
        (layer.bottom_right.x as u32, layer.bottom_right.y as u32),
        (layer.bottom_left.x as u32, layer.bottom_left.y as u32),
    ]
}

/// The points that the projection of a layer is made from: the corners of
/// the sprite, and the corners of the layer that they go to.
pub fn control_points(layer: &Layer) -> (points: ([(u32, u32); 4], [(u32, u32); 4]))
    ensures
        points.0@ == source_square(),
        points.1@ == quad(*layer),
{
    let from: [(u32, u32); 4] = [
        (0, 0),
        (SYMBOL_PIXELS, 0),
        (SYMBOL_PIXELS, SYMBOL_PIXELS),
        (0, SYMBOL_PIXELS),
    ];
    let to: [(u32, u32); 4] = [
        (layer.top_left.x as u32, layer.top_left.y as u32),
        (layer.top_right.x as u32, layer.top_right.y as u32),
        (layer.bottom_right.x as u32, layer.bottom_right.y as u32),
        (layer.bottom_left.x as u32, layer.bottom_left.y as u32),
    ];
    assert(from@ =~= source_square());
    assert(to@ =~= quad(*layer));
    (from, to)
}

/// How the sprite of a layer is coloured: with the layer's colour where it
/// comes from a mask sheet, with its own where it comes from the colour
/// sheet. `None` where no sheet holds the layer's symbol.
pub open spec fn paint_of(layer: Layer) -> Option<RenderColor> {
    match atlas_cell(layer.symbol_id as u32) {
        Some(cell) => Some(
            if cell.sheet == ImageSheet::Color {
                RenderColor::Sprite
            } else {
                RenderColor::Color(layer.color_spec())
            },
        ),
        None => None,
    }
}

/// A layer is drawn if it is not hidden, a sheet holds its symbol and its
/// corners admit a projection.
pub open spec fn draws(layer: Layer, projected: bool) -> bool {
    !layer.is_hidden && paint_of(layer) is Some && projected
}

/// A layer fails if it is not hidden and yet cannot be drawn.
pub open spec fn fails(layer: Layer, projected: bool) -> bool {
    !layer.is_hidden && !(paint_of(layer) is Some && projected)
}

/// Whether `e` is the error that tells why `layer` cannot be drawn: the
/// missing symbol, or else the corners that admit no projection.
pub open spec fn reports(e: SARError, layer: Layer) -> bool {
    match e {
        SARError::SymbolNotFound(id) => paint_of(layer) is None && id == SymbolId(
            layer.symbol_id as u32,
        ),
        SARError::ProjectionError(from, to) => paint_of(layer) is Some && from@ == source_square()
            && to@ == quad(layer),
        _ => false,
    }
}

/// The failing layer that is met first when the layers are gone through
/// from the last to the first.
pub open spec fn first_failure(layers: Seq<Layer>, projected: Seq<bool>) -> Option<Layer>
    decreases layers.len(),
{
    if layers.len() == 0 {
        None
    } else if fails(layers.last(), projected.last()) {
        Some(layers.last())
    } else {
        first_failure(layers.drop_last(), projected.drop_last())
    }
}

/// Whether a layer with this warped sprite leaves a mark at all.
pub open spec fn marks(layer: Layer, warp: Option<Raster>) -> bool {
    !layer.is_hidden && paint_of(layer) is Some && warp is Some
}

/// `below` with one layer drawn onto it, whose sprite was warped to `warp`.
pub open spec fn stamped(below: Raster, layer: Layer, warp: Option<Raster>) -> Raster {
    if marks(layer, warp) {
        painted(below, warp->Some_0, paint_of(layer)->Some_0)
    } else {
        below
    }
}

/// The canvas after all layers are drawn, the last one first and the first
/// one last, each over what the ones after it left.
pub open spec fn composite(
    layers: Seq<Layer>,
    warps: Seq<Option<Raster>>,
    width: nat,
    height: nat,
) -> Raster
    decreases layers.len(),
{
    if layers.len() == 0 {
        Raster::blank(width, height)
    } else {
        stamped(
            composite(layers.drop_first(), warps.drop_first(), width, height),
            layers[0],
            warps[0],
        )
    }
}

/// The part of a canvas that is seen: a rectangle of the given size around
/// its centre.
pub open spec fn view_of(canvas: Raster, width: nat, height: nat) -> Raster {
    canvas.crop(
        (canvas.width / 2 - width / 2) as nat,
        (canvas.height / 2 - height / 2) as nat,
        width,
        height,
    )
}

/// Whether `warp` can be what warping `sprite` onto a canvas of the given
/// size gave: it has that size, and each of its pixels is transparent or a
/// pixel of the sprite.
pub open spec fn warped_from(warp: Raster, sprite: Raster, width: nat, height: nat) -> bool {
    &&& warp.wf()
    &&& warp.width == width
    &&& warp.height == height
    &&& forall|i: int|
        0 <= i < warp.pixels.len() ==> #[trigger] warp.pixels[i] == transparent()
            || sprite.pixels.contains(warp.pixels[i])
}

/// For each projection, whether there is one.
pub open spec fn present(projections: Seq<Option<imageproc::geometric_transformations::Projection>>) -> Seq<bool> {
    Seq::new(projections.len(), |i: int| projections[i] is Some)
}

/// What `imageproc` makes of `sprite` under `projection` on a transparent
/// image of the given size, taking for each pixel the nearest one of the
/// sprite.
pub uninterp spec fn warped(sprite: Raster, projection: imageproc::geometric_transformations::Projection, width: nat, height: nat) -> Raster;

/// `imageproc::geometric_transformations::warp_into` with nearest-neighbour
/// interpolation and a transparent default, into a fresh image of the given
/// size. The result depends on the sprite, the projection and the size only,
/// and each of its pixels is the default or a pixel of `sprite`. The function
/// divides the output into rows, so the width is not 0; the output's four
/// bytes a pixel have to fit an allocation.
#[verifier::external_body]
fn warp_sprite(sprite: &Canvas, projection: &imageproc::geometric_transformations::Projection, width: u32, height: u32) -> (out: Canvas)
    requires
        sprite.wf(),
        0 < width,
        4 * width * height <= isize::MAX,
    ensures
        out@ == warped(sprite@, *projection, width as nat, height as nat),
        warped_from(out@, sprite@, width as nat, height as nat),
{
    let data = sprite.pixels.iter().flat_map(|c| [c.r, c.g, c.b, c.a]).collect();
    let source = image::RgbaImage::from_raw(sprite.width, sprite.height, data).unwrap();
    let mut out = image::RgbaImage::new(width, height);
    warp_into(&source, projection, Interpolation::Nearest, image::Rgba([0; 4]), &mut out);
    let pixels = out.pixels().map(|p| Color { r: p.0[0], g: p.0[1], b: p.0[2], a: p.0[3] });
    Canvas { width, height, pixels: pixels.collect() }
}

/// The warped sprite of a layer on a canvas of the given size, for a layer
/// that is drawn; `None` for one that is not.
pub open spec fn warp_of(
    resource: Resource,
    layer: Layer,
    projection: Option<imageproc::geometric_transformations::Projection>,
    width: nat,
    height: nat,
) -> Option<Raster> {
    if draws(layer, projection is Some) {
        Some(
            warped(
                resource.sprite(layer.symbol_id as u32)->Some_0,
                projection->Some_0,
                width,
                height,
            ),
        )
    } else {
        None
    }
}

/// The warped sprite of every layer.
pub open spec fn warps_of(
    resource: Resource,
    layers: Seq<Layer>,
    projections: Seq<Option<imageproc::geometric_transformations::Projection>>,
    width: nat,
    height: nat,
) -> Seq<Option<Raster>> {
    Seq::new(layers.len(), |i: int| warp_of(resource, layers[i], projections[i], width, height))
}

/// Whether every warped sprite has the size of the canvas and no pixel but
/// transparent ones and those of its sprite.
pub open spec fn warps_keep_to_sprites(
    resource: Resource,
    layers: Seq<Layer>,
    projections: Seq<Option<imageproc::geometric_transformations::Projection>>,
    width: nat,
    height: nat,
) -> bool {
    forall|i: int|
        0 <= i < layers.len() && draws(layers[i], (#[trigger] projections[i]) is Some)
            ==> warped_from(
            warp_of(resource, layers[i], projections[i], width, height)->Some_0,
            resource.sprite(layers[i].symbol_id as u32)->Some_0,
            width,
            height,
        )
}

/// Renders compositions with the sprites of a [`Resource`].
#[derive(Debug, Clone, PartialEq, Eq)]
pub struct SymbolArtDrawer {
    /// The sprite sheets.
    pub resource: Resource,
    /// Whether a layer that cannot be drawn is left out instead of failing
    /// the whole rendering.
    pub suppress_failure: bool,
}

impl SymbolArtDrawer {
    pub open spec fn wf(&self) -> bool {
        self.resource.wf()
    }

    /// A drawer that leaves out the layers that it cannot draw.
    pub fn new(resource: Resource) -> (drawer: Self)
        ensures
            drawer == (SymbolArtDrawer { resource, suppress_failure: true }),
    {
        Self { resource, suppress_failure: true }
    }

    /// Says whether a layer that cannot be drawn fails the rendering.
    pub fn with_raise_error(self, raise_error: bool) -> (drawer: Self)
        ensures
            drawer == (SymbolArtDrawer { resource: self.resource, suppress_failure: !raise_error }),
    {
        let mut drawer = self;
        drawer.suppress_failure = !raise_error;
        drawer
    }

    /// Paints the warped sprite `symbol` onto `base`.
    pub fn render_symbol(base: &mut Canvas, symbol: &Canvas, color: RenderColor)
        requires
            old(base).wf(),
            symbol.wf(),
            symbol.width >= old(base).width,
            symbol.height >= old(base).height,
        ensures
            final(base).wf(),
            final(base)@ == painted(old(base)@, symbol@, color),
    {
        let width: u32 = base.width;
        let height: u32 = base.height;
        let ghost goal = painted(old(base)@, symbol@, color);
        let mut y: u32 = 0;
        while y < height
            invariant
                base.wf(),
                symbol.wf(),
                base.width == width,
                base.height == height,
                old(base).width == width,
                old(base).height == height,
                old(base).wf(),
                symbol.width >= width,
                symbol.height >= height,
                y <= height,
                goal == painted(old(base)@, symbol@, color),
                forall|k: int| 0 <= k < y * width ==> base.pixels@[k] == goal.pixels[k],
                forall|k: int|
                    y * width <= k < base.pixels@.len() ==> base.pixels@[k] == old(base).pixels@[k],
            decreases height - y,
        {
            let mut x: u32 = 0;
            while x < width
                invariant
                    base.wf(),
                    symbol.wf(),
                    base.width == width,
                    base.height == height,
                    old(base).width == width,
                    old(base).height == height,
                    old(base).wf(),
                    symbol.width >= width,
                    symbol.height >= height,
                    y < height,
                    x <= width,
                    goal == painted(old(base)@, symbol@, color),
                    forall|k: int| 0 <= k < y * width + x ==> base.pixels@[k] == goal.pixels[k],
                    forall|k: int|
                        y * width + x <= k < base.pixels@.len() ==> base.pixels@[k] == old(
                            base,
                        ).pixels@[k],
                decreases width - x,
            {
                proof {
                    lemma_row_major(x as int, y as int, width as int);
                    lemma_index_in_bounds(x as int, y as int, width as int, height as int);
                }
                let symbol_pixel = symbol.get_pixel(x, y);
                if symbol_pixel.a > 0 {
                    let pixel = base.get_pixel(x, y);
                    let mixed = match color {
                        RenderColor::Color(c) => blend(pixel, c),
                        RenderColor::Sprite => blend(pixel, symbol_pixel),
                    };
                    base.put_pixel(x, y, mixed);
                }
                x += 1;
            }
            assert(y * width + width == (y + 1) * width) by (nonlinear_arith);
            y += 1;
        }
        assert(base.pixels@.len() == height * width) by (nonlinear_arith)
            requires
                base.pixels@.len() == width * height,
        ;
        assert(base.pixels@ =~= goal.pixels);
    }

    /// Draws one layer onto the canvas, or says why it cannot.
    fn draw_layer(&self, canvas: &mut Canvas, layer: &Layer, projection: &Option<imageproc::geometric_transformations::Projection>) -> (r:
        Result<(), SARError>)
        requires
            self.wf(),
            old(canvas).wf(),
            4 * old(canvas).width * old(canvas).height <= isize::MAX,
        ensures
            final(canvas).wf(),
            final(canvas).width == old(canvas).width,
            final(canvas).height == old(canvas).height,
            match r {
                Ok(_) => {
                    &&& self.suppress_failure || !fails(*layer, projection is Some)
                    &&& final(canvas)@ == stamped(
                        old(canvas)@,
                        *layer,
                        warp_of(
                            self.resource,
                            *layer,
                            *projection,
                            old(canvas).width as nat,
                            old(canvas).height as nat,
                        ),
                    )
                    &&& old(canvas).width > 0 && draws(*layer, projection is Some) ==> warped_from(
                        warp_of(
                            self.resource,
                            *layer,
                            *projection,
                            old(canvas).width as nat,
                            old(canvas).height as nat,
                        )->Some_0,
                        self.resource.sprite(layer.symbol_id as u32)->Some_0,
                        old(canvas).width as nat,
                        old(canvas).height as nat,
                    )
                },
                Err(e) => {
                    &&& !self.suppress_failure
                    &&& fails(*layer, projection is Some)
                    &&& reports(e, *layer)
                },
            },
    {
        if layer.is_hidden() {
            return Ok(());
        }
        let id = layer.symbol().id();
        let image = match self.resource.get_image(id) {
            Some(image) => image,
            None => {
                if self.suppress_failure {
                    return Ok(());
                }
                return Err(SARError::SymbolNotFound(id));
            },
        };
        let projection = match projection {
            Some(projection) => projection,
            None => {
                if self.suppress_failure {
                    return Ok(());
                }
                let (from, to) = control_points(layer);
                return Err(SARError::ProjectionError(from, to));
            },
        };
        if canvas.width == 0 {
            // a canvas without columns has no pixel to paint
            assert(canvas.pixels@.len() == 0) by (nonlinear_arith)
                requires
                    canvas.pixels@.len() == canvas.width * canvas.height,
                    canvas.width == 0,
            ;
            assert(painted(
                canvas@,
                warped(image.canvas()@, *projection, 0, canvas.height as nat),
                paint_of(*layer)->Some_0,
            ).pixels =~= canvas@.pixels);
            return Ok(());
        }
        let symbol = warp_sprite(image.inner(), projection, canvas.width, canvas.height);
        let color = if image.is_color() {
            RenderColor::Sprite
        } else {
            RenderColor::Color(layer.color())
        };
        Self::render_symbol(canvas, &symbol, color);
        Ok(())
    }

    /// Whether `r` is what rendering `layers` with `projections` gives on a
    /// canvas of size `canvas`, seen through a view of size `view`. A strict
    /// drawer fails with the failure that is met first, if there is one;
    /// otherwise, and always for a lenient drawer, the result is the view of
    /// the composite of the layers, each with its sprite warped by its
    /// projection.
    pub open spec fn renders(
        &self,
        layers: Seq<Layer>,
        projections: Seq<Option<imageproc::geometric_transformations::Projection>>,
        canvas: (nat, nat),
        view: (nat, nat),
        r: Result<Canvas, SARError>,
    ) -> bool {
        match r {
            Ok(image) => {
                &&& self.suppress_failure || first_failure(layers, present(projections)) is None
                &&& image.wf()
                &&& image@ == view_of(
                    composite(
                        layers,
                        warps_of(self.resource, layers, projections, canvas.0, canvas.1),
                        canvas.0,
                        canvas.1,
                    ),
                    view.0,
                    view.1,
                )
                &&& canvas.0 > 0 ==> warps_keep_to_sprites(
                    self.resource,
                    layers,
                    projections,
                    canvas.0,
                    canvas.1,
                )
            },
            Err(e) => {
                &&& !self.suppress_failure
                &&& first_failure(layers, present(projections)) matches Some(layer) && reports(
                    e,
                    layer,
                )
            },
        }
    }

    /// Renders a composition at its own size: on the canvas of 256 by 256,
    /// seen through the view that the header's size byte stands for.
    /// `projections` holds, for each layer, the projection that takes the
    /// corners of a sprite to the layer's corners, or `None` where there is
    /// none.
    pub fn draw(&self, sa: &Payload, projections: &Vec<Option<imageproc::geometric_transformations::Projection>>) -> (r: Result<
        Canvas,
        SARError,
    >)
        requires
            self.wf(),
            projections@.len() == sa.layers@.len(),
        ensures
            match view_size(sa.header) {
                Some(size) => self.renders(
                    sa.layers@,
                    projections@,
                    (256, 256),
                    (size.0 as nat, size.1 as nat),
                    r,
                ),
                None => r matches Err(e) && e == SARError::InvalidSize(sa.header.height),
            },
    {
        let width = match sa.width() {
            Ok(width) => width,
            Err(e) => return Err(e),
        };
        let height = match sa.height() {
            Ok(height) => height,
            Err(e) => return Err(e),
        };
        self.draw_projected(
            sa,
            projections,
            (CANVAS_WIDTH, CANVAS_HEIGHT),
            (width as u32, height as u32),
        )
    }

    /// Renders a composition. `projections` holds, for each layer, the
    /// projection that takes the corners of a sprite to the layer's corners
    /// on the canvas, or `None` where there is none. The layers are drawn
    /// onto a transparent canvas of `canvas_size`, and the part of
    /// `view_size` around its centre is returned.
    pub fn draw_projected(
        &self,
        sa: &Payload,
        projections: &Vec<Option<imageproc::geometric_transformations::Projection>>,
        canvas_size: (u32, u32),
        view_size: (u32, u32),
    ) -> (r: Result<Canvas, SARError>)
        requires
            self.wf(),
            projections@.len() == sa.layers@.len(),
            4 * canvas_size.0 * canvas_size.1 <= isize::MAX,
            view_size.0 <= canvas_size.0,
            view_size.1 <= canvas_size.1,
        ensures
            self.renders(
                sa.layers@,
                projections@,
                (canvas_size.0 as nat, canvas_size.1 as nat),
                (view_size.0 as nat, view_size.1 as nat),
                r,
            ),
    {
        let ghost layers = sa.layers@;
        let ghost flags = present(projections@);
        let ghost width = canvas_size.0 as nat;
        let ghost height = canvas_size.1 as nat;
        let ghost warps = warps_of(self.resource, layers, projections@, width, height);
        assert(canvas_size.0 * canvas_size.1 <= usize::MAX) by (nonlinear_arith)
            requires
                4 * canvas_size.0 * canvas_size.1 <= isize::MAX,
                isize::MAX <= usize::MAX,
                0 <= canvas_size.0,
                0 <= canvas_size.1,
        ;
        let mut canvas = Canvas::new(canvas_size.0, canvas_size.1);
        let count: usize = sa.layers.len();
        let mut i: usize = count;
        assert(layers.skip(count as int) =~= Seq::<Layer>::empty());
        assert(layers.take(count as int) =~= layers);
        assert(flags.take(count as int) =~= flags);
        while i > 0
            invariant
                self.wf(),
                layers == sa.layers@,
                flags == present(projections@),
                warps == warps_of(self.resource, layers, projections@, width, height),
                width == canvas_size.0,
                height == canvas_size.1,
                count == layers.len(),
                projections@.len() == count,
                i <= count,
                canvas.wf(),
                canvas.width == canvas_size.0,
                canvas.height == canvas_size.1,
                4 * canvas_size.0 * canvas_size.1 <= isize::MAX,
                canvas@ == composite(layers.skip(i as int), warps.skip(i as int), width, height),
                width > 0 ==> forall|k: int|
                    i <= k < count && draws(layers[k], (#[trigger] projections@[k]) is Some)
                        ==> warped_from(
                        warp_of(self.resource, layers[k], projections@[k], width, height)->Some_0,
                        self.resource.sprite(layers[k].symbol_id as u32)->Some_0,
                        width,
                        height,
                    ),
                !self.suppress_failure ==> first_failure(layers, flags) == first_failure(
                    layers.take(i as int),
                    flags.take(i as int),
                ),
            decreases i,
        {
            i -= 1;
            assert(layers.take(i + 1).last() == layers[i as int]);
            assert(flags.take(i + 1).last() == flags[i as int]);
            assert(layers.take(i + 1).drop_last() =~= layers.take(i as int));
            assert(flags.take(i + 1).drop_last() =~= flags.take(i as int));
            assert(flags[i as int] == (projections@[i as int] is Some));
            assert(layers.skip(i as int).drop_first() =~= layers.skip(i + 1));
            assert(warps.skip(i as int).drop_first() =~= warps.skip(i + 1));
            assert(layers.skip(i as int)[0] == layers[i as int]);
            assert(warps.skip(i as int)[0] == warp_of(
                self.resource,
                layers[i as int],
                projections@[i as int],
                width,
                height,
            ));
            match self.draw_layer(&mut canvas, &sa.layers[i], &projections[i]) {
                Ok(_) => {},
                Err(e) => {
                    return Err(e);
                },
            }
        }
        assert(layers.skip(0) =~= layers);
        assert(warps.skip(0) =~= warps);
        assert(layers.take(0).len() == 0);
        let x: u32 = canvas_size.0 / 2 - view_size.0 / 2;
        let y: u32 = canvas_size.1 / 2 - view_size.1 / 2;
        let image = canvas.crop(x, y, view_size.0, view_size.1);
        assert(image@ == view_of(
            composite(layers, warps, width, height),
            view_size.0 as nat,
            view_size.1 as nat,
        ));
        Ok(image)
    }
}

/// The composite has the size that it was asked for.
pub proof fn composite_has_size(
    layers: Seq<Layer>,
    warps: Seq<Option<Raster>>,
    width: nat,
    height: nat,
)
    ensures
        composite(layers, warps, width, height).width == width,
        composite(layers, warps, width, height).height == height,
        composite(layers, warps, width, height).wf(),
    decreases layers.len(),
{
    if layers.len() > 0 {
        composite_has_size(layers.drop_first(), warps.drop_first(), width, height);
    }
}

/// Whether the warped sprite of a layer covers the position.
pub open spec fn covers(layer: Layer, warp: Option<Raster>, x: int, y: int) -> bool {
    marks(layer, warp) && warp->Some_0.at(x, y).a > 0
}

/// The colour that a layer lays onto a position that it covers.
pub open spec fn shown(layer: Layer, warp: Option<Raster>, x: int, y: int) -> Color {
    match paint_of(layer) {
        Some(RenderColor::Color(c)) => c,
        _ => warp->Some_0.at(x, y),
    }
}

/// A position shows the colour of the first layer that covers it, where
/// that colour is opaque: no layer after it in the list shows through or
/// over it.
pub proof fn topmost_opaque_layer_wins(
    layers: Seq<Layer>,
    warps: Seq<Option<Raster>>,
    width: nat,
    height: nat,
    i: int,
    x: int,
    y: int,
)
    requires
        warps.len() == layers.len(),
        0 <= i < layers.len(),
        0 <= x < width,
        0 <= y < height,
        covers(layers[i], warps[i], x, y),
        shown(layers[i], warps[i], x, y).a == 255,
        forall|j: int| 0 <= j < i ==> !covers(layers[j], warps[j], x, y),
    ensures
        composite(layers, warps, width, height).at(x, y) == shown(layers[i], warps[i], x, y),
    decreases layers.len(),
{
    let below = composite(layers.drop_first(), warps.drop_first(), width, height);
    composite_has_size(layers.drop_first(), warps.drop_first(), width, height);
    lemma_row_major(x, y, width as int);
    lemma_index_in_bounds(x, y, width as int, height as int);
    if i == 0 {
    } else {
        assert(!covers(layers[0], warps[0], x, y));
        assert forall|j: int| 0 <= j < i - 1 implies !covers(
            layers.drop_first()[j],
            warps.drop_first()[j],
            x,
            y,
        ) by {
            assert(layers.drop_first()[j] == layers[j + 1]);
            assert(warps.drop_first()[j] == warps[j + 1]);
        }
        topmost_opaque_layer_wins(
            layers.drop_first(),
            warps.drop_first(),
            width,
            height,
            i - 1,
            x,
            y,
        );
    }
}

/// A layer that leaves no mark can be taken out of the list without a change
/// to the canvas.
pub proof fn unmarked_layer_changes_nothing(
    layers: Seq<Layer>,
    warps: Seq<Option<Raster>>,
    width: nat,
    height: nat,
    i: int,
)
    requires
        warps.len() == layers.len(),
        0 <= i < layers.len(),
        !marks(layers[i], warps[i]),
    ensures
        composite(layers.remove(i), warps.remove(i), width, height) == composite(
            layers,
            warps,
            width,
            height,
        ),
    decreases layers.len(),
{
    if i == 0 {
        assert(layers.remove(0) =~= layers.drop_first());
        assert(warps.remove(0) =~= warps.drop_first());
    } else {
        assert(layers.remove(i).drop_first() =~= layers.drop_first().remove(i - 1));
        assert(warps.remove(i).drop_first() =~= warps.drop_first().remove(i - 1));
        assert(layers.remove(i)[0] == layers[0]);
        assert(warps.remove(i)[0] == warps[0]);
        unmarked_layer_changes_nothing(layers.drop_first(), warps.drop_first(), width, height, i - 1);
    }
}

/// A layer that does not fail can be taken out of the list without a change
/// to the failure that is met first.
pub proof fn sound_layer_changes_no_failure(layers: Seq<Layer>, projected: Seq<bool>, i: int)
    requires
        projected.len() == layers.len(),
        0 <= i < layers.len(),
        !fails(layers[i], projected[i]),
    ensures
        first_failure(layers.remove(i), projected.remove(i)) == first_failure(layers, projected),
    decreases layers.len(),
{
    if i == layers.len() - 1 {
        assert(layers.remove(i) =~= layers.drop_last());
        assert(projected.remove(i) =~= projected.drop_last());
    } else {
        assert(layers.remove(i).drop_last() =~= layers.drop_last().remove(i));
        assert(projected.remove(i).drop_last() =~= projected.drop_last().remove(i));
        assert(layers.remove(i).last() == layers.last());
        assert(projected.remove(i).last() == projected.last());
        sound_layer_changes_no_failure(layers.drop_last(), projected.drop_last(), i);
    }
}

/// A hidden layer is as good as absent: without it the canvas is the same,
/// and so is the failure that is met first.
pub proof fn hidden_layer_is_absent(
    layers: Seq<Layer>,
    projected: Seq<bool>,
    warps: Seq<Option<Raster>>,
    width: nat,
    height: nat,
    i: int,
)
    requires
        warps.len() == layers.len(),
        projected.len() == layers.len(),
        0 <= i < layers.len(),
        layers[i].is_hidden,
    ensures
        composite(layers.remove(i), warps.remove(i), width, height) == composite(
            layers,
            warps,
            width,
            height,
        ),
        first_failure(layers.remove(i), projected.remove(i)) == first_failure(layers, projected),
{
    unmarked_layer_changes_nothing(layers, warps, width, height, i);
    sound_layer_changes_no_failure(layers, projected, i);
}

/// The items of a list that are marked to be kept, in their order.
pub open spec fn kept<T>(items: Seq<T>, keep: Seq<bool>) -> Seq<T>
    decreases items.len(),
{
    if items.len() == 0 {
        Seq::empty()
    } else if keep[0] {
        seq![items[0]] + kept(items.drop_first(), keep.drop_first())
    } else {
        kept(items.drop_first(), keep.drop_first())
    }
}

/// For each layer, whether it is not hidden.
pub open spec fn visible(layers: Seq<Layer>) -> Seq<bool> {
    Seq::new(layers.len(), |i: int| !layers[i].is_hidden)
}

/// For each layer, whether it does not fail.
pub open spec fn sound(layers: Seq<Layer>, projections: Seq<Option<imageproc::geometric_transformations::Projection>>) -> Seq<bool> {
    Seq::new(layers.len(), |i: int| !fails(layers[i], projections[i] is Some))
}

/// Two lists of one length keep equally many items under one marking.
pub proof fn kept_in_step<A, B>(a: Seq<A>, b: Seq<B>, keep: Seq<bool>)
    requires
        a.len() == b.len(),
    ensures
        kept(a, keep).len() == kept(b, keep).len(),
    decreases a.len(),
{
    if a.len() > 0 {
        kept_in_step(a.drop_first(), b.drop_first(), keep.drop_first());
    }
}

/// Whether a projection is present can be told before or after the list is
/// thinned out.
pub proof fn present_of_kept(projections: Seq<Option<imageproc::geometric_transformations::Projection>>, keep: Seq<bool>)
    ensures
        kept(present(projections), keep) == present(kept(projections, keep)),
    decreases projections.len(),
{
    if projections.len() == 0 {
        assert(present(projections) =~= Seq::<bool>::empty());
        assert(present(kept(projections, keep)) =~= Seq::<bool>::empty());
    } else {
        let rest = projections.drop_first();
        present_of_kept(rest, keep.drop_first());
        assert(present(projections).drop_first() =~= present(rest));
        if keep[0] {
            assert(present(seq![projections[0]] + kept(rest, keep.drop_first())) =~= seq![
                projections[0] is Some,
            ] + present(kept(rest, keep.drop_first())));
        }
    }
}

/// The warped sprites of the layers that are kept are those that were
/// theirs before.
pub proof fn warps_of_kept(
    resource: Resource,
    layers: Seq<Layer>,
    projections: Seq<Option<imageproc::geometric_transformations::Projection>>,
    keep: Seq<bool>,
    width: nat,
    height: nat,
)
    requires
        projections.len() == layers.len(),
    ensures
        kept(warps_of(resource, layers, projections, width, height), keep) == warps_of(
            resource,
            kept(layers, keep),
            kept(projections, keep),
            width,
            height,
        ),
    decreases layers.len(),
{
    let all = warps_of(resource, layers, projections, width, height);
    if layers.len() == 0 {
        assert(warps_of(resource, kept(layers, keep), kept(projections, keep), width, height)
            =~= Seq::<Option<Raster>>::empty());
    } else {
        let rest = keep.drop_first();
        warps_of_kept(resource, layers.drop_first(), projections.drop_first(), rest, width, height);
        kept_in_step(layers.drop_first(), projections.drop_first(), rest);
        assert(all.drop_first() =~= warps_of(
            resource,
            layers.drop_first(),
            projections.drop_first(),
            width,
            height,
        ));
        if keep[0] {
            assert(warps_of(
                resource,
                seq![layers[0]] + kept(layers.drop_first(), rest),
                seq![projections[0]] + kept(projections.drop_first(), rest),
                width,
                height,
            ) =~= seq![all[0]] + warps_of(
                resource,
                kept(layers.drop_first(), rest),
                kept(projections.drop_first(), rest),
                width,
                height,
            ));
        }
    }
}

/// Layers that leave no mark can be taken out of the list without a change
/// to the canvas.
pub proof fn composite_of_kept(
    layers: Seq<Layer>,
    warps: Seq<Option<Raster>>,
    keep: Seq<bool>,
    width: nat,
    height: nat,
)
    requires
        warps.len() == layers.len(),
        keep.len() == layers.len(),
        forall|i: int| 0 <= i < layers.len() && !keep[i] ==> !marks(layers[i], #[trigger] warps[i]),
    ensures
        composite(kept(layers, keep), kept(warps, keep), width, height) == composite(
            layers,
            warps,
            width,
            height,
        ),
    decreases layers.len(),
{
    if layers.len() > 0 {
        let rest = keep.drop_first();
        assert forall|i: int| 0 <= i < layers.drop_first().len() && !rest[i] implies !marks(
            layers.drop_first()[i],
            #[trigger] warps.drop_first()[i],
        ) by {
            assert(warps.drop_first()[i] == warps[i + 1]);
            assert(!keep[i + 1]);
        }
        composite_of_kept(layers.drop_first(), warps.drop_first(), rest, width, height);
        if keep[0] {
            let first = seq![layers[0]] + kept(layers.drop_first(), rest);
            let first_warps = seq![warps[0]] + kept(warps.drop_first(), rest);
            assert(first.drop_first() =~= kept(layers.drop_first(), rest));
            assert(first_warps.drop_first() =~= kept(warps.drop_first(), rest));
        } else {
            assert(!marks(layers[0], warps[0]));
        }
    }
}

/// The failure that is met first in a list with one more layer in front:
/// that of the list behind it if there is one, else the layer in front if it
/// fails.
pub proof fn first_failure_behind(head: Layer, projected: bool, tail: Seq<Layer>, flags: Seq<bool>)
    requires
        tail.len() == flags.len(),
    ensures
        first_failure(seq![head] + tail, seq![projected] + flags) == (if first_failure(tail, flags)
            is Some {
            first_failure(tail, flags)
        } else if fails(head, projected) {
            Some(head)
        } else {
            None
        }),
    decreases tail.len(),
{
    let all = seq![head] + tail;
    let all_flags = seq![projected] + flags;
    if tail.len() == 0 {
        assert(all.drop_last() =~= Seq::<Layer>::empty());
        assert(all.last() == head);
        assert(all_flags.last() == projected);
    } else {
        assert(all.last() == tail.last());
        assert(all_flags.last() == flags.last());
        assert(all.drop_last() =~= seq![head] + tail.drop_last());
        assert(all_flags.drop_last() =~= seq![projected] + flags.drop_last());
        first_failure_behind(head, projected, tail.drop_last(), flags.drop_last());
    }
}

/// Layers that do not fail can be taken out of the list without a change to
/// the failure that is met first.
pub proof fn first_failure_of_kept(layers: Seq<Layer>, projected: Seq<bool>, keep: Seq<bool>)
    requires
        projected.len() == layers.len(),
        keep.len() == layers.len(),
        forall|i: int|
            0 <= i < layers.len() && !keep[i] ==> !fails(#[trigger] layers[i], projected[i]),
    ensures
        first_failure(kept(layers, keep), kept(projected, keep)) == first_failure(layers, projected),
    decreases layers.len(),
{
    if layers.len() > 0 {
        let rest = keep.drop_first();
        let tail = layers.drop_first();
        let flags = projected.drop_first();
        assert forall|i: int| 0 <= i < tail.len() && !rest[i] implies !fails(
            #[trigger] tail[i],
            flags[i],
        ) by {
            assert(tail[i] == layers[i + 1]);
            assert(!keep[i + 1]);
        }
        first_failure_of_kept(tail, flags, rest);
        assert(layers =~= seq![layers[0]] + tail);
        assert(projected =~= seq![projected[0]] + flags);
        first_failure_behind(layers[0], projected[0], tail, flags);
        kept_in_step(tail, flags, rest);
        if keep[0] {
            first_failure_behind(layers[0], projected[0], kept(tail, rest), kept(flags, rest));
        } else {
            assert(!fails(layers[0], projected[0]));
        }
    }
}

impl SymbolArtDrawer {
    /// Whether two renderings ended alike: with the same image, or both with
    /// an error that tells of the same failing layer.
    pub open spec fn alike(first: Result<Canvas, SARError>, second: Result<Canvas, SARError>) -> bool {
        match (first, second) {
            (Ok(one), Ok(other)) => one@ == other@,
            (Err(one), Err(other)) => exists|layer: Layer|
                #[trigger] reports(one, layer) && reports(other, layer),
            _ => false,
        }
    }

    /// Rendering is determined by what is rendered: two results for the same
    /// layers, projections and sizes are alike. So `draw` gives what
    /// `draw_projected` gives on the canvas of 256 by 256 with the view of
    /// the header.
    pub proof fn render_is_determined(
        &self,
        layers: Seq<Layer>,
        projections: Seq<Option<imageproc::geometric_transformations::Projection>>,
        canvas: (nat, nat),
        view: (nat, nat),
        first: Result<Canvas, SARError>,
        second: Result<Canvas, SARError>,
    )
        requires
            self.renders(layers, projections, canvas, view, first),
            self.renders(layers, projections, canvas, view, second),
        ensures
            Self::alike(first, second),
    {
        if first is Err {
            let layer = first_failure(layers, present(projections))->Some_0;
            assert(reports(first->Err_0, layer) && reports(second->Err_0, layer));
        }
    }

    /// Hidden layers are as good as absent: rendering with them and
    /// rendering the list from which all of them are taken out end alike.
    pub proof fn render_without_hidden_layers(
        &self,
        layers: Seq<Layer>,
        projections: Seq<Option<imageproc::geometric_transformations::Projection>>,
        canvas: (nat, nat),
        view: (nat, nat),
        with: Result<Canvas, SARError>,
        without: Result<Canvas, SARError>,
    )
        requires
            projections.len() == layers.len(),
            self.renders(layers, projections, canvas, view, with),
            self.renders(
                kept(layers, visible(layers)),
                kept(projections, visible(layers)),
                canvas,
                view,
                without,
            ),
        ensures
            Self::alike(with, without),
    {
        let keep = visible(layers);
        let warps = warps_of(self.resource, layers, projections, canvas.0, canvas.1);
        composite_of_kept(layers, warps, keep, canvas.0, canvas.1);
        warps_of_kept(self.resource, layers, projections, keep, canvas.0, canvas.1);
        first_failure_of_kept(layers, present(projections), keep);
        present_of_kept(projections, keep);
        if with is Err {
            let layer = first_failure(layers, present(projections))->Some_0;
            assert(reports(with->Err_0, layer) && reports(without->Err_0, layer));
        }
    }

    /// A lenient drawer leaves out the failing layers and nothing else:
    /// rendering with them and rendering the list from which all of them are
    /// taken out give the same image.
    pub proof fn lenient_render_without_failing_layers(
        &self,
        layers: Seq<Layer>,
        projections: Seq<Option<imageproc::geometric_transformations::Projection>>,
        canvas: (nat, nat),
        view: (nat, nat),
        with: Result<Canvas, SARError>,
        without: Result<Canvas, SARError>,
    )
        requires
            self.suppress_failure,
            projections.len() == layers.len(),
            self.renders(layers, projections, canvas, view, with),
            self.renders(
                kept(layers, sound(layers, projections)),
                kept(projections, sound(layers, projections)),
                canvas,
                view,
                without,
            ),
        ensures
            with is Ok,
            without is Ok,
            with->Ok_0@ == without->Ok_0@,
    {
        let keep = sound(layers, projections);
        let warps = warps_of(self.resource, layers, projections, canvas.0, canvas.1);
        composite_of_kept(layers, warps, keep, canvas.0, canvas.1);
        warps_of_kept(self.resource, layers, projections, keep, canvas.0, canvas.1);
    }

    /// In a rendered image, a place shows the colour of the first layer
    /// whose warped sprite covers it, where that colour is opaque: no layer
    /// after it in the list shows there. `(x, y)` is a place of the image;
    /// the sprites cover places of the canvas, which lie further right and
    /// down by the view's corner.
    pub proof fn render_shows_topmost_opaque_layer(
        &self,
        layers: Seq<Layer>,
        projections: Seq<Option<imageproc::geometric_transformations::Projection>>,
        canvas: (nat, nat),
        view: (nat, nat),
        image: Canvas,
        i: int,
        x: int,
        y: int,
    )
        requires
            projections.len() == layers.len(),
            view.0 <= canvas.0,
            view.1 <= canvas.1,
            self.renders(layers, projections, canvas, view, Ok(image)),
            0 <= i < layers.len(),
            0 <= x < view.0,
            0 <= y < view.1,
            ({
                let warps = warps_of(self.resource, layers, projections, canvas.0, canvas.1);
                let cx = canvas.0 / 2 - view.0 / 2 + x;
                let cy = canvas.1 / 2 - view.1 / 2 + y;
                &&& covers(layers[i], warps[i], cx, cy)
                &&& shown(layers[i], warps[i], cx, cy).a == 255
                &&& forall|j: int| 0 <= j < i ==> !covers(layers[j], #[trigger] warps[j], cx, cy)
            }),
        ensures
            image@.width == view.0,
            image@.height == view.1,
            image@.at(x, y) == shown(
                layers[i],
                warps_of(self.resource, layers, projections, canvas.0, canvas.1)[i],
                canvas.0 / 2 - view.0 / 2 + x,
                canvas.1 / 2 - view.1 / 2 + y,
            ),
    {
        let warps = warps_of(self.resource, layers, projections, canvas.0, canvas.1);
        let whole = composite(layers, warps, canvas.0, canvas.1);
        let x0 = (canvas.0 / 2 - view.0 / 2) as nat;
        let y0 = (canvas.1 / 2 - view.1 / 2) as nat;
        composite_has_size(layers, warps, canvas.0, canvas.1);
        lemma_crop_inside(whole, x0, y0, view.0, view.1, x, y);
        topmost_opaque_layer_wins(layers, warps, canvas.0, canvas.1, i, x0 + x, y0 + y);
    }
}

} // verus!
