//! Glyph rasters and the properties by which a collection of them is
//! ordered and filtered.

use vstd::prelude::*;

verus! {

/// A scalar read off a glyph raster.
#[derive(PartialEq, Eq, Structural, Clone, Copy, Debug)]
pub enum RasterizationProperty {
    /// The sum of all coverage values.
    Brightness,
    /// The bitmap's width.
    Width,
    /// The bitmap's height.
    Height,
}

impl RasterizationProperty {
    /// The property's name.
    pub open spec fn label_text(self) -> Seq<char> {
        match self {
            RasterizationProperty::Brightness => "Brightness"@,
            RasterizationProperty::Width => "Width"@,
            RasterizationProperty::Height => "Height"@,
        }
    }

    /// The property's name.
    pub fn label(&self) -> (text: String)
        ensures
            text@ == self.label_text(),
    {
        match self {
            RasterizationProperty::Brightness => "Brightness".to_owned(),
            RasterizationProperty::Width => "Width".to_owned(),
            RasterizationProperty::Height => "Height".to_owned(),
        }
    }
}

/// Where a glyph's bitmap lies relative to its origin, in whole pixels.
#[derive(PartialEq, Eq, Structural, Clone, Copy, Debug)]
pub struct GlyphMetrics {
    /// Distance from the origin to the bitmap's left edge.
    pub xmin: i32,
    /// Distance from the baseline to the bitmap's bottom edge.
    pub ymin: i32,
    /// Bitmap width.
    pub width: usize,
    /// Bitmap height.
    pub height: usize,
}

/// The mathematical content of a glyph raster: a bitmap of `width` by
/// `height` coverage values, row by row, and its bearings.
pub ghost struct GlyphRaster {
    pub width: nat,
    pub height: nat,
    pub xmin: int,
    pub ymin: int,
    pub pixels: Seq<u8>,
}

/// The sum of the coverage values of `pixels`.
pub open spec fn pixel_sum(pixels: Seq<u8>) -> nat
    decreases pixels.len(),
{
    if pixels.len() == 0 {
        0
    } else {
        pixel_sum(pixels.drop_last()) + pixels.last() as nat
    }
}

impl GlyphRaster {
    /// The bitmap holds one value per pixel, and few enough for their sum
    /// to fit the machine word.
    pub open spec fn wf(self) -> bool {
        &&& self.pixels.len() == self.width * self.height
        &&& self.pixels.len() * 255 <= usize::MAX
    }

    /// The sum of all coverage values.
    pub open spec fn brightness(self) -> nat {
        pixel_sum(self.pixels)
    }

    /// The scalar that `property` names.
    pub open spec fn property(self, property: RasterizationProperty) -> nat {
        match property {
            RasterizationProperty::Brightness => self.brightness(),
            RasterizationProperty::Width => self.width,
            RasterizationProperty::Height => self.height,
        }
    }
}

/// A sum of coverage values is at most 255 per pixel.
pub proof fn lemma_pixel_sum_bound(pixels: Seq<u8>)
    ensures
        pixel_sum(pixels) <= 255 * pixels.len(),
    decreases pixels.len(),
{
    if pixels.len() > 0 {
        lemma_pixel_sum_bound(pixels.drop_last());
    }
}

/// One glyph's coverage bitmap with its placement metrics.
pub struct CharRaster {
    metrics: GlyphMetrics,
    pixels: Vec<u8>,
}

impl View for CharRaster {
    type V = GlyphRaster;

    closed spec fn view(&self) -> GlyphRaster {
        GlyphRaster {
            width: self.metrics.width as nat,
            height: self.metrics.height as nat,
            xmin: self.metrics.xmin as int,
            ymin: self.metrics.ymin as int,
            pixels: self.pixels@,
        }
    }
}

impl CharRaster {
    #[verifier::type_invariant]
    closed spec fn inv(self) -> bool {
        self@.wf()
    }

    /// A raster from its metrics and its bitmap, which holds one value per
    /// pixel of the metrics' width and height.
    pub fn new(raster: (GlyphMetrics, Vec<u8>)) -> (made: Self)
        requires
            raster.1@.len() == raster.0.width * raster.0.height,
            raster.1@.len() * 255 <= usize::MAX,
        ensures
            made@ == (GlyphRaster {
                width: raster.0.width as nat,
                height: raster.0.height as nat,
                xmin: raster.0.xmin as int,
                ymin: raster.0.ymin as int,
                pixels: raster.1@,
            }),
            made@.wf(),
    {
        let (metrics, pixels) = raster;
        CharRaster { metrics, pixels }
    }

    /// A raster from its metrics and its bitmap, or `None` where the bitmap
    /// does not hold one value per pixel of the metrics' width and height,
    /// or holds more than their sum can count.
    pub fn try_new(raster: (GlyphMetrics, Vec<u8>)) -> (made: Option<Self>)
        ensures
            made is Some <==> raster.1@.len() == raster.0.width * raster.0.height && raster.1@.len()
                * 255 <= usize::MAX,
            made matches Some(r) ==> r@ == (GlyphRaster {
                width: raster.0.width as nat,
                height: raster.0.height as nat,
                xmin: raster.0.xmin as int,
                ymin: raster.0.ymin as int,
                pixels: raster.1@,
            }),
    {
        let len = raster.1.len();
        let cells = raster.0.width.checked_mul(raster.0.height);
        let sum = len.checked_mul(255);
        match (cells, sum) {
            (Some(cells), Some(_)) => {
                if len == cells {
                    Some(CharRaster::new(raster))
                } else {
                    None
                }
            },
            _ => None,
        }
    }

    /// The scalar that `property` names.
    pub fn get_property(&self, property: RasterizationProperty) -> (value: usize)
        ensures
            value == self@.property(property),
    {
        match property {
            RasterizationProperty::Brightness => self.get_brightness(),
            RasterizationProperty::Width => self.get_width(),
            RasterizationProperty::Height => self.get_height(),
        }
    }

    /// The placement metrics.
    pub fn get_metrics(&self) -> (metrics: GlyphMetrics)
        ensures
            metrics.width == self@.width,
            metrics.height == self@.height,
            metrics.xmin == self@.xmin,
            metrics.ymin == self@.ymin,
    {
        self.metrics
    }

    /// A copy of the bitmap.
    pub fn get_pixels(&self) -> (pixels: Vec<u8>)
        ensures
            pixels@ == self@.pixels,
    {
        let copy = self.pixels.clone();
        assert(copy@ =~= self.pixels@);
        copy
    }

    /// The bitmap, row by row.
    pub fn pixels(&self) -> (pixels: &Vec<u8>)
        ensures
            pixels@ == self@.pixels,
            self@.wf(),
    {
        proof {
            use_type_invariant(self);
        }
        &self.pixels
    }

    /// The sum of all coverage values.
    pub fn get_brightness(&self) -> (sum: usize)
        ensures
            sum == self@.brightness(),
    {
        proof {
            use_type_invariant(self);
        }
        let mut sum: usize = 0;
        let mut i: usize = 0;
        while i < self.pixels.len()
            invariant
                i <= self.pixels@.len(),
                self.pixels@.len() * 255 <= usize::MAX,
                sum == pixel_sum(self.pixels@.take(i as int)),
                sum <= 255 * i,
            decreases self.pixels@.len() - i,
        {
            proof {
                let next = self.pixels@.take(i + 1);
                assert(next.drop_last() =~= self.pixels@.take(i as int));
                lemma_pixel_sum_bound(next);
            }
            sum = sum + self.pixels[i] as usize;
            i = i + 1;
        }
        assert(self.pixels@.take(i as int) =~= self.pixels@);
        sum
    }

    /// The bitmap's width.
    pub fn get_width(&self) -> (width: usize)
        ensures
            width == self@.width,
    {
        self.metrics.width
    }

    /// The bitmap's height.
    pub fn get_height(&self) -> (height: usize)
        ensures
            height == self@.height,
    {
        self.metrics.height
    }
}

/// The mathematical contents of a collection of rasters, in order.
pub open spec fn raster_views(rasters: Seq<CharRaster>) -> Seq<GlyphRaster> {
    Seq::new(rasters.len(), |i: int| rasters[i]@)
}

} // verus!
