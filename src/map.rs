use vstd::prelude::*;

use crate::colormap::{interp, interpolate, magma, magma_stops, twilight, twilight_stops, Rgb};
use crate::field::{
    derive_gradient, deterministic, gradient_field, lemma_sampling_deterministic, sample_grid, sampled, Grad,
};
use crate::fixed::{remap_unit, unit_to_t, ONE};
use crate::png::{png_encode_rgb8, png_rgb8};

verus! {

/// Why a raster could not be serialised.
#[derive(Clone, Copy, Debug, PartialEq, Eq, Structural)]
pub enum EncodeError {
    /// The image encoder refused the raster: an empty grid, or an extent
    /// that does not fit the 32-bit width and height of the container.
    Serialization,
}

/// A sampled scalar field together with its gradient field, both row-major
/// over a `width` by `height` grid. Built once, read-only afterwards.
#[derive(Debug)]
pub struct FieldMap {
    width: usize,
    height: usize,
    data: Vec<i32>,
    deriv: Vec<Grad>,
}

/// The mathematical content of a `FieldMap`.
pub struct FieldMapView {
    pub width: nat,
    pub height: nat,
    pub data: Seq<i32>,
    pub deriv: Seq<Grad>,
}

/// Both fields cover the grid, the gradient field is the one derived from the
/// scalar field, and a three-byte-per-cell raster of the grid fits in memory.
pub open spec fn well_formed(m: FieldMapView) -> bool {
    &&& m.data.len() == m.width * m.height
    &&& m.deriv == gradient_field(m.data, m.width, m.height)
    &&& 3 * m.width * m.height <= usize::MAX
}

/// The magnitude colour of a sample: its value remapped from `[-1, 1]` onto
/// `[0, 1]` and looked up in the magnitude colormap.
pub open spec fn data_color(v: i32) -> Rgb {
    interp(magma_stops(), unit_to_t(v as int))
}

/// The direction colour of a gradient vector whose signed angle to `+x`,
/// divided by pi, is `angle / ONE`: that value remapped onto `[0, 1]` and
/// looked up in the cyclic colormap. The zero vector has angle `0`.
pub open spec fn deriv_color(g: Grad, angle: i32) -> Rgb {
    let t = if g.x == 0 && g.y == 0 { (ONE / 2) as int } else { unit_to_t(angle as int) };
    interp(twilight_stops(), t)
}

/// The magnitude colour of every sample, in order.
pub open spec fn data_colors(data: Seq<i32>) -> Seq<Rgb> {
    Seq::new(data.len(), |k: int| data_color(data[k]))
}

/// The direction colour of every gradient vector, in order, with
/// `angles[k]` the angle of vector `k`.
pub open spec fn deriv_colors(deriv: Seq<Grad>, angles: Seq<i32>) -> Seq<Rgb> {
    Seq::new(deriv.len(), |k: int| deriv_color(deriv[k], angles[k]))
}

/// The 8-bit RGB raster of a sequence of colours: three bytes per colour, in
/// the order red, green, blue.
pub open spec fn rgb_bytes(colors: Seq<Rgb>) -> Seq<u8>
    decreases colors.len(),
{
    if colors.len() == 0 {
        Seq::empty()
    } else {
        let c = colors.last();
        rgb_bytes(colors.drop_last()) + seq![c.r, c.g, c.b]
    }
}

/// A raster holds three bytes per colour.
pub proof fn lemma_rgb_bytes_len(colors: Seq<Rgb>)
    ensures
        rgb_bytes(colors).len() == 3 * colors.len(),
    decreases colors.len(),
{
    if colors.len() > 0 {
        lemma_rgb_bytes_len(colors.drop_last());
    }
}

/// Building a map twice over the same grid with a sampler whose result
/// depends on its arguments alone gives the same scalar and gradient fields.
pub proof fn lemma_map_deterministic<F: Fn(usize, usize) -> i32>(sample: F, a: FieldMapView, b: FieldMapView)
    requires
        deterministic(sample),
        a.width == b.width,
        a.height == b.height,
        sampled(sample, a.width, a.height, a.data),
        sampled(sample, b.width, b.height, b.data),
        well_formed(a),
        well_formed(b),
    ensures
        a == b,
{
    lemma_sampling_deterministic(sample, a.width, a.height, a.data, b.data);
}

fn push_color(out: &mut Vec<u8>, c: Rgb)
    ensures
        final(out)@ == old(out)@ + seq![c.r, c.g, c.b],
{
    out.push(c.r);
    out.push(c.g);
    out.push(c.b);
    assert(final(out)@ =~= old(out)@ + seq![c.r, c.g, c.b]);
}

impl View for FieldMap {
    type V = FieldMapView;

    closed spec fn view(&self) -> FieldMapView {
        FieldMapView { width: self.width as nat, height: self.height as nat, data: self.data@, deriv: self.deriv@ }
    }
}

impl FieldMap {
    #[verifier::type_invariant]
    spec fn inv(&self) -> bool {
        well_formed(self@)
    }

    /// Samples a `width` by `height` grid with `sample(i, j)` for column `i`
    /// and row `j`, and derives its gradient field.
    pub fn new<F: Fn(usize, usize) -> i32>(width: usize, height: usize, sample: F) -> (m: FieldMap)
        requires
            3 * width * height <= usize::MAX,
            forall|i: usize, j: usize| i < width && j < height ==> #[trigger] sample.requires((i, j)),
        ensures
            m@.width == width,
            m@.height == height,
            sampled(sample, width as nat, height as nat, m@.data),
            m@.data.len() == width * height,
            m@.deriv.len() == width * height,
            m@.deriv == gradient_field(m@.data, width as nat, height as nat),
            well_formed(m@),
    {
        assert(width * height <= 3 * width * height) by (nonlinear_arith);
        let data = sample_grid(width, height, sample);
        let deriv = derive_gradient(&data, width, height);
        FieldMap { width, height, data, deriv }
    }

    pub fn width(&self) -> (w: usize)
        ensures
            w == self@.width,
    {
        self.width
    }

    pub fn height(&self) -> (h: usize)
        ensures
            h == self@.height,
    {
        self.height
    }

    /// The scalar field, row-major.
    pub fn data(&self) -> (d: &Vec<i32>)
        ensures
            d@ == self@.data,
    {
        &self.data
    }

    /// The gradient field, row-major.
    pub fn deriv(&self) -> (d: &Vec<Grad>)
        ensures
            d@ == self@.deriv,
    {
        &self.deriv
    }

    /// The scalar field as an 8-bit RGB raster in the magnitude colormap.
    pub fn encode_data(&self) -> (out: Vec<u8>)
        ensures
            out@ == rgb_bytes(data_colors(self@.data)),
            out@.len() == 3 * self@.width * self@.height,
    {
        proof {
            use_type_invariant(self);
        }
        let stops = magma();
        let mut out: Vec<u8> = Vec::new();
        let mut k: usize = 0;
        while k < self.data.len()
            invariant
                well_formed(self@),
                stops@ == magma_stops(),
                k <= self.data@.len(),
                out@ == rgb_bytes(data_colors(self@.data).take(k as int)),
            decreases self.data@.len() - k,
        {
            let c = interpolate(&stops, remap_unit(self.data[k]));
            push_color(&mut out, c);
            proof {
                let cs = data_colors(self@.data);
                assert(cs.take(k + 1).drop_last() =~= cs.take(k as int));
            }
            k = k + 1;
        }
        proof {
            let cs = data_colors(self@.data);
            assert(cs.take(k as int) =~= cs);
            lemma_rgb_bytes_len(cs);
            assert(3 * self@.width * self@.height == 3 * (self@.width * self@.height)) by (nonlinear_arith);
        }
        out
    }

    /// The gradient field as an 8-bit RGB raster in the cyclic colormap.
    /// `angles[k]` is the signed angle from the gradient vector of cell `k`
    /// to `+x`, divided by pi, in units of `1 / ONE`; it is not read for a
    /// zero vector, whose angle is `0`.
    pub fn encode_deriv(&self, angles: &Vec<i32>) -> (out: Vec<u8>)
        requires
            angles@.len() == self@.deriv.len(),
        ensures
            out@ == rgb_bytes(deriv_colors(self@.deriv, angles@)),
            out@.len() == 3 * self@.width * self@.height,
    {
        proof {
            use_type_invariant(self);
        }
        let stops = twilight();
        let mut out: Vec<u8> = Vec::new();
        let mut k: usize = 0;
        while k < self.deriv.len()
            invariant
                well_formed(self@),
                stops@ == twilight_stops(),
                angles@.len() == self@.deriv.len(),
                k <= self.deriv@.len(),
                out@ == rgb_bytes(deriv_colors(self@.deriv, angles@).take(k as int)),
            decreases self.deriv@.len() - k,
        {
            let g = self.deriv[k];
            let t: i64 = if g.x == 0 && g.y == 0 {
                ONE / 2
            } else {
                remap_unit(angles[k])
            };
            let c = interpolate(&stops, t);
            push_color(&mut out, c);
            proof {
                let cs = deriv_colors(self@.deriv, angles@);
                assert(cs.take(k + 1).drop_last() =~= cs.take(k as int));
            }
            k = k + 1;
        }
        proof {
            let cs = deriv_colors(self@.deriv, angles@);
            assert(cs.take(k as int) =~= cs);
            lemma_rgb_bytes_len(cs);
            assert(3 * self@.width * self@.height == 3 * (self@.width * self@.height)) by (nonlinear_arith);
        }
        out
    }

    /// The scalar field raster, serialised as a PNG file.
    pub fn encode_data_png(&self) -> (r: Result<Vec<u8>, EncodeError>)
        ensures
            r is Err <==> (self@.width == 0 || self@.height == 0 || self@.width > u32::MAX
                || self@.height > u32::MAX),
            r matches Ok(png) ==> png@ == png_rgb8(
                rgb_bytes(data_colors(self@.data)),
                self@.width as u32,
                self@.height as u32,
            ),
    {
        let pixels = self.encode_data();
        self.serialize(&pixels)
    }

    /// The gradient field raster, serialised as a PNG file; `angles` as for
    /// `encode_deriv`.
    pub fn encode_deriv_png(&self, angles: &Vec<i32>) -> (r: Result<Vec<u8>, EncodeError>)
        requires
            angles@.len() == self@.deriv.len(),
        ensures
            r is Err <==> (self@.width == 0 || self@.height == 0 || self@.width > u32::MAX
                || self@.height > u32::MAX),
            r matches Ok(png) ==> png@ == png_rgb8(
                rgb_bytes(deriv_colors(self@.deriv, angles@)),
                self@.width as u32,
                self@.height as u32,
            ),
    {
        let pixels = self.encode_deriv(angles);
        self.serialize(&pixels)
    }

    fn serialize(&self, pixels: &Vec<u8>) -> (r: Result<Vec<u8>, EncodeError>)
        requires
            pixels@.len() == 3 * self@.width * self@.height,
        ensures
            r is Err <==> (self@.width == 0 || self@.height == 0 || self@.width > u32::MAX
                || self@.height > u32::MAX),
            r matches Ok(png) ==> png@ == png_rgb8(pixels@, self@.width as u32, self@.height as u32),
    {
        if self.width > u32::MAX as usize || self.height > u32::MAX as usize {
            return Err(EncodeError::Serialization);
        }
        match png_encode_rgb8(pixels, self.width as u32, self.height as u32) {
            Ok(png) => Ok(png),
            Err(_) => Err(EncodeError::Serialization),
        }
    }
}

} // verus!
