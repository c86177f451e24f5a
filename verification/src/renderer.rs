//! The estimator: camera-ray generation, the recursive color estimate with
//! its depth cap, sample accumulation, gamma correction and quantization.
//!
//! Every pixel's bytes are pinned to a specification that is a pure
//! function of the camera, the scene, the image size and the seed, so a
//! render is reproducible byte for byte.

use vstd::prelude::*;

use crate::camera::get_ray_m;
use crate::camera::CamM;
use crate::camera::Camera;
use crate::fixed::add_v;
use crate::fixed::clip;
use crate::fixed::div_v;
use crate::fixed::mul_v;
use crate::fixed::sqrt_v;
use crate::fixed::sub_v;
use crate::fixed::Fixed;
use crate::fixed::RAW_BOUND;
use crate::fixed::SCALE;
use crate::hitable::wf;
use crate::hitable::HitRecord;
use crate::hitable::Hitable;
use crate::hitable_list::scan_spec;
use crate::hitable_list::HitableList;
use crate::material::mat_color_v;
use crate::material::om_ray;
use crate::material::scatter_spec;
use crate::ray::Ray;
use crate::ray::RayM;
use crate::rng::rng_next_state;
use crate::rng::rng_unit;
use crate::rng::Rng;
use crate::vector::vadd;
use crate::vector::vdivs;
use crate::vector::vmul;
use crate::vector::vscale;
use crate::vector::vunit;
use crate::vector::V3;
use crate::vector::Vec3;

verus! {

/// The lower parameter bound of every scene query, a guard against
/// self-intersection of a just-scattered ray ("shadow acne"); about a
/// thousandth of a unit in raw steps.
pub const T_MIN_HIT: i64 = 66;

/// Samples accumulated per pixel.
pub const NUM_SAMPLES: u32 = 16;

/// The fixed maximum path depth; reaching it ends the path at black.
pub const MAX_DEPTH: u32 = 50;

/// The quantization factor, 255.99 in raw steps; the slight excess over
/// 255 lets a full-intensity channel reach the top byte value.
pub const QUANT: i64 = 16776561;

/// Half, in raw steps.
pub const HALF: i64 = 32768;

/// Seven tenths, in raw steps.
pub const SEVEN_TENTHS: i64 = 45875;

/// The zero color.
pub open spec fn black() -> V3 {
    V3 { x: 0, y: 0, z: 0 }
}

/// A whole number as a raw scalar value.
pub open spec fn int_v(i: int) -> int {
    clip(i * SCALE)
}

/// The sky gradient: white blended toward a pale blue by the unit ray
/// direction's vertical component mapped into the unit interval.
pub open spec fn sky_v(dir: V3) -> V3 {
    let unit = vunit(dir);
    let t = mul_v(add_v(unit.y, SCALE as int), HALF as int);
    vadd(
        vscale(V3 { x: SCALE as int, y: SCALE as int, z: SCALE as int }, sub_v(SCALE as int, t)),
        vscale(V3 { x: HALF as int, y: SEVEN_TENTHS as int, z: SCALE as int }, t),
    )
}

/// The color estimate for one ray: the nearest hit's material scatters the
/// path onward and attenuates the recursive estimate; a miss yields the
/// sky, a refused scatter or an exhausted depth budget yields black.
pub open spec fn color_spec(objs: Seq<Hitable>, r: RayM, depth: nat, st: u64) -> (V3, u64)
    decreases MAX_DEPTH - depth,
{
    match scan_spec(objs, r, T_MIN_HIT as int, RAW_BOUND as int) {
        Some(rec) => {
            let (sc, st1) = scatter_spec(rec.material, r, rec, st);
            if depth < MAX_DEPTH && sc is Some {
                let (c, st2) = color_spec(objs, sc->0, (depth + 1) as nat, st1);
                (vmul(c, mat_color_v(rec.material)), st2)
            } else {
                (black(), st1)
            }
        },
        None => (sky_v(r.dir), st),
    }
}

/// One pixel's accumulated samples: each draws a jittered pixel position,
/// asks the camera for a ray and adds the ray's color estimate.
pub open spec fn sample_spec(
    cam: CamM,
    objs: Seq<Hitable>,
    x: int,
    y: int,
    dim_x: int,
    dim_y: int,
    n: nat,
    st: u64,
    acc: V3,
) -> (V3, u64)
    decreases n,
{
    if n == 0 {
        (acc, st)
    } else {
        let u_draw = rng_unit(st);
        let st1 = rng_next_state(st);
        let v_draw = rng_unit(st1);
        let st2 = rng_next_state(st1);
        let u = div_v(add_v(int_v(x), u_draw), int_v(dim_x));
        let v = div_v(add_v(int_v(y), v_draw), int_v(dim_y));
        let (ray, st3) = get_ray_m(cam, u, v, st2);
        let (c, st4) = color_spec(objs, ray, 0, st3);
        sample_spec(cam, objs, x, y, dim_x, dim_y, (n - 1) as nat, st4, vadd(acc, c))
    }
}

/// Quantize one linear channel to a byte: scale by the quantization
/// factor, clamp into the byte range, truncate.
pub open spec fn quant_v(c: int) -> u8 {
    let q = mul_v(c, QUANT as int);
    let lo = if q >= 0 {
        q
    } else {
        0
    };
    let m = if lo <= 255 * (SCALE as int) {
        lo
    } else {
        255 * (SCALE as int)
    };
    (m / (SCALE as int)) as u8
}

/// The random state a pixel starts from: the seed displaced by the pixel's
/// index scrambled with a 64-bit odd constant.
pub open spec fn pixel_seed(seed: u64, idx: u64) -> u64 {
    vstd::wrapping::u64_specs::wrapping_add(
        seed,
        vstd::wrapping::u64_specs::wrapping_mul(idx, 0x9E3779B97F4A7C15),
    )
}

/// One pixel's three channel bytes: average the samples, gamma-correct by
/// componentwise square root, quantize.
#[verifier::opaque]
pub open spec fn pixel_spec(
    cam: CamM,
    objs: Seq<Hitable>,
    x: int,
    y: int,
    dim_x: int,
    dim_y: int,
    seed: u64,
    idx: u64,
) -> (u8, u8, u8) {
    let st0 = pixel_seed(seed, idx);
    let (col, _) = sample_spec(cam, objs, x, y, dim_x, dim_y, NUM_SAMPLES as nat, st0, black());
    let avg = vdivs(col, int_v(NUM_SAMPLES as int));
    (quant_v(sqrt_v(avg.x)), quant_v(sqrt_v(avg.y)), quant_v(sqrt_v(avg.z)))
}

/// The whole image: `dim_x * dim_y * 3` bytes, row-major, top row first,
/// channels interleaved red, green, blue.
pub open spec fn render_spec(
    cam: CamM,
    objs: Seq<Hitable>,
    dim_x: int,
    dim_y: int,
    seed: u64,
) -> Seq<u8> {
    Seq::new(
        (dim_x * dim_y * 3) as nat,
        |i: int|
            {
                let pix = i / 3;
                let ch = i % 3;
                let row = pix / dim_x;
                let x = pix % dim_x;
                let y = dim_y - 1 - row;
                let (r, g, b) = pixel_spec(cam, objs, x, y, dim_x, dim_y, seed, pix as u64);
                if ch == 0 {
                    r
                } else if ch == 1 {
                    g
                } else {
                    b
                }
            },
    )
}

/// The renderer: a camera over a scene.
#[derive(Clone, Copy, Debug)]
pub struct Renderer {
    pub camera: Camera,
}

impl Renderer {
    /// A renderer for the given camera.
    pub fn new(camera: Camera) -> (r: Renderer)
        ensures
            r.camera == camera,
    {
        Renderer { camera }
    }

    /// The next ray of the light path at a hit, from the hit's material.
    pub fn compute_scatter_ray(&self, intersected: &HitRecord, r: &Ray, rng: &mut Rng) -> (res:
        Option<Ray>)
        ensures
            (om_ray(res), final(rng).m()) == scatter_spec(
                intersected.material,
                r.m(),
                intersected.m(),
                old(rng).m(),
            ),
    {
        intersected.material.scatter(r, intersected, rng)
    }

    /// The color estimate for one ray against the scene, recursing over
    /// scattered rays until a miss, an absorption or the depth cap; the
    /// cap bounds the recursion, so the estimate always terminates.
    pub fn color(&self, r: &Ray, world: &HitableList, depth: u32, rng: &mut Rng) -> (res: Vec3)
        requires
            depth <= MAX_DEPTH,
            forall|k: int| 0 <= k < world.objs@.len() ==> wf(#[trigger] world.objs@[k]),
        ensures
            (res.m(), final(rng).m()) == color_spec(
                world.objs@,
                r.m(),
                depth as nat,
                old(rng).m(),
            ),
        decreases MAX_DEPTH - depth,
    {
        let hit_object = world.intersect(r, Fixed::from_raw(T_MIN_HIT), Fixed::from_raw(RAW_BOUND));
        match hit_object {
            Some(obj) => {
                let scattered = self.compute_scatter_ray(&obj, r, rng);
                if depth < MAX_DEPTH && scattered.is_some() {
                    let c = self.color(&scattered.unwrap(), world, depth + 1, rng);
                    c.mul(obj.material.color())
                } else {
                    let zero = Fixed::zero();
                    Vec3::new(zero, zero, zero)
                }
            },
            None => {
                let one = Fixed::one();
                let half = Fixed::from_raw(HALF);
                let unit_direction = Vec3::unit_vec(r.direction());
                let t = unit_direction.y().add(one).mul(half);
                Vec3::new(one, one, one).scale(one.sub(t)).add(
                    Vec3::new(half, Fixed::from_raw(SEVEN_TENTHS), one).scale(t),
                )
            },
        }
    }

    /// One pixel's accumulated samples.
    fn sample_rounds(
        &self,
        world: &HitableList,
        x: u32,
        y: u32,
        dim_x: u32,
        dim_y: u32,
        n: u32,
        rng: &mut Rng,
        acc: Vec3,
    ) -> (res: Vec3)
        requires
            forall|k: int| 0 <= k < world.objs@.len() ==> wf(#[trigger] world.objs@[k]),
        ensures
            (res.m(), final(rng).m()) == sample_spec(
                self.camera.m(),
                world.objs@,
                x as int,
                y as int,
                dim_x as int,
                dim_y as int,
                n as nat,
                old(rng).m(),
                acc.m(),
            ),
        decreases n,
    {
        if n == 0 {
            return acc;
        }
        let u_draw = rng.next_unit();
        let v_draw = rng.next_unit();
        let u = Fixed::from_int(x as i64).add(u_draw).div(Fixed::from_int(dim_x as i64));
        let v = Fixed::from_int(y as i64).add(v_draw).div(Fixed::from_int(dim_y as i64));
        let ray = self.camera.get_ray(u, v, rng);
        let c = self.color(&ray, world, 0, rng);
        self.sample_rounds(world, x, y, dim_x, dim_y, n - 1, rng, acc.add(c))
    }

    /// Quantize one gamma-corrected channel to a byte.
    fn quantize(c: Fixed) -> (b: u8)
        ensures
            b == quant_v(c.val()),
    {
        let q = c.mul(Fixed::from_raw(QUANT));
        let raw: i64 = q.raw();
        let lo: i64 = if raw >= 0 {
            raw
        } else {
            0
        };
        let cap: i64 = 255 * SCALE;
        let m: i64 = if lo <= cap {
            lo
        } else {
            cap
        };
        ((m as u64) / (SCALE as u64)) as u8
    }

    /// One pixel's three channel bytes; exposed so a driver can farm
    /// pixels out to worker threads and still assemble the exact image the
    /// sequential render is pinned to.
    pub fn render_pixel(&self, world: &HitableList, x: u32, y: u32, dim_x: u32, dim_y: u32, seed: u64, idx: u64) -> (res: (
        u8,
        u8,
        u8,
    ))
        requires
            forall|k: int| 0 <= k < world.objs@.len() ==> wf(#[trigger] world.objs@[k]),
        ensures
            res == pixel_spec(
                self.camera.m(),
                world.objs@,
                x as int,
                y as int,
                dim_x as int,
                dim_y as int,
                seed,
                idx,
            ),
    {
        proof {
            reveal(pixel_spec);
        }
        let mut rng = Rng::new(seed.wrapping_add(idx.wrapping_mul(0x9E3779B97F4A7C15)));
        let zero = Fixed::zero();
        let col = self.sample_rounds(
            world,
            x,
            y,
            dim_x,
            dim_y,
            NUM_SAMPLES,
            &mut rng,
            Vec3::new(zero, zero, zero),
        );
        let avg = col.div_s(Fixed::from_int(NUM_SAMPLES as i64));
        (
            Renderer::quantize(avg.x().sqrt()),
            Renderer::quantize(avg.y().sqrt()),
            Renderer::quantize(avg.z().sqrt()),
        )
    }

    /// Render the scene: a buffer of `dim_x * dim_y * 3` bytes in
    /// row-major, top-to-bottom, red-green-blue interleaved order, pinned
    /// byte for byte to the rendering specification of the camera, scene,
    /// image size and seed.
    pub fn render(&self, dim_x: u32, dim_y: u32, world: &HitableList, seed: u64) -> (pixels: Vec<
        u8,
    >)
        requires
            dim_x * dim_y * 3 <= usize::MAX,
            forall|k: int| 0 <= k < world.objs@.len() ==> wf(#[trigger] world.objs@[k]),
        ensures
            pixels@.len() == dim_x * dim_y * 3,
            pixels@ == render_spec(
                self.camera.m(),
                world.objs@,
                dim_x as int,
                dim_y as int,
                seed,
            ),
    {
        let ghost gspec = render_spec(
            self.camera.m(),
            world.objs@,
            dim_x as int,
            dim_y as int,
            seed,
        );
        let mut pixels: Vec<u8> = Vec::new();
        if dim_x == 0 || dim_y == 0 {
            proof {
                assert(gspec.len() == 0);
                assert(pixels@ =~= gspec);
            }
            return pixels;
        }
        let total: u64 = (dim_x as u64) * (dim_y as u64);
        let mut p: u64 = 0;
        while p < total
            invariant
                total == (dim_x as int) * (dim_y as int),
                dim_x >= 1,
                dim_y >= 1,
                dim_x * dim_y * 3 <= usize::MAX,
                p <= total,
                forall|k: int| 0 <= k < world.objs@.len() ==> wf(#[trigger] world.objs@[k]),
                gspec == render_spec(
                    self.camera.m(),
                    world.objs@,
                    dim_x as int,
                    dim_y as int,
                    seed,
                ),
                gspec.len() == total * 3,
                pixels@.len() == p * 3,
                pixels@ =~= gspec.subrange(0, p as int * 3),
            decreases total - p,
        {
            proof {
                assert(p < total);
                vstd::arithmetic::div_mod::lemma_fundamental_div_mod(p as int, dim_x as int);
                assert((p as int) / (dim_x as int) < dim_y as int) by (nonlinear_arith)
                    requires
                        dim_x as int >= 1,
                        (p as int) < (dim_x as int) * (dim_y as int),
                        (p as int) == (dim_x as int) * ((p as int) / (dim_x as int)) + (
                        p as int) % (dim_x as int),
                        0 <= (p as int) % (dim_x as int) < dim_x as int,
                ;
            }
            let x: u32 = (p % (dim_x as u64)) as u32;
            let row: u32 = (p / (dim_x as u64)) as u32;
            let y: u32 = dim_y - 1 - row;
            let (r, g, b) = self.render_pixel(world, x, y, dim_x, dim_y, seed, p);
            proof {
                lemma_render_index(
                    self.camera.m(),
                    world.objs@,
                    dim_x as int,
                    dim_y as int,
                    seed,
                    p as int,
                );
            }
            pixels.push(r);
            pixels.push(g);
            pixels.push(b);
            proof {
                assert(pixels@ =~= gspec.subrange(0, (p + 1) as int * 3));
            }
            p = p + 1;
        }
        proof {
            assert(pixels@ =~= gspec.subrange(0, gspec.len() as int));
            assert(gspec.subrange(0, gspec.len() as int) =~= gspec);
        }
        pixels
    }
}

/// The three bytes at positions `3p`, `3p + 1` and `3p + 2` of the image
/// are the three channels of pixel `p`.
proof fn lemma_render_index(cam: CamM, objs: Seq<Hitable>, dim_x: int, dim_y: int, seed: u64, p: int)
    requires
        dim_x >= 1,
        dim_y >= 1,
        0 <= p < dim_x * dim_y,
    ensures
        ({
            let x = p % dim_x;
            let row = p / dim_x;
            let y = dim_y - 1 - row;
            let (r, g, b) = pixel_spec(cam, objs, x, y, dim_x, dim_y, seed, p as u64);
            &&& 3 * p + 2 < dim_x * dim_y * 3
            &&& render_spec(cam, objs, dim_x, dim_y, seed)[3 * p] == r
            &&& render_spec(cam, objs, dim_x, dim_y, seed)[3 * p + 1] == g
            &&& render_spec(cam, objs, dim_x, dim_y, seed)[3 * p + 2] == b
        }),
{
    assert(3 * p + 2 < dim_x * dim_y * 3) by (nonlinear_arith)
        requires
            0 <= p < dim_x * dim_y,
    ;
    vstd::arithmetic::div_mod::lemma_fundamental_div_mod_converse(3 * p, 3, p, 0);
    vstd::arithmetic::div_mod::lemma_fundamental_div_mod_converse(3 * p + 1, 3, p, 1);
    vstd::arithmetic::div_mod::lemma_fundamental_div_mod_converse(3 * p + 2, 3, p, 2);
}

/// Rendering is deterministic: two buffers rendered from the same camera,
/// scene, image size and seed are byte-identical, since each is pinned to
/// the same function of those inputs.
pub proof fn lemma_render_deterministic(
    b1: Seq<u8>,
    b2: Seq<u8>,
    cam: CamM,
    objs: Seq<Hitable>,
    dim_x: int,
    dim_y: int,
    seed: u64,
)
    requires
        b1 == render_spec(cam, objs, dim_x, dim_y, seed),
        b2 == render_spec(cam, objs, dim_x, dim_y, seed),
    ensures
        b1 == b2,
{
}

/// The depth cap terminates every path: at the cap, a hit whose material
/// still scatters contributes black rather than recursing further.
pub proof fn lemma_color_depth_cap(objs: Seq<Hitable>, r: RayM, st: u64)
    requires
        scan_spec(objs, r, T_MIN_HIT as int, RAW_BOUND as int) is Some,
    ensures
        color_spec(objs, r, MAX_DEPTH as nat, st).0 == black(),
{
}

} // verus!
