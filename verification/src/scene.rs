use vstd::prelude::*;
use vstd::std_specs::ops::{AddSpec, DivSpec, MulSpec};
use std::ops::{Add, Div, Mul};
use crate::hittable::{HitRecord, Hittable};
use crate::hittable_list::LightedWorld;
use crate::material::{Material, ScatterRecord};
use crate::scalar::INFINITY;

verus! {

/// The rank of one thousandth, the ray parameter from which on a hit counts:
/// what lies nearer is the surface that the ray has just left.
pub const T_MIN: i64 = 0x3f50_624d_d2f1_a9fc;

/// One direction drawn for a body scatter: the ray that goes on in it, and
/// the density with which the direction was drawn.
pub struct Sample<R, S> {
    pub ray: R,
    pub pdf_value: S,
}

/// Whether sums and products of colours can always be taken: the operators
/// ask nothing of their operands.
pub open spec fn total_sums<C: Add<Output = C> + Mul<Output = C>>() -> bool {
    &&& forall|a: C, b: C| #[trigger] AddSpec::<C>::add_req(a, b)
    &&& forall|a: C, b: C| #[trigger] MulSpec::<C>::mul_req(a, b)
}

/// Whether sums and products of colours, and products and quotients of a
/// colour and a scalar, can always be taken.
pub open spec fn total_arithmetic<C, S>() -> bool where
    C: Add<Output = C> + Mul<Output = C> + Mul<S, Output = C> + Div<S, Output = C>,
 {
    &&& total_sums::<C>()
    &&& forall|a: C, s: S| #[trigger] MulSpec::<S>::mul_req(a, s)
    &&& forall|a: C, s: S| #[trigger] DivSpec::<S>::div_req(a, s)
}

/// Whether sums and products of colours are specified, so that what they
/// return can be stated.
pub open spec fn exact_sums<C: Add<Output = C> + Mul<Output = C>>() -> bool {
    &&& <C as AddSpec<C>>::obeys_add_spec()
    &&& <C as MulSpec<C>>::obeys_mul_spec()
}

/// Whether all the colour operators are specified, so that what they return
/// can be stated.
pub open spec fn exact_arithmetic<C, S>() -> bool where
    C: Add<Output = C> + Mul<Output = C> + Mul<S, Output = C> + Div<S, Output = C>,
 {
    &&& exact_sums::<C>()
    &&& <C as MulSpec<S>>::obeys_mul_spec()
    &&& <C as DivSpec<S>>::obeys_div_spec()
}

/// The light along a ray that is scattered specularly: what the surface
/// gives off, and what comes back along the new ray, weighted.
pub open spec fn specular_estimate<C: Add<Output = C> + Mul<Output = C>>(
    emitted: C,
    attenuation: C,
    incoming: C,
) -> C {
    AddSpec::<C>::add_spec(emitted, MulSpec::<C>::mul_spec(attenuation, incoming))
}

/// The light along a ray that is scattered by the body of a surface: what
/// the surface gives off, and what comes back along the drawn ray, weighted
/// by the attenuation and by the density with which the surface scatters
/// that way, over the density with which the direction was drawn.
pub open spec fn body_estimate<C, S>(
    emitted: C,
    attenuation: C,
    scattering_pdf: S,
    incoming: C,
    pdf_value: S,
) -> C where C: Add<Output = C> + Mul<Output = C> + Mul<S, Output = C> + Div<S, Output = C> {
    AddSpec::<C>::add_spec(
        emitted,
        DivSpec::<S>::div_spec(
            MulSpec::<C>::mul_spec(MulSpec::<S>::mul_spec(attenuation, scattering_pdf), incoming),
            pdf_value,
        ),
    )
}

/// Whether `out` is the specular estimate, as far as sums and products of
/// colours are specified.
pub open spec fn is_specular_estimate<C: Add<Output = C> + Mul<Output = C>>(
    emitted: C,
    attenuation: C,
    incoming: C,
    out: C,
) -> bool {
    exact_sums::<C>() ==> out == specular_estimate(emitted, attenuation, incoming)
}

/// Whether `out` is the body estimate, as far as the colour operators are
/// specified.
pub open spec fn is_body_estimate<C, S>(
    emitted: C,
    attenuation: C,
    scattering_pdf: S,
    incoming: C,
    pdf_value: S,
    out: C,
) -> bool where C: Add<Output = C> + Mul<Output = C> + Mul<S, Output = C> + Div<S, Output = C> {
    exact_arithmetic::<C, S>() ==> out == body_estimate(
        emitted,
        attenuation,
        scattering_pdf,
        incoming,
        pdf_value,
    )
}

/// The estimate of the light along a ray that is scattered specularly.
pub fn specular<C: Add<Output = C> + Mul<Output = C>>(emitted: C, attenuation: C, incoming: C) -> (out:
    C)
    requires
        total_sums::<C>(),
    ensures
        is_specular_estimate(emitted, attenuation, incoming, out),
{
    emitted + attenuation * incoming
}

/// The estimate of the light along a ray that is scattered by the body of a
/// surface.
pub fn body<C, S>(emitted: C, attenuation: C, scattering_pdf: S, incoming: C, pdf_value: S) -> (out:
    C) where C: Add<Output = C> + Mul<Output = C> + Mul<S, Output = C> + Div<S, Output = C>
    requires
        total_arithmetic::<C, S>(),
    ensures
        is_body_estimate(emitted, attenuation, scattering_pdf, incoming, pdf_value, out),
{
    emitted + attenuation * scattering_pdf * incoming / pdf_value
}

/// Whether `draw` may answer with `sample` when it is asked for a direction
/// in which to follow `ray_in` on after `hit`.
pub open spec fn may_draw<R, D, P, S, F>(
    draw: &F,
    ray_in: &R,
    hit: &HitRecord<D>,
    pdf: &P,
    use_lights: bool,
    sample: Option<Sample<R, S>>,
) -> bool where F: Fn(&R, &HitRecord<D>, &P, bool) -> Option<Sample<R, S>> {
    call_ensures(*draw, (ray_in, hit, pdf, use_lights), sample)
}

/// Whether `out` may be the light that comes back along `ray` when it is
/// followed for at most `depth` hits: `black` when no hit is left, and
/// otherwise what follows from one of the answers that the scene may give.
pub open spec fn radiance<H, C, S, P, F>(
    ray: &H::Ray,
    world: &LightedWorld<H>,
    draw: &F,
    background: C,
    black: C,
    depth: nat,
    out: C,
) -> bool where
    H: Hittable,
    H::Detail: Material<Ray = H::Ray, Color = C, Scalar = S, Pdf = P>,
    C: Add<Output = C> + Mul<Output = C> + Mul<S, Output = C> + Div<S, Output = C>,
    F: Fn(&H::Ray, &HitRecord<H::Detail>, &P, bool) -> Option<Sample<H::Ray, S>>,

    decreases depth, 3int,
{
    if depth == 0 {
        out == black
    } else {
        exists|found: Option<HitRecord<H::Detail>>|
            #[trigger] world.hit_outcome(ray, T_MIN, INFINITY, found) && radiance_after_hit(
                ray,
                world,
                draw,
                background,
                black,
                depth,
                found,
                out,
            )
    }
}

/// The light along `ray` once the scene has answered: the background after a
/// miss, and after a hit what follows from one of the ways in which the
/// surface may scatter the ray.
pub open spec fn radiance_after_hit<H, C, S, P, F>(
    ray: &H::Ray,
    world: &LightedWorld<H>,
    draw: &F,
    background: C,
    black: C,
    depth: nat,
    found: Option<HitRecord<H::Detail>>,
    out: C,
) -> bool where
    H: Hittable,
    H::Detail: Material<Ray = H::Ray, Color = C, Scalar = S, Pdf = P>,
    C: Add<Output = C> + Mul<Output = C> + Mul<S, Output = C> + Div<S, Output = C>,
    F: Fn(&H::Ray, &HitRecord<H::Detail>, &P, bool) -> Option<Sample<H::Ray, S>>,

    decreases depth, 2int,
{
    match found {
        None => out == background,
        Some(hit) => exists|scattered: Option<ScatterRecord<H::Ray, C, P>>|
            #[trigger] hit.detail.scatter_outcome(ray, &hit, scattered) && radiance_after_scatter(
                ray,
                world,
                draw,
                background,
                black,
                depth,
                hit,
                scattered,
                out,
            ),
    }
}

/// The light along `ray` once the surface has answered: its own light where
/// it absorbs the ray; its own light and the weighted light along the new
/// ray where it scatters the ray specularly; and otherwise what follows from
/// one of the directions that may be drawn.
pub open spec fn radiance_after_scatter<H, C, S, P, F>(
    ray: &H::Ray,
    world: &LightedWorld<H>,
    draw: &F,
    background: C,
    black: C,
    depth: nat,
    hit: HitRecord<H::Detail>,
    scattered: Option<ScatterRecord<H::Ray, C, P>>,
    out: C,
) -> bool where
    H: Hittable,
    H::Detail: Material<Ray = H::Ray, Color = C, Scalar = S, Pdf = P>,
    C: Add<Output = C> + Mul<Output = C> + Mul<S, Output = C> + Div<S, Output = C>,
    F: Fn(&H::Ray, &HitRecord<H::Detail>, &P, bool) -> Option<Sample<H::Ray, S>>,

    decreases depth, 1int,
{
    match scattered {
        None => out == hit.detail.spec_emitted(&hit),
        Some(record) => if record.is_specular {
            exists|incoming: C|
                depth > 0 && radiance(
                    &record.specular_ray,
                    world,
                    draw,
                    background,
                    black,
                    (depth - 1) as nat,
                    incoming,
                ) && #[trigger] is_specular_estimate(
                    hit.detail.spec_emitted(&hit),
                    record.attenuation,
                    incoming,
                    out,
                )
        } else {
            exists|drawn: Option<Sample<H::Ray, S>>|
                #[trigger] may_draw(draw, ray, &hit, &record.pdf, world.spec_has_lights(), drawn)
                    && radiance_after_draw(
                    ray,
                    world,
                    draw,
                    background,
                    black,
                    depth,
                    hit,
                    record.attenuation,
                    drawn,
                    out,
                )
        },
    }
}

/// The light along `ray` once a direction has been asked for: the surface's
/// own light where none was given, and otherwise its own light and the
/// weighted light along the drawn ray.
pub open spec fn radiance_after_draw<H, C, S, P, F>(
    ray: &H::Ray,
    world: &LightedWorld<H>,
    draw: &F,
    background: C,
    black: C,
    depth: nat,
    hit: HitRecord<H::Detail>,
    attenuation: C,
    drawn: Option<Sample<H::Ray, S>>,
    out: C,
) -> bool where
    H: Hittable,
    H::Detail: Material<Ray = H::Ray, Color = C, Scalar = S, Pdf = P>,
    C: Add<Output = C> + Mul<Output = C> + Mul<S, Output = C> + Div<S, Output = C>,
    F: Fn(&H::Ray, &HitRecord<H::Detail>, &P, bool) -> Option<Sample<H::Ray, S>>,

    decreases depth, 0int,
{
    match drawn {
        None => out == hit.detail.spec_emitted(&hit),
        Some(sample) => exists|incoming: C|
            depth > 0 && radiance(
                &sample.ray,
                world,
                draw,
                background,
                black,
                (depth - 1) as nat,
                incoming,
            ) && #[trigger] is_body_estimate(
                hit.detail.spec_emitted(&hit),
                attenuation,
                hit.detail.spec_scattering_pdf(ray, &hit, &sample.ray),
                incoming,
                sample.pdf_value,
                out,
            ),
    }
}

/// The number of hits for which a ray is followed at a depth of `max_depth`.
pub open spec fn hits_left(max_depth: i32) -> nat {
    if max_depth <= 0 {
        0
    } else {
        max_depth as nat
    }
}

/// Estimates the light that comes back along `ray`.
///
/// After `max_depth` hits the ray is given up and counts as `black`. A ray
/// that hits nothing brings the `background`. At a hit the surface gives off
/// its own light; if it absorbs the ray that is all. If it scatters the ray
/// specularly, the new ray is followed. If its body scatters the ray, `draw`
/// is asked for a direction, from the surface and the lights together or,
/// in a scene without lights, from the surface alone; where it has none to
/// give, the surface's own light is all.
pub fn ray_color<H, C, S, P, F>(
    ray: &H::Ray,
    world: &LightedWorld<H>,
    draw: &F,
    background: &C,
    black: &C,
    max_depth: i32,
) -> (out: C) where
    H: Hittable,
    H::Detail: Material<Ray = H::Ray, Color = C, Scalar = S, Pdf = P>,
    C: Copy + Add<Output = C> + Mul<Output = C> + Mul<S, Output = C> + Div<S, Output = C>,
    S: Copy,
    F: Fn(&H::Ray, &HitRecord<H::Detail>, &P, bool) -> Option<Sample<H::Ray, S>>,

    requires
        total_arithmetic::<C, S>(),
        forall|ray_in: &H::Ray, hit: &HitRecord<H::Detail>, pdf: &P, use_lights: bool|
            call_requires(*draw, (ray_in, hit, pdf, use_lights)),
    ensures
        radiance(ray, world, draw, *background, *black, hits_left(max_depth), out),
    decreases max_depth,
{
    if max_depth <= 0 {
        return *black;
    }
    let ghost depth = hits_left(max_depth);
    let found = world.hit(ray, T_MIN, INFINITY);
    let ghost seen = found;
    let hit = match found {
        Some(hit) => hit,
        None => {
            assert(radiance_after_hit(ray, world, draw, *background, *black, depth, seen, *background));
            return *background;
        },
    };
    let emitted = hit.detail.emitted(&hit);
    let scattered = hit.detail.scatter(ray, &hit);
    let ghost answer = scattered;
    let record = match scattered {
        Some(record) => record,
        None => {
            assert(radiance_after_scatter(
                ray,
                world,
                draw,
                *background,
                *black,
                depth,
                hit,
                answer,
                emitted,
            ));
            assert(radiance_after_hit(ray, world, draw, *background, *black, depth, seen, emitted));
            return emitted;
        },
    };
    if record.is_specular {
        let incoming = ray_color(&record.specular_ray, world, draw, background, black, max_depth - 1);
        let out = specular(emitted, record.attenuation, incoming);
        assert(radiance_after_scatter(ray, world, draw, *background, *black, depth, hit, answer, out));
        assert(radiance_after_hit(ray, world, draw, *background, *black, depth, seen, out));
        out
    } else {
        let drawn = draw(ray, &hit, &record.pdf, world.has_lights());
        let ghost given = drawn;
        assert(may_draw(draw, ray, &hit, &record.pdf, world.spec_has_lights(), given));
        let out = match drawn {
            None => emitted,
            Some(sample) => {
                let scattering_pdf = hit.detail.scattering_pdf(ray, &hit, &sample.ray);
                let incoming = ray_color(&sample.ray, world, draw, background, black, max_depth - 1);
                body(emitted, record.attenuation, scattering_pdf, incoming, sample.pdf_value)
            },
        };
        assert(radiance_after_draw(
            ray,
            world,
            draw,
            *background,
            *black,
            depth,
            hit,
            record.attenuation,
            given,
            out,
        ));
        assert(radiance_after_scatter(ray, world, draw, *background, *black, depth, hit, answer, out));
        assert(radiance_after_hit(ray, world, draw, *background, *black, depth, seen, out));
        out
    }
}

/// A ray that can hit nothing brings exactly the background, however many
/// hits it would be followed for.
pub proof fn lemma_miss_is_background<H, C, S, P, F>(
    ray: &H::Ray,
    world: &LightedWorld<H>,
    draw: &F,
    background: C,
    black: C,
    depth: nat,
    out: C,
) where
    H: Hittable,
    H::Detail: Material<Ray = H::Ray, Color = C, Scalar = S, Pdf = P>,
    C: Add<Output = C> + Mul<Output = C> + Mul<S, Output = C> + Div<S, Output = C>,
    F: Fn(&H::Ray, &HitRecord<H::Detail>, &P, bool) -> Option<Sample<H::Ray, S>>,

    requires
        depth > 0,
        forall|found: Option<HitRecord<H::Detail>>|
            world.hit_outcome(ray, T_MIN, INFINITY, found) ==> found.is_none(),
        radiance(ray, world, draw, background, black, depth, out),
    ensures
        out == background,
{
}

/// In a scene without primitives every ray brings exactly the background.
pub proof fn lemma_empty_scene_is_background<H, C, S, P, F>(
    ray: &H::Ray,
    world: &LightedWorld<H>,
    draw: &F,
    background: C,
    black: C,
    depth: nat,
    out: C,
) where
    H: Hittable,
    H::Detail: Material<Ray = H::Ray, Color = C, Scalar = S, Pdf = P>,
    C: Add<Output = C> + Mul<Output = C> + Mul<S, Output = C> + Div<S, Output = C>,
    F: Fn(&H::Ray, &HitRecord<H::Detail>, &P, bool) -> Option<Sample<H::Ray, S>>,

    requires
        depth > 0,
        world.objects.objects@.len() == 0,
        radiance(ray, world, draw, background, black, depth, out),
    ensures
        out == background,
{
    assert forall|found: Option<HitRecord<H::Detail>>|
        world.hit_outcome(ray, T_MIN, INFINITY, found) implies found.is_none() by {
        let hits = choose|hits: Seq<Option<HitRecord<H::Detail>>>|
            crate::hittable_list::scan_of(world.objects.objects@, ray, T_MIN, INFINITY, hits)
                && found == crate::hittable_list::last_hit(hits);
        assert(hits.len() == 0);
    }
    lemma_miss_is_background(ray, world, draw, background, black, depth, out);
}

/// A ray that can only hit surfaces that absorb it brings the background or
/// what one of those surfaces gives off, and nothing else: light comes from
/// what gives it off alone.
pub proof fn lemma_absorbed_is_emitted<H, C, S, P, F>(
    ray: &H::Ray,
    world: &LightedWorld<H>,
    draw: &F,
    background: C,
    black: C,
    depth: nat,
    out: C,
) where
    H: Hittable,
    H::Detail: Material<Ray = H::Ray, Color = C, Scalar = S, Pdf = P>,
    C: Add<Output = C> + Mul<Output = C> + Mul<S, Output = C> + Div<S, Output = C>,
    F: Fn(&H::Ray, &HitRecord<H::Detail>, &P, bool) -> Option<Sample<H::Ray, S>>,

    requires
        depth > 0,
        forall|hit: HitRecord<H::Detail>, scattered: Option<ScatterRecord<H::Ray, C, P>>|
            world.hit_outcome(ray, T_MIN, INFINITY, Some(hit)) && #[trigger] hit.detail.scatter_outcome(
                ray,
                &hit,
                scattered,
            ) ==> scattered.is_none(),
        radiance(ray, world, draw, background, black, depth, out),
    ensures
        out == background || exists|hit: HitRecord<H::Detail>|
            #[trigger] world.hit_outcome(ray, T_MIN, INFINITY, Some(hit)) && out
                == hit.detail.spec_emitted(&hit),
{
    let found = choose|found: Option<HitRecord<H::Detail>>|
        #[trigger] world.hit_outcome(ray, T_MIN, INFINITY, found) && radiance_after_hit(
            ray,
            world,
            draw,
            background,
            black,
            depth,
            found,
            out,
        );
    if let Some(hit) = found {
        let scattered = choose|scattered: Option<ScatterRecord<H::Ray, C, P>>|
            #[trigger] hit.detail.scatter_outcome(ray, &hit, scattered) && radiance_after_scatter(
                ray,
                world,
                draw,
                background,
                black,
                depth,
                hit,
                scattered,
                out,
            );
        assert(scattered.is_none());
        assert(world.hit_outcome(ray, T_MIN, INFINITY, Some(hit)));
    }
}

/// The sum of `samples`, added to `zero` one after the other.
pub open spec fn sum_of<C: Add<Output = C>>(zero: C, samples: Seq<C>) -> C
    decreases samples.len(),
{
    if samples.len() == 0 {
        zero
    } else {
        sum_of(zero, samples.drop_last()).add_spec(samples.last())
    }
}

/// Whether `samples` are estimates that `sample` may give for the pixel in
/// column `x` and row `y`, `spp` of them.
pub open spec fn samples_of<C, F: Fn(usize, usize) -> C>(
    sample: &F,
    x: usize,
    y: usize,
    spp: usize,
    samples: Seq<C>,
) -> bool {
    &&& samples.len() == spp
    &&& forall|k: int| 0 <= k < samples.len() ==> call_ensures(*sample, (x, y), #[trigger] samples[k])
}

/// Whether `out` may be the colour of the pixel in column `x` and row `y`:
/// the sum of `spp` estimates, as far as the sum of colours is specified.
pub open spec fn pixel_of<C: Add<Output = C>, F: Fn(usize, usize) -> C>(
    sample: &F,
    x: usize,
    y: usize,
    spp: usize,
    zero: C,
    out: C,
) -> bool {
    exists|samples: Seq<C>| #[trigger]
        samples_of(sample, x, y, spp, samples) && (C::obeys_add_spec() ==> out == sum_of(
            zero,
            samples,
        ))
}

/// Whether `sample` can be asked for every pixel and colours can always be
/// added.
pub open spec fn can_render<C: Add<Output = C>, F: Fn(usize, usize) -> C>(sample: &F) -> bool {
    &&& forall|x: usize, y: usize| call_requires(*sample, (x, y))
    &&& forall|a: C, b: C| #[trigger] a.add_req(b)
}

/// The colour of one pixel: the sum of `spp` estimates of the light that
/// reaches it, each asked of `sample`. The sum is not divided by `spp`.
pub fn render_pixel<C: Copy + Add<Output = C>, F: Fn(usize, usize) -> C>(
    x: usize,
    y: usize,
    spp: usize,
    zero: C,
    sample: &F,
) -> (out: C)
    requires
        can_render::<C, F>(sample),
    ensures
        pixel_of(sample, x, y, spp, zero, out),
{
    let mut color = zero;
    let ghost mut samples: Seq<C> = Seq::empty();
    let mut k: usize = 0;
    while k < spp
        invariant
            k <= spp,
            can_render::<C, F>(sample),
            samples_of(sample, x, y, k, samples),
            C::obeys_add_spec() ==> color == sum_of(zero, samples),
        decreases spp - k,
    {
        let estimate = sample(x, y);
        proof {
            let longer = samples.push(estimate);
            assert(longer.drop_last() =~= samples);
            assert forall|j: int| 0 <= j < longer.len() implies call_ensures(
                *sample,
                (x, y),
                #[trigger] longer[j],
            ) by {
                if j < samples.len() {
                    assert(longer[j] == samples[j]);
                }
            }
            samples = longer;
        }
        color = color + estimate;
        k += 1;
    }
    color
}

/// A picture to be rendered: its size in pixels, what is in it, from where
/// it is seen, and how many estimates are summed for each pixel.
pub struct Scene<W, K, C> {
    pub height: usize,
    pub width: usize,
    pub world: W,
    pub camera: K,
    pub spp: usize,
    pub background: C,
}

impl<W, K, C> Scene<W, K, C> {
    /// A picture of the given parts.
    pub fn new(height: usize, width: usize, world: W, camera: K, spp: usize, background: C) -> (r:
        Self)
        ensures
            r.height == height,
            r.width == width,
            r.world == world,
            r.camera == camera,
            r.spp == spp,
            r.background == background,
    {
        Self { height, width, world, camera, spp, background }
    }

    /// Where the pixel in column `i` and row `j` stands in the buffer: the
    /// rows follow one another from the top. A pixel inside the picture
    /// stands inside the buffer.
    pub fn get_pixel_index(&self, i: usize, j: usize) -> (r: usize)
        requires
            j * self.width + i <= usize::MAX,
        ensures
            r == j * self.width + i,
            i < self.width && j < self.height ==> r < self.height * self.width,
    {
        assert(i < self.width && j < self.height ==> j * self.width + i < self.height
            * self.width) by (nonlinear_arith);
        assert(0 <= j * self.width <= j * self.width + i) by (nonlinear_arith);
        j * self.width + i
    }
}

impl<W, K, C: Copy + Add<Output = C>> Scene<W, K, C> {
    /// Renders the picture row by row: the colour of every pixel is the sum
    /// of `spp` estimates asked of `sample`, and stands in the buffer at
    /// the pixel's index.
    pub fn render<F: Fn(usize, usize) -> C>(&self, zero: C, sample: &F) -> (buf: Vec<C>)
        requires
            can_render::<C, F>(sample),
            self.height * self.width <= usize::MAX,
        ensures
            buf@.len() == self.height * self.width,
            forall|i: int, j: int|
                0 <= i < self.width && 0 <= j < self.height ==> pixel_of(
                    sample,
                    i as usize,
                    j as usize,
                    self.spp,
                    zero,
                    #[trigger] buf@[j * self.width + i],
                ),
    {
        let mut buf: Vec<C> = Vec::new();
        let mut j: usize = 0;
        while j < self.height
            invariant
                j <= self.height,
                can_render::<C, F>(sample),
                self.height * self.width <= usize::MAX,
                buf@.len() == j * self.width,
                forall|a: int, b: int|
                    0 <= a < self.width && 0 <= b < j ==> pixel_of(
                        sample,
                        a as usize,
                        b as usize,
                        self.spp,
                        zero,
                        #[trigger] buf@[b * self.width + a],
                    ),
            decreases self.height - j,
        {
            let mut i: usize = 0;
            while i < self.width
                invariant
                    j < self.height,
                    i <= self.width,
                    can_render::<C, F>(sample),
                    self.height * self.width <= usize::MAX,
                    buf@.len() == j * self.width + i,
                    forall|a: int, b: int|
                        0 <= a < self.width && 0 <= b < j ==> pixel_of(
                            sample,
                            a as usize,
                            b as usize,
                            self.spp,
                            zero,
                            #[trigger] buf@[b * self.width + a],
                        ),
                    forall|a: int|
                        0 <= a < i ==> pixel_of(
                            sample,
                            a as usize,
                            j,
                            self.spp,
                            zero,
                            #[trigger] buf@[j * self.width + a],
                        ),
                decreases self.width - i,
            {
                let color = render_pixel(i, j, self.spp, zero, sample);
                let ghost before = buf@;
                buf.push(color);
                proof {
                    assert forall|a: int, b: int| 0 <= a < self.width && 0 <= b < j implies pixel_of(
                        sample,
                        a as usize,
                        b as usize,
                        self.spp,
                        zero,
                        #[trigger] buf@[b * self.width + a],
                    ) by {
                        assert(b * self.width + a < j * self.width) by (nonlinear_arith)
                            requires
                                0 <= a < self.width,
                                0 <= b < j,
                        ;
                        assert(buf@[b * self.width + a] == before[b * self.width + a]);
                    }
                    assert forall|a: int| 0 <= a < i + 1 implies pixel_of(
                        sample,
                        a as usize,
                        j,
                        self.spp,
                        zero,
                        #[trigger] buf@[j * self.width + a],
                    ) by {
                        if a < i {
                            assert(buf@[j * self.width + a] == before[j * self.width + a]);
                        }
                    }
                }
                i += 1;
            }
            proof {
                assert((j + 1) * self.width == j * self.width + self.width) by (nonlinear_arith);
                assert forall|a: int, b: int| 0 <= a < self.width && 0 <= b < j + 1 implies pixel_of(
                    sample,
                    a as usize,
                    b as usize,
                    self.spp,
                    zero,
                    #[trigger] buf@[b * self.width + a],
                ) by {
                    if b == j {
                        assert(pixel_of(sample, a as usize, j, self.spp, zero, buf@[j * self.width + a]));
                    }
                }
            }
            j += 1;
        }
        buf
    }
}

} // verus!
