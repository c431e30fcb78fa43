//! The render driver: jittered camera samples per pixel, scanlines
//! rendered independently and in parallel, assembled top-to-bottom.
//!
//! Every scanline owns a generator seeded from its row index, so each
//! pixel — and the whole image — is pinned down by contract as an exact
//! function of the camera, the scene and the image geometry. That is the
//! renderer's reproducibility guarantee, stated by
//! [`lemma_render_deterministic`].

use crate::camera::{spec_get_ray, wf_camera, Camera};
use crate::objects::{wf_world, Object};
use crate::rng::Rng64;
use crate::vec3::{spec_add, v3, Vec3};
use crate::{
    random_scalar, ray_color, spec_rand, spec_ray_color, Color, SCALE,
};
use rayon::iter::{IndexedParallelIterator, IntoParallelIterator, ParallelIterator};
use vstd::prelude::*;

verus! {

/// Accumulates the remaining jittered samples of one pixel: each sample
/// draws two jitters, aims a camera ray and traces it.
#[verifier::opaque]
pub open spec fn spec_sample_rec(
    cam: Camera,
    world: Seq<Object>,
    st: u64,
    i: u32,
    j: u32,
    width: u32,
    height: u32,
    depth: u32,
    left: nat,
    acc: Vec3,
) -> (Vec3, int)
    decreases left,
{
    if left == 0 {
        (acc, st as int)
    } else {
        let a = spec_rand(st);
        let u = ((i * SCALE + a.0) / (width as int)) as i64;
        let b = spec_rand(a.1 as u64);
        let v = ((j * SCALE + b.0) / (height as int)) as i64;
        let g = spec_get_ray(cam, b.1 as u64, u, v);
        let rc = spec_ray_color(g.1 as u64, g.0, world, depth);
        spec_sample_rec(
            cam,
            world,
            rc.1 as u64,
            i,
            j,
            width,
            height,
            depth,
            (left - 1) as nat,
            spec_add(acc, rc.0),
        )
    }
}

/// One pixel's accumulated color over all its samples, and the generator
/// state afterwards.
pub open spec fn spec_pixel(
    cam: Camera,
    world: Seq<Object>,
    st: u64,
    i: u32,
    j: u32,
    width: u32,
    height: u32,
    samples: u32,
    depth: u32,
) -> (Vec3, int) {
    spec_sample_rec(cam, world, st, i, j, width, height, depth, samples as nat, v3(0, 0, 0))
}

/// Walks one scanline left to right, appending each pixel's accumulated
/// color.
#[verifier::opaque]
pub open spec fn spec_row_rec(
    cam: Camera,
    world: Seq<Object>,
    st: u64,
    j: u32,
    width: u32,
    height: u32,
    samples: u32,
    depth: u32,
    i: int,
    acc: Seq<Color>,
) -> (Seq<Color>, int)
    decreases width - i,
{
    if i < 0 || i >= width {
        (acc, st as int)
    } else {
        let px = spec_pixel(cam, world, st, i as u32, j, width, height, samples, depth);
        spec_row_rec(
            cam,
            world,
            px.1 as u64,
            j,
            width,
            height,
            samples,
            depth,
            i + 1,
            acc.push(px.0),
        )
    }
}

/// One scanline: the generator is seeded from the row index alone.
pub open spec fn spec_render_row(
    cam: Camera,
    world: Seq<Object>,
    width: u32,
    height: u32,
    samples: u32,
    depth: u32,
    j: u32,
) -> Seq<Color> {
    spec_row_rec(cam, world, j as u64, j, width, height, samples, depth, 0, Seq::empty()).0
}

/// The first `n` scanlines of the finished image, top row first: row
/// `height - 1` down to row `height - n`.
pub open spec fn spec_image_rec(
    cam: Camera,
    world: Seq<Object>,
    width: u32,
    height: u32,
    samples: u32,
    depth: u32,
    n: int,
) -> Seq<Color>
    decreases n,
{
    if n <= 0 {
        Seq::empty()
    } else {
        spec_image_rec(cam, world, width, height, samples, depth, n - 1) + spec_render_row(
            cam,
            world,
            width,
            height,
            samples,
            depth,
            (height - n) as u32,
        )
    }
}

/// The finished image in row-major order, top row first.
pub open spec fn spec_render_image(
    cam: Camera,
    world: Seq<Object>,
    width: u32,
    height: u32,
    samples: u32,
    depth: u32,
) -> Seq<Color> {
    spec_image_rec(cam, world, width, height, samples, depth, height as int)
}

proof fn lemma_sample_unfold(
    cam: Camera,
    world: Seq<Object>,
    st: u64,
    i: u32,
    j: u32,
    width: u32,
    height: u32,
    depth: u32,
    left: nat,
    acc: Vec3,
)
    requires
        1 <= left,
    ensures
        ({
            let a = spec_rand(st);
            let u = ((i * SCALE + a.0) / (width as int)) as i64;
            let b = spec_rand(a.1 as u64);
            let v = ((j * SCALE + b.0) / (height as int)) as i64;
            let g = spec_get_ray(cam, b.1 as u64, u, v);
            let rc = spec_ray_color(g.1 as u64, g.0, world, depth);
            spec_sample_rec(cam, world, st, i, j, width, height, depth, left, acc)
                == spec_sample_rec(
                cam,
                world,
                rc.1 as u64,
                i,
                j,
                width,
                height,
                depth,
                (left - 1) as nat,
                spec_add(acc, rc.0),
            )
        }),
{
    reveal_with_fuel(spec_sample_rec, 1);
}

proof fn lemma_sample_base(
    cam: Camera,
    world: Seq<Object>,
    st: u64,
    i: u32,
    j: u32,
    width: u32,
    height: u32,
    depth: u32,
    acc: Vec3,
)
    ensures
        spec_sample_rec(cam, world, st, i, j, width, height, depth, 0, acc) == ((acc, st as int)),
{
    reveal_with_fuel(spec_sample_rec, 1);
}

proof fn lemma_row_unfold(
    cam: Camera,
    world: Seq<Object>,
    st: u64,
    j: u32,
    width: u32,
    height: u32,
    samples: u32,
    depth: u32,
    i: int,
    acc: Seq<Color>,
)
    requires
        0 <= i < width,
    ensures
        ({
            let px = spec_pixel(cam, world, st, i as u32, j, width, height, samples, depth);
            spec_row_rec(cam, world, st, j, width, height, samples, depth, i, acc)
                == spec_row_rec(
                cam,
                world,
                px.1 as u64,
                j,
                width,
                height,
                samples,
                depth,
                i + 1,
                acc.push(px.0),
            )
        }),
{
    reveal_with_fuel(spec_row_rec, 1);
}

proof fn lemma_row_base(
    cam: Camera,
    world: Seq<Object>,
    st: u64,
    j: u32,
    width: u32,
    height: u32,
    samples: u32,
    depth: u32,
    i: int,
    acc: Seq<Color>,
)
    requires
        i >= width,
    ensures
        spec_row_rec(cam, world, st, j, width, height, samples, depth, i, acc) == ((
            acc,
            st as int,
        )),
{
    reveal_with_fuel(spec_row_rec, 1);
}

/// One pixel: accumulate `samples` traced jittered camera rays.
fn render_pixel(
    cam: &Camera,
    world: &[Object],
    rng: &mut Rng64,
    i: u32,
    j: u32,
    width: u32,
    height: u32,
    samples: u32,
    depth: u32,
) -> (c: Color)
    requires
        wf_camera(*cam),
        wf_world(world@),
        1 <= width <= 1_000_000,
        1 <= height <= 1_000_000,
        i < width,
        j < height,
        samples <= 1_000_000,
    ensures
        c == spec_pixel(*cam, world@, old(rng).state, i, j, width, height, samples, depth).0,
        final(rng).state == spec_pixel(
            *cam,
            world@,
            old(rng).state,
            i,
            j,
            width,
            height,
            samples,
            depth,
        ).1,
        0 <= c.x <= (samples as int) * (SCALE as int),
        0 <= c.y <= (samples as int) * (SCALE as int),
        0 <= c.z <= (samples as int) * (SCALE as int),
{
    let mut pixel_color = Vec3 { x: 0, y: 0, z: 0 };
    let mut k: u32 = 0;
    while k < samples
        invariant
            k <= samples,
            spec_pixel(*cam, world@, old(rng).state, i, j, width, height, samples, depth)
                == spec_sample_rec(
                *cam,
                world@,
                rng.state,
                i,
                j,
                width,
                height,
                depth,
                (samples - k) as nat,
                pixel_color,
            ),
            0 <= pixel_color.x <= (k as int) * (SCALE as int),
            0 <= pixel_color.y <= (k as int) * (SCALE as int),
            0 <= pixel_color.z <= (k as int) * (SCALE as int),
            wf_camera(*cam),
            wf_world(world@),
            1 <= width <= 1_000_000,
            1 <= height <= 1_000_000,
            i < width,
            j < height,
            samples <= 1_000_000,
        decreases samples - k,
    {
        let ghost sk: u64 = rng.state;
        proof {
            lemma_sample_unfold(
                *cam,
                world@,
                sk,
                i,
                j,
                width,
                height,
                depth,
                (samples - k) as nat,
                pixel_color,
            );
        }
        let ur = random_scalar(rng);
        proof {
            crate::fixed::lemma_div_strict_bound(
                (i as int) * 1_000_000 + ur,
                1_000_000,
                width as int,
            );
            vstd::arithmetic::div_mod::lemma_div_pos_is_pos(
                (i as int) * 1_000_000 + ur,
                width as int,
            );
        }
        let u = (((i as u64) * 1_000_000 + (ur as u64)) / (width as u64)) as i64;
        let vr = random_scalar(rng);
        proof {
            crate::fixed::lemma_div_strict_bound(
                (j as int) * 1_000_000 + vr,
                1_000_000,
                height as int,
            );
            vstd::arithmetic::div_mod::lemma_div_pos_is_pos(
                (j as int) * 1_000_000 + vr,
                height as int,
            );
        }
        let v = (((j as u64) * 1_000_000 + (vr as u64)) / (height as u64)) as i64;
        let r = cam.get_ray(rng, u, v);
        let sample = ray_color(rng, r, world, depth);
        pixel_color = pixel_color.add(sample);
        k = k + 1;
    }
    proof {
        lemma_sample_base(*cam, world@, rng.state, i, j, width, height, depth, pixel_color);
    }
    pixel_color
}

/// One scanline of accumulated pixel colors; the generator is seeded from
/// the row index, which is the whole reproducibility contract.
pub fn render_row(
    cam: &Camera,
    world: &[Object],
    width: u32,
    height: u32,
    samples: u32,
    depth: u32,
    j: u32,
) -> (row: Vec<Color>)
    requires
        wf_camera(*cam),
        wf_world(world@),
        1 <= width <= 1_000_000,
        1 <= height <= 1_000_000,
        j < height,
        samples <= 1_000_000,
    ensures
        row@ == spec_render_row(*cam, world@, width, height, samples, depth, j),
        row@.len() == width,
        forall|q: int|
            0 <= q < row@.len() ==> 0 <= #[trigger] row@[q].x <= (samples as int) * (
            SCALE as int) && 0 <= row@[q].y <= (samples as int) * (SCALE as int) && 0 <= row@[q].z
                <= (samples as int) * (SCALE as int),
{
    let mut rng = Rng64::new(j as u64);
    let mut row: Vec<Color> = Vec::new();
    let mut i: u32 = 0;
    while i < width
        invariant
            i <= width,
            row@.len() == i,
            spec_render_row(*cam, world@, width, height, samples, depth, j) == spec_row_rec(
                *cam,
                world@,
                rng.state,
                j,
                width,
                height,
                samples,
                depth,
                i as int,
                row@,
            ).0,
            forall|q: int|
                0 <= q < row@.len() ==> 0 <= #[trigger] row@[q].x <= (samples as int) * (
                SCALE as int) && 0 <= row@[q].y <= (samples as int) * (SCALE as int) && 0
                    <= row@[q].z <= (samples as int) * (SCALE as int),
            wf_camera(*cam),
            wf_world(world@),
            1 <= width <= 1_000_000,
            1 <= height <= 1_000_000,
            j < height,
            samples <= 1_000_000,
        decreases width - i,
    {
        let ghost si: u64 = rng.state;
        proof {
            lemma_row_unfold(
                *cam,
                world@,
                si,
                j,
                width,
                height,
                samples,
                depth,
                i as int,
                row@,
            );
        }
        let px = render_pixel(cam, world, &mut rng, i, j, width, height, samples, depth);
        row.push(px);
        i = i + 1;
    }
    proof {
        lemma_row_base(
            *cam,
            world@,
            rng.state,
            j,
            width,
            height,
            samples,
            depth,
            i as int,
            row@,
        );
    }
    row
}

/// Relies on rayon's indexed parallel iterators: `collect` of a mapped
/// range keeps index order, so entry `k` holds the scanline for row `k`;
/// each closure call is the verified `render_row`.
#[verifier::external_body]
fn render_rows_parallel(
    cam: &Camera,
    world: &[Object],
    width: u32,
    height: u32,
    samples: u32,
    depth: u32,
) -> (rows: Vec<Vec<Color>>)
    requires
        wf_camera(*cam),
        wf_world(world@),
        1 <= width <= 1_000_000,
        1 <= height <= 1_000_000,
        samples <= 1_000_000,
    ensures
        rows@.len() == height,
        forall|k: int|
            0 <= k < height ==> (#[trigger] rows@[k])@ == spec_render_row(
                *cam,
                world@,
                width,
                height,
                samples,
                depth,
                k as u32,
            ),
{
    (0..height).into_par_iter().map(
        |j| render_row(cam, world, width, height, samples, depth, j),
    ).collect()
}

/// The whole image in row-major order, top scanline first. Scanlines are
/// computed in parallel and reassembled by row index, so the output order
/// never depends on scheduling.
pub fn render_image(
    cam: &Camera,
    world: &[Object],
    width: u32,
    height: u32,
    samples: u32,
    depth: u32,
) -> (img: Vec<Color>)
    requires
        wf_camera(*cam),
        wf_world(world@),
        1 <= width <= 1_000_000,
        1 <= height <= 1_000_000,
        samples <= 1_000_000,
    ensures
        img@ == spec_render_image(*cam, world@, width, height, samples, depth),
{
    let rows = render_rows_parallel(cam, world, width, height, samples, depth);
    let mut img: Vec<Color> = Vec::new();
    let mut n: u32 = 0;
    while n < height
        invariant
            n <= height,
            rows@.len() == height,
            forall|k: int|
                0 <= k < height ==> (#[trigger] rows@[k])@ == spec_render_row(
                    *cam,
                    world@,
                    width,
                    height,
                    samples,
                    depth,
                    k as u32,
                ),
            img@ == spec_image_rec(*cam, world@, width, height, samples, depth, n as int),
            1 <= height <= 1_000_000,
        decreases height - n,
    {
        let j = height - 1 - n;
        let row = &rows[j as usize];
        let mut q: usize = 0;
        while q < row.len()
            invariant
                q <= row@.len(),
                row@ == spec_render_row(*cam, world@, width, height, samples, depth, j),
                img@ == spec_image_rec(*cam, world@, width, height, samples, depth, n as int)
                    + row@.subrange(0, q as int),
            decreases row@.len() - q,
        {
            let c = row[q];
            img.push(c);
            proof {
                assert(row@.subrange(0, q as int).push(row@[q as int]) =~= row@.subrange(
                    0,
                    q as int + 1,
                ));
            }
            q = q + 1;
        }
        proof {
            assert(row@.subrange(0, row@.len() as int) =~= row@);
            assert(spec_image_rec(*cam, world@, width, height, samples, depth, n as int + 1)
                == spec_image_rec(*cam, world@, width, height, samples, depth, n as int)
                + spec_render_row(*cam, world@, width, height, samples, depth, j));
        }
        n = n + 1;
    }
    proof {
        assert(img@ =~= spec_render_image(*cam, world@, width, height, samples, depth));
    }
    img
}

/// Determinism of the renderer: the image is a function of the camera,
/// the scene, the image geometry, the sample count and the bounce budget
/// alone — every scanline reseeds its generator from its row index — so
/// any two renders of the same configuration agree bit for bit.
pub proof fn lemma_render_deterministic(
    img1: Seq<Color>,
    img2: Seq<Color>,
    cam: Camera,
    world: Seq<Object>,
    width: u32,
    height: u32,
    samples: u32,
    depth: u32,
)
    requires
        img1 == spec_render_image(cam, world, width, height, samples, depth),
        img2 == spec_render_image(cam, world, width, height, samples, depth),
    ensures
        img1 == img2,
{
}

} // verus!
