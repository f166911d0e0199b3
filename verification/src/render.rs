//! Shading and the tiled rendering of a scene into colored points.

pub mod aimed;
pub mod boundary;
pub mod shapes;

use crate::fixed::{Fixed, SCALE};
use crate::math::Vec3;
use crate::render::shapes::{halve, spec_halve, BasicShape, Color, Intersection, Light, Ray, Scene};
use vstd::prelude::*;

verus! {

/// A color as a display takes it: one byte for each of red, green and blue.
#[derive(Clone, Copy, Debug, PartialEq, Eq, Structural)]
pub struct Rgb {
    pub r: u8,
    pub g: u8,
    pub b: u8,
}

/// A colored point of the image.
#[derive(Clone, Copy, Debug, PartialEq, Eq, Structural)]
pub struct Point {
    pub x: i32,
    pub y: i32,
    pub color: Rgb,
}

impl Point {
    /// The point at `(x, y)` in the given color.
    pub fn new(x: i32, y: i32, color: Rgb) -> (p: Point)
        ensures
            p == (Point { x, y, color }),
    {
        Point { x, y, color }
    }
}

/// The sum of the first `k` colors, channel by channel, added up from the
/// left.
pub open spec fn spec_color_sum(colors: Seq<Color>, k: nat) -> Vec3
    recommends
        k <= colors.len(),
    decreases k,
{
    if k == 0 {
        Vec3 { x: Fixed { raw: 0 }, y: Fixed { raw: 0 }, z: Fixed { raw: 0 } }
    } else {
        spec_color_sum(colors, (k - 1) as nat).spec_add(colors[k - 1].rgb)
    }
}

/// One channel of the mean color as a byte: the sum times 255, divided by
/// the number of colors, cut down to its whole part.
pub open spec fn spec_mean_channel(sum: Fixed, count: nat) -> u8 {
    sum.spec_mul(Fixed::spec_from_int(255)).spec_div(Fixed::spec_from_count(count)).spec_to_byte()
}

/// The mean of the colors, as bytes; black for no colors.
pub open spec fn spec_as_sdl(colors: Seq<Color>) -> Rgb {
    if colors.len() == 0 {
        Rgb { r: 0, g: 0, b: 0 }
    } else {
        let sum = spec_color_sum(colors, colors.len());
        Rgb {
            r: spec_mean_channel(sum.x, colors.len()),
            g: spec_mean_channel(sum.y, colors.len()),
            b: spec_mean_channel(sum.z, colors.len()),
        }
    }
}

fn mean_channel(sum: Fixed, count: usize) -> (b: u8)
    requires
        count > 0,
    ensures
        b == spec_mean_channel(sum, count as nat),
{
    let len = Fixed::from_count(count);
    assert(len.raw != 0) by (nonlinear_arith)
        requires
            len.raw == crate::fixed::saturate(count * SCALE),
            count > 0,
            SCALE == 0x1_0000_0000,
    ;
    (sum * Fixed::from_int(255) / len).to_byte()
}

impl Color {
    /// The arithmetic mean of the colors, each channel scaled from the range
    /// zero to one onto a byte and cut off at both ends. No colors give black.
    pub fn as_sdl(colors: &Vec<Color>) -> (c: Rgb)
        ensures
            c == spec_as_sdl(colors@),
    {
        let mut sum = Vec3::new(Fixed::zero(), Fixed::zero(), Fixed::zero());
        let mut k: usize = 0;
        while k < colors.len()
            invariant
                k <= colors@.len(),
                sum == spec_color_sum(colors@, k as nat),
            decreases colors@.len() - k,
        {
            sum = sum + colors[k].rgb;
            k += 1;
        }
        if colors.len() == 0 {
            Rgb { r: 0, g: 0, b: 0 }
        } else {
            Rgb {
                r: mean_channel(sum.x, colors.len()),
                g: mean_channel(sum.y, colors.len()),
                b: mean_channel(sum.z, colors.len()),
            }
        }
    }
}

/// Whether `shape` casts a shadow along `ray`: the ray hits it farther than
/// one unit from its origin.
pub open spec fn spec_occludes(shape: BasicShape, ray: Ray) -> bool {
    match shape.spec_intersect(ray) {
        Some(hit) => hit.dist.raw > SCALE,
        None => false,
    }
}

/// Whether any of the shapes casts a shadow along `ray`.
pub open spec fn spec_shadowed(shapes: Seq<BasicShape>, ray: Ray) -> bool {
    exists|j: int| 0 <= j < shapes.len() && spec_occludes(#[trigger] shapes[j], ray)
}

/// The attenuation of a light at distance `d`: `d * d / 10000`.
pub open spec fn spec_attenuation(d: Fixed) -> Fixed {
    d.spec_mul(d).spec_div(Fixed::spec_from_int(10000))
}

/// What `light` adds to the shading of `point`: nothing when a shape casts a
/// shadow on the way to the light, else the light's color dimmed by the
/// attenuation. A light so near that the way to it has no direction, or that
/// the attenuation is zero, adds its color as it is.
pub open spec fn spec_light_color(shapes: Seq<BasicShape>, point: Vec3, light: Light) -> Option<
    Color,
> {
    let direction = light.position.spec_sub(point);
    if !direction.spec_normalizable() {
        Some(light.color)
    } else if spec_shadowed(shapes, Ray::spec_new(point, direction)) {
        None
    } else if spec_attenuation(direction.spec_norm()).raw == 0 {
        Some(light.color)
    } else {
        Some(light.color.spec_dim(spec_attenuation(direction.spec_norm())))
    }
}

/// What the first `k` lights add to the shading of `point`, in the order of
/// the lights.
pub open spec fn spec_light_colors(
    shapes: Seq<BasicShape>,
    lights: Seq<Light>,
    point: Vec3,
    k: nat,
) -> Seq<Color>
    recommends
        k <= lights.len(),
    decreases k,
{
    if k == 0 {
        Seq::empty()
    } else {
        match spec_light_color(shapes, point, lights[k - 1]) {
            Some(color) => spec_light_colors(shapes, lights, point, (k - 1) as nat).push(color),
            None => spec_light_colors(shapes, lights, point, (k - 1) as nat),
        }
    }
}

/// The base tone of a surface: `(2 + a) / 2` on all three channels, where
/// `a` is the dot product of the ray's direction with the normal, or zero
/// when that is negative.
pub open spec fn spec_base_tone(ray: Ray, normal: Vec3) -> Color {
    let dot = ray.direction.spec_dot(normal);
    let a = if dot.raw > 0 {
        dot
    } else {
        Fixed { raw: 0 }
    };
    let c = Fixed::spec_from_int(2).spec_add(a).spec_div(Fixed::spec_from_int(2));
    Color { rgb: Vec3 { x: c, y: c, z: c } }
}

/// The color of a hit: the mean of what the lights add and of the base tone.
pub open spec fn spec_compute_color(ray: Ray, intersection: Intersection, scene: Scene) -> Rgb {
    spec_as_sdl(
        spec_light_colors(
            scene.shapes@,
            scene.lights@,
            intersection.point,
            scene.lights@.len(),
        ).push(spec_base_tone(ray, intersection.normal)),
    )
}

/// What the first `k` lights add does not depend on the lights after them.
proof fn lemma_light_colors_prefix(
    shapes: Seq<BasicShape>,
    lights: Seq<Light>,
    more: Seq<Light>,
    point: Vec3,
    k: nat,
)
    requires
        k <= lights.len() <= more.len(),
        forall|j: int| 0 <= j < lights.len() ==> lights[j] == more[j],
    ensures
        spec_light_colors(shapes, more, point, k) == spec_light_colors(shapes, lights, point, k),
    decreases k,
{
    if k > 0 {
        lemma_light_colors_prefix(shapes, lights, more, point, (k - 1) as nat);
    }
}

/// A light in the shadow of a shape adds nothing: with such a light put
/// behind the others, a hit is shaded as it is without it.
pub proof fn lemma_shadowed_light_adds_nothing(
    ray: Ray,
    hit: Intersection,
    scene: Scene,
    lit: Scene,
    light: Light,
)
    requires
        lit.shapes@ == scene.shapes@,
        lit.lights@ == scene.lights@.push(light),
        light.position.spec_sub(hit.point).spec_normalizable(),
        spec_shadowed(scene.shapes@, Ray::spec_new(hit.point, light.position.spec_sub(hit.point))),
    ensures
        spec_compute_color(ray, hit, lit) == spec_compute_color(ray, hit, scene),
{
    let n = scene.lights@.len();
    lemma_light_colors_prefix(scene.shapes@, scene.lights@, lit.lights@, hit.point, n);
    assert(lit.lights@[n as int] == light);
    assert(spec_light_color(lit.shapes@, hit.point, light) is None);
    assert(spec_light_colors(lit.shapes@, lit.lights@, hit.point, n + 1) == spec_light_colors(
        lit.shapes@,
        lit.lights@,
        hit.point,
        n,
    ));
}

/// A light that stands alone and that no shape shadows is averaged with the
/// base tone: the color of the hit is the mean, as bytes, of the light's
/// color dimmed by the attenuation and of the base tone.
pub proof fn lemma_open_light_is_averaged(
    ray: Ray,
    hit: Intersection,
    scene: Scene,
    light: Light,
)
    requires
        scene.lights@ == seq![light],
        light.position.spec_sub(hit.point).spec_normalizable(),
        !spec_shadowed(scene.shapes@, Ray::spec_new(hit.point, light.position.spec_sub(hit.point))),
        spec_attenuation(light.position.spec_sub(hit.point).spec_norm()).raw != 0,
    ensures
        spec_compute_color(ray, hit, scene) == spec_as_sdl(
            seq![
                light.color.spec_dim(
                    spec_attenuation(light.position.spec_sub(hit.point).spec_norm()),
                ),
                spec_base_tone(ray, hit.normal),
            ],
        ),
{
    let lights = scene.lights@;
    assert(lights.len() == 1 && lights[0] == light);
    let dimmed = light.color.spec_dim(
        spec_attenuation(light.position.spec_sub(hit.point).spec_norm()),
    );
    assert(spec_light_color(scene.shapes@, hit.point, light) == Some(dimmed));
    assert(spec_light_colors(scene.shapes@, lights, hit.point, 0) =~= Seq::<Color>::empty());
    assert(spec_light_colors(scene.shapes@, lights, hit.point, 1) =~= seq![dimmed]);
    assert(seq![dimmed].push(spec_base_tone(ray, hit.normal)) =~= seq![
        dimmed,
        spec_base_tone(ray, hit.normal),
    ]);
}

fn shadowed(scene: &Scene, ray: &Ray) -> (r: bool)
    ensures
        r == spec_shadowed(scene.shapes@, *ray),
{
    let epsilon = Fixed::one();
    let mut k: usize = 0;
    while k < scene.shapes.len()
        invariant
            k <= scene.shapes@.len(),
            epsilon.raw == SCALE,
            forall|j: int| 0 <= j < k ==> !spec_occludes(#[trigger] scene.shapes@[j], *ray),
        decreases scene.shapes@.len() - k,
    {
        if let Some(hit) = scene.shapes[k].intersect(ray) {
            if hit.dist.raw > epsilon.raw {
                assert(spec_occludes(scene.shapes@[k as int], *ray));
                return true;
            }
        }
        k += 1;
    }
    false
}

fn light_color(scene: &Scene, point: Vec3, light: &Light) -> (r: Option<Color>)
    ensures
        r == spec_light_color(scene.shapes@, point, *light),
{
    let direction = light.origin() - point;
    if !direction.normalizable() {
        return Some(light.color);
    }
    if shadowed(scene, &Ray::new(point, direction)) {
        return None;
    }
    let d = direction.norm();
    let factor = d * d / Fixed::from_int(10000);
    if factor.raw == 0 {
        Some(light.color)
    } else {
        Some(light.color.dim(factor))
    }
}

/// The color of the hit `intersection` of `ray`: the mean, as bytes, of the
/// base tone of the surface and of what each light adds that no shape
/// shadows.
pub fn compute_color(ray: &Ray, intersection: &Intersection, scene: &Scene) -> (c: Rgb)
    ensures
        c == spec_compute_color(*ray, *intersection, *scene),
{
    let mut colors: Vec<Color> = Vec::new();
    let mut k: usize = 0;
    while k < scene.lights.len()
        invariant
            k <= scene.lights@.len(),
            colors@ == spec_light_colors(scene.shapes@, scene.lights@, intersection.point, k as nat),
        decreases scene.lights@.len() - k,
    {
        if let Some(color) = light_color(scene, intersection.point, &scene.lights[k]) {
            colors.push(color);
        }
        k += 1;
    }
    let dot = ray.direction.dot(&intersection.normal);
    let a = if dot.raw > 0 {
        dot
    } else {
        Fixed::zero()
    };
    let c = (Fixed::from_int(2) + a) / Fixed::from_int(2);
    colors.push(Color::new(c, c, c));
    Color::as_sdl(&colors)
}

/// Along each side the screen is cut into this many ranges, so into its
/// square many tiles.
pub const TILES_PER_SIDE: u32 = 4;

/// A range of pixels along one side: from the first, up to but not including
/// the second.
pub type Pair = (u32, u32);

/// A tile: its range along the width, then its range along the height.
pub type RectCoords = (Pair, Pair);

/// The points of one column of a tile.
pub type Points1D = Vec<Point>;

/// The points of one tile, column by column.
pub type Points2D = Vec<Points1D>;

/// The points of a frame, tile by tile.
pub type Points3D = Vec<Points2D>;

/// The length of part `i` when `distance` is cut into `parts` near-equal
/// parts: the quotient, and one more for each of the first `remainder` parts.
pub open spec fn spec_slice_len(distance: nat, parts: nat, i: nat) -> nat
    recommends
        i < parts,
{
    if i < distance % parts {
        distance / parts + 1
    } else {
        distance / parts
    }
}

/// Where part `i` starts: the lengths of the parts before it, added up.
pub open spec fn spec_range_start(distance: nat, parts: nat, i: nat) -> nat
    recommends
        i <= parts,
{
    if i < distance % parts {
        i * (distance / parts) + i
    } else {
        i * (distance / parts) + distance % parts
    }
}

/// Part `i` as a range: from its start to the start of the next.
pub open spec fn spec_range(distance: nat, parts: nat, i: nat) -> Pair
    recommends
        i < parts,
{
    (spec_range_start(distance, parts, i) as u32, spec_range_start(distance, parts, i + 1) as u32)
}

/// Whether pixel `x` lies in part `i`.
pub open spec fn spec_in_range(distance: nat, parts: nat, i: nat, x: nat) -> bool {
    spec_range_start(distance, parts, i) <= x < spec_range_start(distance, parts, i + 1)
}

/// A part starts where the part before it ends.
pub proof fn lemma_range_step(distance: nat, parts: nat, i: nat)
    requires
        parts > 0,
    ensures
        spec_range_start(distance, parts, i + 1) == spec_range_start(distance, parts, i)
            + spec_slice_len(distance, parts, i),
{
    let q = distance / parts;
    assert((i + 1) * q == i * q + q) by (nonlinear_arith);
}

/// The parts start in order: a later part does not start before an earlier one.
pub proof fn lemma_range_monotone(distance: nat, parts: nat, i: nat, j: nat)
    requires
        parts > 0,
        i <= j,
    ensures
        spec_range_start(distance, parts, i) <= spec_range_start(distance, parts, j),
    decreases j - i,
{
    if i < j {
        lemma_range_monotone(distance, parts, i, (j - 1) as nat);
        lemma_range_step(distance, parts, (j - 1) as nat);
    }
}

/// The first part starts at zero and the last part ends at `distance`.
pub proof fn lemma_range_ends(distance: nat, parts: nat)
    requires
        parts > 0,
    ensures
        spec_range_start(distance, parts, 0) == 0,
        spec_range_start(distance, parts, parts) == distance,
{
    let q = distance / parts;
    assert(0 * q == 0) by (nonlinear_arith);
    assert(distance == parts * q + distance % parts) by (nonlinear_arith)
        requires
            parts > 0,
            q == distance / parts,
    ;
}

/// Every pixel lies in exactly one part: the parts cover `0..distance`
/// without a gap, and no two of them overlap.
pub proof fn lemma_ranges_partition(distance: nat, parts: nat, x: nat) -> (i: nat)
    requires
        parts > 0,
        x < distance,
    ensures
        i < parts,
        spec_in_range(distance, parts, i, x),
        forall|j: nat| j < parts && #[trigger] spec_in_range(distance, parts, j, x) ==> j == i,
{
    lemma_range_ends(distance, parts);
    let i = lemma_range_find(distance, parts, x, parts);
    assert forall|j: nat|
        j < parts && #[trigger] spec_in_range(distance, parts, j, x) implies j == i by {
        if j < i {
            lemma_range_monotone(distance, parts, j + 1, i);
        } else if i < j {
            lemma_range_monotone(distance, parts, i + 1, j);
        }
    }
    i
}

/// Among the first `k` parts, the one that holds `x`, when `x` lies before
/// the end of part `k - 1`.
proof fn lemma_range_find(distance: nat, parts: nat, x: nat, k: nat) -> (i: nat)
    requires
        parts > 0,
        0 < k <= parts,
        x < spec_range_start(distance, parts, k),
    ensures
        i < k,
        spec_range_start(distance, parts, i) <= x < spec_range_start(distance, parts, i + 1),
    decreases k,
{
    if spec_range_start(distance, parts, (k - 1) as nat) <= x {
        (k - 1) as nat
    } else {
        if k == 1 {
            lemma_range_ends(distance, parts);
        }
        lemma_range_find(distance, parts, x, (k - 1) as nat)
    }
}

/// The lengths of the `parts` near-equal parts of `distance`; the first
/// `distance % parts` of them are longer by one. No parts for `parts == 0`.
pub fn slice(distance: u32, parts: u32) -> (r: Vec<u32>)
    ensures
        r@.len() == parts,
        forall|i: int|
            0 <= i < parts ==> #[trigger] r@[i] == spec_slice_len(
                distance as nat,
                parts as nat,
                i as nat,
            ),
{
    let mut lengths: Vec<u32> = Vec::new();
    if parts == 0 {
        return lengths;
    }
    let length: u32 = distance / parts;
    let delta: u32 = distance % parts;
    let mut i: u32 = 0;
    while i < parts
        invariant
            i <= parts,
            parts > 0,
            length == distance / parts,
            delta == distance % parts,
            lengths@.len() == i,
            forall|j: int|
                0 <= j < i ==> #[trigger] lengths@[j] == spec_slice_len(
                    distance as nat,
                    parts as nat,
                    j as nat,
                ),
        decreases parts - i,
    {
        if i < delta {
            assert(length < distance) by (nonlinear_arith)
                requires
                    length == distance / parts,
                    0 < distance % parts,
                    parts > 0,
            ;
            lengths.push(length + 1);
        } else {
            lengths.push(length);
        }
        i += 1;
    }
    lengths
}

/// The `parts` near-equal ranges that `0..distance` is cut into, in order:
/// each starts where the one before it ends, the first at zero, and the last
/// ends at `distance`.
pub fn ranges(distance: u32, parts: u32) -> (r: Vec<Pair>)
    ensures
        r@.len() == parts,
        forall|i: int|
            0 <= i < parts ==> #[trigger] r@[i] == spec_range(
                distance as nat,
                parts as nat,
                i as nat,
            ),
{
    let slices = slice(distance, parts);
    let mut ranges: Vec<Pair> = Vec::new();
    if parts == 0 {
        return ranges;
    }
    let mut start: u32 = 0;
    let mut i: usize = 0;
    proof {
        lemma_range_ends(distance as nat, parts as nat);
    }
    while i < slices.len()
        invariant
            parts > 0,
            i <= parts,
            slices@.len() == parts,
            forall|j: int|
                0 <= j < parts ==> #[trigger] slices@[j] == spec_slice_len(
                    distance as nat,
                    parts as nat,
                    j as nat,
                ),
            start == spec_range_start(distance as nat, parts as nat, i as nat),
            ranges@.len() == i,
            forall|j: int|
                0 <= j < i ==> #[trigger] ranges@[j] == spec_range(
                    distance as nat,
                    parts as nat,
                    j as nat,
                ),
        decreases parts - i,
    {
        proof {
            lemma_range_step(distance as nat, parts as nat, i as nat);
            lemma_range_monotone(distance as nat, parts as nat, (i + 1) as nat, parts as nat);
            lemma_range_ends(distance as nat, parts as nat);
        }
        let length: u32 = slices[i];
        ranges.push((start, start + length));
        start += length;
        i += 1;
    }
    ranges
}

/// Tile `t` of a screen: the tiles run through the ranges of the width, and
/// for each of these through the ranges of the height.
pub open spec fn spec_tile(width: u32, height: u32, t: int) -> RectCoords {
    (
        spec_range(width as nat, TILES_PER_SIDE as nat, (t / (TILES_PER_SIDE as int)) as nat),
        spec_range(height as nat, TILES_PER_SIDE as nat, (t % (TILES_PER_SIDE as int)) as nat),
    )
}

/// The tiles of a screen of the given size, in order.
pub fn tiles(width: u32, height: u32) -> (r: Vec<RectCoords>)
    ensures
        r@.len() == TILES_PER_SIDE * TILES_PER_SIDE,
        forall|t: int|
            0 <= t < TILES_PER_SIDE * TILES_PER_SIDE ==> #[trigger] r@[t] == spec_tile(
                width,
                height,
                t,
            ),
{
    let x_slices = ranges(width, TILES_PER_SIDE);
    let y_slices = ranges(height, TILES_PER_SIDE);
    let mut screen_parts: Vec<RectCoords> = Vec::new();
    let mut i: usize = 0;
    while i < 4
        invariant
            i <= 4,
            TILES_PER_SIDE == 4,
            x_slices@.len() == 4,
            y_slices@.len() == 4,
            forall|k: int|
                0 <= k < 4 ==> #[trigger] x_slices@[k] == spec_range(width as nat, 4, k as nat),
            forall|k: int|
                0 <= k < 4 ==> #[trigger] y_slices@[k] == spec_range(height as nat, 4, k as nat),
            screen_parts@.len() == 4 * i,
            forall|t: int| 0 <= t < 4 * i ==> #[trigger] screen_parts@[t] == spec_tile(width, height, t),
        decreases 4 - i,
    {
        let mut j: usize = 0;
        while j < 4
            invariant
                i < 4,
                j <= 4,
                TILES_PER_SIDE == 4,
                x_slices@.len() == 4,
                y_slices@.len() == 4,
                forall|k: int|
                    0 <= k < 4 ==> #[trigger] x_slices@[k] == spec_range(width as nat, 4, k as nat),
                forall|k: int|
                    0 <= k < 4 ==> #[trigger] y_slices@[k] == spec_range(
                        height as nat,
                        4,
                        k as nat,
                    ),
                screen_parts@.len() == 4 * i + j,
                forall|t: int|
                    0 <= t < 4 * i + j ==> #[trigger] screen_parts@[t] == spec_tile(
                        width,
                        height,
                        t,
                    ),
            decreases 4 - j,
        {
            assert((4 * i + j) / 4 == i && (4 * i + j) % 4 == j);
            screen_parts.push((x_slices[i], y_slices[j]));
            j += 1;
        }
        i += 1;
    }
    screen_parts
}

/// The point of the screen plane behind pixel `(x, y)`: from the bottom
/// left corner of the screen, the fraction `x / width` of its width vector
/// and the fraction `y / height` of its height vector.
pub open spec fn spec_screen_point(scene: Scene, width: u32, height: u32, x: u32, y: u32) -> Vec3
    recommends
        width > 0,
        height > 0,
{
    let screen = scene.camera.screen;
    let bottom_left = screen.center.spec_sub(spec_halve(screen.width)).spec_sub(
        spec_halve(screen.height),
    );
    bottom_left.spec_add(
        screen.width.spec_scale(
            Fixed::spec_from_int(x as int).spec_div(Fixed::spec_from_int(width as int)),
        ),
    ).spec_add(
        screen.height.spec_scale(
            Fixed::spec_from_int(y as int).spec_div(Fixed::spec_from_int(height as int)),
        ),
    )
}

/// The colored point of pixel `(x, y)`: the ray from its point of the screen
/// plane, away from the eye, is traced through the scene; the nearest hit is
/// shaded and lands at `(x, height - y)`. None when the ray hits nothing, or
/// has no direction.
pub open spec fn spec_pixel(scene: Scene, width: u32, height: u32, x: u32, y: u32) -> Option<Point>
    recommends
        x < width,
        y < height,
{
    let screen_pos = spec_screen_point(scene, width, height, x, y);
    let direction = screen_pos.spec_sub(scene.camera.position);
    if !direction.spec_normalizable() {
        None
    } else {
        let ray = Ray::spec_new(screen_pos, direction);
        match scene.spec_trace(ray) {
            Some(hit) => Some(
                Point { x: x as i32, y: (height - y) as i32, color: spec_compute_color(ray, hit, scene) },
            ),
            None => None,
        }
    }
}

/// The colored points of column `x` for the rows from `y0` up to but not
/// including `y1`, in the order of the rows.
pub open spec fn spec_column(scene: Scene, width: u32, height: u32, x: u32, y0: u32, y1: u32) -> Seq<
    Point,
>
    decreases y1 - y0,
{
    if y1 <= y0 {
        Seq::empty()
    } else {
        match spec_pixel(scene, width, height, x, (y1 - 1) as u32) {
            Some(p) => spec_column(scene, width, height, x, y0, (y1 - 1) as u32).push(p),
            None => spec_column(scene, width, height, x, y0, (y1 - 1) as u32),
        }
    }
}

/// A column holds the point of each of its pixels that has one.
pub proof fn lemma_column_holds_hits(
    scene: Scene,
    width: u32,
    height: u32,
    x: u32,
    y0: u32,
    y1: u32,
    y: u32,
)
    requires
        y0 <= y < y1,
        spec_pixel(scene, width, height, x, y) is Some,
    ensures
        spec_column(scene, width, height, x, y0, y1).contains(
            spec_pixel(scene, width, height, x, y)->0,
        ),
    decreases y1 - y0,
{
    let last = (y1 - 1) as u32;
    let rest = spec_column(scene, width, height, x, y0, last);
    let whole = spec_column(scene, width, height, x, y0, y1);
    if y == last {
        let p = spec_pixel(scene, width, height, x, y)->0;
        assert(whole == rest.push(p));
        assert(whole[rest.len() as int] == p);
    } else {
        lemma_column_holds_hits(scene, width, height, x, y0, last, y);
        let p = spec_pixel(scene, width, height, x, y)->0;
        let at = choose|i: int| 0 <= i < rest.len() && rest[i] == p;
        assert(whole[at] == p);
    }
}

/// A column holds nothing but the points of its pixels, in the order of
/// the rows: point `i` is that of a pixel of the column, and the points
/// before it are those of the rows before that pixel.
pub proof fn lemma_column_holds_only_hits(
    scene: Scene,
    width: u32,
    height: u32,
    x: u32,
    y0: u32,
    y1: u32,
    i: int,
) -> (y: u32)
    requires
        0 <= i < spec_column(scene, width, height, x, y0, y1).len(),
    ensures
        y0 <= y < y1,
        spec_pixel(scene, width, height, x, y) == Some(
            spec_column(scene, width, height, x, y0, y1)[i],
        ),
        spec_column(scene, width, height, x, y0, y).len() == i,
    decreases y1 - y0,
{
    let last = (y1 - 1) as u32;
    let rest = spec_column(scene, width, height, x, y0, last);
    if i < rest.len() {
        lemma_column_holds_only_hits(scene, width, height, x, y0, last, i)
    } else {
        last
    }
}

/// Whether pixel `(x, y)` lies in the tile.
pub open spec fn spec_in_tile(tile: RectCoords, x: u32, y: u32) -> bool {
    tile.0.0 <= x < tile.0.1 && tile.1.0 <= y < tile.1.1
}

/// Every pixel of the screen lies in exactly one tile.
pub proof fn lemma_tiles_partition(width: u32, height: u32, x: u32, y: u32) -> (t: int)
    requires
        x < width,
        y < height,
    ensures
        0 <= t < TILES_PER_SIDE * TILES_PER_SIDE,
        spec_in_tile(spec_tile(width, height, t), x, y),
        forall|u: int|
            0 <= u < TILES_PER_SIDE * TILES_PER_SIDE && spec_in_tile(
                #[trigger] spec_tile(width, height, u),
                x,
                y,
            ) ==> u == t,
{
    let i = lemma_ranges_partition(width as nat, 4, x as nat);
    let j = lemma_ranges_partition(height as nat, 4, y as nat);
    let t = (4 * i + j) as int;
    assert(t / 4 == i && t % 4 == j);
    lemma_tile_within(width, height, t);
    lemma_range_exact(width, i);
    lemma_range_exact(height, j);
    assert forall|u: int|
        0 <= u < TILES_PER_SIDE * TILES_PER_SIDE && spec_in_tile(
            #[trigger] spec_tile(width, height, u),
            x,
            y,
        ) implies u == t by {
        let a = (u / 4) as nat;
        let b = (u % 4) as nat;
        lemma_range_exact(width, a);
        lemma_range_exact(height, b);
        assert(spec_in_range(width as nat, 4, a, x as nat));
        assert(spec_in_range(height as nat, 4, b, y as nat));
    }
    t
}

/// The ends of a range of the screen are what `spec_range_start` says:
/// they fit in 32 bits.
proof fn lemma_range_exact(distance: u32, i: nat)
    requires
        i < 4,
    ensures
        spec_range(distance as nat, 4, i).0 == spec_range_start(distance as nat, 4, i),
        spec_range(distance as nat, 4, i).1 == spec_range_start(distance as nat, 4, i + 1),
{
    lemma_range_ends(distance as nat, 4);
    lemma_range_monotone(distance as nat, 4, i, 4);
    lemma_range_monotone(distance as nat, 4, i + 1, 4);
}

/// Whether `out` is what a tile renders to: one list per column of the tile,
/// in order, each holding the colored points of that column.
pub open spec fn spec_is_tile_output(
    out: Seq<Points1D>,
    scene: Scene,
    width: u32,
    height: u32,
    tile: RectCoords,
) -> bool {
    &&& out.len() == if tile.0.1 >= tile.0.0 {
        tile.0.1 - tile.0.0
    } else {
        0
    }
    &&& forall|i: int|
        0 <= i < out.len() ==> (#[trigger] out[i])@ == spec_column(
            scene,
            width,
            height,
            (tile.0.0 + i) as u32,
            tile.1.0,
            tile.1.1,
        )
}

/// The colored point of pixel `(x, y)` of a screen of `width` by `height`
/// pixels, if the ray through it hits a shape.
pub fn compute_pixel(scene: &Scene, width: u32, height: u32, x: u32, y: u32) -> (p: Option<Point>)
    requires
        x < width <= 0x7fff_ffff,
        y < height <= 0x7fff_ffff,
    ensures
        p == spec_pixel(*scene, width, height, x, y),
        p is Some ==> p->0.x == x && p->0.y == height - y,
{
    let screen = scene.camera.screen;
    let bottom_left = screen.center - halve(screen.width) - halve(screen.height);
    let screen_width = Fixed::from_int(width as i32);
    let screen_height = Fixed::from_int(height as i32);
    assert(screen_width.raw != 0 && screen_height.raw != 0) by (nonlinear_arith)
        requires
            screen_width.raw == width * SCALE,
            screen_height.raw == height * SCALE,
            width > 0,
            height > 0,
            SCALE == 0x1_0000_0000,
    ;
    let screen_pos = bottom_left + (Fixed::from_int(x as i32) / screen_width) * screen.width + (
    Fixed::from_int(y as i32) / screen_height) * screen.height;
    let direction = screen_pos - scene.camera.position;
    if !direction.normalizable() {
        return None;
    }
    let ray = Ray::new(screen_pos, direction);
    match scene.trace(&ray) {
        Some(intersection) => Some(
            Point::new(x as i32, (height - y) as i32, compute_color(&ray, &intersection, scene)),
        ),
        None => None,
    }
}

/// The colored points of one tile, column by column.
pub fn compute_tile(scene: &Scene, width: u32, height: u32, tile: &RectCoords) -> (r: Points2D)
    requires
        width <= 0x7fff_ffff,
        height <= 0x7fff_ffff,
        tile.0.1 <= width,
        tile.1.1 <= height,
    ensures
        spec_is_tile_output(r@, *scene, width, height, *tile),
{
    let mut columns: Points2D = Vec::new();
    let mut x: u32 = tile.0.0;
    while x < tile.0.1
        invariant
            width <= 0x7fff_ffff,
            height <= 0x7fff_ffff,
            tile.0.1 <= width,
            tile.1.1 <= height,
            tile.0.0 <= x,
            x <= tile.0.1 || tile.0.1 < tile.0.0,
            columns@.len() == if tile.0.1 >= tile.0.0 {
                x - tile.0.0
            } else {
                0
            },
            forall|i: int|
                0 <= i < columns@.len() ==> (#[trigger] columns@[i])@ == spec_column(
                    *scene,
                    width,
                    height,
                    (tile.0.0 + i) as u32,
                    tile.1.0,
                    tile.1.1,
                ),
        decreases tile.0.1 - x,
    {
        let mut column: Points1D = Vec::new();
        let mut y: u32 = tile.1.0;
        while y < tile.1.1
            invariant
                x < width <= 0x7fff_ffff,
                height <= 0x7fff_ffff,
                tile.1.1 <= height,
                tile.1.0 <= y,
                y <= tile.1.1 || tile.1.1 < tile.1.0,
                tile.1.1 < tile.1.0 ==> y == tile.1.0,
                column@ == spec_column(*scene, width, height, x, tile.1.0, y),
            decreases tile.1.1 - y,
        {
            if let Some(point) = compute_pixel(scene, width, height, x, y) {
                column.push(point);
            }
            y += 1;
        }
        assert(column@ == spec_column(*scene, width, height, x, tile.1.0, tile.1.1));
        columns.push(column);
        x += 1;
    }
    columns
}

/// The whole frame: the colored points of every tile, tile by tile. Every
/// pixel of the screen belongs to exactly one tile; a pixel whose ray hits
/// nothing leaves no point.
pub fn compute(scene: &Scene, width: u32, height: u32) -> (r: Points3D)
    requires
        width <= 0x7fff_ffff,
        height <= 0x7fff_ffff,
    ensures
        r@.len() == TILES_PER_SIDE * TILES_PER_SIDE,
        forall|t: int|
            0 <= t < r@.len() ==> spec_is_tile_output(
                (#[trigger] r@[t])@,
                *scene,
                width,
                height,
                spec_tile(width, height, t),
            ),
{
    let screen_parts = tiles(width, height);
    let mut pixels: Points3D = Vec::new();
    let mut t: usize = 0;
    while t < screen_parts.len()
        invariant
            width <= 0x7fff_ffff,
            height <= 0x7fff_ffff,
            t <= screen_parts@.len(),
            screen_parts@.len() == TILES_PER_SIDE * TILES_PER_SIDE,
            forall|k: int|
                0 <= k < screen_parts@.len() ==> #[trigger] screen_parts@[k] == spec_tile(
                    width,
                    height,
                    k,
                ),
            pixels@.len() == t,
            forall|k: int|
                0 <= k < t ==> spec_is_tile_output(
                    (#[trigger] pixels@[k])@,
                    *scene,
                    width,
                    height,
                    spec_tile(width, height, k),
                ),
        decreases screen_parts@.len() - t,
    {
        proof {
            lemma_tile_within(width, height, t as int);
        }
        let tile = screen_parts[t];
        let part = compute_tile(scene, width, height, &tile);
        pixels.push(part);
        t += 1;
    }
    pixels
}

/// Every tile lies within the screen.
pub proof fn lemma_tile_within(width: u32, height: u32, t: int)
    requires
        0 <= t < TILES_PER_SIDE * TILES_PER_SIDE,
    ensures
        spec_tile(width, height, t).0.0 <= spec_tile(width, height, t).0.1 <= width,
        spec_tile(width, height, t).1.0 <= spec_tile(width, height, t).1.1 <= height,
{
    let i = (t / 4) as nat;
    let j = (t % 4) as nat;
    lemma_range_ends(width as nat, 4);
    lemma_range_ends(height as nat, 4);
    lemma_range_monotone(width as nat, 4, i, i + 1);
    lemma_range_monotone(width as nat, 4, i + 1, 4);
    lemma_range_monotone(height as nat, 4, j, j + 1);
    lemma_range_monotone(height as nat, 4, j + 1, 4);
}

} // verus!
