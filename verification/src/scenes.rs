//! Ready-made scenes.

use crate::fixed::Fixed;
use crate::math::{spec_whole, Vec3};
use crate::render::shapes::{BasicShape, Camera, Color, Diamond, Light, Quad, Scene, Sphere};
use vstd::prelude::*;

verus! {

fn whole(x: i32, y: i32, z: i32) -> (v: Vec3)
    ensures
        v == spec_whole(x as int, y as int, z as int),
{
    Vec3::new(Fixed::from_int(x), Fixed::from_int(y), Fixed::from_int(z))
}

/// A tenth of a pixel count: the extent in the scene of so many pixels.
pub open spec fn spec_tenth(pixels: u32) -> Fixed {
    Fixed::spec_from_count(pixels as nat).spec_div(Fixed::spec_from_int(10))
}

fn tenth(pixels: u32) -> (r: Fixed)
    ensures
        r == spec_tenth(pixels),
{
    Fixed::from_count(pixels as usize) / Fixed::from_int(10)
}

/// The camera of the test scene: the eye at `(0, 0, -10)`, the screen
/// centered at the origin and spanned along x and y by a tenth of the pixel
/// counts.
pub open spec fn spec_test_camera(screen_width: u32, screen_height: u32) -> Camera {
    let o = Fixed::spec_from_int(0);
    Camera {
        position: spec_whole(0, 0, 0).spec_sub(
            spec_whole(0, 0, 1).spec_scale(Fixed::spec_from_int(10)),
        ),
        screen: Diamond {
            center: spec_whole(0, 0, 0),
            width: Vec3 { x: spec_tenth(screen_width), y: o, z: o },
            height: Vec3 { x: o, y: spec_tenth(screen_height), z: o },
        },
    }
}

/// The test scene: the test camera, no light, and one cube of side 10
/// centered at `(0, 0, 10)`.
pub fn get_test_scene(screen_width: u32, screen_height: u32) -> (scene: Scene)
    ensures
        scene.camera == spec_test_camera(screen_width, screen_height),
        scene.lights@.len() == 0,
        scene.shapes@ == seq![
            BasicShape::Quad(Quad::spec_iso(spec_whole(0, 0, 10), Fixed::spec_from_int(10))),
        ],
{
    let origin = whole(0, 0, 0);
    let pov = origin - Fixed::from_int(10) * whole(0, 0, 1);
    let o = Fixed::from_int(0);
    let camera_screen = Diamond::new(
        origin,
        Vec3::new(tenth(screen_width), o, o),
        Vec3::new(o, tenth(screen_height), o),
    );
    let mut scene = Scene::new(Camera::new(pov, camera_screen));
    let quad = Quad::iso(whole(0, 0, 10), Fixed::from_int(10));
    scene.add(BasicShape::Quad(quad));
    assert(scene.shapes@ =~= seq![
        BasicShape::Quad(Quad::spec_iso(spec_whole(0, 0, 10), Fixed::spec_from_int(10))),
    ]);
    scene
}

/// The camera of the first scene: the eye at `(0, 0, -500)`, the screen
/// centered at the origin, a tenth of the pixel width wide and as high as
/// the ratio of the pixel counts asks.
pub open spec fn spec_first_camera(width: u32, height: u32) -> Camera
    recommends
        width > 0,
{
    let o = Fixed::spec_from_int(0);
    let ratio = Fixed::spec_from_count(height as nat).spec_div(
        Fixed::spec_from_count(width as nat),
    );
    Camera {
        position: Vec3 { x: o, y: o, z: o.spec_sub(Fixed::spec_from_int(500)) },
        screen: Diamond {
            center: Vec3 { x: o, y: o, z: o },
            width: Vec3 { x: spec_tenth(width), y: o, z: o },
            height: Vec3 { x: o, y: spec_tenth(width).spec_mul(ratio), z: o },
        },
    }
}

/// The shapes of the first scene: a square, a sphere and a cube.
pub open spec fn spec_first_shapes() -> Seq<BasicShape> {
    seq![
        BasicShape::Diamond(
            Diamond {
                center: spec_whole(-10, 0, 1),
                width: spec_whole(10, 0, 0),
                height: spec_whole(0, 10, 0),
            },
        ),
        BasicShape::Sphere(Sphere { center: spec_whole(7, 15, 15), radius: Fixed::spec_from_int(12) }),
        BasicShape::Quad(Quad::spec_iso(spec_whole(30, -20, 80), Fixed::spec_from_int(15))),
    ]
}

/// The one light of the first scene: red, at `(40, 40, -50)`.
pub open spec fn spec_first_light() -> Light {
    Light {
        position: spec_whole(40, 40, -50),
        radius: Fixed::spec_from_int(5),
        color: Color { rgb: spec_whole(1, 0, 0) },
    }
}

/// The first scene: a square, a sphere and a cube under one red light, seen
/// from far away. The screen must be at least one pixel wide.
pub fn get_bad_first_scene(width: u32, height: u32) -> (scene: Scene)
    requires
        width > 0,
    ensures
        scene.camera == spec_first_camera(width, height),
        scene.shapes@ == spec_first_shapes(),
        scene.lights@ == seq![spec_first_light()],
{
    let wide = Fixed::from_count(width as usize);
    assert(wide.raw != 0) by (nonlinear_arith)
        requires
            wide.raw == crate::fixed::saturate(width * crate::fixed::SCALE),
            width > 0,
            crate::fixed::SCALE == 0x1_0000_0000,
    ;
    let ratio = Fixed::from_count(height as usize) / wide;
    let screen_width = tenth(width);
    let screen_height = screen_width * ratio;
    let focal = Fixed::from_int(500);
    let screen_z = Fixed::from_int(0);
    let o = Fixed::from_int(0);
    let origin = Vec3::new(o, o, screen_z - focal);
    let screen = Diamond::new(
        Vec3::new(origin.x, origin.y, screen_z),
        Vec3::new(screen_width, o, o),
        Vec3::new(o, screen_height, o),
    );
    let camera = Camera::new(origin, screen);
    let c: i32 = 10;
    let rect = Diamond::new(whole(-c, 0, 1), whole(c, 0, 0), whole(0, c, 0));
    let sphere = Sphere::new(whole(7, 15, 15), Fixed::from_int(12));
    let mut scene = Scene::new(camera);
    scene.add(BasicShape::Diamond(rect));
    scene.add(BasicShape::Sphere(sphere));
    let quad = Quad::iso(whole(30, -20, 80), Fixed::from_int(15));
    scene.add(BasicShape::Quad(quad));
    let light_a = Light::new(
        whole(40, 40, -50),
        Fixed::from_int(5),
        Color::new(Fixed::from_int(1), Fixed::from_int(0), Fixed::from_int(0)),
    );
    scene.add_light(light_a);
    assert(scene.shapes@ =~= spec_first_shapes());
    assert(scene.lights@ =~= seq![spec_first_light()]);
    scene
}

/// The scenes there are to choose from.
#[derive(Clone, Copy, Debug, PartialEq, Eq, Structural)]
pub enum SceneChoice {
    Bad,
    Test,
}

/// The scene of the given choice. For the first scene the screen must be at
/// least one pixel wide.
pub fn get_scene(screen_width: u32, screen_height: u32, which: SceneChoice) -> (scene: Scene)
    requires
        which == SceneChoice::Bad ==> screen_width > 0,
    ensures
        which == SceneChoice::Test ==> scene.camera == spec_test_camera(screen_width, screen_height)
            && scene.lights@.len() == 0 && scene.shapes@ == seq![
            BasicShape::Quad(Quad::spec_iso(spec_whole(0, 0, 10), Fixed::spec_from_int(10))),
        ],
        which == SceneChoice::Bad ==> scene.camera == spec_first_camera(screen_width, screen_height)
            && scene.shapes@ == spec_first_shapes() && scene.lights@ == seq![spec_first_light()],
{
    match which {
        SceneChoice::Bad => get_bad_first_scene(screen_width, screen_height),
        SceneChoice::Test => get_test_scene(screen_width, screen_height),
    }
}

} // verus!
