use rust3d::fixed::Fixed;
use rust3d::math::Vec3;
use rust3d::render::shapes::{
    BasicShape, Camera, Color, Diamond, Intersection, Light, Quad, Ray, Scene, Sphere,
};
use rust3d::render::{
    compute, compute_color, compute_pixel, compute_tile, ranges, slice, tiles, Point, Rgb,
};
use rust3d::scenes::{get_bad_first_scene, get_scene, get_test_scene, SceneChoice};

fn fx(x: f64) -> Fixed {
    Fixed::from_raw((x * 4294967296.0).round() as i64)
}

fn vec3(x: f64, y: f64, z: f64) -> Vec3 {
    Vec3::new(fx(x), fx(y), fx(z))
}

fn white() -> Rgb {
    Rgb { r: 255, g: 255, b: 255 }
}

fn floor_hit() -> (Ray, Intersection) {
    let ray = Ray::new(vec3(0.0, 0.0, 5.0), vec3(0.0, 0.0, -1.0));
    let hit = Intersection { point: vec3(0.0, 0.0, 0.0), dist: fx(5.0), normal: vec3(0.0, 0.0, 1.0) };
    (ray, hit)
}

fn empty_scene() -> Scene {
    Scene::new(Camera::new(vec3(0.0, 0.0, -10.0), Diamond::default()))
}

#[test]
fn slice_gives_the_remainder_to_the_first_parts() {
    assert_eq!(slice(10, 4), vec![3, 3, 2, 2]);
    assert_eq!(slice(800, 4), vec![200, 200, 200, 200]);
    assert_eq!(slice(3, 4), vec![1, 1, 1, 0]);
    assert_eq!(slice(0, 4), vec![0, 0, 0, 0]);
    assert_eq!(slice(7, 1), vec![7]);
    assert_eq!(slice(7, 0), Vec::<u32>::new());
    assert_eq!(slice(u32::MAX, 2), vec![2147483648, 2147483647]);
}

#[test]
fn ranges_follow_one_another_from_zero_to_the_end() {
    assert_eq!(ranges(10, 4), vec![(0, 3), (3, 6), (6, 8), (8, 10)]);
    assert_eq!(ranges(600, 4), vec![(0, 150), (150, 300), (300, 450), (450, 600)]);
    assert_eq!(ranges(3, 4), vec![(0, 1), (1, 2), (2, 3), (3, 3)]);
    assert_eq!(ranges(5, 0), Vec::<(u32, u32)>::new());
    assert_eq!(ranges(u32::MAX, 1), vec![(0, u32::MAX)]);
}

#[test]
fn ranges_cover_every_pixel_once() {
    for distance in [0u32, 1, 5, 17, 100, 601] {
        for parts in [1u32, 2, 4, 7] {
            let parts_of = ranges(distance, parts);
            assert_eq!(parts_of.len(), parts as usize);
            for x in 0..distance {
                let holders = parts_of.iter().filter(|r| r.0 <= x && x < r.1).count();
                assert_eq!(holders, 1);
            }
        }
    }
}

#[test]
fn tiles_run_through_the_width_then_the_height() {
    let all = tiles(10, 6);
    assert_eq!(all.len(), 16);
    assert_eq!(all[0], ((0, 3), (0, 2)));
    assert_eq!(all[1], ((0, 3), (2, 4)));
    assert_eq!(all[3], ((0, 3), (5, 6)));
    assert_eq!(all[4], ((3, 6), (0, 2)));
    assert_eq!(all[15], ((8, 10), (5, 6)));
    for x in 0..10u32 {
        for y in 0..6u32 {
            let holders = all
                .iter()
                .filter(|t| t.0 .0 <= x && x < t.0 .1 && t.1 .0 <= y && y < t.1 .1)
                .count();
            assert_eq!(holders, 1);
        }
    }
}

#[test]
fn mean_color_is_cut_to_bytes() {
    let colors = vec![
        Color::new(fx(1.0), fx(0.0), fx(0.5)),
        Color::new(fx(0.0), fx(0.0), fx(0.5)),
    ];
    assert_eq!(Color::as_sdl(&colors), Rgb { r: 127, g: 0, b: 127 });
    let bright = vec![Color::new(fx(4.0), fx(-1.0), fx(1.0))];
    assert_eq!(Color::as_sdl(&bright), Rgb { r: 255, g: 0, b: 255 });
    assert_eq!(Color::as_sdl(&Vec::new()), Rgb { r: 0, g: 0, b: 0 });
}

#[test]
fn point_keeps_what_it_is_given() {
    let p = Point::new(3, 4, Rgb { r: 1, g: 2, b: 3 });
    assert_eq!(p, Point { x: 3, y: 4, color: Rgb { r: 1, g: 2, b: 3 } });
}

#[test]
fn base_tone_without_lights() {
    let scene = empty_scene();
    let ray = Ray::new(vec3(0.0, 0.0, -5.0), vec3(0.0, 0.0, 1.0));
    let facing = Intersection { point: vec3(0.0, 0.0, 0.0), dist: fx(5.0), normal: vec3(0.0, 0.0, 1.0) };
    assert_eq!(compute_color(&ray, &facing, &scene), white());
    let dark = vec![Color::new(fx(0.0), fx(0.0), fx(0.0)), Color::new(fx(0.0), fx(0.0), fx(0.0))];
    assert_eq!(Color::as_sdl(&dark), Rgb { r: 0, g: 0, b: 0 });
}

#[test]
fn base_tone_is_averaged_with_the_lights() {
    let (ray, hit) = floor_hit();
    let mut scene = empty_scene();
    scene.add_light(Light::new(vec3(0.0, 0.0, 100.0), fx(5.0), Color::new(fx(0.5), fx(0.0), fx(0.0))));
    assert_eq!(compute_color(&ray, &hit, &scene), Rgb { r: 191, g: 127, b: 127 });
    scene.add_light(Light::new(vec3(0.0, 0.0, 200.0), fx(5.0), Color::new(fx(0.0), fx(1.0), fx(0.0))));
    assert_eq!(compute_color(&ray, &hit, &scene), Rgb { r: 127, g: 106, b: 85 });
}

#[test]
fn near_light_is_brightened() {
    let (ray, hit) = floor_hit();
    let mut scene = empty_scene();
    scene.add_light(Light::new(vec3(0.0, 0.0, 50.0), fx(5.0), Color::new(fx(1.0), fx(0.0), fx(0.0))));
    assert_eq!(compute_color(&ray, &hit, &scene), Rgb { r: 255, g: 127, b: 127 });
}

#[test]
fn light_at_the_hit_point_adds_its_own_color() {
    let (ray, hit) = floor_hit();
    let mut scene = empty_scene();
    scene.add_light(Light::new(vec3(0.0, 0.0, 0.0), fx(5.0), Color::new(fx(0.0), fx(0.0), fx(0.0))));
    assert_eq!(compute_color(&ray, &hit, &scene), Rgb { r: 127, g: 127, b: 127 });
}

#[test]
fn shadowed_light_adds_nothing() {
    let (ray, hit) = floor_hit();
    let light = Light::new(vec3(0.0, 0.0, 50.0), fx(5.0), Color::new(fx(1.0), fx(0.0), fx(0.0)));
    let blocker = Diamond::new(vec3(0.0, 0.0, 10.0), vec3(10.0, 0.0, 0.0), vec3(0.0, 10.0, 0.0));

    let mut open = empty_scene();
    open.add_light(light);

    let mut blocked = empty_scene();
    blocked.add(BasicShape::Diamond(blocker));
    blocked.add_light(light);

    let mut unlit = empty_scene();
    unlit.add(BasicShape::Diamond(blocker));

    let lit_color = compute_color(&ray, &hit, &open);
    let blocked_color = compute_color(&ray, &hit, &blocked);
    let unlit_color = compute_color(&ray, &hit, &unlit);
    assert_eq!(lit_color, Rgb { r: 255, g: 127, b: 127 });
    assert_eq!(blocked_color, white());
    assert_eq!(blocked_color, unlit_color);
    assert_ne!(blocked_color, lit_color);
}

#[test]
fn shape_within_one_unit_casts_no_shadow() {
    let (ray, hit) = floor_hit();
    let light = Light::new(vec3(0.0, 0.0, 50.0), fx(5.0), Color::new(fx(1.0), fx(0.0), fx(0.0)));
    let mut scene = empty_scene();
    scene.add(BasicShape::Diamond(Diamond::new(vec3(0.0, 0.0, 1.0), vec3(10.0, 0.0, 0.0), vec3(0.0, 10.0, 0.0))));
    scene.add_light(light);
    assert_eq!(compute_color(&ray, &hit, &scene), Rgb { r: 255, g: 127, b: 127 });
    scene.add(BasicShape::Sphere(Sphere::new(vec3(0.0, 0.0, 20.0), fx(2.0))));
    assert_eq!(compute_color(&ray, &hit, &scene), white());
}

#[test]
fn test_scene_is_a_cube_before_a_camera() {
    let scene = get_test_scene(800, 600);
    assert_eq!(scene.camera.position, vec3(0.0, 0.0, -10.0));
    assert_eq!(scene.camera.screen.center, vec3(0.0, 0.0, 0.0));
    assert_eq!(scene.camera.screen.width, vec3(80.0, 0.0, 0.0));
    assert_eq!(scene.camera.screen.height, vec3(0.0, 60.0, 0.0));
    assert!(scene.lights.is_empty());
    assert_eq!(scene.shapes.len(), 1);
    match scene.shapes[0] {
        BasicShape::Quad(quad) => {
            let expected = Quad::iso(vec3(0.0, 0.0, 10.0), fx(10.0));
            assert_eq!(quad.center, expected.center);
            assert_eq!(quad.center, vec3(0.0, 0.0, 10.0));
            assert_eq!(quad.width, vec3(10.0, 0.0, 0.0));
            assert_eq!(quad.height, vec3(0.0, 10.0, 0.0));
            assert_eq!(quad.depth, vec3(0.0, 0.0, 10.0));
        }
        _ => panic!("the test scene holds a cube"),
    }
}

#[test]
fn first_scene_holds_three_shapes_and_a_red_light() {
    let scene = get_bad_first_scene(800, 600);
    assert_eq!(scene.camera.position, vec3(0.0, 0.0, -500.0));
    assert_eq!(scene.camera.screen.width, vec3(80.0, 0.0, 0.0));
    assert_eq!(scene.camera.screen.height, vec3(0.0, 60.0, 0.0));
    assert_eq!(scene.shapes.len(), 3);
    assert!(matches!(scene.shapes[0], BasicShape::Diamond(_)));
    assert!(matches!(scene.shapes[1], BasicShape::Sphere(_)));
    assert!(matches!(scene.shapes[2], BasicShape::Quad(_)));
    assert_eq!(scene.lights.len(), 1);
    assert_eq!(scene.lights[0].origin(), vec3(40.0, 40.0, -50.0));
    assert_eq!(scene.lights[0].color.rgb, vec3(1.0, 0.0, 0.0));
    let chosen = get_scene(800, 600, SceneChoice::Bad);
    assert_eq!(chosen.shapes.len(), 3);
    assert_eq!(get_scene(800, 600, SceneChoice::Test).shapes.len(), 1);
}

#[test]
fn pixels_of_the_test_scene() {
    let scene = get_test_scene(800, 600);
    assert_eq!(compute_pixel(&scene, 800, 600, 0, 0), None);
    assert_eq!(compute_pixel(&scene, 800, 600, 799, 599), None);
    assert_eq!(compute_pixel(&scene, 800, 600, 300, 300), None);
    assert_eq!(compute_pixel(&scene, 800, 600, 366, 300), None);
    assert_eq!(compute_pixel(&scene, 800, 600, 434, 300), None);
    assert_eq!(compute_pixel(&scene, 800, 600, 400, 266), None);
    assert_eq!(compute_pixel(&scene, 800, 600, 400, 334), None);
    assert_eq!(
        compute_pixel(&scene, 800, 600, 400, 300),
        Some(Point { x: 400, y: 300, color: white() })
    );
    assert_eq!(
        compute_pixel(&scene, 800, 600, 433, 300),
        Some(Point { x: 433, y: 300, color: white() })
    );
    assert_eq!(
        compute_pixel(&scene, 800, 600, 367, 267),
        Some(Point { x: 367, y: 333, color: white() })
    );
    assert_eq!(
        compute_pixel(&scene, 800, 600, 433, 333),
        Some(Point { x: 433, y: 267, color: white() })
    );
}

#[test]
fn tile_holds_one_list_for_each_column() {
    let scene = get_test_scene(800, 600);
    let tile = ((430, 437), (330, 336));
    let columns = compute_tile(&scene, 800, 600, &tile);
    assert_eq!(columns.len(), 7);
    for (i, column) in columns.iter().enumerate() {
        let x = 430 + i as i32;
        if x <= 433 {
            assert_eq!(column.len(), 4);
            for (j, point) in column.iter().enumerate() {
                assert_eq!(*point, Point { x, y: 600 - (330 + j as i32), color: white() });
            }
        } else {
            assert!(column.is_empty());
        }
    }
    assert!(compute_tile(&scene, 800, 600, &((5, 3), (0, 600))).is_empty());
    assert_eq!(compute_tile(&scene, 800, 600, &((0, 2), (9, 4))), vec![Vec::new(), Vec::new()]);
}

#[test]
fn frame_of_the_test_scene_shows_the_cube_in_the_middle() {
    let width: u32 = 800;
    let height: u32 = 600;
    let scene = get_test_scene(width, height);
    let frame = compute(&scene, width, height);
    assert_eq!(frame.len(), 16);
    let mut seen = vec![false; (width * (height + 1)) as usize];
    let mut count = 0usize;
    for tile in frame.iter() {
        for column in tile.iter() {
            for point in column.iter() {
                assert!(point.x >= 0 && (point.x as u32) < width);
                assert!(point.y >= 1 && (point.y as u32) <= height);
                assert_eq!(point.color, white());
                let at = (point.y as u32 * width + point.x as u32) as usize;
                assert!(!seen[at]);
                seen[at] = true;
                count += 1;
            }
        }
    }
    for y in 0..=height {
        for x in 0..width {
            let inside = x >= 367 && x <= 433 && y >= 267 && y <= 333;
            assert_eq!(seen[(y * width + x) as usize], inside);
        }
    }
    assert_eq!(count, 67 * 67);
}
