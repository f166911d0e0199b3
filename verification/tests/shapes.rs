use rust3d::fixed::Fixed;
use rust3d::math::{Angle, Mat3, Vec3};
use rust3d::render::shapes::{
    BasicShape, Camera, Color, Diamond, Intersection, Light, Quad, Ray, Scene, Shape, Sphere,
};

fn fx(x: f64) -> Fixed {
    Fixed::from_raw((x * 4294967296.0).round() as i64)
}

fn vec3(x: f64, y: f64, z: f64) -> Vec3 {
    Vec3::new(fx(x), fx(y), fx(z))
}

fn hit_at(dist: f64) -> Intersection {
    Intersection { point: vec3(dist, 0.0, 0.0), dist: fx(dist), normal: vec3(0.0, 0.0, 0.0) }
}

#[test]
fn test_intersections_order() {
    let a = Intersection {
        point: vec3(0.0, 0.0, 0.0),
        dist: fx(1.0),
        normal: vec3(0.0, 0.0, 0.0),
    };

    let b = Intersection {
        point: vec3(0.0, 0.0, 0.0),
        dist: fx(2.0),
        normal: vec3(0.0, 0.0, 0.0),
    };

    let mut inters = [a, b];

    let nearest = Intersection::nearest(&mut inters);
    assert_eq!(nearest.unwrap().dist, fx(1.0));
}

#[test]
fn nearest_of_nothing_is_nothing() {
    let mut none: [Intersection; 0] = [];
    assert!(Intersection::nearest(&mut none).is_none());
}

#[test]
fn nearest_finds_the_least_wherever_it_stands() {
    let mut hits = [hit_at(3.0), hit_at(2.0), hit_at(0.5), hit_at(7.0)];
    let nearest = Intersection::nearest(&mut hits).unwrap();
    assert_eq!(nearest.dist, fx(0.5));
    assert_eq!(nearest.point, vec3(0.5, 0.0, 0.0));
}

#[test]
fn nearest_keeps_the_first_of_equals() {
    let first = Intersection { point: vec3(1.0, 0.0, 0.0), dist: fx(2.0), normal: vec3(0.0, 0.0, 0.0) };
    let second = Intersection { point: vec3(2.0, 0.0, 0.0), dist: fx(2.0), normal: vec3(0.0, 0.0, 0.0) };
    let mut hits = [hit_at(5.0), first, second];
    assert_eq!(Intersection::nearest(&mut hits).unwrap().point, vec3(1.0, 0.0, 0.0));
    assert_eq!(hits[0].point, vec3(1.0, 0.0, 0.0));
    assert_eq!(hits[1].point, vec3(2.0, 0.0, 0.0));
    assert_eq!(hits[2].point, vec3(5.0, 0.0, 0.0));
}

#[test]
fn nearest_leaves_the_hits_sorted() {
    let mut hits = [hit_at(3.0), hit_at(-2.0), hit_at(0.5), hit_at(7.0), hit_at(0.5), hit_at(1.0)];
    let nearest = Intersection::nearest(&mut hits).unwrap();
    assert_eq!(nearest.dist, fx(-2.0));
    let order: Vec<Fixed> = hits.iter().map(|hit| hit.dist).collect();
    assert_eq!(order, vec![fx(-2.0), fx(0.5), fx(0.5), fx(1.0), fx(3.0), fx(7.0)]);
}

#[test]
fn ray_direction_is_normalized() {
    let ray = Ray::new(vec3(1.0, 2.0, 3.0), vec3(0.0, 3.0, 4.0));
    assert_eq!(ray.origin, vec3(1.0, 2.0, 3.0));
    assert_eq!(ray.direction.x.raw, 0);
    assert_eq!(ray.direction.y.raw, 2576980377);
    assert_eq!(ray.direction.z.raw, 3435973836);
}

#[test]
fn default_diamond_is_the_unit_square() {
    let d = Diamond::default();
    assert_eq!(d.center, vec3(0.0, 0.0, 0.0));
    assert_eq!(d.width, vec3(1.0, 0.0, 0.0));
    assert_eq!(d.height, vec3(0.0, 1.0, 0.0));
}

#[test]
fn diamond_hit_on_its_corner_counts() {
    let d = Diamond::new(vec3(0.0, 0.0, 0.0), vec3(1.0, 0.0, 0.0), vec3(0.0, 1.0, 0.0));
    let ray = Ray::new(vec3(0.5, 0.5, -5.0), vec3(0.0, 0.0, 1.0));
    let hit = d.intersect(&ray).unwrap();
    assert_eq!(hit.dist, fx(5.0));
    assert_eq!(hit.point, vec3(0.5, 0.5, 0.0));
    assert_eq!(hit.normal, vec3(0.0, 0.0, 1.0));
    let opposite = Ray::new(vec3(-0.5, -0.5, -5.0), vec3(0.0, 0.0, 1.0));
    assert!(d.intersect(&opposite).is_some());
}

#[test]
fn diamond_miss_just_past_its_edge() {
    let d = Diamond::new(vec3(0.0, 0.0, 0.0), vec3(1.0, 0.0, 0.0), vec3(0.0, 1.0, 0.0));
    let ray = Ray::new(vec3(0.50001, 0.0, -5.0), vec3(0.0, 0.0, 1.0));
    assert!(d.intersect(&ray).is_none());
    let other = Ray::new(vec3(0.0, -0.50001, -5.0), vec3(0.0, 0.0, 1.0));
    assert!(d.intersect(&other).is_none());
    let inside = Ray::new(vec3(0.49999, 0.0, -5.0), vec3(0.0, 0.0, 1.0));
    assert!(d.intersect(&inside).is_some());
}

#[test]
fn diamond_behind_the_ray_is_missed() {
    let d = Diamond::new(vec3(0.0, 0.0, 0.0), vec3(1.0, 0.0, 0.0), vec3(0.0, 1.0, 0.0));
    let ray = Ray::new(vec3(0.0, 0.0, 5.0), vec3(0.0, 0.0, 1.0));
    assert!(d.intersect(&ray).is_none());
    let touching = Ray::new(vec3(0.0, 0.0, 0.0), vec3(0.0, 0.0, 1.0));
    assert_eq!(d.intersect(&touching).unwrap().dist, fx(0.0));
}

#[test]
fn diamond_normal_faces_along_the_ray() {
    let d = Diamond::new(vec3(0.0, 0.0, 0.0), vec3(1.0, 0.0, 0.0), vec3(0.0, 1.0, 0.0));
    let down = Ray::new(vec3(0.0, 0.0, 5.0), vec3(0.0, 0.0, -1.0));
    let hit = d.intersect(&down).unwrap();
    assert_eq!(hit.normal, vec3(0.0, 0.0, -1.0));
    assert_eq!(hit.dist, fx(5.0));
}

#[test]
fn ray_in_the_plane_of_a_diamond_misses() {
    let d = Diamond::new(vec3(0.0, 0.0, 0.0), vec3(1.0, 0.0, 0.0), vec3(0.0, 1.0, 0.0));
    let ray = Ray::new(vec3(-5.0, 0.0, 0.0), vec3(1.0, 0.0, 0.0));
    assert!(d.intersect(&ray).is_none());
    let flat = Diamond::new(vec3(0.0, 0.0, 0.0), vec3(1.0, 0.0, 0.0), vec3(2.0, 0.0, 0.0));
    let at_it = Ray::new(vec3(0.0, 0.0, -5.0), vec3(0.0, 0.0, 1.0));
    assert!(flat.intersect(&at_it).is_none());
}

#[test]
fn diamond_translate_moves_the_center() {
    let mut d = Diamond::default();
    d.translate(&vec3(1.0, -2.0, 3.0));
    assert_eq!(d.center, vec3(1.0, -2.0, 3.0));
    assert_eq!(d.width, vec3(1.0, 0.0, 0.0));
    assert_eq!(d.height, vec3(0.0, 1.0, 0.0));
}

#[test]
fn diamond_rotate_turns_about_its_center() {
    let quarter = Angle::new(fx(1.0), fx(0.0));
    let none = Angle::new(fx(0.0), fx(1.0));
    let mut d = Diamond::new(vec3(1.0, 1.0, 0.0), vec3(3.0, 1.0, 0.0), vec3(1.0, 4.0, 0.0));
    d.rotate(none, none, quarter);
    assert_eq!(d.center, vec3(1.0, 1.0, 0.0));
    assert_eq!(d.width, vec3(1.0, 3.0, 0.0));
    assert_eq!(d.height, vec3(-2.0, 1.0, 0.0));
}

#[test]
fn sphere_returns_the_smaller_root() {
    let sphere = Sphere::new(vec3(7.0, 15.0, 15.0), fx(12.0));
    let ray = Ray::new(vec3(7.0, 15.0, -100.0), vec3(0.0, 0.0, 1.0));
    let hit = sphere.intersect(&ray).unwrap();
    assert_eq!(hit.dist, fx(103.0));
    assert_eq!(hit.point, vec3(7.0, 15.0, 3.0));
    assert_eq!(hit.normal, vec3(0.0, 0.0, -1.0));
    assert_eq!(hit.normal.norm(), fx(1.0));
    assert_eq!(sphere.center + fx(12.0) * hit.normal, hit.point);
}

#[test]
fn sphere_hit_from_aside_has_a_unit_outward_normal() {
    let sphere = Sphere::new(vec3(7.0, 15.0, 15.0), fx(12.0));
    let origin = vec3(-200.0, 100.0, -300.0);
    let ray = Ray::new(origin, sphere.center - origin);
    let hit = sphere.intersect(&ray).unwrap();
    let far = (sphere.center - origin).norm();
    let off = (hit.dist - (far - fx(12.0))).abs();
    assert!(off.raw <= fx(0.0001).raw);
    let unit = (hit.normal.norm() - fx(1.0)).abs();
    assert!(unit.raw <= fx(0.00001).raw);
    let back = (sphere.center + fx(12.0) * hit.normal - hit.point).norm();
    assert!(back.raw <= fx(0.0001).raw);
    assert!(hit.normal.dot(&ray.direction).raw < 0);
}

#[test]
fn sphere_missed_and_grazed() {
    let sphere = Sphere::new(vec3(0.0, 0.0, 0.0), fx(1.0));
    let past = Ray::new(vec3(2.0, 0.0, -5.0), vec3(0.0, 0.0, 1.0));
    assert!(sphere.intersect(&past).is_none());
    let grazing = Ray::new(vec3(1.0, 0.0, -5.0), vec3(0.0, 0.0, 1.0));
    let hit = sphere.intersect(&grazing).unwrap();
    assert_eq!(hit.dist, fx(5.0));
    assert_eq!(hit.point, vec3(1.0, 0.0, 0.0));
    assert_eq!(hit.normal, vec3(1.0, 0.0, 0.0));
}

#[test]
fn sphere_behind_the_ray_gives_a_negative_distance() {
    let sphere = Sphere::new(vec3(0.0, 0.0, 0.0), fx(1.0));
    let away = Ray::new(vec3(0.0, 0.0, 5.0), vec3(0.0, 0.0, 1.0));
    let hit = sphere.intersect(&away).unwrap();
    assert_eq!(hit.dist, fx(-6.0));
    let inside = Ray::new(vec3(0.0, 0.0, 0.0), vec3(0.0, 0.0, 1.0));
    assert_eq!(sphere.intersect(&inside).unwrap().dist, fx(-1.0));
}

#[test]
fn sphere_moves_and_does_not_turn() {
    let mut sphere = Sphere::new(vec3(1.0, 2.0, 3.0), fx(4.0));
    sphere.translate(&vec3(1.0, 1.0, 1.0));
    assert_eq!(sphere.center, vec3(2.0, 3.0, 4.0));
    let quarter = Angle::new(fx(1.0), fx(0.0));
    sphere.rotate(quarter, quarter, quarter);
    assert_eq!(sphere.center, vec3(2.0, 3.0, 4.0));
    assert_eq!(sphere.radius, fx(4.0));
}

#[test]
fn iso_quad_is_centered_where_it_is_put() {
    let quad = Quad::iso(vec3(0.0, 0.0, 10.0), fx(10.0));
    assert_eq!(quad.center, vec3(0.0, 0.0, 10.0));
    assert_eq!(quad.face(0).center, vec3(-5.0, 0.0, 10.0));
    assert_eq!(quad.face(1).center, vec3(5.0, 0.0, 10.0));
    assert_eq!(quad.face(2).center, vec3(0.0, -5.0, 10.0));
    assert_eq!(quad.face(3).center, vec3(0.0, 5.0, 10.0));
    assert_eq!(quad.face(4).center, vec3(0.0, 0.0, 5.0));
    assert_eq!(quad.face(5).center, vec3(0.0, 0.0, 15.0));
    assert_eq!(quad.width, vec3(10.0, 0.0, 0.0));
    assert_eq!(quad.height, vec3(0.0, 10.0, 0.0));
    assert_eq!(quad.depth, vec3(0.0, 0.0, 10.0));
}

#[test]
fn quad_faces_are_the_six_diamonds() {
    let quad = Quad::new(vec3(0.0, 0.0, 0.0), vec3(2.0, 0.0, 0.0), vec3(0.0, 4.0, 0.0), vec3(0.0, 0.0, 6.0));
    assert_eq!(quad.face(0).center, vec3(-1.0, 0.0, 0.0));
    assert_eq!(quad.face(1).center, vec3(1.0, 0.0, 0.0));
    assert_eq!(quad.face(2).center, vec3(0.0, -2.0, 0.0));
    assert_eq!(quad.face(3).center, vec3(0.0, 2.0, 0.0));
    assert_eq!(quad.face(4).center, vec3(0.0, 0.0, -3.0));
    assert_eq!(quad.face(5).center, vec3(0.0, 0.0, 3.0));
    assert_eq!(quad.face(0).width, vec3(0.0, 4.0, 0.0));
    assert_eq!(quad.face(0).height, vec3(0.0, 0.0, 6.0));
    assert_eq!(quad.face(3).width, vec3(2.0, 0.0, 0.0));
    assert_eq!(quad.face(3).height, vec3(0.0, 0.0, 6.0));
    assert_eq!(quad.face(5).width, vec3(2.0, 0.0, 0.0));
    assert_eq!(quad.face(5).height, vec3(0.0, 4.0, 0.0));
}

#[test]
fn quad_returns_the_nearer_of_two_faces() {
    let quad = Quad::new(vec3(0.0, 0.0, 0.0), vec3(2.0, 0.0, 0.0), vec3(0.0, 4.0, 0.0), vec3(0.0, 0.0, 6.0));
    let ray = Ray::new(vec3(0.5, 0.5, -10.0), vec3(0.0, 0.0, 1.0));
    let hit = quad.intersect(&ray).unwrap();
    assert_eq!(hit.dist, fx(7.0));
    assert_eq!(hit.point, vec3(0.5, 0.5, -3.0));
    let from_the_side = Ray::new(vec3(10.0, 0.0, 0.0), vec3(-1.0, 0.0, 0.0));
    assert_eq!(quad.intersect(&from_the_side).unwrap().dist, fx(9.0));
    let past = Ray::new(vec3(1.5, 0.0, -10.0), vec3(0.0, 0.0, 1.0));
    assert!(quad.intersect(&past).is_none());
}

#[test]
fn quad_moves_and_turns() {
    let quarter = Angle::new(fx(1.0), fx(0.0));
    let none = Angle::new(fx(0.0), fx(1.0));
    let mut quad = Quad::new(vec3(0.0, 0.0, 0.0), vec3(2.0, 0.0, 0.0), vec3(0.0, 4.0, 0.0), vec3(0.0, 0.0, 6.0));
    quad.rotate(none, none, quarter);
    assert_eq!(quad.width, vec3(0.0, 2.0, 0.0));
    assert_eq!(quad.height, vec3(-4.0, 0.0, 0.0));
    assert_eq!(quad.depth, vec3(0.0, 0.0, 6.0));
    quad.translate(&vec3(1.0, 1.0, 1.0));
    assert_eq!(quad.center, vec3(1.0, 1.0, 1.0));
}

#[test]
fn basic_shape_answers_as_its_primitive() {
    let sphere = Sphere::new(vec3(0.0, 0.0, 0.0), fx(1.0));
    let diamond = Diamond::new(vec3(0.0, 0.0, 0.0), vec3(1.0, 0.0, 0.0), vec3(0.0, 1.0, 0.0));
    let quad = Quad::new(vec3(0.0, 0.0, 0.0), vec3(2.0, 0.0, 0.0), vec3(0.0, 4.0, 0.0), vec3(0.0, 0.0, 6.0));
    let ray = Ray::new(vec3(0.0, 0.0, -10.0), vec3(0.0, 0.0, 1.0));
    assert_eq!(BasicShape::Sphere(sphere).intersect(&ray).unwrap().dist, fx(9.0));
    assert_eq!(BasicShape::Diamond(diamond).intersect(&ray).unwrap().dist, fx(10.0));
    assert_eq!(BasicShape::Quad(quad).intersect(&ray).unwrap().dist, fx(7.0));
}

#[test]
fn color_dim_divides_every_channel() {
    let color = Color::new(fx(1.0), fx(0.5), fx(0.0));
    assert_eq!(color.dim(fx(0.25)).rgb, vec3(4.0, 2.0, 0.0));
    assert_eq!(color.dim(fx(4.0)).rgb, vec3(0.25, 0.125, 0.0));
    assert_eq!(color.dim(fx(1.0)).rgb, color.rgb);
}

#[test]
fn light_knows_where_it_is() {
    let light = Light::new(vec3(40.0, 40.0, -50.0), fx(5.0), Color::new(fx(1.0), fx(0.0), fx(0.0)));
    assert_eq!(light.origin(), vec3(40.0, 40.0, -50.0));
    assert_eq!(light.radius, fx(5.0));
    assert_eq!(light.color.rgb, vec3(1.0, 0.0, 0.0));
}

#[test]
fn scene_collects_shapes_and_lights_in_order() {
    let camera = Camera::new(vec3(0.0, 0.0, -10.0), Diamond::default());
    let mut scene = Scene::new(camera);
    assert!(scene.shapes.is_empty());
    assert!(scene.lights.is_empty());
    scene
        .add(BasicShape::Sphere(Sphere::new(vec3(0.0, 0.0, 0.0), fx(1.0))))
        .add(BasicShape::Diamond(Diamond::default()));
    scene.add_light(Light::new(vec3(0.0, 9.0, 0.0), fx(1.0), Color::new(fx(1.0), fx(1.0), fx(1.0))));
    assert_eq!(scene.shapes.len(), 2);
    assert_eq!(scene.lights.len(), 1);
    assert!(matches!(scene.shapes[0], BasicShape::Sphere(_)));
    assert!(matches!(scene.shapes[1], BasicShape::Diamond(_)));
    assert_eq!(scene.camera.position, vec3(0.0, 0.0, -10.0));
}

#[test]
fn scene_trace_picks_the_nearest_shape() {
    let camera = Camera::new(vec3(0.0, 0.0, -10.0), Diamond::default());
    let mut scene = Scene::new(camera);
    let ray = Ray::new(vec3(0.0, 0.0, -10.0), vec3(0.0, 0.0, 1.0));
    assert!(scene.trace(&ray).is_none());
    scene.add(BasicShape::Diamond(Diamond::new(vec3(0.0, 0.0, 5.0), vec3(1.0, 0.0, 0.0), vec3(0.0, 1.0, 0.0))));
    scene.add(BasicShape::Sphere(Sphere::new(vec3(0.0, 0.0, 0.0), fx(1.0))));
    let hit = scene.trace(&ray).unwrap();
    assert_eq!(hit.dist, fx(9.0));
    assert_eq!(hit.normal, vec3(0.0, 0.0, -1.0));
}

#[test]
fn camera_moves_with_its_screen() {
    let screen = Diamond::new(vec3(0.0, 0.0, 0.0), vec3(80.0, 0.0, 0.0), vec3(0.0, 60.0, 0.0));
    let mut scene = Scene::new(Camera::new(vec3(0.0, 0.0, -10.0), screen));
    scene.translate_camera(fx(1.0), fx(2.0), fx(3.0));
    assert_eq!(scene.camera.position, vec3(1.0, 2.0, -7.0));
    assert_eq!(scene.camera.screen.center, vec3(1.0, 2.0, 3.0));
    assert_eq!(scene.camera.screen.width, vec3(80.0, 0.0, 0.0));
    scene.camera.translate(fx(-1.0), fx(-2.0), fx(-3.0));
    assert_eq!(scene.camera.position, vec3(0.0, 0.0, -10.0));
    assert_eq!(scene.camera.screen.center, vec3(0.0, 0.0, 0.0));
}

#[test]
fn camera_turns_its_screen_about_the_eye() {
    let quarter = Angle::new(fx(1.0), fx(0.0));
    let none = Angle::new(fx(0.0), fx(1.0));
    let screen = Diamond::new(vec3(0.0, 0.0, 0.0), vec3(80.0, 0.0, 0.0), vec3(0.0, 60.0, 0.0));
    let mut scene = Scene::new(Camera::new(vec3(0.0, 0.0, -10.0), screen));
    scene.rotate_camera(none, quarter, none);
    assert_eq!(scene.camera.position, vec3(0.0, 0.0, -10.0));
    assert_eq!(scene.camera.screen.center, vec3(10.0, 0.0, -10.0));
    assert_eq!(scene.camera.screen.width, vec3(0.0, 0.0, -80.0));
    assert_eq!(scene.camera.screen.height, vec3(0.0, 60.0, 0.0));
}

#[test]
fn rotate_shape_turns_only_the_shape_named() {
    let quarter = Angle::new(fx(1.0), fx(0.0));
    let none = Angle::new(fx(0.0), fx(1.0));
    let mut scene = Scene::new(Camera::new(vec3(0.0, 0.0, -10.0), Diamond::default()));
    scene.add(BasicShape::Diamond(Diamond::default()));
    scene.add(BasicShape::Diamond(Diamond::default()));
    scene.rotate_shape(1, none, none, quarter);
    scene.rotate_shape(2, none, none, quarter);
    match scene.shapes[0] {
        BasicShape::Diamond(d) => assert_eq!(d.width, vec3(1.0, 0.0, 0.0)),
        _ => panic!("a diamond was added"),
    }
    match scene.shapes[1] {
        BasicShape::Diamond(d) => {
            assert_eq!(d.width, vec3(0.0, 1.0, 0.0));
            assert_eq!(d.height, vec3(-1.0, 0.0, 0.0));
        }
        _ => panic!("a diamond was added"),
    }
    assert_eq!(scene.shapes.len(), 2);
}

#[test]
fn straight_rays_at_the_unit_square_hit_up_to_its_edge() {
    let d = Diamond::default();
    let half: i64 = 2147483648;
    for (x, y, z, wanted) in [
        (half, half, -5.0, true),
        (-half, -half, -5.0, true),
        (half, -half, 0.0, true),
        (half + 1, 0, -5.0, false),
        (0, -half - 1, -5.0, false),
        (0, 0, 0.000001, false),
        (123456789, -987654321, -300000.5, true),
    ] {
        let origin = Vec3::new(Fixed::from_raw(x), Fixed::from_raw(y), fx(z));
        let ray = Ray { origin, direction: vec3(0.0, 0.0, 1.0) };
        let hit = d.intersect(&ray);
        assert_eq!(hit.is_some(), wanted);
        if let Some(hit) = hit {
            assert_eq!(hit.point, Vec3::new(Fixed::from_raw(x), Fixed::from_raw(y), fx(0.0)));
            assert_eq!(hit.dist, fx(-z));
            assert_eq!(hit.normal, vec3(0.0, 0.0, 1.0));
        }
    }
}

#[test]
fn small_diamond_is_hit() {
    let side = 1.0 / 512.0;
    let d = Diamond::new(vec3(0.0, 0.0, 0.0), vec3(side, 0.0, 0.0), vec3(0.0, side, 0.0));
    let ray = Ray::new(vec3(0.0, 0.0, -1.0), vec3(0.0, 0.0, 1.0));
    let hit = d.intersect(&ray).unwrap();
    assert_eq!(hit.dist, fx(1.0));
    assert_eq!(hit.point, vec3(0.0, 0.0, 0.0));
    assert_eq!(hit.normal, vec3(0.0, 0.0, 1.0));
    let past = Ray::new(vec3(side, 0.0, -1.0), vec3(0.0, 0.0, 1.0));
    assert!(d.intersect(&past).is_none());
}

#[test]
fn diamond_too_flat_for_a_cross_product_has_the_zero_normal() {
    let d = Diamond::new(
        vec3(0.0, 0.0, 0.0),
        Vec3::new(Fixed::from_raw(40000), fx(0.0), fx(0.0)),
        Vec3::new(fx(0.0), Fixed::from_raw(40000), fx(0.0)),
    );
    let ray = Ray { origin: vec3(0.0, 0.0, -1.0), direction: vec3(0.0, 0.0, 4294967296.0 / 40000.0 * 4.0) };
    match d.intersect(&ray) {
        Some(hit) => assert_eq!(hit.normal, vec3(0.0, 0.0, 0.0)),
        None => assert!(Mat3::from_cols(&d.width, &d.height, &ray.direction).invert().is_none()),
    }
}

#[test]
fn tiny_sphere_is_hit_through_its_center() {
    let sphere = Sphere::new(vec3(0.0, 0.0, 0.0), Fixed::from_raw(1000));
    let ray = Ray::new(vec3(0.0, 0.0, -5.0), vec3(0.0, 0.0, 1.0));
    let hit = sphere.intersect(&ray).unwrap();
    assert_eq!(hit.dist, fx(5.0));
    assert_eq!(hit.point, vec3(0.0, 0.0, 0.0));
    assert_eq!(hit.normal, vec3(0.0, 0.0, 0.0));
    let small = Sphere::new(vec3(0.0, 0.0, 0.0), fx(1.0 / 1024.0));
    let near = small.intersect(&ray).unwrap();
    assert_eq!(near.dist, fx(5.0 - 1.0 / 1024.0));
    assert_eq!(near.normal, vec3(0.0, 0.0, -1.0));
}
