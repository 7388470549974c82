use raydiancy::basic::Ray;
use raydiancy::color::{AColor, black, white};
use raydiancy::fixed::{SCALE, T_MAX};
use raydiancy::img_output::Image;
use raydiancy::lin_alg::Vec3M;
use raydiancy::material::{color_material, reflective_material};
use raydiancy::objects::mesh::Mesh;
use raydiancy::objects::sphere::Sphere;
use raydiancy::objects::surface::Surface;
use raydiancy::raytrace::{Camera, LightSource, Scene};

fn unit(x: i64, y: i64, z: i64) -> raydiancy::lin_alg::UnitVec3 {
    Vec3M::new(x, y, z).normalize()
}

fn quad_mesh() -> Mesh {
    // Two triangles forming the unit square of the ground plane, and a
    // far-away third one.
    let vertices = vec![
        Vec3M::zero(),
        Vec3M::new(SCALE, 0, 0),
        Vec3M::new(SCALE, 0, SCALE),
        Vec3M::new(0, 0, SCALE),
        Vec3M::new(5 * SCALE, 2 * SCALE, 0),
        Vec3M::new(6 * SCALE, 2 * SCALE, 0),
        Vec3M::new(5 * SCALE, 2 * SCALE, SCALE),
    ];
    let faces = vec![(0, 1, 2), (0, 2, 3), (4, 5, 6)];
    Mesh::new(vertices, faces, color_material(white()))
}

fn probe_rays() -> Vec<Ray> {
    vec![
        Ray::new(Vec3M::new(2000, 5 * SCALE, 2000), unit(0, -SCALE, 0)),
        Ray::new(Vec3M::new(2000, 5 * SCALE, 2000), unit(0, SCALE, 0)),
        Ray::new(Vec3M::new(9000, 5 * SCALE, 9000), unit(0, -SCALE, 0)),
        Ray::new(Vec3M::new(52000, 5 * SCALE, 2000), unit(0, -SCALE, 0)),
        Ray::new(Vec3M::new(-SCALE, SCALE, 2000), unit(SCALE, 0, 0)),
        Ray::new(Vec3M::new(2000, -SCALE, 2000), unit(0, SCALE, 0)),
        Ray::new(Vec3M::new(30000, 30000, 30000), unit(-5774, -5774, -5774)),
    ]
}

#[test]
fn bvh_matches_linear_scan() {
    // The hierarchy and the brute-force scan over the same mesh agree on
    // every probe: same hits, same distances.
    let linear = quad_mesh();
    let accelerated = quad_mesh().into_bvh();
    for ray in probe_rays() {
        let straight = linear.intersect(ray, T_MAX);
        let through_tree = accelerated.intersect(ray, T_MAX);
        assert_eq!(straight.is_some(), through_tree.is_some());
        if let (Some(a), Some(b)) = (straight, through_tree) {
            assert_eq!(a.t, b.t);
        }
        assert_eq!(linear.is_hit_by(ray, T_MAX), accelerated.is_hit_by(ray, T_MAX));
        let near = 4 * SCALE;
        assert_eq!(linear.intersect(ray, near).is_some(), accelerated.intersect(ray,
            near).is_some());
        assert_eq!(linear.is_hit_by(ray, near), accelerated.is_hit_by(ray, near));
    }
}

#[test]
fn mesh_bounding_box() {
    let mesh = quad_mesh();
    let bb = mesh.bounding_box().expect("a mesh with faces has a box");
    assert_eq!(bb.min(), Vec3M::new(0, 0, 0));
    assert_eq!(bb.max(), Vec3M::new(6 * SCALE, 2 * SCALE, SCALE));
    let empty = Mesh::new(vec![], vec![], color_material(white()));
    assert!(empty.bounding_box().is_none());
}

fn test_camera() -> Camera {
    Camera {
        pos: Vec3M::new(10 * SCALE, 0, 0),
        look_at: Vec3M::zero(),
        up: Vec3M::new(0, SCALE, 0),
        horizontal_fov: 20944,
        aspect_ratio: SCALE,
        width: 4,
        height: 4,
    }
}

#[test]
fn mirror_sphere_reflects_into_nothing() {
    // A fully mirrored sphere alone in an otherwise empty scene: the
    // reflected recursive trace finds nothing, so the traced color is
    // fully transparent.
    let scene = Scene {
        camera: test_camera(),
        objects: vec![Surface::Sphere(Sphere {
            center: Vec3M::zero(),
            radius: 5 * SCALE,
            material: reflective_material(SCALE, black()),
        })],
        lights: vec![],
        ambient_color: black(),
    };
    let ray = Ray::new(Vec3M::new(10 * SCALE, 0, 0), unit(-SCALE, 0, 0));
    assert!(scene.is_hit_by(ray, T_MAX));
    let traced = scene.trace_ray(ray, SCALE, 0, T_MAX);
    assert_eq!(traced, AColor::transparent());
}

#[test]
fn missing_everything_is_transparent() {
    let scene = Scene {
        camera: test_camera(),
        objects: vec![Surface::Sphere(Sphere {
            center: Vec3M::zero(),
            radius: 5 * SCALE,
            material: color_material(white()),
        })],
        lights: vec![LightSource { pos: Vec3M::new(0, 10 * SCALE, 0), col: white() }],
        ambient_color: white(),
    };
    let ray = Ray::new(Vec3M::new(10 * SCALE, 0, 0), unit(SCALE, 0, 0));
    assert!(!scene.is_hit_by(ray, T_MAX));
    assert_eq!(scene.trace_ray(ray, SCALE, 0, T_MAX), AColor::transparent());
}

#[test]
fn lit_sphere_is_visible() {
    // A diffuse sphere under a light shows up non-transparent.
    let scene = Scene {
        camera: test_camera(),
        objects: vec![Surface::Sphere(Sphere {
            center: Vec3M::zero(),
            radius: 5 * SCALE,
            material: color_material(white()),
        })],
        lights: vec![LightSource { pos: Vec3M::new(10 * SCALE, 10 * SCALE, 0), col: white() }],
        ambient_color: white(),
    };
    let ray = Ray::new(Vec3M::new(10 * SCALE, 0, 0), unit(-SCALE, 0, 0));
    let traced = scene.trace_ray(ray, SCALE, 0, T_MAX);
    assert_eq!(traced.transparency(), 0);
    assert!(traced.opaque().red() > 0);
}

#[test]
fn shadowed_point_gets_only_ambient() {
    // A second sphere sits between the light and the hit point, so only
    // the ambient term remains.
    let blocked = Scene {
        camera: test_camera(),
        objects: vec![
            Surface::Sphere(Sphere {
                center: Vec3M::zero(),
                radius: 5 * SCALE,
                material: color_material(white()),
            }),
            Surface::Sphere(Sphere {
                center: Vec3M::new(10 * SCALE, 5 * SCALE, 0),
                radius: 2 * SCALE,
                material: color_material(white()),
            }),
        ],
        lights: vec![LightSource { pos: Vec3M::new(14 * SCALE, 9 * SCALE, 0), col: white() }],
        ambient_color: black(),
    };
    let ray = Ray::new(Vec3M::new(12 * SCALE, 2 * SCALE, 0), unit(-SCALE, 0, 0));
    let traced = blocked.trace_ray(ray, SCALE, 0, T_MAX);
    // Black ambient light and a shadowed light leave a black surface.
    assert_eq!(traced.opaque(), black());
}

#[test]
fn render_fills_the_image() {
    let scene = Scene {
        camera: test_camera(),
        objects: vec![Surface::Sphere(Sphere {
            center: Vec3M::zero(),
            radius: 5 * SCALE,
            material: color_material(white()),
        })],
        lights: vec![LightSource { pos: Vec3M::new(10 * SCALE, 10 * SCALE, 0), col: white() }],
        ambient_color: white(),
    };
    let img = scene.render();
    assert_eq!(img.width, 4);
    assert_eq!(img.height, 4);
    // The center pixels look straight at the sphere.
    assert!(img.get(2, 2).transparency() < SCALE);
}

#[test]
fn image_buffer_get_set() {
    let mut img = Image::new(3, 2);
    assert_eq!(img.get(2, 1), AColor::transparent());
    img.set(2, 1, AColor::new(SCALE, 0, 0));
    assert_eq!(img.get(2, 1), AColor::new(SCALE, 0, 0));
    assert_eq!(img.get(0, 0), AColor::transparent());
}
