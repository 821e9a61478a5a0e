use pathtracer::onb::OrthonormalBasis;
use pathtracer::perlin::{perlin_generate_perm, permute, permute_with, Perlin, POINT_COUNT};
use pathtracer::ppm::PPMFile;
use pathtracer::util::clamp;
use pathtracer::vec3::Vec3;

#[test]
fn clamp_holds_a_value_between_the_ends() {
    assert_eq!(clamp(5, 0, 10), 5);
    assert_eq!(clamp(-5, 0, 10), 0);
    assert_eq!(clamp(15, 0, 10), 10);
    assert_eq!(clamp(0, 0, 10), 0);
    assert_eq!(clamp(10, 0, 10), 10);
    assert_eq!(clamp(0.5, 0.0, 0.999), 0.5);
    assert_eq!(clamp(1.5, 0.0, 0.999), 0.999);
    assert_eq!(clamp(-1.5, 0.0, 0.999), 0.0);
    assert!(clamp(f64::NAN, 0.0, 1.0).is_nan());
    assert_eq!(clamp(300usize, 0, 255), 255);
}

#[test]
fn header_names_format_size_and_depth() {
    let file = PPMFile::create(600, 800, 100, vec![0u8; 3]);
    assert_eq!(file.header(), "P6\n800 600\n255\n");
    assert_eq!(file.height(), 600);
    assert_eq!(file.width(), 800);
    assert_eq!(file.spp, 100);
    assert_eq!(file.buf, vec![0u8; 3]);
    assert_eq!(PPMFile::create(0, 1, 1, Vec::<u8>::new()).header(), "P6\n1 0\n255\n");
}

#[test]
fn table_holds_every_number_once() {
    for _ in 0..20 {
        let table = perlin_generate_perm();
        assert_eq!(table.len(), POINT_COUNT);
        let mut seen = [false; 256];
        for entry in &table {
            assert!(*entry >= 0 && *entry < 256);
            assert!(!seen[*entry as usize]);
            seen[*entry as usize] = true;
        }
    }
}

#[test]
fn table_is_shuffled() {
    let counting: Vec<i32> = (0..256).collect();
    let rotated: Vec<i32> = (0..256).map(|i| (i + 1) % 256).collect();
    let first = perlin_generate_perm();
    let second = perlin_generate_perm();
    assert_ne!(first, counting);
    assert_ne!(first, rotated);
    assert_ne!(first, second);
}

#[test]
fn shuffle_keeps_the_items() {
    let mut items = vec![5, 5, 7, -1, 0, 12, 7];
    permute(&mut items);
    let mut sorted = items.clone();
    sorted.sort();
    assert_eq!(sorted, vec![-1, 0, 5, 5, 7, 7, 12]);
    let mut none: Vec<i32> = Vec::new();
    permute(&mut none);
    assert!(none.is_empty());
    let mut one = vec![3];
    permute(&mut one);
    assert_eq!(one, vec![3]);
}

#[test]
fn lattice_corner_wraps_its_coordinates() {
    let vectors: Vec<usize> = (0..256).collect();
    let lattice = Perlin::new(vectors);
    for (i, j, k) in [(0, 0, 0), (1, 2, 3), (255, 255, 255), (-1, -7, 300), (i32::MAX, i32::MIN, 77)] {
        let here = *lattice.corner(i, j, k);
        assert!(here < 256);
        assert_eq!(here, *lattice.corner(i + 256 * 3, j - 256, k & 255));
    }
    let mut seen = [false; 256];
    for i in 0..256 {
        seen[*lattice.corner(i, 0, 0)] = true;
    }
    assert!(seen.iter().all(|s| *s));
}

#[test]
fn vector_is_made_of_its_components() {
    let v = Vec3::new(1, 2, 3);
    assert_eq!((v.x, v.y, v.z), (1, 2, 3));
    assert_eq!(Vec3::only(7), Vec3::new(7, 7, 7));
    assert_eq!(v.values(), [1, 2, 3]);
    assert_eq!(v.iter(), [&1, &2, &3]);
    assert_eq!(v.iter().into_iter().copied().sum::<i32>(), 6);
    assert_eq!(*v.index(0), 1);
    assert_eq!(*v.index(1), 2);
    assert_eq!(*v.index(2), 3);
    let mut w = v;
    *w.index_mut(1) = 20;
    assert_eq!(w, Vec3::new(1, 20, 3));
    *w.index_mut(0) += 4;
    *w.index_mut(2) -= 4;
    assert_eq!(w, Vec3::new(5, 20, -1));
}

#[test]
fn products_of_vectors() {
    let a = Vec3::new(1.0, 2.0, 3.0);
    let b = Vec3::new(4.0, -5.0, 6.0);
    assert_eq!(a.dot(&b), 12.0);
    assert_eq!(a.norm_squared(), 14.0);
    assert_eq!(a.cross(&b), Vec3::new(27.0, 6.0, -13.0));
    assert_eq!(b.cross(&a), Vec3::new(-27.0, -6.0, 13.0));
    let x = Vec3::new(1, 0, 0);
    let y = Vec3::new(0, 1, 0);
    assert_eq!(x.cross(&y), Vec3::new(0, 0, 1));
    assert_eq!(x.dot(&y), 0);
    assert_eq!(Vec3::new(3, 4, 12).norm_squared(), 169);
}

#[test]
fn sums_and_products_go_axis_by_axis() {
    let a = Vec3::new(1.0, 2.0, 3.0);
    let b = Vec3::new(4.0, -5.0, 6.0);
    assert_eq!(a + b, Vec3::new(5.0, -3.0, 9.0));
    assert_eq!(a - b, Vec3::new(-3.0, 7.0, -3.0));
    assert_eq!(a * b, Vec3::new(4.0, -10.0, 18.0));
    assert_eq!(a + 1.0, Vec3::new(2.0, 3.0, 4.0));
    assert_eq!(a - 1.0, Vec3::new(0.0, 1.0, 2.0));
    assert_eq!(a * 2.0, Vec3::new(2.0, 4.0, 6.0));
    assert_eq!(-a, Vec3::new(-1.0, -2.0, -3.0));
    assert_eq!(Vec3::new(1, 2, 3) * 3 - Vec3::only(1), Vec3::new(2, 5, 8));
}

#[test]
fn extremes_go_axis_by_axis() {
    let a = Vec3::new(1i64, 9, -3);
    let b = Vec3::new(4i64, -5, -3);
    assert_eq!(Vec3::element_wise_min(a, b), Vec3::new(1, -5, -3));
    assert_eq!(Vec3::element_wise_max(a, b), Vec3::new(4, 9, -3));
}

#[test]
fn frame_maps_its_coordinates_to_the_world() {
    let frame = OrthonormalBasis {
        axis: Vec3::new(Vec3::new(0.0, 1.0, 0.0), Vec3::new(0.0, 0.0, 1.0), Vec3::new(1.0, 0.0, 0.0)),
    };
    assert_eq!(frame.u(), Vec3::new(0.0, 1.0, 0.0));
    assert_eq!(frame.v(), Vec3::new(0.0, 0.0, 1.0));
    assert_eq!(frame.w(), Vec3::new(1.0, 0.0, 0.0));
    assert_eq!(frame.local(Vec3::new(2.0, 3.0, 5.0)), Vec3::new(5.0, 2.0, 3.0));
    let skew = OrthonormalBasis {
        axis: Vec3::new(Vec3::new(1, 2, 3), Vec3::new(4, 5, 6), Vec3::new(7, 8, 9)),
    };
    assert_eq!(skew.local(Vec3::new(1, 10, 100)), Vec3::new(741, 852, 963));
}

#[test]
fn shuffle_follows_its_draws_from_the_last_place_down() {
    let mut items = vec![10, 20, 30, 40];
    permute_with(&mut items, &[3, 0, 1, 0]);
    assert_eq!(items, vec![30, 20, 10, 40]);
    let mut items = vec![10, 20, 30, 40];
    permute_with(&mut items, &[0, 0, 0, 0]);
    assert_eq!(items, vec![20, 30, 40, 10]);
    let mut items = vec![10, 20, 30, 40];
    permute_with(&mut items, &[3, 2, 1, 0]);
    assert_eq!(items, vec![10, 20, 30, 40]);
    let mut items = vec![10, 20, 30, 40];
    permute_with(&mut items, &[1, 1, 0, 0]);
    assert_eq!(items, vec![30, 10, 40, 20]);
    let mut none: Vec<i32> = Vec::new();
    permute_with(&mut none, &[]);
    assert!(none.is_empty());
}
