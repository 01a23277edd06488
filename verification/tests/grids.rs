use fso_los::bounds::Bounds;
use fso_los::download::Region;
use fso_los::fixed::Fixed;
use fso_los::grid_steps::integers_between;
use fso_los::map::{ArrayMap, GridMap};
use fso_los::matrix::{isize_indices_in_matrix_bounds, ArrayMatrix, Matrix, MaxReducedMatrices};
use fso_los::node_pairs::node_pairs;
use fso_los::ray::{Ray2, Ray3};
use fso_los::ray_z::RayZ;
use fso_los::tile::chunk_max;
use fso_los::tiles::{tile_filename, TileCoordinates, TileRegion};

#[test]
fn bounds_contain_half_open_rectangles() {
    let bounds = Bounds::origin_rectangle(3, 2);
    assert_eq!(bounds, Bounds { min_x: 0, min_y: 0, max_x: 3, max_y: 2 });
    assert!(bounds.contains(0, 0));
    assert!(bounds.contains(2, 1));
    assert!(!bounds.contains(3, 1));
    assert!(!bounds.contains(2, 2));
    assert!(!bounds.contains(-1, 0));
    assert_eq!(Bounds::origin_square(5), Bounds { min_x: 0, min_y: 0, max_x: 5, max_y: 5 });
}

#[test]
fn rays_end_at_start_plus_diff() {
    let ray = Ray3 { start_x: 1, start_y: 2, start_z: 3, diff_x: 10, diff_y: -20, diff_z: 30 };
    assert_eq!((ray.end_x(), ray.end_y(), ray.end_z()), (11, -18, 33));
    assert_eq!(ray.as_ray_2(), Ray2 { start_x: 1, start_y: 2, diff_x: 10, diff_y: -20 });
    let ray_z = RayZ {
        start_x: Fixed::from_int(1),
        start_y: Fixed::from_int(2),
        start_z: Fixed::from_raw(500_000),
        diff_x: Fixed::from_int(3),
        diff_y: Fixed::from_int(-4),
        diff_z: Fixed::from_raw(250_000),
    };
    assert_eq!(ray_z.end_x(), Fixed::from_int(4));
    assert_eq!(ray_z.end_y(), Fixed::from_int(-2));
    assert_eq!(ray_z.end_z(), Fixed::from_raw(750_000));
    assert_eq!(ray_z.as_ray().diff_y, Fixed::from_int(-4));
    let planar = Ray2 { start_x: 1.5f32, start_y: 0.0, diff_x: 1.0, diff_y: 2.0 };
    assert_eq!((planar.end_x(), planar.end_y()), (2.5, 2.0));
}

#[test]
fn integers_strictly_between() {
    assert_eq!(integers_between(Fixed::from_int(0), Fixed::from_int(4)), 3);
    assert_eq!(integers_between(Fixed::from_int(4), Fixed::from_int(0)), 3);
    assert_eq!(integers_between(Fixed::from_raw(500_000), Fixed::from_raw(700_000)), 0);
    assert_eq!(integers_between(Fixed::from_raw(500_000), Fixed::from_raw(1_500_000)), 1);
    assert_eq!(integers_between(Fixed::from_raw(-1_500_000), Fixed::from_raw(1_000_000)), 2);
    assert_eq!(integers_between(Fixed::from_int(7), Fixed::from_int(7)), 0);
}

#[test]
fn tile_regions() {
    let region = TileRegion { x_min: 646, x_max: 647, y_min: 6864, y_max: 6866 };
    assert_eq!(region.area(), 6);
    assert_eq!(region.coordinates(), vec![
        TileCoordinates { x: 646, y: 6864 },
        TileCoordinates { x: 646, y: 6865 },
        TileCoordinates { x: 646, y: 6866 },
        TileCoordinates { x: 647, y: 6864 },
        TileCoordinates { x: 647, y: 6865 },
        TileCoordinates { x: 647, y: 6866 },
    ]);
    let empty = TileRegion { x_min: 5, x_max: 4, y_min: 0, y_max: 0 };
    assert!(empty.coordinates().is_empty());
    assert_eq!(empty.area(), 0);
    let inverted = TileRegion { x_min: 5, x_max: 3, y_min: 0, y_max: 0 };
    assert_eq!(inverted.area(), usize::MAX);
    let region = Region { x_min: 1, x_max: 2, y_min: 3, y_max: 4 };
    assert_eq!(region.x_max - region.x_min, 1);
}

#[test]
fn tile_filenames() {
    assert_eq!(
        tile_filename(TileCoordinates { x: 650, y: 6860 }),
        "LHD_FXX_0650_6860_MNS_O_0M50_LAMB93_IGN69.tif"
    );
    assert_eq!(
        tile_filename(TileCoordinates { x: 5, y: -7 }),
        "LHD_FXX_0005_00-7_MNS_O_0M50_LAMB93_IGN69.tif"
    );
    assert_eq!(
        tile_filename(TileCoordinates { x: 123456, y: 0 }),
        "LHD_FXX_123456_0000_MNS_O_0M50_LAMB93_IGN69.tif"
    );
    assert_eq!(
        tile_filename(TileCoordinates { x: i32::MIN, y: 10 }),
        "LHD_FXX_-2147483648_0010_MNS_O_0M50_LAMB93_IGN69.tif"
    );
    assert_eq!(
        tile_filename(TileCoordinates { x: 650, y: 6860 }),
        format!("LHD_FXX_{:0>4}_{:0>4}_MNS_O_0M50_LAMB93_IGN69.tif", 650, 6860)
    );
}

#[test]
fn array_maps() {
    let mut map = ArrayMap::<i32>::new(3, 2);
    assert_eq!((map.x_len(), map.y_len(), map.len()), (3, 2, 6));
    assert_eq!(map.get(2, 1), 0);
    map.set(2, 1, 7);
    assert_eq!(map.get(2, 1), 7);
    assert_eq!(map.get(1, 1), 0);
    let map = ArrayMap::from_vec(2, 2, vec![1, 2, 3, 4]);
    assert_eq!((map.get(0, 0), map.get(1, 0), map.get(0, 1), map.get(1, 1)), (1, 2, 3, 4));
}

#[test]
fn max_reduction() {
    let heights: Vec<Fixed> = [1, 5, 2, 0, 3, 4, 9, 1, 0, 0, 0, 0, -1, -2, -3, -4]
        .iter()
        .map(|&v| Fixed::from_int(v))
        .collect();
    let matrix = ArrayMatrix::from_vec(4, 4, heights);
    let reduced = matrix.max_reduce();
    assert_eq!((reduced.x_len(), reduced.y_len()), (2, 2));
    assert_eq!(reduced.get(0, 0), Fixed::from_int(5));
    assert_eq!(reduced.get(1, 0), Fixed::from_int(9));
    assert_eq!(reduced.get(0, 1), Fixed::from_int(0));
    assert_eq!(reduced.get(1, 1), Fixed::from_int(0));
    let again = reduced.max_reduce();
    assert_eq!(again.get(0, 0), Fixed::from_int(9));

    let small = ArrayMatrix::from_vec(2, 2, vec![Fixed::from_int(3), Fixed::from_int(-1), Fixed::from_int(8), Fixed::from_int(2)]);
    let levels = MaxReducedMatrices::new(small);
    assert_eq!(levels.get(1).get(0, 0), Fixed::from_int(8));
    assert_eq!(levels.get(0).get(1, 0), Fixed::from_int(-1));
}

#[test]
fn matrix_index_bounds() {
    let mut matrix = ArrayMatrix::<u8>::new(4, 3);
    matrix.set(3, 2, 9);
    assert_eq!(matrix.get(3, 2), 9);
    assert!(isize_indices_in_matrix_bounds(&matrix, 3, 2));
    assert!(!isize_indices_in_matrix_bounds(&matrix, 4, 2));
    assert!(!isize_indices_in_matrix_bounds(&matrix, 3, 3));
    assert!(!isize_indices_in_matrix_bounds(&matrix, -1, 0));
}

#[test]
fn pairs_of_nodes() {
    let pairs = node_pairs(&['a', 'b', 'c']);
    assert_eq!(pairs, vec![('b', 'a'), ('c', 'a'), ('c', 'b')]);
    assert!(node_pairs::<u8>(&[]).is_empty());
    assert!(node_pairs(&[1u8]).is_empty());
}

#[test]
fn chunk_maxima() {
    // 4 by 4 map, row after row
    let heights: Vec<Fixed> = [1, 5, 2, 0, 3, 4, 9, 1, 0, -7, 0, 8, -1, -2, -3, -4]
        .iter()
        .map(|&v| Fixed::from_int(v))
        .collect();
    let map = ArrayMap::from_vec(4, 4, heights);
    assert_eq!(chunk_max(&map, 2, 0, 0), Fixed::from_int(5));
    assert_eq!(chunk_max(&map, 2, 1, 0), Fixed::from_int(9));
    assert_eq!(chunk_max(&map, 2, 0, 1), Fixed::from_int(0));
    assert_eq!(chunk_max(&map, 2, 1, 1), Fixed::from_int(8));
    assert_eq!(chunk_max(&map, 4, 0, 0), Fixed::from_int(9));
    assert_eq!(chunk_max(&map, 1, 1, 2), Fixed::from_int(-7));
}
