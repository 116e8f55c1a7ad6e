use physics_lite::grid::{broad_phase, cell_coord_exec, pack_cell_exec, CollisionPair};
use physics_lite::quat::Quat;
use physics_lite::vec3::Vec3;
use physics_lite::{Body, Collider, Damping, Gravity, RigidBody, Speed};

fn body_at(x: i64, y: i64, z: i64) -> Body {
    Body {
        collider: Collider { cuboid: Vec3::new(1000, 1000, 1000) },
        rigid_body: RigidBody {
            damping: Damping(0),
            fixed: false,
            gravity: Gravity(0),
            speed: Speed(1000),
            linear_velocity: Vec3::new(0, 0, 0),
            angular_velocity: Vec3::new(0, 0, 0),
            is_colliding: false,
        },
        translation: Vec3::new(x, y, z),
        rotation: Quat::identity(),
        controller: false,
        map_base: false,
        collider_lines: false,
    }
}

#[test]
fn cell_coordinates_floor() {
    assert_eq!(cell_coord_exec(0), 0);
    assert_eq!(cell_coord_exec(999), 0);
    assert_eq!(cell_coord_exec(1000), 1);
    assert_eq!(cell_coord_exec(-1), -1);
    assert_eq!(cell_coord_exec(-1000), -1);
    assert_eq!(cell_coord_exec(-1001), -2);
}

#[test]
fn distinct_cells_pack_to_distinct_keys() {
    let a = pack_cell_exec(0, 0, 0);
    assert_ne!(a, pack_cell_exec(1, 0, 0));
    assert_ne!(a, pack_cell_exec(0, 1, 0));
    assert_ne!(a, pack_cell_exec(0, 0, 1));
    assert_ne!(a, pack_cell_exec(-1, 0, 0));
    assert_ne!(pack_cell_exec(1, 0, 0), pack_cell_exec(0, 1, 0));
    assert_eq!(a, pack_cell_exec(0, 0, 0));
}

#[test]
fn neighbors_pair_and_distant_bodies_do_not() {
    let bodies = vec![body_at(0, 0, 0), body_at(800, 0, 0), body_at(5000, 0, 0)];
    let pairs = broad_phase(&bodies);
    assert_eq!(pairs.len(), 1);
    assert_eq!(pairs[0], CollisionPair { first: 0, second: 1 });
}

#[test]
fn bodies_on_a_cell_boundary_still_pair() {
    // One body just left of the cell boundary, one exactly on it: the
    // centers are closer than a cell size, so the pair must be found even
    // though the centers sit in different cells — on every axis.
    let x = broad_phase(&vec![body_at(999, 0, 0), body_at(1000, 0, 0)]);
    assert_eq!(x.len(), 1);
    let y = broad_phase(&vec![body_at(0, 999, 0), body_at(0, 1000, 0)]);
    assert_eq!(y.len(), 1);
    let z = broad_phase(&vec![body_at(0, 0, -1000), body_at(0, 0, -1001)]);
    assert_eq!(z.len(), 1);
}

#[test]
fn each_unordered_pair_is_emitted_once() {
    // Three bodies in one cell: every unordered pair exactly once, lower
    // index first, and never both (a, b) and (b, a).
    let bodies = vec![body_at(0, 0, 0), body_at(1, 0, 0), body_at(2, 0, 0)];
    let pairs = broad_phase(&bodies);
    assert_eq!(pairs.len(), 3);
    for p in pairs.iter() {
        assert!(p.first < p.second);
    }
    let want = [(0usize, 1usize), (0, 2), (1, 2)];
    for (a, b) in want.iter() {
        assert_eq!(
            pairs
                .iter()
                .filter(|p| p.first == *a && p.second == *b)
                .count(),
            1
        );
    }
}

#[test]
fn corner_neighbors_are_gathered() {
    // Diagonal neighbors across a cell corner still count as adjacent.
    let bodies = vec![body_at(900, 900, 900), body_at(1100, 1100, 1100)];
    let pairs = broad_phase(&bodies);
    assert_eq!(pairs.len(), 1);
}

#[test]
fn negative_coordinates_bucket_correctly() {
    let bodies = vec![body_at(-100, -100, -100), body_at(100, 100, 100)];
    let pairs = broad_phase(&bodies);
    assert_eq!(pairs.len(), 1);
}
