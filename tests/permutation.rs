use rand::SeedableRng;
use perlin_noise::permutation::wrap_coord;
use perlin_noise::PermutationTable;
use perlin_noise::PERM_TABLE_SIZE;

fn entries(t: &PermutationTable) -> Vec<usize> {
    (0..PERM_TABLE_SIZE).map(|i| t.lookup(i)).collect()
}

#[test]
fn table_holds_each_index_once() {
    for seed in [0u64, 1, 42, u64::MAX] {
        let mut seen = vec![0u32; PERM_TABLE_SIZE];
        for v in entries(&PermutationTable::new(seed)) {
            seen[v] += 1;
        }
        assert!(seen.iter().all(|&n| n == 1));
    }
}

#[test]
fn table_is_shuffled() {
    let identity: Vec<usize> = (0..PERM_TABLE_SIZE).collect();
    assert_ne!(entries(&PermutationTable::new(0)), identity);
}

#[test]
fn same_seed_same_table() {
    assert_eq!(entries(&PermutationTable::new(0)), entries(&PermutationTable::new(0)));
    assert_eq!(entries(&PermutationTable::new(7)), entries(&PermutationTable::new(7)));
}

#[test]
fn different_seeds_differ() {
    assert_ne!(entries(&PermutationTable::new(0)), entries(&PermutationTable::new(1)));
}

#[test]
fn lookup_wraps_index() {
    let t = PermutationTable::new(3);
    assert_eq!(t.lookup(256), t.lookup(0));
    assert_eq!(t.lookup(511), t.lookup(255));
    assert!(t.lookup(usize::MAX) < PERM_TABLE_SIZE);
}

#[test]
fn hash_chains_lookups() {
    let t = PermutationTable::new(5);
    assert_eq!(t.hash(&[]), 0);
    assert_eq!(t.hash(&[9]), t.lookup(9));
    let h = t.lookup(4);
    assert_eq!(t.hash(&[4, 200]), t.lookup(h + 200));
    assert_eq!(t.hash(&[4 + 256, 200 + 512]), t.hash(&[4, 200]));
}

#[test]
fn wrap_coord_is_euclidean() {
    assert_eq!(wrap_coord(0), 0);
    assert_eq!(wrap_coord(255), 255);
    assert_eq!(wrap_coord(256), 0);
    assert_eq!(wrap_coord(-1), 255);
    assert_eq!(wrap_coord(-256), 0);
    assert_eq!(wrap_coord(-257), 255);
    assert_eq!(wrap_coord(i64::MIN), 0);
    assert_eq!(wrap_coord(i64::MAX), 255);
}

#[test]
fn segment_ends_are_lattice_hashes() {
    let t = PermutationTable::new(11);
    assert_eq!(t.segment_ends(3), (t.lookup(3), t.lookup(4)));
    assert_eq!(t.segment_ends(255), (t.lookup(255), t.lookup(0)));
    assert_eq!(t.segment_ends(-1), (t.lookup(255), t.lookup(0)));
}

#[test]
fn neighbouring_squares_share_corners() {
    let t = PermutationTable::new(0);
    let a = t.square_corners(10, 20);
    let right = t.square_corners(11, 20);
    let up = t.square_corners(10, 21);
    assert_eq!(a[1], right[0]);
    assert_eq!(a[3], right[2]);
    assert_eq!(a[2], up[0]);
    assert_eq!(a[3], up[1]);
    assert_eq!(a[0], t.hash(&[10, 20]));
}

#[test]
fn corners_repeat_with_table_period() {
    let t = PermutationTable::new(2);
    assert_eq!(t.square_corners(-3, 7), t.square_corners(253, 7));
    assert_eq!(t.square_corners(255, 255), t.square_corners(-1, -1));
}

fn fisher_yates(draws: &[usize]) -> Vec<usize> {
    let mut t: Vec<usize> = (0..PERM_TABLE_SIZE).collect();
    for (k, &d) in draws.iter().enumerate() {
        t.swap(PERM_TABLE_SIZE - 1 - k, d);
    }
    t
}

#[test]
fn draws_that_swap_in_place_keep_identity() {
    let draws: Vec<usize> = (0..PERM_TABLE_SIZE - 1).map(|k| PERM_TABLE_SIZE - 1 - k).collect();
    let identity: Vec<usize> = (0..PERM_TABLE_SIZE).collect();
    assert_eq!(entries(&PermutationTable::from_draws(&draws)), identity);
}

#[test]
fn zero_draws_rotate_first_slot() {
    let draws = vec![0usize; PERM_TABLE_SIZE - 1];
    let t = entries(&PermutationTable::from_draws(&draws));
    assert_eq!(t, fisher_yates(&draws));
    assert_eq!(t[0], 1);
    assert_eq!(t[255], 0);
    assert_eq!(t[254], 255);
}

#[test]
fn mixed_draws_follow_the_shuffle() {
    let draws: Vec<usize> = (0..PERM_TABLE_SIZE - 1)
        .map(|k| (k * 37 + 11) % (PERM_TABLE_SIZE - k))
        .collect();
    assert_eq!(entries(&PermutationTable::from_draws(&draws)), fisher_yates(&draws));
}

#[test]
fn seeded_table_uses_seeded_generator() {
    let mut rng = rand::rngs::StdRng::seed_from_u64(9);
    assert_eq!(entries(&PermutationTable::from_rng(&mut rng)), entries(&PermutationTable::new(9)));
}
