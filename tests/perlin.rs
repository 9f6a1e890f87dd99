use rand::rngs::StdRng;
use rand::SeedableRng;
use riven::perlin::{PerlinPermutations, POINT_COUNT};

fn is_permutation(p: &[i32], n: usize) -> bool {
    let mut seen = vec![false; n];
    p.len() == n
        && p.iter().all(|v| {
            let ok = *v >= 0 && (*v as usize) < n && !seen[*v as usize];
            if ok {
                seen[*v as usize] = true;
            }
            ok
        })
}

#[test]
fn generated_tables_are_permutations() {
    let mut rng = StdRng::seed_from_u64(9);
    let t = PerlinPermutations::new(&mut rng);
    assert!(is_permutation(&t.perm_x, POINT_COUNT));
    assert!(is_permutation(&t.perm_y, POINT_COUNT));
    assert!(is_permutation(&t.perm_z, POINT_COUNT));
    assert_ne!(t.perm_x, (0..256).collect::<Vec<i32>>());
}

#[test]
fn permute_moves_every_position() {
    let mut rng = StdRng::seed_from_u64(10);
    let mut p: Vec<i32> = (0..16).collect();
    PerlinPermutations::permute(&mut p, 16, &mut rng);
    assert!(is_permutation(&p, 16));
    for (k, v) in p.iter().enumerate() {
        assert_ne!(*v as usize, k);
    }
}

#[test]
fn small_and_empty_tables() {
    let mut rng = StdRng::seed_from_u64(12);
    assert_eq!(PerlinPermutations::perlin_generate_perm(0, &mut rng), Vec::<i32>::new());
    assert_eq!(PerlinPermutations::perlin_generate_perm(1, &mut rng), vec![0]);
    assert_eq!(PerlinPermutations::perlin_generate_perm(2, &mut rng), vec![1, 0]);
}

#[test]
fn same_seed_gives_same_tables() {
    let a = PerlinPermutations::new(&mut StdRng::seed_from_u64(77));
    let b = PerlinPermutations::new(&mut StdRng::seed_from_u64(77));
    assert_eq!(a.perm_x, b.perm_x);
    assert_eq!(a.perm_y, b.perm_y);
    assert_eq!(a.perm_z, b.perm_z);
}

#[test]
fn lattice_index_xors_the_three_tables() {
    let identity: Vec<i32> = (0..256).collect();
    let reversed: Vec<i32> = (0..256).rev().collect();
    let t = PerlinPermutations { perm_x: identity.clone(), perm_y: identity, perm_z: reversed };
    assert_eq!(t.lattice_index(300, 5, 7), 44 ^ 5 ^ 248);
    assert_eq!(t.lattice_index(0, 0, 0), 255);
    assert_eq!(t.lattice_index(256, 512, 255), 0);
}
