use vstd::prelude::*;
use rand::rngs::StdRng;
use crate::random::random_below;

verus! {

/// The number of lattice points a Perlin noise table has on each axis.
pub const POINT_COUNT: usize = 256;

/// `s` holds each of `0..n` exactly once.
pub open spec fn is_permutation(s: Seq<i32>, n: int) -> bool {
    &&& s.len() == n
    &&& forall|k: int| 0 <= k < n ==> 0 <= #[trigger] s[k] < n
    &&& forall|a: int, b: int| 0 <= a < n && 0 <= b < n && a != b ==> s[a] != s[b]
}

/// The three permutation tables of Perlin noise, one per axis, which hash a
/// lattice point to one of the `POINT_COUNT` gradients.
pub struct PerlinPermutations {
    pub perm_x: Vec<i32>,
    pub perm_y: Vec<i32>,
    pub perm_z: Vec<i32>,
}

/// The gradient index of lattice point `(i, j, k)`.
pub open spec fn lattice_spec(px: Seq<i32>, py: Seq<i32>, pz: Seq<i32>, i: int, j: int, k: int) -> i32 {
    px[i % 256] ^ py[j % 256] ^ pz[k % 256]
}

impl PerlinPermutations {
    pub open spec fn wf(&self) -> bool {
        &&& is_permutation(self.perm_x@, POINT_COUNT as int)
        &&& is_permutation(self.perm_y@, POINT_COUNT as int)
        &&& is_permutation(self.perm_z@, POINT_COUNT as int)
    }

    /// Three independently shuffled tables.
    pub fn new(rng: &mut StdRng) -> (r: PerlinPermutations)
        ensures
            r.wf(),
    {
        let perm_x = PerlinPermutations::perlin_generate_perm(POINT_COUNT, rng);
        let perm_y = PerlinPermutations::perlin_generate_perm(POINT_COUNT, rng);
        let perm_z = PerlinPermutations::perlin_generate_perm(POINT_COUNT, rng);
        PerlinPermutations { perm_x, perm_y, perm_z }
    }

    /// `0..n` in a random order.
    pub fn perlin_generate_perm(n: usize, rng: &mut StdRng) -> (r: Vec<i32>)
        requires
            n <= i32::MAX,
        ensures
            is_permutation(r@, n as int),
    {
        let mut p: Vec<i32> = Vec::new();
        let mut i: usize = 0;
        while i < n
            invariant
                i <= n <= i32::MAX,
                p@.len() == i,
                forall|k: int| 0 <= k < i ==> #[trigger] p@[k] == k,
            decreases n - i,
        {
            p.push(i as i32);
            i = i + 1;
        }
        PerlinPermutations::permute(&mut p, n, rng);
        p
    }

    /// Shuffles `p`: from the last position down to the second, each position
    /// is exchanged with a randomly drawn position before it.
    pub fn permute(p: &mut Vec<i32>, n: usize, rng: &mut StdRng)
        requires
            is_permutation(old(p)@, n as int),
        ensures
            is_permutation(final(p)@, n as int),
    {
        let mut i: usize = n;
        while i > 1
            invariant
                1 <= i || n == 0,
                i <= n,
                is_permutation(p@, n as int),
            decreases i,
        {
            i = i - 1;
            let target = random_below(rng, i);
            let a = p[i];
            let b = p[target];
            p.set(i, b);
            p.set(target, a);
        }
    }

    /// The gradient index of lattice point `(i, j, k)`: the exclusive or of
    /// the three tables' entries at `i`, `j` and `k` modulo `POINT_COUNT`.
    pub fn lattice_index(&self, i: usize, j: usize, k: usize) -> (r: usize)
        requires
            self.wf(),
        ensures
            r == lattice_spec(self.perm_x@, self.perm_y@, self.perm_z@, i as int, j as int, k as int),
            r < POINT_COUNT,
    {
        let x = self.perm_x[i % 256];
        let y = self.perm_y[j % 256];
        let z = self.perm_z[k % 256];
        let h = x ^ y ^ z;
        assert(0 <= h < 256) by (bit_vector)
            requires
                h == x ^ y ^ z,
                0 <= x < 256,
                0 <= y < 256,
                0 <= z < 256,
        ;
        h as usize
    }
}

} // verus!
