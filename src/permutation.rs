//! A seeded permutation of `0..PERM_TABLE_SIZE` and the hash that folds
//! integer lattice coordinates into an index of that range.

use vstd::prelude::*;
use vstd::arithmetic::div_mod::lemma_add_mod_noop_right;
use vstd::arithmetic::div_mod::lemma_fundamental_div_mod_converse;
use rand::SeedableRng;
use rand::Rng;

verus! {

#[verifier::external_type_specification]
#[verifier::external_body]
pub struct ExStdRng(rand::rngs::StdRng);

/// Relies on `rand::SeedableRng::seed_from_u64` for `StdRng`: it builds the
/// generator that a table built from a seed is shuffled with.
#[verifier::external_body]
pub(crate) fn seeded_rng(seed: u64) -> (r: rand::rngs::StdRng) {
    rand::rngs::StdRng::seed_from_u64(seed)
}

/// Relies on `rand::Rng::gen_range` over `0..bound`: it yields a value of that
/// range, and panics only when the range is empty.
#[verifier::external_body]
pub(crate) fn random_below(rng: &mut rand::rngs::StdRng, bound: usize) -> (r: usize)
    requires
        bound > 0,
    ensures
        r < bound,
{
    rng.gen_range(0..bound)
}

/// Number of entries in a permutation table, and the period of the lattice
/// hashes along each axis.
pub const PERM_TABLE_SIZE: usize = 256;

/// `t` holds every value of `0..PERM_TABLE_SIZE` exactly once.
pub open spec fn is_permutation(t: Seq<int>) -> bool {
    &&& t.len() == PERM_TABLE_SIZE
    &&& forall|i: int| 0 <= i < t.len() ==> 0 <= #[trigger] t[i] < PERM_TABLE_SIZE
    &&& forall|i: int, j: int| 0 <= i < j < t.len() ==> t[i] != t[j]
    &&& forall|v: int| 0 <= v < PERM_TABLE_SIZE ==> #[trigger] t.contains(v)
}

/// The index that `coords` hash to in table `t`: starting from 0, each
/// coordinate in turn is added to the running index and the sum, taken
/// modulo `PERM_TABLE_SIZE`, is looked up in the table.
pub open spec fn hash_of(t: Seq<int>, coords: Seq<int>) -> int
    decreases coords.len(),
{
    if coords.len() == 0 {
        0
    } else {
        t[(hash_of(t, coords.drop_last()) + coords.last()) % (PERM_TABLE_SIZE as int)]
    }
}

/// The hash of the 1D lattice point `x`.
pub open spec fn lattice_hash1(t: Seq<int>, x: int) -> int {
    hash_of(t, seq![x])
}

/// The hash of the 2D lattice point `(x, y)`.
pub open spec fn lattice_hash2(t: Seq<int>, x: int, y: int) -> int {
    hash_of(t, seq![x, y])
}

/// Reducing the last coordinate modulo the table size does not change a hash.
proof fn lemma_hash_reduce_last(t: Seq<int>, coords: Seq<int>, c: int)
    ensures
        hash_of(t, coords.push(c % (PERM_TABLE_SIZE as int))) == hash_of(t, coords.push(c)),
{
    let n = PERM_TABLE_SIZE as int;
    assert(coords.push(c % n).drop_last() =~= coords);
    assert(coords.push(c).drop_last() =~= coords);
    lemma_add_mod_noop_right(hash_of(t, coords), c, n);
}

/// Lattice hashes repeat with period `PERM_TABLE_SIZE` along each axis.
pub proof fn lemma_lattice_period(t: Seq<int>, x: int, y: int)
    ensures
        lattice_hash1(t, x + PERM_TABLE_SIZE) == lattice_hash1(t, x),
        lattice_hash2(t, x + PERM_TABLE_SIZE, y) == lattice_hash2(t, x, y),
        lattice_hash2(t, x, y + PERM_TABLE_SIZE) == lattice_hash2(t, x, y),
{
    let n = PERM_TABLE_SIZE as int;
    let e = Seq::<int>::empty();
    assert((x + n) % n == x % n) by {
        lemma_add_mod_noop_right(x, n, n);
    }
    assert((y + n) % n == y % n) by {
        lemma_add_mod_noop_right(y, n, n);
    }
    assert(seq![x] =~= e.push(x));
    assert(seq![x + n] =~= e.push(x + n));
    lemma_hash_reduce_last(t, e, x);
    lemma_hash_reduce_last(t, e, x + n);
    assert(seq![x, y] =~= e.push(x).push(y));
    assert(seq![x + n, y] =~= e.push(x + n).push(y));
    assert(seq![x, y + n] =~= e.push(x).push(y + n));
    assert(e.push(x + n).push(y).drop_last() =~= e.push(x + n));
    assert(e.push(x).push(y).drop_last() =~= e.push(x));
    lemma_hash_reduce_last(t, e.push(x), y);
    lemma_hash_reduce_last(t, e.push(x), y + n);
}

/// `c` reduced into `0..PERM_TABLE_SIZE` (Euclidean remainder, so that negative
/// coordinates wrap around as well).
pub fn wrap_coord(c: i64) -> (r: usize)
    ensures
        r as int == c as int % (PERM_TABLE_SIZE as int),
{
    if c >= 0 {
        ((c as u64) % 256) as usize
    } else {
        let p: i64 = -(c + 1);
        let m: u64 = (p as u64) % 256;
        proof {
            let q = p as int / 256;
            lemma_fundamental_div_mod_converse(c as int, 256, -q - 1, 255 - m as int);
        }
        (255 - m) as usize
    }
}

/// `s` with the entries at `i` and `j` exchanged.
pub open spec fn swapped(s: Seq<int>, i: int, j: int) -> Seq<int> {
    s.update(i, s[j]).update(j, s[i])
}

/// `d` can drive a Fisher-Yates shuffle of the table: one draw per step, the
/// `k`th at most `PERM_TABLE_SIZE - 1 - k`.
pub open spec fn valid_draws(d: Seq<usize>) -> bool {
    &&& d.len() == PERM_TABLE_SIZE - 1
    &&& forall|k: int| 0 <= k < d.len() ==> #[trigger] d[k] <= PERM_TABLE_SIZE - 1 - k
}

/// The identity table after the first `k` steps of the shuffle driven by `d`:
/// step `m` swaps slot `PERM_TABLE_SIZE - 1 - m` with slot `d[m]`.
pub open spec fn shuffle_steps(d: Seq<usize>, k: nat) -> Seq<int>
    decreases k,
{
    if k == 0 {
        Seq::new(PERM_TABLE_SIZE as nat, |i: int| i)
    } else {
        let m = (k - 1) as nat;
        swapped(shuffle_steps(d, m), PERM_TABLE_SIZE - 1 - m, d[m as int] as int)
    }
}

/// The identity table shuffled by all of `d`.
pub open spec fn shuffled(d: Seq<usize>) -> Seq<int> {
    shuffle_steps(d, d.len())
}

/// Exchanging two entries of a permutation leaves a permutation.
proof fn lemma_swap_keeps_permutation(t: Seq<int>, i: int, j: int)
    requires
        is_permutation(t),
        0 <= i < PERM_TABLE_SIZE,
        0 <= j < PERM_TABLE_SIZE,
    ensures
        is_permutation(swapped(t, i, j)),
{
    let u = swapped(t, i, j);
    assert forall|v: int| 0 <= v < PERM_TABLE_SIZE implies #[trigger] u.contains(v) by {
        assert(t.contains(v));
        let w = choose|w: int| 0 <= w < t.len() && t[w] == v;
        if w == i {
            assert(u[j] == v);
        } else if w == j {
            assert(u[i] == v);
        } else {
            assert(u[w] == v);
        }
    }
    assert forall|a: int, b: int| 0 <= a < b < u.len() implies u[a] != u[b] by {
        if i != j {
            if a == i || a == j || b == i || b == j {
                assert(t[i] != t[j]);
            }
        }
    }
}

/// A shuffled table of the indices `0..PERM_TABLE_SIZE`.
pub struct PermutationTable {
    values: Vec<u8>,
}

impl View for PermutationTable {
    type V = Seq<int>;

    closed spec fn view(&self) -> Seq<int> {
        self.values@.map_values(|v: u8| v as int)
    }
}

impl PermutationTable {
    pub open spec fn wf(&self) -> bool {
        is_permutation(self@)
    }

    /// The identity table shuffled with draws from a generator seeded with
    /// `seed`.
    pub fn new(seed: u64) -> (r: PermutationTable)
        ensures
            r.wf(),
            exists|d: Seq<usize>| valid_draws(d) && r@ == shuffled(d),
    {
        let mut rng = seeded_rng(seed);
        PermutationTable::from_rng(&mut rng)
    }

    /// The entry at `i` taken modulo `PERM_TABLE_SIZE`.
    pub fn lookup(&self, i: usize) -> (r: usize)
        requires
            self.wf(),
        ensures
            r == self@[i as int % (PERM_TABLE_SIZE as int)],
            r < PERM_TABLE_SIZE,
    {
        let r = self.values[i % PERM_TABLE_SIZE] as usize;
        assert(self@[i as int % 256] == self.values@[i as int % 256] as int);
        r
    }

    /// Folds `coords` into one index of the table, chaining lookups so that
    /// a coordinate tuple always hashes to the same index.
    pub fn hash(&self, coords: &[usize]) -> (r: usize)
        requires
            self.wf(),
        ensures
            r == hash_of(self@, coords@.map_values(|c: usize| c as int)),
            r < PERM_TABLE_SIZE,
    {
        let ghost cs = coords@.map_values(|c: usize| c as int);
        let mut h: usize = 0;
        let mut k: usize = 0;
        while k < coords.len()
            invariant
                self.wf(),
                k <= coords@.len(),
                cs == coords@.map_values(|c: usize| c as int),
                h == hash_of(self@, cs.subrange(0, k as int)),
                h < PERM_TABLE_SIZE,
            decreases coords@.len() - k,
        {
            let c = coords[k];
            proof {
                let pre = cs.subrange(0, k as int);
                assert(cs.subrange(0, k + 1).drop_last() =~= pre);
                assert(cs.subrange(0, k + 1).last() == c as int);
                lemma_add_mod_noop_right(h as int, c as int, 256);
            }
            h = self.lookup(h + c % PERM_TABLE_SIZE);
            k = k + 1;
        }
        assert(cs.subrange(0, k as int) =~= cs);
        h
    }

    /// Gradient indices of the two ends of the unit segment `[x, x + 1]`.
    pub fn segment_ends(&self, x: i64) -> (r: (usize, usize))
        requires
            self.wf(),
        ensures
            r.0 == lattice_hash1(self@, x as int),
            r.1 == lattice_hash1(self@, x + 1),
    {
        let xw = wrap_coord(x);
        let a: [usize; 1] = [xw];
        let b: [usize; 1] = [xw + 1];
        let r0 = self.hash(a.as_slice());
        let r1 = self.hash(b.as_slice());
        proof {
            self.lemma_point(a, x as int);
            self.lemma_point(b, x + 1);
        }
        (r0, r1)
    }

    /// Gradient indices of the corners of the unit square whose lower-left
    /// corner is `(x, y)`, in the order `(x, y)`, `(x + 1, y)`, `(x, y + 1)`,
    /// `(x + 1, y + 1)`.
    pub fn square_corners(&self, x: i64, y: i64) -> (r: [usize; 4])
        requires
            self.wf(),
        ensures
            r[0] == lattice_hash2(self@, x as int, y as int),
            r[1] == lattice_hash2(self@, x + 1, y as int),
            r[2] == lattice_hash2(self@, x as int, y + 1),
            r[3] == lattice_hash2(self@, x + 1, y + 1),
    {
        let xw = wrap_coord(x);
        let yw = wrap_coord(y);
        let c00: [usize; 2] = [xw, yw];
        let c10: [usize; 2] = [xw + 1, yw];
        let c01: [usize; 2] = [xw, yw + 1];
        let c11: [usize; 2] = [xw + 1, yw + 1];
        let r = [
            self.hash(c00.as_slice()),
            self.hash(c10.as_slice()),
            self.hash(c01.as_slice()),
            self.hash(c11.as_slice()),
        ];
        proof {
            self.lemma_corner(c00, x as int, y as int);
            self.lemma_corner(c10, x + 1, y as int);
            self.lemma_corner(c01, x as int, y + 1);
            self.lemma_corner(c11, x + 1, y + 1);
        }
        r
    }

    proof fn lemma_point(&self, c: [usize; 1], x: int)
        requires
            c[0] as int % 256 == x % 256,
        ensures
            hash_of(self@, c@.map_values(|v: usize| v as int)) == lattice_hash1(self@, x),
    {
        let e = Seq::<int>::empty();
        assert(c@.map_values(|v: usize| v as int) =~= e.push(c[0] as int));
        assert(seq![x] =~= e.push(x));
        lemma_hash_reduce_last(self@, e, x);
        lemma_hash_reduce_last(self@, e, c[0] as int);
    }

    proof fn lemma_corner(&self, c: [usize; 2], x: int, y: int)
        requires
            c[0] as int % 256 == x % 256,
            c[1] as int % 256 == y % 256,
        ensures
            hash_of(self@, c@.map_values(|v: usize| v as int)) == lattice_hash2(self@, x, y),
    {
        let t = self@;
        let e = Seq::<int>::empty();
        let cs = c@.map_values(|v: usize| v as int);
        assert(cs =~= e.push(c[0] as int).push(c[1] as int));
        assert(seq![x, y] =~= e.push(x).push(y));
        lemma_hash_reduce_last(t, e, x);
        lemma_hash_reduce_last(t, e, c[0] as int);
        let hx = hash_of(t, e.push(x));
        assert(hash_of(t, e.push(c[0] as int)) == hx);
        lemma_hash_reduce_last(t, e.push(x), y);
        lemma_hash_reduce_last(t, e.push(x), c[1] as int);
        assert(e.push(c[0] as int).push(c[1] as int).drop_last() =~= e.push(c[0] as int));
        assert(e.push(x).push(c[1] as int).drop_last() =~= e.push(x));
    }

    /// The identity table shuffled by `draws` (Fisher-Yates): step `k`
    /// swaps slot `PERM_TABLE_SIZE - 1 - k` with slot `draws[k]`.
    pub fn from_draws(draws: &Vec<usize>) -> (r: PermutationTable)
        requires
            valid_draws(draws@),
        ensures
            r.wf(),
            r@ == shuffled(draws@),
    {
        let mut values: Vec<u8> = Vec::new();
        let mut k: usize = 0;
        while k < PERM_TABLE_SIZE
            invariant
                k <= PERM_TABLE_SIZE,
                values@.len() == k,
                forall|i: int| 0 <= i < k ==> values@[i] == i,
            decreases PERM_TABLE_SIZE - k,
        {
            values.push(k as u8);
            k = k + 1;
        }
        proof {
            let t = values@.map_values(|v: u8| v as int);
            assert(t =~= shuffle_steps(draws@, 0));
            assert forall|v: int| 0 <= v < PERM_TABLE_SIZE implies #[trigger] t.contains(v) by {
                assert(t[v] == v);
            }
        }
        let mut k: usize = 0;
        while k < PERM_TABLE_SIZE - 1
            invariant
                valid_draws(draws@),
                k <= PERM_TABLE_SIZE - 1,
                values@.map_values(|v: u8| v as int) == shuffle_steps(draws@, k as nat),
                is_permutation(values@.map_values(|v: u8| v as int)),
            decreases PERM_TABLE_SIZE - 1 - k,
        {
            let i = PERM_TABLE_SIZE - 1 - k;
            let j = draws[k];
            let ghost before = values@.map_values(|v: u8| v as int);
            let a = values[i];
            let b = values[j];
            values.set(i, b);
            values.set(j, a);
            proof {
                let t = values@.map_values(|v: u8| v as int);
                assert(t =~= swapped(before, i as int, j as int));
                lemma_swap_keeps_permutation(before, i as int, j as int);
            }
            k = k + 1;
        }
        PermutationTable { values }
    }

    /// Shuffles the identity table with draws from `rng`: the `k`th draw is
    /// taken below `PERM_TABLE_SIZE - k`.
    pub fn from_rng(rng: &mut rand::rngs::StdRng) -> (r: PermutationTable)
        ensures
            r.wf(),
            exists|d: Seq<usize>| valid_draws(d) && r@ == shuffled(d),
    {
        let mut draws: Vec<usize> = Vec::new();
        let mut k: usize = 0;
        while k < PERM_TABLE_SIZE - 1
            invariant
                k <= PERM_TABLE_SIZE - 1,
                draws@.len() == k,
                forall|m: int| 0 <= m < k ==> #[trigger] draws@[m] <= PERM_TABLE_SIZE - 1 - m,
            decreases PERM_TABLE_SIZE - 1 - k,
        {
            let d = random_below(rng, PERM_TABLE_SIZE - k);
            draws.push(d);
            k = k + 1;
        }
        let r = PermutationTable::from_draws(&draws);
        assert(valid_draws(draws@) && r@ == shuffled(draws@));
        r
    }
}

} // verus!
