use rand::rngs::ThreadRng;
use vstd::prelude::*;
use crate::draw::{random_below, Draw};

verus! {

/// The random number generator that the noise tables are drawn from.
#[verifier::external_type_specification]
#[verifier::external_body]
pub struct ExThreadRng(ThreadRng);

/// A handle to the thread-local generator, from `rand::rng`.
/// Nothing is claimed of its state; `rand::rng` panics only if the operating
/// system's entropy source fails while seeding, which no argument can rule out.
#[verifier::external_body]
fn thread_rng() -> (rng: ThreadRng) {
    rand::rng()
}

/// The indices `0, 1, ..., n - 1` in ascending order.
pub open spec fn index_range(n: nat) -> Seq<usize> {
    Seq::new(n, |k: int| k as usize)
}

/// `s` holds every index below `n` exactly once (and nothing else).
pub open spec fn is_index_permutation(s: Seq<usize>, n: nat) -> bool {
    &&& s.len() == n
    &&& s.to_multiset() == index_range(n).to_multiset()
}

/// `s` with the entries at positions `i` and `j` exchanged.
pub open spec fn swapped(s: Seq<usize>, i: int, j: int) -> Seq<usize> {
    s.update(i, s[j]).update(j, s[i])
}

/// The result of exchanging, for each position `i` from `hi - 1` down to `0` in
/// that order, the entry at `i` with the entry at `targets[i]`.
pub open spec fn descending_swaps(s: Seq<usize>, targets: Seq<usize>, hi: int) -> Seq<usize>
    decreases hi,
{
    if hi <= 0 {
        s
    } else {
        descending_swaps(swapped(s, hi - 1, targets[hi - 1] as int), targets, hi - 1)
    }
}

/// Whether `targets` is a valid list of exchange partners for `count` positions:
/// the partner of position `i` never lies above `i`.
pub open spec fn valid_swap_targets(targets: Seq<usize>, count: nat) -> bool {
    &&& targets.len() == count
    &&& forall|i: int| 0 <= i < count ==> #[trigger] targets[i] <= i
}

/// Whether `targets` could have been drawn for a shuffle of `count + 1`
/// positions: valid partners, and every position from `1` on gets a partner
/// strictly below it.
pub open spec fn drawn_swap_targets(targets: Seq<usize>, count: nat) -> bool {
    &&& valid_swap_targets(targets, count)
    &&& forall|i: int| 1 <= i < count ==> #[trigger] targets[i] < i
}

/// The exchange partners given by a list of draws: position `0` is paired with
/// itself, and position `k + 1` with the value of the `k`-th draw.
pub open spec fn partners(draws: Seq<Draw>) -> Seq<usize> {
    seq![0usize] + draws.map_values(|d: Draw| d.value() as usize)
}

/// Whether `draws` are the draws of a shuffle of `count + 1` positions: one draw
/// for each position `k + 1` from `1` to `count - 1`, drawn below `k + 1`.
pub open spec fn draws_fit(draws: Seq<Draw>, count: nat) -> bool {
    &&& draws.len() == if count >= 1 { (count - 1) as nat } else { 0 }
    &&& forall|k: int| 0 <= k < draws.len() ==> (#[trigger] draws[k]).bound() == k + 1
}

/// `s` is the indices `0..n` shuffled by exchanging each position `i` from
/// `n - 2` down to `0` with its partner, the partner of `i >= 1` being the value
/// of the draw made below `i`.
pub open spec fn is_shuffled_by(s: Seq<usize>, draws: Seq<Draw>, n: nat) -> bool {
    &&& draws_fit(draws, (n - 1) as nat)
    &&& s == descending_swaps(index_range(n), partners(draws), n - 1)
}

/// `s` is the indices `0..n` shuffled by the exchanges of some drawn list of
/// partners.
pub open spec fn is_shuffled_range(s: Seq<usize>, n: nat) -> bool {
    exists|targets: Seq<usize>|
        #[trigger] drawn_swap_targets(targets, (n - 1) as nat) && s == descending_swaps(
            index_range(n),
            targets,
            n - 1,
        )
}

/// Exchanging two entries keeps the multiset of entries.
pub proof fn lemma_swap_keeps_multiset(s: Seq<usize>, i: int, j: int)
    requires
        0 <= i < s.len(),
        0 <= j < s.len(),
    ensures
        swapped(s, i, j).to_multiset() == s.to_multiset(),
        swapped(s, i, j).len() == s.len(),
{
    broadcast use vstd::seq_lib::to_multiset_update;
    broadcast use vstd::multiset::group_multiset_axioms;

    let s1 = s.update(i, s[j]);
    if i == j {
        assert(s1 =~= s);
        assert(swapped(s, i, j) =~= s);
    } else {
        assert(s1[j] == s[j]);
        assert(s1.to_multiset() == s.to_multiset().insert(s[j]).remove(s[i]));
        assert(swapped(s, i, j).to_multiset() == s1.to_multiset().insert(s[i]).remove(s[j]));
        assert(s.to_multiset().count(s[i]) > 0) by {
            broadcast use vstd::seq_lib::to_multiset_contains;

            assert(s.contains(s[i]));
        }
        assert(swapped(s, i, j).to_multiset() =~= s.to_multiset());
    }
}

/// Any sequence of exchanges keeps the multiset of entries and the length.
pub proof fn lemma_descending_swaps_keep_multiset(s: Seq<usize>, targets: Seq<usize>, hi: int)
    requires
        0 <= hi <= s.len(),
        hi <= targets.len(),
        forall|i: int| 0 <= i < hi ==> #[trigger] targets[i] < s.len(),
    ensures
        descending_swaps(s, targets, hi).to_multiset() == s.to_multiset(),
        descending_swaps(s, targets, hi).len() == s.len(),
    decreases hi,
{
    if hi > 0 {
        lemma_swap_keeps_multiset(s, hi - 1, targets[hi - 1] as int);
        lemma_descending_swaps_keep_multiset(
            swapped(s, hi - 1, targets[hi - 1] as int),
            targets,
            hi - 1,
        );
    }
}


/// Whether `n` is a power of two (exactly one bit set).
pub open spec fn is_power_of_two(n: usize) -> bool {
    n > 0 && n & ((n - 1) as usize) == 0
}

/// The slot of the 256-entry lattice tables that the lattice coordinate `c`,
/// moved by `d`, falls into: `c + d` reduced modulo 256 into `0..256`.
pub open spec fn lattice_slot(c: int, d: int) -> int {
    (c + d) % 256
}

/// A table that holds every index below `n` exactly once is a permutation of
/// `0..n`: each entry is below `n`, no entry repeats, and every index below `n`
/// occurs in it.
pub proof fn lemma_index_permutation(s: Seq<usize>, n: nat)
    requires
        is_index_permutation(s, n),
        n <= usize::MAX,
    ensures
        forall|a: int| 0 <= a < s.len() ==> #[trigger] s[a] < n,
        s.no_duplicates(),
        forall|x: usize| x < n ==> #[trigger] s.contains(x),
{
    broadcast use vstd::seq_lib::to_multiset_contains;
    broadcast use vstd::multiset::group_multiset_axioms;

    let r = index_range(n);
    assert(r.no_duplicates());
    r.lemma_multiset_has_no_duplicates();
    assert forall|x: usize| s.to_multiset().contains(x) implies s.to_multiset().count(x) == 1 by {
        assert(r.to_multiset().contains(x));
    }
    s.lemma_multiset_has_no_duplicates_conv();
    assert forall|a: int| 0 <= a < s.len() implies #[trigger] s[a] < n by {
        assert(s.contains(s[a]));
        assert(s.to_multiset().count(s[a]) > 0);
        assert(r.contains(s[a]));
        let k = choose|k: int| 0 <= k < r.len() && r[k] == s[a];
        assert(r[k] == k as usize);
    }
    assert forall|x: usize| x < n implies #[trigger] s.contains(x) by {
        assert(r[x as int] == x);
        assert(r.contains(x));
        assert(r.to_multiset().count(x) > 0);
    }
}

/// The exclusive-or of two numbers below a power of two is below it too.
pub proof fn lemma_xor_below_power_of_two(x: usize, y: usize, n: usize)
    requires
        x < n,
        y < n,
        is_power_of_two(n),
    ensures
        x ^ y < n,
{
    assert(x < n && y < n && n > 0 && n & ((n - 1) as usize) == 0 ==> x ^ y < n) by (bit_vector);
}

/// The lattice repeats every 256 cells, and moving a coordinate by an offset
/// lands in the slot of the moved coordinate.
pub proof fn lemma_lattice_slot_periodic(c: int, d: int)
    ensures
        lattice_slot(c + 256, d) == lattice_slot(c, d),
        lattice_slot(c, d) == lattice_slot(c + d, 0),
        0 <= lattice_slot(c, d) < 256,
{
    vstd::arithmetic::div_mod::lemma_mod_add_multiples_vanish(c + d, 256);
}

/// The lattice slot of `c + d` for a small offset `d`.
fn wrap_lattice(c: isize, d: usize) -> (slot: usize)
    requires
        d <= 1,
    ensures
        slot as int == lattice_slot(c as int, d as int),
        slot < 256,
{
    let low: usize = (c & 255) as usize;
    proof {
        assert(0 <= (c & 255isize) < 256) by (bit_vector);
        assert((c >> 8isize) * 256 + (c & 255) == c) by (bit_vector);
        vstd::arithmetic::div_mod::lemma_fundamental_div_mod_converse(
            c as int,
            256,
            (c >> 8isize) as int,
            (c & 255) as int,
        );
        vstd::arithmetic::div_mod::lemma_add_mod_noop(c as int, d as int, 256);
        vstd::arithmetic::div_mod::lemma_small_mod(d as nat, 256);
    }
    (low + d) % 256
}

/// Exchanges `p[i]` with `p[targets[i]]` for every position `i` of `targets`,
/// from the last position down to the first.
pub fn apply_swaps(p: &mut Vec<usize>, targets: &Vec<usize>)
    requires
        targets.len() <= old(p).len(),
        valid_swap_targets(targets@, targets.len() as nat),
    ensures
        final(p)@ == descending_swaps(old(p)@, targets@, targets.len() as int),
{
    let mut i: usize = targets.len();
    while i > 0
        invariant
            i <= targets.len(),
            targets.len() <= p.len(),
            valid_swap_targets(targets@, targets.len() as nat),
            descending_swaps(p@, targets@, i as int) == descending_swaps(
                old(p)@,
                targets@,
                targets.len() as int,
            ),
        decreases i,
    {
        i = i - 1;
        let target: usize = targets[i];
        assert(target <= i);
        let ghost prev = p@;
        let here: usize = p[i];
        let there: usize = p[target];
        p.set(i, there);
        p.set(target, here);
        assert(p@ =~= swapped(prev, i as int, target as int));
    }
}

/// Draws the exchange partners for a shuffle of `count + 1` positions: position
/// `i` (for `i` from `count - 1` down to `1`) gets a partner drawn uniformly below
/// `i`; position `0` can only be exchanged with itself.
fn draw_swap_targets(count: usize, rng: &mut ThreadRng) -> (res: (Vec<usize>, Ghost<Seq<Draw>>))
    ensures
        drawn_swap_targets(res.0@, count as nat),
        draws_fit(res.1@, count as nat),
        res.0@ == partners(res.1@).take(count as int),
{
    let mut targets: Vec<usize> = Vec::new();
    let mut k: usize = 0;
    while k < count
        invariant
            k <= count,
            targets@.len() == k,
            forall|m: int| 0 <= m < k ==> #[trigger] targets@[m] == 0,
        decreases count - k,
    {
        targets.push(0);
        k = k + 1;
    }
    let ghost draw_len: nat = if count >= 1 { (count - 1) as nat } else { 0 };
    let ghost mut draws: Seq<Draw> = Seq::new(draw_len, |m: int| vstd::pervasive::arbitrary::<Draw>());
    let mut i: usize = count;
    while i > 1
        invariant
            i <= count,
            targets@.len() == count,
            draws.len() == draw_len,
            draw_len == if count >= 1 { (count - 1) as nat } else { 0 },
            count >= 1 ==> targets@[0] == 0,
            forall|m: int| 0 <= m < count ==> #[trigger] targets@[m] <= m,
            forall|m: int| i <= m < count && 1 <= m ==> #[trigger] targets@[m] < m,
            forall|m: int|
                i <= m < count && 1 <= m ==> (#[trigger] draws[m - 1]).bound() == m
                    && targets@[m] == draws[m - 1].value(),
        decreases i,
    {
        i = i - 1;
        let d = random_below(rng, i);
        let target = d.drawn();
        targets.set(i, target);
        proof {
            draws = draws.update(i - 1, d);
        }
    }
    proof {
        assert forall|k: int| 0 <= k < draws.len() implies (#[trigger] draws[k]).bound() == k + 1 by {
            assert(draws[(k + 1) - 1].bound() == k + 1);
        }
        if count >= 1 {
            assert forall|m: int| 0 <= m < count implies #[trigger] targets@[m] == partners(draws).take(
                count as int,
            )[m] by {
                if m >= 1 {
                    assert(draws[m - 1].bound() == m);
                }
            }
        }
        assert(targets@ =~= partners(draws).take(count as int));
    }
    (targets, Ghost(draws))
}

/// Shuffles the first `n` entries of `p` in place: each position `i` from `n - 2`
/// down to `0` is exchanged with a position drawn below it (position `0` stays).
/// Whatever is drawn, the entries are only rearranged.
fn permute(p: &mut Vec<usize>, n: usize, rng: &mut ThreadRng) -> (draws: Ghost<Seq<Draw>>)
    requires
        n >= 1,
        n - 1 <= old(p).len(),
    ensures
        final(p)@.len() == old(p)@.len(),
        final(p)@.to_multiset() == old(p)@.to_multiset(),
        exists|targets: Seq<usize>|
            #[trigger] drawn_swap_targets(targets, (n - 1) as nat) && final(p)@ == descending_swaps(
                old(p)@,
                targets,
                n - 1,
            ),
        draws_fit(draws@, (n - 1) as nat),
        final(p)@ == descending_swaps(old(p)@, partners(draws@), n - 1),
{
    let (targets, draws) = draw_swap_targets(n - 1, rng);
    apply_swaps(p, &targets);
    proof {
        lemma_descending_swaps_keep_multiset(old(p)@, targets@, (n - 1) as int);
        assert(drawn_swap_targets(targets@, (n - 1) as nat));
        lemma_descending_swaps_prefix(old(p)@, targets@, partners(draws@), (n - 1) as int);
    }
    draws
}

/// Exchanges over `hi` positions depend only on the partners of those positions.
proof fn lemma_descending_swaps_prefix(s: Seq<usize>, t1: Seq<usize>, t2: Seq<usize>, hi: int)
    requires
        0 <= hi <= t1.len(),
        hi <= t2.len(),
        forall|i: int| 0 <= i < hi ==> t1[i] == t2[i],
    ensures
        descending_swaps(s, t1, hi) == descending_swaps(s, t2, hi),
    decreases hi,
{
    if hi > 0 {
        lemma_descending_swaps_prefix(swapped(s, hi - 1, t1[hi - 1] as int), t1, t2, hi - 1);
    }
}

/// Appends the indices `0..point_count` to `p` and shuffles them.
fn perlin_generate_perm(p: &mut Vec<usize>, point_count: usize, rng: &mut ThreadRng) -> (draws: Ghost<Seq<Draw>>)
    requires
        point_count >= 1,
        old(p).len() + point_count <= usize::MAX,
    ensures
        final(p)@.len() == old(p)@.len() + point_count,
        final(p)@.to_multiset() == (old(p)@ + index_range(point_count as nat)).to_multiset(),
        exists|targets: Seq<usize>|
            #[trigger] drawn_swap_targets(targets, (point_count - 1) as nat) && final(p)@
                == descending_swaps(
                old(p)@ + index_range(point_count as nat),
                targets,
                point_count - 1,
            ),
        draws_fit(draws@, (point_count - 1) as nat),
        final(p)@ == descending_swaps(
            old(p)@ + index_range(point_count as nat),
            partners(draws@),
            point_count - 1,
        ),
{
    let ghost start = p@;
    let mut i: usize = 0;
    while i < point_count
        invariant
            i <= point_count,
            start.len() + point_count <= usize::MAX,
            p@ =~= start + index_range(i as nat),
        decreases point_count - i,
    {
        p.push(i);
        i = i + 1;
    }
    permute(p, point_count, rng)
}

/// The integer part of Perlin noise: three shuffled tables of lattice indices
/// that hash a lattice corner to an entry of the gradient table.
pub struct Perlin {
    point_count: usize,
    perm_x: Vec<usize>,
    perm_y: Vec<usize>,
    perm_z: Vec<usize>,
    draws_x: Ghost<Seq<Draw>>,
    draws_y: Ghost<Seq<Draw>>,
    draws_z: Ghost<Seq<Draw>>,
}

impl Perlin {
    /// The number of gradient entries the tables index.
    pub closed spec fn count(&self) -> nat {
        self.point_count as nat
    }

    /// The shuffled table of axis `axis` (0 for x, 1 for y, 2 for z).
    pub closed spec fn table(&self, axis: int) -> Seq<usize> {
        if axis == 0 {
            self.perm_x@
        } else if axis == 1 {
            self.perm_y@
        } else {
            self.perm_z@
        }
    }

    /// The random draws that shuffled the table of axis `axis`.
    pub closed spec fn table_draws(&self, axis: int) -> Seq<Draw> {
        if axis == 0 {
            self.draws_x@
        } else if axis == 1 {
            self.draws_y@
        } else {
            self.draws_z@
        }
    }

    #[verifier::type_invariant]
    closed spec fn tables_are_permutations(&self) -> bool {
        &&& is_index_permutation(self.perm_x@, self.point_count as nat)
        &&& is_index_permutation(self.perm_y@, self.point_count as nat)
        &&& is_index_permutation(self.perm_z@, self.point_count as nat)
    }

    /// Builds the three tables, each a random arrangement of `0..point_count`.
    pub fn new(point_count: usize) -> (perlin: Perlin)
        requires
            point_count >= 1,
        ensures
            perlin.count() == point_count,
            is_index_permutation(perlin.table(0), point_count as nat),
            is_index_permutation(perlin.table(1), point_count as nat),
            is_index_permutation(perlin.table(2), point_count as nat),
            is_shuffled_range(perlin.table(0), point_count as nat),
            is_shuffled_range(perlin.table(1), point_count as nat),
            is_shuffled_range(perlin.table(2), point_count as nat),
            forall|axis: int|
                0 <= axis < 3 ==> is_shuffled_by(
                    #[trigger] perlin.table(axis),
                    perlin.table_draws(axis),
                    point_count as nat,
                ),
    {
        let mut rng = thread_rng();
        let mut perm_x: Vec<usize> = Vec::new();
        let mut perm_y: Vec<usize> = Vec::new();
        let mut perm_z: Vec<usize> = Vec::new();
        let draws_x = perlin_generate_perm(&mut perm_x, point_count, &mut rng);
        let draws_y = perlin_generate_perm(&mut perm_y, point_count, &mut rng);
        let draws_z = perlin_generate_perm(&mut perm_z, point_count, &mut rng);
        proof {
            let r = index_range(point_count as nat);
            assert(Seq::<usize>::empty() + r =~= r);
        }
        Perlin { point_count, perm_x, perm_y, perm_z, draws_x, draws_y, draws_z }
    }

    /// The gradient entry of the lattice corner `(i + di, j + dj, k + dk)`: the
    /// exclusive-or of the three tables, each read at its coordinate reduced
    /// modulo 256. For tables of a power of two of at least 256 entries the
    /// result is a valid gradient index.
    pub fn corner_index(&self, i: isize, j: isize, k: isize, di: usize, dj: usize, dk: usize) -> (index: usize)
        requires
            di <= 1,
            dj <= 1,
            dk <= 1,
            self.count() >= 256,
            is_power_of_two(self.count() as usize),
        ensures
            index == self.table(0)[lattice_slot(i as int, di as int)] ^ self.table(1)[lattice_slot(
                j as int,
                dj as int,
            )] ^ self.table(2)[lattice_slot(k as int, dk as int)],
            index < self.count(),
    {
        proof {
            use_type_invariant(self);
            lemma_index_permutation(self.perm_x@, self.point_count as nat);
            lemma_index_permutation(self.perm_y@, self.point_count as nat);
            lemma_index_permutation(self.perm_z@, self.point_count as nat);
        }
        let a = self.perm_x[wrap_lattice(i, di)];
        let b = self.perm_y[wrap_lattice(j, dj)];
        let c = self.perm_z[wrap_lattice(k, dk)];
        proof {
            lemma_xor_below_power_of_two(a, b, self.point_count);
            lemma_xor_below_power_of_two(a ^ b, c, self.point_count);
        }
        a ^ b ^ c
    }

    /// The number of gradient entries the tables index.
    pub fn point_count(&self) -> (n: usize)
        ensures
            n == self.count(),
    {
        self.point_count
    }
} // impl Perlin

} // verus!
