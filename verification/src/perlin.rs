use vstd::prelude::*;
use crate::util::{lemma_swap_keeps_multiset, random_in_range};

verus! {

/// The number of lattice vectors, and the length of each table.
pub const POINT_COUNT: usize = 256;

/// The numbers from 0 up to `n`, in order.
pub open spec fn counting(n: nat) -> Seq<i32> {
    Seq::new(n, |i: int| i as i32)
}

/// Whether `table` holds each number below `POINT_COUNT` exactly once.
pub open spec fn is_table(table: Seq<i32>) -> bool {
    table.to_multiset() == counting(POINT_COUNT as nat).to_multiset()
}

/// A table holds `POINT_COUNT` numbers, each of them below `POINT_COUNT`.
pub proof fn lemma_table_in_range(table: Seq<i32>)
    requires
        is_table(table),
    ensures
        table.len() == POINT_COUNT,
        forall|i: int| 0 <= i < table.len() ==> 0 <= #[trigger] table[i] < POINT_COUNT,
{
    let all = counting(POINT_COUNT as nat);
    vstd::seq_lib::to_multiset_len(table);
    vstd::seq_lib::to_multiset_len(all);
    assert forall|i: int| 0 <= i < table.len() implies 0 <= #[trigger] table[i] < POINT_COUNT by {
        vstd::seq_lib::to_multiset_contains(table, table[i]);
        vstd::seq_lib::to_multiset_contains(all, table[i]);
        assert(table.contains(table[i]));
        let j = choose|j: int| 0 <= j < all.len() && all[j] == table[i];
        assert(all[j] == j);
    }
}

/// Shuffles `p`: from the last place down, each item changes places with
/// one drawn at random from those up to it. The items stay the same, each as
/// often as before.
pub fn permute(p: &mut Vec<i32>)
    ensures
        exists|made: Seq<usize>| #[trigger] is_shuffle(old(p)@, made, final(p)@),
        final(p)@.to_multiset() == old(p)@.to_multiset(),
        final(p)@.len() == old(p)@.len(),
{
    let made = draw_places(p.len());
    permute_with(p, made.as_slice());
    proof {
        lemma_shuffled_keeps_items(old(p)@, made@);
        assert(is_shuffle(old(p)@, made@, p@));
    }
}

/// `s` with the items at the places `i` and `j` exchanged.
pub open spec fn exchanged(s: Seq<i32>, i: int, j: int) -> Seq<i32> {
    s.update(i, s[j]).update(j, s[i])
}

/// `s` after the steps of a shuffle that `made` stands for: the first draw
/// is exchanged with the last place, the second with the place before it,
/// and so on down, one place for each draw.
pub open spec fn shuffled(s: Seq<i32>, made: Seq<usize>) -> Seq<i32>
    decreases made.len(),
{
    if made.len() == 0 {
        s
    } else {
        exchanged(shuffled(s, made.drop_last()), s.len() - made.len(), made.last() as int)
    }
}

/// Whether `made` holds a draw for every place of a list of `n` items, each
/// draw a place of the list.
pub open spec fn draws_for(made: Seq<usize>, n: nat) -> bool {
    &&& made.len() == n
    &&& forall|j: int| 0 <= j < made.len() ==> #[trigger] made[j] < n
}

/// Whether `after` is `before` shuffled by the draws `made`, each of which
/// is a place up to the one it is exchanged with.
pub open spec fn is_shuffle(before: Seq<i32>, made: Seq<usize>, after: Seq<i32>) -> bool {
    &&& made.len() == before.len()
    &&& forall|j: int| 0 <= j < made.len() ==> #[trigger] made[j] <= before.len() - 1 - j
    &&& after == shuffled(before, made)
}

/// A shuffle keeps the items, each as often as before.
pub proof fn lemma_shuffled_keeps_items(s: Seq<i32>, made: Seq<usize>)
    requires
        made.len() <= s.len(),
        forall|j: int| 0 <= j < made.len() ==> #[trigger] made[j] < s.len(),
    ensures
        shuffled(s, made).len() == s.len(),
        shuffled(s, made).to_multiset() == s.to_multiset(),
    decreases made.len(),
{
    if made.len() > 0 {
        let front = made.drop_last();
        assert forall|j: int| 0 <= j < front.len() implies #[trigger] front[j] < s.len() by {
            assert(front[j] == made[j]);
        }
        lemma_shuffled_keeps_items(s, front);
        assert(made[made.len() - 1] < s.len());
        lemma_swap_keeps_multiset(shuffled(s, front), s.len() - made.len(), made.last() as int);
    }
}

/// Draws a place for every place of a list of `n` items, from the last place
/// down: each draw is a place up to the one it is drawn for.
fn draw_places(n: usize) -> (made: Vec<usize>)
    ensures
        made@.len() == n,
        forall|j: int| 0 <= j < n ==> #[trigger] made@[j] <= n - 1 - j,
{
    let mut made: Vec<usize> = Vec::new();
    let mut i = n;
    while i > 0
        invariant
            i <= n,
            made@.len() == n - i,
            forall|j: int| 0 <= j < made@.len() ==> #[trigger] made@[j] <= n - 1 - j,
        decreases i,
    {
        i -= 1;
        let target = random_in_range(0, i);
        made.push(target);
    }
    made
}

/// Shuffles `p` by the draws `made`: from the last place down, the item at
/// each place changes places with the item at the place drawn for it.
pub fn permute_with(p: &mut Vec<i32>, made: &[usize])
    requires
        draws_for(made@, old(p)@.len()),
    ensures
        final(p)@ == shuffled(old(p)@, made@),
        final(p)@.len() == old(p)@.len(),
{
    let n = p.len();
    let mut j: usize = 0;
    assert(made@.take(0) =~= Seq::<usize>::empty());
    while j < n
        invariant
            j <= n,
            n == old(p)@.len(),
            p@.len() == n,
            draws_for(made@, n as nat),
            p@ == shuffled(old(p)@, made@.take(j as int)),
        decreases n - j,
    {
        let place = n - 1 - j;
        let target = made[j];
        let ghost before = p@;
        let upper = p[place];
        let lower = p[target];
        p[place] = lower;
        p[target] = upper;
        proof {
            let longer = made@.take(j + 1);
            assert(longer.drop_last() =~= made@.take(j as int));
            assert(longer.last() == target);
            assert(p@ =~= exchanged(before, place as int, target as int));
        }
        j += 1;
    }
    assert(made@.take(n as int) =~= made@);
}

/// A table of the numbers below `POINT_COUNT` in an order drawn at random.
pub fn perlin_generate_perm() -> (p: Vec<i32>)
    ensures
        is_table(p@),
{
    let mut p: Vec<i32> = Vec::new();
    let mut i: i32 = 0;
    while i < 256
        invariant
            0 <= i <= 256,
            p@ == counting(i as nat),
        decreases 256 - i,
    {
        p.push(i);
        assert(p@ =~= counting((i + 1) as nat));
        i += 1;
    }
    permute(&mut p);
    p
}

/// The place in a table for a lattice coordinate: its low eight bits.
pub open spec fn wrapped(coordinate: i32) -> int {
    (coordinate & 255) as int
}

/// The lattice of a gradient noise: one vector for each of `POINT_COUNT`
/// places, and one shuffled table for each axis, through which the corner
/// of a lattice cell finds its vector.
pub struct Perlin<V> {
    random_vector: Vec<V>,
    perm_x: Vec<i32>,
    perm_y: Vec<i32>,
    perm_z: Vec<i32>,
}

impl<V> Perlin<V> {
    /// There is a vector for every place, and every table is a shuffle of
    /// the places.
    #[verifier::type_invariant]
    spec fn inv(self) -> bool {
        &&& self.random_vector@.len() == POINT_COUNT
        &&& is_table(self.perm_x@)
        &&& is_table(self.perm_y@)
        &&& is_table(self.perm_z@)
    }

    /// The lattice vectors.
    pub closed spec fn vectors(self) -> Seq<V> {
        self.random_vector@
    }

    /// The tables of the three axes.
    pub closed spec fn tables(self) -> (Seq<i32>, Seq<i32>, Seq<i32>) {
        (self.perm_x@, self.perm_y@, self.perm_z@)
    }

    /// The place of the vector for the lattice corner `(i, j, k)`: the
    /// entries of the three tables at the wrapped coordinates, combined bit
    /// by bit.
    pub open spec fn spec_lattice_index(self, i: i32, j: i32, k: i32) -> int {
        (self.tables().0[wrapped(i)] ^ self.tables().1[wrapped(j)] ^ self.tables().2[wrapped(k)]) as int
    }

    /// A lattice of the given vectors, with tables drawn at random.
    pub fn new(random_vector: Vec<V>) -> (r: Self)
        requires
            random_vector@.len() == POINT_COUNT,
        ensures
            r.vectors() == random_vector@,
            is_table(r.tables().0),
            is_table(r.tables().1),
            is_table(r.tables().2),
    {
        let perm_x = perlin_generate_perm();
        let perm_y = perlin_generate_perm();
        let perm_z = perlin_generate_perm();
        Self { random_vector, perm_x, perm_y, perm_z }
    }

    /// The vector for the lattice corner `(i, j, k)`.
    pub fn corner(&self, i: i32, j: i32, k: i32) -> (r: &V)
        ensures
            0 <= self.spec_lattice_index(i, j, k) < POINT_COUNT,
            *r == self.vectors()[self.spec_lattice_index(i, j, k)],
    {
        proof {
            use_type_invariant(self);
            lemma_table_in_range(self.perm_x@);
            lemma_table_in_range(self.perm_y@);
            lemma_table_in_range(self.perm_z@);
        }
        assert(0 <= (i & 255) < 256) by (bit_vector);
        assert(0 <= (j & 255) < 256) by (bit_vector);
        assert(0 <= (k & 255) < 256) by (bit_vector);
        let x = self.perm_x[(i & 255) as usize];
        let y = self.perm_y[(j & 255) as usize];
        let z = self.perm_z[(k & 255) as usize];
        assert(0 <= (x ^ y ^ z) < 256) by (bit_vector)
            requires
                0 <= x < 256,
                0 <= y < 256,
                0 <= z < 256,
        ;
        &self.random_vector[(x ^ y ^ z) as usize]
    }
}

} // verus!
