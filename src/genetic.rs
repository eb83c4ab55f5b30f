//! The genetic optimizer that tunes the evaluator's weights.
use std::ops::RangeInclusive;
use vstd::prelude::*;

use crate::ai::{eval, is_elite};
use crate::game::{is_landed, lock_piece, lockable, spawn_pos, Game, FIELD_HEIGHT, FIELD_WIDTH};
use crate::random::{random_range, shuffle};

verus! {

/// The field-quality metric that a weight applies to.
#[derive(Clone, Copy, Debug, PartialEq, Eq, Structural)]
pub enum GenomeKind {
    Line,
    HeightMax,
    HeightDiff,
    DeadSpace,
}

/// One weight per metric, in the order of `GenomeKind`.
pub type GenoSeq = [u8; 4];

/// The slot of `kind` in a genome.
pub open spec fn slot(kind: GenomeKind) -> int {
    match kind {
        GenomeKind::Line => 0,
        GenomeKind::HeightMax => 1,
        GenomeKind::HeightDiff => 2,
        GenomeKind::DeadSpace => 3,
    }
}

/// The weight that `geno` gives the metric `kind`.
pub fn weight(geno: &GenoSeq, kind: GenomeKind) -> (r: u8)
    ensures
        r == geno[slot(kind)],
{
    match kind {
        GenomeKind::Line => geno[0],
        GenomeKind::HeightMax => geno[1],
        GenomeKind::HeightDiff => geno[2],
        GenomeKind::DeadSpace => geno[3],
    }
}

/// `RangeInclusive::start`: the lower bound the range was built with.
pub assume_specification<Idx>[ RangeInclusive::<Idx>::start ](r: &RangeInclusive<Idx>) -> (res: &Idx)
    ensures
        *res == r@.start,
;

/// `RangeInclusive::end`: the upper bound the range was built with.
pub assume_specification<Idx>[ RangeInclusive::<Idx>::end ](r: &RangeInclusive<Idx>) -> (res: &Idx)
    ensures
        *res == r@.end,
;

/// Exchanges the elements of `x` and `y` at every index of `range`.
pub fn mem_swap_range<E>(x: &mut [E], y: &mut [E], range: RangeInclusive<usize>)
    requires
        !range@.exhausted,
        range@.start <= range@.end ==> range@.end < old(x)@.len() && range@.end < old(y)@.len(),
    ensures
        final(x)@.len() == old(x)@.len(),
        final(y)@.len() == old(y)@.len(),
        forall|i: int| 0 <= i < old(x)@.len() ==> #[trigger] final(x)@[i] == if range@.start <= i <= range@.end {
            old(y)@[i]
        } else {
            old(x)@[i]
        },
        forall|i: int| 0 <= i < old(y)@.len() ==> #[trigger] final(y)@[i] == if range@.start <= i <= range@.end {
            old(x)@[i]
        } else {
            old(y)@[i]
        },
{
    let start = *range.start();
    let end = *range.end();
    if start > end {
        return;
    }
    let mut i: usize = start;
    while i <= end
        invariant
            start <= i <= end + 1,
            start == range@.start,
            end == range@.end,
            end < old(x)@.len(),
            end < old(y)@.len(),
            x@.len() == old(x)@.len(),
            y@.len() == old(y)@.len(),
            forall|k: int| 0 <= k < old(x)@.len() ==> #[trigger] x@[k] == if start <= k < i { old(y)@[k] } else { old(x)@[k] },
            forall|k: int| 0 <= k < old(y)@.len() ==> #[trigger] y@[k] == if start <= k < i { old(x)@[k] } else { old(y)@[k] },
        decreases end + 1 - i,
    {
        std::mem::swap(&mut x[i], &mut y[i]);
        i = i + 1;
    }
}

/// One member of the population: a genome and the score it reached.
#[derive(Clone, Copy, Debug)]
pub struct Individual {
    pub geno: GenoSeq,
    pub score: usize,
}

/// How many individuals a generation holds.
pub const POPULATION: usize = 10;

/// How many generations a training run lasts.
pub const GENERATION_MAX: usize = 10;

/// The cleared-row count at which a training game stops.
pub const LINE_COUNT_MAX: usize = 256;

/// The share, in percent, of a new generation made by crossover.
pub const CROSSOVER_RATE: usize = 70;

/// The share, in percent, of a new generation made by mutation.
pub const MUTATION_RATE: usize = 10;

/// The share, in percent, of a new generation carried over by selection.
pub const SELECTION_RATE: usize = 20;

/// The sizes of the crossover, mutation and selection groups of a new
/// generation of `population` genomes: the first two are their rates'
/// shares rounded down, and the selection group takes the rest, which is
/// its own share up to rounding. Together they make up the population.
pub fn group_sizes(population: usize, crossover_rate: usize, mutation_rate: usize, selection_rate: usize) -> (r: (
    usize,
    usize,
    usize,
))
    requires
        crossover_rate + mutation_rate + selection_rate == 100,
        population <= usize::MAX / 100,
    ensures
        r.0 == population * crossover_rate / 100,
        r.1 == population * mutation_rate / 100,
        population * selection_rate / 100 <= r.2 <= population * selection_rate / 100 + 2,
        r.0 + r.1 + r.2 == population,
{
    let ghost p = population as int;
    assert(p * crossover_rate + p * mutation_rate + p * selection_rate == p * 100) by (nonlinear_arith)
        requires
            crossover_rate + mutation_rate + selection_rate == 100,
    ;
    assert(0 <= p * crossover_rate <= p * 100) by (nonlinear_arith)
        requires
            0 <= p,
            crossover_rate <= 100,
    ;
    assert(0 <= p * mutation_rate <= p * 100) by (nonlinear_arith)
        requires
            0 <= p,
            mutation_rate <= 100,
    ;
    assert(0 <= p * selection_rate) by (nonlinear_arith)
        requires
            0 <= p,
    ;
    let crossover_len = population * crossover_rate / 100;
    let mutation_len = population * mutation_rate / 100;
    (crossover_len, mutation_len, population - crossover_len - mutation_len)
}

/// The genomes of `inds`, in order.
pub open spec fn genomes(inds: Seq<Individual>) -> Seq<GenoSeq> {
    inds.map_values(|i: Individual| i.geno)
}

fn genomes_of(inds: &[Individual]) -> (r: Vec<GenoSeq>)
    ensures
        r@ == genomes(inds@),
{
    let mut r: Vec<GenoSeq> = Vec::new();
    let mut i: usize = 0;
    while i < inds.len()
        invariant
            0 <= i <= inds@.len(),
            r@ == genomes(inds@).subrange(0, i as int),
        decreases inds@.len() - i,
    {
        r.push(inds[i].geno);
        assert(r@ =~= genomes(inds@).subrange(0, i + 1));
        i = i + 1;
    }
    assert(r@ =~= genomes(inds@));
    r
}

/// The first `count` elements of `v`.
fn take_first<E: Copy>(v: &Vec<E>, count: usize) -> (r: Vec<E>)
    requires
        count <= v@.len(),
    ensures
        r@ == v@.subrange(0, count as int),
{
    let mut r: Vec<E> = Vec::new();
    let mut i: usize = 0;
    while i < count
        invariant
            0 <= i <= count <= v@.len(),
            r@ == v@.subrange(0, i as int),
        decreases count - i,
    {
        r.push(v[i]);
        assert(r@ =~= v@.subrange(0, i + 1));
        i = i + 1;
    }
    r
}

/// The genome with the weights of `a` before the cut `c` and those of `b`
/// from the cut on.
pub open spec fn cut_cross(a: GenoSeq, b: GenoSeq, c: int) -> GenoSeq {
    [
        if 0 < c { a[0] } else { b[0] },
        if 1 < c { a[1] } else { b[1] },
        if 2 < c { a[2] } else { b[2] },
        if 3 < c { a[3] } else { b[3] },
    ]
}

/// `cuts` holds a cut inside the genome for each pair of `n` genomes.
pub open spec fn valid_cuts(cuts: Seq<usize>, n: int) -> bool {
    cuts.len() == n / 2 && forall|k: int| 0 <= k < cuts.len() ==> 1 <= #[trigger] cuts[k] < 4
}

/// `parents` paired off in order and crossed, pair `k` at the single cut
/// `cuts[k]`, which both of its children share; an unpaired last genome
/// stays as it is.
pub open spec fn crossed_pairs(parents: Seq<GenoSeq>, cuts: Seq<usize>) -> Seq<GenoSeq> {
    Seq::new(
        parents.len(),
        |i: int|
            if i % 2 == 0 && i + 1 < parents.len() {
                cut_cross(parents[i], parents[i + 1], cuts[i / 2] as int)
            } else if i % 2 == 1 {
                cut_cross(parents[i], parents[i - 1], cuts[i / 2] as int)
            } else {
                parents[i]
            },
    )
}

/// Crosses `parents` paired off in order, pair `k` at the cut `cuts[k]`.
pub fn cross_pairs(parents: &Vec<GenoSeq>, cuts: &Vec<usize>) -> (r: Vec<GenoSeq>)
    requires
        valid_cuts(cuts@, parents@.len() as int),
    ensures
        r@ == crossed_pairs(parents@, cuts@),
{
    let n = parents.len();
    let mut r: Vec<GenoSeq> = Vec::new();
    let mut i: usize = 0;
    while i + 1 < n
        invariant
            n == parents@.len(),
            valid_cuts(cuts@, n as int),
            i % 2 == 0,
            i <= n,
            r@ == crossed_pairs(parents@, cuts@).subrange(0, i as int),
        decreases n - i,
    {
        let mut geno1 = parents[i];
        let mut geno2 = parents[i + 1];
        let cut = cuts[i / 2];
        mem_swap_range(&mut geno1, &mut geno2, cut..=3);
        proof {
            assert(geno1 =~= cut_cross(parents@[i as int], parents@[i + 1], cut as int));
            assert(geno2 =~= cut_cross(parents@[i + 1], parents@[i as int], cut as int));
        }
        r.push(geno1);
        r.push(geno2);
        assert(r@ =~= crossed_pairs(parents@, cuts@).subrange(0, i + 2));
        i = i + 2;
    }
    if i < n {
        r.push(parents[i]);
        assert(r@ =~= crossed_pairs(parents@, cuts@).subrange(0, i + 1));
        i = i + 1;
    }
    assert(r@ =~= crossed_pairs(parents@, cuts@));
    r
}

/// `r` is what crossover can make of `inds`: the members' genomes put in a
/// random order `parents`, paired off and crossed at `cuts`, the children
/// put in a random order `children`, and the first of them taken.
pub open spec fn is_crossover(
    r: Seq<GenoSeq>,
    inds: Seq<Individual>,
    parents: Seq<GenoSeq>,
    cuts: Seq<usize>,
    children: Seq<GenoSeq>,
) -> bool {
    &&& parents.len() == inds.len()
    &&& parents.to_multiset() == genomes(inds).to_multiset()
    &&& valid_cuts(cuts, parents.len() as int)
    &&& children.len() == parents.len()
    &&& children.to_multiset() == crossed_pairs(parents, cuts).to_multiset()
    &&& r.len() <= children.len()
    &&& r == children.subrange(0, r.len() as int)
}

/// Makes `count` genomes by single-point crossover: the genomes of `inds`
/// are paired at random, each pair exchanges its weights from a random cut
/// on, and `count` of the children are picked at random.
pub fn crossover(inds: &[Individual], count: usize) -> (r: Vec<GenoSeq>)
    requires
        count <= inds@.len(),
    ensures
        r@.len() == count,
        exists|parents: Seq<GenoSeq>, cuts: Seq<usize>, children: Seq<GenoSeq>|
            #[trigger] is_crossover(r@, inds@, parents, cuts, children),
{
    let mut parents = genomes_of(inds);
    shuffle(&mut parents);
    let n = parents.len();
    let mut cuts: Vec<usize> = Vec::new();
    let mut k: usize = 0;
    while k < n / 2
        invariant
            n == parents@.len(),
            k <= n / 2,
            cuts@.len() == k,
            forall|j: int| 0 <= j < k ==> 1 <= #[trigger] cuts@[j] < 4,
        decreases n / 2 - k,
    {
        cuts.push(random_range(1, 4));
        k = k + 1;
    }
    let mut children = cross_pairs(&parents, &cuts);
    shuffle(&mut children);
    let r = take_first(&children, count);
    assert(is_crossover(r@, inds@, parents@, cuts@, children@));
    r
}

/// `c` is `a` with at most the weight in one slot changed.
pub open spec fn is_mutant_of(c: GenoSeq, a: GenoSeq) -> bool {
    exists|s: int| 0 <= s < 4 && #[trigger] a@.update(s, c[s]) == c@
}

/// A genome with the weight in `slot` replaced by `value`.
pub fn mutate(geno: GenoSeq, slot: usize, value: u8) -> (r: GenoSeq)
    requires
        slot < 4,
    ensures
        r@ == geno@.update(slot as int, value),
{
    let mut r = geno;
    r[slot] = value;
    r
}

/// `r` is what mutation can make of `inds`: the members' genomes put in a
/// random order `picked`, and the first of them each changed in at most one
/// slot.
pub open spec fn is_mutation(r: Seq<GenoSeq>, inds: Seq<Individual>, picked: Seq<GenoSeq>) -> bool {
    &&& picked.len() == inds.len()
    &&& picked.to_multiset() == genomes(inds).to_multiset()
    &&& r.len() <= picked.len()
    &&& forall|k: int| 0 <= k < r.len() ==> is_mutant_of(#[trigger] r[k], picked[k])
}

/// Makes `count` genomes by mutation: `count` distinct members of `inds`
/// are picked at random, and the genome of each gets one randomly chosen
/// weight replaced with a random value.
pub fn mutation(inds: &[Individual], count: usize) -> (r: Vec<GenoSeq>)
    requires
        count <= inds@.len(),
    ensures
        r@.len() == count,
        exists|picked: Seq<GenoSeq>| #[trigger] is_mutation(r@, inds@, picked),
{
    let mut genos = genomes_of(inds);
    shuffle(&mut genos);
    let mut r: Vec<GenoSeq> = Vec::new();
    let mut i: usize = 0;
    while i < count
        invariant
            0 <= i <= count <= genos@.len(),
            genos@.len() == inds@.len(),
            r@.len() == i,
            forall|k: int| 0 <= k < i ==> is_mutant_of(#[trigger] r@[k], genos@[k]),
        decreases count - i,
    {
        let slot = random_range(0, 4);
        let value: u8 = rand::random();
        let g = genos[i];
        let m = mutate(g, slot, value);
        proof {
            assert(g@.update(slot as int, m[slot as int]) =~= m@);
        }
        r.push(m);
        i = i + 1;
    }
    assert(is_mutation(r@, inds@, genos@));
    r
}

/// `idx` ranks `count` distinct members of `inds` by score, highest first,
/// and no member left out scores above any member picked.
pub open spec fn is_top_ranking(idx: Seq<int>, inds: Seq<Individual>, count: int) -> bool {
    &&& idx.len() == count
    &&& forall|k: int| 0 <= k < count ==> 0 <= #[trigger] idx[k] < inds.len()
    &&& forall|a: int, b: int| 0 <= a < b < count ==> idx[a] != idx[b]
    &&& forall|a: int, b: int| 0 <= a < b < count ==> inds[idx[a]].score >= inds[idx[b]].score
    &&& forall|j: int, k: int|
        0 <= j < inds.len() && !idx.contains(j) && 0 <= k < count ==> #[trigger] inds[j].score <= #[trigger] inds[idx[k]].score
}

/// `r` holds, in order, the genomes of the members of `inds` that some top
/// ranking of `count` of them picks.
pub open spec fn is_selection(r: Seq<GenoSeq>, inds: Seq<Individual>, count: int) -> bool {
    exists|idx: Seq<int>|
        #![trigger is_top_ranking(idx, inds, count)]
        is_top_ranking(idx, inds, count) && r.len() == count && forall|k: int|
            0 <= k < count ==> #[trigger] r[k] == inds[idx[k]].geno
}

/// Swapping two entries of a permutation of `0..n`, and the matching
/// entries of its inverse, keeps the two inverse to each other.
proof fn lemma_swap_keeps_inverse(perm: Seq<int>, inv: Seq<int>, a: int, b: int)
    requires
        perm.len() == inv.len(),
        0 <= a < perm.len(),
        0 <= b < perm.len(),
        forall|k: int| 0 <= k < perm.len() ==> 0 <= #[trigger] perm[k] < perm.len(),
        forall|k: int| 0 <= k < perm.len() ==> 0 <= #[trigger] inv[k] < perm.len(),
        forall|k: int| 0 <= k < perm.len() ==> #[trigger] inv[perm[k]] == k,
        forall|j: int| 0 <= j < perm.len() ==> #[trigger] perm[inv[j]] == j,
    ensures
        ({
            let p2 = perm.update(a, perm[b]).update(b, perm[a]);
            let i2 = inv.update(perm[b], a).update(perm[a], b);
            &&& forall|k: int| 0 <= k < perm.len() ==> 0 <= #[trigger] p2[k] < perm.len()
            &&& forall|k: int| 0 <= k < perm.len() ==> 0 <= #[trigger] i2[k] < perm.len()
            &&& forall|k: int| 0 <= k < perm.len() ==> #[trigger] i2[p2[k]] == k
            &&& forall|j: int| 0 <= j < perm.len() ==> #[trigger] p2[i2[j]] == j
        }),
{
    let pa = perm[a];
    let pb = perm[b];
    let p2 = perm.update(a, pb).update(b, pa);
    let i2 = inv.update(pb, a).update(pa, b);
    assert(inv[pa] == a && inv[pb] == b);
    assert forall|k: int| 0 <= k < perm.len() implies #[trigger] i2[p2[k]] == k by {
        if k == a {
            if a != b {
                assert(p2[k] == pb);
                assert(pb != pa);
            }
        } else if k == b {
            assert(p2[k] == pa);
        } else {
            assert(inv[perm[k]] == k);
            assert(perm[k] != pa);
            assert(perm[k] != pb);
        }
    }
    assert forall|j: int| 0 <= j < perm.len() implies #[trigger] p2[i2[j]] == j by {
        if j != pa && j != pb {
            assert(perm[inv[j]] == j);
            assert(inv[j] != a);
            assert(inv[j] != b);
        }
    }
}

/// Makes `count` genomes by selection: the genomes of the `count`
/// highest-scoring members of `inds`, highest first; ties in any order.
pub fn selection(inds: &[Individual], count: usize) -> (r: Vec<GenoSeq>)
    requires
        count <= inds@.len(),
    ensures
        is_selection(r@, inds@, count as int),
{
    let n = inds.len();
    let mut v: Vec<Individual> = Vec::new();
    let mut i: usize = 0;
    while i < n
        invariant
            0 <= i <= n == inds@.len(),
            v@ == inds@.subrange(0, i as int),
        decreases n - i,
    {
        v.push(inds[i]);
        assert(v@ =~= inds@.subrange(0, i + 1));
        i = i + 1;
    }
    assert(v@ =~= inds@);
    let ghost mut perm: Seq<int> = Seq::new(n as nat, |k: int| k);
    let ghost mut inv: Seq<int> = Seq::new(n as nat, |k: int| k);
    let mut t: usize = 0;
    while t < count
        invariant
            0 <= t <= count <= n == inds@.len(),
            v@.len() == n,
            perm.len() == n,
            inv.len() == n,
            forall|k: int| 0 <= k < n ==> 0 <= #[trigger] perm[k] < n,
            forall|k: int| 0 <= k < n ==> 0 <= #[trigger] inv[k] < n,
            forall|k: int| 0 <= k < n ==> #[trigger] inv[perm[k]] == k,
            forall|j: int| 0 <= j < n ==> #[trigger] perm[inv[j]] == j,
            forall|k: int| 0 <= k < n ==> #[trigger] v@[k] == inds@[perm[k]],
            forall|a: int, b: int| 0 <= a < b < t ==> v@[a].score >= v@[b].score,
            forall|a: int, b: int| 0 <= a < t <= b < n ==> v@[a].score >= v@[b].score,
        decreases count - t,
    {
        let mut best: usize = t;
        let mut j: usize = t + 1;
        while j < n
            invariant
                t < count <= n == v@.len(),
                t <= best < j <= n,
                forall|k: int| t <= k < j ==> v@[k].score <= v@[best as int].score,
            decreases n - j,
        {
            if v[j].score > v[best].score {
                best = j;
            }
            j = j + 1;
        }
        let a = v[t];
        let b = v[best];
        v.set(t, b);
        v.set(best, a);
        proof {
            let pt = perm[t as int];
            let pb = perm[best as int];
            lemma_swap_keeps_inverse(perm, inv, t as int, best as int);
            perm = perm.update(t as int, pb).update(best as int, pt);
            inv = inv.update(pb, t as int).update(pt, best as int);
        }
        t = t + 1;
    }
    let mut r: Vec<GenoSeq> = Vec::new();
    let mut k: usize = 0;
    while k < count
        invariant
            0 <= k <= count <= v@.len(),
            r@.len() == k,
            forall|q: int| 0 <= q < k ==> #[trigger] r@[q] == v@[q].geno,
        decreases count - k,
    {
        r.push(v[k].geno);
        k = k + 1;
    }
    proof {
        let idx = perm.subrange(0, count as int);
        assert forall|a: int, b: int| 0 <= a < b < count implies idx[a] != idx[b] by {
            assert(inv[perm[a]] == a);
            assert(inv[perm[b]] == b);
        }
        assert forall|j: int, q: int|
            0 <= j < inds@.len() && !idx.contains(j) && 0 <= q < count implies #[trigger] inds@[j].score <= #[trigger] inds@[idx[q]].score by {
            let p = inv[j];
            if p < count {
                assert(idx[p] == j);
            }
            assert(v@[p] == inds@[j]);
            assert(v@[q] == inds@[idx[q]]);
        }
        assert forall|a: int, b: int| 0 <= a < b < count implies inds@[idx[a]].score >= inds@[idx[b]].score by {
            assert(v@[a] == inds@[idx[a]]);
            assert(v@[b] == inds@[idx[b]]);
        }
        assert(is_top_ranking(idx, inds@, count as int));
    }
    r
}

/// `c`, `m` and `s` are the crossover, mutation and selection groups of a
/// new generation bred from `inds`, with the sizes that `group_sizes` gives.
pub open spec fn is_breeding(c: Seq<GenoSeq>, m: Seq<GenoSeq>, s: Seq<GenoSeq>, inds: Seq<Individual>) -> bool {
    let n = inds.len();
    &&& c.len() == n * CROSSOVER_RATE / 100
    &&& m.len() == n * MUTATION_RATE / 100
    &&& c.len() + m.len() + s.len() == n
    &&& exists|parents: Seq<GenoSeq>, cuts: Seq<usize>, children: Seq<GenoSeq>|
        #[trigger] is_crossover(c, inds, parents, cuts, children)
    &&& exists|picked: Seq<GenoSeq>| #[trigger] is_mutation(m, inds, picked)
    &&& is_selection(s, inds, s.len() as int)
}

fn append_all(v: &mut Vec<GenoSeq>, w: &Vec<GenoSeq>)
    ensures
        final(v)@ == old(v)@ + w@,
{
    let mut i: usize = 0;
    let ghost v0 = v@;
    while i < w.len()
        invariant
            0 <= i <= w@.len(),
            v@ == v0 + w@.subrange(0, i as int),
        decreases w@.len() - i,
    {
        v.push(w[i]);
        assert(v@ =~= v0 + w@.subrange(0, i + 1));
        i = i + 1;
    }
    assert(w@.subrange(0, w@.len() as int) =~= w@);
}

/// The genomes of the next generation: the crossover, mutation and
/// selection groups bred from `inds`, shuffled together.
pub fn gen_next_generation(inds: &[Individual]) -> (r: Vec<GenoSeq>)
    requires
        inds@.len() <= usize::MAX / 100,
    ensures
        r@.len() == inds@.len(),
        exists|c: Seq<GenoSeq>, m: Seq<GenoSeq>, s: Seq<GenoSeq>|
            #![trigger is_breeding(c, m, s, inds@)]
            is_breeding(c, m, s, inds@) && r@.to_multiset() == (c + m + s).to_multiset(),
{
    let (crossover_len, mutation_len, selection_len) = group_sizes(
        inds.len(),
        CROSSOVER_RATE,
        MUTATION_RATE,
        SELECTION_RATE,
    );
    let c = crossover(inds, crossover_len);
    let m = mutation(inds, mutation_len);
    let s = selection(inds, selection_len);
    let mut genos: Vec<GenoSeq> = Vec::new();
    append_all(&mut genos, &c);
    append_all(&mut genos, &m);
    append_all(&mut genos, &s);
    proof {
        assert(genos@ =~= c@ + m@ + s@);
        assert(is_breeding(c@, m@, s@, inds@));
    }
    shuffle(&mut genos);
    genos
}

/// Replaces the genomes of the population with those of its next
/// generation; the scores stay until the next evaluation.
pub fn breed(inds: &mut Vec<Individual>)
    requires
        old(inds)@.len() <= usize::MAX / 100,
    ensures
        final(inds)@.len() == old(inds)@.len(),
        forall|i: int| 0 <= i < old(inds)@.len() ==> (#[trigger] final(inds)@[i]).score == old(inds)@[i].score,
        exists|c: Seq<GenoSeq>, m: Seq<GenoSeq>, s: Seq<GenoSeq>|
            #![trigger is_breeding(c, m, s, old(inds)@)]
            is_breeding(c, m, s, old(inds)@) && genomes(final(inds)@).to_multiset() == (c + m + s).to_multiset(),
{
    let next_genos = gen_next_generation(inds.as_slice());
    let ghost old_inds = inds@;
    let mut i: usize = 0;
    while i < inds.len()
        invariant
            0 <= i <= inds@.len(),
            inds@.len() == old_inds.len() == next_genos@.len(),
            forall|k: int| 0 <= k < inds@.len() ==> (#[trigger] inds@[k]).score == old_inds[k].score,
            forall|k: int| 0 <= k < i ==> (#[trigger] inds@[k]).geno == next_genos@[k],
        decreases inds@.len() - i,
    {
        let score = inds[i].score;
        inds.set(i, Individual { geno: next_genos[i], score });
        i = i + 1;
    }
    assert(genomes(inds@) =~= next_genos@);
}

/// A member with random weights and no score yet.
pub fn random_individual() -> (r: Individual)
    ensures
        r.score == 0,
{
    Individual { geno: rand::random(), score: 0 }
}

/// A population of `size` members with random weights and no scores yet.
pub fn initial_population(size: usize) -> (r: Vec<Individual>)
    ensures
        r@.len() == size,
        forall|i: int| 0 <= i < size ==> (#[trigger] r@[i]).score == 0,
{
    let mut r: Vec<Individual> = Vec::new();
    let mut i: usize = 0;
    while i < size
        invariant
            0 <= i <= size,
            r@.len() == i,
            forall|k: int| 0 <= k < i ==> (#[trigger] r@[k]).score == 0,
        decreases size - i,
    {
        r.push(random_individual());
        i = i + 1;
    }
    r
}

/// One turn of a training game under the weights `geno`: unless the game
/// has reached the cleared-row ceiling, the evaluator places the piece and
/// `lock_piece` locks it. Returns whether the game goes on: the lock did
/// not top out and the ceiling is not reached. A choice that cannot be
/// locked (see `lockable`) ends the game with that choice as its state.
pub fn training_turn(game: &mut Game, geno: &GenoSeq) -> (going_on: bool)
    requires
        old(game).next@.len() > 0,
        old(game).pos.x < FIELD_WIDTH,
        old(game).pos.y < FIELD_HEIGHT,
    ensures
        old(game).total_line >= LINE_COUNT_MAX ==> !going_on && *final(game) == *old(game),
        old(game).total_line < LINE_COUNT_MAX ==> exists|e: Game|
            #![trigger is_elite(e, *old(game), *geno)]
            is_elite(e, *old(game), *geno) && if lockable(e) {
                exists|topped_out: bool|
                    #![trigger is_landed(*final(game), e, topped_out)]
                    is_landed(*final(game), e, topped_out) && going_on == (!topped_out
                        && final(game).total_line < LINE_COUNT_MAX)
            } else {
                !going_on && *final(game) == e
            },
        going_on ==> final(game).next@.len() == old(game).next@.len() && final(game).pos == spawn_pos(),
{
    if game.total_line >= LINE_COUNT_MAX {
        return false;
    }
    let elite = eval(game, geno);
    *game = elite;
    let r = lock_piece(game);
    proof {
        if lockable(elite) {
            assert(is_landed(*game, elite, r is Err));
        }
    }
    match r {
        Ok(()) => game.total_line < LINE_COUNT_MAX,
        Err(()) => false,
    }
}

} // verus!
