//! Random choice among weighted alternatives.

use vstd::prelude::*;
use rand::rngs::ThreadRng;
use rand::Rng;

verus! {

/// The thread-local random number generator of the `rand` crate.
#[verifier::external_type_specification]
#[verifier::external_body]
pub struct ExThreadRng(ThreadRng);

/// The sum of the first `n` weights.
pub open spec fn prefix_weight(weights: Seq<usize>, n: int) -> int
    decreases n,
{
    if n <= 0 {
        0
    } else {
        prefix_weight(weights, n - 1) + weights[n - 1]
    }
}

/// The sum of all the weights.
pub open spec fn total_weight(weights: Seq<usize>) -> int {
    prefix_weight(weights, weights.len() as int)
}

/// Whether alternative `i` is the one that `draw` selects: the first whose
/// running sum of weights exceeds the draw. The draws that select an
/// alternative are as many as its weight.
pub open spec fn selects(weights: Seq<usize>, draw: int, i: int) -> bool {
    &&& 0 <= i < weights.len()
    &&& prefix_weight(weights, i) <= draw < prefix_weight(weights, i + 1)
}

/// The weights of weighted alternatives.
pub open spec fn weights_of<T>(a: Seq<(usize, T)>) -> Seq<usize> {
    Seq::new(a.len(), |i: int| a[i].0)
}

/// The running sums of weights never fall.
pub proof fn lemma_prefix_weight_monotonic(weights: Seq<usize>, m: int, n: int)
    requires
        m <= n,
    ensures
        prefix_weight(weights, m) <= prefix_weight(weights, n),
        0 <= prefix_weight(weights, m),
    decreases n - m, n,
{
    if n <= 0 {
    } else if m < n {
        lemma_prefix_weight_monotonic(weights, m, n - 1);
    } else {
        lemma_prefix_weight_monotonic(weights, m - 1, n - 1);
    }
}

/// The sum of the first weights depends on those weights alone.
pub proof fn lemma_prefix_weight_agrees(first: Seq<usize>, second: Seq<usize>, n: int)
    requires
        n <= first.len(),
        n <= second.len(),
        forall|k: int| 0 <= k < n ==> first[k] == second[k],
    ensures
        prefix_weight(first, n) == prefix_weight(second, n),
    decreases n,
{
    if n > 0 {
        lemma_prefix_weight_agrees(first, second, n - 1);
    }
}

/// No weight is more than the sum of all the weights.
pub proof fn lemma_weight_within_total(weights: Seq<usize>, i: int)
    requires
        0 <= i < weights.len(),
    ensures
        weights[i] <= total_weight(weights),
{
    lemma_prefix_weight_monotonic(weights, i + 1, weights.len() as int);
    lemma_prefix_weight_monotonic(weights, i, i);
}

/// A draw selects one alternative at most, and only one whose weight is
/// not zero.
pub proof fn lemma_selection_is_unique(weights: Seq<usize>, draw: int, i: int, j: int)
    requires
        selects(weights, draw, i),
        selects(weights, draw, j),
    ensures
        i == j,
        weights[i] > 0,
{
    if i < j {
        lemma_prefix_weight_monotonic(weights, i + 1, j);
    } else if j < i {
        lemma_prefix_weight_monotonic(weights, j + 1, i);
    }
}

/// The sum of the weights, when it fits the machine word.
pub fn checked_total(weights: &Vec<usize>) -> (total: Option<usize>)
    ensures
        match total {
            Some(t) => t == total_weight(weights@),
            None => total_weight(weights@) > usize::MAX,
        },
{
    let mut sum: usize = 0;
    let mut k: usize = 0;
    while k < weights.len()
        invariant
            k <= weights.len(),
            sum == prefix_weight(weights@, k as int),
        decreases weights.len() - k,
    {
        if weights[k] > usize::MAX - sum {
            proof {
                lemma_prefix_weight_monotonic(weights@, k + 1, weights@.len() as int);
            }
            return None;
        }
        sum += weights[k];
        k += 1;
    }
    Some(sum)
}

/// The alternative that a draw selects.
pub fn weighted_index(weights: &Vec<usize>, draw: usize) -> (i: usize)
    requires
        draw < total_weight(weights@),
    ensures
        selects(weights@, draw as int, i as int),
{
    let mut sum: usize = 0;
    let mut k: usize = 0;
    while k < weights.len()
        invariant
            k <= weights.len(),
            sum == prefix_weight(weights@, k as int),
            sum <= draw,
            draw < total_weight(weights@),
        decreases weights.len() - k,
    {
        if weights[k] > draw - sum {
            return k;
        }
        sum += weights[k];
        k += 1;
    }
    k
}

/// `Rng::gen_range` on the range from 0 up to, and without, `bound`: the
/// number drawn lies in that range. Nothing else is known of it.
#[verifier::external_body]
pub(crate) fn draw_below(rng: &mut ThreadRng, bound: usize) -> (draw: usize)
    requires
        bound > 0,
    ensures
        draw < bound,
{
    rng.gen_range(0..bound)
}

/// Chooses one alternative at random, each with a chance in proportion to
/// its weight. Whatever is drawn, the choice is a copy of an alternative
/// that some draw below the total weight selects.
pub fn weighted_random_choice<T: Clone>(a: &Vec<(usize, T)>, rng: &mut ThreadRng) -> (choice: T)
    requires
        0 < total_weight(weights_of(a@)) <= usize::MAX,
    ensures
        exists|draw: int, i: int|
            0 <= draw < total_weight(weights_of(a@)) && #[trigger] selects(
                weights_of(a@),
                draw,
                i,
            ) && cloned(a@[i].1, choice),
{
    let mut weights: Vec<usize> = Vec::new();
    let mut k: usize = 0;
    while k < a.len()
        invariant
            k <= a.len(),
            weights@ == weights_of(a@).take(k as int),
        decreases a.len() - k,
    {
        weights.push(a[k].0);
        assert(weights@ =~= weights_of(a@).take(k + 1));
        k += 1;
    }
    assert(weights@ =~= weights_of(a@));
    let total = checked_total(&weights).unwrap();
    let draw = draw_below(rng, total);
    let i = weighted_index(&weights, draw);
    let choice = a[i].1.clone();
    assert(selects(weights_of(a@), draw as int, i as int) && cloned(a@[i as int].1, choice));
    choice
}

/// Chooses one alternative at random, each with the same chance. Whatever
/// is drawn, the choice is a copy of one of the alternatives.
pub fn random_choice<T: Clone>(a: &Vec<(usize, T)>, rng: &mut ThreadRng) -> (choice: T)
    requires
        a.len() > 0,
    ensures
        exists|i: int| 0 <= i < a.len() && cloned(#[trigger] a@[i].1, choice),
{
    let i = draw_below(rng, a.len());
    let choice = a[i].1.clone();
    assert(cloned(a@[i as int].1, choice));
    choice
}

} // verus!
