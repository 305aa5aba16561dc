//! The order of work within one tick. The charges of a run are numbered from
//! zero in the order of their lines; a tick is a list of steps over these
//! numbers, which the host carries out one after another.

use vstd::prelude::*;

verus! {

/// One piece of work within a tick.
#[derive(Debug, Clone, Copy, PartialEq, Eq, Structural)]
pub enum Step {
    /// The force between two charges: added to the first, and its negation
    /// to the second.
    Pair { first: usize, second: usize },
    /// The force of the two fields on one charge.
    Field { charge: usize },
    /// One charge moves by its step in time.
    Integrate { charge: usize },
    /// The force gathered on one charge is put back to zero.
    Reset { charge: usize },
    /// The clock moves on by the step in time.
    Clock,
}

/// The pairs of `i` with each later charge, in rising order of the partner.
pub open spec fn pair_row(i: usize, n: usize) -> Seq<(usize, usize)> {
    Seq::new((n - 1 - i) as nat, |t: int| (i, (i + 1 + t) as usize))
}

/// The rows of the charges below `i`, one after another.
pub open spec fn pair_rows(i: usize, n: usize) -> Seq<(usize, usize)>
    decreases i,
{
    if i == 0 {
        Seq::empty()
    } else {
        pair_rows((i - 1) as usize, n) + pair_row((i - 1) as usize, n)
    }
}

/// Every pair of two charges among `n`, the lower number first, ordered by
/// the first and then by the second.
pub open spec fn all_pairs(n: usize) -> Seq<(usize, usize)> {
    pair_rows(n, n)
}

/// The charges that are not fixed, in rising order.
pub open spec fn movable(fixed: Seq<bool>) -> Seq<usize>
    decreases fixed.len(),
{
    if fixed.len() == 0 {
        Seq::empty()
    } else if fixed.last() {
        movable(fixed.drop_last())
    } else {
        movable(fixed.drop_last()).push((fixed.len() - 1) as usize)
    }
}

/// A `Pair` step for each pair, in order.
pub open spec fn pair_steps(pairs: Seq<(usize, usize)>) -> Seq<Step> {
    Seq::new(pairs.len(), |k: int| Step::Pair { first: pairs[k].0, second: pairs[k].1 })
}

/// A `Field` step for each of `n` charges, in rising order.
pub open spec fn field_steps(n: usize) -> Seq<Step> {
    Seq::new(n as nat, |i: int| Step::Field { charge: i as usize })
}

/// An `Integrate` step for each charge listed, in order.
pub open spec fn move_steps(charges: Seq<usize>) -> Seq<Step> {
    Seq::new(charges.len(), |k: int| Step::Integrate { charge: charges[k] })
}

/// A `Reset` step for each of `n` charges, in rising order.
pub open spec fn reset_steps(n: usize) -> Seq<Step> {
    Seq::new(n as nat, |i: int| Step::Reset { charge: i as usize })
}

/// The steps of one tick over charges with the given flags: every pair once,
/// then the fields on every charge, then the move of every charge that is
/// not fixed, then the reset of every charge, then the clock.
pub open spec fn plan_of(fixed: Seq<bool>) -> Seq<Step> {
    let n = fixed.len() as usize;
    pair_steps(all_pairs(n)) + field_steps(n) + move_steps(movable(fixed)) + reset_steps(n)
        + seq![Step::Clock]
}

/// Lists every pair of two charges among `n`.
pub fn pair_schedule(n: usize) -> (pairs: Vec<(usize, usize)>)
    ensures
        pairs@ == all_pairs(n),
{
    let mut pairs: Vec<(usize, usize)> = Vec::new();
    let mut i: usize = 0;
    while i < n
        invariant
            i <= n,
            pairs@ == pair_rows(i, n),
        decreases n - i,
    {
        let mut j: usize = i + 1;
        assert(pair_row(i, n).take(0) =~= Seq::<(usize, usize)>::empty());
        while j < n
            invariant
                i < j <= n,
                pairs@ == pair_rows(i, n) + pair_row(i, n).take(j - i - 1),
            decreases n - j,
        {
            pairs.push((i, j));
            assert(pair_row(i, n).take(j - i) =~= pair_row(i, n).take(j - i - 1).push((i, j)));
            j += 1;
        }
        assert(pair_row(i, n).take(n - i - 1) =~= pair_row(i, n));
        i += 1;
    }
    pairs
}

/// Lists the steps of one tick.
pub fn tick_plan(fixed: &Vec<bool>) -> (plan: Vec<Step>)
    ensures
        plan@ == plan_of(fixed@),
{
    let n = fixed.len();
    let pairs = pair_schedule(n);
    let mut plan: Vec<Step> = Vec::new();
    let mut k: usize = 0;
    while k < pairs.len()
        invariant
            k <= pairs.len(),
            plan@ == pair_steps(pairs@.take(k as int)),
        decreases pairs.len() - k,
    {
        let (first, second) = pairs[k];
        plan.push(Step::Pair { first, second });
        k += 1;
        assert(plan@ =~= pair_steps(pairs@.take(k as int)));
    }
    assert(pairs@.take(k as int) =~= pairs@);
    let ghost part1 = plan@;
    let mut i: usize = 0;
    while i < n
        invariant
            i <= n,
            plan@ == part1 + field_steps(i),
        decreases n - i,
    {
        plan.push(Step::Field { charge: i });
        i += 1;
        assert(plan@ =~= part1 + field_steps(i));
    }
    let ghost part2 = plan@;
    i = 0;
    assert(fixed@.take(0) =~= Seq::<bool>::empty());
    while i < n
        invariant
            i <= n,
            n == fixed.len(),
            plan@ == part2 + move_steps(movable(fixed@.take(i as int))),
        decreases n - i,
    {
        proof {
            assert(fixed@.take(i + 1).drop_last() =~= fixed@.take(i as int));
        }
        if !fixed[i] {
            plan.push(Step::Integrate { charge: i });
        }
        i += 1;
        assert(plan@ =~= part2 + move_steps(movable(fixed@.take(i as int))));
    }
    assert(fixed@.take(n as int) =~= fixed@);
    let ghost part3 = plan@;
    i = 0;
    while i < n
        invariant
            i <= n,
            plan@ == part3 + reset_steps(i),
        decreases n - i,
    {
        plan.push(Step::Reset { charge: i });
        i += 1;
        assert(plan@ =~= part3 + reset_steps(i));
    }
    plan.push(Step::Clock);
    assert(plan@ =~= plan_of(fixed@));
    plan
}

/// Whether `p` comes before `q` when pairs are ordered by the first number
/// and then by the second.
pub open spec fn pair_before(p: (usize, usize), q: (usize, usize)) -> bool {
    p.0 < q.0 || (p.0 == q.0 && p.1 < q.1)
}

/// Twice the number of pairs in the rows below `i` is `i * (2n - i - 1)`.
pub proof fn lemma_pair_rows_len(i: usize, n: usize)
    requires
        i <= n,
    ensures
        2 * pair_rows(i, n).len() == i * (2 * n - i - 1),
    decreases i,
{
    if i > 0 {
        let h = (i - 1) as usize;
        lemma_pair_rows_len(h, n);
        assert(pair_rows(i, n).len() == pair_rows(h, n).len() + (n - 1 - h));
        assert(h * (2 * n - h - 1) + 2 * (n - 1 - h) == i * (2 * n - i - 1)) by (nonlinear_arith)
            requires
                h == i - 1,
        ;
    }
}

/// Every pair in the rows below `i` has its first number below `i`, and its
/// second number above the first and below `n`.
pub proof fn lemma_pair_rows_entry(i: usize, n: usize, k: int)
    requires
        i <= n,
        0 <= k < pair_rows(i, n).len(),
    ensures
        pair_rows(i, n)[k].0 < i,
        pair_rows(i, n)[k].0 < pair_rows(i, n)[k].1 < n,
    decreases i,
{
    if i > 0 {
        let h = (i - 1) as usize;
        if k < pair_rows(h, n).len() {
            lemma_pair_rows_entry(h, n, k);
        } else {
            let t = k - pair_rows(h, n).len();
            assert(pair_rows(i, n)[k] == pair_row(h, n)[t]);
        }
    }
}

/// The rows below `i` list their pairs in rising order.
pub proof fn lemma_pair_rows_sorted(i: usize, n: usize, k1: int, k2: int)
    requires
        i <= n,
        0 <= k1 < k2 < pair_rows(i, n).len(),
    ensures
        pair_before(pair_rows(i, n)[k1], pair_rows(i, n)[k2]),
    decreases i,
{
    if i > 0 {
        let h = (i - 1) as usize;
        let below = pair_rows(h, n).len();
        if k2 < below {
            lemma_pair_rows_sorted(h, n, k1, k2);
        } else {
            assert(pair_rows(i, n)[k2] == pair_row(h, n)[k2 - below]);
            if k1 < below {
                lemma_pair_rows_entry(h, n, k1);
            } else {
                assert(pair_rows(i, n)[k1] == pair_row(h, n)[k1 - below]);
            }
        }
    }
}

/// The rows below `i` hold every pair whose first number is below `i`.
pub proof fn lemma_pair_rows_has(i: usize, n: usize, a: usize, b: usize)
    requires
        a < i <= n,
        a < b < n,
    ensures
        pair_rows(i, n).contains((a, b)),
    decreases i,
{
    let h = (i - 1) as usize;
    let below = pair_rows(h, n).len();
    if a < h {
        lemma_pair_rows_has(h, n, a, b);
        let k = choose|k: int| 0 <= k < below && pair_rows(h, n)[k] == (a, b);
        assert(pair_rows(i, n)[k] == (a, b));
    } else {
        let t = b - a - 1;
        assert(pair_row(h, n)[t] == (a, b));
        assert(pair_rows(i, n)[below + t] == (a, b));
    }
}

/// Among `n` charges there are `n * (n - 1) / 2` pairs.
pub proof fn lemma_pairs_count(n: usize)
    ensures
        2 * all_pairs(n).len() == n * (n - 1),
{
    lemma_pair_rows_len(n, n);
    assert(n * (2 * n - n - 1) == n * (n - 1)) by (nonlinear_arith);
}

/// Each unordered pair of two different charges is listed exactly once:
/// every entry has its lower number first, every such pair is an entry, and
/// no two entries are equal.
pub proof fn lemma_each_pair_once(n: usize)
    ensures
        forall|k: int|
            0 <= k < all_pairs(n).len() ==> (#[trigger] all_pairs(n)[k]).0 < all_pairs(n)[k].1 < n,
        forall|a: usize, b: usize| a < b < n ==> all_pairs(n).contains((a, b)),
        all_pairs(n).no_duplicates(),
{
    assert forall|k: int| 0 <= k < all_pairs(n).len() implies (#[trigger] all_pairs(n)[k]).0
        < all_pairs(n)[k].1 < n by {
        lemma_pair_rows_entry(n, n, k);
    }
    assert forall|a: usize, b: usize| a < b < n implies all_pairs(n).contains((a, b)) by {
        lemma_pair_rows_has(n, n, a, b);
    }
    assert forall|k1: int, k2: int|
        0 <= k1 < all_pairs(n).len() && 0 <= k2 < all_pairs(n).len() && k1 != k2 implies all_pairs(
        n,
    )[k1] != all_pairs(n)[k2] by {
        if k1 < k2 {
            lemma_pair_rows_sorted(n, n, k1, k2);
        } else {
            lemma_pair_rows_sorted(n, n, k2, k1);
        }
    }
}

/// `movable` lists, in rising order, exactly the charges that are not fixed.
pub proof fn lemma_movable(fixed: Seq<bool>)
    requires
        fixed.len() <= usize::MAX,
    ensures
        forall|k: int|
            0 <= k < movable(fixed).len() ==> (#[trigger] movable(fixed)[k]) < fixed.len()
                && !fixed[movable(fixed)[k] as int],
        forall|c: int| 0 <= c < fixed.len() && !fixed[c] ==> movable(fixed).contains(c as usize),
        forall|k1: int, k2: int|
            0 <= k1 < k2 < movable(fixed).len() ==> movable(fixed)[k1] < movable(fixed)[k2],
    decreases fixed.len(),
{
    if fixed.len() > 0 {
        let front = fixed.drop_last();
        let m = movable(front);
        lemma_movable(front);
        let now = movable(fixed);
        assert forall|k: int| 0 <= k < now.len() implies (#[trigger] now[k]) < fixed.len()
            && !fixed[now[k] as int] by {
            if k < m.len() {
                assert(now[k] == m[k]);
                assert(front[m[k] as int] == fixed[m[k] as int]);
            }
        }
        assert forall|c: int| 0 <= c < fixed.len() && !fixed[c] implies now.contains(
            c as usize,
        ) by {
            if c < front.len() {
                assert(front[c] == fixed[c]);
                let k = choose|k: int| 0 <= k < m.len() && m[k] == c as usize;
                assert(now[k] == c as usize);
            } else {
                assert(now[now.len() - 1] == c as usize);
            }
        }
        assert forall|k1: int, k2: int| 0 <= k1 < k2 < now.len() implies now[k1] < now[k2] by {
            if k2 < m.len() {
                assert(now[k1] == m[k1] && now[k2] == m[k2]);
            } else {
                assert(now[k1] == m[k1]);
            }
        }
    }
}

/// A tick never moves a fixed charge: every `Integrate` step of the plan
/// names a charge that is not fixed.
pub proof fn lemma_fixed_never_moves(fixed: Seq<bool>, k: int)
    requires
        fixed.len() <= usize::MAX,
        0 <= k < plan_of(fixed).len(),
        plan_of(fixed)[k] is Integrate,
    ensures
        plan_of(fixed)[k]->Integrate_charge < fixed.len(),
        !fixed[plan_of(fixed)[k]->Integrate_charge as int],
{
    let n = fixed.len() as usize;
    lemma_movable(fixed);
    let before = pair_steps(all_pairs(n)).len() + field_steps(n).len();
    let t = k - before;
    assert(0 <= t < movable(fixed).len());
    assert(plan_of(fixed)[k] == move_steps(movable(fixed))[t]);
}

/// A tick moves every charge that is not fixed, and moves it once: the plan
/// holds exactly one `Integrate` step that names it.
pub proof fn lemma_free_moves_once(fixed: Seq<bool>, c: usize)
    requires
        fixed.len() <= usize::MAX,
        c < fixed.len(),
        !fixed[c as int],
    ensures
        exists|k: int| 0 <= k < plan_of(fixed).len() && plan_of(fixed)[k] == (Step::Integrate {
            charge: c,
        }),
        forall|k1: int, k2: int|
            0 <= k1 < plan_of(fixed).len() && 0 <= k2 < plan_of(fixed).len() && plan_of(fixed)[k1]
                == (Step::Integrate { charge: c }) && plan_of(fixed)[k2] == (Step::Integrate {
                charge: c,
            }) ==> k1 == k2,
{
    let n = fixed.len() as usize;
    let plan = plan_of(fixed);
    let m = movable(fixed);
    lemma_movable(fixed);
    let before = pair_steps(all_pairs(n)).len() + field_steps(n).len();
    let t = choose|t: int| 0 <= t < m.len() && m[t] == c;
    assert(plan[before + t] == move_steps(m)[t]);
    assert forall|k1: int, k2: int|
        0 <= k1 < plan.len() && 0 <= k2 < plan.len() && plan[k1] == (Step::Integrate {
            charge: c,
        }) && plan[k2] == (Step::Integrate { charge: c }) implies k1 == k2 by {
        let t1 = k1 - before;
        let t2 = k2 - before;
        assert(0 <= t1 < m.len() && plan[k1] == move_steps(m)[t1]);
        assert(0 <= t2 < m.len() && plan[k2] == move_steps(m)[t2]);
        if t1 < t2 {
            assert(m[t1] < m[t2]);
        } else if t2 < t1 {
            assert(m[t2] < m[t1]);
        }
    }
}

/// The layout of a plan: the steps of each kind stand together, pairs first,
/// then fields, moves and resets in rising order of the charge, and the clock
/// last. Every step names charges that exist.
pub proof fn lemma_plan_layout(fixed: Seq<bool>, k: int)
    requires
        fixed.len() <= usize::MAX,
        0 <= k < plan_of(fixed).len(),
    ensures
        ({
            let n = fixed.len();
            let pairs = all_pairs(n as usize);
            let free = movable(fixed);
            let p = pairs.len();
            let m = free.len();
            let step = plan_of(fixed)[k];
            &&& plan_of(fixed).len() == p + n + m + n + 1
            &&& k < p ==> step == (Step::Pair { first: pairs[k].0, second: pairs[k].1 })
                && pairs[k].0 < pairs[k].1 < n
            &&& p <= k < p + n ==> step == (Step::Field { charge: (k - p) as usize })
            &&& p + n <= k < p + n + m ==> step == (Step::Integrate { charge: free[k - p - n] })
                && free[k - p - n] < n && !fixed[free[k - p - n] as int]
            &&& p + n + m <= k < p + n + m + n ==> step == (Step::Reset {
                charge: (k - p - n - m) as usize,
            })
            &&& k == p + n + m + n ==> step == Step::Clock
        }),
{
    let n = fixed.len();
    let p = all_pairs(n as usize).len();
    let m = movable(fixed).len();
    if k < p {
        lemma_pair_rows_entry(n as usize, n as usize, k);
    } else if p + n <= k < p + n + m {
        lemma_movable(fixed);
        assert(plan_of(fixed)[k] == move_steps(movable(fixed))[k - p - n]);
    }
}

} // verus!
