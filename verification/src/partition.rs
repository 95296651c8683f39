use vstd::prelude::*;

use vstd::arithmetic::div_mod::{lemma_fundamental_div_mod, lemma_div_non_zero, lemma_mod_bound};
use vstd::arithmetic::mul::lemma_mul_inequality;

verus! {

/// How many worker threads a run uses: the number asked for, but at least one
/// and at most one per path.
pub open spec fn thread_count(requested: nat, n_paths: nat) -> nat {
    let at_least_one = if requested < 1 { 1 } else { requested };
    if at_least_one < n_paths { at_least_one } else { n_paths }
}

/// The paths that thread `i` of `t` simulates out of `n`: an equal share, and one
/// more for each of the first `n % t` threads.
pub open spec fn share(n: nat, t: nat, i: nat) -> nat
    recommends
        t > 0,
{
    n / t + if i < n % t { 1nat } else { 0nat }
}

/// The paths that the first `k` of `t` threads simulate together.
pub open spec fn shares_total(n: nat, t: nat, k: nat) -> nat
    decreases k,
{
    if k == 0 {
        0
    } else {
        shares_total(n, t, (k - 1) as nat) + share(n, t, (k - 1) as nat)
    }
}

/// The first `k` shares add up to `k` equal shares plus one for each of those
/// threads that gets an extra path.
proof fn lemma_shares_total_closed_form(n: nat, t: nat, k: nat)
    requires
        t > 0,
    ensures
        shares_total(n, t, k) == k * (n / t) + if k < n % t { k } else { n % t },
    decreases k,
{
    if k == 0 {
        assert(k * (n / t) == 0) by (nonlinear_arith)
            requires
                k == 0,
        ;
    } else {
        lemma_shares_total_closed_form(n, t, (k - 1) as nat);
        let q = n / t;
        let prev = (k - 1) as nat;
        assert(k * q == prev * q + q) by (nonlinear_arith)
            requires
                prev + 1 == k,
        ;
    }
}

/// Law: the shares of all threads add up to the number of paths, so every path is
/// simulated exactly once across the threads.
pub proof fn lemma_shares_cover_all_paths(n: nat, t: nat)
    requires
        t > 0,
    ensures
        shares_total(n, t, t) == n,
{
    lemma_shares_total_closed_form(n, t, t);
    lemma_fundamental_div_mod(n as int, t as int);
    lemma_mod_bound(n as int, t as int);
}

/// Law: no more threads than paths means every thread has at least one path.
pub proof fn lemma_every_thread_has_work(n: nat, t: nat, i: nat)
    requires
        0 < t <= n,
    ensures
        share(n, t, i) >= 1,
{
    lemma_div_non_zero(n as int, t as int);
}

/// Law: shares never grow with the thread's position, and any two differ by at
/// most one path.
pub proof fn lemma_shares_balanced(n: nat, t: nat, i: nat, j: nat)
    requires
        t > 0,
        i <= j,
    ensures
        share(n, t, j) <= share(n, t, i),
        share(n, t, i) <= share(n, t, j) + 1,
{
}

/// Law: with at least one path, a run uses at least one thread, never more
/// threads than paths, and exactly the number asked for when that number is
/// between one and the number of paths.
pub proof fn lemma_thread_count_bounds(requested: nat, n: nat)
    requires
        n > 0,
    ensures
        1 <= thread_count(requested, n) <= n,
        1 <= requested <= n ==> thread_count(requested, n) == requested,
{
}

/// The first `k` shares never exceed all paths.
proof fn lemma_partial_total_bounded(n: nat, t: nat, k: nat)
    requires
        0 < t,
        k <= t,
    ensures
        shares_total(n, t, k) <= n,
{
    lemma_shares_total_closed_form(n, t, k);
    lemma_fundamental_div_mod(n as int, t as int);
    lemma_mod_bound(n as int, t as int);
    lemma_mul_inequality(k as int, t as int, (n / t) as int);
    assert(t * (n / t) == (t as int) * ((n / t) as int));
}

/// The number of worker threads for a run of `n_paths` paths when `requested`
/// threads are asked for.
pub fn effective_threads(requested: usize, n_paths: usize) -> (r: usize)
    ensures
        r == thread_count(requested as nat, n_paths as nat),
{
    let at_least_one = if requested < 1 { 1 } else { requested };
    if at_least_one < n_paths { at_least_one } else { n_paths }
}

/// The number of paths that thread `i` of `n_threads` simulates.
pub fn paths_for_thread(n_paths: usize, n_threads: usize, i: usize) -> (r: usize)
    requires
        n_threads > 0,
    ensures
        r == share(n_paths as nat, n_threads as nat, i as nat),
{
    let paths_per_thread = n_paths / n_threads;
    let remainder = n_paths % n_threads;
    if i < remainder {
        proof {
            lemma_fundamental_div_mod(n_paths as int, n_threads as int);
            let q = paths_per_thread as int;
            let t = n_threads as int;
            assert(t >= 2);
            assert(2 * q <= t * q) by (nonlinear_arith)
                requires
                    t >= 2,
                    q >= 0,
            ;
        }
        paths_per_thread + 1
    } else {
        paths_per_thread
    }
}

/// The paths each worker thread simulates, in thread order, for a run of
/// `n_paths` paths when `requested` threads are asked for.
pub fn thread_shares(n_paths: usize, requested: usize) -> (shares: Vec<usize>)
    requires
        n_paths > 0,
    ensures
        shares.len() == thread_count(requested as nat, n_paths as nat),
        forall|i: int|
            0 <= i < shares.len() ==> #[trigger] shares[i] == share(
                n_paths as nat,
                thread_count(requested as nat, n_paths as nat),
                i as nat,
            ),
{
    let n_threads = effective_threads(requested, n_paths);
    let mut shares: Vec<usize> = Vec::new();
    for i in 0..n_threads
        invariant
            n_threads == thread_count(requested as nat, n_paths as nat),
            0 < n_threads <= n_paths,
            shares.len() == i,
            forall|j: int|
                0 <= j < i ==> #[trigger] shares[j] == share(
                    n_paths as nat,
                    n_threads as nat,
                    j as nat,
                ),
    {
        let paths_for_this = paths_for_thread(n_paths, n_threads, i);
        proof {
            lemma_every_thread_has_work(n_paths as nat, n_threads as nat, i as nat);
        }
        if paths_for_this > 0 {
            shares.push(paths_for_this);
        }
    }
    shares
}

/// The number of paths accounted for after joining the first `joined` worker
/// threads of a run of `n_paths` paths when `requested` threads were asked for.
pub fn joined_paths(n_paths: usize, requested: usize, joined: usize) -> (total: usize)
    requires
        n_paths > 0,
        joined <= thread_count(requested as nat, n_paths as nat),
    ensures
        total == shares_total(
            n_paths as nat,
            thread_count(requested as nat, n_paths as nat),
            joined as nat,
        ),
        joined == thread_count(requested as nat, n_paths as nat) ==> total == n_paths,
{
    let n_threads = effective_threads(requested, n_paths);
    let mut total_paths: usize = 0;
    for idx in 0..joined
        invariant
            n_threads == thread_count(requested as nat, n_paths as nat),
            0 < n_threads <= n_paths,
            joined <= n_threads,
            total_paths == shares_total(n_paths as nat, n_threads as nat, idx as nat),
    {
        let paths_for_thread = paths_for_thread(n_paths, n_threads, idx);
        proof {
            lemma_partial_total_bounded(n_paths as nat, n_threads as nat, (idx + 1) as nat);
        }
        total_paths = total_paths + paths_for_thread;
    }
    proof {
        if joined == n_threads {
            lemma_shares_cover_all_paths(n_paths as nat, n_threads as nat);
        }
    }
    total_paths
}

} // verus!
