//! The rules of the dining philosophers: who holds which fork, what a
//! thought says, and how long a meal lasts.

use vstd::prelude::*;
use vstd::string::*;

use crate::delays::random_delay;

verus! {

/// The forks of philosopher `i` at a round table of `n`: the fork at their
/// own place on the left, the next place's fork on the right.
pub open spec fn forks_spec(i: nat, n: nat) -> (nat, nat) {
    (i, (i + 1) % n)
}

/// The forks of philosopher `i` at a table of `n`.
pub fn fork_pair(i: usize, n: usize) -> (r: (usize, usize))
    requires
        i < n,
    ensures
        (r.0 as nat, r.1 as nat) == forks_spec(i as nat, n as nat),
{
    (i, (i + 1) % n)
}

/// The thought a philosopher sends after eating.
pub fn thought(name: &str) -> (r: String)
    ensures
        r@ == "Eureka! "@ + name@ + " has a new idea!"@,
{
    let mut r = String::from_str("Eureka! ");
    r.append(name);
    r.append(" has a new idea!");
    r
}

/// How long a meal of `tenths` tenths of a second lasts, in milliseconds.
pub fn meal_millis_for(tenths: u64) -> (r: u64)
    requires
        tenths * 100 <= u64::MAX,
    ensures
        r == tenths * 100,
{
    tenths * 100
}

/// How long a meal lasts, in milliseconds: a random whole number of tenths
/// of a second from one to nine.
pub fn meal_millis() -> (r: u64)
    ensures
        exists|tenths: u64| 1 <= tenths <= 9 && r == #[trigger] (tenths * 100),
{
    let d = random_delay(1, 9);
    let r = meal_millis_for(d);
    assert(1 <= d <= 9 && r == d * 100);
    r
}

/// The order in which philosopher `i` at a table of `n` picks up their two
/// forks: the lower-numbered fork first.
pub open spec fn lock_order_spec(i: nat, n: nat) -> (nat, nat) {
    let (l, r) = forks_spec(i, n);
    if l <= r {
        (l, r)
    } else {
        (r, l)
    }
}

/// The order in which philosopher `i` at a table of `n` picks up their
/// forks: lower-numbered first, so that no circle of philosophers can each
/// hold one fork while waiting for the next.
pub fn lock_order(i: usize, n: usize) -> (r: (usize, usize))
    requires
        i < n,
    ensures
        (r.0 as nat, r.1 as nat) == lock_order_spec(i as nat, n as nat),
{
    let (l, r) = fork_pair(i, n);
    if l <= r {
        (l, r)
    } else {
        (r, l)
    }
}

/// Every philosopher but the last picks up their own fork and then the next
/// one; the last picks up fork 0 first.  So the forks are always taken in
/// increasing order, and a circular wait cannot form.
pub proof fn lemma_lock_order(i: nat, n: nat)
    requires
        2 <= n,
        i < n,
    ensures
        i + 1 < n ==> lock_order_spec(i, n) == (i, i + 1),
        i + 1 == n ==> lock_order_spec(i, n) == (0nat, i),
        lock_order_spec(i, n).0 < lock_order_spec(i, n).1,
{
    if i + 1 < n {
        assert((i + 1) % n == i + 1) by (nonlinear_arith)
            requires
                i + 1 < n,
        ;
    } else {
        assert((i + 1) % n == 0) by (nonlinear_arith)
            requires
                i + 1 == n,
                n > 0,
        ;
    }
}

/// Around a table of `n >= 2`: every fork index is at the table, the two
/// forks of one philosopher differ, each philosopher's right fork is the
/// left fork of the next one, and every fork is held by exactly the two
/// neighbours that sit beside it (its owner on the left, the previous
/// philosopher on the right).
pub proof fn lemma_forks_shared(i: nat, n: nat)
    requires
        2 <= n,
        i < n,
    ensures
        forks_spec(i, n).0 < n && forks_spec(i, n).1 < n,
        forks_spec(i, n).0 != forks_spec(i, n).1,
        forks_spec(i, n).1 == forks_spec((i + 1) % n, n).0,
        forall|j: nat|
            j < n ==> (forks_spec(j, n).0 == i <==> j == i) && (forks_spec(j, n).1 == i <==> j
                == if i == 0 { (n - 1) as nat } else { (i - 1) as nat }),
{
    assert forall|j: nat| j < n implies (forks_spec(j, n).1 == i <==> j == if i == 0 {
        (n - 1) as nat
    } else {
        (i - 1) as nat
    }) by {
        if j + 1 < n {
            assert((j + 1) % n == j + 1) by (nonlinear_arith)
                requires
                    j + 1 < n,
            ;
        } else {
            assert((j + 1) % n == 0) by (nonlinear_arith)
                requires
                    j + 1 == n,
                    n > 0,
            ;
        }
    }
    if i + 1 < n {
        assert((i + 1) % n == i + 1) by (nonlinear_arith)
            requires
                i + 1 < n,
        ;
    } else {
        assert((i + 1) % n == 0) by (nonlinear_arith)
            requires
                i + 1 == n,
                n > 0,
        ;
    }
}

} // verus!
