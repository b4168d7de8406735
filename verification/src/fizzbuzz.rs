//! Pairing a cycle of three "fizz" slots with a cycle of five "buzz" slots
//! and keeping the positions where both speak.

use vstd::prelude::*;

verus! {

/// The label of the three-step cycle at position `k` (counted from zero):
/// it speaks on every third element.
pub open spec fn fizz_spec(k: nat) -> Option<&'static str> {
    if k % 3 == 2 {
        Some("fizz")
    } else {
        None
    }
}

/// The label of the five-step cycle at position `k`: it speaks on every
/// fifth element.
pub open spec fn buzz_spec(k: nat) -> Option<&'static str> {
    if k % 5 == 4 {
        Some("buzz")
    } else {
        None
    }
}

/// The positions below `n` at which both cycles speak, in increasing order.
pub open spec fn fizzbuzz_positions(n: nat) -> Seq<nat>
    decreases n,
{
    if n == 0 {
        Seq::empty()
    } else {
        let k = (n - 1) as nat;
        let before = fizzbuzz_positions(k);
        if fizz_spec(k) is Some && buzz_spec(k) is Some {
            before.push(k)
        } else {
            before
        }
    }
}

/// The three-step cycle's label at position `k`.
pub fn fizz_at(k: usize) -> (r: Option<&'static str>)
    ensures
        r == fizz_spec(k as nat),
        r is Some <==> k % 3 == 2,
        r matches Some(s) ==> s@ == "fizz"@,
{
    if k % 3 == 2 {
        Some("fizz")
    } else {
        None
    }
}

/// The five-step cycle's label at position `k`.
pub fn buzz_at(k: usize) -> (r: Option<&'static str>)
    ensures
        r == buzz_spec(k as nat),
        r is Some <==> k % 5 == 4,
        r matches Some(s) ==> s@ == "buzz"@,
{
    if k % 5 == 4 {
        Some("buzz")
    } else {
        None
    }
}

/// Walks the first `n` positions of the zipped cycles and keeps each
/// position where both labels are present, with the two labels.
pub fn fizzbuzz(n: usize) -> (r: Vec<(usize, (Option<&'static str>, Option<&'static str>))>)
    ensures
        r@.len() == fizzbuzz_positions(n as nat).len(),
        forall|i: int|
            0 <= i < r@.len() ==> {
                let k = #[trigger] fizzbuzz_positions(n as nat)[i];
                r@[i].0 as nat == k && r@[i].1 == (fizz_spec(k), buzz_spec(k))
            },
{
    let mut r: Vec<(usize, (Option<&'static str>, Option<&'static str>))> = Vec::new();
    let mut k: usize = 0;
    while k < n
        invariant
            k <= n,
            r@.len() == fizzbuzz_positions(k as nat).len(),
            forall|i: int|
                0 <= i < r@.len() ==> {
                    let p = #[trigger] fizzbuzz_positions(k as nat)[i];
                    r@[i].0 as nat == p && r@[i].1 == (fizz_spec(p), buzz_spec(p))
                },
        decreases n - k,
    {
        let f = fizz_at(k);
        let b = buzz_at(k);
        if f.is_some() && b.is_some() {
            r.push((k, (f, b)));
        }
        proof {
            assert(fizzbuzz_positions((k + 1) as nat) == if fizz_spec(k as nat) is Some
                && buzz_spec(k as nat) is Some {
                fizzbuzz_positions(k as nat).push(k as nat)
            } else {
                fizzbuzz_positions(k as nat)
            });
        }
        k = k + 1;
    }
    r
}

/// A position is kept exactly when it is 14 more than a multiple of 15:
/// the kept positions below `n` are all below `n`, leave 14 modulo 15, are
/// strictly increasing, and every such position below `n` is kept.
pub proof fn lemma_fizzbuzz_positions(n: nat)
    ensures
        forall|i: int|
            0 <= i < fizzbuzz_positions(n).len() ==> #[trigger] fizzbuzz_positions(n)[i] < n
                && fizzbuzz_positions(n)[i] % 15 == 14,
        forall|i: int, j: int|
            0 <= i < j < fizzbuzz_positions(n).len() ==> fizzbuzz_positions(n)[i]
                < fizzbuzz_positions(n)[j],
        forall|k: nat| k < n && k % 15 == 14 ==> #[trigger] fizzbuzz_positions(n).contains(k),
    decreases n,
{
    if n > 0 {
        let k = (n - 1) as nat;
        lemma_fizzbuzz_positions(k);
        let before = fizzbuzz_positions(k);
        assert((fizz_spec(k) is Some && buzz_spec(k) is Some) <==> k % 15 == 14);
        if k % 15 == 14 {
            assert(fizzbuzz_positions(n) == before.push(k));
            assert forall|j: nat| j < n && j % 15 == 14 implies #[trigger] fizzbuzz_positions(
                n,
            ).contains(j) by {
                if j < k {
                    assert(before.contains(j));
                    let idx = choose|idx: int| 0 <= idx < before.len() && before[idx] == j;
                    assert(fizzbuzz_positions(n)[idx] == j);
                } else {
                    assert(fizzbuzz_positions(n)[before.len() as int] == j);
                }
            }
        } else {
            assert(fizzbuzz_positions(n) == before);
        }
    }
}

/// The fizz label follows a cycle of three: it repeats every three
/// positions, and of the first three positions only the third (position 2)
/// speaks, saying "fizz".  So among any three consecutive positions exactly
/// one speaks, and a position speaks exactly when it leaves 2 modulo 3.
pub proof fn lemma_fizz_cycle(k: nat)
    ensures
        fizz_spec(k + 3) == fizz_spec(k),
        fizz_spec(0) is None,
        fizz_spec(1) is None,
        fizz_spec(2) == Some("fizz"),
        fizz_spec(k) is Some <==> k % 3 == 2,
        fizz_spec(k) is Some ==> fizz_spec(k) == Some("fizz"),
        (fizz_spec(k) is Some) as int + (fizz_spec(k + 1) is Some) as int + (fizz_spec(k + 2) is Some) as int == 1,
{
    assert((k + 3) % 3 == k % 3);
    assert((k + 1) % 3 == (k % 3 + 1) % 3);
    assert((k + 2) % 3 == (k % 3 + 2) % 3);
}

/// The buzz label follows a cycle of five: it repeats every five positions,
/// and of the first five only the fifth (position 4) speaks, saying
/// "buzz".  So among any five consecutive positions exactly one speaks, and
/// a position speaks exactly when it leaves 4 modulo 5.
pub proof fn lemma_buzz_cycle(k: nat)
    ensures
        buzz_spec(k + 5) == buzz_spec(k),
        buzz_spec(0) is None,
        buzz_spec(1) is None,
        buzz_spec(2) is None,
        buzz_spec(3) is None,
        buzz_spec(4) == Some("buzz"),
        buzz_spec(k) is Some <==> k % 5 == 4,
        buzz_spec(k) is Some ==> buzz_spec(k) == Some("buzz"),
        (buzz_spec(k) is Some) as int + (buzz_spec(k + 1) is Some) as int + (buzz_spec(k + 2) is Some) as int
            + (buzz_spec(k + 3) is Some) as int + (buzz_spec(k + 4) is Some) as int == 1,
{
    assert((k + 5) % 5 == k % 5);
    assert((k + 1) % 5 == (k % 5 + 1) % 5);
    assert((k + 2) % 5 == (k % 5 + 2) % 5);
    assert((k + 3) % 5 == (k % 5 + 3) % 5);
    assert((k + 4) % 5 == (k % 5 + 4) % 5);
}

} // verus!
