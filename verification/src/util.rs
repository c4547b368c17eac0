use vstd::prelude::*;

verus! {

/// How a pile of spice is split into tokens worth 10, 5, 2 and 1: as many tens
/// as fit, then at most one five, then twos, then at most one single.
/// Nothing is split out of an empty or negative pile.
pub open spec fn spice_tokens(total: int) -> (int, int, int, int) {
    if total <= 0 {
        (0, 0, 0, 0)
    } else {
        let rest = total % 10;
        let fives: int = if rest >= 5 { 1 } else { 0 };
        let small = rest - 5 * fives;
        (total / 10, fives, small / 2, small % 2)
    }
}

proof fn lemma_spice_tokens_step(t: int)
    requires
        t > 0,
    ensures
        t >= 10 ==> spice_tokens(t) == (spice_tokens(t - 10).0 + 1, spice_tokens(t - 10).1,
            spice_tokens(t - 10).2, spice_tokens(t - 10).3),
        5 <= t < 10 ==> spice_tokens(t) == (0int, 1int, spice_tokens(t - 5).2, spice_tokens(t - 5).3)
            && spice_tokens(t - 5).0 == 0 && spice_tokens(t - 5).1 == 0,
        2 <= t < 5 ==> spice_tokens(t) == (0int, 0int, spice_tokens(t - 2).2 + 1, spice_tokens(t - 2).3)
            && spice_tokens(t - 2).0 == 0 && spice_tokens(t - 2).1 == 0,
        t == 1 ==> spice_tokens(t) == (0int, 0int, 0int, 1int),
{
}

proof fn lemma_spice_tokens_sum(t: int)
    requires
        t > 0,
    ensures
        10 * spice_tokens(t).0 + 5 * spice_tokens(t).1 + 2 * spice_tokens(t).2 + spice_tokens(t).3 == t,
        spice_tokens(t).0 >= 0,
        0 <= spice_tokens(t).1 <= 1,
        0 <= spice_tokens(t).2 <= 2,
        0 <= spice_tokens(t).3 <= 1,
{
}

/// No split of a pile into tokens of 10, 5, 2 and 1 uses fewer tokens than
/// the greedy one.
pub proof fn law_greedy_split_is_smallest(total: int, tens: int, fives: int, twos: int, ones: int)
    requires
        total > 0,
        tens >= 0,
        fives >= 0,
        twos >= 0,
        ones >= 0,
        10 * tens + 5 * fives + 2 * twos + ones == total,
    ensures
        spice_tokens(total).0 + spice_tokens(total).1 + spice_tokens(total).2 + spice_tokens(total).3 <= tens
            + fives + twos + ones,
{
    lemma_spice_tokens_sum(total);
}

/// Splits `total` spice into `(tens, fives, twos, ones)` tokens, greedily from
/// the largest token down.
pub fn divide_spice(total: i32) -> (r: (i32, i32, i32, i32))
    ensures
        (r.0 as int, r.1 as int, r.2 as int, r.3 as int) == spice_tokens(total as int),
        total > 0 ==> 10 * r.0 + 5 * r.1 + 2 * r.2 + r.3 == total,
        r.1 <= 1 && r.2 <= 2 && r.3 <= 1,
        total <= 0 ==> r == (0i32, 0i32, 0i32, 0i32),
{
    let mut total = total;
    let ghost start = total as int;
    let (mut tens, mut fives, mut twos, mut ones): (i32, i32, i32, i32) = (0, 0, 0, 0);
    proof {
        if start > 0 {
            lemma_spice_tokens_sum(start);
        }
    }
    while total > 0
        invariant
            0 <= tens && 0 <= fives && 0 <= twos && 0 <= ones,
            start > 0 ==> 10 * spice_tokens(start).0 <= start,
            start > 0 ==> 0 <= spice_tokens(start).1 <= 1 && 0 <= spice_tokens(start).2 <= 2
                && 0 <= spice_tokens(start).3 <= 1,
            total <= start,
            start <= i32::MAX,
            total > 0 ==> spice_tokens(start) == (
                tens + spice_tokens(total as int).0,
                fives + spice_tokens(total as int).1,
                twos + spice_tokens(total as int).2,
                ones + spice_tokens(total as int).3,
            ),
            total <= 0 ==> spice_tokens(start) == (tens as int, fives as int, twos as int, ones as int),
        decreases total,
    {
        proof {
            lemma_spice_tokens_step(total as int);
            lemma_spice_tokens_sum(total as int);
        }
        if total == 1 {
            total = total - 1;
            ones = ones + 1;
        } else if total <= 4 {
            total = total - 2;
            twos = twos + 1;
        } else if total <= 9 {
            total = total - 5;
            fives = fives + 1;
        } else {
            total = total - 10;
            tens = tens + 1;
        }
        proof {
            if total > 0 {
                lemma_spice_tokens_sum(total as int);
            }
        }
    }
    proof {
        if start > 0 {
            lemma_spice_tokens_sum(start);
        }
    }
    (tens, fives, twos, ones)
}

} // verus!
