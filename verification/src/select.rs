//! Which notes a transaction spends: the largest ones, as far as they are
//! needed, and then smaller ones in their place, as far as the amount
//! allows.

use vstd::prelude::*;

verus! {

/// Whether the note at `a` comes before the note at `b`: the larger value
/// first, and of two equal values the one that was listed first.
pub open spec fn precedes(values: Seq<u64>, a: int, b: int) -> bool {
    values[a] > values[b] || (values[a] == values[b] && a < b)
}

/// Whether `order` lists positions of `values`, each before all that it
/// precedes.
pub open spec fn is_descending_order(values: Seq<u64>, order: Seq<usize>) -> bool {
    &&& forall|i: int| 0 <= i < order.len() ==> 0 <= #[trigger] order[i] < values.len()
    &&& forall|i: int, j: int|
        0 <= i < j < order.len() ==> precedes(
            values,
            (#[trigger] order[i]) as int,
            (#[trigger] order[j]) as int,
        )
}

/// Where the position `k` goes into an order of earlier positions: behind
/// the last one whose value is not smaller.
pub open spec fn insert_at(values: Seq<u64>, order: Seq<usize>, k: usize) -> int
    decreases order.len(),
{
    if order.len() == 0 {
        0
    } else if values[order.last() as int] >= values[k as int] {
        order.len() as int
    } else {
        insert_at(values, order.drop_last(), k)
    }
}

/// The first `n` positions, the larger value first, and of two equal
/// values the one that was listed first.
pub open spec fn sort_spec(values: Seq<u64>, n: nat) -> Seq<usize>
    decreases n,
{
    if n == 0 {
        Seq::empty()
    } else {
        let order = sort_spec(values, (n - 1) as nat);
        order.insert(insert_at(values, order, (n - 1) as usize), (n - 1) as usize)
    }
}

/// The positions of all values, the larger value first, and of two equal
/// values the one that was listed first.
pub fn sort_by_value(values: &Vec<u64>) -> (order: Vec<usize>)
    ensures
        order@ == sort_spec(values@, values@.len()),
        order@.len() == values@.len(),
        is_descending_order(values@, order@),
{
    let mut order: Vec<usize> = Vec::new();
    let mut k: usize = 0;
    while k < values.len()
        invariant
            k <= values@.len(),
            order@ == sort_spec(values@, k as nat),
            order@.len() == k,
            is_descending_order(values@, order@),
            forall|i: int| 0 <= i < order@.len() ==> #[trigger] order@[i] < k,
        decreases values@.len() - k,
    {
        let mut j: usize = order.len();
        assert(order@.subrange(0, order@.len() as int) =~= order@);
        while j > 0 && values[order[j - 1]] < values[k]
            invariant
                j <= order@.len(),
                k < values@.len(),
                forall|i: int| 0 <= i < order@.len() ==> 0 <= #[trigger] order@[i] < values@.len(),
                insert_at(values@, order@, k) == insert_at(values@, order@.subrange(0, j as int), k),
                forall|i: int| j <= i < order@.len() ==> values@[order@[i] as int] < values@[k as int],
            decreases j,
        {
            assert(order@.subrange(0, j as int).drop_last() =~= order@.subrange(0, j - 1));
            j -= 1;
        }
        proof {
            assert(order@.subrange(0, order@.len() as int) =~= order@);
            if j > 0 {
                assert(order@.subrange(0, j as int).last() == order@[j - 1]);
            }
        }
        let ghost before = order@;
        order.insert(j, k);
        proof {
            assert forall|a: int, b: int| 0 <= a < b < order@.len() implies precedes(
                values@,
                (#[trigger] order@[a]) as int,
                (#[trigger] order@[b]) as int,
            ) by {
                if b < j {
                    assert(order@[a] == before[a] && order@[b] == before[b]);
                } else if b == j {
                    assert(order@[a] == before[a]);
                    assert(precedes(values@, before[a] as int, before[j - 1] as int) || a == j - 1);
                } else if a < j {
                    assert(order@[a] == before[a] && order@[b] == before[b - 1]);
                } else if a == j {
                    assert(order@[b] == before[b - 1]);
                } else {
                    assert(order@[a] == before[a - 1] && order@[b] == before[b - 1]);
                }
            }
        }
        k += 1;
    }
    order
}

/// The amount that a selection of notes gives, and how many of the
/// largest notes were replaced by the smallest: the notes are `sorted`,
/// the larger first, `chosen` is how many a transaction can spend, and
/// `swaps` notes were replaced so far. The next replacement puts the
/// smallest note not yet used in the place of the smallest of the largest,
/// and is made where the amount is still covered.
pub open spec fn greedy(sorted: Seq<u64>, chosen: nat, spending: int, amount: int, swaps: nat) -> (
    nat,
    int,
)
    decreases chosen - swaps,
{
    if swaps >= chosen || sorted.len() <= chosen {
        (swaps, spending)
    } else {
        let i1 = chosen - 1 - swaps;
        let i2 = sorted.len() - 1 - swaps;
        let less = sorted[i1] - sorted[i2];
        if spending - less < amount {
            (swaps, spending)
        } else {
            greedy(sorted, chosen, spending - less, amount, swaps + 1)
        }
    }
}

/// The sum of the first `k` values.
pub open spec fn prefix_sum(values: Seq<u64>, k: nat) -> int
    decreases k,
{
    if k == 0 {
        0
    } else {
        prefix_sum(values, (k - 1) as nat) + values[k - 1]
    }
}

/// The smaller of two numbers.
pub open spec fn min_nat(a: nat, b: nat) -> nat {
    if a < b {
        a
    } else {
        b
    }
}

/// The places, in a list of notes sorted by value, of the notes to spend,
/// and what they give together with the delta. `None` where the largest
/// `chosen` notes and the delta do not cover the amount.
pub open spec fn selection_spec(sorted: Seq<u64>, chosen: nat, amount: u64, delta: i64) -> Option<
    (Seq<usize>, int),
> {
    let count = min_nat(chosen, sorted.len());
    let spending = prefix_sum(sorted, count) + delta;
    if spending < amount {
        None
    } else {
        let (swaps, rest) = greedy(sorted, chosen, spending, amount as int, 0);
        Some(
            (
                Seq::new(
                    count,
                    |j: int|
                        if j >= chosen - swaps {
                            (j + sorted.len() - chosen) as usize
                        } else {
                            j as usize
                        },
                ),
                rest,
            ),
        )
    }
}

/// The sum of the values at the first `k` places of a selection.
pub open spec fn selected_sum(sorted: Seq<u64>, places: Seq<usize>, k: nat) -> int
    decreases k,
{
    if k == 0 {
        0
    } else {
        selected_sum(sorted, places, (k - 1) as nat) + sorted[places[k - 1] as int]
    }
}

/// Putting another place into a selection changes its sum by the
/// difference of the two values.
pub proof fn lemma_selected_sum_update(
    sorted: Seq<u64>,
    places: Seq<usize>,
    at: int,
    place: usize,
    k: nat,
)
    requires
        0 <= at < places.len(),
        k <= places.len(),
    ensures
        selected_sum(sorted, places.update(at, place), k) == selected_sum(sorted, places, k) + if at
            < k {
            sorted[place as int] - sorted[places[at] as int]
        } else {
            0
        },
    decreases k,
{
    if k > 0 {
        lemma_selected_sum_update(sorted, places, at, place, (k - 1) as nat);
    }
}

/// The sum of the first places is the sum of the first values.
pub proof fn lemma_selected_sum_identity(sorted: Seq<u64>, places: Seq<usize>, k: nat)
    requires
        k <= places.len(),
        forall|i: int| 0 <= i < k ==> places[i] == i,
    ensures
        selected_sum(sorted, places, k) == prefix_sum(sorted, k),
    decreases k,
{
    if k > 0 {
        lemma_selected_sum_identity(sorted, places, (k - 1) as nat);
    }
}

/// Chooses the notes to spend from a list sorted by value, the larger
/// first: at most `chosen` of them, and fewer than 2^62, so that the sum of
/// their values fits the 128 bits it is held in.
pub fn select(sorted: &Vec<u64>, chosen: usize, amount: u64, delta: i64) -> (r: Option<
    (Vec<usize>, i128),
>)
    requires
        chosen < 0x4000_0000_0000_0000,
        forall|i: int, j: int| 0 <= i <= j < sorted@.len() ==> sorted@[i] >= sorted@[j],
    ensures
        selection_spec(sorted@, chosen as nat, amount, delta) == match r {
            Some(s) => Some((s.0@, s.1 as int)),
            None => None,
        },
        r matches Some(s) ==> s.1 >= amount && s.0@.len() == min_nat(chosen as nat, sorted@.len())
            && (forall|j: int| 0 <= j < s.0@.len() ==> #[trigger] s.0@[j] < sorted@.len()) && s.1
            == selected_sum(sorted@, s.0@, s.0@.len()) + delta,
{
    let len: usize = sorted.len();
    let count: usize = if chosen < len { chosen } else { len };
    let mut total: i128 = 0;
    let mut k: usize = 0;
    while k < count
        invariant
            k <= count <= len,
            count < 0x4000_0000_0000_0000,
            len == sorted@.len(),
            total == prefix_sum(sorted@, k as nat),
            0 <= total <= k * 0xffff_ffff_ffff_ffff,
        decreases count - k,
    {
        total = total + sorted[k] as i128;
        k += 1;
    }
    let mut spending: i128 = total + delta as i128;
    if spending < amount as i128 {
        return None;
    }
    let mut indexes: Vec<usize> = Vec::new();
    let mut j: usize = 0;
    while j < count
        invariant
            j <= count,
            indexes@.len() == j,
            forall|i: int| 0 <= i < j ==> #[trigger] indexes@[i] == i,
        decreases count - j,
    {
        indexes.push(j);
        j += 1;
    }
    let ghost first = spending as int;
    proof {
        lemma_selected_sum_identity(sorted@, indexes@, count as nat);
    }
    let mut swaps: usize = 0;
    if len > chosen {
        while swaps < chosen
            invariant
                swaps <= chosen,
                chosen < len,
                count == chosen,
                len == sorted@.len(),
                indexes@.len() == chosen,
                amount <= spending <= 0x4000_0000_0000_0000 * 0xffff_ffff_ffff_ffff
                    + 0x8000_0000_0000_0000,
                spending == selected_sum(sorted@, indexes@, chosen as nat) + delta,
                forall|i: int, j: int| 0 <= i <= j < sorted@.len() ==> sorted@[i] >= sorted@[j],
                greedy(sorted@, chosen as nat, first, amount as int, 0) == greedy(
                    sorted@,
                    chosen as nat,
                    spending as int,
                    amount as int,
                    swaps as nat,
                ),
                forall|i: int|
                    0 <= i < chosen ==> #[trigger] indexes@[i] == if i >= chosen - swaps {
                        i + len - chosen
                    } else {
                        i
                    },
            ensures
                greedy(sorted@, chosen as nat, spending as int, amount as int, swaps as nat) == (
                    swaps as nat,
                    spending as int,
                ),
            decreases chosen - swaps,
        {
            let i1: usize = chosen - swaps - 1;
            let i2: usize = len - swaps - 1;
            let less: u64 = sorted[i1] - sorted[i2];
            if spending - (less as i128) < amount as i128 {
                break ;
            }
            spending = spending - less as i128;
            proof {
                lemma_selected_sum_update(sorted@, indexes@, i1 as int, i2, chosen as nat);
            }
            indexes.set(i1, i2);
            swaps += 1;
        }
    }
    proof {
        let g = greedy(sorted@, chosen as nat, first, amount as int, 0);
        assert(g == (swaps as nat, spending as int));
        let expected = selection_spec(sorted@, chosen as nat, amount, delta)->0;
        assert(indexes@ =~= expected.0);
    }
    Some((indexes, spending))
}

} // verus!
