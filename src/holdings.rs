//! Facts about one issuer's list of holdings: holders are unique, a holder
//! missing from the list holds zero.

use vstd::prelude::*;
use crate::address::{addr_less, addr_lt, lemma_addr_order};
use crate::fees::sum_amounts;
use crate::key_holder::KeyHolder;

verus! {

/// No holder appears twice.
pub open spec fn unique_holders(hs: Seq<KeyHolder>) -> bool {
    forall|a: int, b: int|
        0 <= a < hs.len() && 0 <= b < hs.len() && #[trigger] hs[a].holder_addr@
            == #[trigger] hs[b].holder_addr@ ==> a == b
}

/// Records are in strictly ascending order of address.
pub open spec fn holders_sorted(hs: Seq<KeyHolder>) -> bool {
    forall|a: int, b: int|
        0 <= a < b < hs.len() ==> addr_lt(#[trigger] hs[a].holder_addr@, #[trigger] hs[b].holder_addr@)
}

/// A sorted list names no holder twice.
pub proof fn lemma_sorted_unique(hs: Seq<KeyHolder>)
    requires
        holders_sorted(hs),
    ensures
        unique_holders(hs),
{
    assert forall|a: int, b: int|
        0 <= a < hs.len() && 0 <= b < hs.len() && #[trigger] hs[a].holder_addr@
            == #[trigger] hs[b].holder_addr@ implies a == b by {
        lemma_addr_order(hs[a].holder_addr@, hs[b].holder_addr@, hs[b].holder_addr@);
        if a < b {
            assert(addr_lt(hs[a].holder_addr@, hs[b].holder_addr@));
        } else if b < a {
            assert(addr_lt(hs[b].holder_addr@, hs[a].holder_addr@));
        }
    }
}

pub open spec fn holds_in(hs: Seq<KeyHolder>, holder: Seq<char>) -> bool {
    exists|j: int| 0 <= j < hs.len() && #[trigger] hs[j].holder_addr@ == holder
}

/// What `holder` has in the list; zero when it has no record.
pub open spec fn amount_in(hs: Seq<KeyHolder>, holder: Seq<char>) -> nat {
    if holds_in(hs, holder) {
        hs[choose|j: int| 0 <= j < hs.len() && #[trigger] hs[j].holder_addr@ == holder].amount as nat
    } else {
        0
    }
}

pub proof fn lemma_amount_in_at(hs: Seq<KeyHolder>, j: int)
    requires
        unique_holders(hs),
        0 <= j < hs.len(),
    ensures
        holds_in(hs, hs[j].holder_addr@),
        amount_in(hs, hs[j].holder_addr@) == hs[j].amount,
{
    let x = hs[j].holder_addr@;
    assert(hs[j].holder_addr@ == x);
    let k = choose|k: int| 0 <= k < hs.len() && #[trigger] hs[k].holder_addr@ == x;
    assert(hs[k].holder_addr@ == hs[j].holder_addr@);
}

pub proof fn lemma_sum_update(hs: Seq<KeyHolder>, j: int, h: KeyHolder)
    requires
        0 <= j < hs.len(),
    ensures
        sum_amounts(hs.update(j, h)) + hs[j].amount == sum_amounts(hs) + h.amount,
    decreases hs.len(),
{
    let n = hs.update(j, h);
    if j < hs.len() - 1 {
        lemma_sum_update(hs.drop_last(), j, h);
        assert(n.drop_last() =~= hs.drop_last().update(j, h));
    } else {
        assert(n.drop_last() =~= hs.drop_last());
    }
}

/// Changing the amount of the record at `j` changes what its holder has and
/// nothing else.
pub proof fn lemma_amount_in_update(hs: Seq<KeyHolder>, j: int, h: KeyHolder, x: Seq<char>)
    requires
        unique_holders(hs),
        0 <= j < hs.len(),
        h.holder_addr@ == hs[j].holder_addr@,
    ensures
        unique_holders(hs.update(j, h)),
        holders_sorted(hs) ==> holders_sorted(hs.update(j, h)),
        holds_in(hs.update(j, h), x) == holds_in(hs, x),
        amount_in(hs.update(j, h), x) == (if x == hs[j].holder_addr@ {
            h.amount as nat
        } else {
            amount_in(hs, x)
        }),
{
    let n = hs.update(j, h);
    if holders_sorted(hs) {
        assert forall|a: int, b: int| 0 <= a < b < n.len() implies addr_lt(
            #[trigger] n[a].holder_addr@,
            #[trigger] n[b].holder_addr@,
        ) by {
            assert(hs[a].holder_addr@ == n[a].holder_addr@);
            assert(hs[b].holder_addr@ == n[b].holder_addr@);
        }
    }
    assert forall|a: int, b: int|
        0 <= a < n.len() && 0 <= b < n.len() && #[trigger] n[a].holder_addr@
            == #[trigger] n[b].holder_addr@ implies a == b by {
        assert(hs[a].holder_addr@ == n[a].holder_addr@);
        assert(hs[b].holder_addr@ == n[b].holder_addr@);
    }
    if x == hs[j].holder_addr@ {
        lemma_amount_in_at(n, j);
    } else if holds_in(hs, x) {
        let k = choose|k: int| 0 <= k < hs.len() && #[trigger] hs[k].holder_addr@ == x;
        lemma_amount_in_at(hs, k);
        lemma_amount_in_at(n, k);
    } else {
        assert forall|k: int| 0 <= k < n.len() implies #[trigger] n[k].holder_addr@ != x by {
            assert(hs[k].holder_addr@ != x);
        }
    }
}

/// The index of `holder`'s record, if it has one.
pub fn find_holder(hs: &Vec<KeyHolder>, holder: &String) -> (r: Option<usize>)
    ensures
        match r {
            Some(j) => j < hs@.len() && hs@[j as int].holder_addr@ == holder@,
            None => !holds_in(hs@, holder@),
        },
{
    let mut j: usize = 0;
    while j < hs.len()
        invariant
            j <= hs@.len(),
            forall|k: int| 0 <= k < j ==> #[trigger] hs@[k].holder_addr@ != holder@,
        decreases hs@.len() - j,
    {
        if hs[j].holder_addr == *holder {
            return Some(j);
        }
        j = j + 1;
    }
    None
}

/// Where a record for `holder`, who has none, goes to keep `hs` sorted.
pub fn insert_position(hs: &Vec<KeyHolder>, holder: &String) -> (p: usize)
    requires
        holders_sorted(hs@),
        !holds_in(hs@, holder@),
    ensures
        p <= hs@.len(),
        forall|k: int| 0 <= k < p ==> addr_lt(#[trigger] hs@[k].holder_addr@, holder@),
        forall|k: int| p <= k < hs@.len() ==> addr_lt(holder@, #[trigger] hs@[k].holder_addr@),
{
    let mut p: usize = 0;
    while p < hs.len()
        invariant
            p <= hs@.len(),
            forall|k: int| 0 <= k < p ==> addr_lt(#[trigger] hs@[k].holder_addr@, holder@),
        ensures
            p <= hs@.len(),
            forall|k: int| 0 <= k < p ==> addr_lt(#[trigger] hs@[k].holder_addr@, holder@),
            p < hs@.len() ==> !addr_lt(hs@[p as int].holder_addr@, holder@),
        decreases hs@.len() - p,
    {
        if !addr_less(&hs[p].holder_addr, holder) {
            break;
        }
        p = p + 1;
    }
    proof {
        if p < hs@.len() {
            let x = hs@[p as int].holder_addr@;
            assert(x != holder@);
            lemma_addr_order(x, holder@, x);
            assert forall|k: int| p <= k < hs@.len() implies addr_lt(holder@, #[trigger] hs@[k].holder_addr@) by {
                if k > p {
                    assert(addr_lt(x, hs@[k].holder_addr@));
                    lemma_addr_order(holder@, x, hs@[k].holder_addr@);
                }
            }
        }
    }
    p
}

pub proof fn lemma_sum_insert(hs: Seq<KeyHolder>, p: int, h: KeyHolder)
    requires
        0 <= p <= hs.len(),
    ensures
        sum_amounts(hs.insert(p, h)) == sum_amounts(hs) + h.amount,
    decreases hs.len(),
{
    let n = hs.insert(p, h);
    if p == hs.len() {
        assert(n.drop_last() =~= hs);
    } else {
        lemma_sum_insert(hs.drop_last(), p, h);
        assert(n.drop_last() =~= hs.drop_last().insert(p, h));
    }
}

/// Inserting a record for a new holder where `insert_position` says keeps the
/// list sorted, gives that holder its amount and changes nothing else.
pub proof fn lemma_amount_in_insert(hs: Seq<KeyHolder>, p: int, h: KeyHolder, x: Seq<char>)
    requires
        holders_sorted(hs),
        0 <= p <= hs.len(),
        forall|k: int| 0 <= k < p ==> addr_lt(#[trigger] hs[k].holder_addr@, h.holder_addr@),
        forall|k: int| p <= k < hs.len() ==> addr_lt(h.holder_addr@, #[trigger] hs[k].holder_addr@),
    ensures
        holders_sorted(hs.insert(p, h)),
        unique_holders(hs.insert(p, h)),
        holds_in(hs.insert(p, h), x) == (holds_in(hs, x) || x == h.holder_addr@),
        sum_amounts(hs.insert(p, h)) == sum_amounts(hs) + h.amount,
        amount_in(hs.insert(p, h), x) == (if x == h.holder_addr@ {
            h.amount as nat
        } else {
            amount_in(hs, x)
        }),
{
    let n = hs.insert(p, h);
    lemma_sum_insert(hs, p, h);
    assert forall|a: int, b: int| 0 <= a < b < n.len() implies addr_lt(
        #[trigger] n[a].holder_addr@,
        #[trigger] n[b].holder_addr@,
    ) by {
        if a < p && b < p {
            assert(n[a] == hs[a] && n[b] == hs[b]);
        } else if a < p && b == p {
            assert(n[a] == hs[a]);
        } else if a < p {
            assert(n[a] == hs[a] && n[b] == hs[b - 1]);
        } else if a == p {
            assert(n[b] == hs[b - 1]);
        } else {
            assert(n[a] == hs[a - 1] && n[b] == hs[b - 1]);
        }
    }
    lemma_sorted_unique(hs);
    lemma_sorted_unique(n);
    assert(!holds_in(hs, h.holder_addr@)) by {
        if holds_in(hs, h.holder_addr@) {
            let k = choose|k: int| 0 <= k < hs.len() && #[trigger] hs[k].holder_addr@ == h.holder_addr@;
            lemma_addr_order(h.holder_addr@, h.holder_addr@, h.holder_addr@);
        }
    }
    if x == h.holder_addr@ {
        lemma_amount_in_at(n, p);
    } else if holds_in(hs, x) {
        let k = choose|k: int| 0 <= k < hs.len() && #[trigger] hs[k].holder_addr@ == x;
        lemma_amount_in_at(hs, k);
        if k < p {
            assert(n[k] == hs[k]);
            lemma_amount_in_at(n, k);
        } else {
            assert(n[k + 1] == hs[k]);
            lemma_amount_in_at(n, k + 1);
        }
    } else {
        assert forall|k: int| 0 <= k < n.len() implies #[trigger] n[k].holder_addr@ != x by {
            if k < p {
                assert(n[k] == hs[k]);
                assert(hs[k].holder_addr@ != x);
            } else if k > p {
                assert(n[k] == hs[k - 1]);
                assert(hs[k - 1].holder_addr@ != x);
            }
        }
    }
}

} // verus!
