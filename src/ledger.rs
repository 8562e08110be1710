//! The holdings ledger: each issuer's supply and the list of its holders.
//! Holders of an issuer are kept in ascending address order, which is the
//! order fees are paid out in. A holder who sells out keeps a record at zero.

use vstd::prelude::*;
use crate::error::ContractError;
use crate::fees::{distribute_fee, holder_payouts, sum_amounts, Transfer};
use crate::holdings::{
    amount_in, find_holder, holders_sorted, holds_in, insert_position, lemma_amount_in_at,
    lemma_amount_in_insert, lemma_amount_in_update, lemma_sum_update, unique_holders,
};
use crate::key_holder::KeyHolder;

verus! {

struct KeyBook {
    issuer_addr: String,
    supply: u128,
    holders: Vec<KeyHolder>,
}

/// Supplies and holdings of every enabled membership.
pub struct KeyLedger {
    books: Vec<KeyBook>,
}

spec fn book_wf(b: KeyBook) -> bool {
    &&& unique_holders(b.holders@)
    &&& holders_sorted(b.holders@)
    &&& sum_amounts(b.holders@) == b.supply
    &&& b.supply >= 1
}

impl KeyLedger {
    spec fn unique_issuers(self) -> bool {
        forall|a: int, b: int|
            0 <= a < self.books.len() && 0 <= b < self.books.len()
                && #[trigger] self.books[a].issuer_addr@ == #[trigger] self.books[b].issuer_addr@
                ==> a == b
    }

    /// Issuers are unique, holders are unique within an issuer, an issuer's
    /// holdings add up to its supply and its supply is at least one.
    pub closed spec fn wf(self) -> bool {
        &&& self.unique_issuers()
        &&& forall|a: int| 0 <= a < self.books.len() ==> book_wf(#[trigger] self.books[a])
    }

    /// `issuer` has a membership enabled.
    pub closed spec fn is_issuer(self, issuer: Seq<char>) -> bool {
        exists|i: int| 0 <= i < self.books.len() && #[trigger] self.books[i].issuer_addr@ == issuer
    }

    spec fn index_of(self, issuer: Seq<char>) -> int {
        choose|i: int| 0 <= i < self.books.len() && #[trigger] self.books[i].issuer_addr@ == issuer
    }

    /// Keys of `issuer` outstanding; zero for an address with no membership.
    pub closed spec fn supply_of(self, issuer: Seq<char>) -> nat {
        if self.is_issuer(issuer) {
            self.books[self.index_of(issuer)].supply as nat
        } else {
            0
        }
    }

    /// The holder records of `issuer`, in ascending address order.
    pub closed spec fn holders_of(self, issuer: Seq<char>) -> Seq<KeyHolder> {
        if self.is_issuer(issuer) {
            self.books[self.index_of(issuer)].holders@
        } else {
            Seq::empty()
        }
    }

    /// Keys of `issuer` that `holder` has; zero without a record.
    pub open spec fn holding_of(self, holder: Seq<char>, issuer: Seq<char>) -> nat {
        amount_in(self.holders_of(issuer), holder)
    }

    proof fn lemma_book_at(self, i: int)
        requires
            self.unique_issuers(),
            0 <= i < self.books.len(),
        ensures
            self.is_issuer(self.books[i].issuer_addr@),
            self.index_of(self.books[i].issuer_addr@) == i,
    {
        let x = self.books[i].issuer_addr@;
        assert(self.books[i].issuer_addr@ == x);
        let k = self.index_of(x);
        assert(self.books[k].issuer_addr@ == self.books[i].issuer_addr@);
    }

    /// Replacing book `i` by one of the same issuer changes that issuer alone.
    proof fn lemma_replace_book(self, new: KeyLedger, i: int, x: Seq<char>)
        requires
            self.unique_issuers(),
            0 <= i < self.books.len(),
            new.books@.len() == self.books@.len(),
            new.books[i].issuer_addr@ == self.books[i].issuer_addr@,
            forall|k: int| 0 <= k < self.books.len() && k != i ==> new.books[k] == self.books[k],
        ensures
            new.unique_issuers(),
            new.is_issuer(x) == self.is_issuer(x),
            x == self.books[i].issuer_addr@ ==> new.supply_of(x) == new.books[i].supply
                && new.holders_of(x) == new.books[i].holders@,
            x != self.books[i].issuer_addr@ ==> new.supply_of(x) == self.supply_of(x)
                && new.holders_of(x) == self.holders_of(x),
    {
        assert forall|a: int, b: int|
            0 <= a < new.books.len() && 0 <= b < new.books.len()
                && #[trigger] new.books[a].issuer_addr@ == #[trigger] new.books[b].issuer_addr@
                implies a == b by {
            assert(self.books[a].issuer_addr@ == new.books[a].issuer_addr@);
            assert(self.books[b].issuer_addr@ == new.books[b].issuer_addr@);
        }
        if x == self.books[i].issuer_addr@ {
            self.lemma_book_at(i);
            new.lemma_book_at(i);
        } else if self.is_issuer(x) {
            let k = self.index_of(x);
            self.lemma_book_at(k);
            new.lemma_book_at(k);
        } else {
            assert forall|k: int| 0 <= k < new.books.len() implies #[trigger] new.books[k].issuer_addr@
                != x by {
                assert(self.books[k].issuer_addr@ != x);
            }
        }
    }

    /// An empty ledger.
    pub fn new() -> (r: KeyLedger)
        ensures
            r.wf(),
            forall|x: Seq<char>| !r.is_issuer(x),
    {
        KeyLedger { books: Vec::new() }
    }

    fn find_issuer(&self, issuer: &String) -> (r: Option<usize>)
        requires
            self.wf(),
        ensures
            match r {
                Some(i) => i < self.books@.len() && self.books@[i as int].issuer_addr@ == issuer@
                    && self.is_issuer(issuer@) && self.index_of(issuer@) == i,
                None => !self.is_issuer(issuer@),
            },
    {
        let mut i: usize = 0;
        while i < self.books.len()
            invariant
                self.wf(),
                i <= self.books@.len(),
                forall|k: int| 0 <= k < i ==> #[trigger] self.books@[k].issuer_addr@ != issuer@,
            decreases self.books@.len() - i,
        {
            if self.books[i].issuer_addr == *issuer {
                proof {
                    self.lemma_book_at(i as int);
                }
                return Some(i);
            }
            i = i + 1;
        }
        None
    }

    /// Keys of `issuer` outstanding.
    pub fn supply(&self, issuer: &String) -> (r: Result<u128, ContractError>)
        requires
            self.wf(),
        ensures
            self.is_issuer(issuer@) ==> r is Ok && r->Ok_0 == self.supply_of(issuer@),
            !self.is_issuer(issuer@) ==> r == Err::<u128, ContractError>(ContractError::IssuerNotRegistered {}),
    {
        match self.find_issuer(issuer) {
            Some(i) => Ok(self.books[i].supply),
            None => Err(ContractError::IssuerNotRegistered {}),
        }
    }

    proof fn lemma_book_wf(self, issuer: Seq<char>)
        requires
            self.wf(),
            self.is_issuer(issuer),
        ensures
            0 <= self.index_of(issuer) < self.books.len(),
            self.books[self.index_of(issuer)].issuer_addr@ == issuer,
            unique_holders(self.holders_of(issuer)),
            holders_sorted(self.holders_of(issuer)),
            sum_amounts(self.holders_of(issuer)) == self.supply_of(issuer),
            self.supply_of(issuer) >= 1,
    {
        let i = self.index_of(issuer);
        assert(book_wf(self.books[i]));
    }

    /// Keys of `issuer` that `holder` has; zero without a record.
    pub fn holding(&self, holder: &String, issuer: &String) -> (r: u128)
        requires
            self.wf(),
        ensures
            r == self.holding_of(holder@, issuer@),
    {
        match self.find_issuer(issuer) {
            Some(i) => {
                proof {
                    self.lemma_book_wf(issuer@);
                }
                match find_holder(&self.books[i].holders, holder) {
                    Some(j) => {
                        proof {
                            lemma_amount_in_at(self.books[i as int].holders@, j as int);
                        }
                        self.books[i].holders[j].amount
                    },
                    None => 0,
                }
            },
            None => 0,
        }
    }

    /// Transfers of `pool` to the holders of `issuer`, in proportion to their
    /// keys out of `base`.
    pub fn member_fee_transfers(&self, issuer: &String, pool: u128, base: u128, denom: &String) -> (r: Vec<Transfer>)
        requires
            self.wf(),
            base >= self.supply_of(issuer@),
            base > 0,
        ensures
            r@ == holder_payouts(self.holders_of(issuer@), pool as nat, base as nat, *denom),
    {
        match self.find_issuer(issuer) {
            Some(i) => {
                proof {
                    self.lemma_book_wf(issuer@);
                    assert forall|k: int| 0 <= k < self.holders_of(issuer@).len() implies
                        self.holders_of(issuer@)[k].amount <= base by {
                        crate::fees::lemma_amount_within_sum(self.holders_of(issuer@), k);
                    }
                }
                distribute_fee(&self.books[i].holders, pool, base, denom)
            },
            None => Vec::new(),
        }
    }

    /// Enables the membership of `issuer`: one key, held by the issuer.
    pub fn enable_membership(&mut self, issuer: &String) -> (r: Result<(), ContractError>)
        requires
            old(self).wf(),
        ensures
            final(self).wf(),
            old(self).is_issuer(issuer@) ==> r == Err::<(), ContractError>(
                ContractError::MembershipAlreadyEnabled {},
            ) && *final(self) == *old(self),
            !old(self).is_issuer(issuer@) ==> r is Ok && final(self).is_issuer(issuer@)
                && final(self).supply_of(issuer@) == 1 && final(self).holders_of(issuer@).len() == 1
                && final(self).holding_of(issuer@, issuer@) == 1,
            forall|x: Seq<char>| x != issuer@ ==> final(self).is_issuer(x) == old(self).is_issuer(x)
                && final(self).supply_of(x) == old(self).supply_of(x)
                && final(self).holders_of(x) == old(self).holders_of(x),
    {
        if let Some(_) = self.find_issuer(issuer) {
            return Err(ContractError::MembershipAlreadyEnabled {});
        }
        let mut holders: Vec<KeyHolder> = Vec::new();
        holders.push(KeyHolder { holder_addr: issuer.clone(), amount: 1 });
        let book = KeyBook { issuer_addr: issuer.clone(), supply: 1, holders };
        let ghost prev = *self;
        self.books.push(book);
        proof {
            let n = prev.books.len() as int;
            let hs = self.books[n].holders@;
            assert(hs.len() == 1 && hs[0].amount == 1);
            assert(hs.drop_last() =~= Seq::<KeyHolder>::empty());
            assert(sum_amounts(hs.drop_last()) == 0);
            assert(sum_amounts(hs) == 1);
            assert(unique_holders(hs));
            assert(book_wf(self.books[n]));
            assert forall|a: int, b: int|
                0 <= a < self.books.len() && 0 <= b < self.books.len()
                    && #[trigger] self.books[a].issuer_addr@ == #[trigger] self.books[b].issuer_addr@
                    implies a == b by {
                if a < n {
                    assert(prev.books[a].issuer_addr@ == self.books[a].issuer_addr@);
                }
                if b < n {
                    assert(prev.books[b].issuer_addr@ == self.books[b].issuer_addr@);
                }
            }
            assert forall|a: int| 0 <= a < self.books.len() implies book_wf(#[trigger] self.books[a]) by {
                if a < n {
                    assert(self.books[a] == prev.books[a]);
                }
            }
            self.lemma_book_at(n);
            lemma_amount_in_at(hs, 0);
            assert forall|x: Seq<char>| x != issuer@ implies self.is_issuer(x) == prev.is_issuer(x)
                && self.supply_of(x) == prev.supply_of(x) && self.holders_of(x) == prev.holders_of(x) by {
                if prev.is_issuer(x) {
                    let k = prev.index_of(x);
                    prev.lemma_book_at(k);
                    assert(self.books[k] == prev.books[k]);
                    self.lemma_book_at(k);
                } else {
                    assert forall|k: int| 0 <= k < self.books.len() implies #[trigger] self.books[k].issuer_addr@
                        != x by {
                        if k < n {
                            assert(prev.books[k].issuer_addr@ != x);
                        }
                    }
                }
            }
        }
        Ok(())
    }

    /// Gives `holder` `amount` more keys of `issuer`, raising the supply by as
    /// much. A holder without a record gets one, in address order.
    pub fn add_keys(&mut self, holder: &String, issuer: &String, amount: u128)
        requires
            old(self).wf(),
            old(self).is_issuer(issuer@),
            old(self).supply_of(issuer@) + amount <= u128::MAX,
        ensures
            final(self).wf(),
            forall|x: Seq<char>| #[trigger] final(self).is_issuer(x) == old(self).is_issuer(x),
            forall|x: Seq<char>| x != issuer@ ==> #[trigger] final(self).supply_of(x) == old(self).supply_of(x)
                && final(self).holders_of(x) == old(self).holders_of(x),
            final(self).supply_of(issuer@) == old(self).supply_of(issuer@) + amount,
            forall|h: Seq<char>| #[trigger] final(self).holding_of(h, issuer@) == (if h == holder@ {
                old(self).holding_of(h, issuer@) + amount as nat
            } else {
                old(self).holding_of(h, issuer@)
            }),
            forall|h: Seq<char>| #[trigger] holds_in(final(self).holders_of(issuer@), h) == (holds_in(
                old(self).holders_of(issuer@),
                h,
            ) || h == holder@),
    {
        let ghost prev = *self;
        let i = self.find_issuer(issuer).unwrap();
        proof {
            prev.lemma_book_wf(issuer@);
        }
        let ghost hs = self.books[i as int].holders@;
        match find_holder(&self.books[i].holders, holder) {
            Some(j) => {
                proof {
                    crate::fees::lemma_amount_within_sum(hs, j as int);
                }
                let a = self.books[i].holders[j].amount;
                self.books[i].holders[j].amount = a + amount;
                proof {
                    let h = self.books[i as int].holders@[j as int];
                    assert(self.books[i as int].holders@ == hs.update(j as int, h));
                    lemma_sum_update(hs, j as int, h);
                    assert forall|x: Seq<char>|
                        #![trigger amount_in(self.books[i as int].holders@, x)]
                        #![trigger holds_in(self.books[i as int].holders@, x)]
                        amount_in(self.books[i as int].holders@, x) == (if x == holder@ {
                        amount_in(hs, x) + amount as nat
                    } else {
                        amount_in(hs, x)
                    }) && holds_in(self.books[i as int].holders@, x) == (holds_in(hs, x) || x == holder@) by {
                        lemma_amount_in_update(hs, j as int, h, x);
                        lemma_amount_in_at(hs, j as int);
                    }
                    lemma_amount_in_update(hs, j as int, h, holder@);
                }
            },
            None => {
                let h = KeyHolder { holder_addr: holder.clone(), amount };
                let p = insert_position(&self.books[i].holders, holder);
                self.books[i].holders.insert(p, h);
                proof {
                    assert(self.books[i as int].holders@ == hs.insert(p as int, h));
                    assert forall|x: Seq<char>|
                        #![trigger amount_in(self.books[i as int].holders@, x)]
                        #![trigger holds_in(self.books[i as int].holders@, x)]
                        amount_in(self.books[i as int].holders@, x) == (if x == holder@ {
                        amount_in(hs, x) + amount as nat
                    } else {
                        amount_in(hs, x)
                    }) && holds_in(self.books[i as int].holders@, x) == (holds_in(hs, x) || x == holder@) by {
                        lemma_amount_in_insert(hs, p as int, h, x);
                    }
                    lemma_amount_in_insert(hs, p as int, h, holder@);
                }
            },
        }
        let s = self.books[i].supply;
        self.books[i].supply = s + amount;
        proof {
            assert(book_wf(self.books[i as int]));
            assert forall|a: int| 0 <= a < self.books.len() implies book_wf(#[trigger] self.books[a]) by {
                if a != i {
                    assert(self.books[a] == prev.books[a]);
                }
            }
            assert forall|x: Seq<char>| #[trigger] self.is_issuer(x) == prev.is_issuer(x)
                && (x != issuer@ ==> self.supply_of(x) == prev.supply_of(x)
                && self.holders_of(x) == prev.holders_of(x)) by {
                prev.lemma_replace_book(*self, i as int, x);
            }
            prev.lemma_replace_book(*self, i as int, issuer@);
        }
    }

    /// Takes `amount` keys of `issuer` from `holder`, lowering the supply by as
    /// much. The holder's record stays, possibly at zero.
    pub fn remove_keys(&mut self, holder: &String, issuer: &String, amount: u128)
        requires
            old(self).wf(),
            old(self).is_issuer(issuer@),
            1 <= amount <= old(self).holding_of(holder@, issuer@),
            amount < old(self).supply_of(issuer@),
        ensures
            final(self).wf(),
            forall|x: Seq<char>| #[trigger] final(self).is_issuer(x) == old(self).is_issuer(x),
            forall|x: Seq<char>| x != issuer@ ==> #[trigger] final(self).supply_of(x) == old(self).supply_of(x)
                && final(self).holders_of(x) == old(self).holders_of(x),
            final(self).supply_of(issuer@) == old(self).supply_of(issuer@) - amount,
            forall|h: Seq<char>| #[trigger] final(self).holding_of(h, issuer@) == (if h == holder@ {
                (old(self).holding_of(h, issuer@) - amount) as nat
            } else {
                old(self).holding_of(h, issuer@)
            }),
            forall|h: Seq<char>| #[trigger] holds_in(final(self).holders_of(issuer@), h) == holds_in(
                old(self).holders_of(issuer@),
                h,
            ),
    {
        let ghost prev = *self;
        let i = self.find_issuer(issuer).unwrap();
        proof {
            prev.lemma_book_wf(issuer@);
        }
        let ghost hs = self.books[i as int].holders@;
        let j = find_holder(&self.books[i].holders, holder).unwrap();
        proof {
            lemma_amount_in_at(hs, j as int);
        }
        let a = self.books[i].holders[j].amount;
        self.books[i].holders[j].amount = a - amount;
        proof {
            let h = self.books[i as int].holders@[j as int];
            assert(self.books[i as int].holders@ == hs.update(j as int, h));
            lemma_sum_update(hs, j as int, h);
            assert forall|x: Seq<char>|
                        #![trigger amount_in(self.books[i as int].holders@, x)]
                        #![trigger holds_in(self.books[i as int].holders@, x)]
                        amount_in(self.books[i as int].holders@, x) == (if x == holder@ {
                (amount_in(hs, x) - amount) as nat
            } else {
                amount_in(hs, x)
            }) && holds_in(self.books[i as int].holders@, x) == holds_in(hs, x) by {
                lemma_amount_in_update(hs, j as int, h, x);
            }
            lemma_amount_in_update(hs, j as int, h, holder@);
        }
        let s = self.books[i].supply;
        self.books[i].supply = s - amount;
        proof {
            assert(book_wf(self.books[i as int]));
            assert forall|a: int| 0 <= a < self.books.len() implies book_wf(#[trigger] self.books[a]) by {
                if a != i {
                    assert(self.books[a] == prev.books[a]);
                }
            }
            assert forall|x: Seq<char>| #[trigger] self.is_issuer(x) == prev.is_issuer(x)
                && (x != issuer@ ==> self.supply_of(x) == prev.supply_of(x)
                && self.holders_of(x) == prev.holders_of(x)) by {
                prev.lemma_replace_book(*self, i as int, x);
            }
            prev.lemma_replace_book(*self, i as int, issuer@);
        }
    }

    /// The holder records of `issuer`, in ascending address order; empty
    /// for an address with no membership.
    pub fn holders(&self, issuer: &String) -> (r: Vec<KeyHolder>)
        requires
            self.wf(),
        ensures
            r@ == self.holders_of(issuer@),
    {
        let mut out: Vec<KeyHolder> = Vec::new();
        match self.find_issuer(issuer) {
            Some(i) => {
                let hs = &self.books[i].holders;
                let mut j: usize = 0;
                while j < hs.len()
                    invariant
                        j <= hs@.len(),
                        out@ =~= hs@.subrange(0, j as int),
                    decreases hs@.len() - j,
                {
                    out.push(KeyHolder { holder_addr: hs[j].holder_addr.clone(), amount: hs[j].amount });
                    j = j + 1;
                }
                proof {
                    assert(out@ =~= hs@);
                }
            },
            None => {},
        }
        out
    }
}

/// Supply conservation and minimum supply: in every well-formed ledger, which
/// every operation of the ledger keeps, an issuer's supply is at least one and
/// equals the sum of its holders' keys. The records list each holder once, in
/// ascending address order,
/// each record holds what its holder has, and a holder without a record has
/// nothing.
pub proof fn lemma_supply_is_sum_of_holdings(ledger: KeyLedger, issuer: Seq<char>)
    requires
        ledger.wf(),
        ledger.is_issuer(issuer),
    ensures
        sum_amounts(ledger.holders_of(issuer)) == ledger.supply_of(issuer),
        ledger.supply_of(issuer) >= 1,
        unique_holders(ledger.holders_of(issuer)),
        holders_sorted(ledger.holders_of(issuer)),
        forall|j: int| 0 <= j < ledger.holders_of(issuer).len() ==> ledger.holding_of(
            #[trigger] ledger.holders_of(issuer)[j].holder_addr@,
            issuer,
        ) == ledger.holders_of(issuer)[j].amount,
        forall|h: Seq<char>| !holds_in(ledger.holders_of(issuer), h) ==> #[trigger] ledger.holding_of(h, issuer) == 0,
        forall|h: Seq<char>| #[trigger] ledger.holding_of(h, issuer) <= ledger.supply_of(issuer),
{
    ledger.lemma_book_wf(issuer);
    let hs = ledger.holders_of(issuer);
    assert forall|h: Seq<char>| #[trigger] ledger.holding_of(h, issuer) <= ledger.supply_of(issuer) by {
        if holds_in(hs, h) {
            let k = choose|k: int| 0 <= k < hs.len() && #[trigger] hs[k].holder_addr@ == h;
            lemma_amount_in_at(hs, k);
            crate::fees::lemma_amount_within_sum(hs, k);
        }
    }
    assert forall|j: int| 0 <= j < ledger.holders_of(issuer).len() implies ledger.holding_of(
        #[trigger] ledger.holders_of(issuer)[j].holder_addr@,
        issuer,
    ) == ledger.holders_of(issuer)[j].amount by {
        lemma_amount_in_at(ledger.holders_of(issuer), j);
    }
}

} // verus!
