//! The bank side of the query router: a table of account balances, looked up
//! by address.  An address with no configured balance reads as a zero or
//! empty balance, never as an error.

use vstd::prelude::*;
use vstd::string::StringSliceAdditionalSpecFns;

use crate::assoc::{
    assoc_has, assoc_to_map, assoc_unique, lemma_assoc_index_unique, lemma_assoc_map_push,
    lemma_assoc_map_update,
};
use crate::json::{push_json_string, push_lit, push_u128, spec_digits, spec_json_string};
use crate::types::{bytes_eq, coins_view, copy_bytes, Coin};

verus! {

/// A bank-table query.
#[derive(Debug)]
pub enum BankQuery {
    /// The balance of one denomination held by an address.
    Balance { address: Vec<u8>, denom: Vec<u8> },
    /// Every coin held by an address.
    AllBalances { address: Vec<u8> },
}

/// The amount of denomination `d` among `cs`: the first matching coin's
/// amount, or zero when none matches.
pub open spec fn find_denom_amount(cs: Seq<(Seq<u8>, u128)>, d: Seq<u8>) -> u128
    decreases cs.len(),
{
    if cs.len() == 0 {
        0
    } else if cs[0].0 == d {
        cs[0].1
    } else {
        find_denom_amount(cs.drop_first(), d)
    }
}

/// One coin as JSON.
pub open spec fn spec_coin_json(c: (Seq<u8>, u128)) -> Seq<u8> {
    ("{\"denom\":").spec_bytes() + spec_json_string(c.0) + (",\"amount\":\"").spec_bytes()
        + spec_digits(c.1 as nat) + ("\"}").spec_bytes()
}

/// The comma-separated coins of a JSON array body.
pub open spec fn spec_coins_items(cs: Seq<(Seq<u8>, u128)>) -> Seq<u8>
    decreases cs.len(),
{
    if cs.len() == 0 {
        Seq::empty()
    } else if cs.len() == 1 {
        spec_coin_json(cs[0])
    } else {
        spec_coins_items(cs.drop_last()) + (",").spec_bytes() + spec_coin_json(cs.last())
    }
}

/// A coin list as a JSON array.
pub open spec fn spec_coins_json(cs: Seq<(Seq<u8>, u128)>) -> Seq<u8> {
    ("[").spec_bytes() + spec_coins_items(cs) + ("]").spec_bytes()
}

/// The response to a single-denomination balance query.
pub open spec fn spec_balance_response_json(denom: Seq<u8>, amount: u128) -> Seq<u8> {
    ("{\"amount\":").spec_bytes() + spec_coin_json((denom, amount)) + ("}").spec_bytes()
}

/// The response to an all-balances query.
pub open spec fn spec_all_balance_json(cs: Seq<(Seq<u8>, u128)>) -> Seq<u8> {
    ("{\"amount\":").spec_bytes() + spec_coins_json(cs) + ("}").spec_bytes()
}

/// The view of a balance configuration list.
pub open spec fn balances_input_view(s: Seq<(Vec<u8>, Vec<Coin>)>) -> Seq<
    (Seq<u8>, Seq<(Seq<u8>, u128)>),
> {
    Seq::new(s.len(), |i: int| (s[i].0@, coins_view(s[i].1@)))
}

/// The balance map that a configuration list builds up, one insert per entry
/// in order.
pub open spec fn spec_balances_init(s: Seq<(Seq<u8>, Seq<(Seq<u8>, u128)>)>) -> Map<
    Seq<u8>,
    Seq<(Seq<u8>, u128)>,
>
    decreases s.len(),
{
    if s.len() == 0 {
        Map::empty()
    } else {
        spec_balances_init(s.drop_last()).insert(s.last().0, s.last().1)
    }
}

/// Appends one coin as JSON.
pub fn push_coin_json(out: &mut Vec<u8>, denom: &[u8], amount: u128)
    ensures
        final(out)@ == old(out)@ + spec_coin_json((denom@, amount)),
{
    push_lit(out, "{\"denom\":");
    push_json_string(out, denom);
    push_lit(out, ",\"amount\":\"");
    push_u128(out, amount);
    push_lit(out, "\"}");
    proof {
        assert(out@ =~= old(out)@ + spec_coin_json((denom@, amount)));
    }
}

/// Appends a coin list as a JSON array.
pub fn push_coins_json(out: &mut Vec<u8>, cs: &Vec<Coin>)
    ensures
        final(out)@ == old(out)@ + spec_coins_json(coins_view(cs@)),
{
    let ghost full = coins_view(cs@);
    push_lit(out, "[");
    let ghost mid = out@;
    let mut i: usize = 0;
    while i < cs.len()
        invariant
            i <= cs@.len(),
            full == coins_view(cs@),
            out@ == mid + spec_coins_items(full.take(i as int)),
        decreases cs@.len() - i,
    {
        if i > 0 {
            push_lit(out, ",");
        }
        push_coin_json(out, cs[i].denom.as_slice(), cs[i].amount);
        proof {
            assert(full.take(i + 1).drop_last() =~= full.take(i as int));
            assert(full.take(i + 1).last() == full[i as int]);
            assert(full[i as int] == (cs@[i as int].denom@, cs@[i as int].amount));
            assert(out@ =~= mid + spec_coins_items(full.take(i + 1)));
        }
        i = i + 1;
    }
    push_lit(out, "]");
    proof {
        assert(full.take(full.len() as int) =~= full);
        assert(out@ =~= old(out)@ + spec_coins_json(full));
    }
}

/// The balance table: one entry per configured address.
#[derive(Debug)]
pub struct BankQuerier {
    balances: Vec<(Vec<u8>, Vec<Coin>)>,
}

impl BankQuerier {
    /// The table as a sequence of (address, coins) views.
    pub closed spec fn accounts(self) -> Seq<(Seq<u8>, Seq<(Seq<u8>, u128)>)> {
        Seq::new(
            self.balances@.len(),
            |i: int| (self.balances@[i].0@, coins_view(self.balances@[i].1@)),
        )
    }

    /// Each address appears at most once.
    pub open spec fn wf(self) -> bool {
        assoc_unique(self.accounts())
    }

    /// The table as a map from address to coins.
    pub open spec fn balances_map(self) -> Map<Seq<u8>, Seq<(Seq<u8>, u128)>> {
        assoc_to_map(self.accounts())
    }

    /// The coins of an address: its configured list, or nothing.
    pub open spec fn coins_of(self, a: Seq<u8>) -> Seq<(Seq<u8>, u128)> {
        if self.balances_map().contains_key(a) {
            self.balances_map()[a]
        } else {
            Seq::empty()
        }
    }

    /// The amount of one denomination held by an address.
    pub open spec fn balance_of(self, a: Seq<u8>, d: Seq<u8>) -> u128 {
        find_denom_amount(self.coins_of(a), d)
    }

    /// A balance table holding the given configuration.  A repeated address
    /// keeps its last configured balance.
    pub fn new(init: Vec<(Vec<u8>, Vec<Coin>)>) -> (r: BankQuerier)
        ensures
            r.wf(),
            r.balances_map() == spec_balances_init(balances_input_view(init@)),
    {
        let ghost iv = balances_input_view(init@);
        let mut r = BankQuerier { balances: Vec::new() };
        proof {
            assert(r.balances_map() =~= Map::<Seq<u8>, Seq<(Seq<u8>, u128)>>::empty());
            assert(iv.take(0) =~= Seq::<(Seq<u8>, Seq<(Seq<u8>, u128)>)>::empty());
        }
        let mut i: usize = 0;
        while i < init.len()
            invariant
                i <= init@.len(),
                iv == balances_input_view(init@),
                r.wf(),
                r.balances_map() == spec_balances_init(iv.take(i as int)),
            decreases init@.len() - i,
        {
            let addr = copy_bytes(init[i].0.as_slice());
            let coins = crate::types::copy_coins(&init[i].1);
            r.update_balance(addr, coins);
            proof {
                assert(iv.take(i + 1).drop_last() =~= iv.take(i as int));
                assert(iv.take(i + 1).last() == iv[i as int]);
            }
            i = i + 1;
        }
        proof {
            assert(iv.take(iv.len() as int) =~= iv);
        }
        r
    }

    /// The index of an address in the table, when present.
    fn find_account(&self, address: &[u8]) -> (r: Option<usize>)
        requires
            self.wf(),
        ensures
            r matches Some(i) ==> i < self.accounts().len() && self.accounts()[i as int].0
                == address@,
            r is None ==> !assoc_has(self.accounts(), address@),
            r is None ==> !self.balances_map().contains_key(address@),
    {
        let mut i: usize = 0;
        while i < self.balances.len()
            invariant
                self.wf(),
                i <= self.accounts().len(),
                forall|j: int| 0 <= j < i ==> (#[trigger] self.accounts()[j]).0 != address@,
            decreases self.accounts().len() - i,
        {
            if bytes_eq(self.balances[i].0.as_slice(), address) {
                return Some(i);
            }
            i = i + 1;
        }
        proof {
            assert(!assoc_has(self.accounts(), address@));
        }
        None
    }

    /// Sets a new balance for `address` and hands back the old one, if any.
    pub fn update_balance(&mut self, address: Vec<u8>, balance: Vec<Coin>) -> (r: Option<Vec<Coin>>)
        requires
            old(self).wf(),
        ensures
            final(self).wf(),
            final(self).balances_map() == old(self).balances_map().insert(
                address@,
                coins_view(balance@),
            ),
            r is Some <==> old(self).balances_map().contains_key(address@),
            r matches Some(v) ==> coins_view(v@) == old(self).balances_map()[address@],
    {
        let ghost olds = self.accounts();
        match self.find_account(address.as_slice()) {
            Some(i) => {
                proof {
                    lemma_assoc_index_unique(olds, i as int);
                    lemma_assoc_map_update(olds, i as int, coins_view(balance@));
                }
                let prior = self.balances.remove(i);
                self.balances.insert(i, (address, balance));
                proof {
                    assert(self.accounts() =~= olds.update(
                        i as int,
                        (olds[i as int].0, coins_view(balance@)),
                    ));
                }
                Some(prior.1)
            },
            None => {
                proof {
                    lemma_assoc_map_push(olds, address@, coins_view(balance@));
                }
                self.balances.push((address, balance));
                proof {
                    assert(self.accounts() =~= olds.push((address@, coins_view(balance@))));
                }
                None
            },
        }
    }

    /// Answers a bank query from the table.  A single-denomination query
    /// reports the first matching coin's amount, or zero; an all-balances
    /// query reports the address's coin list, or an empty list.  An address
    /// with no configured balance is never an error.
    pub fn query(&self, request: &BankQuery) -> (r: Vec<u8>)
        requires
            self.wf(),
        ensures
            request matches BankQuery::Balance { address, denom } ==> r@
                == spec_balance_response_json(denom@, self.balance_of(address@, denom@)),
            request matches BankQuery::AllBalances { address } ==> r@ == spec_all_balance_json(
                self.coins_of(address@),
            ),
            (request matches BankQuery::AllBalances { address } && !self.balances_map().contains_key(
                address@,
            )) ==> r@ == spec_all_balance_json(Seq::<(Seq<u8>, u128)>::empty()),
    {
        let mut out: Vec<u8> = Vec::new();
        match request {
            BankQuery::Balance { address, denom } => {
                let amount = match self.find_account(address.as_slice()) {
                    Some(i) => {
                        proof {
                            lemma_assoc_index_unique(self.accounts(), i as int);
                        }
                        self.find_amount(i, denom.as_slice())
                    },
                    None => 0,
                };
                push_lit(&mut out, "{\"amount\":");
                push_coin_json(&mut out, denom.as_slice(), amount);
                push_lit(&mut out, "}");
                proof {
                    assert(out@ =~= spec_balance_response_json(
                        denom@,
                        self.balance_of(address@, denom@),
                    ));
                }
            },
            BankQuery::AllBalances { address } => {
                push_lit(&mut out, "{\"amount\":");
                match self.find_account(address.as_slice()) {
                    Some(i) => {
                        proof {
                            lemma_assoc_index_unique(self.accounts(), i as int);
                        }
                        push_coins_json(&mut out, &self.balances[i].1);
                    },
                    None => {
                        push_lit(&mut out, "[");
                        push_lit(&mut out, "]");
                        proof {
                            assert(spec_coins_items(Seq::<(Seq<u8>, u128)>::empty())
                                =~= Seq::<u8>::empty());
                        }
                    },
                }
                push_lit(&mut out, "}");
                proof {
                    assert(out@ =~= spec_all_balance_json(self.coins_of(address@)));
                }
            },
        }
        out
    }

    /// The first matching coin's amount in account `i`'s list, or zero.
    fn find_amount(&self, i: usize, denom: &[u8]) -> (r: u128)
        requires
            self.wf(),
            i < self.accounts().len(),
        ensures
            r == find_denom_amount(self.accounts()[i as int].1, denom@),
    {
        let coins = &self.balances[i].1;
        let ghost cv = coins_view(coins@);
        let mut j: usize = 0;
        proof {
            assert(cv.skip(0) =~= cv);
        }
        while j < coins.len()
            invariant
                j <= cv.len(),
                cv == coins_view(coins@),
                coins == &self.balances@[i as int].1,
                i < self.balances@.len(),
                find_denom_amount(cv, denom@) == find_denom_amount(cv.skip(j as int), denom@),
            decreases cv.len() - j,
        {
            proof {
                assert(cv.skip(j as int)[0] == cv[j as int]);
            }
            if bytes_eq(coins[j].denom.as_slice(), denom) {
                return coins[j].amount;
            }
            proof {
                assert(cv.skip(j as int).drop_first() =~= cv.skip(j + 1));
            }
            j = j + 1;
        }
        proof {
            assert(cv.skip(j as int).len() == 0);
        }
        0
    }
}

} // verus!
