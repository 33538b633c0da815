//! The staking side of the query router: static validator and delegation
//! tables populated at startup.  Absent entries answer as empty or null
//! results, never as errors.

use vstd::prelude::*;
use vstd::string::StringSliceAdditionalSpecFns;

use crate::bank::{push_coin_json, spec_coin_json};
use crate::json::{push_json_string, push_lit, spec_json_string};
use crate::types::{bytes_eq, coin_view, copy_bytes, copy_coin, Coin};

verus! {

/// A validator known to the staking tables.
#[derive(Debug)]
pub struct Validator {
    pub address: Vec<u8>,
}

/// A delegation from a delegator to a validator.
#[derive(Debug)]
pub struct Delegation {
    pub delegator: Vec<u8>,
    pub validator: Vec<u8>,
    pub amount: Coin,
}

/// A staking-table query.
#[derive(Debug)]
pub enum StakingQuery {
    /// The denomination in which the chain bonds stake.
    BondedDenom,
    /// Every known validator.
    AllValidators,
    /// One validator by address.
    Validator { address: Vec<u8> },
    /// Every delegation of one delegator.
    AllDelegations { delegator: Vec<u8> },
    /// One delegation by delegator and validator.
    Delegation { delegator: Vec<u8>, validator: Vec<u8> },
}

/// The view of a delegation: delegator, validator, and coin.
pub open spec fn delegation_view(d: Delegation) -> (Seq<u8>, Seq<u8>, (Seq<u8>, u128)) {
    (d.delegator@, d.validator@, coin_view(d.amount))
}

/// The view of a delegation sequence.
pub open spec fn delegations_view(s: Seq<Delegation>) -> Seq<(Seq<u8>, Seq<u8>, (Seq<u8>, u128))> {
    Seq::new(s.len(), |i: int| delegation_view(s[i]))
}

/// The view of a validator sequence: each validator's address.
pub open spec fn validators_view(s: Seq<Validator>) -> Seq<Seq<u8>> {
    Seq::new(s.len(), |i: int| s[i].address@)
}

/// The first validator with the given address, if any.
pub open spec fn find_validator(vs: Seq<Seq<u8>>, a: Seq<u8>) -> Option<Seq<u8>>
    decreases vs.len(),
{
    if vs.len() == 0 {
        None
    } else if vs[0] == a {
        Some(vs[0])
    } else {
        find_validator(vs.drop_first(), a)
    }
}

/// The delegations of one delegator, in table order.
pub open spec fn dels_of(
    ds: Seq<(Seq<u8>, Seq<u8>, (Seq<u8>, u128))>,
    delegator: Seq<u8>,
) -> Seq<(Seq<u8>, Seq<u8>, (Seq<u8>, u128))> {
    ds.filter(|d: (Seq<u8>, Seq<u8>, (Seq<u8>, u128))| d.0 == delegator)
}

/// The first delegation of `delegator` with `validator`, if any.
pub open spec fn find_delegation(
    ds: Seq<(Seq<u8>, Seq<u8>, (Seq<u8>, u128))>,
    delegator: Seq<u8>,
    validator: Seq<u8>,
) -> Option<(Seq<u8>, Seq<u8>, (Seq<u8>, u128))>
    decreases ds.len(),
{
    if ds.len() == 0 {
        None
    } else if ds[0].0 == delegator && ds[0].1 == validator {
        Some(ds[0])
    } else {
        find_delegation(ds.drop_first(), delegator, validator)
    }
}

/// One validator as JSON.
pub open spec fn spec_validator_json(a: Seq<u8>) -> Seq<u8> {
    ("{\"address\":").spec_bytes() + spec_json_string(a) + ("}").spec_bytes()
}

/// The comma-separated validators of a JSON array body.
pub open spec fn spec_validators_items(vs: Seq<Seq<u8>>) -> Seq<u8>
    decreases vs.len(),
{
    if vs.len() == 0 {
        Seq::empty()
    } else if vs.len() == 1 {
        spec_validator_json(vs[0])
    } else {
        spec_validators_items(vs.drop_last()) + (",").spec_bytes() + spec_validator_json(vs.last())
    }
}

/// One delegation as JSON.
pub open spec fn spec_delegation_json(d: (Seq<u8>, Seq<u8>, (Seq<u8>, u128))) -> Seq<u8> {
    ("{\"delegator\":").spec_bytes() + spec_json_string(d.0) + (",\"validator\":").spec_bytes()
        + spec_json_string(d.1) + (",\"amount\":").spec_bytes() + spec_coin_json(d.2) + (
    "}").spec_bytes()
}

/// The comma-separated delegations of a JSON array body.
pub open spec fn spec_delegations_items(ds: Seq<(Seq<u8>, Seq<u8>, (Seq<u8>, u128))>) -> Seq<u8>
    decreases ds.len(),
{
    if ds.len() == 0 {
        Seq::empty()
    } else if ds.len() == 1 {
        spec_delegation_json(ds[0])
    } else {
        spec_delegations_items(ds.drop_last()) + (",").spec_bytes() + spec_delegation_json(
            ds.last(),
        )
    }
}

/// The response to a single-validator query.
pub open spec fn spec_validator_response_json(v: Option<Seq<u8>>) -> Seq<u8> {
    match v {
        Some(a) => ("{\"validator\":").spec_bytes() + spec_validator_json(a) + ("}").spec_bytes(),
        None => ("{\"validator\":").spec_bytes() + ("null").spec_bytes() + ("}").spec_bytes(),
    }
}

/// The response to an all-validators query.
pub open spec fn spec_all_validators_json(vs: Seq<Seq<u8>>) -> Seq<u8> {
    ("{\"validators\":[").spec_bytes() + spec_validators_items(vs) + ("]}").spec_bytes()
}

/// The response to an all-delegations query.
pub open spec fn spec_all_delegations_json(ds: Seq<(Seq<u8>, Seq<u8>, (Seq<u8>, u128))>) -> Seq<
    u8,
> {
    ("{\"delegations\":[").spec_bytes() + spec_delegations_items(ds) + ("]}").spec_bytes()
}

/// The response to a single-delegation query.
pub open spec fn spec_delegation_response_json(
    d: Option<(Seq<u8>, Seq<u8>, (Seq<u8>, u128))>,
) -> Seq<u8> {
    match d {
        Some(dv) => ("{\"delegation\":").spec_bytes() + spec_delegation_json(dv) + (
        "}").spec_bytes(),
        None => ("{\"delegation\":").spec_bytes() + ("null").spec_bytes() + ("}").spec_bytes(),
    }
}

/// The response to a bonded-denom query.
pub open spec fn spec_bonded_denom_json(denom: Seq<u8>) -> Seq<u8> {
    ("{\"denom\":").spec_bytes() + spec_json_string(denom) + ("}").spec_bytes()
}

/// The staking tables.
#[derive(Debug)]
pub struct StakingQuerier {
    denom: Vec<u8>,
    validators: Vec<Validator>,
    delegations: Vec<Delegation>,
}

impl StakingQuerier {
    /// The bonded denomination.
    pub closed spec fn spec_denom(self) -> Seq<u8> {
        self.denom@
    }

    /// The validator addresses, in table order.
    pub closed spec fn spec_validators(self) -> Seq<Seq<u8>> {
        validators_view(self.validators@)
    }

    /// The delegations, in table order.
    pub closed spec fn spec_delegations(self) -> Seq<(Seq<u8>, Seq<u8>, (Seq<u8>, u128))> {
        delegations_view(self.delegations@)
    }

    /// Tables as configured at startup.
    pub fn new(denom: Vec<u8>, validators: Vec<Validator>, delegations: Vec<Delegation>) -> (r:
        StakingQuerier)
        ensures
            r.spec_denom() == denom@,
            r.spec_validators() == validators_view(validators@),
            r.spec_delegations() == delegations_view(delegations@),
    {
        StakingQuerier { denom, validators, delegations }
    }

    /// Answers a staking query from the tables.  A validator or delegation
    /// that is not in them answers as null, a delegator without delegations
    /// as an empty list; nothing here is an error.
    pub fn query(&self, request: &StakingQuery) -> (r: Vec<u8>)
        ensures
            request is BondedDenom ==> r@ == spec_bonded_denom_json(self.spec_denom()),
            request is AllValidators ==> r@ == spec_all_validators_json(self.spec_validators()),
            request matches StakingQuery::Validator { address } ==> r@
                == spec_validator_response_json(find_validator(self.spec_validators(), address@)),
            request matches StakingQuery::AllDelegations { delegator } ==> r@
                == spec_all_delegations_json(dels_of(self.spec_delegations(), delegator@)),
            request matches StakingQuery::Delegation { delegator, validator } ==> r@
                == spec_delegation_response_json(
                find_delegation(self.spec_delegations(), delegator@, validator@),
            ),
    {
        let mut out: Vec<u8> = Vec::new();
        match request {
            StakingQuery::BondedDenom => {
                push_lit(&mut out, "{\"denom\":");
                push_json_string(&mut out, self.denom.as_slice());
                push_lit(&mut out, "}");
                proof {
                    assert(out@ =~= spec_bonded_denom_json(self.spec_denom()));
                }
            },
            StakingQuery::AllValidators => {
                push_lit(&mut out, "{\"validators\":[");
                self.push_validator_items(&mut out);
                push_lit(&mut out, "]}");
                proof {
                    assert(out@ =~= spec_all_validators_json(self.spec_validators()));
                }
            },
            StakingQuery::Validator { address } => {
                push_lit(&mut out, "{\"validator\":");
                match self.find_validator_index(address.as_slice()) {
                    Some(i) => {
                        push_lit(&mut out, "{\"address\":");
                        push_json_string(&mut out, self.validators[i].address.as_slice());
                        push_lit(&mut out, "}");
                    },
                    None => {
                        push_lit(&mut out, "null");
                    },
                }
                push_lit(&mut out, "}");
                proof {
                    assert(out@ =~= spec_validator_response_json(
                        find_validator(self.spec_validators(), address@),
                    ));
                }
            },
            StakingQuery::AllDelegations { delegator } => {
                let matched = self.delegations_of(delegator.as_slice());
                push_lit(&mut out, "{\"delegations\":[");
                push_delegation_items(&mut out, &matched);
                push_lit(&mut out, "]}");
                proof {
                    assert(out@ =~= spec_all_delegations_json(
                        dels_of(self.spec_delegations(), delegator@),
                    ));
                }
            },
            StakingQuery::Delegation { delegator, validator } => {
                push_lit(&mut out, "{\"delegation\":");
                match self.find_delegation_index(delegator.as_slice(), validator.as_slice()) {
                    Some(i) => {
                        push_delegation_json(&mut out, &self.delegations[i]);
                    },
                    None => {
                        push_lit(&mut out, "null");
                    },
                }
                push_lit(&mut out, "}");
                proof {
                    assert(out@ =~= spec_delegation_response_json(
                        find_delegation(self.spec_delegations(), delegator@, validator@),
                    ));
                }
            },
        }
        out
    }

    /// The index of the first validator with this address, if any, shown
    /// equal to the specification-level search.
    fn find_validator_index(&self, address: &[u8]) -> (r: Option<usize>)
        ensures
            r matches Some(i) ==> i < self.spec_validators().len() && self.spec_validators()[
                i as int
            ] == address@ && find_validator(self.spec_validators(), address@) == Some(address@),
            r is None ==> find_validator(self.spec_validators(), address@) is None,
    {
        let ghost vs = self.spec_validators();
        let mut i: usize = 0;
        proof {
            assert(vs.skip(0) =~= vs);
        }
        while i < self.validators.len()
            invariant
                i <= vs.len(),
                vs == self.spec_validators(),
                find_validator(vs, address@) == find_validator(vs.skip(i as int), address@),
            decreases vs.len() - i,
        {
            proof {
                assert(vs.skip(i as int)[0] == vs[i as int]);
            }
            if bytes_eq(self.validators[i].address.as_slice(), address) {
                return Some(i);
            }
            proof {
                assert(vs.skip(i as int).drop_first() =~= vs.skip(i + 1));
            }
            i = i + 1;
        }
        proof {
            assert(vs.skip(i as int).len() == 0);
        }
        None
    }

    /// The index of the first delegation matching delegator and validator.
    fn find_delegation_index(&self, delegator: &[u8], validator: &[u8]) -> (r: Option<usize>)
        ensures
            r matches Some(i) ==> i < self.spec_delegations().len() && find_delegation(
                self.spec_delegations(),
                delegator@,
                validator@,
            ) == Some(self.spec_delegations()[i as int]),
            r is None ==> find_delegation(self.spec_delegations(), delegator@, validator@) is None,
    {
        let ghost ds = self.spec_delegations();
        let mut i: usize = 0;
        proof {
            assert(ds.skip(0) =~= ds);
        }
        while i < self.delegations.len()
            invariant
                i <= ds.len(),
                ds == self.spec_delegations(),
                find_delegation(ds, delegator@, validator@) == find_delegation(
                    ds.skip(i as int),
                    delegator@,
                    validator@,
                ),
            decreases ds.len() - i,
        {
            proof {
                assert(ds.skip(i as int)[0] == ds[i as int]);
            }
            if bytes_eq(self.delegations[i].delegator.as_slice(), delegator) && bytes_eq(
                self.delegations[i].validator.as_slice(),
                validator,
            ) {
                return Some(i);
            }
            proof {
                assert(ds.skip(i as int).drop_first() =~= ds.skip(i + 1));
            }
            i = i + 1;
        }
        proof {
            assert(ds.skip(i as int).len() == 0);
        }
        None
    }

    /// Copies of the delegations of one delegator, in table order.
    fn delegations_of(&self, delegator: &[u8]) -> (r: Vec<Delegation>)
        ensures
            delegations_view(r@) == dels_of(self.spec_delegations(), delegator@),
    {
        let ghost ds = self.spec_delegations();
        let mut out: Vec<Delegation> = Vec::new();
        let mut i: usize = 0;
        proof {
            lemma_dels_of_empty(delegator@);
            assert(ds.take(0) =~= Seq::<(Seq<u8>, Seq<u8>, (Seq<u8>, u128))>::empty());
            assert(delegations_view(out@) =~= dels_of(ds.take(0), delegator@));
        }
        while i < self.delegations.len()
            invariant
                i <= ds.len(),
                ds == self.spec_delegations(),
                delegations_view(out@) == dels_of(ds.take(i as int), delegator@),
            decreases ds.len() - i,
        {
            let keep = bytes_eq(self.delegations[i].delegator.as_slice(), delegator);
            proof {
                lemma_dels_of_step(ds, i as int, delegator@);
            }
            if keep {
                let ghost preout = out@;
                let d = &self.delegations[i];
                out.push(
                    Delegation {
                        delegator: copy_bytes(d.delegator.as_slice()),
                        validator: copy_bytes(d.validator.as_slice()),
                        amount: copy_coin(&d.amount),
                    },
                );
                proof {
                    assert(delegation_view(out@.last()) == ds[i as int]);
                    assert(delegations_view(out@) =~= delegations_view(preout).push(ds[i as int]));
                    assert(delegations_view(out@) =~= dels_of(ds.take(i + 1), delegator@));
                }
            } else {
                proof {
                    assert(delegations_view(out@) =~= dels_of(ds.take(i + 1), delegator@));
                }
            }
            i = i + 1;
        }
        proof {
            assert(ds.take(ds.len() as int) =~= ds);
        }
        out
    }

    /// Appends the validators as a JSON array body.
    fn push_validator_items(&self, out: &mut Vec<u8>)
        ensures
            final(out)@ == old(out)@ + spec_validators_items(self.spec_validators()),
    {
        let ghost vs = self.spec_validators();
        let ghost mid = out@;
        let mut i: usize = 0;
        while i < self.validators.len()
            invariant
                i <= vs.len(),
                vs == self.spec_validators(),
                out@ == mid + spec_validators_items(vs.take(i as int)),
            decreases vs.len() - i,
        {
            if i > 0 {
                push_lit(out, ",");
            }
            push_lit(out, "{\"address\":");
            push_json_string(out, self.validators[i].address.as_slice());
            push_lit(out, "}");
            proof {
                assert(vs.take(i + 1).drop_last() =~= vs.take(i as int));
                assert(vs.take(i + 1).last() == vs[i as int]);
                assert(out@ =~= mid + spec_validators_items(vs.take(i + 1)));
            }
            i = i + 1;
        }
        proof {
            assert(vs.take(vs.len() as int) =~= vs);
        }
    }
}

/// Appends one delegation as JSON.
fn push_delegation_json(out: &mut Vec<u8>, d: &Delegation)
    ensures
        final(out)@ == old(out)@ + spec_delegation_json(delegation_view(*d)),
{
    push_lit(out, "{\"delegator\":");
    push_json_string(out, d.delegator.as_slice());
    push_lit(out, ",\"validator\":");
    push_json_string(out, d.validator.as_slice());
    push_lit(out, ",\"amount\":");
    push_coin_json(out, d.amount.denom.as_slice(), d.amount.amount);
    push_lit(out, "}");
    proof {
        assert(out@ =~= old(out)@ + spec_delegation_json(delegation_view(*d)));
    }
}

/// Appends a delegation list as a JSON array body.
fn push_delegation_items(out: &mut Vec<u8>, ds: &Vec<Delegation>)
    ensures
        final(out)@ == old(out)@ + spec_delegations_items(delegations_view(ds@)),
{
    let ghost full = delegations_view(ds@);
    let ghost mid = out@;
    let mut i: usize = 0;
    while i < ds.len()
        invariant
            i <= full.len(),
            full == delegations_view(ds@),
            out@ == mid + spec_delegations_items(full.take(i as int)),
        decreases full.len() - i,
    {
        if i > 0 {
            push_lit(out, ",");
        }
        push_delegation_json(out, &ds[i]);
        proof {
            assert(full.take(i + 1).drop_last() =~= full.take(i as int));
            assert(full.take(i + 1).last() == full[i as int]);
            assert(out@ =~= mid + spec_delegations_items(full.take(i + 1)));
        }
        i = i + 1;
    }
    proof {
        assert(full.take(full.len() as int) =~= full);
    }
}

/// Filtering an empty delegation sequence keeps nothing.
proof fn lemma_dels_of_empty(delegator: Seq<u8>)
    ensures
        dels_of(Seq::<(Seq<u8>, Seq<u8>, (Seq<u8>, u128))>::empty(), delegator) == Seq::<(
            Seq<u8>,
            Seq<u8>,
            (Seq<u8>, u128),
        )>::empty(),
{
    reveal_with_fuel(Seq::filter, 1);
}

/// One step of the delegation filter over a growing prefix.
proof fn lemma_dels_of_step(ds: Seq<(Seq<u8>, Seq<u8>, (Seq<u8>, u128))>, i: int, delegator: Seq<
    u8,
>)
    requires
        0 <= i < ds.len(),
    ensures
        ds[i].0 == delegator ==> dels_of(ds.take(i + 1), delegator) == dels_of(
            ds.take(i),
            delegator,
        ).push(ds[i]),
        ds[i].0 != delegator ==> dels_of(ds.take(i + 1), delegator) == dels_of(
            ds.take(i),
            delegator,
        ),
{
    let t = ds.take(i + 1);
    assert(t.drop_last() =~= ds.take(i));
    assert(t.last() == ds[i]);
    reveal_with_fuel(Seq::filter, 1);
}

} // verus!
