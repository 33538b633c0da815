//! Deterministic, reversible mapping between human-readable addresses and
//! their canonical fixed-length binary form.
//!
//! The canonical form is `CANONICAL_LENGTH` bytes: a length byte, the bytes of
//! the human address, and zero padding.  Restricted to human addresses whose
//! length lies within the configured bounds, the two directions are exact
//! inverses of each other.  Each direction reports a fixed gas cost.

use vstd::prelude::*;

verus! {

/// Total size in bytes of a canonical address.
pub const CANONICAL_LENGTH: usize = 54;

/// A human address must have at least this many bytes.
pub const MIN_HUMAN_LENGTH: usize = 3;

/// Gas charged for one canonicalization.
pub const GAS_COST_CANONICALIZE: u64 = 55;

/// Gas charged for one humanization.
pub const GAS_COST_HUMANIZE: u64 = 44;

/// Errors of the address codec.
#[derive(Clone, Copy, Debug, PartialEq, Eq, Structural)]
pub enum AddrError {
    /// The human address has fewer than `MIN_HUMAN_LENGTH` bytes.
    TooShort,
    /// The human address does not fit a canonical form.
    TooLong,
    /// The canonical input does not have `CANONICAL_LENGTH` bytes.
    LengthMismatch,
    /// The canonical input carries an impossible length byte or nonzero padding.
    Malformed,
}

/// Whether a human address of `n` bytes is accepted by the codec.
pub open spec fn valid_human_len(n: nat) -> bool {
    MIN_HUMAN_LENGTH <= n <= CANONICAL_LENGTH - 1
}

/// The canonical form of a human address: length byte, payload, zero padding.
pub open spec fn spec_canonicalize(a: Seq<u8>) -> Seq<u8> {
    Seq::new(
        CANONICAL_LENGTH as nat,
        |i: int|
            if i == 0 {
                a.len() as u8
            } else if i <= a.len() {
                a[i - 1]
            } else {
                0u8
            },
    )
}

/// A canonical byte string that humanization accepts: correct total length, a
/// length byte within the human bounds, and all-zero padding.
pub open spec fn well_formed_canonical(c: Seq<u8>) -> bool {
    &&& c.len() == CANONICAL_LENGTH
    &&& valid_human_len(c[0] as nat)
    &&& forall|i: int| c[0] + 1 <= i < c.len() ==> c[i] == 0u8
}

/// The human address held in a well-formed canonical byte string.
pub open spec fn spec_humanize(c: Seq<u8>) -> Seq<u8> {
    c.subrange(1, c[0] + 1)
}

/// Turns a human address into its canonical form, reporting the gas cost.
///
/// Succeeds exactly on addresses of a valid length; shorter ones are rejected
/// with `TooShort`, longer ones with `TooLong`.
pub fn canonicalize(human: &[u8]) -> (r: (Result<Vec<u8>, AddrError>, u64))
    ensures
        r.1 == GAS_COST_CANONICALIZE,
        r.0 is Ok <==> valid_human_len(human@.len()),
        r.0 is Ok ==> r.0->Ok_0@ == spec_canonicalize(human@),
        human@.len() < MIN_HUMAN_LENGTH ==> r.0 == Result::<Vec<u8>, AddrError>::Err(
            AddrError::TooShort,
        ),
        human@.len() > CANONICAL_LENGTH - 1 ==> r.0 == Result::<Vec<u8>, AddrError>::Err(
            AddrError::TooLong,
        ),
{
    if human.len() < MIN_HUMAN_LENGTH {
        return (Err(AddrError::TooShort), GAS_COST_CANONICALIZE);
    }
    if human.len() > CANONICAL_LENGTH - 1 {
        return (Err(AddrError::TooLong), GAS_COST_CANONICALIZE);
    }
    let mut out: Vec<u8> = Vec::new();
    out.push(human.len() as u8);
    let mut i: usize = 0;
    while i < human.len()
        invariant
            i <= human@.len(),
            valid_human_len(human@.len()),
            out@.len() == i + 1,
            out@[0] == human@.len() as u8,
            forall|j: int| 1 <= j < out@.len() ==> out@[j] == human@[j - 1],
        decreases human@.len() - i,
    {
        out.push(human[i]);
        i = i + 1;
    }
    while out.len() < CANONICAL_LENGTH
        invariant
            human@.len() + 1 <= out@.len() <= CANONICAL_LENGTH,
            valid_human_len(human@.len()),
            out@[0] == human@.len() as u8,
            forall|j: int| 1 <= j <= human@.len() ==> out@[j] == human@[j - 1],
            forall|j: int| human@.len() < j < out@.len() ==> out@[j] == 0u8,
        decreases CANONICAL_LENGTH - out@.len(),
    {
        out.push(0u8);
    }
    proof {
        assert(out@ =~= spec_canonicalize(human@));
    }
    (Ok(out), GAS_COST_CANONICALIZE)
}

/// Turns a canonical address back into its human form, reporting the gas cost.
///
/// Succeeds exactly on well-formed canonical byte strings: inputs of the wrong
/// total length are rejected with `LengthMismatch`, and inputs whose length
/// byte is out of bounds or whose padding is not all zero with `Malformed`.
pub fn humanize(canonical: &[u8]) -> (r: (Result<Vec<u8>, AddrError>, u64))
    ensures
        r.1 == GAS_COST_HUMANIZE,
        r.0 is Ok <==> well_formed_canonical(canonical@),
        r.0 is Ok ==> r.0->Ok_0@ == spec_humanize(canonical@),
        canonical@.len() != CANONICAL_LENGTH ==> r.0 == Result::<Vec<u8>, AddrError>::Err(
            AddrError::LengthMismatch,
        ),
        canonical@.len() == CANONICAL_LENGTH && !well_formed_canonical(canonical@) ==> r.0
            == Result::<Vec<u8>, AddrError>::Err(AddrError::Malformed),
{
    if canonical.len() != CANONICAL_LENGTH {
        return (Err(AddrError::LengthMismatch), GAS_COST_HUMANIZE);
    }
    let n: usize = canonical[0] as usize;
    if n < MIN_HUMAN_LENGTH || n > CANONICAL_LENGTH - 1 {
        return (Err(AddrError::Malformed), GAS_COST_HUMANIZE);
    }
    let mut i: usize = n + 1;
    while i < CANONICAL_LENGTH
        invariant
            n + 1 <= i <= CANONICAL_LENGTH,
            canonical@.len() == CANONICAL_LENGTH,
            n == canonical@[0] as nat,
            forall|j: int| n + 1 <= j < i ==> canonical@[j] == 0u8,
        decreases CANONICAL_LENGTH - i,
    {
        if canonical[i] != 0u8 {
            return (Err(AddrError::Malformed), GAS_COST_HUMANIZE);
        }
        i = i + 1;
    }
    let mut out: Vec<u8> = Vec::new();
    let mut k: usize = 1;
    while k < n + 1
        invariant
            1 <= k <= n + 1,
            canonical@.len() == CANONICAL_LENGTH,
            n <= CANONICAL_LENGTH - 1,
            out@.len() == k - 1,
            forall|j: int| 0 <= j < out@.len() ==> out@[j] == canonical@[j + 1],
        decreases n + 1 - k,
    {
        out.push(canonical[k]);
        k = k + 1;
    }
    proof {
        assert(out@ =~= spec_humanize(canonical@));
    }
    (Ok(out), GAS_COST_HUMANIZE)
}

/// Restricted to human addresses of valid length, humanization is the exact
/// inverse of canonicalization: the round trip gives the address back.
pub proof fn lemma_humanize_canonicalize_roundtrip(a: Seq<u8>)
    requires
        valid_human_len(a.len()),
    ensures
        well_formed_canonical(spec_canonicalize(a)),
        spec_humanize(spec_canonicalize(a)) == a,
{
    assert(spec_humanize(spec_canonicalize(a)) =~= a);
}

} // verus!
