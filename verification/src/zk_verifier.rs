//! The zero-knowledge claim verifier: an admin registers trusted oracles, an
//! oracle attests that a proof is valid for a claim, and anyone may ask whether
//! a proof verifies a claim.
use vstd::prelude::*;
use crate::keyed_map::{BeneficiaryId, KeyedMap};
use crate::outside::{sha256_digest, spec_sha256};

verus! {

/// Largest accepted proof, in bytes.
pub const MAX_PROOF_SIZE: usize = 4096;
/// Largest accepted claim, in bytes.
pub const MAX_CLAIM_SIZE: usize = 1024;

#[derive(Clone, Copy, Debug, PartialEq, Eq, Structural)]
pub enum VerifierError {
    /// Proof bytes were empty.
    EmptyProof,
    /// Claim bytes were empty.
    EmptyClaim,
    /// Proof bytes exceed MAX_PROOF_SIZE.
    ProofTooLarge,
    /// Claim bytes exceed MAX_CLAIM_SIZE.
    ClaimTooLarge,
    /// The contract already has an admin.
    AlreadyInitialized,
    /// The attesting address is not a registered oracle.
    OracleNotFound,
    /// The contract has no admin yet.
    NotInitialized,
}

/// An oracle's attestation that the proof with digest `proof_hash` is valid for
/// the claim with digest `claim_hash`.
#[derive(Clone, Copy, Debug, PartialEq, Eq)]
pub struct Attestation {
    pub proof_hash: [u8; 32],
    pub claim_hash: [u8; 32],
    pub oracle: BeneficiaryId,
}

/// The verifier contract's instance storage.
pub struct ZkVerifierContract {
    pub admin: Option<BeneficiaryId>,
    pub oracles: KeyedMap<bool>,
    pub attestations: Vec<Attestation>,
}

/// The oracle that attested the proof/claim digest pair, if any.
pub open spec fn attested_by(atts: Seq<Attestation>, proof_hash: Seq<u8>, claim_hash: Seq<u8>) -> Option<
    BeneficiaryId,
> {
    if exists|i: int|
        0 <= i < atts.len() && atts[i].proof_hash@ == proof_hash && atts[i].claim_hash@ == claim_hash {
        let i = choose|i: int|
            0 <= i < atts.len() && atts[i].proof_hash@ == proof_hash && atts[i].claim_hash@
                == claim_hash;
        Some(atts[i].oracle)
    } else {
        None
    }
}

/// No digest pair is recorded twice.
pub open spec fn attestations_unique(atts: Seq<Attestation>) -> bool {
    forall|i: int, j: int|
        0 <= i < j < atts.len() ==> !(atts[i].proof_hash@ == atts[j].proof_hash@ && atts[i].claim_hash@
            == atts[j].claim_hash@)
}

fn same_digest(a: &[u8; 32], b: &[u8; 32]) -> (r: bool)
    ensures
        r == (a@ == b@),
{
    let mut i: usize = 0;
    while i < 32
        invariant
            0 <= i <= 32,
            a@.len() == 32,
            b@.len() == 32,
            forall|k: int| 0 <= k < i ==> a@[k] == b@[k],
        decreases 32 - i,
    {
        if a[i] != b[i] {
            return false;
        }
        i = i + 1;
    }
    assert(a@ =~= b@);
    true
}

/// Outcome of `verify_claim` on a proof: a single zero byte is the known-invalid
/// proof; every other proof verifies.
pub open spec fn claim_verdict(proof: Seq<u8>) -> bool {
    !(proof.len() == 1 && proof[0] == 0u8)
}

/// The input error of `verify_claim`, checked in this order, if any.
pub open spec fn claim_input_error(proof: Seq<u8>, claim: Seq<u8>) -> Option<VerifierError> {
    if proof.len() == 0 {
        Some(VerifierError::EmptyProof)
    } else if proof.len() > MAX_PROOF_SIZE {
        Some(VerifierError::ProofTooLarge)
    } else if claim.len() == 0 {
        Some(VerifierError::EmptyClaim)
    } else if claim.len() > MAX_CLAIM_SIZE {
        Some(VerifierError::ClaimTooLarge)
    } else {
        None
    }
}

/// Verify `proof` against `claim` as `verify_claim` does, and give with the
/// verdict the SHA-256 digest of the claim, which the verification event
/// publishes.
pub fn verify_claim_event(env: &soroban_sdk::Env, proof: &[u8], claim: &[u8]) -> (r: Result<
    (bool, [u8; 32]),
    VerifierError,
>)
    ensures
        match claim_input_error(proof@, claim@) {
            Some(e) => r == Err::<(bool, [u8; 32]), VerifierError>(e),
            None => r matches Ok((b, h)) && b == claim_verdict(proof@) && h@ == spec_sha256(claim@),
        },
{
    match verify_claim(proof, claim) {
        Ok(b) => Ok((b, sha256_digest(env, claim))),
        Err(e) => Err(e),
    }
}

/// Verify `proof` against `claim`: rejects empty or oversized input, then gives
/// the verdict.
pub fn verify_claim(proof: &[u8], claim: &[u8]) -> (r: Result<bool, VerifierError>)
    ensures
        r == (match claim_input_error(proof@, claim@) {
            Some(e) => Err(e),
            None => Ok(claim_verdict(proof@)),
        }),
{
    if proof.len() == 0 {
        return Err(VerifierError::EmptyProof);
    }
    if proof.len() > MAX_PROOF_SIZE {
        return Err(VerifierError::ProofTooLarge);
    }
    if claim.len() == 0 {
        return Err(VerifierError::EmptyClaim);
    }
    if claim.len() > MAX_CLAIM_SIZE {
        return Err(VerifierError::ClaimTooLarge);
    }
    Ok(!(proof.len() == 1 && proof[0] == 0u8))
}

/// With unique digest pairs, the attestation at `i` is what `attested_by` finds.
pub proof fn lemma_attested_at(atts: Seq<Attestation>, i: int)
    requires
        attestations_unique(atts),
        0 <= i < atts.len(),
    ensures
        attested_by(atts, atts[i].proof_hash@, atts[i].claim_hash@) == Some(atts[i].oracle),
{
    let ph = atts[i].proof_hash@;
    let ch = atts[i].claim_hash@;
    let j = choose|j: int| 0 <= j < atts.len() && atts[j].proof_hash@ == ph && atts[j].claim_hash@ == ch;
    if j < i {
        assert(!(atts[j].proof_hash@ == atts[i].proof_hash@ && atts[j].claim_hash@ == atts[i].claim_hash@));
    } else if j > i {
        assert(!(atts[i].proof_hash@ == atts[j].proof_hash@ && atts[i].claim_hash@ == atts[j].claim_hash@));
    }
}

impl ZkVerifierContract {
    pub open spec fn wf(&self) -> bool {
        &&& self.oracles.wf()
        &&& attestations_unique(self.attestations@)
    }

    pub open spec fn is_oracle_spec(&self, oracle: BeneficiaryId) -> bool {
        self.oracles@.contains_key(oracle) && self.oracles@[oracle]
    }

    /// A contract with no admin, oracles or attestations.
    pub fn new() -> (c: Self)
        ensures
            c.wf(),
            c.admin.is_none(),
            c.oracles@ == Map::<u64, bool>::empty(),
            c.attestations@.len() == 0,
    {
        ZkVerifierContract { admin: None, oracles: KeyedMap::new(), attestations: Vec::new() }
    }

    /// Set the admin; a contract is initialized once.
    pub fn initialize(&mut self, admin: BeneficiaryId) -> (r: Result<(), VerifierError>)
        requires
            old(self).wf(),
        ensures
            final(self).wf(),
            old(self).admin.is_some() ==> r == Err::<(), VerifierError>(
                VerifierError::AlreadyInitialized,
            ) && *final(self) == *old(self),
            old(self).admin.is_none() ==> r is Ok && final(self).admin == Some(admin)
                && final(self).oracles == old(self).oracles && final(self).attestations
                == old(self).attestations,
    {
        if self.admin.is_some() {
            return Err(VerifierError::AlreadyInitialized);
        }
        self.admin = Some(admin);
        Ok(())
    }

    /// Register a trusted oracle (the admin's call).
    pub fn register_oracle(&mut self, oracle: BeneficiaryId) -> (r: Result<(), VerifierError>)
        requires
            old(self).wf(),
        ensures
            final(self).wf(),
            old(self).admin.is_none() ==> r == Err::<(), VerifierError>(
                VerifierError::NotInitialized,
            ) && final(self).oracles@ == old(self).oracles@,
            old(self).admin.is_some() ==> r is Ok && final(self).oracles@ == old(self).oracles@.insert(
                oracle,
                true,
            ),
            final(self).admin == old(self).admin,
            final(self).attestations == old(self).attestations,
    {
        if self.admin.is_none() {
            return Err(VerifierError::NotInitialized);
        }
        self.oracles.set(oracle, true);
        Ok(())
    }

    /// Revoke a trusted oracle (the admin's call).
    pub fn revoke_oracle(&mut self, oracle: BeneficiaryId) -> (r: Result<(), VerifierError>)
        requires
            old(self).wf(),
        ensures
            final(self).wf(),
            old(self).admin.is_none() ==> r == Err::<(), VerifierError>(
                VerifierError::NotInitialized,
            ) && final(self).oracles@ == old(self).oracles@,
            old(self).admin.is_some() ==> r is Ok && !final(self).is_oracle_spec(oracle) && (
            forall|o: u64| o != oracle ==> final(self).is_oracle_spec(o) == old(self).is_oracle_spec(o)),
            final(self).admin == old(self).admin,
            final(self).attestations == old(self).attestations,
    {
        if self.admin.is_none() {
            return Err(VerifierError::NotInitialized);
        }
        if self.oracles.get(oracle).is_some() {
            self.oracles.set(oracle, false);
        }
        Ok(())
    }

    /// Whether `oracle` is a registered oracle.
    pub fn is_oracle(&self, oracle: BeneficiaryId) -> (r: bool)
        requires
            self.wf(),
        ensures
            r == self.is_oracle_spec(oracle),
    {
        match self.oracles.get(oracle) {
            Some(b) => b,
            None => false,
        }
    }

    /// Record an oracle's attestation of `proof` for `claim`, by their
    /// SHA-256 digests.
    pub fn attest(&mut self, env: &soroban_sdk::Env, oracle: BeneficiaryId, proof: &[u8], claim: &[u8]) -> (r:
        Result<(), VerifierError>)
        requires
            old(self).wf(),
        ensures
            final(self).wf(),
            final(self).admin == old(self).admin,
            final(self).oracles == old(self).oracles,
            proof@.len() == 0 ==> r == Err::<(), VerifierError>(VerifierError::EmptyProof),
            proof@.len() > 0 && claim@.len() == 0 ==> r == Err::<(), VerifierError>(
                VerifierError::EmptyClaim,
            ),
            proof@.len() > 0 && claim@.len() > 0 && !old(self).is_oracle_spec(oracle) ==> r == Err::<
                (),
                VerifierError,
            >(VerifierError::OracleNotFound),
            r is Err ==> final(self).attestations == old(self).attestations,
            proof@.len() > 0 && claim@.len() > 0 && old(self).is_oracle_spec(oracle) ==> r is Ok,
            r is Ok ==> attested_by(final(self).attestations@, spec_sha256(proof@), spec_sha256(claim@))
                == Some(oracle),
            r is Ok ==> forall|ph: Seq<u8>, ch: Seq<u8>|
                !(ph == spec_sha256(proof@) && ch == spec_sha256(claim@)) ==> #[trigger] attested_by(
                    final(self).attestations@,
                    ph,
                    ch,
                ) == attested_by(old(self).attestations@, ph, ch),
    {
        if proof.len() == 0 {
            return Err(VerifierError::EmptyProof);
        }
        if claim.len() == 0 {
            return Err(VerifierError::EmptyClaim);
        }
        if !self.is_oracle(oracle) {
            return Err(VerifierError::OracleNotFound);
        }
        let proof_hash = sha256_digest(env, proof);
        let claim_hash = sha256_digest(env, claim);
        self.attest_digests(oracle, proof, claim, proof_hash, claim_hash)
    }

    /// Record an oracle's attestation of `proof` for `claim`, by the given
    /// digests.
    fn attest_digests(
        &mut self,
        oracle: BeneficiaryId,
        proof: &[u8],
        claim: &[u8],
        proof_hash: [u8; 32],
        claim_hash: [u8; 32],
    ) -> (r: Result<(), VerifierError>)
        requires
            old(self).wf(),
        ensures
            final(self).wf(),
            final(self).admin == old(self).admin,
            final(self).oracles == old(self).oracles,
            proof@.len() == 0 ==> r == Err::<(), VerifierError>(VerifierError::EmptyProof),
            proof@.len() > 0 && claim@.len() == 0 ==> r == Err::<(), VerifierError>(
                VerifierError::EmptyClaim,
            ),
            proof@.len() > 0 && claim@.len() > 0 && !old(self).is_oracle_spec(oracle) ==> r == Err::<
                (),
                VerifierError,
            >(VerifierError::OracleNotFound),
            r is Err ==> final(self).attestations == old(self).attestations,
            proof@.len() > 0 && claim@.len() > 0 && old(self).is_oracle_spec(oracle) ==> r is Ok,
            r is Ok ==> attested_by(final(self).attestations@, proof_hash@, claim_hash@) == Some(
                oracle,
            ),
            r is Ok ==> forall|ph: Seq<u8>, ch: Seq<u8>|
                !(ph == proof_hash@ && ch == claim_hash@) ==> #[trigger] attested_by(
                    final(self).attestations@,
                    ph,
                    ch,
                ) == attested_by(old(self).attestations@, ph, ch),
    {
        if proof.len() == 0 {
            return Err(VerifierError::EmptyProof);
        }
        if claim.len() == 0 {
            return Err(VerifierError::EmptyClaim);
        }
        if !self.is_oracle(oracle) {
            return Err(VerifierError::OracleNotFound);
        }
        let ghost a0 = self.attestations@;
        let att = Attestation { proof_hash, claim_hash, oracle };
        let n = self.attestations.len();
        let mut i: usize = 0;
        while i < n
            invariant
                n == self.attestations@.len(),
                self.attestations@ == a0,
                old(self).attestations@ == a0,
                attestations_unique(a0),
                att == (Attestation { proof_hash, claim_hash, oracle }),
                proof@.len() > 0,
                claim@.len() > 0,
                old(self).is_oracle_spec(oracle),
                self.oracles == old(self).oracles,
                self.admin == old(self).admin,
                self.oracles.wf(),
                0 <= i <= n,
                forall|k: int|
                    0 <= k < i ==> !(a0[k].proof_hash@ == proof_hash@ && a0[k].claim_hash@
                        == claim_hash@),
            decreases n - i,
        {
            let cur = self.attestations[i];
            if same_digest(&cur.proof_hash, &proof_hash) && same_digest(&cur.claim_hash, &claim_hash) {
                self.attestations.set(i, att);
                proof {
                    let a1 = self.attestations@;
                    assert(cur == a0[i as int]);
                    assert(a0[i as int].proof_hash@ == proof_hash@ && a0[i as int].claim_hash@ == claim_hash@);
                    assert(a1 == a0.update(i as int, att));
                    assert forall|x: int, y: int| 0 <= x < y < a1.len() implies !(a1[x].proof_hash@ == a1[y].proof_hash@
                        && a1[x].claim_hash@ == a1[y].claim_hash@) by {
                        if x == i {
                            assert(a1[x] == att);
                            assert(att.proof_hash@ == proof_hash@);
                            assert(a1[x].proof_hash@ == a0[x].proof_hash@);
                            assert(a1[x].claim_hash@ == a0[x].claim_hash@);
                        }
                        if y == i {
                            assert(a1[y] == att);
                            assert(a1[y].proof_hash@ == a0[y].proof_hash@);
                            assert(a1[y].claim_hash@ == a0[y].claim_hash@);
                        }
                    }
                    lemma_attested_at(a1, i as int);
                    assert forall|ph: Seq<u8>, ch: Seq<u8>|
                        !(ph == proof_hash@ && ch == claim_hash@) implies #[trigger] attested_by(a1, ph, ch)
                            == attested_by(a0, ph, ch) by {
                        if exists|k: int| 0 <= k < a0.len() && a0[k].proof_hash@ == ph && a0[k].claim_hash@ == ch {
                            let k = choose|k: int| 0 <= k < a0.len() && a0[k].proof_hash@ == ph && a0[k].claim_hash@ == ch;
                            assert(k != i);
                            assert(a1[k] == a0[k]);
                            lemma_attested_at(a1, k);
                            lemma_attested_at(a0, k);
                        } else {
                            if exists|k: int| 0 <= k < a1.len() && a1[k].proof_hash@ == ph && a1[k].claim_hash@ == ch {
                                let k = choose|k: int| 0 <= k < a1.len() && a1[k].proof_hash@ == ph && a1[k].claim_hash@ == ch;
                                assert(k != i);
                                assert(a1[k] == a0[k]);
                            }
                        }
                    }
                }
                return Ok(());
            }
            i = i + 1;
        }
        self.attestations.push(att);
        proof {
            let a1 = self.attestations@;
            assert(a1 == a0.push(att));
            lemma_attested_at(a1, n as int);
            assert forall|ph: Seq<u8>, ch: Seq<u8>|
                !(ph == proof_hash@ && ch == claim_hash@) implies #[trigger] attested_by(a1, ph, ch)
                    == attested_by(a0, ph, ch) by {
                if exists|k: int| 0 <= k < a0.len() && a0[k].proof_hash@ == ph && a0[k].claim_hash@ == ch {
                    let k = choose|k: int| 0 <= k < a0.len() && a0[k].proof_hash@ == ph && a0[k].claim_hash@ == ch;
                    assert(a1[k] == a0[k]);
                    lemma_attested_at(a1, k);
                    lemma_attested_at(a0, k);
                } else {
                    if exists|k: int| 0 <= k < a1.len() && a1[k].proof_hash@ == ph && a1[k].claim_hash@ == ch {
                        let k = choose|k: int| 0 <= k < a1.len() && a1[k].proof_hash@ == ph && a1[k].claim_hash@ == ch;
                        assert(k != n);
                        assert(a1[k] == a0[k]);
                    }
                }
            }
        }
        Ok(())
    }
}

} // verus!
