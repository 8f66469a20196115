use ttl_legacy::caps::CapRegistry;
use ttl_legacy::floors::FloorRegistry;
use ttl_legacy::keyed_map::KeyedMap;
use ttl_legacy::matching::MatchRegistry;
use ttl_legacy::ranking::RankRegistry;
use ttl_legacy::vesting::{compute_vested_amount, VestingSchedule};
use ttl_legacy::zk_verifier::{verify_claim, verify_claim_event, VerifierError, ZkVerifierContract};

const ALICE: u64 = 1;
const BOB: u64 = 2;
const CAROL: u64 = 3;

fn dist(pairs: &[(u64, i128)]) -> KeyedMap<i128> {
    let mut m = KeyedMap::new();
    for (k, v) in pairs {
        m.set(*k, *v);
    }
    m
}

#[test]
fn amount_within_cap_is_unchanged() {
    let mut caps = CapRegistry::new();
    caps.set_cap(ALICE, 1_000);
    let out = caps.apply_caps(&dist(&[(ALICE, 800)]));
    assert_eq!(out.capped.get(ALICE).unwrap(), 800);
    assert_eq!(out.excess, 0);
}

#[test]
fn over_cap_amount_is_redistributed() {
    let mut caps = CapRegistry::new();
    caps.set_cap(ALICE, 500);
    let out = caps.apply_caps(&dist(&[(ALICE, 900), (BOB, 100)]));
    assert_eq!(out.capped.get(ALICE).unwrap(), 500);
    assert_eq!(out.capped.get(BOB).unwrap(), 500);
    assert_eq!(out.excess, 0);
}

#[test]
fn returns_excess_when_no_beneficiary_has_room() {
    let mut caps = CapRegistry::new();
    caps.set_cap(ALICE, 500);
    let out = caps.apply_caps(&dist(&[(ALICE, 900)]));
    assert_eq!(out.capped.get(ALICE).unwrap(), 500);
    assert_eq!(out.excess, 400);
}

#[test]
fn cap_enforced_event_is_emitted() {
    let mut caps = CapRegistry::new();
    caps.set_cap(ALICE, 100);
    let out = caps.apply_caps(&dist(&[(ALICE, 500)]));
    assert_eq!(out.enforced.len(), 1);
    assert_eq!(out.enforced[0].beneficiary, ALICE);
    assert_eq!(out.enforced[0].requested, 500);
    assert_eq!(out.enforced[0].capped_at, 100);
    assert_eq!(out.enforced[0].excess, 400);
}

#[test]
fn caps_keep_the_total_when_room_remains() {
    let mut caps = CapRegistry::new();
    caps.set_cap(ALICE, 300);
    caps.set_cap(BOB, 450);
    let out = caps.apply_caps(&dist(&[(ALICE, 600), (BOB, 300), (CAROL, 100)]));
    let a = out.capped.get(ALICE).unwrap();
    let b = out.capped.get(BOB).unwrap();
    let c = out.capped.get(CAROL).unwrap();
    assert_eq!(a, 300);
    assert!(b <= 450);
    assert_eq!(a + b + c + out.excess, 1_000);
    let ev = caps.set_cap(CAROL, 7);
    assert_eq!(ev.beneficiary, CAROL);
    assert_eq!(ev.cap, 7);
}

#[test]
fn amount_above_floor_is_unchanged() {
    let mut floors = FloorRegistry::new();
    floors.set_floor(ALICE, 200);
    let out = floors.apply_floors(&dist(&[(ALICE, 500)]), 1_000);
    assert_eq!(out.result.get(ALICE).unwrap(), 500);
    assert_eq!(out.shortfall, 0);
}

#[test]
fn amount_below_floor_is_raised_when_funded() {
    let mut floors = FloorRegistry::new();
    floors.set_floor(ALICE, 300);
    let out = floors.apply_floors(&dist(&[(ALICE, 100)]), 1_000);
    assert_eq!(out.result.get(ALICE).unwrap(), 300);
    assert_eq!(out.shortfall, 0);
}

#[test]
fn insufficient_estate_reports_shortfall() {
    let mut floors = FloorRegistry::new();
    floors.set_floor(ALICE, 500);
    let out = floors.apply_floors(&dist(&[(ALICE, 100)]), 200);
    assert_eq!(out.result.get(ALICE).unwrap(), 200);
    assert_eq!(out.shortfall, 300);
}

#[test]
fn no_floor_passes_original_amount() {
    let floors = FloorRegistry::new();
    let out = floors.apply_floors(&dist(&[(ALICE, 750)]), 1_000);
    assert_eq!(out.result.get(ALICE).unwrap(), 750);
    assert_eq!(out.shortfall, 0);
}

#[test]
fn floor_enforced_event_is_emitted() {
    let mut floors = FloorRegistry::new();
    floors.set_floor(ALICE, 400);
    let out = floors.apply_floors(&dist(&[(ALICE, 50)]), 50);
    assert_eq!(out.enforced.len(), 1);
    assert_eq!(out.enforced[0].floor, 400);
    assert_eq!(out.enforced[0].shortfall, 350);
}

#[test]
fn computes_full_match() {
    let mut matches = MatchRegistry::new();
    matches.set_match(ALICE, CAROL, 10_000);
    let out = matches.compute_matched_amounts(&dist(&[(ALICE, 1_000)]));
    assert_eq!(out.matched.get(CAROL).unwrap(), 1_000);
}

#[test]
fn computes_partial_match() {
    let mut matches = MatchRegistry::new();
    matches.set_match(ALICE, BOB, 5_000);
    let out = matches.compute_matched_amounts(&dist(&[(ALICE, 2_000)]));
    assert_eq!(out.matched.get(BOB).unwrap(), 1_000);
    assert_eq!(out.events.len(), 1);
    assert_eq!(out.events[0].source_amount, 2_000);
    assert_eq!(out.events[0].matched_amount, 1_000);
}

#[test]
fn missing_source_produces_no_match() {
    let mut matches = MatchRegistry::new();
    matches.set_match(ALICE, BOB, 10_000);
    let out = matches.compute_matched_amounts(&dist(&[(CAROL, 1_000)]));
    assert_eq!(out.matched.get(BOB).unwrap_or(0), 0);
}

#[test]
fn emits_match_set_event() {
    let mut matches = MatchRegistry::new();
    let ev = matches.set_match(ALICE, BOB, 10_000);
    assert_eq!(ev.source, ALICE);
    assert_eq!(ev.matched, BOB);
    assert_eq!(ev.match_bps, 10_000);
}

#[test]
fn higher_priority_receives_before_lower_priority() {
    let mut ranks = RankRegistry::new();
    ranks.set_rank(ALICE, 1);
    ranks.set_rank(BOB, 2);
    let out = ranks.distribute_by_rank(500);
    assert_eq!(out.distributions.get(ALICE).unwrap(), 500);
    assert_eq!(out.distributions.get(BOB).unwrap_or(0), 0);
}

#[test]
fn same_priority_splits_by_allocation_bps() {
    let mut ranks = RankRegistry::new();
    ranks.set_rank(ALICE, 1);
    ranks.set_rank(BOB, 1);
    let out = ranks.distribute_by_rank(1_000);
    assert_eq!(out.distributions.get(ALICE).unwrap(), 500);
    assert_eq!(out.distributions.get(BOB).unwrap(), 500);
}

#[test]
fn ranking_set_event_is_emitted() {
    let mut ranks = RankRegistry::new();
    let ev = ranks.set_rank(ALICE, 1);
    assert_eq!(ev.beneficiary, ALICE);
    assert_eq!(ev.priority, 1);
}

#[test]
fn lower_tier_gets_what_is_left() {
    let mut ranks = RankRegistry::new();
    ranks.set_rank(CAROL, 0);
    ranks.set_rank(ALICE, 5);
    let out = ranks.distribute_by_rank(0);
    assert!(out.distributions.get(CAROL).is_none());
    let out = ranks.distribute_by_rank(900);
    assert_eq!(out.distributions.get(CAROL).unwrap(), 900);
    assert_eq!(out.events.len(), 1);
    assert_eq!(out.events[0].beneficiary, CAROL);
}

#[test]
fn vesting_installments() {
    let s = VestingSchedule {
        start_time: 100,
        interval: 10,
        num_installments: 4,
        total_amount: 1_000,
        cliff_period: 0,
    };
    assert_eq!(compute_vested_amount(&s, 99), 0);
    assert_eq!(compute_vested_amount(&s, 100), 250);
    assert_eq!(compute_vested_amount(&s, 119), 500);
    assert_eq!(compute_vested_amount(&s, 130), 1_000);
    assert_eq!(compute_vested_amount(&s, u64::MAX), 1_000);
    let cliff = VestingSchedule { cliff_period: 25, ..s };
    assert_eq!(compute_vested_amount(&cliff, 124), 0);
    assert_eq!(compute_vested_amount(&cliff, 125), 750);
    let odd = VestingSchedule { total_amount: 10, num_installments: 3, ..s };
    assert_eq!(compute_vested_amount(&odd, 110), 6);
    assert_eq!(compute_vested_amount(&odd, 120), 10);
    let none = VestingSchedule { num_installments: 0, ..s };
    assert_eq!(compute_vested_amount(&none, 500), 0);
    let negative = VestingSchedule { total_amount: -5, ..s };
    assert_eq!(compute_vested_amount(&negative, 500), 0);
}

#[test]
fn vested_amount_stays_within_total() {
    for start in [0u64, 5, 1_000] {
        for interval in [0u64, 1, 7] {
            for n in [1u32, 2, 5] {
                for total in [1i128, 99, 1_000_000] {
                    for cliff in [0u64, 3] {
                        let s = VestingSchedule { start_time: start, interval, num_installments: n, total_amount: total, cliff_period: cliff };
                        let mut prev = 0;
                        for t in 0..60u64 {
                            let v = compute_vested_amount(&s, t);
                            assert!(0 <= v && v <= total);
                            assert!(v >= prev);
                            prev = v;
                        }
                    }
                }
            }
        }
    }
}

#[test]
fn verify_claim_checks_inputs_in_order() {
    assert_eq!(verify_claim(&[], &[]), Err(VerifierError::EmptyProof));
    assert_eq!(verify_claim(&vec![1u8; 4097], &[]), Err(VerifierError::ProofTooLarge));
    assert_eq!(verify_claim(&[1], &[]), Err(VerifierError::EmptyClaim));
    assert_eq!(verify_claim(&[1], &vec![1u8; 1025]), Err(VerifierError::ClaimTooLarge));
    assert_eq!(verify_claim(&[0], &[1]), Ok(false));
    assert_eq!(verify_claim(&[0, 0], &[1]), Ok(true));
    assert_eq!(verify_claim(&vec![7u8; 4096], &vec![1u8; 1024]), Ok(true));
}

#[test]
fn oracle_registry_lifecycle() {
    let mut c = ZkVerifierContract::new();
    assert_eq!(c.register_oracle(BOB), Err(VerifierError::NotInitialized));
    assert_eq!(c.initialize(ALICE), Ok(()));
    assert_eq!(c.initialize(CAROL), Err(VerifierError::AlreadyInitialized));
    assert_eq!(c.admin, Some(ALICE));
    assert!(!c.is_oracle(BOB));
    assert_eq!(c.register_oracle(BOB), Ok(()));
    assert!(c.is_oracle(BOB));
    let env = soroban_sdk::Env::default();
    assert_eq!(c.attest(&env, CAROL, &[1], b"abc"), Err(VerifierError::OracleNotFound));
    assert_eq!(c.attest(&env, BOB, &[], b"abc"), Err(VerifierError::EmptyProof));
    assert_eq!(c.attest(&env, BOB, &[1], &[]), Err(VerifierError::EmptyClaim));
    assert!(c.attestations.is_empty());
    assert_eq!(c.attest(&env, BOB, &[1], b"abc"), Ok(()));
    assert_eq!(c.attestations.len(), 1);
    assert_eq!(c.attestations[0].oracle, BOB);
    assert_eq!(c.attestations[0].claim_hash, ABC_SHA256);
    assert_eq!(c.attestations[0].proof_hash, ONE_SHA256);
    assert_eq!(c.attest(&env, BOB, &[1], b"abc"), Ok(()));
    assert_eq!(c.attestations.len(), 1);
    assert_eq!(c.attest(&env, BOB, &[2], b"abc"), Ok(()));
    assert_eq!(c.attestations.len(), 2);
    assert_eq!(c.revoke_oracle(BOB), Ok(()));
    assert!(!c.is_oracle(BOB));
    assert_eq!(c.revoke_oracle(CAROL), Ok(()));
    assert!(!c.is_oracle(CAROL));
}

#[test]
fn rank_payouts_never_exceed_the_total() {
    let mut ranks = RankRegistry::new();
    ranks.set_rank(ALICE, 2);
    ranks.set_rank(BOB, 1);
    ranks.set_rank(CAROL, 2);
    let out = ranks.distribute_by_rank(1_001);
    let paid: i128 = out.events.iter().map(|e| e.amount).sum();
    assert!(out.events.iter().all(|e| e.amount >= 0));
    assert_eq!(paid, 1_001);
    assert_eq!(out.distributions.get(BOB).unwrap(), 1_001);
    assert_eq!(out.events[0].beneficiary, BOB);
    let none = ranks.distribute_by_rank(-5);
    assert!(none.events.is_empty());
}

#[test]
fn caps_handle_negative_and_huge_amounts() {
    let mut caps = CapRegistry::new();
    caps.set_cap(ALICE, 500);
    caps.set_cap(BOB, 1_000);
    let d = dist(&[(ALICE, 900), (BOB, -100)]);
    assert!(caps.caps_fit_for(&d));
    let out = caps.apply_caps(&d);
    assert_eq!(out.capped.get(ALICE).unwrap(), 500);
    assert_eq!(out.capped.get(BOB).unwrap(), 300);
    assert_eq!(out.excess, 0);
    let uncapped_negative = dist(&[(ALICE, 900), (CAROL, -100)]);
    assert!(!caps.caps_fit_for(&uncapped_negative));
    let mut tight = CapRegistry::new();
    tight.set_cap(ALICE, 1);
    let big = dist(&[(ALICE, 1i128 << 100), (BOB, 1i128 << 100)]);
    assert!(!tight.caps_fit_for(&big));
    let no_excess = dist(&[(ALICE, 1), (BOB, i128::MAX)]);
    assert!(tight.caps_fit_for(&no_excess));
    assert_eq!(tight.apply_caps(&no_excess).capped.get(BOB).unwrap(), i128::MAX);
}

#[test]
fn floors_raise_negative_amounts_to_zero() {
    let floors = FloorRegistry::new();
    let d = dist(&[(ALICE, -50)]);
    assert!(floors.floors_fit(&d, 100));
    let out = floors.apply_floors(&d, 100);
    assert_eq!(out.result.get(ALICE).unwrap(), 0);
    assert_eq!(out.shortfall, 0);
    let mut high = FloorRegistry::new();
    high.set_floor(ALICE, i128::MAX);
    high.set_floor(BOB, i128::MAX);
    let both = dist(&[(ALICE, 0), (BOB, 0)]);
    assert!(!high.floors_fit(&both, 0));
    assert!(high.floors_fit(&dist(&[(ALICE, 0)]), 0));
    assert_eq!(high.apply_floors(&dist(&[(ALICE, 0)]), 0).shortfall, i128::MAX);
}

#[test]
fn matching_sums_must_fit() {
    let mut matches = MatchRegistry::new();
    matches.set_match(ALICE, CAROL, 10_000);
    let one = dist(&[(ALICE, i128::MAX)]);
    assert!(matches.matches_fit_for(&one));
    assert_eq!(matches.compute_matched_amounts(&one).matched.get(CAROL).unwrap(), i128::MAX);
    matches.set_match(BOB, CAROL, 10_000);
    let two = dist(&[(ALICE, i128::MAX), (BOB, i128::MAX)]);
    assert!(!matches.matches_fit_for(&two));
    let negative = dist(&[(ALICE, -7), (BOB, 3)]);
    let out = matches.compute_matched_amounts(&negative);
    assert_eq!(out.matched.get(CAROL).unwrap(), 3);
    assert_eq!(out.events.len(), 1);
}

#[test]
fn ranking_handles_the_largest_total() {
    let mut ranks = RankRegistry::new();
    ranks.set_rank(ALICE, 1);
    ranks.set_rank(BOB, 1);
    let out = ranks.distribute_by_rank(i128::MAX);
    assert_eq!(out.distributions.get(ALICE).unwrap(), i128::MAX / 2);
    assert_eq!(out.distributions.get(BOB).unwrap(), i128::MAX / 2);
}

const ABC_SHA256: [u8; 32] = [0xba, 0x78, 0x16, 0xbf, 0x8f, 0x01, 0xcf, 0xea, 0x41, 0x41, 0x40, 0xde, 0x5d, 0xae, 0x22, 0x23, 0xb0, 0x03, 0x61, 0xa3, 0x96, 0x17, 0x7a, 0x9c, 0xb4, 0x10, 0xff, 0x61, 0xf2, 0x00, 0x15, 0xad];
const ONE_SHA256: [u8; 32] = [0x4b, 0xf5, 0x12, 0x2f, 0x34, 0x45, 0x54, 0xc5, 0x3b, 0xde, 0x2e, 0xbb, 0x8c, 0xd2, 0xb7, 0xe3, 0xd1, 0x60, 0x0a, 0xd6, 0x31, 0xc3, 0x85, 0xa5, 0xd7, 0xcc, 0xe2, 0x3c, 0x77, 0x85, 0x45, 0x9a];

#[test]
fn verify_claim_event_carries_the_claim_digest() {
    let env = soroban_sdk::Env::default();
    assert_eq!(verify_claim_event(&env, &[7], b"abc"), Ok((true, ABC_SHA256)));
    assert_eq!(verify_claim_event(&env, &[0], b"abc"), Ok((false, ABC_SHA256)));
    assert_eq!(verify_claim_event(&env, &[], b"abc"), Err(VerifierError::EmptyProof));
    assert_eq!(verify_claim_event(&env, &[1], &vec![0u8; 1025]), Err(VerifierError::ClaimTooLarge));
}

#[test]
fn floor_shortfall_is_the_sum_of_gaps() {
    let mut floors = FloorRegistry::new();
    floors.set_floor(ALICE, 300);
    floors.set_floor(BOB, 200);
    let out = floors.apply_floors(&dist(&[(ALICE, 100), (BOB, 50), (CAROL, 40)]), 350);
    let a = out.result.get(ALICE).unwrap();
    let b = out.result.get(BOB).unwrap();
    assert_eq!(a, 300);
    assert_eq!(b, 50);
    assert_eq!(out.result.get(CAROL).unwrap(), 0);
    assert_eq!(out.shortfall, (300 - a) + (200 - b));
}

#[test]
fn excess_remains_only_when_every_key_is_capped() {
    let mut caps = CapRegistry::new();
    caps.set_cap(ALICE, 100);
    caps.set_cap(BOB, 100);
    let out = caps.apply_caps(&dist(&[(ALICE, 500), (BOB, 50)]));
    assert_eq!(out.capped.get(ALICE).unwrap(), 100);
    assert_eq!(out.capped.get(BOB).unwrap(), 100);
    assert_eq!(out.excess, 350);
}

#[test]
fn matched_amounts_sum_per_target() {
    let mut matches = MatchRegistry::new();
    matches.set_match(ALICE, CAROL, 5_000);
    matches.set_match(BOB, CAROL, 2_500);
    let out = matches.compute_matched_amounts(&dist(&[(ALICE, 1_000), (BOB, 400)]));
    assert_eq!(out.matched.get(CAROL).unwrap(), 500 + 100);
    assert!(out.matched.get(ALICE).is_none());
    assert_eq!(out.events.len(), 2);
}

#[test]
fn rank_events_follow_priority_order() {
    let mut ranks = RankRegistry::new();
    ranks.set_rank(CAROL, 1);
    ranks.set_rank(ALICE, 3);
    ranks.set_rank(BOB, 1);
    let out = ranks.distribute_by_rank(100);
    let order: Vec<u64> = out.events.iter().map(|e| e.beneficiary).collect();
    assert_eq!(order, vec![BOB, CAROL]);
    assert!(out.events.windows(2).all(|w| w[0].priority <= w[1].priority));
    for e in out.events.iter() {
        assert_eq!(out.distributions.get(e.beneficiary).unwrap(), e.amount);
    }
    assert!(out.distributions.get(ALICE).is_none());
}
