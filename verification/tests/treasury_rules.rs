use ayuda_direct::{
    Address, Beneficiary, ContractError, DirectAyudaContract, DisbursementRecord, Transfer,
};

fn addr(s: &str) -> Address {
    Address::new(s.to_string())
}

fn ready() -> (DirectAyudaContract, Address) {
    let mut t = DirectAyudaContract::new();
    let admin = addr("GADMIN");
    t.initialize(admin.clone(), addr("CTOKEN"), b"Subsidy".to_vec()).unwrap();
    (t, admin)
}

#[test]
fn fresh_treasury_is_uninitialized() {
    let t = DirectAyudaContract::new();
    assert_eq!(t.get_config().unwrap_err(), ContractError::NotInitialized);
    assert_eq!(t.get_current_cycle(), 1);
    assert_eq!(t.get_total_funds(), 0);
    assert_eq!(t.get_total_disbursed(), 0);
    assert!(t.get_all_beneficiaries().is_empty());
    assert!(t.get_audit_log().is_empty());
}

#[test]
fn operations_before_initialize_are_refused() {
    let mut t = DirectAyudaContract::new();
    let a = addr("GADMIN");
    let b = addr("GBEN");
    assert_eq!(t.fund(&a, 10).unwrap_err(), ContractError::NotInitialized);
    assert_eq!(t.transfer_admin(&a, b.clone()).unwrap_err(), ContractError::NotInitialized);
    assert_eq!(
        t.register_beneficiary(&a, b.clone(), b"B".to_vec(), 5, 0).unwrap_err(),
        ContractError::NotInitialized
    );
    assert_eq!(t.deactivate_beneficiary(&a, &b).unwrap_err(), ContractError::NotInitialized);
    assert_eq!(t.reactivate_beneficiary(&a, &b).unwrap_err(), ContractError::NotInitialized);
    assert_eq!(t.claim(&b, 0).unwrap_err(), ContractError::NotInitialized);
    assert_eq!(t.disburse_to(&a, &b, 0).unwrap_err(), ContractError::NotInitialized);
    assert_eq!(t.advance_cycle(&a).unwrap_err(), ContractError::NotInitialized);
    assert_eq!(t.withdraw_surplus(&a, 1).unwrap_err(), ContractError::NotInitialized);
}

#[test]
fn fund_returns_deposit_from_admin() {
    let (mut t, admin) = ready();
    match t.fund(&admin, 1_234).unwrap() {
        Transfer::Deposit { from, amount } => {
            assert_eq!(from, admin);
            assert_eq!(amount, 1_234);
        }
        Transfer::Payout { .. } => panic!("a deposit was expected"),
    }
    assert_eq!(t.get_total_funds(), 1_234);
}

#[test]
fn fund_overflow_is_refused_and_leaves_state() {
    let (mut t, admin) = ready();
    t.fund(&admin, i128::MAX).unwrap();
    assert_eq!(t.fund(&admin, 1).unwrap_err(), ContractError::Overflow);
    assert_eq!(t.get_total_funds(), i128::MAX);
    assert_eq!(t.fund(&admin, -5).unwrap_err(), ContractError::NonPositiveFundAmount);
}

#[test]
fn withdraw_returns_payout_to_admin() {
    let (mut t, admin) = ready();
    t.fund(&admin, 900).unwrap();
    match t.withdraw_surplus(&admin, 400).unwrap() {
        Transfer::Payout { to, amount } => {
            assert_eq!(to, admin);
            assert_eq!(amount, 400);
        }
        Transfer::Deposit { .. } => panic!("a payout was expected"),
    }
    assert_eq!(t.get_total_funds(), 500);
}

#[test]
fn withdraw_counts_only_unpaid_active_beneficiaries() {
    let (mut t, admin) = ready();
    t.fund(&admin, 10_000).unwrap();
    let a = addr("GA");
    let b = addr("GB");
    let c = addr("GC");
    t.register_beneficiary(&admin, a.clone(), b"A".to_vec(), 1_000, 7).unwrap();
    t.register_beneficiary(&admin, b.clone(), b"B".to_vec(), 2_000, 7).unwrap();
    t.register_beneficiary(&admin, c.clone(), b"C".to_vec(), 3_000, 7).unwrap();
    t.claim(&a, 8).unwrap();
    t.deactivate_beneficiary(&admin, &c).unwrap();
    // funds 9_000; only b is still owed 2_000
    assert_eq!(t.withdraw_surplus(&admin, 7_001).unwrap_err(), ContractError::PendingClaims);
    assert_eq!(t.get_total_funds(), 9_000);
    t.withdraw_surplus(&admin, 7_000).unwrap();
    assert_eq!(t.get_total_funds(), 2_000);
    assert_eq!(t.withdraw_surplus(&admin, 1).unwrap_err(), ContractError::PendingClaims);
}

#[test]
fn withdraw_pending_overflow_is_reported() {
    let (mut t, admin) = ready();
    t.register_beneficiary(&admin, addr("GA"), b"A".to_vec(), i128::MAX, 0).unwrap();
    t.register_beneficiary(&admin, addr("GB"), b"B".to_vec(), 1, 0).unwrap();
    t.fund(&admin, 10).unwrap();
    assert_eq!(t.withdraw_surplus(&admin, 1).unwrap_err(), ContractError::Overflow);
    assert_eq!(t.withdraw_surplus(&admin, 0).unwrap_err(), ContractError::NonPositiveAmount);
}

#[test]
fn claim_receipt_and_record_fields() {
    let (mut t, admin) = ready();
    t.fund(&admin, 1_000).unwrap();
    let b = addr("GBEN");
    t.register_beneficiary(&admin, b.clone(), b"Ana".to_vec(), 300, 11).unwrap();
    let rec = t.claim(&b, 42).unwrap();
    assert_eq!(rec.cycle, 1);
    assert_eq!(rec.beneficiary, b);
    assert_eq!(rec.beneficiary_name, b"Ana".to_vec());
    assert_eq!(rec.amount, 300);
    assert_eq!(rec.timestamp, 42);
    let stored = t.get_claim_receipt(1, &b).unwrap();
    assert_eq!(stored.amount, 300);
    assert_eq!(stored.timestamp, 42);
    assert_eq!(t.get_claim_receipt(2, &b).unwrap_err(), ContractError::ClaimNotFound);
    let reg = t.get_beneficiary(&b).unwrap();
    assert_eq!(reg.registered_at, 11);
    assert_eq!(reg.name, b"Ana".to_vec());
}

#[test]
fn claim_once_per_cycle_law() {
    let (mut t, admin) = ready();
    t.fund(&admin, 1_000).unwrap();
    let b = addr("GBEN");
    t.register_beneficiary(&admin, b.clone(), b"B".to_vec(), 100, 0).unwrap();
    t.claim(&b, 1).unwrap();
    assert_eq!(t.claim(&b, 2).unwrap_err(), ContractError::AlreadyClaimed);
    assert_eq!(t.disburse_to(&admin, &b, 2).unwrap_err(), ContractError::AlreadyClaimed);
    assert_eq!(t.get_total_funds(), 900);
    assert_eq!(t.get_audit_log().len(), 1);
    t.advance_cycle(&admin).unwrap();
    assert!(!t.has_claimed(2, &b));
    t.disburse_to(&admin, &b, 3).unwrap();
    assert!(t.has_claimed(2, &b));
}

#[test]
fn claim_conserves_funds_plus_disbursed() {
    let (mut t, admin) = ready();
    t.fund(&admin, 5_000).unwrap();
    let b = addr("GBEN");
    t.register_beneficiary(&admin, b.clone(), b"B".to_vec(), 1_250, 0).unwrap();
    let before = t.get_total_funds() + t.get_total_disbursed();
    t.claim(&b, 0).unwrap();
    assert_eq!(t.get_total_funds() + t.get_total_disbursed(), before);
    assert_eq!(t.get_total_disbursed(), 1_250);
}

#[test]
fn deactivate_then_reactivate_restores_record() {
    let (mut t, admin) = ready();
    let b = addr("GBEN");
    t.register_beneficiary(&admin, b.clone(), b"B".to_vec(), 10, 3).unwrap();
    let before: Beneficiary = t.get_beneficiary(&b).unwrap();
    t.deactivate_beneficiary(&admin, &b).unwrap();
    assert_eq!(t.claim(&b, 0).unwrap_err(), ContractError::NotActive);
    t.reactivate_beneficiary(&admin, &b).unwrap();
    let after = t.get_beneficiary(&b).unwrap();
    assert_eq!(after.active, before.active);
    assert_eq!(after.entitlement, before.entitlement);
    assert_eq!(after.registered_at, before.registered_at);
    assert_eq!(after.total_claims, before.total_claims);
    let missing = addr("GNONE");
    assert_eq!(t.deactivate_beneficiary(&admin, &missing).unwrap_err(), ContractError::BeneficiaryNotFound);
    assert_eq!(t.get_beneficiary(&missing).unwrap_err(), ContractError::BeneficiaryNotFound);
}

#[test]
fn transfer_admin_moves_authority() {
    let (mut t, admin) = ready();
    let next = addr("GNEXT");
    t.transfer_admin(&admin, next.clone()).unwrap();
    assert_eq!(t.advance_cycle(&admin).unwrap_err(), ContractError::NotAdmin);
    assert_eq!(t.fund(&admin, 1).unwrap_err(), ContractError::NotAdmin);
    t.advance_cycle(&next).unwrap();
    assert_eq!(t.get_current_cycle(), 2);
    assert_eq!(t.get_config().unwrap().subsidy_token, addr("CTOKEN"));
    assert_eq!(t.get_config().unwrap().program_name, b"Subsidy".to_vec());
}

#[test]
fn advance_cycle_overflow_is_refused() {
    let (mut t, admin) = ready();
    t.current_cycle = u64::MAX;
    assert_eq!(t.advance_cycle(&admin).unwrap_err(), ContractError::Overflow);
    assert_eq!(t.get_current_cycle(), u64::MAX);
}

#[test]
fn claim_overflow_is_refused() {
    let (mut t, admin) = ready();
    let b = addr("GBEN");
    t.register_beneficiary(&admin, b.clone(), b"B".to_vec(), 10, 0).unwrap();
    t.fund(&admin, 100).unwrap();
    t.total_disbursed = i128::MAX - 5;
    assert_eq!(t.claim(&b, 0).unwrap_err(), ContractError::Overflow);
    assert_eq!(t.get_total_funds(), 100);
    assert!(t.get_audit_log().is_empty());
}

#[test]
fn audit_log_only_grows_in_order() {
    let (mut t, admin) = ready();
    t.fund(&admin, 10_000).unwrap();
    let a = addr("GA");
    let b = addr("GB");
    t.register_beneficiary(&admin, a.clone(), b"A".to_vec(), 100, 0).unwrap();
    t.register_beneficiary(&admin, b.clone(), b"B".to_vec(), 200, 0).unwrap();
    t.claim(&b, 5).unwrap();
    let first: Vec<DisbursementRecord> = t.get_audit_log();
    t.claim(&a, 6).unwrap();
    t.advance_cycle(&admin).unwrap();
    t.withdraw_surplus(&admin, 1).unwrap();
    let log = t.get_audit_log();
    assert_eq!(log.len(), 2);
    assert_eq!(log[0].beneficiary, first[0].beneficiary);
    assert_eq!(log[0].amount, 200);
    assert_eq!(log[1].beneficiary, a);
    assert_eq!(log[1].amount, 100);
    assert_eq!(t.get_all_beneficiaries(), vec![a, b]);
}

#[test]
fn refusal_messages() {
    assert_eq!(ContractError::AlreadyInitialized.message(), "already initialized");
    assert_eq!(ContractError::NotAdmin.message(), "caller is not the admin");
    assert_eq!(ContractError::AlreadyClaimed.message(), "already claimed this cycle");
    assert_eq!(
        ContractError::PendingClaims.message(),
        "cannot withdraw: funds needed for pending claims"
    );
    assert_eq!(
        ContractError::ClaimNotFound.message(),
        "no claim found for this cycle and beneficiary"
    );
    assert_eq!(ContractError::NotInitialized.message(), "contract is not initialized");
    assert_eq!(ContractError::Overflow.message(), "arithmetic overflow");
}

#[test]
fn totals_agree_with_audit_log() {
    let (mut t, admin) = ready();
    t.fund(&admin, 100_000).unwrap();
    let a = addr("GA");
    let b = addr("GB");
    t.register_beneficiary(&admin, a.clone(), b"A".to_vec(), 1_500, 0).unwrap();
    t.register_beneficiary(&admin, b.clone(), b"B".to_vec(), 2_500, 0).unwrap();
    for _ in 0..3 {
        t.claim(&a, 1).unwrap();
        t.disburse_to(&admin, &b, 1).unwrap();
        t.advance_cycle(&admin).unwrap();
    }
    t.claim(&a, 2).unwrap();
    let log = t.get_audit_log();
    let sum: i128 = log.iter().map(|r| r.amount).sum();
    assert_eq!(t.get_total_disbursed(), sum);
    assert_eq!(sum, 4 * 1_500 + 3 * 2_500);
    let ba = t.get_beneficiary(&a).unwrap();
    assert_eq!(ba.total_claims, 4);
    assert_eq!(ba.total_received, 4 * 1_500);
    let bb = t.get_beneficiary(&b).unwrap();
    assert_eq!(bb.total_claims, 3);
    assert_eq!(bb.total_received, 3 * 2_500);
    assert_eq!(t.get_total_funds() + t.get_total_disbursed(), 100_000);
}

#[test]
fn withdraw_then_every_owed_beneficiary_claims_in_any_order() {
    let (mut t, admin) = ready();
    t.fund(&admin, 10_000).unwrap();
    let a = addr("GA");
    let b = addr("GB");
    let c = addr("GC");
    t.register_beneficiary(&admin, a.clone(), b"A".to_vec(), 700, 0).unwrap();
    t.register_beneficiary(&admin, b.clone(), b"B".to_vec(), 1_100, 0).unwrap();
    t.register_beneficiary(&admin, c.clone(), b"C".to_vec(), 200, 0).unwrap();
    // exactly what is owed stays behind
    t.withdraw_surplus(&admin, 8_000).unwrap();
    assert_eq!(t.get_total_funds(), 2_000);
    t.disburse_to(&admin, &c, 1).unwrap();
    t.deactivate_beneficiary(&admin, &a).unwrap();
    t.fund(&admin, 5).unwrap();
    t.claim(&b, 2).unwrap();
    assert_eq!(t.get_total_funds(), 705);
    assert!(matches!(t.withdraw_surplus(&admin, 1).unwrap(), Transfer::Payout { .. }));
}

#[test]
fn deactivated_beneficiary_stays_refused_across_cycles() {
    let (mut t, admin) = ready();
    t.fund(&admin, 10_000).unwrap();
    let a = addr("GA");
    let b = addr("GB");
    t.register_beneficiary(&admin, a.clone(), b"A".to_vec(), 100, 0).unwrap();
    t.register_beneficiary(&admin, b.clone(), b"B".to_vec(), 100, 0).unwrap();
    t.deactivate_beneficiary(&admin, &a).unwrap();
    for cycle in 0..4 {
        assert_eq!(t.claim(&a, cycle).unwrap_err(), ContractError::NotActive);
        assert_eq!(t.disburse_to(&admin, &a, cycle).unwrap_err(), ContractError::NotActive);
        t.claim(&b, cycle).unwrap();
        t.deactivate_beneficiary(&admin, &b).unwrap();
        t.reactivate_beneficiary(&admin, &b).unwrap();
        t.advance_cycle(&admin).unwrap();
    }
    assert_eq!(t.get_beneficiary(&a).unwrap().total_claims, 0);
    t.reactivate_beneficiary(&admin, &a).unwrap();
    t.claim(&a, 9).unwrap();
}

#[test]
fn old_admin_stays_refused_after_handover() {
    let (mut t, admin) = ready();
    let next = addr("GNEXT");
    let b = addr("GB");
    t.transfer_admin(&admin, next.clone()).unwrap();
    t.fund(&next, 1_000).unwrap();
    t.register_beneficiary(&next, b.clone(), b"B".to_vec(), 10, 0).unwrap();
    t.advance_cycle(&next).unwrap();
    t.claim(&b, 0).unwrap();
    assert_eq!(t.fund(&admin, 1).unwrap_err(), ContractError::NotAdmin);
    assert_eq!(
        t.register_beneficiary(&admin, addr("GZ"), b"Z".to_vec(), 1, 0).unwrap_err(),
        ContractError::NotAdmin
    );
    assert_eq!(t.deactivate_beneficiary(&admin, &b).unwrap_err(), ContractError::NotAdmin);
    assert_eq!(t.reactivate_beneficiary(&admin, &b).unwrap_err(), ContractError::NotAdmin);
    assert_eq!(t.disburse_to(&admin, &b, 0).unwrap_err(), ContractError::NotAdmin);
    assert_eq!(t.advance_cycle(&admin).unwrap_err(), ContractError::NotAdmin);
    assert_eq!(t.withdraw_surplus(&admin, 1).unwrap_err(), ContractError::NotAdmin);
    assert_eq!(t.transfer_admin(&admin, admin.clone()).unwrap_err(), ContractError::NotAdmin);
    assert_eq!(t.get_config().unwrap().admin, next);
}

#[test]
fn receipts_stay_and_log_entries_read_back() {
    let (mut t, admin) = ready();
    t.fund(&admin, 10_000).unwrap();
    let a = addr("GA");
    let b = addr("GB");
    t.register_beneficiary(&admin, a.clone(), b"A".to_vec(), 300, 4).unwrap();
    t.register_beneficiary(&admin, b.clone(), b"B".to_vec(), 400, 5).unwrap();
    let first = t.claim(&a, 10).unwrap();
    t.disburse_to(&admin, &b, 11).unwrap();
    t.advance_cycle(&admin).unwrap();
    t.claim(&b, 12).unwrap();
    let log = t.get_audit_log();
    assert_eq!(log.len(), 3);
    for r in log.iter() {
        let back = t.get_claim_receipt(r.cycle, &r.beneficiary).unwrap();
        assert_eq!(back.amount, r.amount);
        assert_eq!(back.timestamp, r.timestamp);
    }
    let again = t.get_claim_receipt(1, &a).unwrap();
    assert_eq!(again.timestamp, first.timestamp);
    assert_eq!(t.get_beneficiary(&a).unwrap().registered_at, 4);
    assert_eq!(t.get_beneficiary(&b).unwrap().registered_at, 5);
}
