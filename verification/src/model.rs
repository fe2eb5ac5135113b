//! The abstract state of the treasury and what each operation does to it.

use vstd::prelude::*;

use crate::types::{BeneficiaryView, ConfigView, ContractError, RecordView};

verus! {

/// The whole treasury as a mathematical value.
pub struct ContractView {
    /// `None` until the treasury is initialized.
    pub config: Option<ConfigView>,
    /// Tokens held for beneficiaries.
    pub total_funds: i128,
    /// Tokens paid out since deployment.
    pub total_disbursed: i128,
    /// The disbursement cycle that claims currently count against.
    pub current_cycle: u64,
    /// Registered beneficiaries, in order of registration.
    pub beneficiaries: Seq<BeneficiaryView>,
    /// Every disbursement, in the order in which it happened.
    pub audit_log: Seq<RecordView>,
}

pub open spec fn fits_i128(x: int) -> bool {
    i128::MIN <= x <= i128::MAX
}

// ── Lookups ──────────────────────────────────

/// `i` is the first position of a beneficiary with address `a`.
pub open spec fn is_first_beneficiary(bs: Seq<BeneficiaryView>, a: Seq<char>, i: int) -> bool {
    &&& 0 <= i < bs.len()
    &&& bs[i].address == a
    &&& forall|j: int| 0 <= j < i ==> bs[j].address != a
}

/// The position of the beneficiary registered under `a`, if any.
pub open spec fn beneficiary_index(bs: Seq<BeneficiaryView>, a: Seq<char>) -> Option<int> {
    if exists|i: int| is_first_beneficiary(bs, a, i) {
        Some(choose|i: int| is_first_beneficiary(bs, a, i))
    } else {
        None
    }
}

/// The beneficiary registered under `a`, if any.
pub open spec fn beneficiary_of(s: ContractView, a: Seq<char>) -> Option<BeneficiaryView> {
    match beneficiary_index(s.beneficiaries, a) {
        Some(i) => Some(s.beneficiaries[i]),
        None => None,
    }
}

pub open spec fn is_registered(s: ContractView, a: Seq<char>) -> bool {
    exists|i: int| 0 <= i < s.beneficiaries.len() && s.beneficiaries[i].address == a
}

/// Record `r` is the receipt of `a` for `cycle`.
pub open spec fn is_receipt(r: RecordView, cycle: u64, a: Seq<char>) -> bool {
    r.cycle == cycle && r.beneficiary == a
}

/// Whether `a` has been paid in `cycle`.
pub open spec fn has_claimed(log: Seq<RecordView>, cycle: u64, a: Seq<char>) -> bool {
    exists|i: int| 0 <= i < log.len() && is_receipt(log[i], cycle, a)
}

pub open spec fn is_first_receipt(log: Seq<RecordView>, cycle: u64, a: Seq<char>, i: int) -> bool {
    &&& 0 <= i < log.len()
    &&& is_receipt(log[i], cycle, a)
    &&& forall|j: int| 0 <= j < i ==> !is_receipt(log[j], cycle, a)
}

/// The receipt of `a` for `cycle`, if `a` was paid in that cycle.
pub open spec fn receipt_of(log: Seq<RecordView>, cycle: u64, a: Seq<char>) -> Option<RecordView> {
    if exists|i: int| is_first_receipt(log, cycle, a, i) {
        Some(log[choose|i: int| is_first_receipt(log, cycle, a, i)])
    } else {
        None
    }
}

/// The addresses of all registered beneficiaries, in order of registration.
pub open spec fn addresses(bs: Seq<BeneficiaryView>) -> Seq<Seq<char>> {
    bs.map_values(|b: BeneficiaryView| b.address)
}

// ── Guards ───────────────────────────────────

/// Refusal of an operation reserved to the admin.
pub open spec fn admin_error(s: ContractView, caller: Seq<char>) -> Option<ContractError> {
    match s.config {
        None => Some(ContractError::NotInitialized),
        Some(c) => if c.admin != caller {
            Some(ContractError::NotAdmin)
        } else {
            None
        },
    }
}

pub open spec fn initialize_error(s: ContractView, program_name: Seq<u8>) -> Option<ContractError> {
    if s.config is Some {
        Some(ContractError::AlreadyInitialized)
    } else if program_name.len() == 0 {
        Some(ContractError::EmptyProgramName)
    } else {
        None
    }
}

pub open spec fn fund_error(s: ContractView, caller: Seq<char>, amount: i128) -> Option<ContractError> {
    if admin_error(s, caller) is Some {
        admin_error(s, caller)
    } else if amount <= 0 {
        Some(ContractError::NonPositiveFundAmount)
    } else if !fits_i128(s.total_funds + amount) {
        Some(ContractError::Overflow)
    } else {
        None
    }
}

pub open spec fn register_error(
    s: ContractView,
    caller: Seq<char>,
    a: Seq<char>,
    name: Seq<u8>,
    entitlement: i128,
) -> Option<ContractError> {
    if admin_error(s, caller) is Some {
        admin_error(s, caller)
    } else if entitlement <= 0 {
        Some(ContractError::NonPositiveEntitlement)
    } else if name.len() == 0 {
        Some(ContractError::EmptyBeneficiaryName)
    } else if is_registered(s, a) {
        Some(ContractError::AlreadyRegistered)
    } else {
        None
    }
}

/// Refusal of setting the `active` flag of `a` to `active`.
pub open spec fn set_active_error(
    s: ContractView,
    caller: Seq<char>,
    a: Seq<char>,
    active: bool,
) -> Option<ContractError> {
    if admin_error(s, caller) is Some {
        admin_error(s, caller)
    } else {
        match beneficiary_of(s, a) {
            None => Some(ContractError::BeneficiaryNotFound),
            Some(b) => if b.active == active {
                if active {
                    Some(ContractError::AlreadyActive)
                } else {
                    Some(ContractError::AlreadyDeactivated)
                }
            } else {
                None
            },
        }
    }
}

/// Refusal of paying `a` its entitlement for the current cycle.
pub open spec fn claim_error(s: ContractView, a: Seq<char>) -> Option<ContractError> {
    if s.config is None {
        Some(ContractError::NotInitialized)
    } else if has_claimed(s.audit_log, s.current_cycle, a) {
        Some(ContractError::AlreadyClaimed)
    } else {
        match beneficiary_of(s, a) {
            None => Some(ContractError::BeneficiaryNotFound),
            Some(b) => if !b.active {
                Some(ContractError::NotActive)
            } else if s.total_funds < b.entitlement {
                Some(ContractError::InsufficientFunds)
            } else if !fits_i128(s.total_funds - b.entitlement) || !fits_i128(
                s.total_disbursed + b.entitlement,
            ) || b.total_claims == u64::MAX || !fits_i128(b.total_received + b.entitlement) {
                Some(ContractError::Overflow)
            } else {
                None
            },
        }
    }
}

pub open spec fn disburse_error(s: ContractView, caller: Seq<char>, a: Seq<char>) -> Option<
    ContractError,
> {
    if admin_error(s, caller) is Some {
        admin_error(s, caller)
    } else {
        claim_error(s, a)
    }
}

pub open spec fn advance_error(s: ContractView, caller: Seq<char>) -> Option<ContractError> {
    if admin_error(s, caller) is Some {
        admin_error(s, caller)
    } else if s.current_cycle == u64::MAX {
        Some(ContractError::Overflow)
    } else {
        None
    }
}

/// What `b` is still owed in the current cycle.
pub open spec fn owed(s: ContractView, b: BeneficiaryView) -> int {
    if b.active && !has_claimed(s.audit_log, s.current_cycle, b.address) {
        b.entitlement as int
    } else {
        0
    }
}

/// What the first `k` beneficiaries are still owed in the current cycle.
pub open spec fn pending_prefix(s: ContractView, k: int) -> int
    decreases k,
{
    if k <= 0 {
        0
    } else {
        pending_prefix(s, k - 1) + owed(s, s.beneficiaries[k - 1])
    }
}

/// What all beneficiaries are still owed in the current cycle.
pub open spec fn pending(s: ContractView) -> int {
    pending_prefix(s, s.beneficiaries.len() as int)
}

/// Whether adding up what the first `k` beneficiaries are owed leaves the `i128` range
/// at some step.
pub open spec fn pending_overflows(s: ContractView, k: int) -> bool
    decreases k,
{
    if k <= 0 {
        false
    } else {
        pending_overflows(s, k - 1) || !fits_i128(pending_prefix(s, k))
    }
}

pub open spec fn withdraw_error(s: ContractView, caller: Seq<char>, amount: i128) -> Option<
    ContractError,
> {
    if admin_error(s, caller) is Some {
        admin_error(s, caller)
    } else if amount <= 0 {
        Some(ContractError::NonPositiveAmount)
    } else if pending_overflows(s, s.beneficiaries.len() as int) || !fits_i128(
        s.total_funds - amount,
    ) {
        Some(ContractError::Overflow)
    } else if s.total_funds - amount < pending(s) {
        Some(ContractError::PendingClaims)
    } else {
        None
    }
}

// ── Effects ──────────────────────────────────

pub open spec fn after_initialize(
    s: ContractView,
    admin: Seq<char>,
    subsidy_token: Seq<char>,
    program_name: Seq<u8>,
) -> ContractView {
    ContractView {
        config: Some(ConfigView { admin, subsidy_token, program_name }),
        total_funds: 0,
        total_disbursed: 0,
        current_cycle: 1,
        ..s
    }
}

pub open spec fn after_transfer_admin(s: ContractView, new_admin: Seq<char>) -> ContractView {
    ContractView { config: Some(ConfigView { admin: new_admin, ..s.config.unwrap() }), ..s }
}

pub open spec fn after_fund(s: ContractView, amount: i128) -> ContractView {
    ContractView { total_funds: (s.total_funds + amount) as i128, ..s }
}

pub open spec fn new_beneficiary(
    a: Seq<char>,
    name: Seq<u8>,
    entitlement: i128,
    now: u64,
) -> BeneficiaryView {
    BeneficiaryView {
        address: a,
        name,
        entitlement,
        active: true,
        registered_at: now,
        total_claims: 0,
        total_received: 0,
    }
}

pub open spec fn after_register(
    s: ContractView,
    a: Seq<char>,
    name: Seq<u8>,
    entitlement: i128,
    now: u64,
) -> ContractView {
    ContractView {
        beneficiaries: s.beneficiaries.push(new_beneficiary(a, name, entitlement, now)),
        ..s
    }
}

pub open spec fn after_set_active(s: ContractView, a: Seq<char>, active: bool) -> ContractView {
    let i = beneficiary_index(s.beneficiaries, a).unwrap();
    ContractView {
        beneficiaries: s.beneficiaries.update(i, BeneficiaryView { active, ..s.beneficiaries[i] }),
        ..s
    }
}

/// The receipt written when `a` is paid at time `now`.
pub open spec fn receipt_for(s: ContractView, a: Seq<char>, now: u64) -> RecordView {
    let b = beneficiary_of(s, a).unwrap();
    RecordView {
        cycle: s.current_cycle,
        beneficiary: a,
        beneficiary_name: b.name,
        amount: b.entitlement,
        timestamp: now,
    }
}

pub open spec fn after_claim(s: ContractView, a: Seq<char>, now: u64) -> ContractView {
    let i = beneficiary_index(s.beneficiaries, a).unwrap();
    let b = s.beneficiaries[i];
    ContractView {
        total_funds: (s.total_funds - b.entitlement) as i128,
        total_disbursed: (s.total_disbursed + b.entitlement) as i128,
        beneficiaries: s.beneficiaries.update(
            i,
            BeneficiaryView {
                total_claims: (b.total_claims + 1) as u64,
                total_received: (b.total_received + b.entitlement) as i128,
                ..b
            },
        ),
        audit_log: s.audit_log.push(receipt_for(s, a, now)),
        ..s
    }
}

pub open spec fn after_advance(s: ContractView) -> ContractView {
    ContractView { current_cycle: (s.current_cycle + 1) as u64, ..s }
}

pub open spec fn after_withdraw(s: ContractView, amount: i128) -> ContractView {
    ContractView { total_funds: (s.total_funds - amount) as i128, ..s }
}

// ── Invariant ────────────────────────────────

/// How many receipts in `log` pay `a`.
pub open spec fn claims_count(log: Seq<RecordView>, a: Seq<char>) -> nat
    decreases log.len(),
{
    if log.len() == 0 {
        0
    } else {
        claims_count(log.drop_last(), a) + if log.last().beneficiary == a {
            1nat
        } else {
            0nat
        }
    }
}

/// The sum of all amounts paid according to `log`.
pub open spec fn log_total(log: Seq<RecordView>) -> int
    decreases log.len(),
{
    if log.len() == 0 {
        0
    } else {
        log_total(log.drop_last()) + log.last().amount
    }
}

/// `b` is a sound registration record with respect to the audit log.
pub open spec fn beneficiary_ok(log: Seq<RecordView>, b: BeneficiaryView) -> bool {
    &&& b.entitlement > 0
    &&& b.name.len() > 0
    &&& b.total_claims == claims_count(log, b.address)
    &&& b.total_received == b.total_claims * b.entitlement
}

/// `r` pays a registered beneficiary exactly its entitlement, under its name.
pub open spec fn pays_registered(bs: Seq<BeneficiaryView>, r: RecordView) -> bool {
    exists|i: int|
        0 <= i < bs.len() && #[trigger] bs[i].address == r.beneficiary && bs[i].entitlement
            == r.amount && bs[i].name == r.beneficiary_name
}

/// What holds of every treasury that the operations can reach from a fresh deployment.
pub open spec fn consistent(s: ContractView) -> bool {
    &&& s.config is None ==> {
        &&& s.beneficiaries.len() == 0
        &&& s.audit_log.len() == 0
        &&& s.total_funds == 0
        &&& s.total_disbursed == 0
        &&& s.current_cycle == 1
    }
    &&& s.current_cycle >= 1
    &&& s.total_funds >= 0
    &&& s.total_disbursed == log_total(s.audit_log)
    &&& forall|i: int, j: int|
        0 <= i < j < s.beneficiaries.len() ==> s.beneficiaries[i].address
            != s.beneficiaries[j].address
    &&& forall|i: int|
        0 <= i < s.beneficiaries.len() ==> beneficiary_ok(s.audit_log, #[trigger] s.beneficiaries[i])
    &&& forall|k: int|
        0 <= k < s.audit_log.len() ==> 1 <= (#[trigger] s.audit_log[k]).cycle <= s.current_cycle
            && pays_registered(s.beneficiaries, s.audit_log[k])
    &&& forall|k: int, l: int|
        0 <= k < l < s.audit_log.len() ==> !is_receipt(
            s.audit_log[l],
            s.audit_log[k].cycle,
            s.audit_log[k].beneficiary,
        )
}

// ── Sequences of calls ───────────────────────

/// One call on the treasury, with its arguments.
pub enum Op {
    Initialize { admin: Seq<char>, subsidy_token: Seq<char>, program_name: Seq<u8> },
    TransferAdmin { admin: Seq<char>, new_admin: Seq<char> },
    Fund { admin: Seq<char>, amount: i128 },
    Register { admin: Seq<char>, beneficiary: Seq<char>, name: Seq<u8>, entitlement: i128, now: u64 },
    /// `deactivate_beneficiary` when `active` is false, `reactivate_beneficiary` when true.
    SetActive { admin: Seq<char>, beneficiary: Seq<char>, active: bool },
    Claim { beneficiary: Seq<char>, now: u64 },
    DisburseTo { admin: Seq<char>, beneficiary: Seq<char>, now: u64 },
    Advance { admin: Seq<char> },
    Withdraw { admin: Seq<char>, amount: i128 },
}

/// The error with which `op` is refused in `s`, if it is.
pub open spec fn op_error(s: ContractView, op: Op) -> Option<ContractError> {
    match op {
        Op::Initialize { program_name, .. } => initialize_error(s, program_name),
        Op::TransferAdmin { admin, .. } => admin_error(s, admin),
        Op::Fund { admin, amount } => fund_error(s, admin, amount),
        Op::Register { admin, beneficiary, name, entitlement, .. } => register_error(
            s,
            admin,
            beneficiary,
            name,
            entitlement,
        ),
        Op::SetActive { admin, beneficiary, active } => set_active_error(s, admin, beneficiary, active),
        Op::Claim { beneficiary, .. } => claim_error(s, beneficiary),
        Op::DisburseTo { admin, beneficiary, .. } => disburse_error(s, admin, beneficiary),
        Op::Advance { admin } => advance_error(s, admin),
        Op::Withdraw { admin, amount } => withdraw_error(s, admin, amount),
    }
}

/// The state after `op` in `s`: unchanged when `op` is refused.
pub open spec fn step(s: ContractView, op: Op) -> ContractView {
    if op_error(s, op) is Some {
        s
    } else {
        match op {
            Op::Initialize { admin, subsidy_token, program_name } => after_initialize(
                s,
                admin,
                subsidy_token,
                program_name,
            ),
            Op::TransferAdmin { new_admin, .. } => after_transfer_admin(s, new_admin),
            Op::Fund { amount, .. } => after_fund(s, amount),
            Op::Register { beneficiary, name, entitlement, now, .. } => after_register(
                s,
                beneficiary,
                name,
                entitlement,
                now,
            ),
            Op::SetActive { beneficiary, active, .. } => after_set_active(s, beneficiary, active),
            Op::Claim { beneficiary, now } => after_claim(s, beneficiary, now),
            Op::DisburseTo { beneficiary, now, .. } => after_claim(s, beneficiary, now),
            Op::Advance { .. } => after_advance(s),
            Op::Withdraw { amount, .. } => after_withdraw(s, amount),
        }
    }
}

/// The state after the calls `ops`, made one after the other from `s`.
pub open spec fn run(s: ContractView, ops: Seq<Op>) -> ContractView
    decreases ops.len(),
{
    if ops.len() == 0 {
        s
    } else {
        step(run(s, ops.drop_last()), ops.last())
    }
}

/// The receipt that `op` writes in `s`, if any.
pub open spec fn receipt_written(s: ContractView, op: Op) -> Option<RecordView> {
    if op_error(s, op) is Some {
        None
    } else {
        match op {
            Op::Claim { beneficiary, now } => Some(receipt_for(s, beneficiary, now)),
            Op::DisburseTo { beneficiary, now, .. } => Some(receipt_for(s, beneficiary, now)),
            _ => None,
        }
    }
}

/// The receipts written by the calls `ops` from `s`, oldest first.
pub open spec fn receipts_written(s: ContractView, ops: Seq<Op>) -> Seq<RecordView>
    decreases ops.len(),
{
    if ops.len() == 0 {
        Seq::empty()
    } else {
        let before = receipts_written(s, ops.drop_last());
        match receipt_written(run(s, ops.drop_last()), ops.last()) {
            Some(r) => before.push(r),
            None => before,
        }
    }
}

} // verus!
