//! What holds across whole sequences of calls, proved over the model.

use vstd::prelude::*;

use crate::laws::{
    law_advance_keeps_consistency, law_claim_keeps_consistency, law_entitlements_fixed,
    law_fund_keeps_consistency, law_initialize_keeps_consistency, law_register_keeps_consistency,
    law_set_active_keeps_consistency, law_transfer_admin_keeps_consistency,
    law_withdraw_keeps_consistency, terms_kept,
};
use crate::model::{
    admin_error, advance_error, after_claim, after_set_active, after_transfer_admin,
    after_withdraw, beneficiary_index, beneficiary_of, claim_error, consistent, disburse_error,
    fund_error, has_claimed, is_first_receipt, is_receipt, op_error, owed, pending,
    pending_prefix, receipt_for, receipt_of, receipt_written, receipts_written, register_error,
    run, set_active_error, step, withdraw_error, ContractView, Op,
};
use crate::types::{ContractError, RecordView};

verus! {

// ── Consistency ──────────────────────────────

/// Every call, refused or not, keeps a consistent treasury consistent.
pub proof fn law_step_keeps_consistency(s: ContractView, op: Op)
    requires
        consistent(s),
    ensures
        consistent(step(s, op)),
{
    if op_error(s, op) is None {
        match op {
            Op::Initialize { admin, subsidy_token, program_name } => {
                law_initialize_keeps_consistency(s, admin, subsidy_token, program_name);
            },
            Op::TransferAdmin { admin, new_admin } => {
                law_transfer_admin_keeps_consistency(s, admin, new_admin);
            },
            Op::Fund { admin, amount } => {
                law_fund_keeps_consistency(s, admin, amount);
            },
            Op::Register { admin, beneficiary, name, entitlement, now } => {
                law_register_keeps_consistency(s, admin, beneficiary, name, entitlement, now);
            },
            Op::SetActive { admin, beneficiary, active } => {
                law_set_active_keeps_consistency(s, admin, beneficiary, active);
            },
            Op::Claim { beneficiary, now } => {
                law_claim_keeps_consistency(s, beneficiary, now);
            },
            Op::DisburseTo { beneficiary, now, .. } => {
                law_claim_keeps_consistency(s, beneficiary, now);
            },
            Op::Advance { admin } => {
                law_advance_keeps_consistency(s, admin);
            },
            Op::Withdraw { admin, amount } => {
                law_withdraw_keeps_consistency(s, admin, amount);
            },
        }
    }
}

/// Any sequence of calls keeps a consistent treasury consistent; in particular a treasury
/// reached from a fresh deployment always has its disbursed total equal to the sum of the audit
/// log, non-negative funds, unique (cycle, beneficiary) receipts, and for every beneficiary
/// `total_claims` receipts and `total_received == total_claims * entitlement`.
pub proof fn law_consistent_forever(s: ContractView, ops: Seq<Op>)
    requires
        consistent(s),
    ensures
        consistent(run(s, ops)),
    decreases ops.len(),
{
    if ops.len() > 0 {
        law_consistent_forever(s, ops.drop_last());
        law_step_keeps_consistency(run(s, ops.drop_last()), ops.last());
    }
}

// ── Registration terms ───────────────────────

pub(crate) proof fn lemma_terms_kept_transitive(
    s: ContractView,
    t: ContractView,
    u: ContractView,
    b: Seq<char>,
)
    requires
        terms_kept(s, t, b),
        terms_kept(t, u, b),
    ensures
        terms_kept(s, u, b),
{
}

/// Every call, refused or not, keeps each registered beneficiary's terms.
pub proof fn law_step_keeps_terms(s: ContractView, op: Op, b: Seq<char>)
    ensures
        terms_kept(s, step(s, op), b),
{
    let e = Seq::<char>::empty();
    let n = Seq::<u8>::empty();
    match op {
        Op::Initialize { admin, subsidy_token, program_name } => {
            law_entitlements_fixed(s, admin, subsidy_token, b, program_name, 0, true, 0);
        },
        Op::TransferAdmin { new_admin, .. } => {
            law_entitlements_fixed(s, e, new_admin, b, n, 0, true, 0);
        },
        Op::Fund { amount, .. } => {
            law_entitlements_fixed(s, e, e, b, n, amount, true, 0);
        },
        Op::Register { beneficiary, name, entitlement, now, .. } => {
            law_entitlements_fixed(s, e, beneficiary, b, name, entitlement, true, now);
        },
        Op::SetActive { admin, beneficiary, active } => {
            law_entitlements_fixed(s, admin, beneficiary, b, n, 0, active, 0);
        },
        Op::Claim { beneficiary, now } => {
            law_entitlements_fixed(s, e, beneficiary, b, n, 0, true, now);
        },
        Op::DisburseTo { beneficiary, now, .. } => {
            law_entitlements_fixed(s, e, beneficiary, b, n, 0, true, now);
        },
        Op::Advance { .. } => {
            law_entitlements_fixed(s, e, e, b, n, 0, true, 0);
        },
        Op::Withdraw { amount, .. } => {
            law_entitlements_fixed(s, e, e, b, n, amount, true, 0);
        },
    }
}

/// Once registered, a beneficiary keeps its address, name, entitlement and registration time
/// through any sequence of calls: amounts are fixed at registration.
pub proof fn law_terms_kept_forever(s: ContractView, ops: Seq<Op>, b: Seq<char>)
    ensures
        terms_kept(s, run(s, ops), b),
    decreases ops.len(),
{
    if ops.len() > 0 {
        law_terms_kept_forever(s, ops.drop_last(), b);
        law_step_keeps_terms(run(s, ops.drop_last()), ops.last(), b);
        lemma_terms_kept_transitive(s, run(s, ops.drop_last()), run(s, ops), b);
    }
}

// ── Authority ────────────────────────────────

/// No call in `ops` hands over the admin rights.
pub open spec fn keeps_admin(ops: Seq<Op>) -> bool {
    forall|i: int| 0 <= i < ops.len() ==> !(#[trigger] ops[i] is TransferAdmin)
}

/// Without a handover, the admin of an initialized treasury stays the admin through any
/// sequence of calls.
pub proof fn law_admin_persists(s: ContractView, ops: Seq<Op>)
    requires
        s.config is Some,
        keeps_admin(ops),
    ensures
        run(s, ops).config is Some,
        run(s, ops).config.unwrap().admin == s.config.unwrap().admin,
    decreases ops.len(),
{
    if ops.len() > 0 {
        let p = ops.drop_last();
        assert(keeps_admin(p)) by {
            assert forall|i: int| 0 <= i < p.len() implies !(#[trigger] p[i] is TransferAdmin) by {
                assert(p[i] == ops[i]);
            }
        }
        law_admin_persists(s, p);
        assert(!(ops[ops.len() - 1] is TransferAdmin));
    }
}

/// After the admin hands its rights to another address, and until the next handover, every
/// call reserved to the admin is refused to the old admin as `NotAdmin` (leaving the treasury
/// unchanged) and passes the admin check for the new one.
pub proof fn law_transfer_admin_lasts(
    s: ContractView,
    admin: Seq<char>,
    new_admin: Seq<char>,
    ops: Seq<Op>,
)
    requires
        admin_error(s, admin) is None,
        admin != new_admin,
        keeps_admin(ops),
    ensures
        ({
            let t = run(after_transfer_admin(s, new_admin), ops);
            &&& admin_error(t, new_admin) is None
            &&& admin_error(t, admin) == Some(ContractError::NotAdmin)
            &&& forall|amount: i128| #[trigger] fund_error(t, admin, amount) == Some(
                ContractError::NotAdmin,
            )
            &&& forall|amount: i128| #[trigger] withdraw_error(t, admin, amount) == Some(
                ContractError::NotAdmin,
            )
            &&& forall|a: Seq<char>, name: Seq<u8>, e: i128| #[trigger] register_error(
                t,
                admin,
                a,
                name,
                e,
            ) == Some(ContractError::NotAdmin)
            &&& forall|a: Seq<char>, active: bool| #[trigger] set_active_error(
                t,
                admin,
                a,
                active,
            ) == Some(ContractError::NotAdmin)
            &&& forall|a: Seq<char>| #[trigger] disburse_error(t, admin, a) == Some(
                ContractError::NotAdmin,
            )
            &&& advance_error(t, admin) == Some(ContractError::NotAdmin)
        }),
{
    law_admin_persists(after_transfer_admin(s, new_admin), ops);
}

// ── The audit log ────────────────────────────

/// A call appends to the audit log exactly the receipt it writes, and nothing else.
pub proof fn law_step_log(s: ContractView, op: Op)
    ensures
        step(s, op).audit_log == match receipt_written(s, op) {
            Some(r) => s.audit_log.push(r),
            None => s.audit_log,
        },
{
}

/// After any sequence of calls the audit log is the old log followed by the receipts of the
/// successful claims and admin payments, oldest first: nothing is ever removed or changed.
pub proof fn law_audit_log_records_calls(s: ContractView, ops: Seq<Op>)
    ensures
        run(s, ops).audit_log == s.audit_log + receipts_written(s, ops),
    decreases ops.len(),
{
    if ops.len() == 0 {
        assert(s.audit_log + Seq::<RecordView>::empty() =~= s.audit_log);
    } else {
        let p = ops.drop_last();
        law_audit_log_records_calls(s, p);
        law_step_log(run(s, p), ops.last());
        match receipt_written(run(s, p), ops.last()) {
            Some(r) => {
                assert((s.audit_log + receipts_written(s, p)).push(r) =~= s.audit_log
                    + receipts_written(s, p).push(r));
            },
            None => {},
        }
    }
}

/// A receipt once written stays the one found for its cycle and beneficiary, whatever is
/// appended to the log later.
pub(crate) proof fn lemma_receipt_stable(
    log: Seq<RecordView>,
    extra: Seq<RecordView>,
    c: u64,
    b: Seq<char>,
)
    requires
        receipt_of(log, c, b) is Some,
    ensures
        receipt_of(log + extra, c, b) == receipt_of(log, c, b),
        has_claimed(log + extra, c, b),
{
    let k = choose|k: int| is_first_receipt(log, c, b, k);
    let l = log + extra;
    assert(is_first_receipt(l, c, b, k)) by {
        assert forall|j: int| 0 <= j < k implies !is_receipt(l[j], c, b) by {
            assert(l[j] == log[j]);
        }
        assert(l[k] == log[k]);
    }
    let m = choose|m: int| is_first_receipt(l, c, b, m);
    assert(m == k) by {
        if m < k {
            assert(!is_receipt(l[m], c, b));
        }
        if k < m {
            assert(!is_receipt(l[k], c, b));
        }
    }
}

/// In a consistent treasury every entry of the audit log is the receipt found for its own
/// cycle and beneficiary, so reading the log and reading receipts agree.
pub proof fn law_log_entries_are_receipts(s: ContractView)
    requires
        consistent(s),
    ensures
        forall|k: int|
            0 <= k < s.audit_log.len() ==> receipt_of(
                s.audit_log,
                (#[trigger] s.audit_log[k]).cycle,
                s.audit_log[k].beneficiary,
            ) == Some(s.audit_log[k]),
{
    let log = s.audit_log;
    assert forall|k: int| 0 <= k < log.len() implies receipt_of(
        log,
        (#[trigger] log[k]).cycle,
        log[k].beneficiary,
    ) == Some(log[k]) by {
        let c = log[k].cycle;
        let b = log[k].beneficiary;
        assert(is_first_receipt(log, c, b, k)) by {
            assert forall|j: int| 0 <= j < k implies !is_receipt(log[j], c, b) by {
                assert(!is_receipt(log[k], log[j].cycle, log[j].beneficiary));
            }
        }
        let m = choose|m: int| is_first_receipt(log, c, b, m);
        assert(m == k) by {
            if m < k {
                assert(!is_receipt(log[m], c, b));
            }
            if k < m {
                assert(!is_receipt(log[k], c, b));
            }
        }
    }
}

/// Once initialized, a treasury stays initialized through any sequence of calls.
pub proof fn law_config_stays(s: ContractView, ops: Seq<Op>)
    requires
        s.config is Some,
    ensures
        run(s, ops).config is Some,
    decreases ops.len(),
{
    if ops.len() > 0 {
        law_config_stays(s, ops.drop_last());
    }
}

/// After a beneficiary is paid in cycle `c`, its receipt stays in the log for good, and as long
/// as the cycle is still `c` every further claim by it, or payment to it by the admin, is
/// refused as `AlreadyClaimed` and leaves the treasury unchanged.
pub proof fn law_claim_stays_claimed(s: ContractView, b: Seq<char>, now: u64, ops: Seq<Op>)
    requires
        claim_error(s, b) is None,
    ensures
        ({
            let t = run(after_claim(s, b, now), ops);
            &&& receipt_of(t.audit_log, s.current_cycle, b) == Some(receipt_for(s, b, now))
            &&& has_claimed(t.audit_log, s.current_cycle, b)
            &&& t.current_cycle == s.current_cycle ==> {
                &&& claim_error(t, b) == Some(ContractError::AlreadyClaimed)
                &&& forall|now2: u64| #[trigger] step(t, Op::Claim { beneficiary: b, now: now2 }) == t
                &&& forall|admin: Seq<char>|
                    admin_error(t, admin) is None ==> #[trigger] disburse_error(t, admin, b)
                        == Some(ContractError::AlreadyClaimed)
            }
        }),
{
    let t0 = after_claim(s, b, now);
    let t = run(t0, ops);
    crate::laws::law_claim_receipt_readable(s, b, now);
    law_audit_log_records_calls(t0, ops);
    lemma_receipt_stable(t0.audit_log, receipts_written(t0, ops), s.current_cycle, b);
    law_config_stays(t0, ops);
}

/// In a consistent treasury every receipt paying a registered beneficiary pays it exactly the
/// entitlement it was registered with, under its registered name, and its lifetime totals
/// count those receipts.
pub proof fn law_receipts_of_beneficiary(s: ContractView, b: Seq<char>)
    requires
        consistent(s),
        beneficiary_of(s, b) is Some,
    ensures
        ({
            let x = beneficiary_of(s, b).unwrap();
            &&& x.total_claims == crate::model::claims_count(s.audit_log, b)
            &&& x.total_received == x.total_claims * x.entitlement
            &&& forall|k: int|
                0 <= k < s.audit_log.len() && (#[trigger] s.audit_log[k]).beneficiary == b
                    ==> s.audit_log[k].amount == x.entitlement && s.audit_log[k].beneficiary_name
                    == x.name
        }),
{
    crate::laws::lemma_index_is_first(s.beneficiaries, b);
    let i = beneficiary_index(s.beneficiaries, b).unwrap();
    assert(crate::model::beneficiary_ok(s.audit_log, s.beneficiaries[i]));
    assert forall|k: int|
        0 <= k < s.audit_log.len() && (#[trigger] s.audit_log[k]).beneficiary == b implies
        s.audit_log[k].amount == s.beneficiaries[i].entitlement
        && s.audit_log[k].beneficiary_name == s.beneficiaries[i].name by {
        assert(crate::model::pays_registered(s.beneficiaries, s.audit_log[k]));
        let w = choose|w: int|
            0 <= w < s.beneficiaries.len() && #[trigger] s.beneficiaries[w].address
                == s.audit_log[k].beneficiary && s.beneficiaries[w].entitlement
                == s.audit_log[k].amount && s.beneficiaries[w].name
                == s.audit_log[k].beneficiary_name;
        if w != i {
            if w < i {
                assert(s.beneficiaries[w].address != b);
            } else {
                assert(s.beneficiaries[i].address != s.beneficiaries[w].address);
            }
        }
    }
}

// ── Funds cover what is owed ─────────────────

/// The funds cover what every beneficiary is still owed in the current cycle.
pub open spec fn covered(s: ContractView) -> bool {
    s.total_funds >= pending(s)
}

/// No call in `ops` can add to what is owed in the current cycle: none registers a
/// beneficiary, reactivates one, or opens the next cycle.
pub open spec fn keeps_owed(ops: Seq<Op>) -> bool {
    forall|i: int|
        0 <= i < ops.len() ==> !(#[trigger] ops[i] is Register) && !(ops[i] is Advance) && !(
        ops[i] matches Op::SetActive { active, .. } && active)
}

pub(crate) proof fn lemma_pending_same(s: ContractView, t: ContractView, k: int)
    requires
        s.beneficiaries.len() == t.beneficiaries.len(),
        0 <= k <= s.beneficiaries.len(),
        forall|j: int|
            0 <= j < s.beneficiaries.len() ==> owed(t, t.beneficiaries[j]) == owed(
                s,
                s.beneficiaries[j],
            ),
    ensures
        pending_prefix(t, k) == pending_prefix(s, k),
    decreases k,
{
    if k > 0 {
        lemma_pending_same(s, t, k - 1);
    }
}

pub(crate) proof fn lemma_pending_change(s: ContractView, t: ContractView, i: int, k: int)
    requires
        s.beneficiaries.len() == t.beneficiaries.len(),
        0 <= i < s.beneficiaries.len(),
        0 <= k <= s.beneficiaries.len(),
        forall|j: int|
            0 <= j < s.beneficiaries.len() && j != i ==> owed(t, t.beneficiaries[j]) == owed(
                s,
                s.beneficiaries[j],
            ),
    ensures
        pending_prefix(t, k) == pending_prefix(s, k) + if k > i {
            owed(t, t.beneficiaries[i]) - owed(s, s.beneficiaries[i])
        } else {
            0
        },
    decreases k,
{
    if k > 0 {
        lemma_pending_change(s, t, i, k - 1);
    }
}

pub(crate) proof fn lemma_owed_within_pending(s: ContractView, i: int, k: int)
    requires
        consistent(s),
        0 <= i < k <= s.beneficiaries.len(),
    ensures
        pending_prefix(s, k) >= owed(s, s.beneficiaries[i]),
    decreases k,
{
    assert(crate::model::beneficiary_ok(s.audit_log, s.beneficiaries[k - 1]));
    if k - 1 > i {
        lemma_owed_within_pending(s, i, k - 1);
    } else {
        crate::laws::lemma_pending_nonnegative(s, k - 1);
    }
}

proof fn lemma_has_claimed_push(log: Seq<RecordView>, r: RecordView, c: u64, x: Seq<char>)
    ensures
        has_claimed(log.push(r), c, x) == (has_claimed(log, c, x) || is_receipt(r, c, x)),
{
    let l = log.push(r);
    if has_claimed(l, c, x) {
        let k = choose|k: int| 0 <= k < l.len() && is_receipt(l[k], c, x);
        if k < log.len() {
            assert(is_receipt(log[k], c, x));
        }
    }
    if has_claimed(log, c, x) {
        let k = choose|k: int| 0 <= k < log.len() && is_receipt(log[k], c, x);
        assert(is_receipt(l[k], c, x));
    }
    if is_receipt(r, c, x) {
        assert(is_receipt(l[log.len() as int], c, x));
    }
}

/// A call that cannot add to what is owed keeps the funds covering it.
pub proof fn law_step_keeps_covered(s: ContractView, op: Op)
    requires
        consistent(s),
        covered(s),
        !(op is Register),
        !(op is Advance),
        !(op matches Op::SetActive { active, .. } && active),
    ensures
        covered(step(s, op)),
{
    let n = s.beneficiaries.len() as int;
    let t = step(s, op);
    if op_error(s, op) is None {
        match op {
            Op::Initialize { .. } => {},
            Op::TransferAdmin { .. } => {
                lemma_pending_same(s, t, n);
            },
            Op::Fund { .. } => {
                lemma_pending_same(s, t, n);
            },
            Op::Withdraw { admin, amount } => {
                crate::laws::law_withdraw_keeps_pending_covered(s, admin, amount);
            },
            Op::SetActive { beneficiary, .. } => {
                crate::laws::lemma_index_is_first(s.beneficiaries, beneficiary);
                let i = beneficiary_index(s.beneficiaries, beneficiary).unwrap();
                assert(t == after_set_active(s, beneficiary, false));
                lemma_pending_change(s, t, i, n);
                assert(crate::model::beneficiary_ok(s.audit_log, s.beneficiaries[i]));
            },
            Op::Claim { beneficiary, now } => {
                lemma_claim_lowers_pending(s, beneficiary, now);
            },
            Op::DisburseTo { beneficiary, now, .. } => {
                lemma_claim_lowers_pending(s, beneficiary, now);
            },
            _ => {},
        }
    }
}

/// A claim lowers what is owed by exactly the amount it pays out of the funds.
pub(crate) proof fn lemma_claim_lowers_pending(s: ContractView, b: Seq<char>, now: u64)
    requires
        consistent(s),
        claim_error(s, b) is None,
    ensures
        pending(after_claim(s, b, now)) == pending(s) - beneficiary_of(s, b).unwrap().entitlement,
        after_claim(s, b, now).total_funds == s.total_funds - beneficiary_of(
            s,
            b,
        ).unwrap().entitlement,
{
    crate::laws::lemma_index_is_first(s.beneficiaries, b);
    let i = beneficiary_index(s.beneficiaries, b).unwrap();
    let t = after_claim(s, b, now);
    let r = receipt_for(s, b, now);
    let c = s.current_cycle;
    assert forall|j: int|
        0 <= j < s.beneficiaries.len() && j != i implies owed(t, t.beneficiaries[j]) == owed(
        s,
        s.beneficiaries[j],
    ) by {
        let x = s.beneficiaries[j].address;
        if j < i {
            assert(x != b);
        } else {
            assert(s.beneficiaries[i].address != s.beneficiaries[j].address);
        }
        lemma_has_claimed_push(s.audit_log, r, c, x);
    }
    lemma_has_claimed_push(s.audit_log, r, c, b);
    lemma_pending_change(s, t, i, s.beneficiaries.len() as int);
}

/// After a permitted withdrawal, and through any later calls that cannot add to what is owed
/// (any claims or admin payments, in any order, among them), the funds still cover what is
/// owed; so no beneficiary still owed its entitlement in the current cycle is ever refused for
/// insufficient funds.
pub proof fn law_withdraw_then_claims(s: ContractView, admin: Seq<char>, amount: i128, ops: Seq<Op>)
    requires
        consistent(s),
        withdraw_error(s, admin, amount) is None,
        keeps_owed(ops),
    ensures
        ({
            let t = run(after_withdraw(s, amount), ops);
            &&& consistent(t)
            &&& covered(t)
            &&& pending(t) >= 0
            &&& forall|b: Seq<char>|
                #![trigger claim_error(t, b)]
                (beneficiary_of(t, b) matches Some(x) && x.active && !has_claimed(
                    t.audit_log,
                    t.current_cycle,
                    b,
                )) ==> claim_error(t, b) != Some(ContractError::InsufficientFunds)
        }),
{
    crate::laws::law_withdraw_keeps_pending_covered(s, admin, amount);
    crate::laws::law_withdraw_keeps_consistency(s, admin, amount);
    lemma_covered_forever(after_withdraw(s, amount), ops);
    let t = run(after_withdraw(s, amount), ops);
    law_consistent_forever(after_withdraw(s, amount), ops);
    crate::laws::lemma_pending_nonnegative(t, t.beneficiaries.len() as int);
    assert forall|b: Seq<char>|
        (beneficiary_of(t, b) matches Some(x) && x.active && !has_claimed(
            t.audit_log,
            t.current_cycle,
            b,
        )) implies #[trigger] claim_error(t, b) != Some(ContractError::InsufficientFunds) by {
        crate::laws::lemma_index_is_first(t.beneficiaries, b);
        let i = beneficiary_index(t.beneficiaries, b).unwrap();
        lemma_owed_within_pending(t, i, t.beneficiaries.len() as int);
    }
}

proof fn lemma_covered_forever(s: ContractView, ops: Seq<Op>)
    requires
        consistent(s),
        covered(s),
        keeps_owed(ops),
    ensures
        covered(run(s, ops)),
    decreases ops.len(),
{
    if ops.len() > 0 {
        let p = ops.drop_last();
        assert(keeps_owed(p)) by {
            assert forall|i: int| 0 <= i < p.len() implies !(#[trigger] p[i] is Register) && !(
            p[i] is Advance) && !(p[i] matches Op::SetActive { active, .. } && active) by {
                assert(p[i] == ops[i]);
            }
        }
        lemma_covered_forever(s, p);
        law_consistent_forever(s, p);
        let last = ops[ops.len() - 1];
        assert(!(last is Register) && !(last is Advance) && !(
        last matches Op::SetActive { active, .. } && active));
        law_step_keeps_covered(run(s, p), last);
    }
}

// ── Deactivation ─────────────────────────────

/// `b` is registered and inactive in `u`.
pub open spec fn inactive(u: ContractView, b: Seq<char>) -> bool {
    beneficiary_of(u, b) matches Some(x) && !x.active
}

/// No call in `ops` reactivates `b`.
pub open spec fn never_reactivates(ops: Seq<Op>, b: Seq<char>) -> bool {
    forall|i: int|
        0 <= i < ops.len() ==> !(#[trigger] ops[i] matches Op::SetActive { beneficiary, active, .. }
            && beneficiary == b && active)
}

/// Rewriting the entry of another address keeps what is found under `b`.
proof fn lemma_other_entry_kept(
    u: ContractView,
    t: ContractView,
    a: Seq<char>,
    b: Seq<char>,
)
    requires
        a != b,
        beneficiary_index(u.beneficiaries, a) is Some,
        beneficiary_index(u.beneficiaries, b) is Some,
        t.beneficiaries.len() == u.beneficiaries.len(),
        forall|j: int|
            0 <= j < u.beneficiaries.len() ==> #[trigger] t.beneficiaries[j].address
                == u.beneficiaries[j].address,
        forall|j: int|
            0 <= j < u.beneficiaries.len() && j != beneficiary_index(u.beneficiaries, a).unwrap()
                ==> #[trigger] t.beneficiaries[j] == u.beneficiaries[j],
    ensures
        beneficiary_of(t, b) == beneficiary_of(u, b),
{
    crate::laws::lemma_index_is_first(u.beneficiaries, a);
    crate::laws::lemma_index_is_first(u.beneficiaries, b);
    crate::laws::lemma_index_stable(u.beneficiaries, t.beneficiaries, b);
}

/// A call other than reactivating `b` keeps `b` registered and inactive.
pub proof fn law_step_keeps_inactive(u: ContractView, op: Op, b: Seq<char>)
    requires
        inactive(u, b),
        !(op matches Op::SetActive { beneficiary, active, .. } && beneficiary == b && active),
    ensures
        inactive(step(u, op), b),
{
    crate::laws::lemma_index_is_first(u.beneficiaries, b);
    let t = step(u, op);
    if op_error(u, op) is None {
        match op {
            Op::Register { beneficiary, name, entitlement, now, .. } => {
                crate::laws::lemma_index_stable(u.beneficiaries, t.beneficiaries, b);
            },
            Op::SetActive { beneficiary, active, .. } => {
                if beneficiary != b {
                    lemma_other_entry_kept(u, t, beneficiary, b);
                }
            },
            Op::Claim { beneficiary, now } => {
                if beneficiary != b {
                    lemma_other_entry_kept(u, t, beneficiary, b);
                }
            },
            Op::DisburseTo { beneficiary, now, .. } => {
                if beneficiary != b {
                    lemma_other_entry_kept(u, t, beneficiary, b);
                }
            },
            _ => {},
        }
    }
}

/// A deactivated beneficiary stays unable to claim, in this and every later cycle, through any
/// sequence of calls until it is reactivated: its own claims and the admin's payments to it are
/// refused and change nothing.
pub proof fn law_deactivated_until_reactivated(
    s: ContractView,
    admin: Seq<char>,
    b: Seq<char>,
    ops: Seq<Op>,
)
    requires
        set_active_error(s, admin, b, false) is None,
        never_reactivates(ops, b),
    ensures
        ({
            let t = run(after_set_active(s, b, false), ops);
            &&& inactive(t, b)
            &&& claim_error(t, b) is Some
            &&& forall|x: Seq<char>| #[trigger] disburse_error(t, x, b) is Some
            &&& forall|now: u64| #[trigger] step(t, Op::Claim { beneficiary: b, now }) == t
            &&& forall|x: Seq<char>, now: u64|
                #[trigger] step(t, Op::DisburseTo { admin: x, beneficiary: b, now }) == t
        }),
{
    let t0 = after_set_active(s, b, false);
    crate::laws::lemma_index_is_first(s.beneficiaries, b);
    crate::laws::lemma_index_stable(s.beneficiaries, t0.beneficiaries, b);
    lemma_inactive_forever(t0, ops, b);
}

proof fn lemma_inactive_forever(u: ContractView, ops: Seq<Op>, b: Seq<char>)
    requires
        inactive(u, b),
        never_reactivates(ops, b),
    ensures
        inactive(run(u, ops), b),
    decreases ops.len(),
{
    if ops.len() > 0 {
        let p = ops.drop_last();
        assert(never_reactivates(p, b)) by {
            assert forall|i: int| 0 <= i < p.len() implies !(
            #[trigger] p[i] matches Op::SetActive { beneficiary, active, .. } && beneficiary == b
                && active) by {
                assert(p[i] == ops[i]);
            }
        }
        lemma_inactive_forever(u, p, b);
        let last = ops[ops.len() - 1];
        assert(!(last matches Op::SetActive { beneficiary, active, .. } && beneficiary == b
            && active));
        law_step_keeps_inactive(run(u, p), last, b);
    }
}

/// From a fresh deployment, the audit log after any sequence of calls lists exactly the
/// receipts of the successful claims and admin payments, oldest first, and each entry is the
/// receipt read back for its own cycle and beneficiary.
pub proof fn law_audit_log_from_fresh(ops: Seq<Op>)
    ensures
        ({
            let log = run(crate::contract::fresh(), ops).audit_log;
            &&& log == receipts_written(crate::contract::fresh(), ops)
            &&& forall|k: int|
                0 <= k < log.len() ==> receipt_of(
                    log,
                    (#[trigger] log[k]).cycle,
                    log[k].beneficiary,
                ) == Some(log[k])
        }),
{
    let s = crate::contract::fresh();
    law_audit_log_records_calls(s, ops);
    assert(s.audit_log + receipts_written(s, ops) =~= receipts_written(s, ops));
    crate::laws::law_fresh_consistent();
    law_consistent_forever(s, ops);
    law_log_entries_are_receipts(run(s, ops));
}

} // verus!
