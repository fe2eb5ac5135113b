//! What holds of the treasury across operations, proved over the model.

use vstd::prelude::*;

use crate::contract::fresh;
use crate::model::{
    admin_error, advance_error, after_advance, after_claim, after_fund, after_initialize,
    after_register, after_set_active, after_transfer_admin, after_withdraw, beneficiary_index,
    beneficiary_of, beneficiary_ok, claim_error, claims_count, consistent, fund_error,
    has_claimed, initialize_error, is_first_beneficiary, is_receipt, is_registered, log_total,
    new_beneficiary, owed, pays_registered, pending, pending_prefix, receipt_for, register_error,
    set_active_error, withdraw_error, ContractView,
};
use crate::types::{BeneficiaryView, ContractError, RecordView};

verus! {

// ── Helpers ──────────────────────────────────

/// A match at `i` means some first match exists.
pub(crate) proof fn lemma_first_match_exists(bs: Seq<BeneficiaryView>, a: Seq<char>, i: int)
    requires
        0 <= i < bs.len(),
        bs[i].address == a,
    ensures
        beneficiary_index(bs, a) is Some,
    decreases i,
{
    if exists|j: int| 0 <= j < i && bs[j].address == a {
        let j = choose|j: int| 0 <= j < i && bs[j].address == a;
        lemma_first_match_exists(bs, a, j);
    } else {
        assert(is_first_beneficiary(bs, a, i));
    }
}

/// What `beneficiary_index` returns is a first match.
pub(crate) proof fn lemma_index_is_first(bs: Seq<BeneficiaryView>, a: Seq<char>)
    ensures
        beneficiary_index(bs, a) matches Some(i) ==> is_first_beneficiary(bs, a, i),
        beneficiary_index(bs, a) is None ==> forall|i: int|
            0 <= i < bs.len() ==> bs[i].address != a,
{
    if beneficiary_index(bs, a) is None {
        assert forall|i: int| 0 <= i < bs.len() implies bs[i].address != a by {
            if bs[i].address == a {
                lemma_first_match_exists(bs, a, i);
            }
        }
    }
}

/// A first match at `i` is what `beneficiary_index` returns.
pub(crate) proof fn lemma_first_is_index(bs: Seq<BeneficiaryView>, a: Seq<char>, i: int)
    requires
        is_first_beneficiary(bs, a, i),
    ensures
        beneficiary_index(bs, a) == Some(i),
{
    let c = choose|c: int| is_first_beneficiary(bs, a, c);
    assert(c == i) by {
        if c < i {
            assert(bs[c].address != a);
        }
        if i < c {
            assert(bs[i].address != a);
        }
    }
}

/// Where the addresses of the first `bs1.len()` entries are kept, lookups of registered
/// addresses are kept.
pub(crate) proof fn lemma_index_stable(bs1: Seq<BeneficiaryView>, bs2: Seq<BeneficiaryView>, a: Seq<char>)
    requires
        bs1.len() <= bs2.len(),
        forall|i: int| 0 <= i < bs1.len() ==> bs2[i].address == bs1[i].address,
        beneficiary_index(bs1, a) is Some,
    ensures
        beneficiary_index(bs2, a) == beneficiary_index(bs1, a),
{
    lemma_index_is_first(bs1, a);
    let i = beneficiary_index(bs1, a).unwrap();
    assert(is_first_beneficiary(bs2, a, i));
    lemma_first_is_index(bs2, a, i);
}

/// With distinct addresses, the entry at `i` is the one found under its address.
pub(crate) proof fn lemma_distinct_index(s: ContractView, i: int)
    requires
        consistent(s),
        0 <= i < s.beneficiaries.len(),
    ensures
        beneficiary_index(s.beneficiaries, s.beneficiaries[i].address) == Some(i),
{
    let bs = s.beneficiaries;
    assert(is_first_beneficiary(bs, bs[i].address, i));
    lemma_first_is_index(bs, bs[i].address, i);
}

pub(crate) proof fn lemma_count_push(log: Seq<RecordView>, r: RecordView, a: Seq<char>)
    ensures
        claims_count(log.push(r), a) == claims_count(log, a) + if r.beneficiary == a {
            1nat
        } else {
            0nat
        },
{
    assert(log.push(r).drop_last() =~= log);
}

pub(crate) proof fn lemma_total_push(log: Seq<RecordView>, r: RecordView)
    ensures
        log_total(log.push(r)) == log_total(log) + r.amount,
{
    assert(log.push(r).drop_last() =~= log);
}

pub(crate) proof fn lemma_count_absent(log: Seq<RecordView>, a: Seq<char>)
    requires
        forall|k: int| 0 <= k < log.len() ==> log[k].beneficiary != a,
    ensures
        claims_count(log, a) == 0,
    decreases log.len(),
{
    if log.len() > 0 {
        lemma_count_absent(log.drop_last(), a);
    }
}

// ── The invariant is kept ───────────────────

/// A freshly deployed treasury is consistent.
pub proof fn law_fresh_consistent()
    ensures
        consistent(fresh()),
{
}

/// A successful claim keeps the treasury consistent.
pub proof fn law_claim_keeps_consistency(s: ContractView, a: Seq<char>, now: u64)
    requires
        consistent(s),
        claim_error(s, a) is None,
    ensures
        consistent(after_claim(s, a, now)),
{
    let i = beneficiary_index(s.beneficiaries, a).unwrap();
    lemma_index_is_first(s.beneficiaries, a);
    let b = s.beneficiaries[i];
    let r = receipt_for(s, a, now);
    let t = after_claim(s, a, now);
    lemma_total_push(s.audit_log, r);
    assert forall|j: int| 0 <= j < t.beneficiaries.len() implies beneficiary_ok(
        t.audit_log,
        #[trigger] t.beneficiaries[j],
    ) by {
        lemma_count_push(s.audit_log, r, s.beneficiaries[j].address);
        assert(beneficiary_ok(s.audit_log, s.beneficiaries[j]));
        if j == i {
            let c = b.total_claims as int;
            let e = b.entitlement as int;
            assert((c + 1) * e == c * e + e) by (nonlinear_arith);
        } else {
            assert(s.beneficiaries[j].address != a);
        }
    }
    assert forall|k: int| 0 <= k < t.audit_log.len() implies 1 <= #[trigger] t.audit_log[k].cycle
        <= t.current_cycle && pays_registered(t.beneficiaries, t.audit_log[k]) by {
        if k < s.audit_log.len() {
            assert(pays_registered(s.beneficiaries, s.audit_log[k]));
            let w = choose|w: int|
                0 <= w < s.beneficiaries.len() && #[trigger] s.beneficiaries[w].address
                    == s.audit_log[k].beneficiary && s.beneficiaries[w].entitlement
                    == s.audit_log[k].amount && s.beneficiaries[w].name
                    == s.audit_log[k].beneficiary_name;
            assert(t.beneficiaries[w].address == t.audit_log[k].beneficiary);
        } else {
            assert(t.audit_log[k] == r);
            assert(t.beneficiaries[i].address == r.beneficiary);
        }
    }
    assert forall|k: int, l: int| 0 <= k < l < t.audit_log.len() implies !is_receipt(
        t.audit_log[l],
        t.audit_log[k].cycle,
        t.audit_log[k].beneficiary,
    ) by {
        if l == s.audit_log.len() {
            assert(!is_receipt(s.audit_log[k], s.current_cycle, a));
        }
    }
}

/// Successful initialization keeps the treasury consistent.
pub proof fn law_initialize_keeps_consistency(
    s: ContractView,
    admin: Seq<char>,
    subsidy_token: Seq<char>,
    program_name: Seq<u8>,
)
    requires
        consistent(s),
        initialize_error(s, program_name) is None,
    ensures
        consistent(after_initialize(s, admin, subsidy_token, program_name)),
{
}

/// Handing over the admin rights keeps the treasury consistent.
pub proof fn law_transfer_admin_keeps_consistency(
    s: ContractView,
    admin: Seq<char>,
    new_admin: Seq<char>,
)
    requires
        consistent(s),
        admin_error(s, admin) is None,
    ensures
        consistent(after_transfer_admin(s, new_admin)),
{
    let t = after_transfer_admin(s, new_admin);
    assert forall|k: int| 0 <= k < t.audit_log.len() implies 1 <= #[trigger] t.audit_log[k].cycle
        <= t.current_cycle && pays_registered(t.beneficiaries, t.audit_log[k]) by {
        assert(pays_registered(s.beneficiaries, s.audit_log[k]));
    }
}

/// Successful funding keeps the treasury consistent.
pub proof fn law_fund_keeps_consistency(s: ContractView, admin: Seq<char>, amount: i128)
    requires
        consistent(s),
        fund_error(s, admin, amount) is None,
    ensures
        consistent(after_fund(s, amount)),
{
    let t = after_fund(s, amount);
    assert forall|k: int| 0 <= k < t.audit_log.len() implies 1 <= #[trigger] t.audit_log[k].cycle
        <= t.current_cycle && pays_registered(t.beneficiaries, t.audit_log[k]) by {
        assert(pays_registered(s.beneficiaries, s.audit_log[k]));
    }
}

/// Successful registration keeps the treasury consistent.
pub proof fn law_register_keeps_consistency(
    s: ContractView,
    admin: Seq<char>,
    a: Seq<char>,
    name: Seq<u8>,
    entitlement: i128,
    now: u64,
)
    requires
        consistent(s),
        register_error(s, admin, a, name, entitlement) is None,
    ensures
        consistent(after_register(s, a, name, entitlement, now)),
{
    let t = after_register(s, a, name, entitlement, now);
    let n = s.beneficiaries.len() as int;
    assert forall|k: int| 0 <= k < t.audit_log.len() implies 1 <= #[trigger] t.audit_log[k].cycle
        <= t.current_cycle && pays_registered(t.beneficiaries, t.audit_log[k]) by {
        assert(pays_registered(s.beneficiaries, s.audit_log[k]));
        let w = choose|w: int|
            0 <= w < s.beneficiaries.len() && #[trigger] s.beneficiaries[w].address
                == s.audit_log[k].beneficiary && s.beneficiaries[w].entitlement
                == s.audit_log[k].amount && s.beneficiaries[w].name
                == s.audit_log[k].beneficiary_name;
        assert(t.beneficiaries[w].address == t.audit_log[k].beneficiary);
    }
    assert forall|k: int| 0 <= k < s.audit_log.len() implies s.audit_log[k].beneficiary != a by {
        assert(pays_registered(s.beneficiaries, s.audit_log[k]));
        let w = choose|w: int|
            0 <= w < s.beneficiaries.len() && #[trigger] s.beneficiaries[w].address
                == s.audit_log[k].beneficiary && s.beneficiaries[w].entitlement
                == s.audit_log[k].amount && s.beneficiaries[w].name
                == s.audit_log[k].beneficiary_name;
    }
    lemma_count_absent(s.audit_log, a);
    assert forall|j: int| 0 <= j < t.beneficiaries.len() implies beneficiary_ok(
        t.audit_log,
        #[trigger] t.beneficiaries[j],
    ) by {
        if j < n {
            assert(beneficiary_ok(s.audit_log, s.beneficiaries[j]));
        }
    }
    assert forall|i: int, j: int| 0 <= i < j < t.beneficiaries.len() implies t.beneficiaries[i].address
        != t.beneficiaries[j].address by {
        if j == n {
            assert(s.beneficiaries[i].address != a);
        }
    }
}

/// Changing whether a beneficiary is active keeps the treasury consistent.
pub proof fn law_set_active_keeps_consistency(
    s: ContractView,
    admin: Seq<char>,
    a: Seq<char>,
    active: bool,
)
    requires
        consistent(s),
        set_active_error(s, admin, a, active) is None,
    ensures
        consistent(after_set_active(s, a, active)),
{
    let i = beneficiary_index(s.beneficiaries, a).unwrap();
    lemma_index_is_first(s.beneficiaries, a);
    let t = after_set_active(s, a, active);
    assert forall|k: int| 0 <= k < t.audit_log.len() implies 1 <= #[trigger] t.audit_log[k].cycle
        <= t.current_cycle && pays_registered(t.beneficiaries, t.audit_log[k]) by {
        assert(pays_registered(s.beneficiaries, s.audit_log[k]));
        let w = choose|w: int|
            0 <= w < s.beneficiaries.len() && #[trigger] s.beneficiaries[w].address
                == s.audit_log[k].beneficiary && s.beneficiaries[w].entitlement
                == s.audit_log[k].amount && s.beneficiaries[w].name
                == s.audit_log[k].beneficiary_name;
        assert(t.beneficiaries[w].address == t.audit_log[k].beneficiary);
    }
    assert forall|j: int| 0 <= j < t.beneficiaries.len() implies beneficiary_ok(
        t.audit_log,
        #[trigger] t.beneficiaries[j],
    ) by {
        assert(beneficiary_ok(s.audit_log, s.beneficiaries[j]));
    }
}

/// Opening the next cycle keeps the treasury consistent.
pub proof fn law_advance_keeps_consistency(s: ContractView, admin: Seq<char>)
    requires
        consistent(s),
        advance_error(s, admin) is None,
    ensures
        consistent(after_advance(s)),
{
    let t = after_advance(s);
    assert forall|k: int| 0 <= k < t.audit_log.len() implies 1 <= #[trigger] t.audit_log[k].cycle
        <= t.current_cycle && pays_registered(t.beneficiaries, t.audit_log[k]) by {
        assert(pays_registered(s.beneficiaries, s.audit_log[k]));
    }
}

/// In a consistent treasury nobody is owed a negative amount.
pub(crate) proof fn lemma_pending_nonnegative(s: ContractView, k: int)
    requires
        consistent(s),
        0 <= k <= s.beneficiaries.len(),
    ensures
        pending_prefix(s, k) >= 0,
    decreases k,
{
    if k > 0 {
        lemma_pending_nonnegative(s, k - 1);
        assert(beneficiary_ok(s.audit_log, s.beneficiaries[k - 1]));
    }
}

/// A successful withdrawal keeps the treasury consistent.
pub proof fn law_withdraw_keeps_consistency(s: ContractView, admin: Seq<char>, amount: i128)
    requires
        consistent(s),
        withdraw_error(s, admin, amount) is None,
    ensures
        consistent(after_withdraw(s, amount)),
{
    lemma_pending_nonnegative(s, s.beneficiaries.len() as int);
    let t = after_withdraw(s, amount);
    assert forall|k: int| 0 <= k < t.audit_log.len() implies 1 <= #[trigger] t.audit_log[k].cycle
        <= t.current_cycle && pays_registered(t.beneficiaries, t.audit_log[k]) by {
        assert(pays_registered(s.beneficiaries, s.audit_log[k]));
    }
}

// ── Claims ───────────────────────────────────

/// A beneficiary may claim only once per cycle: right after a successful claim, the same
/// beneficiary is refused with `AlreadyClaimed`, whether it claims itself or the admin pays it.
pub proof fn law_claim_once_per_cycle(s: ContractView, admin: Seq<char>, a: Seq<char>, now: u64)
    requires
        claim_error(s, a) is None,
    ensures
        claim_error(after_claim(s, a, now), a) == Some(ContractError::AlreadyClaimed),
        admin_error(s, admin) is None ==> crate::model::disburse_error(
            after_claim(s, a, now),
            admin,
            a,
        ) == Some(ContractError::AlreadyClaimed),
{
    let t = after_claim(s, a, now);
    let n = s.audit_log.len() as int;
    assert(is_receipt(t.audit_log[n], t.current_cycle, a));
    assert(has_claimed(t.audit_log, t.current_cycle, a));
}

/// In a consistent treasury no receipt belongs to a cycle after the current one, so after
/// the next cycle opens nobody has claimed in it.
pub proof fn law_advance_reopens_claims(s: ContractView, admin: Seq<char>, a: Seq<char>)
    requires
        consistent(s),
        advance_error(s, admin) is None,
    ensures
        !has_claimed(after_advance(s).audit_log, after_advance(s).current_cycle, a),
        claim_error(after_advance(s), a) != Some(ContractError::AlreadyClaimed),
{
    let t = after_advance(s);
    assert forall|k: int| 0 <= k < t.audit_log.len() implies !is_receipt(
        t.audit_log[k],
        t.current_cycle,
        a,
    ) by {
        assert(s.audit_log[k].cycle <= s.current_cycle);
    }
}

/// A claim pays exactly the entitlement fixed at registration, moves it from the funds to
/// the disbursed total, and adds it to the beneficiary's lifetime total.
pub proof fn law_claim_pays_entitlement(s: ContractView, a: Seq<char>, now: u64)
    requires
        claim_error(s, a) is None,
    ensures
        beneficiary_of(s, a) matches Some(b) && {
            let t = after_claim(s, a, now);
            &&& receipt_for(s, a, now).amount == b.entitlement
            &&& receipt_for(s, a, now).beneficiary == a
            &&& receipt_for(s, a, now).cycle == s.current_cycle
            &&& t.total_funds == s.total_funds - b.entitlement
            &&& t.total_disbursed == s.total_disbursed + b.entitlement
            &&& t.total_funds + t.total_disbursed == s.total_funds + s.total_disbursed
            &&& beneficiary_of(t, a) matches Some(b2) && b2.entitlement == b.entitlement
                && b2.total_received == b.total_received + b.entitlement && b2.total_claims
                == b.total_claims + 1
        },
{
    let i = beneficiary_index(s.beneficiaries, a).unwrap();
    lemma_index_is_first(s.beneficiaries, a);
    let t = after_claim(s, a, now);
    lemma_index_stable(s.beneficiaries, t.beneficiaries, a);
}

/// After a successful claim, its receipt can be read back for the cycle in which it was
/// paid, and the beneficiary counts as having claimed in that cycle.
pub proof fn law_claim_receipt_readable(s: ContractView, a: Seq<char>, now: u64)
    requires
        claim_error(s, a) is None,
    ensures
        crate::model::receipt_of(after_claim(s, a, now).audit_log, s.current_cycle, a) == Some(
            receipt_for(s, a, now),
        ),
        has_claimed(after_claim(s, a, now).audit_log, s.current_cycle, a),
{
    let t = after_claim(s, a, now);
    let n = s.audit_log.len() as int;
    assert(is_receipt(t.audit_log[n], s.current_cycle, a));
    assert(crate::model::is_first_receipt(t.audit_log, s.current_cycle, a, n)) by {
        assert forall|j: int| 0 <= j < n implies !is_receipt(t.audit_log[j], s.current_cycle, a) by {
            assert(t.audit_log[j] == s.audit_log[j]);
        }
    }
    let c = choose|c: int| crate::model::is_first_receipt(t.audit_log, s.current_cycle, a, c);
    assert(c == n) by {
        if c < n {
            assert(t.audit_log[c] == s.audit_log[c]);
            assert(has_claimed(s.audit_log, s.current_cycle, a));
        }
    }
}

/// A deactivated beneficiary cannot claim until it is reactivated.
pub proof fn law_deactivated_cannot_claim(s: ContractView, admin: Seq<char>, a: Seq<char>)
    requires
        set_active_error(s, admin, a, false) is None,
    ensures
        claim_error(after_set_active(s, a, false), a) is Some,
        claim_error(after_advance(after_set_active(s, a, false)), a) is Some,
{
    let t = after_set_active(s, a, false);
    lemma_index_is_first(s.beneficiaries, a);
    lemma_index_stable(s.beneficiaries, t.beneficiaries, a);
    lemma_index_stable(s.beneficiaries, after_advance(t).beneficiaries, a);
}

// ── Registration and status ──────────────────

/// A registration can be read back exactly as it was made.
pub proof fn law_register_then_lookup(
    s: ContractView,
    admin: Seq<char>,
    a: Seq<char>,
    name: Seq<u8>,
    entitlement: i128,
    now: u64,
)
    requires
        register_error(s, admin, a, name, entitlement) is None,
    ensures
        beneficiary_of(after_register(s, a, name, entitlement, now), a) == Some(
            new_beneficiary(a, name, entitlement, now),
        ),
        is_registered(after_register(s, a, name, entitlement, now), a),
{
    let t = after_register(s, a, name, entitlement, now);
    let n = s.beneficiaries.len() as int;
    assert(t.beneficiaries[n].address == a);
    assert(is_first_beneficiary(t.beneficiaries, a, n)) by {
        assert forall|j: int| 0 <= j < n implies t.beneficiaries[j].address != a by {
            assert(t.beneficiaries[j] == s.beneficiaries[j]);
        }
    }
    lemma_first_is_index(t.beneficiaries, a, n);
}

/// Deactivating and then reactivating a beneficiary gives back the treasury as it was.
pub proof fn law_deactivate_reactivate_roundtrip(s: ContractView, admin: Seq<char>, a: Seq<char>)
    requires
        set_active_error(s, admin, a, false) is None,
    ensures
        set_active_error(after_set_active(s, a, false), admin, a, true) is None,
        after_set_active(after_set_active(s, a, false), a, true) == s,
{
    let t = after_set_active(s, a, false);
    lemma_index_is_first(s.beneficiaries, a);
    lemma_index_stable(s.beneficiaries, t.beneficiaries, a);
    let u = after_set_active(t, a, true);
    assert(u.beneficiaries =~= s.beneficiaries);
}

// ── Authority ────────────────────────────────

/// Only the admin may fund, register, change a beneficiary's status, pay on a
/// beneficiary's behalf, open a cycle, withdraw, or hand over the admin rights.
pub proof fn law_only_admin(
    s: ContractView,
    caller: Seq<char>,
    a: Seq<char>,
    name: Seq<u8>,
    amount: i128,
    active: bool,
)
    requires
        s.config matches Some(c) && c.admin != caller,
    ensures
        admin_error(s, caller) == Some(ContractError::NotAdmin),
        fund_error(s, caller, amount) == Some(ContractError::NotAdmin),
        register_error(s, caller, a, name, amount) == Some(ContractError::NotAdmin),
        set_active_error(s, caller, a, active) == Some(ContractError::NotAdmin),
        crate::model::disburse_error(s, caller, a) == Some(ContractError::NotAdmin),
        advance_error(s, caller) == Some(ContractError::NotAdmin),
        withdraw_error(s, caller, amount) == Some(ContractError::NotAdmin),
{
}

/// Handing over the admin rights gives them to the new admin and takes them from the old.
pub proof fn law_transfer_admin_moves_authority(
    s: ContractView,
    admin: Seq<char>,
    new_admin: Seq<char>,
)
    requires
        admin_error(s, admin) is None,
    ensures
        admin_error(after_transfer_admin(s, new_admin), new_admin) is None,
        admin != new_admin ==> admin_error(after_transfer_admin(s, new_admin), admin) == Some(
            ContractError::NotAdmin,
        ),
{
}

// ── Funds ────────────────────────────────────

/// Owed amounts depend only on the registrations, the audit log and the cycle.
pub(crate) proof fn lemma_pending_ignores_funds(s: ContractView, t: ContractView, k: int)
    requires
        t.beneficiaries == s.beneficiaries,
        t.audit_log == s.audit_log,
        t.current_cycle == s.current_cycle,
    ensures
        pending_prefix(t, k) == pending_prefix(s, k),
    decreases k,
{
    if k > 0 {
        lemma_pending_ignores_funds(s, t, k - 1);
        assert(owed(t, t.beneficiaries[k - 1]) == owed(s, s.beneficiaries[k - 1]));
    }
}

/// A withdrawal never takes what active beneficiaries are still owed in the current cycle:
/// afterwards the funds still cover all of it.
pub proof fn law_withdraw_keeps_pending_covered(s: ContractView, admin: Seq<char>, amount: i128)
    requires
        withdraw_error(s, admin, amount) is None,
    ensures
        after_withdraw(s, amount).total_funds >= pending(after_withdraw(s, amount)),
        after_withdraw(s, amount).total_funds == s.total_funds - amount,
{
    let t = after_withdraw(s, amount);
    lemma_pending_ignores_funds(s, t, s.beneficiaries.len() as int);
}

/// Funding adds the deposit to the funds and leaves everything else as it was.
pub proof fn law_fund_adds_deposit(s: ContractView, admin: Seq<char>, amount: i128)
    requires
        fund_error(s, admin, amount) is None,
    ensures
        after_fund(s, amount).total_funds == s.total_funds + amount,
        after_fund(s, amount).total_disbursed == s.total_disbursed,
        after_fund(s, amount).beneficiaries == s.beneficiaries,
        after_fund(s, amount).audit_log == s.audit_log,
{
}

/// In a consistent treasury the disbursed total is the sum of the audit log, and every
/// beneficiary has received its entitlement once per receipt.
pub proof fn law_disbursed_matches_audit_log(s: ContractView, a: Seq<char>)
    requires
        consistent(s),
    ensures
        s.total_disbursed == log_total(s.audit_log),
        beneficiary_of(s, a) matches Some(b) ==> b.total_claims == claims_count(s.audit_log, a)
            && b.total_received == claims_count(s.audit_log, a) * b.entitlement,
{
    lemma_index_is_first(s.beneficiaries, a);
    if let Some(i) = beneficiary_index(s.beneficiaries, a) {
        assert(beneficiary_ok(s.audit_log, s.beneficiaries[i]));
    }
}

// ── Audit log ────────────────────────────────

/// Every disbursement is logged for good: no operation removes or changes a receipt, and a
/// claim appends exactly its own.
pub proof fn law_audit_log_only_grows(
    s: ContractView,
    caller: Seq<char>,
    a: Seq<char>,
    name: Seq<u8>,
    amount: i128,
    active: bool,
    now: u64,
)
    ensures
        after_initialize(s, caller, a, name).audit_log == s.audit_log,
        after_transfer_admin(s, a).audit_log == s.audit_log,
        after_fund(s, amount).audit_log == s.audit_log,
        after_register(s, a, name, amount, now).audit_log == s.audit_log,
        after_set_active(s, a, active).audit_log == s.audit_log,
        after_advance(s).audit_log == s.audit_log,
        after_withdraw(s, amount).audit_log == s.audit_log,
        after_claim(s, a, now).audit_log == s.audit_log.push(receipt_for(s, a, now)),
{
}

/// `b` is still registered in `t` under the same address, name, entitlement and registration
/// time as in `s`.
pub open spec fn terms_kept(s: ContractView, t: ContractView, b: Seq<char>) -> bool {
    beneficiary_of(s, b) matches Some(x) ==> (beneficiary_of(t, b) matches Some(y) && y.address
        == x.address && y.name == x.name && y.entitlement == x.entitlement && y.registered_at
        == x.registered_at)
}

/// No operation but registration adds or removes a beneficiary, and none changes a
/// registered beneficiary's address, name, entitlement or registration time.
pub proof fn law_entitlements_fixed(
    s: ContractView,
    caller: Seq<char>,
    a: Seq<char>,
    b: Seq<char>,
    name: Seq<u8>,
    amount: i128,
    active: bool,
    now: u64,
)
    ensures
        set_active_error(s, caller, a, active) is None ==> terms_kept(
            s,
            after_set_active(s, a, active),
            b,
        ),
        claim_error(s, a) is None ==> terms_kept(s, after_claim(s, a, now), b),
        terms_kept(s, after_register(s, a, name, amount, now), b),
        terms_kept(s, after_initialize(s, caller, a, name), b),
        terms_kept(s, after_transfer_admin(s, a), b),
        terms_kept(s, after_fund(s, amount), b),
        terms_kept(s, after_advance(s), b),
        terms_kept(s, after_withdraw(s, amount), b),
{
    lemma_index_is_first(s.beneficiaries, a);
    if beneficiary_index(s.beneficiaries, b) is Some {
        if set_active_error(s, caller, a, active) is None {
            lemma_index_stable(s.beneficiaries, after_set_active(s, a, active).beneficiaries, b);
        }
        if claim_error(s, a) is None {
            lemma_index_stable(s.beneficiaries, after_claim(s, a, now).beneficiaries, b);
        }
        lemma_index_stable(
            s.beneficiaries,
            after_register(s, a, name, amount, now).beneficiaries,
            b,
        );
    }
}

} // verus!
