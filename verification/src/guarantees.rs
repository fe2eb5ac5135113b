//! What each operation does, stated directly over its inputs: when it must succeed, why
//! alone it may be refused, and what its success leaves behind.

use vstd::prelude::*;

use crate::model::{
    addresses, advance_error, beneficiary_index, beneficiary_of, claim_error, consistent,
    disburse_error, has_claimed, is_registered, op_error, pending, register_error, run, step,
    ContractView, Op,
};
use crate::types::{BeneficiaryView, ContractError, RecordView};

verus! {

// ── Claims ───────────────────────────────────

/// A claim succeeds whenever the treasury is initialized and the claimant is registered,
/// active, not yet paid in the current cycle and covered by the funds (and no counter leaves
/// its range), whatever anybody else is owed. It pays exactly the claimant's entitlement out
/// of the funds, writes its receipt for the current cycle, and counts the claim.
pub proof fn law_claim_succeeds_when_funded(s: ContractView, a: Seq<char>, now: u64)
    requires
        s.config is Some,
        beneficiary_of(s, a) is Some,
        beneficiary_of(s, a).unwrap().active,
        !has_claimed(s.audit_log, s.current_cycle, a),
        s.total_funds >= beneficiary_of(s, a).unwrap().entitlement,
        s.total_funds - beneficiary_of(s, a).unwrap().entitlement <= i128::MAX,
        s.total_disbursed + beneficiary_of(s, a).unwrap().entitlement <= i128::MAX,
        s.total_disbursed + beneficiary_of(s, a).unwrap().entitlement >= i128::MIN,
        beneficiary_of(s, a).unwrap().total_claims < u64::MAX,
        i128::MIN <= beneficiary_of(s, a).unwrap().total_received + beneficiary_of(
            s,
            a,
        ).unwrap().entitlement <= i128::MAX,
    ensures
        ({
            let b = beneficiary_of(s, a).unwrap();
            let e = b.entitlement;
            let t = step(s, Op::Claim { beneficiary: a, now });
            &&& claim_error(s, a) is None
            &&& op_error(s, Op::Claim { beneficiary: a, now }) is None
            &&& crate::model::receipt_for(s, a, now) == (RecordView {
                cycle: s.current_cycle,
                beneficiary: a,
                beneficiary_name: b.name,
                amount: e,
                timestamp: now,
            })
            &&& t.total_funds == s.total_funds - e
            &&& t.total_disbursed == s.total_disbursed + e
            &&& t.current_cycle == s.current_cycle
            &&& t.config == s.config
            &&& t.audit_log == s.audit_log.push(
                RecordView {
                    cycle: s.current_cycle,
                    beneficiary: a,
                    beneficiary_name: b.name,
                    amount: e,
                    timestamp: now,
                },
            )
            &&& t.beneficiaries.len() == s.beneficiaries.len()
            &&& beneficiary_of(t, a) == Some(
                BeneficiaryView {
                    total_claims: (b.total_claims + 1) as u64,
                    total_received: (b.total_received + e) as i128,
                    ..b
                },
            )
        }),
{
    let t = step(s, Op::Claim { beneficiary: a, now });
    crate::laws::law_claim_pays_entitlement(s, a, now);
    crate::laws::lemma_index_is_first(s.beneficiaries, a);
    crate::laws::lemma_index_stable(s.beneficiaries, t.beneficiaries, a);
}

/// A claim is refused only for the reason its error names: `NotInitialized` exactly when the
/// treasury is not initialized; `AlreadyClaimed` exactly when the claimant was already paid in
/// the current cycle; `BeneficiaryNotFound` exactly when it is not registered; `NotActive`
/// exactly when it is deactivated; `InsufficientFunds` exactly when the funds are below its
/// own entitlement.
pub proof fn law_claim_refusal_reasons(s: ContractView, a: Seq<char>)
    ensures
        (claim_error(s, a) == Some(ContractError::NotInitialized)) == (s.config is None),
        (claim_error(s, a) == Some(ContractError::AlreadyClaimed)) == (s.config is Some
            && has_claimed(s.audit_log, s.current_cycle, a)),
        (claim_error(s, a) == Some(ContractError::BeneficiaryNotFound)) == (s.config is Some
            && !has_claimed(s.audit_log, s.current_cycle, a) && !is_registered(s, a)),
        (claim_error(s, a) == Some(ContractError::NotActive)) == (s.config is Some
            && !has_claimed(s.audit_log, s.current_cycle, a) && is_registered(s, a)
            && !beneficiary_of(s, a).unwrap().active),
        (claim_error(s, a) == Some(ContractError::InsufficientFunds)) == (s.config is Some
            && !has_claimed(s.audit_log, s.current_cycle, a) && is_registered(s, a)
            && beneficiary_of(s, a).unwrap().active && s.total_funds < beneficiary_of(
            s,
            a,
        ).unwrap().entitlement),
{
    crate::laws::lemma_index_is_first(s.beneficiaries, a);
    if is_registered(s, a) {
        let i = choose|i: int| 0 <= i < s.beneficiaries.len() && s.beneficiaries[i].address == a;
        crate::laws::lemma_first_match_exists(s.beneficiaries, a, i);
    }
}

/// For the admin, paying a beneficiary on its behalf is exactly the beneficiary's own claim:
/// refused in the same cases with the same error, and with the same effect otherwise. For
/// anybody else it is refused as `NotAdmin`.
pub proof fn law_disburse_is_claim(s: ContractView, caller: Seq<char>, a: Seq<char>, now: u64)
    requires
        s.config is Some,
    ensures
        s.config.unwrap().admin == caller ==> disburse_error(s, caller, a) == claim_error(s, a),
        s.config.unwrap().admin == caller ==> step(
            s,
            Op::DisburseTo { admin: caller, beneficiary: a, now },
        ) == step(s, Op::Claim { beneficiary: a, now }),
        s.config.unwrap().admin != caller ==> disburse_error(s, caller, a) == Some(
            ContractError::NotAdmin,
        ),
        s.config.unwrap().admin != caller ==> step(
            s,
            Op::DisburseTo { admin: caller, beneficiary: a, now },
        ) == s,
{
}

// ── Cycles ───────────────────────────────────

/// The admin can always open the next cycle (unless the counter is at its limit), whatever the
/// funds and whatever is still owed; the cycle goes up by one and nothing else changes.
pub proof fn law_advance_always_opens_next_cycle(s: ContractView, admin: Seq<char>)
    requires
        s.config is Some,
        s.config.unwrap().admin == admin,
        s.current_cycle < u64::MAX,
    ensures
        advance_error(s, admin) is None,
        op_error(s, Op::Advance { admin }) is None,
        step(s, Op::Advance { admin }) == (ContractView {
            current_cycle: (s.current_cycle + 1) as u64,
            ..s
        }),
        step(s, Op::Advance { admin }).current_cycle == s.current_cycle + 1,
{
}

// ── Registration ─────────────────────────────

/// The admin can register any address not yet registered, with a positive entitlement and a
/// non-empty name, in every state and in every cycle; the beneficiary is then found, active,
/// with exactly those terms, no claims, and the registration time given, at the end of the
/// registration order. Nothing else changes.
pub proof fn law_register_succeeds(
    s: ContractView,
    admin: Seq<char>,
    a: Seq<char>,
    name: Seq<u8>,
    entitlement: i128,
    now: u64,
)
    requires
        s.config is Some,
        s.config.unwrap().admin == admin,
        entitlement > 0,
        name.len() > 0,
        !is_registered(s, a),
    ensures
        ({
            let b = BeneficiaryView {
                address: a,
                name,
                entitlement,
                active: true,
                registered_at: now,
                total_claims: 0,
                total_received: 0,
            };
            let op = Op::Register { admin, beneficiary: a, name, entitlement, now };
            &&& register_error(s, admin, a, name, entitlement) is None
            &&& op_error(s, op) is None
            &&& step(s, op) == (ContractView { beneficiaries: s.beneficiaries.push(b), ..s })
            &&& beneficiary_of(step(s, op), a) == Some(b)
            &&& addresses(step(s, op).beneficiaries) == addresses(s.beneficiaries).push(a)
        }),
{
    crate::laws::law_register_then_lookup(s, admin, a, name, entitlement, now);
    let t = step(s, Op::Register { admin, beneficiary: a, name, entitlement, now });
    assert(addresses(t.beneficiaries) =~= addresses(s.beneficiaries).push(a));
}

/// A registration is refused only for the reason its error names: `NotAdmin` exactly when the
/// caller is not the admin, then `NonPositiveEntitlement`, `EmptyBeneficiaryName` and
/// `AlreadyRegistered` exactly for a non-positive entitlement, an empty name and an address
/// already registered.
pub proof fn law_register_refusal_reasons(
    s: ContractView,
    admin: Seq<char>,
    a: Seq<char>,
    name: Seq<u8>,
    entitlement: i128,
)
    requires
        s.config is Some,
    ensures
        (register_error(s, admin, a, name, entitlement) == Some(ContractError::NotAdmin)) == (
        s.config.unwrap().admin != admin),
        (register_error(s, admin, a, name, entitlement) == Some(
            ContractError::NonPositiveEntitlement,
        )) == (s.config.unwrap().admin == admin && entitlement <= 0),
        (register_error(s, admin, a, name, entitlement) == Some(
            ContractError::EmptyBeneficiaryName,
        )) == (s.config.unwrap().admin == admin && entitlement > 0 && name.len() == 0),
        (register_error(s, admin, a, name, entitlement) == Some(ContractError::AlreadyRegistered))
            == (s.config.unwrap().admin == admin && entitlement > 0 && name.len() > 0
            && is_registered(s, a)),
        register_error(s, admin, a, name, entitlement) is None == (s.config.unwrap().admin == admin
            && entitlement > 0 && name.len() > 0 && !is_registered(s, a)),
{
}

// ── The list of beneficiaries ────────────────

/// The list of beneficiaries has one entry per registered beneficiary, active or not, in
/// registration order.
pub proof fn law_addresses_list_everyone(s: ContractView)
    ensures
        addresses(s.beneficiaries).len() == s.beneficiaries.len(),
        forall|i: int|
            0 <= i < s.beneficiaries.len() ==> #[trigger] addresses(s.beneficiaries)[i]
                == s.beneficiaries[i].address,
{
}

/// The addresses registered by the calls `ops` from `s`, in order.
pub open spec fn registered_by(s: ContractView, ops: Seq<Op>) -> Seq<Seq<char>>
    decreases ops.len(),
{
    if ops.len() == 0 {
        Seq::empty()
    } else {
        let before = registered_by(s, ops.drop_last());
        let u = run(s, ops.drop_last());
        match ops.last() {
            Op::Register { beneficiary, .. } => if op_error(u, ops.last()) is None {
                before.push(beneficiary)
            } else {
                before
            },
            _ => before,
        }
    }
}

/// A call changes the list of beneficiaries only by a successful registration, which appends
/// its address; deactivation, reactivation, claims and everything else leave it as it was.
pub proof fn law_step_addresses(s: ContractView, op: Op)
    ensures
        addresses(step(s, op).beneficiaries) == match op {
            Op::Register { beneficiary, .. } => if op_error(s, op) is None {
                addresses(s.beneficiaries).push(beneficiary)
            } else {
                addresses(s.beneficiaries)
            },
            _ => addresses(s.beneficiaries),
        },
{
    let t = step(s, op);
    if op_error(s, op) is None {
        match op {
            Op::Register { .. } => {
                assert(addresses(t.beneficiaries) =~= addresses(s.beneficiaries).push(
                    t.beneficiaries.last().address,
                ));
            },
            _ => {
                assert(addresses(t.beneficiaries) =~= addresses(s.beneficiaries));
            },
        }
    }
}

/// After any sequence of calls, the list of beneficiaries is the old list followed by the
/// addresses of the successful registrations, in order: its length counts registrations, and
/// deactivated beneficiaries stay on it.
pub proof fn law_addresses_follow_registrations(s: ContractView, ops: Seq<Op>)
    ensures
        addresses(run(s, ops).beneficiaries) == addresses(s.beneficiaries) + registered_by(s, ops),
    decreases ops.len(),
{
    if ops.len() == 0 {
        assert(addresses(s.beneficiaries) + Seq::<Seq<char>>::empty() =~= addresses(
            s.beneficiaries,
        ));
    } else {
        let p = ops.drop_last();
        law_addresses_follow_registrations(s, p);
        law_step_addresses(run(s, p), ops.last());
        match ops.last() {
            Op::Register { beneficiary, .. } => {
                if op_error(run(s, p), ops.last()) is None {
                    assert((addresses(s.beneficiaries) + registered_by(s, p)).push(beneficiary)
                        =~= addresses(s.beneficiaries) + registered_by(s, p).push(beneficiary));
                }
            },
            _ => {},
        }
    }
}

// ── Initialization, admin handover, funding ──

/// A deployed treasury that is not yet initialized accepts any non-empty program name: it
/// then has the given admin, token and name, no funds, nothing disbursed, and cycle 1.
pub proof fn law_initialize_succeeds(
    s: ContractView,
    admin: Seq<char>,
    subsidy_token: Seq<char>,
    program_name: Seq<u8>,
)
    requires
        s.config is None,
        program_name.len() > 0,
    ensures
        ({
            let op = Op::Initialize { admin, subsidy_token, program_name };
            let t = step(s, op);
            &&& op_error(s, op) is None
            &&& t.config == Some(crate::types::ConfigView { admin, subsidy_token, program_name })
            &&& t.total_funds == 0
            &&& t.total_disbursed == 0
            &&& t.current_cycle == 1
            &&& t.beneficiaries == s.beneficiaries
            &&& t.audit_log == s.audit_log
        }),
{
}

/// Initialization is refused exactly when the treasury is already initialized
/// (`AlreadyInitialized`) or, before that, when the program name is empty
/// (`EmptyProgramName`).
pub proof fn law_initialize_refusal_reasons(
    s: ContractView,
    admin: Seq<char>,
    subsidy_token: Seq<char>,
    program_name: Seq<u8>,
)
    ensures
        (op_error(s, Op::Initialize { admin, subsidy_token, program_name }) == Some(
            ContractError::AlreadyInitialized,
        )) == (s.config is Some),
        (op_error(s, Op::Initialize { admin, subsidy_token, program_name }) == Some(
            ContractError::EmptyProgramName,
        )) == (s.config is None && program_name.len() == 0),
{
}

/// The admin can always hand over its rights; only the admin changes.
pub proof fn law_transfer_admin_succeeds(s: ContractView, admin: Seq<char>, new_admin: Seq<char>)
    requires
        s.config is Some,
        s.config.unwrap().admin == admin,
    ensures
        ({
            let op = Op::TransferAdmin { admin, new_admin };
            let t = step(s, op);
            let c = s.config.unwrap();
            &&& op_error(s, op) is None
            &&& t.config == Some(
                crate::types::ConfigView {
                    admin: new_admin,
                    subsidy_token: c.subsidy_token,
                    program_name: c.program_name,
                },
            )
            &&& t == (ContractView { config: t.config, ..s })
        }),
{
}

/// The admin can fund the treasury with any positive amount that keeps the funds in range;
/// the funds grow by exactly that amount and nothing else changes. A non-positive amount is
/// refused as `NonPositiveFundAmount`.
pub proof fn law_fund_succeeds(s: ContractView, admin: Seq<char>, amount: i128)
    requires
        s.config is Some,
        s.config.unwrap().admin == admin,
    ensures
        amount > 0 && s.total_funds + amount <= i128::MAX ==> op_error(
            s,
            Op::Fund { admin, amount },
        ) is None && step(s, Op::Fund { admin, amount }) == (ContractView {
            total_funds: (s.total_funds + amount) as i128,
            ..s
        }),
        amount <= 0 ==> op_error(s, Op::Fund { admin, amount }) == Some(
            ContractError::NonPositiveFundAmount,
        ),
{
}

/// For the admin and a positive amount whose sums stay in range, a withdrawal succeeds exactly
/// when the funds left behind still cover what is owed in the current cycle, and then only the
/// funds drop, by exactly the amount.
pub proof fn law_withdraw_behaviour(s: ContractView, admin: Seq<char>, amount: i128)
    requires
        s.config is Some,
        s.config.unwrap().admin == admin,
        amount > 0,
        !crate::model::pending_overflows(s, s.beneficiaries.len() as int),
        s.total_funds - amount >= i128::MIN,
    ensures
        (op_error(s, Op::Withdraw { admin, amount }) is None) == (s.total_funds - amount >= pending(
            s,
        )),
        s.total_funds - amount < pending(s) ==> op_error(s, Op::Withdraw { admin, amount })
            == Some(ContractError::PendingClaims),
        s.total_funds - amount >= pending(s) ==> step(s, Op::Withdraw { admin, amount }) == (
        ContractView { total_funds: (s.total_funds - amount) as i128, ..s }),
        op_error(s, Op::Withdraw { admin, amount: 0 }) == Some(ContractError::NonPositiveAmount),
{
}

// ── Status ───────────────────────────────────

/// The admin can deactivate an active registered beneficiary and reactivate an inactive one;
/// only its `active` flag changes. Asking for the status it already has is refused with
/// `AlreadyDeactivated` or `AlreadyActive`, and an unregistered address with
/// `BeneficiaryNotFound`.
pub proof fn law_set_active_behaviour(
    s: ContractView,
    admin: Seq<char>,
    a: Seq<char>,
    active: bool,
)
    requires
        s.config is Some,
        s.config.unwrap().admin == admin,
    ensures
        !is_registered(s, a) ==> op_error(
            s,
            Op::SetActive { admin, beneficiary: a, active },
        ) == Some(ContractError::BeneficiaryNotFound),
        is_registered(s, a) && beneficiary_of(s, a).unwrap().active == active ==> op_error(
            s,
            Op::SetActive { admin, beneficiary: a, active },
        ) == Some(
            if active {
                ContractError::AlreadyActive
            } else {
                ContractError::AlreadyDeactivated
            },
        ),
        is_registered(s, a) && beneficiary_of(s, a).unwrap().active != active ==> ({
            let t = step(s, Op::SetActive { admin, beneficiary: a, active });
            &&& op_error(s, Op::SetActive { admin, beneficiary: a, active }) is None
            &&& beneficiary_of(t, a) == Some(
                BeneficiaryView { active, ..beneficiary_of(s, a).unwrap() },
            )
            &&& t.beneficiaries.len() == s.beneficiaries.len()
            &&& forall|x: Seq<char>| x != a ==> #[trigger] beneficiary_of(t, x) == beneficiary_of(s, x)
            &&& t == (ContractView { beneficiaries: t.beneficiaries, ..s })
        }),
{
    crate::laws::lemma_index_is_first(s.beneficiaries, a);
    if is_registered(s, a) {
        let i = choose|i: int| 0 <= i < s.beneficiaries.len() && s.beneficiaries[i].address == a;
        crate::laws::lemma_first_match_exists(s.beneficiaries, a, i);
        if beneficiary_of(s, a).unwrap().active != active {
            let t = step(s, Op::SetActive { admin, beneficiary: a, active });
            crate::laws::lemma_index_stable(s.beneficiaries, t.beneficiaries, a);
            assert forall|x: Seq<char>| x != a implies #[trigger] beneficiary_of(t, x)
                == beneficiary_of(s, x) by {
                crate::laws::lemma_index_is_first(s.beneficiaries, x);
                if beneficiary_index(s.beneficiaries, x) is Some {
                    crate::laws::lemma_index_stable(s.beneficiaries, t.beneficiaries, x);
                } else {
                    crate::laws::lemma_index_is_first(t.beneficiaries, x);
                    if beneficiary_index(t.beneficiaries, x) is Some {
                        let j = beneficiary_index(t.beneficiaries, x).unwrap();
                        assert(s.beneficiaries[j].address == x);
                    }
                }
            }
        }
    }
}

// ── Lookups and what is owed ─────────────────

/// In a consistent treasury every registered beneficiary is found under its own address, and
/// an address nobody registered is not found.
pub proof fn law_lookup_finds_registered(s: ContractView, a: Seq<char>)
    requires
        consistent(s),
    ensures
        forall|i: int|
            0 <= i < s.beneficiaries.len() ==> beneficiary_of(s, #[trigger] s.beneficiaries[i].address)
                == Some(s.beneficiaries[i]),
        !is_registered(s, a) ==> beneficiary_of(s, a) is None,
{
    assert forall|i: int| 0 <= i < s.beneficiaries.len() implies beneficiary_of(
        s,
        #[trigger] s.beneficiaries[i].address,
    ) == Some(s.beneficiaries[i]) by {
        crate::laws::lemma_distinct_index(s, i);
    }
    crate::laws::lemma_index_is_first(s.beneficiaries, a);
}

/// What is owed in the current cycle covers the entitlement of every active beneficiary not
/// yet paid in it, is nothing when every beneficiary is inactive or paid, and drops by exactly
/// a beneficiary's entitlement when that beneficiary is paid or deactivated.
pub proof fn law_pending_is_what_is_owed(s: ContractView, a: Seq<char>, now: u64, admin: Seq<char>)
    requires
        consistent(s),
    ensures
        forall|i: int|
            0 <= i < s.beneficiaries.len() && #[trigger] s.beneficiaries[i].active && !has_claimed(
                s.audit_log,
                s.current_cycle,
                s.beneficiaries[i].address,
            ) ==> pending(s) >= s.beneficiaries[i].entitlement,
        (forall|i: int|
            0 <= i < s.beneficiaries.len() ==> !(#[trigger] s.beneficiaries[i]).active
                || has_claimed(s.audit_log, s.current_cycle, s.beneficiaries[i].address))
            ==> pending(s) == 0,
        claim_error(s, a) is None ==> pending(step(s, Op::Claim { beneficiary: a, now }))
            == pending(s) - beneficiary_of(s, a).unwrap().entitlement,
        crate::model::set_active_error(s, admin, a, false) is None && !has_claimed(
            s.audit_log,
            s.current_cycle,
            a,
        ) ==> pending(step(s, Op::SetActive { admin, beneficiary: a, active: false }))
            == pending(s) - beneficiary_of(s, a).unwrap().entitlement,
{
    let n = s.beneficiaries.len() as int;
    assert forall|i: int|
        0 <= i < s.beneficiaries.len() && #[trigger] s.beneficiaries[i].active && !has_claimed(
            s.audit_log,
            s.current_cycle,
            s.beneficiaries[i].address,
        ) implies pending(s) >= s.beneficiaries[i].entitlement by {
        crate::sequences::lemma_owed_within_pending(s, i, n);
    }
    if forall|i: int|
        0 <= i < s.beneficiaries.len() ==> !(#[trigger] s.beneficiaries[i]).active || has_claimed(
            s.audit_log,
            s.current_cycle,
            s.beneficiaries[i].address,
        ) {
        lemma_pending_zero(s, n);
    }
    if claim_error(s, a) is None {
        crate::sequences::lemma_claim_lowers_pending(s, a, now);
    }
    if crate::model::set_active_error(s, admin, a, false) is None {
        crate::laws::lemma_index_is_first(s.beneficiaries, a);
        let i = beneficiary_index(s.beneficiaries, a).unwrap();
        let t = step(s, Op::SetActive { admin, beneficiary: a, active: false });
        crate::sequences::lemma_pending_change(s, t, i, n);
    }
}

proof fn lemma_pending_zero(s: ContractView, k: int)
    requires
        0 <= k <= s.beneficiaries.len(),
        forall|i: int|
            0 <= i < s.beneficiaries.len() ==> !(#[trigger] s.beneficiaries[i]).active || has_claimed(
                s.audit_log,
                s.current_cycle,
                s.beneficiaries[i].address,
            ),
    ensures
        crate::model::pending_prefix(s, k) == 0,
    decreases k,
{
    if k > 0 {
        lemma_pending_zero(s, k - 1);
        assert(s.beneficiaries[k - 1].active ==> has_claimed(
            s.audit_log,
            s.current_cycle,
            s.beneficiaries[k - 1].address,
        ));
    }
}

} // verus!
