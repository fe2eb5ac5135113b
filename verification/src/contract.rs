//! The treasury itself: its state and the operations on it.

use vstd::prelude::*;

use crate::address::Address;
use crate::model::{
    admin_error, advance_error, after_advance, after_claim, after_fund, after_initialize,
    after_register, after_set_active, after_transfer_admin, after_withdraw, beneficiary_index,
    beneficiary_of, claim_error, disburse_error, fund_error, has_claimed, initialize_error,
    is_first_beneficiary, is_first_receipt, is_receipt, is_registered, pending, pending_overflows,
    pending_prefix, receipt_for, receipt_of, register_error, set_active_error, withdraw_error,
    ContractView, Op, addresses, consistent, owed, step,
};
use crate::laws::{
    law_advance_keeps_consistency, law_claim_keeps_consistency, law_fund_keeps_consistency,
    law_initialize_keeps_consistency, law_register_keeps_consistency,
    law_set_active_keeps_consistency, law_transfer_admin_keeps_consistency,
    law_withdraw_keeps_consistency,
};
use crate::types::{
    copy_bytes, Beneficiary, Config, ContractError, DisbursementRecord, Transfer, TransferView,
};

verus! {

/// The treasury's stored state.
pub struct DirectAyudaContract {
    /// `None` until the treasury is initialized.
    pub config: Option<Config>,
    pub total_funds: i128,
    pub total_disbursed: i128,
    pub current_cycle: u64,
    /// Registered beneficiaries, in order of registration.
    pub beneficiaries: Vec<Beneficiary>,
    /// Every disbursement, in the order in which it happened.
    pub audit_log: Vec<DisbursementRecord>,
}

impl View for DirectAyudaContract {
    type V = ContractView;

    open spec fn view(&self) -> ContractView {
        ContractView {
            config: match self.config {
                Some(c) => Some(c@),
                None => None,
            },
            total_funds: self.total_funds,
            total_disbursed: self.total_disbursed,
            current_cycle: self.current_cycle,
            beneficiaries: self.beneficiaries@.map_values(|b: Beneficiary| b@),
            audit_log: self.audit_log@.map_values(|r: DisbursementRecord| r@),
        }
    }
}

/// The state of a treasury that has just been deployed.
pub open spec fn fresh() -> ContractView {
    ContractView {
        config: None,
        total_funds: 0,
        total_disbursed: 0,
        current_cycle: 1,
        beneficiaries: Seq::empty(),
        audit_log: Seq::empty(),
    }
}

impl DirectAyudaContract {
    /// A treasury that has been deployed but not initialized.
    pub fn new() -> (c: DirectAyudaContract)
        ensures
            c@ == fresh(),
            consistent(c@),
    {
        let c = DirectAyudaContract {
            config: None,
            total_funds: 0,
            total_disbursed: 0,
            current_cycle: 1,
            beneficiaries: Vec::new(),
            audit_log: Vec::new(),
        };
        assert(c@.beneficiaries =~= Seq::empty());
        assert(c@.audit_log =~= Seq::empty());
        c
    }

    // ── Lookups ──────────────────────────────

    fn find_beneficiary(&self, a: &Address) -> (r: Option<usize>)
        ensures
            match r {
                Some(i) => i < self.beneficiaries.len() && beneficiary_index(
                    self@.beneficiaries,
                    a@,
                ) == Some(i as int),
                None => beneficiary_index(self@.beneficiaries, a@) is None && !is_registered(
                    self@,
                    a@,
                ),
            },
    {
        let mut i: usize = 0;
        while i < self.beneficiaries.len()
            invariant
                i <= self.beneficiaries.len(),
                forall|j: int| 0 <= j < i ==> self@.beneficiaries[j].address != a@,
            decreases self.beneficiaries.len() - i,
        {
            if self.beneficiaries[i].address.same_as(a) {
                proof {
                    let bs = self@.beneficiaries;
                    assert(is_first_beneficiary(bs, a@, i as int));
                    let c = choose|c: int| is_first_beneficiary(bs, a@, c);
                    assert(c == i) by {
                        if c < i {
                            assert(bs[c].address != a@);
                        }
                        if i < c {
                            assert(bs[i as int].address != a@);
                        }
                    }
                }
                return Some(i);
            }
            i += 1;
        }
        None
    }

    fn find_receipt(&self, cycle: u64, a: &Address) -> (r: Option<usize>)
        ensures
            match r {
                Some(i) => i < self.audit_log.len() && is_first_receipt(
                    self@.audit_log,
                    cycle,
                    a@,
                    i as int,
                ) && has_claimed(self@.audit_log, cycle, a@) && receipt_of(
                    self@.audit_log,
                    cycle,
                    a@,
                ) == Some(self@.audit_log[i as int]),
                None => !has_claimed(self@.audit_log, cycle, a@) && receipt_of(
                    self@.audit_log,
                    cycle,
                    a@,
                ) is None,
            },
    {
        let mut i: usize = 0;
        while i < self.audit_log.len()
            invariant
                i <= self.audit_log.len(),
                forall|j: int| 0 <= j < i ==> !is_receipt(self@.audit_log[j], cycle, a@),
            decreases self.audit_log.len() - i,
        {
            let rec = &self.audit_log[i];
            if rec.cycle == cycle && rec.beneficiary.same_as(a) {
                proof {
                    let log = self@.audit_log;
                    assert(is_receipt(log[i as int], cycle, a@));
                    assert(is_first_receipt(log, cycle, a@, i as int));
                    let c = choose|c: int| is_first_receipt(log, cycle, a@, c);
                    assert(c == i) by {
                        if c < i {
                            assert(!is_receipt(log[c], cycle, a@));
                        }
                        if i < c {
                            assert(!is_receipt(log[i as int], cycle, a@));
                        }
                    }
                }
                return Some(i);
            }
            i += 1;
        }
        None
    }

    fn check_admin(&self, caller: &Address) -> (r: Result<(), ContractError>)
        ensures
            match admin_error(self@, caller@) {
                Some(e) => r == Err::<(), ContractError>(e),
                None => r is Ok,
            },
    {
        match &self.config {
            None => Err(ContractError::NotInitialized),
            Some(c) => if c.admin.same_as(caller) {
                Ok(())
            } else {
                Err(ContractError::NotAdmin)
            },
        }
    }
}


impl DirectAyudaContract {
    /// Pays `beneficiary` its entitlement for the current cycle and records the payment.
    fn process_claim(&mut self, beneficiary: &Address, now: u64) -> (r: Result<
        DisbursementRecord,
        ContractError,
    >)
        ensures
            match claim_error(old(self)@, beneficiary@) {
                Some(e) => r matches Err(x) && x == e && final(self)@ == old(self)@,
                None => r matches Ok(rec) && rec@ == receipt_for(old(self)@, beneficiary@, now)
                    && final(self)@ == after_claim(old(self)@, beneficiary@, now),
            },
    {
        if self.config.is_none() {
            return Err(ContractError::NotInitialized);
        }
        let cycle = self.current_cycle;
        if self.find_receipt(cycle, beneficiary).is_some() {
            return Err(ContractError::AlreadyClaimed);
        }
        let i = match self.find_beneficiary(beneficiary) {
            None => return Err(ContractError::BeneficiaryNotFound),
            Some(i) => i,
        };
        let b = &self.beneficiaries[i];
        if !b.active {
            return Err(ContractError::NotActive);
        }
        let entitlement = b.entitlement;
        if self.total_funds < entitlement {
            return Err(ContractError::InsufficientFunds);
        }
        let funds = match self.total_funds.checked_sub(entitlement) {
            None => return Err(ContractError::Overflow),
            Some(x) => x,
        };
        let disbursed = match self.total_disbursed.checked_add(entitlement) {
            None => return Err(ContractError::Overflow),
            Some(x) => x,
        };
        let claims = match b.total_claims.checked_add(1) {
            None => return Err(ContractError::Overflow),
            Some(x) => x,
        };
        let received = match b.total_received.checked_add(entitlement) {
            None => return Err(ContractError::Overflow),
            Some(x) => x,
        };
        let record = DisbursementRecord {
            cycle,
            beneficiary: beneficiary.clone(),
            beneficiary_name: copy_bytes(&b.name),
            amount: entitlement,
            timestamp: now,
        };
        let updated = Beneficiary {
            address: b.address.clone(),
            name: copy_bytes(&b.name),
            entitlement,
            active: b.active,
            registered_at: b.registered_at,
            total_claims: claims,
            total_received: received,
        };
        let ghost pre = self@;
        self.beneficiaries.set(i, updated);
        self.total_funds = funds;
        self.total_disbursed = disbursed;
        self.audit_log.push(record.clone());
        proof {
            let post = after_claim(pre, beneficiary@, now);
            assert(self@.beneficiaries =~= post.beneficiaries);
            assert(self@.audit_log =~= post.audit_log);
        }
        Ok(record)
    }
}


impl DirectAyudaContract {
    // ── Initialisation ───────────────────────

    /// Sets up the treasury with its admin, payout token and program name.
    pub fn initialize(&mut self, admin: Address, subsidy_token: Address, program_name: Vec<u8>) -> (r:
        Result<(), ContractError>)
        ensures
            match initialize_error(old(self)@, program_name@) {
                Some(e) => r == Err::<(), ContractError>(e) && final(self)@ == old(self)@,
                None => r is Ok && final(self)@ == after_initialize(
                    old(self)@,
                    admin@,
                    subsidy_token@,
                    program_name@,
                ),
            },
            consistent(old(self)@) ==> consistent(final(self)@),
            final(self)@ == step(old(self)@, (Op::Initialize { admin: admin@, subsidy_token: subsidy_token@, program_name: program_name@ })),
    {
        proof {
            if consistent(self@) && initialize_error(self@, program_name@) is None {
                law_initialize_keeps_consistency(self@, admin@, subsidy_token@, program_name@);
            }
        }
        if self.config.is_some() {
            return Err(ContractError::AlreadyInitialized);
        }
        if program_name.len() == 0 {
            return Err(ContractError::EmptyProgramName);
        }
        self.config = Some(Config { admin, subsidy_token, program_name });
        self.total_funds = 0;
        self.total_disbursed = 0;
        self.current_cycle = 1;
        Ok(())
    }

    // ── Admin ────────────────────────────────

    /// Hands the admin rights to `new_admin`.
    pub fn transfer_admin(&mut self, admin: &Address, new_admin: Address) -> (r: Result<
        (),
        ContractError,
    >)
        ensures
            match admin_error(old(self)@, admin@) {
                Some(e) => r == Err::<(), ContractError>(e) && final(self)@ == old(self)@,
                None => r is Ok && final(self)@ == after_transfer_admin(old(self)@, new_admin@),
            },
            consistent(old(self)@) ==> consistent(final(self)@),
            final(self)@ == step(old(self)@, (Op::TransferAdmin { admin: admin@, new_admin: new_admin@ })),
    {
        proof {
            if consistent(self@) && admin_error(self@, admin@) is None {
                law_transfer_admin_keeps_consistency(self@, admin@, new_admin@);
            }
        }
        self.check_admin(admin)?;
        let c = self.config.as_ref().unwrap();
        let updated = Config {
            admin: new_admin,
            subsidy_token: c.subsidy_token.clone(),
            program_name: copy_bytes(&c.program_name),
        };
        self.config = Some(updated);
        Ok(())
    }

    // ── Funding ──────────────────────────────

    /// Credits `amount` deposited by the admin; the returned transfer moves the tokens.
    pub fn fund(&mut self, admin: &Address, amount: i128) -> (r: Result<Transfer, ContractError>)
        ensures
            match fund_error(old(self)@, admin@, amount) {
                Some(e) => r matches Err(x) && x == e && final(self)@ == old(self)@,
                None => r matches Ok(t) && t@ == (TransferView::Deposit { from: admin@, amount })
                    && final(self)@ == after_fund(old(self)@, amount),
            },
            consistent(old(self)@) ==> consistent(final(self)@),
            final(self)@ == step(old(self)@, (Op::Fund { admin: admin@, amount })),
    {
        proof {
            if consistent(self@) && fund_error(self@, admin@, amount) is None {
                law_fund_keeps_consistency(self@, admin@, amount);
            }
        }
        self.check_admin(admin)?;
        if amount <= 0 {
            return Err(ContractError::NonPositiveFundAmount);
        }
        let total = match self.total_funds.checked_add(amount) {
            None => return Err(ContractError::Overflow),
            Some(x) => x,
        };
        self.total_funds = total;
        Ok(Transfer::Deposit { from: admin.clone(), amount })
    }

    // ── Beneficiary registration ─────────────

    /// Registers `beneficiary` with a fixed entitlement per cycle.
    pub fn register_beneficiary(
        &mut self,
        admin: &Address,
        beneficiary: Address,
        name: Vec<u8>,
        entitlement: i128,
        now: u64,
    ) -> (r: Result<(), ContractError>)
        ensures
            match register_error(old(self)@, admin@, beneficiary@, name@, entitlement) {
                Some(e) => r == Err::<(), ContractError>(e) && final(self)@ == old(self)@,
                None => r is Ok && final(self)@ == after_register(
                    old(self)@,
                    beneficiary@,
                    name@,
                    entitlement,
                    now,
                ),
            },
            consistent(old(self)@) ==> consistent(final(self)@),
            final(self)@ == step(old(self)@, (Op::Register { admin: admin@, beneficiary: beneficiary@, name: name@, entitlement, now })),
    {
        proof {
            if consistent(self@) && register_error(self@, admin@, beneficiary@, name@, entitlement) is None {
                law_register_keeps_consistency(self@, admin@, beneficiary@, name@, entitlement, now);
            }
        }
        self.check_admin(admin)?;
        if entitlement <= 0 {
            return Err(ContractError::NonPositiveEntitlement);
        }
        if name.len() == 0 {
            return Err(ContractError::EmptyBeneficiaryName);
        }
        if self.find_beneficiary(&beneficiary).is_some() {
            return Err(ContractError::AlreadyRegistered);
        }
        let record = Beneficiary {
            address: beneficiary,
            name,
            entitlement,
            active: true,
            registered_at: now,
            total_claims: 0,
            total_received: 0,
        };
        let ghost pre = self@;
        self.beneficiaries.push(record);
        proof {
            assert(self@.beneficiaries =~= after_register(
                pre,
                beneficiary@,
                name@,
                entitlement,
                now,
            ).beneficiaries);
        }
        Ok(())
    }

    fn set_active(&mut self, admin: &Address, beneficiary: &Address, active: bool) -> (r: Result<
        (),
        ContractError,
    >)
        ensures
            match set_active_error(old(self)@, admin@, beneficiary@, active) {
                Some(e) => r == Err::<(), ContractError>(e) && final(self)@ == old(self)@,
                None => r is Ok && final(self)@ == after_set_active(
                    old(self)@,
                    beneficiary@,
                    active,
                ),
            },
    {
        self.check_admin(admin)?;
        let i = match self.find_beneficiary(beneficiary) {
            None => return Err(ContractError::BeneficiaryNotFound),
            Some(i) => i,
        };
        let b = &self.beneficiaries[i];
        if b.active == active {
            if active {
                return Err(ContractError::AlreadyActive);
            } else {
                return Err(ContractError::AlreadyDeactivated);
            }
        }
        let updated = Beneficiary {
            address: b.address.clone(),
            name: copy_bytes(&b.name),
            entitlement: b.entitlement,
            active,
            registered_at: b.registered_at,
            total_claims: b.total_claims,
            total_received: b.total_received,
        };
        let ghost pre = self@;
        self.beneficiaries.set(i, updated);
        proof {
            assert(self@.beneficiaries =~= after_set_active(pre, beneficiary@, active).beneficiaries);
        }
        Ok(())
    }

    /// Deactivates a beneficiary, who then cannot claim until reactivated.
    pub fn deactivate_beneficiary(&mut self, admin: &Address, beneficiary: &Address) -> (r: Result<
        (),
        ContractError,
    >)
        ensures
            match set_active_error(old(self)@, admin@, beneficiary@, false) {
                Some(e) => r == Err::<(), ContractError>(e) && final(self)@ == old(self)@,
                None => r is Ok && final(self)@ == after_set_active(
                    old(self)@,
                    beneficiary@,
                    false,
                ),
            },
            consistent(old(self)@) ==> consistent(final(self)@),
            final(self)@ == step(old(self)@, (Op::SetActive { admin: admin@, beneficiary: beneficiary@, active: false })),
    {
        proof {
            if consistent(self@) && set_active_error(self@, admin@, beneficiary@, false) is None {
                law_set_active_keeps_consistency(self@, admin@, beneficiary@, false);
            }
        }
        self.set_active(admin, beneficiary, false)
    }

    /// Reactivates a previously deactivated beneficiary.
    pub fn reactivate_beneficiary(&mut self, admin: &Address, beneficiary: &Address) -> (r: Result<
        (),
        ContractError,
    >)
        ensures
            match set_active_error(old(self)@, admin@, beneficiary@, true) {
                Some(e) => r == Err::<(), ContractError>(e) && final(self)@ == old(self)@,
                None => r is Ok && final(self)@ == after_set_active(
                    old(self)@,
                    beneficiary@,
                    true,
                ),
            },
            consistent(old(self)@) ==> consistent(final(self)@),
            final(self)@ == step(old(self)@, (Op::SetActive { admin: admin@, beneficiary: beneficiary@, active: true })),
    {
        proof {
            if consistent(self@) && set_active_error(self@, admin@, beneficiary@, true) is None {
                law_set_active_keeps_consistency(self@, admin@, beneficiary@, true);
            }
        }
        self.set_active(admin, beneficiary, true)
    }

    // ── Disbursement ─────────────────────────

    /// The beneficiary claims its entitlement for the current cycle; the returned receipt
    /// names the payee and the exact amount to pay out of the treasury.
    pub fn claim(&mut self, beneficiary: &Address, now: u64) -> (r: Result<
        DisbursementRecord,
        ContractError,
    >)
        ensures
            match claim_error(old(self)@, beneficiary@) {
                Some(e) => r matches Err(x) && x == e && final(self)@ == old(self)@,
                None => r matches Ok(rec) && rec@ == receipt_for(old(self)@, beneficiary@, now)
                    && final(self)@ == after_claim(old(self)@, beneficiary@, now),
            },
            consistent(old(self)@) ==> consistent(final(self)@),
            final(self)@ == step(old(self)@, (Op::Claim { beneficiary: beneficiary@, now })),
    {
        proof {
            if consistent(self@) && claim_error(self@, beneficiary@) is None {
                law_claim_keeps_consistency(self@, beneficiary@, now);
            }
        }
        self.process_claim(beneficiary, now)
    }

    /// The admin pays a beneficiary its entitlement on the beneficiary's behalf.
    pub fn disburse_to(&mut self, admin: &Address, beneficiary: &Address, now: u64) -> (r: Result<
        DisbursementRecord,
        ContractError,
    >)
        ensures
            match disburse_error(old(self)@, admin@, beneficiary@) {
                Some(e) => r matches Err(x) && x == e && final(self)@ == old(self)@,
                None => r matches Ok(rec) && rec@ == receipt_for(old(self)@, beneficiary@, now)
                    && final(self)@ == after_claim(old(self)@, beneficiary@, now),
            },
            consistent(old(self)@) ==> consistent(final(self)@),
            final(self)@ == step(old(self)@, (Op::DisburseTo { admin: admin@, beneficiary: beneficiary@, now })),
    {
        proof {
            if consistent(self@) && disburse_error(self@, admin@, beneficiary@) is None {
                law_claim_keeps_consistency(self@, beneficiary@, now);
            }
        }
        if let Err(e) = self.check_admin(admin) {
            return Err(e);
        }
        self.process_claim(beneficiary, now)
    }

    /// Opens the next disbursement cycle.
    pub fn advance_cycle(&mut self, admin: &Address) -> (r: Result<(), ContractError>)
        ensures
            match advance_error(old(self)@, admin@) {
                Some(e) => r == Err::<(), ContractError>(e) && final(self)@ == old(self)@,
                None => r is Ok && final(self)@ == after_advance(old(self)@),
            },
            consistent(old(self)@) ==> consistent(final(self)@),
            final(self)@ == step(old(self)@, (Op::Advance { admin: admin@ })),
    {
        proof {
            if consistent(self@) && advance_error(self@, admin@) is None {
                law_advance_keeps_consistency(self@, admin@);
            }
        }
        self.check_admin(admin)?;
        if self.current_cycle == u64::MAX {
            return Err(ContractError::Overflow);
        }
        self.current_cycle = self.current_cycle + 1;
        Ok(())
    }

    /// What all beneficiaries are still owed in the current cycle, or `Overflow`.
    fn pending_total(&self) -> (r: Result<i128, ContractError>)
        ensures
            match r {
                Ok(p) => !pending_overflows(self@, self@.beneficiaries.len() as int) && p == pending(
                    self@,
                ),
                Err(e) => e == ContractError::Overflow && pending_overflows(
                    self@,
                    self@.beneficiaries.len() as int,
                ),
            },
    {
        let mut acc: i128 = 0;
        let mut i: usize = 0;
        while i < self.beneficiaries.len()
            invariant
                i <= self.beneficiaries.len(),
                acc == pending_prefix(self@, i as int),
                !pending_overflows(self@, i as int),
            decreases self.beneficiaries.len() - i,
        {
            let b = &self.beneficiaries[i];
            let owed_now: i128 = if b.active && self.find_receipt(
                self.current_cycle,
                &b.address,
            ).is_none() {
                b.entitlement
            } else {
                0
            };
            assert(owed_now == owed(self@, self@.beneficiaries[i as int]));
            match acc.checked_add(owed_now) {
                None => {
                    proof {
                        lemma_overflow_persists(
                            self@,
                            i as int + 1,
                            self@.beneficiaries.len() as int,
                        );
                    }
                    return Err(ContractError::Overflow);
                },
                Some(x) => {
                    acc = x;
                },
            }
            i += 1;
        }
        Ok(acc)
    }

    /// Returns `amount` of surplus to the admin, keeping what active beneficiaries are
    /// still owed in the current cycle.
    pub fn withdraw_surplus(&mut self, admin: &Address, amount: i128) -> (r: Result<
        Transfer,
        ContractError,
    >)
        ensures
            match withdraw_error(old(self)@, admin@, amount) {
                Some(e) => r matches Err(x) && x == e && final(self)@ == old(self)@,
                None => r matches Ok(t) && t@ == (TransferView::Payout { to: admin@, amount })
                    && final(self)@ == after_withdraw(old(self)@, amount),
            },
            consistent(old(self)@) ==> consistent(final(self)@),
            final(self)@ == step(old(self)@, (Op::Withdraw { admin: admin@, amount })),
    {
        proof {
            if consistent(self@) && withdraw_error(self@, admin@, amount) is None {
                law_withdraw_keeps_consistency(self@, admin@, amount);
            }
        }
        self.check_admin(admin)?;
        if amount <= 0 {
            return Err(ContractError::NonPositiveAmount);
        }
        let owed_total = self.pending_total()?;
        let rest = match self.total_funds.checked_sub(amount) {
            None => return Err(ContractError::Overflow),
            Some(x) => x,
        };
        if rest < owed_total {
            return Err(ContractError::PendingClaims);
        }
        self.total_funds = rest;
        Ok(Transfer::Payout { to: admin.clone(), amount })
    }
}

/// Once the running sum of what is owed has left the `i128` range, it counts as overflowed
/// for every longer prefix too.
proof fn lemma_overflow_persists(s: ContractView, k: int, n: int)
    requires
        0 <= k <= n,
        pending_overflows(s, k),
    ensures
        pending_overflows(s, n),
    decreases n - k,
{
    if k < n {
        lemma_overflow_persists(s, k, n - 1);
    }
}


impl DirectAyudaContract {
    // ── Queries ──────────────────────────────

    /// The global configuration.
    pub fn get_config(&self) -> (r: Result<Config, ContractError>)
        ensures
            match self@.config {
                Some(c) => r matches Ok(x) && x@ == c,
                None => r matches Err(e) && e == ContractError::NotInitialized,
            },
    {
        match &self.config {
            Some(c) => Ok(c.clone()),
            None => Err(ContractError::NotInitialized),
        }
    }

    /// Tokens held for beneficiaries.
    pub fn get_total_funds(&self) -> (r: i128)
        ensures
            r == self@.total_funds,
    {
        self.total_funds
    }

    /// Tokens paid out since deployment.
    pub fn get_total_disbursed(&self) -> (r: i128)
        ensures
            r == self@.total_disbursed,
    {
        self.total_disbursed
    }

    /// The current disbursement cycle.
    pub fn get_current_cycle(&self) -> (r: u64)
        ensures
            r == self@.current_cycle,
    {
        self.current_cycle
    }

    /// The registration record of `beneficiary`.
    pub fn get_beneficiary(&self, beneficiary: &Address) -> (r: Result<Beneficiary, ContractError>)
        ensures
            match beneficiary_of(self@, beneficiary@) {
                Some(b) => r matches Ok(x) && x@ == b,
                None => r matches Err(e) && e == ContractError::BeneficiaryNotFound,
            },
    {
        match self.find_beneficiary(beneficiary) {
            Some(i) => Ok(self.beneficiaries[i].clone()),
            None => Err(ContractError::BeneficiaryNotFound),
        }
    }

    /// The addresses of all registered beneficiaries, in order of registration.
    pub fn get_all_beneficiaries(&self) -> (r: Vec<Address>)
        ensures
            r@.map_values(|a: Address| a@) == addresses(self@.beneficiaries),
            r.len() == self@.beneficiaries.len(),
            forall|i: int| 0 <= i < r.len() ==> #[trigger] r[i]@ == self@.beneficiaries[i].address,
    {
        let mut out: Vec<Address> = Vec::new();
        let mut i: usize = 0;
        while i < self.beneficiaries.len()
            invariant
                i <= self.beneficiaries.len(),
                out@.map_values(|a: Address| a@) =~= addresses(self@.beneficiaries).take(i as int),
            decreases self.beneficiaries.len() - i,
        {
            let ghost before = out@;
            out.push(self.beneficiaries[i].address.clone());
            proof {
                assert(out@.map_values(|a: Address| a@) =~= before.map_values(|a: Address| a@).push(
                    self@.beneficiaries[i as int].address,
                ));
                assert(addresses(self@.beneficiaries).take(i as int + 1) =~= addresses(
                    self@.beneficiaries,
                ).take(i as int).push(self@.beneficiaries[i as int].address));
            }
            i += 1;
        }
        assert(addresses(self@.beneficiaries).take(i as int) =~= addresses(self@.beneficiaries));
        assert forall|j: int| 0 <= j < out.len() implies #[trigger] out[j]@
            == self@.beneficiaries[j].address by {
            assert(out@.map_values(|a: Address| a@)[j] == out[j]@);
        }
        out
    }

    /// Every disbursement since deployment, in the order in which it happened.
    pub fn get_audit_log(&self) -> (r: Vec<DisbursementRecord>)
        ensures
            r@.map_values(|x: DisbursementRecord| x@) == self@.audit_log,
            r.len() == self@.audit_log.len(),
            forall|i: int| 0 <= i < r.len() ==> #[trigger] r[i]@ == self@.audit_log[i],
    {
        let mut out: Vec<DisbursementRecord> = Vec::new();
        let mut i: usize = 0;
        while i < self.audit_log.len()
            invariant
                i <= self.audit_log.len(),
                out@.map_values(|x: DisbursementRecord| x@) =~= self@.audit_log.take(i as int),
            decreases self.audit_log.len() - i,
        {
            let ghost before = out@;
            out.push(self.audit_log[i].clone());
            proof {
                assert(out@.map_values(|x: DisbursementRecord| x@) =~= before.map_values(
                    |x: DisbursementRecord| x@,
                ).push(self@.audit_log[i as int]));
                assert(self@.audit_log.take(i as int + 1) =~= self@.audit_log.take(i as int).push(
                    self@.audit_log[i as int],
                ));
            }
            i += 1;
        }
        assert(self@.audit_log.take(i as int) =~= self@.audit_log);
        assert forall|j: int| 0 <= j < out.len() implies #[trigger] out[j]@ == self@.audit_log[j] by {
            assert(out@.map_values(|x: DisbursementRecord| x@)[j] == out[j]@);
        }
        out
    }

    /// Whether `beneficiary` was paid in `cycle`.
    pub fn has_claimed(&self, cycle: u64, beneficiary: &Address) -> (r: bool)
        ensures
            r == has_claimed(self@.audit_log, cycle, beneficiary@),
    {
        self.find_receipt(cycle, beneficiary).is_some()
    }

    /// The receipt of `beneficiary` for `cycle`.
    pub fn get_claim_receipt(&self, cycle: u64, beneficiary: &Address) -> (r: Result<
        DisbursementRecord,
        ContractError,
    >)
        ensures
            match receipt_of(self@.audit_log, cycle, beneficiary@) {
                Some(rec) => r matches Ok(x) && x@ == rec,
                None => r matches Err(e) && e == ContractError::ClaimNotFound,
            },
    {
        match self.find_receipt(cycle, beneficiary) {
            Some(i) => Ok(self.audit_log[i].clone()),
            None => Err(ContractError::ClaimNotFound),
        }
    }
}

} // verus!
