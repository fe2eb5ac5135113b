use vstd::prelude::*;

use crate::address::Address;

verus! {

/// Why an operation on the treasury was refused.
#[derive(Clone, Copy, Debug, PartialEq, Eq, Structural)]
pub enum ContractError {
    AlreadyInitialized,
    EmptyProgramName,
    NotInitialized,
    NotAdmin,
    NonPositiveFundAmount,
    NonPositiveEntitlement,
    EmptyBeneficiaryName,
    AlreadyRegistered,
    BeneficiaryNotFound,
    AlreadyDeactivated,
    AlreadyActive,
    AlreadyClaimed,
    NotActive,
    InsufficientFunds,
    NonPositiveAmount,
    PendingClaims,
    ClaimNotFound,
    Overflow,
}

/// The text with which each refusal is reported.
pub open spec fn error_text(e: ContractError) -> Seq<char> {
    match e {
        ContractError::AlreadyInitialized => "already initialized"@,
        ContractError::EmptyProgramName => "program name cannot be empty"@,
        ContractError::NotInitialized => "contract is not initialized"@,
        ContractError::NotAdmin => "caller is not the admin"@,
        ContractError::NonPositiveFundAmount => "fund amount must be positive"@,
        ContractError::NonPositiveEntitlement => "entitlement must be positive"@,
        ContractError::EmptyBeneficiaryName => "beneficiary name cannot be empty"@,
        ContractError::AlreadyRegistered => "beneficiary already registered"@,
        ContractError::BeneficiaryNotFound => "beneficiary not found"@,
        ContractError::AlreadyDeactivated => "beneficiary already deactivated"@,
        ContractError::AlreadyActive => "beneficiary is already active"@,
        ContractError::AlreadyClaimed => "already claimed this cycle"@,
        ContractError::NotActive => "beneficiary is not active"@,
        ContractError::InsufficientFunds => "insufficient funds for disbursement"@,
        ContractError::NonPositiveAmount => "amount must be positive"@,
        ContractError::PendingClaims => "cannot withdraw: funds needed for pending claims"@,
        ContractError::ClaimNotFound => "no claim found for this cycle and beneficiary"@,
        ContractError::Overflow => "arithmetic overflow"@,
    }
}

impl ContractError {
    /// The message with which the refusal is reported to the caller.
    pub fn message(&self) -> (m: &'static str)
        ensures
            m@ == error_text(*self),
    {
        match self {
            ContractError::AlreadyInitialized => "already initialized",
            ContractError::EmptyProgramName => "program name cannot be empty",
            ContractError::NotInitialized => "contract is not initialized",
            ContractError::NotAdmin => "caller is not the admin",
            ContractError::NonPositiveFundAmount => "fund amount must be positive",
            ContractError::NonPositiveEntitlement => "entitlement must be positive",
            ContractError::EmptyBeneficiaryName => "beneficiary name cannot be empty",
            ContractError::AlreadyRegistered => "beneficiary already registered",
            ContractError::BeneficiaryNotFound => "beneficiary not found",
            ContractError::AlreadyDeactivated => "beneficiary already deactivated",
            ContractError::AlreadyActive => "beneficiary is already active",
            ContractError::AlreadyClaimed => "already claimed this cycle",
            ContractError::NotActive => "beneficiary is not active",
            ContractError::InsufficientFunds => "insufficient funds for disbursement",
            ContractError::NonPositiveAmount => "amount must be positive",
            ContractError::PendingClaims => "cannot withdraw: funds needed for pending claims",
            ContractError::ClaimNotFound => "no claim found for this cycle and beneficiary",
            ContractError::Overflow => "arithmetic overflow",
        }
    }
}

/// Copies a byte string, keeping every byte.
pub(crate) fn copy_bytes(v: &Vec<u8>) -> (r: Vec<u8>)
    ensures
        r@ == v@,
{
    let r = v.clone();
    assert(r@ =~= v@);
    r
}

/// Global treasury configuration.
#[derive(Debug)]
pub struct Config {
    /// Government wallet: the only address that may fund and register.
    pub admin: Address,
    /// Token used for subsidy payouts.
    pub subsidy_token: Address,
    /// Human-readable program name.
    pub program_name: Vec<u8>,
}

pub struct ConfigView {
    pub admin: Seq<char>,
    pub subsidy_token: Seq<char>,
    pub program_name: Seq<u8>,
}

impl View for Config {
    type V = ConfigView;

    open spec fn view(&self) -> ConfigView {
        ConfigView {
            admin: self.admin@,
            subsidy_token: self.subsidy_token@,
            program_name: self.program_name@,
        }
    }
}

impl Clone for Config {
    fn clone(&self) -> (r: Config)
        ensures
            r@ == self@,
    {
        Config {
            admin: self.admin.clone(),
            subsidy_token: self.subsidy_token.clone(),
            program_name: copy_bytes(&self.program_name),
        }
    }
}

/// A registered subsidy recipient.
#[derive(Debug)]
pub struct Beneficiary {
    pub address: Address,
    /// Display name for audit readability.
    pub name: Vec<u8>,
    /// Fixed token amount this beneficiary receives per cycle.
    pub entitlement: i128,
    /// Whether this beneficiary may currently claim.
    pub active: bool,
    /// Ledger timestamp of registration.
    pub registered_at: u64,
    /// How many cycles this beneficiary has claimed.
    pub total_claims: u64,
    /// Total tokens received over its lifetime.
    pub total_received: i128,
}

pub struct BeneficiaryView {
    pub address: Seq<char>,
    pub name: Seq<u8>,
    pub entitlement: i128,
    pub active: bool,
    pub registered_at: u64,
    pub total_claims: u64,
    pub total_received: i128,
}

impl View for Beneficiary {
    type V = BeneficiaryView;

    open spec fn view(&self) -> BeneficiaryView {
        BeneficiaryView {
            address: self.address@,
            name: self.name@,
            entitlement: self.entitlement,
            active: self.active,
            registered_at: self.registered_at,
            total_claims: self.total_claims,
            total_received: self.total_received,
        }
    }
}

impl Clone for Beneficiary {
    fn clone(&self) -> (r: Beneficiary)
        ensures
            r@ == self@,
    {
        Beneficiary {
            address: self.address.clone(),
            name: copy_bytes(&self.name),
            entitlement: self.entitlement,
            active: self.active,
            registered_at: self.registered_at,
            total_claims: self.total_claims,
            total_received: self.total_received,
        }
    }
}

/// Immutable record written on every successful disbursement.
#[derive(Debug)]
pub struct DisbursementRecord {
    pub cycle: u64,
    pub beneficiary: Address,
    pub beneficiary_name: Vec<u8>,
    pub amount: i128,
    pub timestamp: u64,
}

pub struct RecordView {
    pub cycle: u64,
    pub beneficiary: Seq<char>,
    pub beneficiary_name: Seq<u8>,
    pub amount: i128,
    pub timestamp: u64,
}

impl View for DisbursementRecord {
    type V = RecordView;

    open spec fn view(&self) -> RecordView {
        RecordView {
            cycle: self.cycle,
            beneficiary: self.beneficiary@,
            beneficiary_name: self.beneficiary_name@,
            amount: self.amount,
            timestamp: self.timestamp,
        }
    }
}

impl Clone for DisbursementRecord {
    fn clone(&self) -> (r: DisbursementRecord)
        ensures
            r@ == self@,
    {
        DisbursementRecord {
            cycle: self.cycle,
            beneficiary: self.beneficiary.clone(),
            beneficiary_name: copy_bytes(&self.beneficiary_name),
            amount: self.amount,
            timestamp: self.timestamp,
        }
    }
}

/// A token movement that the treasury asks its host to carry out.
#[derive(Debug)]
pub enum Transfer {
    /// Tokens move from `from` into the treasury's own account.
    Deposit { from: Address, amount: i128 },
    /// Tokens move from the treasury's own account to `to`.
    Payout { to: Address, amount: i128 },
}

pub enum TransferView {
    Deposit { from: Seq<char>, amount: i128 },
    Payout { to: Seq<char>, amount: i128 },
}

impl View for Transfer {
    type V = TransferView;

    open spec fn view(&self) -> TransferView {
        match self {
            Transfer::Deposit { from, amount } => TransferView::Deposit { from: from@, amount: *amount },
            Transfer::Payout { to, amount } => TransferView::Payout { to: to@, amount: *amount },
        }
    }
}

} // verus!
