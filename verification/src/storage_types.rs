//! Storage keys and the contract's error codes.
use vstd::prelude::*;

use crate::types::Address;

verus! {

/// The keys under which the contract keeps its data.
#[derive(Clone, Copy, PartialEq, Eq, Structural, Debug)]
pub enum DataKey {
    // Instance storage
    VaultCounter,
    SupportedTokens,
    CommunityPool(u64),
    // Persistent storage
    GroupVault(u64),
    MemberRecord(u64, Address),
    CreatorVaults(Address),
    MemberVaults(Address),
}

#[derive(Clone, Copy, PartialEq, Eq, Structural, Debug)]
pub enum CcpError {
    // Initialization
    AlreadyInitialized,
    NotInitialized,
    // Input validation
    InvalidMemberCount,
    MemberAmountMismatch,
    InvalidObligationAmount,
    UnsupportedToken,
    InvalidUnlockTime,
    InvalidFundingDeadline,
    InvalidPenaltyRate,
    // Vault lifecycle
    VaultNotFound,
    NotMember,
    WrongVaultState,
    WrongMemberState,
    FundingDeadlinePassed,
    FundingDeadlineNotPassed,
    EarlyExitNotAllowed,
    // Access control
    Unauthorized,
    // Token transfer
    TransferFailed,
}

pub open spec fn spec_error_code(e: CcpError) -> u32 {
    match e {
        CcpError::AlreadyInitialized => 1,
        CcpError::NotInitialized => 2,
        CcpError::InvalidMemberCount => 10,
        CcpError::MemberAmountMismatch => 11,
        CcpError::InvalidObligationAmount => 12,
        CcpError::UnsupportedToken => 13,
        CcpError::InvalidUnlockTime => 14,
        CcpError::InvalidFundingDeadline => 15,
        CcpError::InvalidPenaltyRate => 16,
        CcpError::VaultNotFound => 20,
        CcpError::NotMember => 21,
        CcpError::WrongVaultState => 22,
        CcpError::WrongMemberState => 23,
        CcpError::FundingDeadlinePassed => 24,
        CcpError::FundingDeadlineNotPassed => 25,
        CcpError::EarlyExitNotAllowed => 26,
        CcpError::Unauthorized => 30,
        CcpError::TransferFailed => 40,
    }
}

impl CcpError {
    /// The error's number, as the contract reports it.
    pub fn code(&self) -> (c: u32)
        ensures
            c == spec_error_code(*self),
    {
        match self {
            CcpError::AlreadyInitialized => 1,
            CcpError::NotInitialized => 2,
            CcpError::InvalidMemberCount => 10,
            CcpError::MemberAmountMismatch => 11,
            CcpError::InvalidObligationAmount => 12,
            CcpError::UnsupportedToken => 13,
            CcpError::InvalidUnlockTime => 14,
            CcpError::InvalidFundingDeadline => 15,
            CcpError::InvalidPenaltyRate => 16,
            CcpError::VaultNotFound => 20,
            CcpError::NotMember => 21,
            CcpError::WrongVaultState => 22,
            CcpError::WrongMemberState => 23,
            CcpError::FundingDeadlinePassed => 24,
            CcpError::FundingDeadlineNotPassed => 25,
            CcpError::EarlyExitNotAllowed => 26,
            CcpError::Unauthorized => 30,
            CcpError::TransferFailed => 40,
        }
    }
}

} // verus!
