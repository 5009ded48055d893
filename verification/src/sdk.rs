//! Decision kernels of the transaction-submission client.
//!
//! The client queries the chain and then decides whether to proceed; the
//! queries stay on the unverified rim, which hands the answers in as plain
//! values. A `force` flag overrides every rejection, as the submission
//! tools allow.

use vstd::prelude::*;
use crate::address::{Address, AddressV};

verus! {

/// Why a submission was refused.
pub enum SdkError {
    /// The address does not belong to any known validator account.
    InvalidValidatorAddress(Address),
    /// The token address does not exist on chain.
    TokenDoesNotExist(Address),
    /// The source address does not exist on chain.
    SourceDoesNotExist(Address),
    /// The target address does not exist on chain.
    TargetLocationDoesNotExist(Address),
    /// The source's balance of the token is lower than the amount to be
    /// transferred.
    BalanceTooLow(Address, Address, u64, u64),
    /// No balance at all was found for the source and token.
    NoBalanceForToken(Address, Address),
}

/// The mathematical value of a refusal.
pub enum SdkErrorV {
    InvalidValidatorAddress(AddressV),
    TokenDoesNotExist(AddressV),
    SourceDoesNotExist(AddressV),
    TargetLocationDoesNotExist(AddressV),
    BalanceTooLow(AddressV, AddressV, u64, u64),
    NoBalanceForToken(AddressV, AddressV),
}

impl View for SdkError {
    type V = SdkErrorV;

    open spec fn view(&self) -> SdkErrorV {
        match self {
            SdkError::InvalidValidatorAddress(a) => SdkErrorV::InvalidValidatorAddress(a@),
            SdkError::TokenDoesNotExist(a) => SdkErrorV::TokenDoesNotExist(a@),
            SdkError::SourceDoesNotExist(a) => SdkErrorV::SourceDoesNotExist(a@),
            SdkError::TargetLocationDoesNotExist(a) => SdkErrorV::TargetLocationDoesNotExist(a@),
            SdkError::BalanceTooLow(a, t, x, y) => SdkErrorV::BalanceTooLow(a@, t@, *x, *y),
            SdkError::NoBalanceForToken(a, t) => SdkErrorV::NoBalanceForToken(a@, t@),
        }
    }
}

/// Passes the validator through exactly when the chain knows it as one, or
/// when forced.
pub fn known_validator_or_err(validator: Address, force: bool, is_validator: bool) -> (r: Result<
    Address,
    SdkError,
>)
    ensures
        is_validator || force ==> (r matches Ok(a) && a@ == validator@),
        !(is_validator || force) ==> (r matches Err(e)
            && e@ == SdkErrorV::InvalidValidatorAddress(validator@)),
{
    if !is_validator {
        if force {
            Ok(validator)
        } else {
            Err(SdkError::InvalidValidatorAddress(validator))
        }
    } else {
        Ok(validator)
    }
}

/// Passes the token through exactly when its address exists on chain, or
/// when forced.
pub fn token_exists_or_err(token: Address, force: bool, on_chain: bool) -> (r: Result<
    Address,
    SdkError,
>)
    ensures
        on_chain || force ==> (r matches Ok(a) && a@ == token@),
        !(on_chain || force) ==> (r matches Err(e) && e@ == SdkErrorV::TokenDoesNotExist(token@)),
{
    if !on_chain && !force {
        Err(SdkError::TokenDoesNotExist(token))
    } else {
        Ok(token)
    }
}

/// Passes the source address through exactly when it exists on chain, or
/// when forced.
pub fn source_exists_or_err(source: Address, force: bool, on_chain: bool) -> (r: Result<
    Address,
    SdkError,
>)
    ensures
        on_chain || force ==> (r matches Ok(a) && a@ == source@),
        !(on_chain || force) ==> (r matches Err(e) && e@ == SdkErrorV::SourceDoesNotExist(source@)),
{
    if !on_chain && !force {
        Err(SdkError::SourceDoesNotExist(source))
    } else {
        Ok(source)
    }
}

/// Passes the target address through exactly when it exists on chain, or
/// when forced.
pub fn target_exists_or_err(target: Address, force: bool, on_chain: bool) -> (r: Result<
    Address,
    SdkError,
>)
    ensures
        on_chain || force ==> (r matches Ok(a) && a@ == target@),
        !(on_chain || force) ==> (r matches Err(e)
            && e@ == SdkErrorV::TargetLocationDoesNotExist(target@)),
{
    if !on_chain && !force {
        Err(SdkError::TargetLocationDoesNotExist(target))
    } else {
        Ok(target)
    }
}

/// Checks that the queried balance covers the amount to be transferred: a
/// missing balance or one below the amount refuses the transfer, unless
/// forced.
pub fn check_balance_too_low_err(
    token: Address,
    source: Address,
    amount: u64,
    balance: Option<u64>,
    force: bool,
) -> (r: Result<(), SdkError>)
    ensures
        match balance {
            Some(b) => {
                if b >= amount || force {
                    r is Ok
                } else {
                    (r matches Err(e) && e@ == SdkErrorV::BalanceTooLow(
                        source@,
                        token@,
                        amount,
                        b,
                    ))
                }
            },
            None => {
                if force {
                    r is Ok
                } else {
                    (r matches Err(e) && e@ == SdkErrorV::NoBalanceForToken(source@, token@))
                }
            },
        },
{
    match balance {
        Some(b) => {
            if b < amount {
                if force {
                    Ok(())
                } else {
                    Err(SdkError::BalanceTooLow(source, token, amount, b))
                }
            } else {
                Ok(())
            }
        },
        None => {
            if force {
                Ok(())
            } else {
                Err(SdkError::NoBalanceForToken(source, token))
            }
        },
    }
}

} // verus!
