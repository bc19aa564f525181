//! Accounting core of a fungible-token ledger: a deterministic little-endian
//! binary codec, the packed 64-bit name encoding, the composite record types
//! that travel through storage and action data, and the `create` / `issue` /
//! `transfer` state machine with its conservation and precision checks.
//!
//! The host environment (authorization, persistent storage, dispatch) is
//! modelled at the boundary: operations take the set of authorizing accounts
//! and the ledger state as plain values and return the new state or an error.

pub mod codec;
pub mod name;
pub mod records;
pub mod ledger;

use vstd::prelude::*;
use crate::ledger::{Ledger, LedgerError, spec_create, spec_issue, spec_transfer};
use crate::name::{name_to_u64, name_value};
use crate::records::{CurrencyStats, Asset, parse_create_params, parse_issue_params,
    parse_transfer_params, stream_read_create_param_t, stream_read_issue_param_t,
    stream_read_transfer_param_t};

verus! {

/// What the dispatcher does with one inbound action: decode the parameter
/// record for the named action and run the matching operation, or reject
/// the action name or a short buffer.
pub open spec fn spec_apply(
    stats: Map<u64, CurrencyStats>,
    balances: Map<(u64, u64), Asset>,
    auth: Seq<u64>,
    action: u64,
    data: Seq<u8>,
) -> Result<(Map<u64, CurrencyStats>, Map<(u64, u64), Asset>), LedgerError> {
    if action == name_value("create"@) {
        match parse_create_params(data) {
            Some(p) => match spec_create(stats, auth, p.issuer, p.max_supply) {
                Ok(m) => Ok((m, balances)),
                Err(e) => Err(e),
            },
            None => Err(LedgerError::MalformedInput),
        }
    } else if action == name_value("issue"@) {
        match parse_issue_params(data) {
            Some(p) => spec_issue(stats, balances, auth, p.0, p.1),
            None => Err(LedgerError::MalformedInput),
        }
    } else if action == name_value("transfer"@) {
        match parse_transfer_params(data) {
            Some(p) => match spec_transfer(balances, auth, p.0, p.1, p.2) {
                Ok(b) => Ok((stats, b)),
                Err(e) => Err(e),
            },
            None => Err(LedgerError::MalformedInput),
        }
    } else {
        Err(LedgerError::UnknownAction)
    }
}

/// Routes one inbound action to `create`, `issue` or `transfer`: the
/// action-data bytes are decoded into the action's parameter record and
/// the operation runs against the ledger with the given authorizations.
/// Atomic: on any error the ledger is unchanged.
pub fn apply(ledger: &mut Ledger, auth: &Vec<u64>, action: u64, data: &Vec<u8>) -> (r: Result<
    (),
    LedgerError,
>)
    requires
        old(ledger).wf(),
    ensures
        final(ledger).wf(),
        match spec_apply(
            old(ledger).stats_map(),
            old(ledger).balances_map(),
            auth@,
            action,
            data@,
        ) {
            Ok(p) => r == Ok::<(), LedgerError>(()) && final(ledger).stats_map() == p.0 && final(ledger).balances_map() == p.1,
            Err(e) => r == Err::<(), LedgerError>(e) && final(ledger).stats_map() == old(ledger).stats_map() && final(ledger).balances_map() == old(ledger).balances_map(),
        },
{
    if action == name_to_u64("create") {
        match stream_read_create_param_t(data) {
            None => Err(LedgerError::MalformedInput),
            Some(p) => ledger.create(auth, p.issuer, p.max_supply),
        }
    } else if action == name_to_u64("issue") {
        match stream_read_issue_param_t(data) {
            None => Err(LedgerError::MalformedInput),
            Some(p) => ledger.issue(auth, p.to, p.quantity),
        }
    } else if action == name_to_u64("transfer") {
        match stream_read_transfer_param_t(data) {
            None => Err(LedgerError::MalformedInput),
            Some(p) => ledger.transfer(auth, p.from, p.to, p.quantity),
        }
    } else {
        Err(LedgerError::UnknownAction)
    }
}

} // verus!
