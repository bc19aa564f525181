//! Composite record types and their byte layouts: `Asset` (amount then
//! symbol code, 16 bytes), `CurrencyStats` (supply, max supply, issuer,
//! 40 bytes), and the three action-parameter records. Fields are encoded
//! in declaration order with the codec primitives; decoding threads an
//! offset through the fields.

use vstd::prelude::*;
use crate::codec::{u64_le_bytes, u64_from_le, parse_bytes, stream_append_u64, stream_read_u64,
    stream_read_bytes, lemma_u64_round_trip};

verus! {

/// A quantity of one token: a signed amount and the symbol code whose high
/// 56 bits hold the ticker and whose low 8 bits hold the precision.
#[derive(Clone, Copy, PartialEq, Eq, Structural, Debug)]
pub struct Asset {
    pub amount: i64,
    pub symbol_code: u64,
}

/// The per-ticker record the ledger keeps: circulating supply, the issue
/// ceiling, and the account allowed to issue.
#[derive(Clone, Copy, PartialEq, Eq, Structural, Debug)]
pub struct CurrencyStats {
    pub supply: Asset,
    pub max_supply: Asset,
    pub issuer: u64,
}

/// The 16-byte wire form of an asset: amount, then symbol code.
pub open spec fn asset_le_bytes(a: Asset) -> Seq<u8> {
    u64_le_bytes(a.amount as u64) + u64_le_bytes(a.symbol_code)
}

/// The asset held by the first 16 bytes of `s`.
pub open spec fn asset_from_le(s: Seq<u8>) -> Asset
    recommends
        s.len() >= 16,
{
    Asset {
        amount: u64_from_le(s.subrange(0, 8)) as i64,
        symbol_code: u64_from_le(s.subrange(8, 16)),
    }
}

/// The 40-byte wire form of a stats row: supply, max supply, issuer.
pub open spec fn currency_stats_le_bytes(c: CurrencyStats) -> Seq<u8> {
    asset_le_bytes(c.supply) + asset_le_bytes(c.max_supply) + u64_le_bytes(c.issuer)
}

/// The stats row held by the first 40 bytes of `s`.
pub open spec fn currency_stats_from_le(s: Seq<u8>) -> CurrencyStats
    recommends
        s.len() >= 40,
{
    CurrencyStats {
        supply: asset_from_le(s.subrange(0, 16)),
        max_supply: asset_from_le(s.subrange(16, 32)),
        issuer: u64_from_le(s.subrange(32, 40)),
    }
}

/// Appends the 16-byte encoding of an asset.
pub fn stream_append_asset(data: &Asset, stream: &mut Vec<u8>)
    ensures
        final(stream)@ == old(stream)@ + asset_le_bytes(*data),
{
    stream_append_u64(data.amount as u64, stream);
    stream_append_u64(data.symbol_code, stream);
    proof {
        assert(final(stream)@ =~= old(stream)@ + asset_le_bytes(*data));
    }
}

/// Reads the asset whose 16 bytes start at `offset`.
pub fn stream_read_asset(stream: &Vec<u8>, offset: usize) -> (r: (Asset, usize))
    requires
        offset + 16 <= stream@.len(),
    ensures
        r.0 == asset_from_le(stream@.subrange(offset as int, offset as int + 16)),
        r.1 == 16,
{
    let _n = stream.len();
    let (a, o1) = stream_read_u64(stream, offset);
    let (sc, o2) = stream_read_u64(stream, offset + o1);
    proof {
        let s = stream@.subrange(offset as int, offset as int + 16);
        assert(s.subrange(0, 8) =~= stream@.subrange(offset as int, offset as int + 8));
        assert(s.subrange(8, 16) =~= stream@.subrange(offset as int + 8, offset as int + 16));
    }
    (Asset { amount: #[verifier::truncate] (a as i64), symbol_code: sc }, o1 + o2)
}

/// Appends the 40-byte encoding of a stats row.
pub fn stream_append_currency_stats(data: &CurrencyStats, stream: &mut Vec<u8>)
    ensures
        final(stream)@ == old(stream)@ + currency_stats_le_bytes(*data),
{
    stream_append_asset(&data.supply, stream);
    stream_append_asset(&data.max_supply, stream);
    stream_append_u64(data.issuer, stream);
    proof {
        assert(final(stream)@ =~= old(stream)@ + currency_stats_le_bytes(*data));
    }
}

/// Reads the stats row whose 40 bytes start at `offset`.
pub fn stream_read_currency_stats(stream: &Vec<u8>, offset: usize) -> (r: (CurrencyStats, usize))
    requires
        offset + 40 <= stream@.len(),
    ensures
        r.0 == currency_stats_from_le(stream@.subrange(offset as int, offset as int + 40)),
        r.1 == 40,
{
    let _n = stream.len();
    let (s1, o1) = stream_read_asset(stream, offset);
    let (mx, o2) = stream_read_asset(stream, offset + o1);
    let (iss, o3) = stream_read_u64(stream, offset + o1 + o2);
    proof {
        let s = stream@.subrange(offset as int, offset as int + 40);
        assert(s.subrange(0, 16) =~= stream@.subrange(offset as int, offset as int + 16));
        assert(s.subrange(16, 32) =~= stream@.subrange(offset as int + 16, offset as int + 32));
        assert(s.subrange(32, 40) =~= stream@.subrange(offset as int + 32, offset as int + 40));
    }
    (CurrencyStats { supply: s1, max_supply: mx, issuer: iss }, o1 + o2 + o3)
}

/// Reading back the 16-byte encoding of an asset yields the asset,
/// negative amounts included.
pub proof fn lemma_asset_round_trip(a: Asset)
    ensures
        asset_from_le(asset_le_bytes(a)) == a,
{
    let s = asset_le_bytes(a);
    assert(s.subrange(0, 8) =~= u64_le_bytes(a.amount as u64));
    assert(s.subrange(8, 16) =~= u64_le_bytes(a.symbol_code));
    lemma_u64_round_trip(a.amount as u64);
    lemma_u64_round_trip(a.symbol_code);
    let x = a.amount;
    assert((x as u64) as i64 == x) by (bit_vector);
}

/// Reading back the 40-byte encoding of a stats row yields the row.
pub proof fn lemma_currency_stats_round_trip(c: CurrencyStats)
    ensures
        currency_stats_from_le(currency_stats_le_bytes(c)) == c,
{
    let s = currency_stats_le_bytes(c);
    assert(s.subrange(0, 16) =~= asset_le_bytes(c.supply));
    assert(s.subrange(16, 32) =~= asset_le_bytes(c.max_supply));
    assert(s.subrange(32, 40) =~= u64_le_bytes(c.issuer));
    lemma_asset_round_trip(c.supply);
    lemma_asset_round_trip(c.max_supply);
    lemma_u64_round_trip(c.issuer);
}

/// Parameters of the `create` action: the issuing account and the
/// ceiling asset whose symbol code names the new token.
#[derive(Clone, Copy, PartialEq, Eq, Structural, Debug)]
pub struct CreateParams {
    pub issuer: u64,
    pub max_supply: Asset,
}

/// Parameters of the `issue` action. The memo is kept as the raw bytes the
/// codec carries for a string.
#[derive(PartialEq, Eq, Debug)]
pub struct IssueParams {
    pub to: u64,
    pub quantity: Asset,
    pub memo: Vec<u8>,
}

/// Parameters of the `transfer` action. The memo is kept as the raw bytes
/// the codec carries for a string.
#[derive(PartialEq, Eq, Debug)]
pub struct TransferParams {
    pub from: u64,
    pub to: u64,
    pub quantity: Asset,
    pub memo: Vec<u8>,
}

/// The `create` parameters held by `s`, or `None` when `s` is too short.
pub open spec fn parse_create_params(s: Seq<u8>) -> Option<CreateParams> {
    if s.len() >= 24 {
        Some(
            CreateParams {
                issuer: u64_from_le(s.subrange(0, 8)),
                max_supply: asset_from_le(s.subrange(8, 24)),
            },
        )
    } else {
        None
    }
}

/// The `issue` parameters held by `s`: recipient, quantity, then the memo
/// string. `None` when a field runs past the end of `s`.
pub open spec fn parse_issue_params(s: Seq<u8>) -> Option<(u64, Asset, Seq<u8>)> {
    if s.len() >= 24 {
        match parse_bytes(s.skip(24)) {
            Some(m) => Some(
                (u64_from_le(s.subrange(0, 8)), asset_from_le(s.subrange(8, 24)), m.0),
            ),
            None => None,
        }
    } else {
        None
    }
}

/// The `transfer` parameters held by `s`: sender, recipient, quantity,
/// then the memo string. `None` when a field runs past the end of `s`.
pub open spec fn parse_transfer_params(s: Seq<u8>) -> Option<(u64, u64, Asset, Seq<u8>)> {
    if s.len() >= 32 {
        match parse_bytes(s.skip(32)) {
            Some(m) => Some(
                (
                    u64_from_le(s.subrange(0, 8)),
                    u64_from_le(s.subrange(8, 16)),
                    asset_from_le(s.subrange(16, 32)),
                    m.0,
                ),
            ),
            None => None,
        }
    } else {
        None
    }
}

/// Decodes `create` parameters from the front of an action-data buffer.
pub fn stream_read_create_param_t(stream: &Vec<u8>) -> (r: Option<CreateParams>)
    ensures
        r == parse_create_params(stream@),
{
    if stream.len() < 24 {
        return None;
    }
    let (issuer, o1) = stream_read_u64(stream, 0);
    let (max_supply, _o2) = stream_read_asset(stream, o1);
    Some(CreateParams { issuer, max_supply })
}

/// Decodes `issue` parameters from the front of an action-data buffer.
pub fn stream_read_issue_param_t(stream: &Vec<u8>) -> (r: Option<IssueParams>)
    ensures
        match parse_issue_params(stream@) {
            Some(p) => r matches Some(q) && q.to == p.0 && q.quantity == p.1 && q.memo@ == p.2,
            None => r is None,
        },
{
    if stream.len() < 24 {
        return None;
    }
    let (to, o1) = stream_read_u64(stream, 0);
    let (quantity, o2) = stream_read_asset(stream, o1);
    match stream_read_bytes(stream, o1 + o2) {
        None => None,
        Some((memo, _)) => Some(IssueParams { to, quantity, memo }),
    }
}

/// Decodes `transfer` parameters from the front of an action-data buffer.
pub fn stream_read_transfer_param_t(stream: &Vec<u8>) -> (r: Option<TransferParams>)
    ensures
        match parse_transfer_params(stream@) {
            Some(p) => r matches Some(q) && q.from == p.0 && q.to == p.1 && q.quantity == p.2
                && q.memo@ == p.3,
            None => r is None,
        },
{
    if stream.len() < 32 {
        return None;
    }
    let (from, o1) = stream_read_u64(stream, 0);
    let (to, o2) = stream_read_u64(stream, o1);
    let (quantity, o3) = stream_read_asset(stream, o1 + o2);
    match stream_read_bytes(stream, o1 + o2 + o3) {
        None => None,
        Some((memo, _)) => Some(TransferParams { from, to, quantity, memo }),
    }
}

} // verus!
