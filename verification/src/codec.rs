//! Binary codec primitives: fixed-width 64-bit integers (little-endian),
//! variable-length sizes (7 value bits per byte, high bit is the
//! continuation flag), length-prefixed byte strings, and the variant
//! index prefix. Every decoder is offset-based and reports how many bytes
//! it consumed so composite decoders can thread an offset through
//! sequential fields.

use vstd::prelude::*;

verus! {

/// The eight little-endian bytes of a 64-bit value.
pub open spec fn u64_le_bytes(v: u64) -> Seq<u8> {
    seq![
        (v & 0xff) as u8,
        ((v >> 8) & 0xff) as u8,
        ((v >> 16) & 0xff) as u8,
        ((v >> 24) & 0xff) as u8,
        ((v >> 32) & 0xff) as u8,
        ((v >> 40) & 0xff) as u8,
        ((v >> 48) & 0xff) as u8,
        ((v >> 56) & 0xff) as u8,
    ]
}

/// The 64-bit value held by eight little-endian bytes.
pub open spec fn u64_from_le(s: Seq<u8>) -> u64
    recommends
        s.len() == 8,
{
    ((s[0] as u64) | ((s[1] as u64) << 8) | ((s[2] as u64) << 16) | ((s[3] as u64) << 24)
        | ((s[4] as u64) << 32) | ((s[5] as u64) << 40) | ((s[6] as u64) << 48) | ((
    s[7] as u64) << 56)) as u64
}

/// Reading back the eight little-endian bytes of a value yields the value.
pub proof fn lemma_u64_round_trip(v: u64)
    ensures
        u64_from_le(u64_le_bytes(v)) == v,
{
    assert(((((v & 0xff) as u8) as u64) | ((((v >> 8) & 0xff) as u8) as u64) << 8 | ((((v >> 16)
        & 0xff) as u8) as u64) << 16 | ((((v >> 24) & 0xff) as u8) as u64) << 24 | ((((v >> 32)
        & 0xff) as u8) as u64) << 32 | ((((v >> 40) & 0xff) as u8) as u64) << 40 | ((((v >> 48)
        & 0xff) as u8) as u64) << 48 | ((((v >> 56) & 0xff) as u8) as u64) << 56) as u64 == v)
        by (bit_vector);
}

/// Appends the eight little-endian bytes of `data`.
pub fn stream_append_u64(data: u64, stream: &mut Vec<u8>)
    ensures
        final(stream)@ == old(stream)@ + u64_le_bytes(data),
{
    proof {
        assert(data & 0xff < 256 && (data >> 8) & 0xff < 256 && (data >> 16) & 0xff < 256 && (data
            >> 24) & 0xff < 256 && (data >> 32) & 0xff < 256 && (data >> 40) & 0xff < 256 && (data
            >> 48) & 0xff < 256 && (data >> 56) & 0xff < 256) by (bit_vector);
    }
    stream.push((data & 0xff) as u8);
    stream.push(((data >> 8) & 0xff) as u8);
    stream.push(((data >> 16) & 0xff) as u8);
    stream.push(((data >> 24) & 0xff) as u8);
    stream.push(((data >> 32) & 0xff) as u8);
    stream.push(((data >> 40) & 0xff) as u8);
    stream.push(((data >> 48) & 0xff) as u8);
    stream.push(((data >> 56) & 0xff) as u8);
    proof {
        assert(stream@ =~= old(stream)@ + u64_le_bytes(data));
    }
}

/// Reads the 64-bit value whose little-endian bytes start at `offset`.
pub fn stream_read_u64(stream: &Vec<u8>, offset: usize) -> (r: (u64, usize))
    requires
        offset + 8 <= stream@.len(),
    ensures
        r.0 == u64_from_le(stream@.subrange(offset as int, offset as int + 8)),
        r.1 == 8,
{
    let _n = stream.len();
    let b0 = stream[offset];
    let b1 = stream[offset + 1];
    let b2 = stream[offset + 2];
    let b3 = stream[offset + 3];
    let b4 = stream[offset + 4];
    let b5 = stream[offset + 5];
    let b6 = stream[offset + 6];
    let b7 = stream[offset + 7];
    let val: u64 = (b0 as u64) | ((b1 as u64) << 8) | ((b2 as u64) << 16) | ((b3 as u64) << 24)
        | ((b4 as u64) << 32) | ((b5 as u64) << 40) | ((b6 as u64) << 48) | ((b7 as u64) << 56);
    proof {
        let s = stream@.subrange(offset as int, offset as int + 8);
        assert(s[0] == b0 && s[1] == b1 && s[2] == b2 && s[3] == b3 && s[4] == b4 && s[5] == b5
            && s[6] == b6 && s[7] == b7);
    }
    (val, 8)
}

/// The variable-length encoding of a size: seven value bits per byte,
/// least-significant chunk first, high bit set on every byte but the last.
pub open spec fn varuint_bytes(n: nat) -> Seq<u8>
    decreases n,
{
    if n < 128 {
        seq![n as u8]
    } else {
        seq![(n % 128 + 128) as u8] + varuint_bytes(n / 128)
    }
}

/// The value and byte count of the variable-length size at the front of `s`,
/// or `None` when `s` ends before a byte with the continuation flag clear.
pub open spec fn parse_varuint(s: Seq<u8>) -> Option<(nat, nat)>
    decreases s.len(),
{
    if s.len() == 0 {
        None
    } else if s[0] < 128 {
        Some((s[0] as nat, 1))
    } else {
        match parse_varuint(s.skip(1)) {
            Some(p) => Some(((s[0] - 128) as nat + 128 * p.0, p.1 + 1)),
            None => None,
        }
    }
}

/// A parsed variable-length size never consumes more bytes than exist.
pub proof fn lemma_parse_varuint_len(s: Seq<u8>)
    ensures
        parse_varuint(s) matches Some(p) ==> 1 <= p.1 <= s.len(),
    decreases s.len(),
{
    if s.len() > 0 && s[0] >= 128 {
        lemma_parse_varuint_len(s.skip(1));
    }
}

/// Parsing an encoded size, with anything after it, yields the size back and
/// consumes exactly the encoding.
pub proof fn lemma_varuint_round_trip(n: nat, rest: Seq<u8>)
    ensures
        parse_varuint(varuint_bytes(n) + rest) == Some((n, varuint_bytes(n).len())),
    decreases n,
{
    let s = varuint_bytes(n) + rest;
    if n < 128 {
        assert(s[0] == n as u8);
    } else {
        let b = (n % 128 + 128) as u8;
        assert(s[0] == b);
        assert(b >= 128);
        lemma_varuint_round_trip(n / 128, rest);
        assert(s.skip(1) =~= varuint_bytes(n / 128) + rest);
        assert((b - 128) as nat + 128 * (n / 128) == n);
    }
}

/// Appends the variable-length encoding of `data`.
pub fn stream_append_varuint(data: u64, stream: &mut Vec<u8>)
    ensures
        final(stream)@ == old(stream)@ + varuint_bytes(data as nat),
{
    let mut n: u64 = data;
    while n >= 128
        invariant
            old(stream)@.len() <= stream@.len(),
            old(stream)@ == stream@.subrange(0, old(stream)@.len() as int),
            old(stream)@ + varuint_bytes(data as nat) == stream@ + varuint_bytes(n as nat),
        decreases n,
    {
        assert(varuint_bytes(n as nat) == seq![(n as nat % 128 + 128) as u8] + varuint_bytes(
            n as nat / 128));
        stream.push((n % 128 + 128) as u8);
        n = n / 128;
        proof {
            assert(old(stream)@ == stream@.subrange(0, old(stream)@.len() as int));
            assert(old(stream)@ + varuint_bytes(data as nat) =~= stream@ + varuint_bytes(
                n as nat));
        }
    }
    stream.push(n as u8);
    proof {
        assert(final(stream)@ =~= old(stream)@ + varuint_bytes(data as nat));
    }
}

/// Reads the variable-length size starting at `offset`. `None` when the
/// buffer ends before the size does or the size does not fit in 64 bits.
pub fn stream_read_varuint(stream: &Vec<u8>, offset: usize) -> (r: Option<(u64, usize)>)
    requires
        offset <= stream@.len(),
    ensures
        match parse_varuint(stream@.skip(offset as int)) {
            Some(p) => if p.0 <= u64::MAX {
                r == Some((p.0 as u64, p.1 as usize))
            } else {
                r is None
            },
            None => r is None,
        },
    decreases stream@.len() - offset,
{
    proof {
        lemma_parse_varuint_len(stream@.skip(offset as int));
    }
    if offset >= stream.len() {
        return None;
    }
    let b = stream[offset];
    let ghost tail = stream@.skip(offset as int);
    proof {
        assert(tail[0] == stream@[offset as int]);
    }
    if b < 128 {
        return Some((b as u64, 1));
    }
    proof {
        assert(tail.skip(1) =~= stream@.skip(offset as int + 1));
    }
    match stream_read_varuint(stream, offset + 1) {
        None => None,
        Some((v, c)) => {
            let low: u64 = (b - 128) as u64;
            if v > (u64::MAX - low) / 128 {
                proof {
                    let p = parse_varuint(tail.skip(1)).unwrap();
                    assert(p.0 > ((u64::MAX - low) as u64 / 128) as nat ==> 128 * p.0 + low
                        > u64::MAX) by {
                        vstd::arithmetic::div_mod::lemma_fundamental_div_mod(
                            (u64::MAX - low) as int,
                            128,
                        );
                    };
                }
                None
            } else {
                proof {
                    assert(128 * (v as nat) == 128 * v);
                    vstd::arithmetic::div_mod::lemma_fundamental_div_mod(
                        (u64::MAX - low) as int,
                        128,
                    );
                    lemma_parse_varuint_len(tail.skip(1));
                }
                Some((low + 128 * v, c + 1))
            }
        },
    }
}

/// The encoding of a byte string: its length as a variable-length size,
/// then the raw bytes.
pub open spec fn bytes_encoding(b: Seq<u8>) -> Seq<u8> {
    varuint_bytes(b.len()) + b
}

/// The byte string at the front of `s` and the bytes consumed, or `None`
/// when the size or the announced bytes run past the end of `s`.
pub open spec fn parse_bytes(s: Seq<u8>) -> Option<(Seq<u8>, nat)> {
    match parse_varuint(s) {
        Some(p) => if p.1 + p.0 <= s.len() {
            Some((s.subrange(p.1 as int, (p.1 + p.0) as int), p.1 + p.0))
        } else {
            None
        },
        None => None,
    }
}

/// Parsing an encoded byte string, with anything after it, yields the bytes
/// back and consumes exactly the encoding.
pub proof fn lemma_bytes_round_trip(b: Seq<u8>, rest: Seq<u8>)
    ensures
        parse_bytes(bytes_encoding(b) + rest) == Some((b, bytes_encoding(b).len())),
{
    let s = bytes_encoding(b) + rest;
    lemma_varuint_round_trip(b.len(), b + rest);
    assert(s =~= varuint_bytes(b.len()) + (b + rest));
    let c = varuint_bytes(b.len()).len();
    assert(s.subrange(c as int, (c + b.len()) as int) =~= b);
}

/// Appends the length-prefixed encoding of `data`.
pub fn stream_append_bytes(data: &Vec<u8>, stream: &mut Vec<u8>)
    ensures
        final(stream)@ == old(stream)@ + bytes_encoding(data@),
{
    stream_append_varuint(data.len() as u64, stream);
    let ghost mid = stream@;
    let mut i: usize = 0;
    while i < data.len()
        invariant
            i <= data@.len(),
            stream@ == mid + data@.subrange(0, i as int),
        decreases data@.len() - i,
    {
        stream.push(data[i]);
        proof {
            assert(stream@ =~= mid + data@.subrange(0, i + 1));
        }
        i = i + 1;
    }
    proof {
        assert(data@.subrange(0, data@.len() as int) =~= data@);
        assert(final(stream)@ =~= old(stream)@ + bytes_encoding(data@));
    }
}

/// Reads the length-prefixed byte string starting at `offset`. `None` when
/// the size or the announced bytes run past the end of the buffer.
pub fn stream_read_bytes(stream: &Vec<u8>, offset: usize) -> (r: Option<(Vec<u8>, usize)>)
    requires
        offset <= stream@.len(),
    ensures
        match parse_bytes(stream@.skip(offset as int)) {
            Some(p) => r matches Some(q) && q.0@ == p.0 && q.1 == p.1,
            None => r is None,
        },
{
    let ghost tail = stream@.skip(offset as int);
    proof {
        lemma_parse_varuint_len(tail);
    }
    let n = stream.len();
    match stream_read_varuint(stream, offset) {
        None => None,
        Some((len, c)) => {
            let remaining = n - offset - c;
            if len > remaining as u64 {
                proof {
                    match parse_varuint(tail) {
                        Some(pv) => {
                            if pv.0 > u64::MAX {
                                assert(pv.1 + pv.0 > tail.len());
                            }
                        },
                        None => {},
                    }
                }
                return None;
            }
            let len_us = len as usize;
            let mut out: Vec<u8> = Vec::new();
            let start = offset + c;
            let mut i: usize = 0;
            while i < len_us
                invariant
                    i <= len_us,
                    start + len_us <= n == stream@.len(),
                    out@ == stream@.subrange(start as int, start as int + i),
                decreases len_us - i,
            {
                out.push(stream[start + i]);
                proof {
                    assert(out@ =~= stream@.subrange(start as int, start as int + i + 1));
                }
                i = i + 1;
            }
            proof {
                let p = parse_bytes(tail).unwrap();
                assert(p.0 =~= stream@.subrange(start as int, start as int + len_us));
            }
            Some((out, c + len_us))
        },
    }
}

/// The encoding of a variant: the index of the active type as a
/// variable-length size, then the chosen type's own encoding.
pub open spec fn variant_encoding(index: nat, payload: Seq<u8>) -> Seq<u8> {
    varuint_bytes(index) + payload
}

/// Appends the variant index prefix for an already-encoded payload.
pub fn stream_append_variant(index: u64, payload: &Vec<u8>, stream: &mut Vec<u8>)
    ensures
        final(stream)@ == old(stream)@ + variant_encoding(index as nat, payload@),
{
    stream_append_varuint(index, stream);
    let ghost mid = stream@;
    let mut i: usize = 0;
    while i < payload.len()
        invariant
            i <= payload@.len(),
            stream@ == mid + payload@.subrange(0, i as int),
        decreases payload@.len() - i,
    {
        stream.push(payload[i]);
        proof {
            assert(stream@ =~= mid + payload@.subrange(0, i + 1));
        }
        i = i + 1;
    }
    proof {
        assert(payload@.subrange(0, payload@.len() as int) =~= payload@);
        assert(final(stream)@ =~= old(stream)@ + variant_encoding(index as nat, payload@));
    }
}

/// Reads the variant index at `offset`; the caller then decodes the active
/// type's payload at the returned offset.
pub fn stream_read_variant_index(stream: &Vec<u8>, offset: usize) -> (r: Option<(u64, usize)>)
    requires
        offset <= stream@.len(),
    ensures
        match parse_varuint(stream@.skip(offset as int)) {
            Some(p) => if p.0 <= u64::MAX {
                r == Some((p.0 as u64, p.1 as usize))
            } else {
                r is None
            },
            None => r is None,
        },
{
    stream_read_varuint(stream, offset)
}

} // verus!
