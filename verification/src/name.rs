//! Name encoding: the bidirectional mapping between short identifiers
//! (account, action and table names) and their packed 64-bit form. Twelve
//! character slots of five bits each fill the high 60 bits, left to right;
//! the low four bits are always zero. Only `.`, `1`-`5` and `a`-`z` are
//! representable; any other character encodes as zero, the same as `.`.

use vstd::prelude::*;

verus! {

/// The five-bit value of one name character: `1`-`5` map to 1-5,
/// `a`-`z` map to 6-31, everything else (including `.`) maps to 0.
pub open spec fn name_char_value(c: char) -> u64 {
    if 97 <= c as u64 && c as u64 <= 122 {
        (c as u64 - 97 + 6) as u64
    } else if 49 <= c as u64 && c as u64 <= 53 {
        (c as u64 - 48) as u64
    } else {
        0
    }
}

/// The five-bit value of slot `i`: the string's character there, or zero
/// when the string is shorter.
pub open spec fn slot_value(s: Seq<char>, i: nat) -> u64 {
    if i < s.len() {
        name_char_value(s[i as int])
    } else {
        0
    }
}

/// The accumulator after folding the first `n` slots: each step shifts
/// five bits left and adds the slot's value.
pub open spec fn name_accum(s: Seq<char>, n: nat) -> nat
    decreases n,
{
    if n == 0 {
        0
    } else {
        name_accum(s, (n - 1) as nat) * 32 + slot_value(s, (n - 1) as nat) as nat
    }
}

/// The packed 64-bit form of a name: twelve slots, then four zero bits.
pub open spec fn name_value(s: Seq<char>) -> u64 {
    (name_accum(s, 12) * 16) as u64
}

/// 32 to the power `n`.
pub open spec fn pow32(n: nat) -> nat
    decreases n,
{
    if n == 0 {
        1nat
    } else {
        32 * pow32((n - 1) as nat)
    }
}

/// The accumulator over `n` slots stays below `32^n`.
pub proof fn lemma_name_accum_bound(s: Seq<char>, n: nat)
    ensures
        name_accum(s, n) < pow32(n),
    decreases n,
{
    if n > 0 {
        lemma_name_accum_bound(s, (n - 1) as nat);
        assert(slot_value(s, (n - 1) as nat) < 32);
    }
}

/// `32^n` is at least one.
pub proof fn lemma_pow32_pos(n: nat)
    ensures
        pow32(n) >= 1,
    decreases n,
{
    if n > 0 {
        lemma_pow32_pos((n - 1) as nat);
    }
}

/// `32^n` grows with `n`.
pub proof fn lemma_pow32_mono(a: nat, b: nat)
    requires
        a <= b,
    ensures
        pow32(a) <= pow32(b),
    decreases b,
{
    if a < b {
        lemma_pow32_mono(a, (b - 1) as nat);
        lemma_pow32_pos((b - 1) as nat);
    }
}

/// `32^n` for at most twelve slots stays within `2^60`.
pub proof fn lemma_pow32_le_12(n: nat)
    ensures
        n <= 12 ==> pow32(n) <= 0x1000000000000000,
{
    if n <= 12 {
        lemma_pow32_mono(n, 12);
        reveal_with_fuel(pow32, 13);
        assert(pow32(12) == 0x1000000000000000);
    }
}

/// Packs a name string into its 64-bit form, reading at most twelve
/// characters and treating anything past the end of the string as `.`.
pub fn name_to_u64(s: &str) -> (r: u64)
    ensures
        r == name_value(s@),
{
    let n = s.unicode_len();
    let mut val: u64 = 0;
    let mut i: usize = 0;
    while i < 12
        invariant
            i <= 12,
            n == s@.len(),
            val == name_accum(s@, i as nat),
            val < pow32(i as nat),
        decreases 12 - i,
    {
        let mut v: u64 = 0;
        if i < n {
            let c64 = s.get_char(i) as u64;
            if c64 >= 97 && c64 <= 122 {
                v = c64 - 97 + 6;
            } else if c64 >= 49 && c64 <= 53 {
                v = c64 - 48;
            }
        }
        proof {
            assert(v == slot_value(s@, i as nat));
            lemma_name_accum_bound(s@, (i + 1) as nat);
            lemma_pow32_le_12((i + 1) as nat);
        }
        val = val * 32 + v;
        i = i + 1;
    }
    proof {
        lemma_pow32_le_12(12);
    }
    val * 16
}

/// The character a five-bit value prints as: 0 is `.`, 1-5 are `1`-`5`,
/// 6-31 are `a`-`z`.
pub open spec fn name_char(x: u64) -> char
    recommends
        x < 32,
{
    if x == 0 {
        '.'
    } else if x <= 5 {
        ((48 + x) as u8) as char
    } else {
        ((97 + x - 6) as u8) as char
    }
}

/// The printed form of a packed name, one character per remaining five-bit
/// group, stopping once the rest of the value is zero. Trailing `.` slots
/// are therefore omitted; `fuel` bounds the recursion and thirteen groups
/// always exhaust a 64-bit value.
pub open spec fn name_str_rec(v: u64, fuel: nat) -> Seq<char>
    decreases fuel,
{
    if v == 0 || fuel == 0 {
        Seq::empty()
    } else {
        seq![name_char(v >> 59)] + name_str_rec((v << 5) as u64, (fuel - 1) as nat)
    }
}

/// The printed form of a packed name.
pub open spec fn name_str(v: u64) -> Seq<char> {
    name_str_rec(v, 13)
}

/// The value that remains after `k` of the five-bit groups have been
/// printed and shifted out; zero once the whole width has gone by.
pub open spec fn shifted_out(x: u64, k: nat) -> u64 {
    if k < 64 {
        (x << k) as u64
    } else {
        0
    }
}

/// Appends one character to a string.
///
/// Relies on std's `String::push`: it appends exactly the given character.
#[verifier::external_body]
fn string_push_char(s: &mut String, c: char)
    ensures
        final(s)@ == old(s)@.push(c),
{
    s.push(c)
}

/// Prints a packed name, omitting the trailing `.` slots.
pub fn u64_to_name(name: u64) -> (r: String)
    ensures
        r@ == name_str(name),
{
    let mut s = String::new();
    let mut v: u64 = name;
    let mut i: usize = 0;
    proof {
        assert(name << 0 == name) by (bit_vector);
    }
    while v > 0
        invariant
            i <= 13,
            v == shifted_out(name, 5 * i as nat),
            name_str(name) == s@ + name_str_rec(v, (13 - i) as nat),
        decreases 13 - i,
    {
        proof {
            if i == 13 {
                assert(shifted_out(name, 65) == 0);
            }
            assert(v >> 59 < 32) by (bit_vector);
        }
        let ghost old_s = s@;
        let v0 = (v >> 59) as u8;
        if v0 == 0 {
            string_push_char(&mut s, '.');
        } else if v0 <= 5 {
            string_push_char(&mut s, (48 + v0) as char);
        } else {
            string_push_char(&mut s, (97 + v0 - 6) as char);
        }
        proof {
            assert(s@ =~= old_s + seq![name_char(v >> 59)]);
            assert(name_str_rec(v, (13 - i) as nat) == seq![name_char(v >> 59)] + name_str_rec(
                (v << 5) as u64,
                (13 - (i + 1)) as nat,
            ));
            assert(old_s + (seq![name_char(v >> 59)] + name_str_rec(
                (v << 5) as u64,
                (13 - (i + 1)) as nat,
            )) =~= s@ + name_str_rec((v << 5) as u64, (13 - (i + 1)) as nat));
            let k = (5 * i) as u64;
            if i < 12 {
                assert((((name << k) as u64) << 5) as u64 == (name << (k + 5)) as u64)
                    by (bit_vector)
                    requires
                        k <= 55,
                ;
            } else {
                assert((((name << 60) as u64) << 5) as u64 == 0) by (bit_vector);
            }
        }
        v = v << 5;
        i = i + 1;
    }
    s
}

} // verus!
