use token_ledger::name::{name_to_u64, u64_to_name};

#[test]
fn single_letter_packs_into_the_top_slot() {
    // 'a' maps to 6; eleven empty slots and the four low bits stay zero.
    assert_eq!(name_to_u64("a"), 6u64 << 59);
}

#[test]
fn empty_name_is_zero() {
    assert_eq!(name_to_u64(""), 0);
    assert_eq!(u64_to_name(0), "");
}

#[test]
fn digits_map_to_their_values() {
    assert_eq!(name_to_u64("1"), 1u64 << 59);
    assert_eq!(name_to_u64("5"), 5u64 << 59);
}

#[test]
fn unrepresentable_characters_encode_as_dot() {
    assert_eq!(name_to_u64("A"), 0);
    assert_eq!(name_to_u64("0"), name_to_u64("."));
    assert_eq!(name_to_u64("a_b"), name_to_u64("a.b"));
}

#[test]
fn names_longer_than_twelve_characters_truncate() {
    assert_eq!(name_to_u64("abcdefghijkl"), name_to_u64("abcdefghijklm"));
}

#[test]
fn short_names_round_trip() {
    for s in ["create", "issue", "transfer", "stat", "accounts", "eosio", "alice", "bob", "a.b"] {
        assert_eq!(u64_to_name(name_to_u64(s)), s);
    }
}

#[test]
fn decode_omits_trailing_empty_slots() {
    // A trailing '.' packs as zero, so decoding stops before it.
    assert_eq!(u64_to_name(name_to_u64("abc.")), "abc");
}

#[test]
fn distinct_action_names_stay_distinct() {
    let create = name_to_u64("create");
    let issue = name_to_u64("issue");
    let transfer = name_to_u64("transfer");
    assert_ne!(create, issue);
    assert_ne!(create, transfer);
    assert_ne!(issue, transfer);
}

#[test]
fn low_four_bits_are_always_zero() {
    for s in ["create", "transfer", "abcdefghijkl", "55555"] {
        assert_eq!(name_to_u64(s) & 0xf, 0);
    }
}
