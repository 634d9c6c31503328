use plutocradroid::damm::{encode, decode};
use plutocradroid::errors::Error;

#[test]
fn encode_zero() {
    assert_eq!(encode(0), "00");
}

#[test]
fn encode_known_value() {
    // The classic worked example for the Damm scheme: 572 checks to 4.
    assert_eq!(encode(572), "5724");
}

#[test]
fn decode_valid() {
    assert_eq!(decode("5724"), Ok(572));
    assert_eq!(decode("00"), Ok(0));
}

#[test]
fn decode_bad_check_digit() {
    assert_eq!(decode("5723"), Err(Error::InvalidChecksum));
    assert_eq!(decode("5725"), Err(Error::InvalidChecksum));
}

#[test]
fn decode_rejects_short_input() {
    assert_eq!(decode(""), Err(Error::InvalidChecksum));
    assert_eq!(decode("5"), Err(Error::InvalidChecksum));
    assert_eq!(decode("0"), Err(Error::InvalidChecksum));
}

#[test]
fn decode_rejects_non_digits() {
    assert_eq!(decode("57a4"), Err(Error::InvalidChecksum));
    assert_eq!(decode("-124"), Err(Error::InvalidChecksum));
    assert_eq!(decode(" 5724"), Err(Error::InvalidChecksum));
    assert_eq!(decode("५७२४"), Err(Error::InvalidChecksum));
}

#[test]
fn round_trip_boundary() {
    assert_eq!(decode(&encode(u64::MAX)), Ok(u64::MAX));
    assert_eq!(decode(&encode(1)), Ok(1));
}

#[test]
fn decode_rejects_oversized_values() {
    // One past u64::MAX, with every possible trailing digit: either the
    // check digit is wrong, or the value itself cannot be an id.
    for d in '0'..='9' {
        let mut s = String::from("18446744073709551616");
        s.push(d);
        assert_eq!(decode(&s), Err(Error::InvalidChecksum));
    }
}

#[test]
fn round_trip_representative_range() {
    for id in 0..100_000u64 {
        assert_eq!(decode(&encode(id)), Ok(id));
    }
}

#[test]
fn single_digit_substitution_detected() {
    for id in 0..2_000u64 {
        let s = encode(id);
        let bytes = s.as_bytes();
        for pos in 0..bytes.len() {
            for d in b'0'..=b'9' {
                if d == bytes[pos] {
                    continue;
                }
                let mut corrupted = bytes.to_vec();
                corrupted[pos] = d;
                let corrupted = String::from_utf8(corrupted).unwrap();
                assert_eq!(
                    decode(&corrupted),
                    Err(Error::InvalidChecksum),
                    "undetected substitution in {} -> {}",
                    s,
                    corrupted
                );
            }
        }
    }
}

#[test]
fn adjacent_transposition_detected() {
    for id in 0..5_000u64 {
        let s = encode(id);
        let bytes = s.as_bytes();
        for pos in 0..bytes.len() - 1 {
            if bytes[pos] == bytes[pos + 1] {
                continue;
            }
            let mut swapped = bytes.to_vec();
            swapped.swap(pos, pos + 1);
            let swapped = String::from_utf8(swapped).unwrap();
            assert_eq!(
                decode(&swapped),
                Err(Error::InvalidChecksum),
                "undetected transposition in {} -> {}",
                s,
                swapped
            );
        }
    }
}
