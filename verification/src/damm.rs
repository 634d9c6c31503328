//! Checksum codec for public identifiers.
//!
//! An internal integer id is rendered as its decimal digits followed by one
//! check digit computed with the Damm quasigroup scheme: a running check
//! value, seeded at zero, is updated digit by digit through a fixed 10x10
//! operation table; the final running value is appended as the check digit.
//! Decoding re-runs the table over every received digit and succeeds exactly
//! when the final running value is zero. The table is a stability contract:
//! changing any cell would invalidate every previously issued identifier.

use vstd::prelude::*;
use vstd::string::StringSliceAdditionalSpecFns;
use crate::errors::Error;

verus! {

/// One row of the Damm operation table.
pub open spec fn damm_row(x: int) -> Seq<int> {
    if x == 0 {
        seq![0, 3, 1, 7, 5, 9, 8, 6, 4, 2]
    } else if x == 1 {
        seq![7, 0, 9, 2, 1, 5, 4, 8, 6, 3]
    } else if x == 2 {
        seq![4, 2, 0, 6, 8, 7, 1, 3, 5, 9]
    } else if x == 3 {
        seq![1, 7, 5, 0, 9, 8, 3, 4, 2, 6]
    } else if x == 4 {
        seq![6, 1, 2, 3, 0, 4, 5, 9, 7, 8]
    } else if x == 5 {
        seq![3, 6, 7, 4, 2, 0, 9, 5, 8, 1]
    } else if x == 6 {
        seq![5, 8, 6, 9, 7, 2, 0, 1, 3, 4]
    } else if x == 7 {
        seq![8, 9, 4, 5, 3, 6, 2, 0, 1, 7]
    } else if x == 8 {
        seq![9, 4, 3, 8, 6, 1, 7, 2, 0, 5]
    } else {
        seq![2, 5, 8, 1, 4, 3, 6, 7, 9, 0]
    }
}

/// One step of the running check value: current value `x`, next digit `d`.
pub open spec fn damm_step(x: int, d: int) -> int {
    damm_row(x)[d]
}

/// An ASCII decimal digit byte.
pub open spec fn is_digit_byte(b: u8) -> bool {
    48 <= b <= 57
}

/// The numeric value of an ASCII digit byte.
pub open spec fn digit_val(b: u8) -> int {
    b - 48
}

/// The ASCII digit byte of a numeric value in 0..=9.
pub open spec fn digit_byte(d: int) -> u8 {
    (48 + d) as u8
}

pub open spec fn all_digit_bytes(s: Seq<u8>) -> bool {
    forall|i: int| 0 <= i < s.len() ==> is_digit_byte(#[trigger] s[i])
}

/// The running check value after feeding every digit of `s`, oldest first,
/// starting from zero.
pub open spec fn damm_run(s: Seq<u8>) -> int
    decreases s.len(),
{
    if s.len() == 0 {
        0
    } else {
        damm_step(damm_run(s.drop_last()), digit_val(s.last()))
    }
}

/// The decimal ASCII digits of `n`, most significant first, no leading
/// zeros (except for `n == 0` itself).
pub open spec fn dec_digits(n: int) -> Seq<u8>
    recommends
        n >= 0,
    decreases n,
{
    if n < 10 {
        seq![digit_byte(n)]
    } else {
        dec_digits(n / 10) + seq![digit_byte(n % 10)]
    }
}

/// The numeric value of a sequence of ASCII digit bytes.
pub open spec fn dec_value(s: Seq<u8>) -> int
    recommends
        all_digit_bytes(s),
    decreases s.len(),
{
    if s.len() == 0 {
        0
    } else {
        dec_value(s.drop_last()) * 10 + digit_val(s.last())
    }
}

/// The encoded form of id `n`: its decimal digits followed by the Damm check
/// digit, as ASCII bytes.
pub open spec fn spec_encode(n: int) -> Seq<u8> {
    dec_digits(n) + seq![digit_byte(damm_run(dec_digits(n)))]
}

/// The encoded form of id `n` as characters.
pub open spec fn encoded_chars(n: int) -> Seq<char> {
    Seq::new(spec_encode(n).len(), |i: int| spec_encode(n)[i] as char)
}

/// What a received byte string decodes to: the id, when every byte is an
/// ASCII digit, there are at least two digits (at least one id digit plus the
/// check digit), and the running check value over all digits ends at zero;
/// nothing otherwise.
pub open spec fn spec_decode(s: Seq<u8>) -> Option<int> {
    if s.len() >= 2 && all_digit_bytes(s) && damm_run(s) == 0 {
        Some(dec_value(s.drop_last()))
    } else {
        None
    }
}

/// Every cell of the operation table is itself a digit.
proof fn lemma_damm_step_range(x: int, d: int)
    requires
        0 <= x < 10,
        0 <= d < 10,
    ensures
        0 <= damm_step(x, d) < 10,
{
}

/// The diagonal of the operation table is zero: appending the running check
/// value as a digit drives the run to zero.
proof fn lemma_damm_diag(x: int)
    requires
        0 <= x < 10,
    ensures
        damm_step(x, x) == 0,
{
}

/// Each row of the operation table is a permutation: changing the incoming
/// digit changes the outgoing check value.
proof fn lemma_damm_row_injective(x: int, d1: int, d2: int)
    requires
        0 <= x < 10,
        0 <= d1 < 10,
        0 <= d2 < 10,
        d1 != d2,
    ensures
        damm_step(x, d1) != damm_step(x, d2),
{
}

/// Each column of the operation table is a permutation: different incoming
/// check values stay different after absorbing the same digit.
proof fn lemma_damm_col_injective(x1: int, x2: int, d: int)
    requires
        0 <= x1 < 10,
        0 <= x2 < 10,
        0 <= d < 10,
        x1 != x2,
    ensures
        damm_step(x1, d) != damm_step(x2, d),
{
}

/// Total anti-symmetry of the operation table: absorbing two different
/// digits in the two possible orders never yields the same check value, from
/// any starting value. This is what catches adjacent transpositions.
#[verifier::rlimit(100)]
proof fn lemma_damm_antisymmetric(c: int, x: int, y: int)
    requires
        0 <= c < 10,
        0 <= x < 10,
        0 <= y < 10,
        x != y,
    ensures
        damm_step(damm_step(c, x), y) != damm_step(damm_step(c, y), x),
{
}

/// The running check value over digit bytes is itself a digit.
proof fn lemma_damm_run_range(s: Seq<u8>)
    requires
        all_digit_bytes(s),
    ensures
        0 <= damm_run(s) < 10,
    decreases s.len(),
{
    if s.len() == 0 {
    } else {
        lemma_damm_run_range(s.drop_last());
        lemma_damm_step_range(damm_run(s.drop_last()), digit_val(s.last()));
    }
}

/// The decimal rendering of a non-negative id is a non-empty digit string.
proof fn lemma_dec_digits_wf(n: int)
    requires
        n >= 0,
    ensures
        dec_digits(n).len() >= 1,
        all_digit_bytes(dec_digits(n)),
    decreases n,
{
    if n < 10 {
    } else {
        lemma_dec_digits_wf(n / 10);
    }
}

/// Reading the decimal rendering of a non-negative id back as a number gives
/// the id.
proof fn lemma_dec_value_of_digits(n: int)
    requires
        n >= 0,
    ensures
        dec_value(dec_digits(n)) == n,
    decreases n,
{
    if n < 10 {
        let ds = dec_digits(n);
        assert(ds.drop_last() =~= Seq::<u8>::empty());
        assert(dec_value(Seq::<u8>::empty()) == 0);
        assert(ds.last() == digit_byte(n));
        assert(digit_val(digit_byte(n)) == n);
    } else {
        lemma_dec_value_of_digits(n / 10);
        let ds = dec_digits(n);
        assert(ds.drop_last() =~= dec_digits(n / 10));
        assert(ds.last() == digit_byte(n % 10));
        assert(digit_val(digit_byte(n % 10)) == n % 10);
        assert(n / 10 * 10 + n % 10 == n) by {
            vstd::arithmetic::div_mod::lemma_fundamental_div_mod(n, 10);
        }
    }
}

/// Changing any single digit changes the final running check value.
proof fn lemma_run_update_differs(s: Seq<u8>, i: int, b: u8)
    requires
        all_digit_bytes(s),
        0 <= i < s.len(),
        is_digit_byte(b),
        b != s[i],
    ensures
        damm_run(s.update(i, b)) != damm_run(s),
    decreases s.len(),
{
    let t = s.update(i, b);
    assert(all_digit_bytes(t));
    if i == s.len() - 1 {
        assert(t.drop_last() =~= s.drop_last());
        assert(t.last() == b);
        lemma_damm_run_range(s.drop_last());
        assert(digit_val(b) != digit_val(s[i]));
        lemma_damm_row_injective(damm_run(s.drop_last()), digit_val(s[i]), digit_val(b));
    } else {
        assert(t.drop_last() =~= s.drop_last().update(i, b));
        assert(t.last() == s.last());
        assert(all_digit_bytes(s.drop_last()));
        lemma_run_update_differs(s.drop_last(), i, b);
        lemma_damm_run_range(s.drop_last());
        assert(all_digit_bytes(s.drop_last().update(i, b)));
        lemma_damm_run_range(s.drop_last().update(i, b));
        lemma_damm_col_injective(
            damm_run(s.drop_last().update(i, b)),
            damm_run(s.drop_last()),
            digit_val(s.last()),
        );
    }
}

/// Swapping two different adjacent digits changes the final running check
/// value.
proof fn lemma_run_swap_differs(s: Seq<u8>, i: int)
    requires
        all_digit_bytes(s),
        0 <= i,
        i + 1 < s.len(),
        s[i] != s[i + 1],
    ensures
        damm_run(s.update(i, s[i + 1]).update(i + 1, s[i])) != damm_run(s),
    decreases s.len(),
{
    let t = s.update(i, s[i + 1]).update(i + 1, s[i]);
    assert(all_digit_bytes(t));
    if i + 1 == s.len() - 1 {
        let p = s.drop_last().drop_last();
        assert(t.drop_last() =~= s.drop_last().update(i, s[i + 1]));
        assert(t.drop_last().drop_last() =~= p);
        lemma_damm_run_range(p);
        let c = damm_run(p);
        assert(s.drop_last().last() == s[i]);
        assert(t.drop_last().last() == s[i + 1]);
        assert(t.last() == s[i]);
        assert(s.last() == s[i + 1]);
        assert(damm_run(s.drop_last()) == damm_step(c, digit_val(s[i])));
        assert(damm_run(t.drop_last()) == damm_step(c, digit_val(s[i + 1])));
        assert(damm_run(s) == damm_step(damm_step(c, digit_val(s[i])), digit_val(s[i + 1])));
        assert(damm_run(t) == damm_step(damm_step(c, digit_val(s[i + 1])), digit_val(s[i])));
        assert(digit_val(s[i]) != digit_val(s[i + 1]));
        lemma_damm_antisymmetric(c, digit_val(s[i]), digit_val(s[i + 1]));
    } else {
        assert(t.drop_last() =~= s.drop_last().update(i, s[i + 1]).update(i + 1, s[i]));
        assert(t.last() == s.last());
        assert(all_digit_bytes(s.drop_last()));
        lemma_run_swap_differs(s.drop_last(), i);
        lemma_damm_run_range(s.drop_last());
        assert(all_digit_bytes(s.drop_last().update(i, s[i + 1]).update(i + 1, s[i])));
        lemma_damm_run_range(s.drop_last().update(i, s[i + 1]).update(i + 1, s[i]));
        lemma_damm_col_injective(
            damm_run(s.drop_last().update(i, s[i + 1]).update(i + 1, s[i])),
            damm_run(s.drop_last()),
            digit_val(s.last()),
        );
    }
}

/// Substituting any single digit of a validly checksummed string is always
/// detected: the result no longer decodes.
pub proof fn lemma_substitution_detected(s: Seq<u8>, i: int, b: u8)
    requires
        all_digit_bytes(s),
        damm_run(s) == 0,
        0 <= i < s.len(),
        is_digit_byte(b),
        b != s[i],
    ensures
        spec_decode(s.update(i, b)) is None,
{
    lemma_run_update_differs(s, i, b);
}

/// Transposing any two different adjacent digits of a validly checksummed
/// string is always detected: the result no longer decodes.
pub proof fn lemma_transposition_detected(s: Seq<u8>, i: int)
    requires
        all_digit_bytes(s),
        damm_run(s) == 0,
        0 <= i,
        i + 1 < s.len(),
        s[i] != s[i + 1],
    ensures
        spec_decode(s.update(i, s[i + 1]).update(i + 1, s[i])) is None,
{
    lemma_run_swap_differs(s, i);
}

/// Shape of an encoded identifier: at least two digit bytes, and the Damm run
/// over all of them ends at zero, with the id readable before the check digit.
pub proof fn lemma_encode_shape(n: int)
    requires
        n >= 0,
    ensures
        spec_encode(n).len() >= 2,
        all_digit_bytes(spec_encode(n)),
        damm_run(spec_encode(n)) == 0,
        dec_value(spec_encode(n).drop_last()) == n,
{
    let ds = dec_digits(n);
    let e = spec_encode(n);
    lemma_dec_digits_wf(n);
    lemma_damm_run_range(ds);
    let c = damm_run(ds);
    assert(e.drop_last() =~= ds);
    assert(e.last() == digit_byte(c));
    assert(is_digit_byte(digit_byte(c)));
    assert(all_digit_bytes(e)) by {
        assert(forall|i: int| 0 <= i < e.len() - 1 ==> e[i] == ds[i]);
    }
    lemma_damm_diag(c);
    assert(digit_val(digit_byte(c)) == c);
    lemma_dec_value_of_digits(n);
}

/// Round trip: decoding the encoded form of any id yields that id.
pub proof fn lemma_codec_round_trip(id: u64)
    ensures
        spec_decode(spec_encode(id as int)) == Some(id as int),
{
    lemma_encode_shape(id as int);
}

/// The UTF-8 bytes of a string whose characters are an encoded identifier
/// are exactly the encoded digit bytes, so `decode` accepts what `encode`
/// produced.
pub proof fn lemma_encoded_bytes(id: u64, s: &str)
    requires
        s@ == encoded_chars(id as int),
    ensures
        s.spec_bytes() == spec_encode(id as int),
{
    let e = spec_encode(id as int);
    lemma_encode_shape(id as int);
    assert(vstd::utf8::is_ascii_chars(s@)) by {
        assert(forall|i: int| 0 <= i < s@.len() ==> is_digit_byte(#[trigger] e[i]));
        assert(forall|i: int|
            0 <= i < s@.len() ==> '\0' <= #[trigger] s@[i] <= '\u{7f}') by {
            assert(forall|i: int| 0 <= i < s@.len() ==> s@[i] == #[trigger] e[i] as char);
        }
    }
    vstd::utf8::is_ascii_chars_encode_utf8(s@);
    assert(s.spec_bytes() =~= e) by {
        assert(forall|i: int|
            0 <= i < e.len() ==> #[trigger] s.spec_bytes()[i] == (e[i] as char) as u8);
    }
}

/// Table lookup for one Damm step.
fn damm_cell(x: u8, d: u8) -> (r: u8)
    requires
        x < 10,
        d < 10,
    ensures
        r as int == damm_step(x as int, d as int),
        r < 10,
{
    match x {
        0 => match d { 0 => 0, 1 => 3, 2 => 1, 3 => 7, 4 => 5, 5 => 9, 6 => 8, 7 => 6, 8 => 4, _ => 2 },
        1 => match d { 0 => 7, 1 => 0, 2 => 9, 3 => 2, 4 => 1, 5 => 5, 6 => 4, 7 => 8, 8 => 6, _ => 3 },
        2 => match d { 0 => 4, 1 => 2, 2 => 0, 3 => 6, 4 => 8, 5 => 7, 6 => 1, 7 => 3, 8 => 5, _ => 9 },
        3 => match d { 0 => 1, 1 => 7, 2 => 5, 3 => 0, 4 => 9, 5 => 8, 6 => 3, 7 => 4, 8 => 2, _ => 6 },
        4 => match d { 0 => 6, 1 => 1, 2 => 2, 3 => 3, 4 => 0, 5 => 4, 6 => 5, 7 => 9, 8 => 7, _ => 8 },
        5 => match d { 0 => 3, 1 => 6, 2 => 7, 3 => 4, 4 => 2, 5 => 0, 6 => 9, 7 => 5, 8 => 8, _ => 1 },
        6 => match d { 0 => 5, 1 => 8, 2 => 6, 3 => 9, 4 => 7, 5 => 2, 6 => 0, 7 => 1, 8 => 3, _ => 4 },
        7 => match d { 0 => 8, 1 => 9, 2 => 4, 3 => 5, 4 => 3, 5 => 6, 6 => 2, 7 => 0, 8 => 1, _ => 7 },
        8 => match d { 0 => 9, 1 => 4, 2 => 3, 3 => 8, 4 => 6, 5 => 1, 6 => 7, 7 => 2, 8 => 0, _ => 5 },
        _ => match d { 0 => 2, 1 => 5, 2 => 8, 3 => 1, 4 => 4, 5 => 3, 6 => 6, 7 => 7, 8 => 9, _ => 0 },
    }
}

/// The running check value over a slice of ASCII digit bytes.
fn damm_run_exec(s: &[u8]) -> (r: u8)
    requires
        all_digit_bytes(s@),
    ensures
        r as int == damm_run(s@),
        r < 10,
{
    let mut interim: u8 = 0;
    let mut i: usize = 0;
    while i < s.len()
        invariant
            0 <= i <= s@.len(),
            all_digit_bytes(s@),
            interim < 10,
            interim as int == damm_run(s@.take(i as int)),
        decreases s@.len() - i,
    {
        let b = s[i];
        interim = damm_cell(interim, b - 48);
        proof {
            assert(s@.take(i + 1).drop_last() =~= s@.take(i as int));
            assert(s@.take(i + 1).last() == s@[i as int]);
        }
        i = i + 1;
    }
    proof {
        assert(s@.take(s@.len() as int) =~= s@);
    }
    interim
}

/// One ASCII digit byte as a one-character string slice.
fn digit_str(b: u8) -> (r: &'static str)
    requires
        is_digit_byte(b),
    ensures
        r@ =~= seq![b as char],
{
    proof {
        reveal_strlit("0");
        reveal_strlit("1");
        reveal_strlit("2");
        reveal_strlit("3");
        reveal_strlit("4");
        reveal_strlit("5");
        reveal_strlit("6");
        reveal_strlit("7");
        reveal_strlit("8");
        reveal_strlit("9");
    }
    match b {
        48 => "0",
        49 => "1",
        50 => "2",
        51 => "3",
        52 => "4",
        53 => "5",
        54 => "6",
        55 => "7",
        56 => "8",
        _ => "9",
    }
}

/// Encodes id `id` as its decimal digits followed by the Damm check digit.
pub fn encode(id: u64) -> (r: String)
    ensures
        r@ == encoded_chars(id as int),
{
    let mut rev: Vec<u8> = Vec::new();
    let mut n: u64 = id;
    loop
        invariant_except_break
            dec_digits(id as int) =~= dec_digits(n as int) + rev@.reverse(),
        invariant
            forall|i: int| 0 <= i < rev@.len() ==> is_digit_byte(#[trigger] rev@[i]),
        ensures
            dec_digits(id as int) =~= rev@.reverse(),
            forall|i: int| 0 <= i < rev@.len() ==> is_digit_byte(#[trigger] rev@[i]),
        decreases n,
    {
        let ghost old_rev = rev@;
        let ghost old_n = n as int;
        rev.push(48 + (n % 10) as u8);
        proof {
            assert(rev@.reverse() =~= seq![rev@.last()] + old_rev.reverse());
        }
        n = n / 10;
        if n == 0 {
            proof {
                if old_n >= 10 {
                    assert(false);
                } else {
                    assert(dec_digits(old_n) =~= seq![digit_byte(old_n)]);
                }
            }
            break;
        }
        proof {
            assert(dec_digits(old_n) =~= dec_digits(old_n / 10) + seq![digit_byte(old_n % 10)]);
            assert(dec_digits(old_n) + old_rev.reverse() =~= dec_digits(n as int) + rev@.reverse());
        }
    }
    let mut digits: Vec<u8> = Vec::new();
    let mut i: usize = rev.len();
    while i > 0
        invariant
            0 <= i <= rev@.len(),
            digits@ =~= rev@.subrange(i as int, rev@.len() as int).reverse(),
            forall|j: int| 0 <= j < rev@.len() ==> is_digit_byte(#[trigger] rev@[j]),
        decreases i,
    {
        i = i - 1;
        digits.push(rev[i]);
        proof {
            assert(digits@ =~= rev@.subrange(i as int, rev@.len() as int).reverse());
        }
    }
    proof {
        assert(digits@ =~= dec_digits(id as int));
    }
    let check = damm_run_exec(digits.as_slice());
    digits.push(48 + check);
    proof {
        assert(digits@ =~= spec_encode(id as int));
    }
    let mut out = String::new();
    let mut k: usize = 0;
    while k < digits.len()
        invariant
            0 <= k <= digits@.len(),
            digits@ =~= spec_encode(id as int),
            forall|j: int| 0 <= j < digits@.len() ==> is_digit_byte(#[trigger] digits@[j]),
            out@ =~= Seq::new(k as nat, |i: int| digits@[i] as char),
        decreases digits@.len() - k,
    {
        let d = digits[k];
        out.append(digit_str(d));
        k = k + 1;
        proof {
            assert(out@ =~= Seq::new(k as nat, |i: int| digits@[i] as char));
        }
    }
    proof {
        assert(out@ =~= encoded_chars(id as int));
    }
    out
}

/// Relies on `atoi::atoi::<u64>`: a checked decimal parse. On a non-empty,
/// all-digit slice it returns the digits' decimal value, or nothing when that
/// value exceeds `u64::MAX`.
#[verifier::external_body]
fn parse_u64_digits(digits: &[u8]) -> (r: Option<u64>)
    requires
        digits@.len() >= 1,
        all_digit_bytes(digits@),
    ensures
        match r {
            Some(n) => n as int == dec_value(digits@),
            None => dec_value(digits@) > u64::MAX,
        },
{
    atoi::atoi::<u64>(digits)
}

/// Decodes a received identifier string: every byte must be an ASCII digit,
/// the Damm run over all digits must end at zero, and the value before the
/// check digit must fit the id type; anything else is an invalid checksum.
pub fn decode(s: &str) -> (r: Result<u64, Error>)
    ensures
        match r {
            Ok(n) => spec_decode(s.spec_bytes()) == Some(n as int),
            Err(e) => {
                &&& e == Error::InvalidChecksum
                &&& (spec_decode(s.spec_bytes()) is None
                    || spec_decode(s.spec_bytes())->0 > u64::MAX)
            },
        },
        r is Ok <==> (spec_decode(s.spec_bytes()) is Some
            && spec_decode(s.spec_bytes())->0 <= u64::MAX),
{
    let b = s.as_bytes();
    if b.len() < 2 {
        return Err(Error::InvalidChecksum);
    }
    let mut i: usize = 0;
    while i < b.len()
        invariant
            0 <= i <= b@.len(),
            b@ == s.spec_bytes(),
            forall|j: int| 0 <= j < i ==> is_digit_byte(#[trigger] b@[j]),
        decreases b@.len() - i,
    {
        let c = b[i];
        if c < 48 || c > 57 {
            return Err(Error::InvalidChecksum);
        }
        i = i + 1;
    }
    let run = damm_run_exec(b);
    if run != 0 {
        return Err(Error::InvalidChecksum);
    }
    let mut digits: Vec<u8> = Vec::new();
    let mut k: usize = 0;
    while k < b.len() - 1
        invariant
            0 <= k <= b@.len() - 1,
            b@ == s.spec_bytes(),
            b@.len() >= 2,
            all_digit_bytes(b@),
            digits@ =~= b@.take(k as int),
        decreases b@.len() - k,
    {
        digits.push(b[k]);
        k = k + 1;
    }
    proof {
        assert(digits@ =~= s.spec_bytes().drop_last());
    }
    match parse_u64_digits(digits.as_slice()) {
        Some(n) => Ok(n),
        None => Err(Error::InvalidChecksum),
    }
}

} // verus!

