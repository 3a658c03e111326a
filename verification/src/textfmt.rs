//! Decimal and hexadecimal text, as the configuration protocol reads and
//! writes it: exact specifications of the digit sequences, verified
//! parsing, and the encoder of the hex crate behind an exact contract.

use vstd::prelude::*;

verus! {

broadcast use vstd::array::group_array_axioms;

/// The decimal digit bytes of `n`, most significant first, no sign and no
/// leading zeros (a single zero for zero).
pub open spec fn spec_dec_digits(n: nat) -> Seq<u8>
    decreases n,
{
    if n < 10 {
        seq![(48 + n) as u8]
    } else {
        spec_dec_digits(n / 10).push((48 + n % 10) as u8)
    }
}

/// Render a number in decimal.
pub fn u64_to_dec(n: u64) -> (r: Vec<u8>)
    ensures
        r@ == spec_dec_digits(n as nat),
    decreases n,
{
    if n < 10 {
        let mut v: Vec<u8> = Vec::new();
        v.push(48 + (n as u8));
        proof {
            assert(v@ =~= spec_dec_digits(n as nat));
        }
        v
    } else {
        let mut v = u64_to_dec(n / 10);
        v.push(48 + ((n % 10) as u8));
        v
    }
}

/// A nonempty, all-digit byte string.
pub open spec fn spec_is_digits(s: Seq<u8>) -> bool {
    s.len() > 0 && forall|i: int| 0 <= i < s.len() ==> 48 <= #[trigger] s[i] <= 57
}

/// The numeric value of a digit string.
pub open spec fn spec_dec_value(s: Seq<u8>) -> nat
    decreases s.len(),
{
    if s.len() == 0 {
        0
    } else {
        (spec_dec_value(s.drop_last()) * 10 + (s.last() - 48)) as nat
    }
}

/// A longer digit prefix never has a smaller value.
proof fn lemma_dec_value_grows(s: Seq<u8>, k: int)
    requires
        0 <= k <= s.len(),
        forall|i: int| 0 <= i < s.len() ==> 48 <= #[trigger] s[i] <= 57,
    ensures
        spec_dec_value(s) >= spec_dec_value(s.take(k)),
    decreases s.len() - k,
{
    if k < s.len() {
        assert(s.take(k + 1).drop_last() =~= s.take(k));
        assert(s.take(k + 1).last() == s[k]);
        let v = spec_dec_value(s.take(k));
        assert(spec_dec_value(s.take(k + 1)) == v * 10 + (s[k] - 48));
        assert(v * 10 >= v) by (nonlinear_arith)
            requires
                v >= 0,
        ;
        lemma_dec_value_grows(s, k + 1);
    } else {
        assert(s.take(k) =~= s);
    }
}

/// Parse an unsigned decimal number; exactly the all-digit strings whose
/// value fits are accepted.
pub fn parse_u64(b: &[u8]) -> (r: Option<u64>)
    ensures
        r is Some <==> (spec_is_digits(b@) && spec_dec_value(b@) <= u64::MAX),
        r is Some ==> r->0 == spec_dec_value(b@),
{
    if b.len() == 0 {
        return None;
    }
    let n = b.len();
    let mut acc: u64 = 0;
    let mut i: usize = 0;
    while i < n
        invariant
            0 < n == b@.len(),
            i <= n,
            acc == spec_dec_value(b@.take(i as int)),
            forall|j: int| 0 <= j < i ==> 48 <= #[trigger] b@[j] <= 57,
        decreases n - i,
    {
        let c = b[i];
        if c < 48 || c > 57 {
            return None;
        }
        let d = (c - 48) as u64;
        proof {
            assert(b@.take(i + 1).drop_last() =~= b@.take(i as int));
            assert(b@.take(i + 1).last() == b@[i as int]);
        }
        if acc > (u64::MAX - d) / 10 {
            // The value exceeds the range: the remaining digits only grow it.
            proof {
                let v = acc as int;
                let m = u64::MAX as int;
                let dd = d as int;
                assert(v * 10 + dd > m) by (nonlinear_arith)
                    requires
                        v > (m - dd) / 10,
                        0 <= dd <= 9,
                        m == u64::MAX as int,
                ;
                assert(spec_dec_value(b@.take(i + 1)) > u64::MAX);
                if spec_is_digits(b@) {
                    lemma_dec_value_grows(b@, i + 1);
                    assert(b@.take(b@.len() as int) =~= b@);
                }
            }
            return None;
        }
        proof {
            let v = acc as int;
            let m = u64::MAX as int;
            let dd = d as int;
            assert(v * 10 + dd <= m) by (nonlinear_arith)
                requires
                    v <= (m - dd) / 10,
                    0 <= dd <= 9,
                    m == u64::MAX as int,
            ;
        }
        acc = acc * 10 + d;
        i = i + 1;
    }
    proof {
        assert(b@.take(n as int) =~= b@);
    }
    Some(acc)
}

/// Parse a 16-bit unsigned decimal number.
pub fn parse_u16(b: &[u8]) -> (r: Option<u16>)
    ensures
        r is Some <==> (spec_is_digits(b@) && spec_dec_value(b@) <= u16::MAX),
        r is Some ==> r->0 == spec_dec_value(b@),
{
    match parse_u64(b) {
        Some(v) => {
            if v <= 0xffff {
                Some(v as u16)
            } else {
                None
            }
        },
        None => None,
    }
}

/// Parse a 32-bit unsigned decimal number.
pub fn parse_u32(b: &[u8]) -> (r: Option<u32>)
    ensures
        r is Some <==> (spec_is_digits(b@) && spec_dec_value(b@) <= u32::MAX),
        r is Some ==> r->0 == spec_dec_value(b@),
{
    match parse_u64(b) {
        Some(v) => {
            if v <= 0xffff_ffff {
                Some(v as u32)
            } else {
                None
            }
        },
        None => None,
    }
}

/// The byte string "true".
pub open spec fn spec_true_bytes() -> Seq<u8> {
    seq![116u8, 114u8, 117u8, 101u8]
}

/// The byte string "false".
pub open spec fn spec_false_bytes() -> Seq<u8> {
    seq![102u8, 97u8, 108u8, 115u8, 101u8]
}

/// What boolean text parses to: exactly "true" and "false".
pub open spec fn spec_parse_bool(s: Seq<u8>) -> Option<bool> {
    if s == spec_true_bytes() {
        Some(true)
    } else if s == spec_false_bytes() {
        Some(false)
    } else {
        None
    }
}

/// Parse a boolean: exactly "true" and "false" are accepted.
pub fn parse_bool(b: &[u8]) -> (r: Option<bool>)
    ensures
        r == spec_parse_bool(b@),
{
    if b.len() == 4 && b[0] == 116 && b[1] == 114 && b[2] == 117 && b[3] == 101 {
        proof {
            assert(b@ =~= spec_true_bytes());
        }
        Some(true)
    } else if b.len() == 5 && b[0] == 102 && b[1] == 97 && b[2] == 108 && b[3] == 115 && b[4]
        == 101 {
        proof {
            assert(b@ =~= spec_false_bytes());
        }
        Some(false)
    } else {
        proof {
            if b@ == spec_true_bytes() {
                assert(b@[0] == 116 && b@[1] == 114 && b@[2] == 117 && b@[3] == 101);
            }
            if b@ == spec_false_bytes() {
                assert(b@[0] == 102 && b@[1] == 97 && b@[2] == 108 && b@[3] == 115 && b@[4] == 101);
            }
        }
        None
    }
}

/// The lowercase hex digit byte of a nibble.
pub open spec fn spec_hex_digit(v: u8) -> u8 {
    if v < 10 {
        (48 + v) as u8
    } else {
        (87 + v) as u8
    }
}

/// The lowercase hex bytes of a byte string: two digits per byte, high
/// nibble first.
pub open spec fn spec_hex_bytes(bytes: Seq<u8>) -> Seq<u8>
    decreases bytes.len(),
{
    if bytes.len() == 0 {
        Seq::empty()
    } else {
        spec_hex_bytes(bytes.drop_last()).push(spec_hex_digit(bytes.last() / 16)).push(
            spec_hex_digit(bytes.last() % 16),
        )
    }
}

/// Relies on hex::encode: each input byte becomes two lowercase hex
/// digits, high nibble first.
#[verifier::external_body]
pub fn encode_hex_bytes(b: &[u8]) -> (r: Vec<u8>)
    ensures
        r@ == spec_hex_bytes(b@),
{
    hex::encode(b).into_bytes()
}

/// The nibble value of one hex digit byte, either case.
pub open spec fn spec_hex_val(c: u8) -> Option<u8> {
    if 48 <= c <= 57 {
        Some((c - 48) as u8)
    } else if 97 <= c <= 102 {
        Some((c - 87) as u8)
    } else if 65 <= c <= 70 {
        Some((c - 55) as u8)
    } else {
        None
    }
}

pub fn hex_digit_value(c: u8) -> (r: Option<u8>)
    ensures
        r == spec_hex_val(c),
        r is Some ==> r->0 < 16,
{
    if 48 <= c && c <= 57 {
        Some(c - 48)
    } else if 97 <= c && c <= 102 {
        Some(c - 87)
    } else if 65 <= c && c <= 70 {
        Some(c - 55)
    } else {
        None
    }
}

/// A 64-digit hex string decodes to these 32 bytes.
pub open spec fn spec_key_decodes(s: Seq<u8>, key: Seq<u8>) -> bool {
    &&& s.len() == 64
    &&& key.len() == 32
    &&& forall|i: int|
        0 <= i < 32 ==> (spec_hex_val(s[2 * i]) is Some && spec_hex_val(s[2 * i + 1]) is Some && (
        #[trigger] key[i]) == spec_hex_val(s[2 * i])->0 * 16 + spec_hex_val(s[2 * i + 1])->0)
}

/// All 64 positions hold hex digits.
pub open spec fn spec_all_hex_digits(s: Seq<u8>) -> bool {
    forall|i: int|
        0 <= i < 32 ==> (#[trigger] spec_hex_val(s[2 * i])) is Some && spec_hex_val(s[2 * i + 1])
            is Some
}

/// The bytes a 64-digit hex string decodes to.
pub open spec fn spec_decoded_key(s: Seq<u8>) -> Seq<u8> {
    Seq::new(32, |i: int| (spec_hex_val(s[2 * i])->0 * 16 + spec_hex_val(s[2 * i + 1])->0) as u8)
}

/// Decode a 64-digit hex string into a 32-byte key; exactly the 64-byte
/// all-hex strings are accepted.
pub fn decode_hex_key(b: &[u8]) -> (r: Option<[u8; 32]>)
    ensures
        r is Some <==> (b@.len() == 64 && spec_all_hex_digits(b@)),
        r is Some ==> spec_key_decodes(b@, r->0@),
        r is Some ==> r->0@ == spec_decoded_key(b@),
{
    if b.len() != 64 {
        return None;
    }
    let mut out: [u8; 32] = [0; 32];
    let mut i: usize = 0;
    while i < 32
        invariant
            b@.len() == 64,
            i <= 32,
            out@.len() == 32,
            forall|j: int|
                0 <= j < i ==> ((#[trigger] spec_hex_val(b@[2 * j])) is Some && spec_hex_val(
                    b@[2 * j + 1],
                ) is Some && out@[j] == spec_hex_val(b@[2 * j])->0 * 16 + spec_hex_val(
                    b@[2 * j + 1],
                )->0),
        decreases 32 - i,
    {
        let hi = match hex_digit_value(b[2 * i]) {
            Some(v) => v,
            None => {
                proof {
                    assert(!spec_all_hex_digits(b@)) by {
                        assert(!(spec_hex_val(b@[2 * (i as int)]) is Some));
                    }
                }
                return None;
            },
        };
        let lo = match hex_digit_value(b[2 * i + 1]) {
            Some(v) => v,
            None => {
                proof {
                    assert(!spec_all_hex_digits(b@)) by {
                        assert(!(spec_hex_val(b@[2 * (i as int) + 1]) is Some));
                        assert(spec_all_hex_digits(b@) ==> (
                        #[trigger] spec_hex_val(b@[2 * (i as int)])) is Some && spec_hex_val(
                            b@[2 * (i as int) + 1],
                        ) is Some);
                    }
                }
                return None;
            },
        };
        out[i] = hi * 16 + lo;
        i = i + 1;
    }
    proof {
        assert(out@ =~= spec_decoded_key(b@));
    }
    Some(out)
}

/// Are two byte strings equal?
pub fn bytes_eq(a: &[u8], b: &[u8]) -> (r: bool)
    ensures
        r <==> a@ == b@,
{
    if a.len() != b.len() {
        proof {
            assert(a@.len() != b@.len());
        }
        return false;
    }
    let n = a.len();
    let mut i: usize = 0;
    while i < n
        invariant
            i <= n,
            n == a@.len() == b@.len(),
            forall|j: int| 0 <= j < i ==> a@[j] == b@[j],
        decreases n - i,
    {
        if a[i] != b[i] {
            return false;
        }
        i = i + 1;
    }
    proof {
        assert(a@ =~= b@);
    }
    true
}

/// Relies on String::from_utf8 (std): bytes below 128 are valid UTF-8 and
/// come back as the string of exactly those characters.
#[verifier::external_body]
pub fn ascii_to_string(v: &Vec<u8>) -> (r: String)
    requires
        forall|i: int| 0 <= i < v@.len() ==> v@[i] < 128,
    ensures
        r@.len() == v@.len(),
        forall|i: int| 0 <= i < v@.len() ==> r@[i] == (#[trigger] v@[i]) as char,
{
    match String::from_utf8(v.clone()) {
        Ok(s) => s,
        Err(_) => String::new(),
    }
}

} // verus!
