use vstd::prelude::*;
use vstd::string::*;
use crate::error::{is_invalid_field, Error};

verus! {

/// Value of an ASCII hex digit (either case); `None` for any other character.
pub open spec fn hex_digit_value(c: char) -> Option<nat> {
    if '0' <= c && c <= '9' {
        Some((c as nat - '0' as nat) as nat)
    } else if 'a' <= c && c <= 'f' {
        Some((c as nat - 'a' as nat + 10) as nat)
    } else if 'A' <= c && c <= 'F' {
        Some((c as nat - 'A' as nat + 10) as nat)
    } else {
        None
    }
}

/// Bytes spelled by an even run of hex digits, two digits per byte.
pub open spec fn digits_to_bytes(s: Seq<char>) -> Option<Seq<u8>>
    decreases s.len(),
{
    if s.len() == 0 {
        Some(Seq::empty())
    } else if s.len() == 1 {
        None
    } else {
        match (hex_digit_value(s[0]), hex_digit_value(s[1]), digits_to_bytes(s.skip(2))) {
            (Some(hi), Some(lo), Some(rest)) => Some(seq![(hi * 16 + lo) as u8] + rest),
            _ => None,
        }
    }
}

/// Whether `s` begins with the `0x` prefix.
pub open spec fn has_hex_prefix(s: Seq<char>) -> bool {
    s.len() >= 2 && s[0] == '0' && s[1] == 'x'
}

/// Decoding of a `0x`-prefixed hex string with an even number of digits.
pub open spec fn prefixed_decode(s: Seq<char>) -> Option<Seq<u8>> {
    if has_hex_prefix(s) {
        digits_to_bytes(s.skip(2))
    } else {
        None
    }
}

/// Lower-case hex digit of a nibble.
pub open spec fn lower_digit(n: nat) -> char {
    if n < 10 {
        ((n + '0' as nat) as u8) as char
    } else {
        ((n - 10 + 'a' as nat) as u8) as char
    }
}

/// Lower-case hex digits of a byte string, two per byte.
pub open spec fn bytes_to_digits(b: Seq<u8>) -> Seq<char>
    decreases b.len(),
{
    if b.len() == 0 {
        Seq::empty()
    } else {
        seq![lower_digit(b[0] as nat / 16), lower_digit(b[0] as nat % 16)] + bytes_to_digits(
            b.skip(1),
        )
    }
}

/// `0x`-prefixed lower-case hex text of a byte string.
pub open spec fn prefixed_encode(b: Seq<u8>) -> Seq<char> {
    seq!['0', 'x'] + bytes_to_digits(b)
}

/// The parity repair: a `0x`-prefixed string of odd length becomes `0x0`
/// followed by its digits, which pads them with one leading zero nibble.
pub open spec fn repaired(s: Seq<char>) -> Seq<char> {
    if s.len() % 2 == 1 && s.len() >= 2 {
        seq!['0', 'x', '0'] + s.skip(2)
    } else {
        s
    }
}

/// Decoding of a hex field under the parity repair rule: the field must
/// carry the `0x` prefix.
pub open spec fn field_decode(s: Seq<char>) -> Option<Seq<u8>> {
    if has_hex_prefix(s) {
        prefixed_decode(repaired(s))
    } else {
        None
    }
}

/// Relies on prefix_hex::decode into `Vec<u8>`: it strips the leading `0x`,
/// then hex::decode turns each pair of hex digits (either case) into one byte
/// and fails on an odd digit count or a non-hex character. Without the prefix
/// it can panic (on one multi-byte character), so the prefix is required.
#[verifier::external_body]
pub(crate) fn decode_prefixed(s: &str) -> (r: Option<Vec<u8>>)
    requires
        has_hex_prefix(s@),
    ensures
        match r {
            Some(b) => prefixed_decode(s@) == Some(b@),
            None => prefixed_decode(s@) is None,
        },
{
    prefix_hex::decode::<Vec<u8>>(s).ok()
}

/// Relies on prefix_hex::encode of a `Vec<u8>`: `0x` followed by
/// hex::encode's lower-case digits, two per byte.
#[verifier::external_body]
pub(crate) fn encode_prefixed(b: Vec<u8>) -> (r: String)
    ensures
        r@ == prefixed_encode(b@),
{
    prefix_hex::encode(b)
}

/// Whether `s` begins with `0x`.
pub fn starts_with_hex_prefix(s: &str) -> (r: bool)
    ensures
        r == has_hex_prefix(s@),
{
    let n = s.unicode_len();
    n >= 2 && s.get_char(0) == '0' && s.get_char(1) == 'x'
}

/// Decodes the hex field `value`, applying the parity repair to odd lengths.
/// On failure the error names the field by `label` and quotes the text.
pub fn try_decode_hex(label: &str, value: &str) -> (r: Result<Vec<u8>, Error>)
    ensures
        match r {
            Ok(b) => field_decode(value@) == Some(b@),
            Err(e) => field_decode(value@) is None && is_invalid_field(
                e,
                label@,
                repaired(value@),
            ),
        },
{
    let n = value.unicode_len();
    if n % 2 == 1 && n >= 2 {
        let tail = value.substring_char(2, n);
        let fixed = String::from_str("0x0").concat(tail);
        proof {
            reveal_strlit("0x0");
            assert(fixed@ =~= repaired(value@));
        }
        if !starts_with_hex_prefix(value) {
            return Err(Error::invalid_field(label, fixed.as_str()));
        }
        match decode_prefixed(fixed.as_str()) {
            Some(b) => Ok(b),
            None => Err(Error::invalid_field(label, fixed.as_str())),
        }
    } else {
        if !starts_with_hex_prefix(value) {
            return Err(Error::invalid_field(label, value));
        }
        match decode_prefixed(value) {
            Some(b) => Ok(b),
            None => Err(Error::invalid_field(label, value)),
        }
    }
}

/// Text left after removing one leading `0x`, if there is one.
pub open spec fn without_hex_prefix(s: Seq<char>) -> Seq<char> {
    if has_hex_prefix(s) {
        s.skip(2)
    } else {
        s
    }
}

/// Value of a run of hex digits, most significant first; `None` if a
/// character is not a hex digit.
pub open spec fn digits_value(s: Seq<char>) -> Option<nat>
    decreases s.len(),
{
    if s.len() == 0 {
        Some(0)
    } else {
        match (digits_value(s.drop_last()), hex_digit_value(s.last())) {
            (Some(v), Some(d)) => Some(v * 16 + d),
            _ => None,
        }
    }
}

/// Value of a hex quantity: an optional `0x` prefix, then at least one hex
/// digit, with a value that fits in 64 bits.
pub open spec fn quantity_value(s: Seq<char>) -> Option<u64> {
    let d = without_hex_prefix(s);
    if d.len() == 0 {
        None
    } else {
        match digits_value(d) {
            Some(v) => if v <= u64::MAX {
                Some(v as u64)
            } else {
                None
            },
            None => None,
        }
    }
}

/// Value of one hex digit character.
pub fn digit_of(c: char) -> (r: Option<u64>)
    ensures
        match hex_digit_value(c) {
            Some(v) => r == Some(v as u64),
            None => r is None,
        },
{
    if '0' <= c && c <= '9' {
        Some((c as u64) - ('0' as u64))
    } else if 'a' <= c && c <= 'f' {
        Some((c as u64) - ('a' as u64) + 10)
    } else if 'A' <= c && c <= 'F' {
        Some((c as u64) - ('A' as u64) + 10)
    } else {
        None
    }
}

/// Parses a hex quantity (`0x1f`) into a 64-bit unsigned integer.
pub fn qty2int(value: &str) -> (r: Result<u64, Error>)
    ensures
        match r {
            Ok(v) => quantity_value(value@) == Some(v),
            Err(e) => quantity_value(value@) is None && is_invalid_field(e, "quantity"@, value@),
        },
{
    parse_quantity("quantity", value)
}

/// Parses the hex quantity field `value`; on failure the error names the
/// field by `label` and quotes the text.
pub fn parse_quantity(label: &str, value: &str) -> (r: Result<u64, Error>)
    ensures
        match r {
            Ok(v) => quantity_value(value@) == Some(v),
            Err(e) => quantity_value(value@) is None && is_invalid_field(e, label@, value@),
        },
{
    let n = value.unicode_len();
    let start: usize = if starts_with_hex_prefix(value) {
        2
    } else {
        0
    };
    let ghost d = value@.skip(start as int);
    assert(without_hex_prefix(value@) == d);
    if start == n {
        return Err(Error::invalid_field(label, value));
    }
    let mut acc: u64 = 0;
    let mut i: usize = start;
    while i < n
        invariant
            n == value@.len(),
            start < n,
            start <= i <= n,
            d == value@.skip(start as int),
            without_hex_prefix(value@) == d,
            digits_value(value@.subrange(start as int, i as int)) == Some(acc as nat),
        decreases n - i,
    {
        let ghost pre = value@.subrange(start as int, i as int);
        let ghost cur = value@.subrange(start as int, i + 1);
        assert(cur.drop_last() =~= pre);
        let c = value.get_char(i);
        assert(cur.last() == c);
        match digit_of(c) {
            Some(dv) => {
                if acc > (u64::MAX - dv) / 16 {
                    proof {
                        lemma_digits_value_prefix(d, (i + 1 - start) as int);
                        assert(cur =~= d.subrange(0, (i + 1 - start) as int));
                    }
                    return Err(Error::invalid_field(label, value));
                }
                acc = acc * 16 + dv;
            },
            None => {
                proof {
                    lemma_digits_value_prefix(d, (i + 1 - start) as int);
                    assert(cur =~= d.subrange(0, (i + 1 - start) as int));
                }
                return Err(Error::invalid_field(label, value));
            },
        }
        i = i + 1;
    }
    assert(value@.subrange(start as int, n as int) =~= d);
    Ok(acc)
}

/// A run of digits is worth at least as much as any of its prefixes, and has
/// no value if a prefix has none.
proof fn lemma_digits_value_prefix(s: Seq<char>, k: int)
    requires
        0 <= k <= s.len(),
    ensures
        digits_value(s.subrange(0, k)) is None ==> digits_value(s) is None,
        digits_value(s.subrange(0, k)) is Some && digits_value(s) is Some ==>
            digits_value(s.subrange(0, k))->0 <= digits_value(s)->0,
    decreases s.len() - k,
{
    if k < s.len() {
        lemma_digits_value_prefix(s.drop_last(), k);
        assert(s.drop_last().subrange(0, k) =~= s.subrange(0, k));
        if k == s.len() - 1 {
            assert(s.drop_last() =~= s.subrange(0, k));
        }
    } else {
        assert(s.subrange(0, k) =~= s);
    }
}

/// Parity repair: a `0x`-prefixed field of odd length decodes as `0x0`
/// followed by its digits.
pub proof fn lemma_parity_repair(s: Seq<char>)
    requires
        has_hex_prefix(s),
        s.len() % 2 == 1,
    ensures
        field_decode(s) == prefixed_decode(seq!['0', 'x', '0'] + s.skip(2)),
{
}

} // verus!
