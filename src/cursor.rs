use crate::error::Error;
use crate::hex::{hex_digit_value, lower_digit};
use vstd::arithmetic::div_mod::lemma_fundamental_div_mod;
use vstd::prelude::*;
use vstd::string::*;

verus! {

/// A block identified by its height and its hash (hex text).
#[derive(Debug)]
pub struct HashAndHeight {
    pub height: u64,
    pub hash: String,
}

impl View for HashAndHeight {
    type V = (u64, Seq<char>);

    open spec fn view(&self) -> (u64, Seq<char>) {
        (self.height, self.hash@)
    }
}

impl HashAndHeight {
    pub fn new(height: u64, hash: String) -> (r: HashAndHeight)
        ensures
            r@ == (height, hash@),
    {
        HashAndHeight { height, hash }
    }

    /// A copy with the same height and hash.
    pub fn duplicate(&self) -> (r: HashAndHeight)
        ensures
            r@ == self@,
    {
        HashAndHeight { height: self.height, hash: self.hash.clone() }
    }

    /// Whether both identify the same block.
    pub fn same_as(&self, other: &HashAndHeight) -> (r: bool)
        ensures
            r == (self@ == other@),
    {
        self.height == other.height && self.hash == other.hash
    }
}

/// The resume token's content: the last delivered block and the finalized
/// head known when it was delivered.
#[derive(Debug)]
pub struct Cursor {
    pub block: HashAndHeight,
    pub finalized: HashAndHeight,
}

impl View for Cursor {
    type V = ((u64, Seq<char>), (u64, Seq<char>));

    open spec fn view(&self) -> ((u64, Seq<char>), (u64, Seq<char>)) {
        (self.block@, self.finalized@)
    }
}

/// Length of the token's header: two heights and the length of the first hash.
pub const HEADER_LEN: usize = 48;

pub open spec fn pow16(k: nat) -> nat
    decreases k,
{
    if k == 0 {
        1
    } else {
        16 * pow16((k - 1) as nat)
    }
}

/// `k` lower-case hex digits of `n`, most significant first.
pub open spec fn fixed_hex(n: nat, k: nat) -> Seq<char>
    decreases k,
{
    if k == 0 {
        Seq::empty()
    } else {
        seq![lower_digit(n / pow16((k - 1) as nat))] + fixed_hex(
            n % pow16((k - 1) as nat),
            (k - 1) as nat,
        )
    }
}

/// Whether every character of `s` is a hex digit.
pub open spec fn all_hex(s: Seq<char>) -> bool {
    forall|i: int| 0 <= i < s.len() ==> (#[trigger] hex_digit_value(s[i])) is Some
}

/// Value of a run of hex digits, most significant first.
pub open spec fn fixed_hex_value(s: Seq<char>) -> nat
    decreases s.len(),
{
    if s.len() == 0 {
        0
    } else {
        hex_digit_value(s[0])->0 * pow16((s.len() - 1) as nat) + fixed_hex_value(s.skip(1))
    }
}

/// The token's text for a cursor: the two heights and the character length
/// of the first hash as 16 hex digits each, then the two hashes.
pub open spec fn emit_cursor(c: ((u64, Seq<char>), (u64, Seq<char>))) -> Seq<char> {
    fixed_hex(c.0.0 as nat, 16) + fixed_hex(c.1.0 as nat, 16) + fixed_hex(c.0.1.len(), 16)
        + c.0.1 + c.1.1
}

/// The cursor a token stands for, if it is well formed.
pub open spec fn parse_cursor(s: Seq<char>) -> Option<((u64, Seq<char>), (u64, Seq<char>))> {
    if s.len() >= 48 && all_hex(s.subrange(0, 48)) && 48 + fixed_hex_value(s.subrange(32, 48))
        <= s.len() {
        let n = fixed_hex_value(s.subrange(32, 48));
        Some(
            (
                (fixed_hex_value(s.subrange(0, 16)) as u64, s.subrange(48, (48 + n) as int)),
                (fixed_hex_value(s.subrange(16, 32)) as u64, s.subrange((48 + n) as int, s.len() as int)),
            ),
        )
    } else {
        None
    }
}

proof fn lemma_pow16_positive(k: nat)
    ensures
        pow16(k) >= 1,
    decreases k,
{
    if k > 0 {
        lemma_pow16_positive((k - 1) as nat);
    }
}

proof fn lemma_lower_digit(d: nat)
    requires
        d < 16,
    ensures
        hex_digit_value(lower_digit(d)) == Some(d),
{
}

proof fn lemma_fixed_hex(n: nat, k: nat)
    requires
        n < pow16(k),
    ensures
        fixed_hex(n, k).len() == k,
        all_hex(fixed_hex(n, k)),
        fixed_hex_value(fixed_hex(n, k)) == n,
    decreases k,
{
    if k > 0 {
        let p = pow16((k - 1) as nat);
        lemma_pow16_positive((k - 1) as nat);
        lemma_fundamental_div_mod(n as int, p as int);
        assert(n / p < 16) by (nonlinear_arith)
            requires
                n < 16 * p,
                p >= 1,
        ;
        assert(n % p < p) by (nonlinear_arith)
            requires
                p >= 1,
        ;
        lemma_fixed_hex(n % p, (k - 1) as nat);
        lemma_lower_digit(n / p);
        let s = fixed_hex(n, k);
        assert(s.skip(1) =~= fixed_hex(n % p, (k - 1) as nat));
        assert(s[0] == lower_digit(n / p));
        assert(p * (n / p) == (n / p) * p) by (nonlinear_arith);
        assert(fixed_hex_value(s) == (n / p) * p + n % p);
        assert(all_hex(s)) by {
            assert forall|i: int| 0 <= i < s.len() implies (#[trigger] hex_digit_value(
                s[i],
            )) is Some by {
                if i > 0 {
                    assert(s[i] == s.skip(1)[i - 1]);
                }
            }
        }
    }
}

proof fn lemma_fixed_hex_value_bound(s: Seq<char>)
    requires
        all_hex(s),
    ensures
        fixed_hex_value(s) < pow16(s.len()),
    decreases s.len(),
{
    if s.len() > 0 {
        let t = s.skip(1);
        assert(all_hex(t)) by {
            assert forall|i: int| 0 <= i < t.len() implies (#[trigger] hex_digit_value(
                t[i],
            )) is Some by {
                assert(t[i] == s[i + 1]);
            }
        }
        lemma_fixed_hex_value_bound(t);
        let d = hex_digit_value(s[0])->0;
        assert(hex_digit_value(s[0]) is Some);
        assert(d < 16);
        let p = pow16((s.len() - 1) as nat);
        assert(d * p + fixed_hex_value(t) < 16 * p) by (nonlinear_arith)
            requires
                d < 16,
                fixed_hex_value(t) < p,
        ;
    }
}

/// Round trip of the token: the cursor read back from a token is the cursor
/// the token was written from.
pub proof fn lemma_cursor_round_trip(c: ((u64, Seq<char>), (u64, Seq<char>)))
    requires
        c.0.1.len() < pow16(16),
    ensures
        parse_cursor(emit_cursor(c)) == Some(c),
{
    assert(pow16(16) == 0x1_0000_0000_0000_0000nat) by {
        reveal_with_fuel(pow16, 17);
    }
    let a = fixed_hex(c.0.0 as nat, 16);
    let b = fixed_hex(c.1.0 as nat, 16);
    let l = fixed_hex(c.0.1.len(), 16);
    lemma_fixed_hex(c.0.0 as nat, 16);
    lemma_fixed_hex(c.1.0 as nat, 16);
    lemma_fixed_hex(c.0.1.len(), 16);
    let s = emit_cursor(c);
    assert(s.subrange(0, 16) =~= a);
    assert(s.subrange(16, 32) =~= b);
    assert(s.subrange(32, 48) =~= l);
    assert(all_hex(s.subrange(0, 48))) by {
        assert forall|i: int| 0 <= i < 48 implies (#[trigger] hex_digit_value(
            s.subrange(0, 48)[i],
        )) is Some by {
            if i < 16 {
                assert(s.subrange(0, 48)[i] == a[i]);
            } else if i < 32 {
                assert(s.subrange(0, 48)[i] == b[i - 16]);
            } else {
                assert(s.subrange(0, 48)[i] == l[i - 32]);
            }
        }
    }
    let n = c.0.1.len();
    assert(s.subrange(48, (48 + n) as int) =~= c.0.1);
    assert(s.subrange((48 + n) as int, s.len() as int) =~= c.1.1);
}

/// The one-character text of a hex digit.
fn digit_str(d: u64) -> (r: &'static str)
    requires
        d < 16,
    ensures
        r@ == seq![lower_digit(d as nat)],
{
    proof {
        reveal_strlit("0");
        reveal_strlit("1");
        reveal_strlit("2");
        reveal_strlit("3");
        reveal_strlit("4");
        reveal_strlit("5");
        reveal_strlit("6");
        reveal_strlit("7");
        reveal_strlit("8");
        reveal_strlit("9");
        reveal_strlit("a");
        reveal_strlit("b");
        reveal_strlit("c");
        reveal_strlit("d");
        reveal_strlit("e");
        reveal_strlit("f");
    }
    match d {
        0 => "0",
        1 => "1",
        2 => "2",
        3 => "3",
        4 => "4",
        5 => "5",
        6 => "6",
        7 => "7",
        8 => "8",
        9 => "9",
        10 => "a",
        11 => "b",
        12 => "c",
        13 => "d",
        14 => "e",
        _ => "f",
    }
}

proof fn lemma_pow16_values()
    ensures
        pow16(15) == 0x1000_0000_0000_0000nat,
        pow16(16) == 0x1_0000_0000_0000_0000nat,
{
    reveal_with_fuel(pow16, 17);
}

/// Appends the 16 hex digits of `n`.
fn push_fixed_hex(out: &mut String, n: u64)
    ensures
        final(out)@ == old(out)@ + fixed_hex(n as nat, 16),
{
    proof {
        lemma_pow16_values();
    }
    let ghost start = old(out)@;
    let mut rem: u64 = n;
    let mut p: u64 = 0x1000_0000_0000_0000;
    let mut k: usize = 16;
    while k > 0
        invariant
            k <= 16,
            k > 0 ==> p as nat == pow16((k - 1) as nat),
            (rem as nat) < pow16(k as nat),
            out@ + fixed_hex(rem as nat, k as nat) == start + fixed_hex(n as nat, 16),
        decreases k,
    {
        proof {
            lemma_pow16_positive((k - 1) as nat);
        }
        let d = rem / p;
        assert(d < 16) by (nonlinear_arith)
            requires
                d == rem / p,
                rem < 16 * p,
                p >= 1,
        ;
        let ghost before = out@;
        out.append(digit_str(d));
        let ghost next = rem % p;
        assert(out@ + fixed_hex(next as nat, (k - 1) as nat) =~= before + fixed_hex(
            rem as nat,
            k as nat,
        ));
        rem = rem % p;
        if k > 1 {
            proof {
                assert(pow16((k - 1) as nat) == 16 * pow16((k - 2) as nat));
            }
            assert(p / 16 == pow16((k - 2) as nat)) by (nonlinear_arith)
                requires
                    p == 16 * pow16((k - 2) as nat),
            ;
        }
        p = p / 16;
        k = k - 1;
    }
    assert(fixed_hex(rem as nat, 0) =~= Seq::<char>::empty());
    assert(out@ =~= start + fixed_hex(n as nat, 16));
}

/// Reads the 16 hex digits of `s` that start at character `base`.
fn read_fixed_hex(s: &str, base: usize) -> (r: Option<u64>)
    requires
        base <= 32,
        base + 16 <= s@.len(),
    ensures
        match r {
            Some(v) => all_hex(s@.subrange(base as int, base + 16)) && v as nat == fixed_hex_value(
                s@.subrange(base as int, base + 16),
            ),
            None => !all_hex(s@.subrange(base as int, base + 16)),
        },
{
    proof {
        lemma_pow16_values();
    }
    let ghost sub = s@.subrange(base as int, base + 16);
    let mut acc: u64 = 0;
    let mut p: u64 = 0x1000_0000_0000_0000;
    let mut j: usize = 0;
    assert(sub.skip(0) =~= sub);
    while j < 16
        invariant
            base <= 32,
            base + 16 <= s@.len(),
            pow16(16) == 0x1_0000_0000_0000_0000nat,
            sub == s@.subrange(base as int, base + 16),
            j <= 16,
            j < 16 ==> p as nat == pow16((15 - j) as nat),
            (acc as nat) + pow16((16 - j) as nat) <= pow16(16),
            fixed_hex_value(sub) == acc + fixed_hex_value(sub.skip(j as int)),
            forall|i: int| 0 <= i < j ==> (#[trigger] hex_digit_value(sub[i])) is Some,
        decreases 16 - j,
    {
        let c = s.get_char(base + j);
        assert(c == sub[j as int]);
        match crate::hex::digit_of(c) {
            None => {
                return None;
            },
            Some(d) => {
                let ghost q = pow16((15 - j) as nat);
                proof {
                    lemma_pow16_positive((15 - j) as nat);
                }
                assert(pow16((16 - j) as nat) == 16 * q);
                assert(acc + d * p + q <= pow16(16)) by (nonlinear_arith)
                    requires
                        acc + 16 * q <= pow16(16),
                        d < 16,
                        p == q,
                ;
                assert(d * p <= 0xffff_ffff_ffff_ffff - acc);
                let ghost t = sub.skip(j as int);
                assert(t.skip(1) =~= sub.skip(j + 1));
                assert(t[0] == c);
                assert(fixed_hex_value(t) == d * q + fixed_hex_value(sub.skip(j + 1)));
                acc = acc + d * p;
                if j < 15 {
                    assert(q == 16 * pow16((14 - j) as nat));
                    assert(p / 16 == pow16((14 - j) as nat)) by (nonlinear_arith)
                        requires
                            p == 16 * pow16((14 - j) as nat),
                    ;
                }
                p = p / 16;
                j = j + 1;
            },
        }
    }
    assert(fixed_hex_value(sub.skip(16)) == 0);
    Some(acc)
}

impl Cursor {
    pub fn new(block: HashAndHeight, finalized: HashAndHeight) -> (r: Cursor)
        ensures
            r@ == (block@, finalized@),
    {
        Cursor { block, finalized }
    }

    /// The resume token of this cursor.
    pub fn to_string(&self) -> (r: String)
        ensures
            r@ == emit_cursor(self@),
    {
        let mut out = String::new();
        push_fixed_hex(&mut out, self.block.height);
        push_fixed_hex(&mut out, self.finalized.height);
        let n = self.block.hash.as_str().unicode_len();
        push_fixed_hex(&mut out, n as u64);
        out.append(self.block.hash.as_str());
        out.append(self.finalized.hash.as_str());
        assert(out@ =~= emit_cursor(self@));
        out
    }

    /// Reads a resume token back into a cursor.
    pub fn parse(token: &str) -> (r: Result<Cursor, Error>)
        ensures
            match r {
                Ok(c) => parse_cursor(token@) == Some(c@),
                Err(e) => parse_cursor(token@) is None && e is InvalidInput,
            },
    {
        let len = token.unicode_len();
        if len < HEADER_LEN {
            return Err(Error::invalid_field("cursor", token));
        }
        let ghost s = token@;
        let ghost head = s.subrange(0, 48);
        assert forall|i: int| 0 <= i < 16 implies s.subrange(0, 16)[i] == head[i] by {}
        assert forall|i: int| 0 <= i < 16 implies s.subrange(16, 32)[i] == head[i + 16] by {}
        assert forall|i: int| 0 <= i < 16 implies s.subrange(32, 48)[i] == head[i + 32] by {}
        let h1 = match read_fixed_hex(token, 0) {
            Some(v) => v,
            None => {
                return Err(Error::invalid_field("cursor", token));
            },
        };
        let h2 = match read_fixed_hex(token, 16) {
            Some(v) => v,
            None => {
                return Err(Error::invalid_field("cursor", token));
            },
        };
        let n = match read_fixed_hex(token, 32) {
            Some(v) => v,
            None => {
                return Err(Error::invalid_field("cursor", token));
            },
        };
        assert(all_hex(head)) by {
            assert forall|i: int| 0 <= i < 48 implies (#[trigger] hex_digit_value(
                head[i],
            )) is Some by {
                if i < 16 {
                    assert(hex_digit_value(s.subrange(0, 16)[i]) is Some);
                } else if i < 32 {
                    assert(hex_digit_value(s.subrange(16, 32)[i - 16]) is Some);
                } else {
                    assert(hex_digit_value(s.subrange(32, 48)[i - 32]) is Some);
                }
            }
        }
        if n > (len - HEADER_LEN) as u64 {
            return Err(Error::invalid_field("cursor", token));
        }
        let split = HEADER_LEN + n as usize;
        let hash = String::from_str(token.substring_char(HEADER_LEN, split));
        let fin_hash = String::from_str(token.substring_char(split, len));
        Ok(
            Cursor {
                block: HashAndHeight { height: h1, hash },
                finalized: HashAndHeight { height: h2, hash: fin_hash },
            },
        )
    }
}

/// The text of a height is 16 characters long.
pub proof fn lemma_fixed_hex_len(n: u64)
    ensures
        fixed_hex(n as nat, 16).len() == 16,
{
    lemma_pow16_values();
    lemma_fixed_hex(n as nat, 16);
}

} // verus!
