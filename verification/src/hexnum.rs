//! Rendering and parsing of numbers as digit strings. Partition tokens,
//! cache slot names and every number stored in a record document use the
//! fixed sixteen-digit lowercase hexadecimal form; decimal rendering
//! serves human-readable output.

use vstd::arithmetic::div_mod::lemma_fundamental_div_mod;
use vstd::arithmetic::div_mod::lemma_fundamental_div_mod_converse;
use vstd::prelude::*;

verus! {

/// `16^w`, the number of `w`-digit strings.
pub open spec fn pow16(w: nat) -> nat
    decreases w,
{
    if w == 0 {
        1
    } else {
        16 * pow16((w - 1) as nat)
    }
}

pub proof fn lemma_pow16_16()
    ensures
        pow16(16) == 0x1_0000_0000_0000_0000,
{
    assert(pow16(0) == 1);
    assert(pow16(1) == 16);
    assert(pow16(2) == 0x100);
    assert(pow16(3) == 0x1000);
    assert(pow16(4) == 0x1_0000);
    assert(pow16(5) == 0x10_0000);
    assert(pow16(6) == 0x100_0000);
    assert(pow16(7) == 0x1000_0000);
    assert(pow16(8) == 0x1_0000_0000);
    assert(pow16(9) == 0x10_0000_0000);
    assert(pow16(10) == 0x100_0000_0000);
    assert(pow16(11) == 0x1000_0000_0000);
    assert(pow16(12) == 0x1_0000_0000_0000);
    assert(pow16(13) == 0x10_0000_0000_0000);
    assert(pow16(14) == 0x100_0000_0000_0000);
    assert(pow16(15) == 0x1000_0000_0000_0000);
    assert(pow16(16) == 0x1_0000_0000_0000_0000);
}

proof fn lemma_pow16_increases(v: nat, w: nat)
    requires
        v <= w,
    ensures
        pow16(v) <= pow16(w),
    decreases w,
{
    if v < w {
        lemma_pow16_increases(v, (w - 1) as nat);
        assert(pow16((w - 1) as nat) <= 16 * pow16((w - 1) as nat)) by (nonlinear_arith);
    }
}

/// The character for one hexadecimal digit value.
pub open spec fn hex_digit_char(d: nat) -> char
    recommends
        d < 16,
{
    if d < 10 {
        (d + 0x30) as char
    } else {
        (d + 0x57) as char
    }
}

/// Whether `c` is a lowercase hexadecimal digit.
pub open spec fn is_hex_digit(c: char) -> bool {
    ('0' <= c && c <= '9') || ('a' <= c && c <= 'f')
}

/// The value of one hexadecimal digit character.
pub open spec fn hex_digit_val(c: char) -> nat
    recommends
        is_hex_digit(c),
{
    if '0' <= c && c <= '9' {
        (c as int - 0x30) as nat
    } else {
        (c as int - 0x57) as nat
    }
}

proof fn lemma_digit_roundtrip(d: nat)
    requires
        d < 16,
    ensures
        is_hex_digit(hex_digit_char(d)),
        hex_digit_val(hex_digit_char(d)) == d,
{
}

/// One digit as a fresh one-character string.
fn hex_digit_string(d: u64) -> (r: String)
    requires
        d < 16,
    ensures
        r@ == seq![hex_digit_char(d as nat)],
{
    let s: &str = match d {
        0 => "0",
        1 => "1",
        2 => "2",
        3 => "3",
        4 => "4",
        5 => "5",
        6 => "6",
        7 => "7",
        8 => "8",
        9 => "9",
        10 => "a",
        11 => "b",
        12 => "c",
        13 => "d",
        14 => "e",
        _ => "f",
    };
    proof {
        reveal_strlit("0");
        reveal_strlit("1");
        reveal_strlit("2");
        reveal_strlit("3");
        reveal_strlit("4");
        reveal_strlit("5");
        reveal_strlit("6");
        reveal_strlit("7");
        reveal_strlit("8");
        reveal_strlit("9");
        reveal_strlit("a");
        reveal_strlit("b");
        reveal_strlit("c");
        reveal_strlit("d");
        reveal_strlit("e");
        reveal_strlit("f");
        assert(s@ =~= seq![hex_digit_char(d as nat)]);
    }
    String::from_str(s)
}

/// `n` written in `w` hexadecimal digits, most significant first.
pub open spec fn hex_seq(n: nat, w: nat) -> Seq<char>
    decreases w,
{
    if w == 0 {
        Seq::empty()
    } else {
        hex_seq(n / 16, (w - 1) as nat) + seq![hex_digit_char(n % 16)]
    }
}

/// A 64-bit number in its canonical sixteen-digit form.
pub open spec fn hex16_seq(n: u64) -> Seq<char> {
    hex_seq(n as nat, 16)
}

/// The number a digit string denotes.
pub open spec fn hex_val(s: Seq<char>) -> nat
    decreases s.len(),
{
    if s.len() == 0 {
        0
    } else {
        hex_val(s.drop_last()) * 16 + hex_digit_val(s.last())
    }
}

pub proof fn lemma_hex_seq_len(n: nat, w: nat)
    ensures
        hex_seq(n, w).len() == w,
    decreases w,
{
    if w > 0 {
        lemma_hex_seq_len(n / 16, (w - 1) as nat);
    }
}

pub proof fn lemma_hex_seq_digits(n: nat, w: nat)
    ensures
        forall|i: int| 0 <= i < hex_seq(n, w).len() ==> is_hex_digit(#[trigger] hex_seq(n, w)[i]),
    decreases w,
{
    if w > 0 {
        lemma_hex_seq_len(n / 16, (w - 1) as nat);
        lemma_hex_seq_digits(n / 16, (w - 1) as nat);
        assert(0 <= n % 16 < 16) by (nonlinear_arith);
        assert(hex_seq(n, w).last() == hex_digit_char(n % 16));
        assert forall|i: int| 0 <= i < hex_seq(n, w).len() implies is_hex_digit(
            #[trigger] hex_seq(n, w)[i],
        ) by {
            if i < w - 1 {
                assert(hex_seq(n, w)[i] == hex_seq(n / 16, (w - 1) as nat)[i]);
            }
        }
    }
}

/// Reading back the digits of `n` yields `n`.
pub proof fn lemma_hex_val_of_hex_seq(n: nat, w: nat)
    requires
        n < pow16(w),
    ensures
        hex_val(hex_seq(n, w)) == n,
    decreases w,
{
    if w == 0 {
        assert(hex_seq(n, 0).len() == 0);
    } else {
        let rest = hex_seq(n / 16, (w - 1) as nat);
        lemma_hex_seq_len(n / 16, (w - 1) as nat);
        assert(hex_seq(n, w).drop_last() =~= rest);
        assert(n / 16 < pow16((w - 1) as nat)) by (nonlinear_arith)
            requires
                n < pow16(w),
                pow16(w) == 16 * pow16((w - 1) as nat),
        ;
        lemma_hex_val_of_hex_seq(n / 16, (w - 1) as nat);
        assert(0 <= n % 16 < 16) by (nonlinear_arith);
        lemma_digit_roundtrip(n % 16);
        lemma_fundamental_div_mod(n as int, 16);
    }
}

/// Every sixteen-digit string is the canonical form of the number it denotes.
pub proof fn lemma_hex_seq_of_hex_val(s: Seq<char>)
    requires
        forall|i: int| 0 <= i < s.len() ==> is_hex_digit(#[trigger] s[i]),
    ensures
        hex_val(s) < pow16(s.len()),
        hex_seq(hex_val(s), s.len()) == s,
    decreases s.len(),
{
    if s.len() == 0 {
        assert(hex_seq(0, 0) =~= s);
    } else {
        let butlast = s.drop_last();
        assert(forall|i: int| 0 <= i < butlast.len() ==> is_hex_digit(#[trigger] butlast[i]));
        lemma_hex_seq_of_hex_val(butlast);
        let q = hex_val(butlast);
        let r = hex_digit_val(s.last());
        assert(is_hex_digit(s.last()));
        assert(r < 16);
        assert(hex_val(s) == q * 16 + r);
        assert(q * 16 + r < pow16(s.len())) by (nonlinear_arith)
            requires
                q < pow16((s.len() - 1) as nat),
                r < 16,
                pow16(s.len()) == 16 * pow16((s.len() - 1) as nat),
        ;
        lemma_fundamental_div_mod_converse(hex_val(s) as int, 16, q as int, r as int);
        assert(hex_val(s) / 16 == q);
        assert(hex_val(s) % 16 == r);
        assert(hex_digit_char(r) == s.last()) by {
            assert(is_hex_digit(s.last()));
        }
        assert(hex_seq(hex_val(s), s.len()) =~= hex_seq(q, (s.len() - 1) as nat) + seq![
            hex_digit_char(r),
        ]);
        assert(hex_seq(hex_val(s), s.len()) =~= s);
    }
}

/// Distinct numbers have distinct sixteen-digit forms.
pub proof fn lemma_hex16_injective(a: u64, b: u64)
    requires
        hex16_seq(a) == hex16_seq(b),
    ensures
        a == b,
{
    lemma_pow16_16();
    lemma_hex_val_of_hex_seq(a as nat, 16);
    lemma_hex_val_of_hex_seq(b as nat, 16);
}

/// Render `n` as exactly sixteen lowercase hexadecimal digits.
pub fn hex16(n: u64) -> (r: String)
    ensures
        r@ == hex16_seq(n),
        r@.len() == 16,
{
    let mut acc = String::new();
    let mut cur: u64 = n;
    let mut k: usize = 0;
    proof {
        lemma_hex_seq_len(n as nat, 16);
        assert(hex_seq(n as nat, 16) =~= hex_seq(cur as nat, 16) + acc@);
    }
    while k < 16
        invariant
            k <= 16,
            acc@.len() == k,
            hex_seq(n as nat, 16) == hex_seq(cur as nat, (16 - k) as nat) + acc@,
        decreases 16 - k,
    {
        let d = cur % 16;
        let ds = hex_digit_string(d);
        let prev = acc;
        acc = ds.concat(prev.as_str());
        proof {
            assert(hex_seq(cur as nat, (16 - k) as nat) == hex_seq(cur as nat / 16, (16 - k
                - 1) as nat) + seq![hex_digit_char(cur as nat % 16)]);
            assert(d as nat == cur as nat % 16);
            assert((cur / 16) as nat == cur as nat / 16);
            assert(hex_seq(n as nat, 16) =~= hex_seq(cur as nat / 16, (15 - k) as nat) + (seq![
                hex_digit_char(d as nat),
            ] + prev@));
        }
        cur = cur / 16;
        k = k + 1;
    }
    proof {
        assert(hex_seq(cur as nat, 0) =~= Seq::<char>::empty());
        assert(hex_seq(n as nat, 16) =~= acc@);
    }
    acc
}

/// The value of one lowercase hexadecimal digit character, if it is one.
fn hex_digit_value(c: char) -> (r: Option<u64>)
    ensures
        r is Some <==> is_hex_digit(c),
        r matches Some(v) ==> v < 16 && v as nat == hex_digit_val(c),
{
    if '0' <= c && c <= '9' {
        Some(c as u64 - 0x30)
    } else if 'a' <= c && c <= 'f' {
        Some(c as u64 - 0x57)
    } else {
        None
    }
}

/// Read sixteen hexadecimal digits of `s` starting at `pos`.
///
/// Succeeds exactly when sixteen lowercase hexadecimal digit characters
/// stand there, and then returns the number they denote together with the
/// position just past them.
pub fn parse_hex16(s: &str, pos: usize) -> (r: Option<(u64, usize)>)
    requires
        pos <= s@.len(),
    ensures
        r matches Some((n, p)) ==> p == pos + 16 && pos + 16 <= s@.len() && s@.subrange(
            pos as int,
            pos + 16,
        ) == hex16_seq(n),
        r is None ==> pos + 16 > s@.len() || exists|i: int|
            pos <= i < pos + 16 && !is_hex_digit(#[trigger] s@[i]),
{
    let len = s.unicode_len();
    if pos > len || len - pos < 16 {
        return None;
    }
    let mut acc: u64 = 0;
    let mut k: usize = 0;
    while k < 16
        invariant
            k <= 16,
            len == s@.len(),
            pos + 16 <= s@.len(),
            forall|i: int| pos <= i < pos + k ==> is_hex_digit(#[trigger] s@[i]),
            acc as nat == hex_val(s@.subrange(pos as int, pos + k)),
            (acc as nat) < pow16(k as nat),
        decreases 16 - k,
    {
        let c = s.get_char(pos + k);
        match hex_digit_value(c) {
            None => {
                return None;
            },
            Some(d) => {
                proof {
                    lemma_pow16_increases(k as nat, 15);
                    lemma_pow16_16();
                    assert((acc as nat) * 16 + d < pow16((k + 1) as nat)) by (nonlinear_arith)
                        requires
                            (acc as nat) < pow16(k as nat),
                            d < 16,
                            pow16((k + 1) as nat) == 16 * pow16(k as nat),
                    ;
                    assert(pow16((k + 1) as nat) <= pow16(16)) by {
                        lemma_pow16_increases((k + 1) as nat, 16);
                    }
                    let sub1 = s@.subrange(pos as int, pos + k + 1);
                    assert(sub1.drop_last() =~= s@.subrange(pos as int, pos + k));
                    assert(sub1.last() == s@[pos + k]);
                }
                acc = acc * 16 + d;
            },
        }
        k = k + 1;
    }
    proof {
        let sub = s@.subrange(pos as int, pos + 16);
        assert(forall|i: int| 0 <= i < sub.len() ==> is_hex_digit(#[trigger] sub[i]));
        lemma_hex_seq_of_hex_val(sub);
        assert(hex_seq(acc as nat, 16) == sub);
    }
    Some((acc, pos + 16))
}

/// `n` in decimal, most significant digit first, without leading zeros;
/// the single digit `0` for zero.
pub open spec fn decimal_seq(n: nat) -> Seq<char>
    decreases n,
{
    if n < 10 {
        seq![hex_digit_char(n)]
    } else {
        decimal_seq(n / 10).push(hex_digit_char(n % 10))
    }
}

/// Render `n` in decimal.
pub fn decimal_string(n: u64) -> (r: String)
    ensures
        r@ == decimal_seq(n as nat),
{
    if n == 0 {
        return hex_digit_string(0);
    }
    let mut acc = String::new();
    let mut cur: u64 = n;
    proof {
        assert(decimal_seq(n as nat) =~= decimal_seq(cur as nat) + acc@);
    }
    while cur > 0
        invariant
            (cur > 0 && decimal_seq(n as nat) == decimal_seq(cur as nat) + acc@) || (cur == 0
                && acc@ == decimal_seq(n as nat)),
        decreases cur,
    {
        let d = cur % 10;
        let ds = hex_digit_string(d);
        let prev = acc;
        acc = ds.concat(prev.as_str());
        proof {
            if cur >= 10 {
                assert(decimal_seq(cur as nat) == decimal_seq(cur as nat / 10).push(
                    hex_digit_char(cur as nat % 10),
                ));
                assert(decimal_seq(cur as nat / 10).push(hex_digit_char(cur as nat % 10)) =~=
                    decimal_seq(cur as nat / 10) + seq![hex_digit_char(d as nat)]);
                assert(decimal_seq(n as nat) =~= decimal_seq((cur / 10) as nat) + (seq![
                    hex_digit_char(d as nat),
                ] + prev@));
            } else {
                assert(decimal_seq(cur as nat) =~= seq![hex_digit_char(d as nat)]);
                assert(decimal_seq(n as nat) =~= seq![hex_digit_char(d as nat)] + prev@);
            }
        }
        cur = cur / 10;
    }
    acc
}

} // verus!
