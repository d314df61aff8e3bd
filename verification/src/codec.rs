//! The record document format.
//!
//! A record file is a text document built from three primitives: a number
//! (sixteen lowercase hexadecimal digits followed by a newline), a string
//! (its character count as a number, the characters themselves, a
//! newline), and an optional string (a tag number `0` or `1`, then the
//! string if present). Length prefixes make the format unambiguous for
//! arbitrary payload text, and parsing is exact: a document is accepted
//! precisely when it is, in full, the encoding of one value.

use crate::hexnum::hex16;
use crate::hexnum::hex16_seq;
use crate::hexnum::hex_val;
use crate::hexnum::is_hex_digit;
use crate::hexnum::lemma_hex_seq_digits;
use crate::hexnum::lemma_hex_seq_len;
use crate::hexnum::lemma_hex_seq_of_hex_val;
use crate::hexnum::lemma_hex_val_of_hex_seq;
use crate::hexnum::parse_hex16;
use crate::hexnum::pow16;
use vstd::prelude::*;

verus! {

/// A number in its stored form.
pub open spec fn enc_num(n: u64) -> Seq<char> {
    hex16_seq(n) + seq!['\n']
}

/// A string in its stored form.
pub open spec fn enc_chars(s: Seq<char>) -> Seq<char>
    recommends
        s.len() <= u64::MAX,
{
    enc_num(s.len() as u64) + s + seq!['\n']
}

/// An optional string in its stored form.
pub open spec fn enc_opt_chars(o: Option<Seq<char>>) -> Seq<char> {
    match o {
        None => enc_num(0),
        Some(s) => enc_num(1) + enc_chars(s),
    }
}

/// Parse a number at `pos`.
pub open spec fn dec_num(s: Seq<char>, pos: int) -> Option<(u64, int)> {
    if 0 <= pos && pos + 17 <= s.len() && (forall|i: int|
        pos <= i < pos + 16 ==> is_hex_digit(#[trigger] s[i])) && s[pos + 16] == '\n' {
        Some(((hex_val(s.subrange(pos, pos + 16)) as u64), pos + 17))
    } else {
        None
    }
}

/// Parse a string at `pos`.
pub open spec fn dec_chars(s: Seq<char>, pos: int) -> Option<(Seq<char>, int)> {
    match dec_num(s, pos) {
        None => None,
        Some((n, p1)) => if p1 + n + 1 <= s.len() && s[p1 + n] == '\n' {
            Some((s.subrange(p1, p1 + n), p1 + n + 1))
        } else {
            None
        },
    }
}

/// Parse an optional string at `pos`.
pub open spec fn dec_opt_chars(s: Seq<char>, pos: int) -> Option<(Option<Seq<char>>, int)> {
    match dec_num(s, pos) {
        None => None,
        Some((tag, p1)) => if tag == 0 {
            Some((None, p1))
        } else if tag == 1 {
            match dec_chars(s, p1) {
                None => None,
                Some((v, p2)) => Some((Some(v), p2)),
            }
        } else {
            None
        },
    }
}

/// An encoding standing at `pos` of `s` is parsed back as written.
pub proof fn lemma_dec_num_of_enc(s: Seq<char>, pos: int, n: u64)
    requires
        0 <= pos,
        pos + 17 <= s.len(),
        s.subrange(pos, pos + 17) == enc_num(n),
    ensures
        dec_num(s, pos) == Some((n, pos + 17)),
{
    lemma_hex_seq_len(n as nat, 16);
    lemma_hex_seq_digits(n as nat, 16);
    assert forall|i: int| pos <= i < pos + 16 implies is_hex_digit(#[trigger] s[i]) by {
        assert(s[i] == s.subrange(pos, pos + 17)[i - pos]);
        assert(enc_num(n)[i - pos] == hex16_seq(n)[i - pos]);
    }
    assert(s[pos + 16] == s.subrange(pos, pos + 17)[16]);
    assert(s[pos + 16] == '\n');
    assert(s.subrange(pos, pos + 16) =~= hex16_seq(n)) by {
        assert forall|i: int| 0 <= i < 16 implies #[trigger] s.subrange(pos, pos + 16)[i] == hex16_seq(n)[i] by {
            assert(s.subrange(pos, pos + 16)[i] == s.subrange(pos, pos + 17)[i]);
        }
    }
    crate::hexnum::lemma_pow16_16();
    lemma_hex_val_of_hex_seq(n as nat, 16);
}

/// What a parsed number stands on: exactly its encoding.
pub proof fn lemma_dec_num_exact(s: Seq<char>, pos: int, n: u64, p: int)
    requires
        dec_num(s, pos) == Some((n, p)),
    ensures
        p == pos + 17,
        0 <= pos && pos + 17 <= s.len(),
        s.subrange(pos, pos + 17) == enc_num(n),
{
    let digits = s.subrange(pos, pos + 16);
    assert(forall|i: int| 0 <= i < 16 ==> is_hex_digit(#[trigger] digits[i]));
    lemma_hex_seq_of_hex_val(digits);
    crate::hexnum::lemma_pow16_16();
    assert(hex_val(digits) < pow16(16));
    assert(n as nat == hex_val(digits));
    assert(hex16_seq(n) == digits);
    assert(s.subrange(pos, pos + 17) =~= digits + seq!['\n']);
}

pub proof fn lemma_dec_chars_of_enc(s: Seq<char>, pos: int, v: Seq<char>)
    requires
        0 <= pos,
        v.len() <= u64::MAX,
        pos + enc_chars(v).len() <= s.len(),
        s.subrange(pos, pos + enc_chars(v).len()) == enc_chars(v),
    ensures
        dec_chars(s, pos) == Some((v, pos + 18 + v.len())),
{
    lemma_hex_seq_len(v.len() as u64 as nat, 16);
    let el = enc_chars(v).len();
    assert(el == 18 + v.len());
    let whole = s.subrange(pos, pos + el);
    assert(s.subrange(pos, pos + 17) =~= enc_num(v.len() as u64)) by {
        assert forall|i: int| 0 <= i < 17 implies #[trigger] s.subrange(pos, pos + 17)[i] == enc_num(
            v.len() as u64,
        )[i] by {
            assert(s.subrange(pos, pos + 17)[i] == whole[i]);
            assert(whole[i] == enc_chars(v)[i]);
        }
    }
    lemma_dec_num_of_enc(s, pos, v.len() as u64);
    let p1 = pos + 17;
    assert(s.subrange(p1, p1 + v.len()) =~= v) by {
        assert forall|i: int| 0 <= i < v.len() implies #[trigger] s.subrange(p1, p1 + v.len())[i] == v[i] by {
            assert(s.subrange(p1, p1 + v.len())[i] == whole[17 + i]);
            assert(whole[17 + i] == enc_chars(v)[17 + i]);
        }
    }
    assert(s[p1 + v.len()] == whole[17 + v.len() as int]);
    assert(s[p1 + v.len()] == '\n');
}

pub proof fn lemma_dec_chars_exact(s: Seq<char>, pos: int, v: Seq<char>, p: int)
    requires
        dec_chars(s, pos) == Some((v, p)),
    ensures
        v.len() <= u64::MAX,
        p == pos + 18 + v.len(),
        0 <= pos && p <= s.len(),
        s.subrange(pos, p) == enc_chars(v),
{
    let (n, p1) = dec_num(s, pos).unwrap();
    lemma_dec_num_exact(s, pos, n, p1);
    assert(v == s.subrange(p1, p1 + n));
    assert(v.len() == n);
    assert(s.subrange(pos, p) =~= enc_num(n) + v + seq!['\n']) by {
        assert forall|i: int| 0 <= i < p - pos implies #[trigger] s.subrange(pos, p)[i] == (enc_num(n) + v
            + seq!['\n'])[i] by {
            if i < 17 {
                assert(s.subrange(pos, p)[i] == s.subrange(pos, pos + 17)[i]);
            } else if i < 17 + n {
                assert(s.subrange(pos, p)[i] == s[pos + i]);
                assert(v[i - 17] == s[p1 + (i - 17)]);
            } else {
                assert(s.subrange(pos, p)[i] == s[p1 + n]);
            }
        }
    }
}

pub proof fn lemma_dec_opt_chars_of_enc(s: Seq<char>, pos: int, o: Option<Seq<char>>)
    requires
        0 <= pos,
        (o matches Some(v) ==> v.len() <= u64::MAX),
        pos + enc_opt_chars(o).len() <= s.len(),
        s.subrange(pos, pos + enc_opt_chars(o).len()) == enc_opt_chars(o),
    ensures
        dec_opt_chars(s, pos) == Some((o, pos + enc_opt_chars(o).len())),
{
    lemma_hex_seq_len(0, 16);
    lemma_hex_seq_len(1, 16);
    match o {
        None => {
            lemma_dec_num_of_enc(s, pos, 0);
            assert(enc_opt_chars(o).len() == 17);
            assert(dec_num(s, pos) == Some((0u64, pos + 17)));
            assert(dec_opt_chars(s, pos) == Some((o, pos + 17)));
        },
        Some(v) => {
            lemma_hex_seq_len(v.len() as u64 as nat, 16);
            assert(enc_chars(v).len() == 18 + v.len());
            let el = enc_opt_chars(o).len();
            assert(el == 17 + enc_chars(v).len());
            let whole = s.subrange(pos, pos + el);
            assert(s.subrange(pos, pos + 17) =~= enc_num(1)) by {
                assert forall|i: int| 0 <= i < 17 implies #[trigger] s.subrange(pos, pos + 17)[i] == enc_num(
                    1,
                )[i] by {
                    assert(s.subrange(pos, pos + 17)[i] == whole[i]);
                }
            }
            lemma_dec_num_of_enc(s, pos, 1);
            let p1 = pos + 17;
            assert(s.subrange(p1, p1 + enc_chars(v).len()) =~= enc_chars(v)) by {
                assert forall|i: int| 0 <= i < enc_chars(v).len() implies #[trigger] s.subrange(
                    p1,
                    p1 + enc_chars(v).len(),
                )[i] == enc_chars(v)[i] by {
                    assert(s.subrange(p1, p1 + enc_chars(v).len())[i] == whole[17 + i]);
                    assert(whole[17 + i] == enc_opt_chars(o)[17 + i]);
                }
            }
            lemma_dec_chars_of_enc(s, p1, v);
            assert(dec_opt_chars(s, pos) == Some((o, pos + enc_opt_chars(o).len())));
        },
    }
}

pub proof fn lemma_dec_opt_chars_exact(s: Seq<char>, pos: int, o: Option<Seq<char>>, p: int)
    requires
        dec_opt_chars(s, pos) == Some((o, p)),
    ensures
        (o matches Some(v) ==> v.len() <= u64::MAX),
        p == pos + enc_opt_chars(o).len(),
        0 <= pos && p <= s.len(),
        s.subrange(pos, p) == enc_opt_chars(o),
{
    let (tag, p1) = dec_num(s, pos).unwrap();
    lemma_dec_num_exact(s, pos, tag, p1);
    match o {
        None => {
            assert(s.subrange(pos, p) == enc_num(0));
        },
        Some(v) => {
            lemma_dec_chars_exact(s, p1, v, p);
            assert(s.subrange(pos, p) =~= enc_num(1) + enc_chars(v)) by {
                assert forall|i: int| 0 <= i < p - pos implies #[trigger] s.subrange(pos, p)[i] == (enc_num(1)
                    + enc_chars(v))[i] by {
                    if i < 17 {
                        assert(s.subrange(pos, p)[i] == s.subrange(pos, pos + 17)[i]);
                    } else {
                        assert(s.subrange(pos, p)[i] == s[pos + i]);
                        assert(s.subrange(p1, p)[i - 17] == s[p1 + (i - 17)]);
                    }
                }
            }
        },
    }
}

/// Append the stored form of `n` to `out`.
pub fn write_num(out: &mut String, n: u64)
    ensures
        final (out)@ == old(out)@ + enc_num(n),
{
    let h = hex16(n);
    out.append(h.as_str());
    out.append("\n");
    proof {
        reveal_strlit("\n");
        assert("\n"@ =~= seq!['\n']);
        assert(final (out)@ =~= old(out)@ + enc_num(n));
    }
}

/// Append the stored form of the string `s` to `out`.
pub fn write_chars(out: &mut String, s: &str)
    ensures
        final (out)@ == old(out)@ + enc_chars(s@),
{
    let len = s.unicode_len();
    write_num(out, len as u64);
    out.append(s);
    out.append("\n");
    proof {
        reveal_strlit("\n");
        assert("\n"@ =~= seq!['\n']);
        assert(final (out)@ =~= old(out)@ + enc_chars(s@));
    }
}

/// Append the stored form of the optional string `s` to `out`.
pub fn write_opt_chars(out: &mut String, s: &Option<String>)
    ensures
        final (out)@ == old(out)@ + enc_opt_chars(match *s {
            Some(ref v) => Some(v@),
            None => None,
        }),
{
    match s {
        None => {
            write_num(out, 0);
        },
        Some(v) => {
            write_num(out, 1);
            write_chars(out, v.as_str());
            proof {
                assert(final (out)@ =~= old(out)@ + (enc_num(1) + enc_chars(v@)));
            }
        },
    }
}

/// Read a number at `pos`; the result is exactly what [`dec_num`] says.
pub fn read_num(s: &str, pos: usize) -> (r: Option<(u64, usize)>)
    requires
        pos <= s@.len(),
    ensures
        r is Some <==> dec_num(s@, pos as int) is Some,
        r matches Some((n, p)) ==> dec_num(s@, pos as int) == Some((n, p as int)) && p <= s@.len(),
{
    let len = s.unicode_len();
    match parse_hex16(s, pos) {
        None => {
            proof {
                if dec_num(s@, pos as int) is Some {
                    assert(pos + 16 <= s@.len());
                    assert(forall|i: int|
                        pos <= i < pos + 16 ==> is_hex_digit(#[trigger] s@[i]));
                }
            }
            None
        },
        Some((n, p)) => {
            if p >= len {
                proof {
                    assert(dec_num(s@, pos as int) is None);
                }
                return None;
            }
            let c = s.get_char(p);
            if c != '\n' {
                proof {
                    assert(s@[pos + 16] != '\n');
                }
                return None;
            }
            proof {
                let digits = s@.subrange(pos as int, pos + 16);
                assert(s@.subrange(pos as int, pos + 16) =~= hex16_seq(n)) by {
                    assert forall|i: int| 0 <= i < 16 implies #[trigger] digits[i] == hex16_seq(n)[i] by {
                        assert(digits[i] == s@[pos + i]);
                        assert(s@.subrange(pos as int, pos + 16)[i] == s@[pos + i]);
                    }
                }
                lemma_hex_seq_digits(n as nat, 16);
                lemma_hex_seq_len(n as nat, 16);
                assert(forall|i: int| pos <= i < pos + 16 ==> is_hex_digit(#[trigger] s@[i])) by {
                    assert(forall|i: int|
                        pos <= i < pos + 16 ==> s@[i] == hex16_seq(n)[i - pos]);
                }
                crate::hexnum::lemma_pow16_16();
                lemma_hex_val_of_hex_seq(n as nat, 16);
            }
            Some((n, p + 1))
        },
    }
}

/// Read a string at `pos`; the result is exactly what [`dec_chars`] says.
pub fn read_chars(s: &str, pos: usize) -> (r: Option<(String, usize)>)
    requires
        pos <= s@.len(),
    ensures
        r is Some <==> dec_chars(s@, pos as int) is Some,
        r matches Some((v, p)) ==> dec_chars(s@, pos as int) matches Some(x) && v@ == x.0 && p
            as int == x.1 && p <= s@.len(),
{
    let len = s.unicode_len();
    match read_num(s, pos) {
        None => None,
        Some((n, p1)) => {
            if n > (len - p1) as u64 {
                proof {
                    assert(dec_chars(s@, pos as int) is None);
                }
                None
            } else {
                let n_us = n as usize;
                if p1 + n_us == len {
                    proof {
                        assert(dec_chars(s@, pos as int) is None);
                    }
                    None
                } else {
                    let c = s.get_char(p1 + n_us);
                    if c != '\n' {
                        proof {
                            assert(s@[p1 + n as int] != '\n');
                            assert(dec_chars(s@, pos as int) is None);
                        }
                        None
                    } else {
                        let sub = s.substring_char(p1, p1 + n_us);
                        Some((String::from_str(sub), p1 + n_us + 1))
                    }
                }
            }
        },
    }
}

/// Read an optional string at `pos`, as [`dec_opt_chars`] says.
pub fn read_opt_chars(s: &str, pos: usize) -> (r: Option<(Option<String>, usize)>)
    requires
        pos <= s@.len(),
    ensures
        r is Some <==> dec_opt_chars(s@, pos as int) is Some,
        r matches Some((v, p)) ==> dec_opt_chars(s@, pos as int) matches Some(x) && (match v {
            Some(vv) => x.0 matches Some(xv) && vv@ == xv,
            None => x.0 is None,
        }) && p as int == x.1 && p <= s@.len(),
{
    match read_num(s, pos) {
        None => None,
        Some((tag, p1)) => {
            if tag == 0 {
                Some((None, p1))
            } else if tag == 1 {
                match read_chars(s, p1) {
                    None => None,
                    Some((v, p2)) => Some((Some(v), p2)),
                }
            } else {
                None
            }
        },
    }
}

/// A sequence of strings in its stored form, first element first.
pub open spec fn enc_str_list(l: Seq<Seq<char>>) -> Seq<char>
    decreases l.len(),
{
    if l.len() == 0 {
        Seq::empty()
    } else {
        enc_chars(l[0]) + enc_str_list(l.drop_first())
    }
}

/// Parse `count` strings at `pos`.
pub open spec fn dec_str_list(s: Seq<char>, pos: int, count: nat) -> Option<(Seq<Seq<char>>, int)>
    decreases count,
{
    if count == 0 {
        Some((Seq::empty(), pos))
    } else {
        match dec_chars(s, pos) {
            None => None,
            Some((v, p1)) => match dec_str_list(s, p1, (count - 1) as nat) {
                None => None,
                Some((l, p2)) => Some((seq![v] + l, p2)),
            },
        }
    }
}

/// Prefix the string list inside a parse result.
pub open spec fn join_prefix(pre: Seq<Seq<char>>, r: Option<(Seq<Seq<char>>, int)>) -> Option<
    (Seq<Seq<char>>, int),
> {
    match r {
        None => None,
        Some((l, p)) => Some((pre + l, p)),
    }
}

/// Splitting a known concatenation of two sequences at its seam.
pub proof fn lemma_subrange_split(s: Seq<char>, pos: int, a: Seq<char>, b: Seq<char>)
    requires
        0 <= pos,
        pos + a.len() + b.len() <= s.len(),
        s.subrange(pos, pos + a.len() + b.len()) == a + b,
    ensures
        s.subrange(pos, pos + a.len()) == a,
        s.subrange(pos + a.len(), pos + a.len() + b.len()) == b,
{
    let whole = s.subrange(pos, pos + a.len() + b.len());
    assert(s.subrange(pos, pos + a.len()) =~= a) by {
        assert forall|i: int| 0 <= i < a.len() implies #[trigger] s.subrange(
            pos,
            pos + a.len(),
        )[i] == a[i] by {
            assert(s.subrange(pos, pos + a.len())[i] == whole[i]);
            assert(whole[i] == (a + b)[i]);
        }
    }
    assert(s.subrange(pos + a.len(), pos + a.len() + b.len()) =~= b) by {
        assert forall|i: int| 0 <= i < b.len() implies #[trigger] s.subrange(
            pos + a.len(),
            pos + a.len() + b.len(),
        )[i] == b[i] by {
            assert(s.subrange(pos + a.len(), pos + a.len() + b.len())[i] == whole[a.len() + i]);
            assert(whole[a.len() + i] == (a + b)[a.len() + i]);
        }
    }
}

pub proof fn lemma_dec_str_list_of_enc(s: Seq<char>, pos: int, l: Seq<Seq<char>>)
    requires
        0 <= pos,
        forall|i: int| 0 <= i < l.len() ==> #[trigger] l[i].len() <= u64::MAX,
        pos + enc_str_list(l).len() <= s.len(),
        s.subrange(pos, pos + enc_str_list(l).len()) == enc_str_list(l),
    ensures
        dec_str_list(s, pos, l.len()) == Some((l, pos + enc_str_list(l).len())),
    decreases l.len(),
{
    if l.len() == 0 {
        assert(l =~= Seq::<Seq<char>>::empty());
    } else {
        let head = enc_chars(l[0]);
        let rest = enc_str_list(l.drop_first());
        lemma_subrange_split(s, pos, head, rest);
        lemma_dec_chars_of_enc(s, pos, l[0]);
        assert(forall|i: int|
            0 <= i < l.drop_first().len() ==> #[trigger] l.drop_first()[i].len() <= u64::MAX);
        lemma_dec_str_list_of_enc(s, pos + head.len(), l.drop_first());
        assert(head.len() == 18 + l[0].len()) by {
            lemma_hex_seq_len(l[0].len() as u64 as nat, 16);
        }
        assert(seq![l[0]] + l.drop_first() =~= l);
    }
}

pub proof fn lemma_dec_str_list_exact(s: Seq<char>, pos: int, count: nat, l: Seq<Seq<char>>, p: int)
    requires
        0 <= pos <= s.len(),
        dec_str_list(s, pos, count) == Some((l, p)),
    ensures
        l.len() == count,
        forall|i: int| 0 <= i < l.len() ==> #[trigger] l[i].len() <= u64::MAX,
        p == pos + enc_str_list(l).len(),
        0 <= pos <= p <= s.len(),
        s.subrange(pos, p) == enc_str_list(l),
    decreases count,
{
    if count == 0 {
        assert(s.subrange(pos, pos) =~= enc_str_list(l));
    } else {
        let (v, p1) = dec_chars(s, pos).unwrap();
        lemma_dec_chars_exact(s, pos, v, p1);
        let (lr, p2) = dec_str_list(s, p1, (count - 1) as nat).unwrap();
        lemma_dec_str_list_exact(s, p1, (count - 1) as nat, lr, p2);
        assert(l == seq![v] + lr);
        assert(l[0] == v);
        assert(l.drop_first() =~= lr);
        assert(s.subrange(pos, p) =~= enc_chars(v) + enc_str_list(lr)) by {
            assert forall|i: int| 0 <= i < p - pos implies #[trigger] s.subrange(pos, p)[i] == (
            enc_chars(v) + enc_str_list(lr))[i] by {
                if i < p1 - pos {
                    assert(s.subrange(pos, p)[i] == s[pos + i]);
                    assert(s.subrange(pos, p1)[i] == s[pos + i]);
                } else {
                    assert(s.subrange(pos, p)[i] == s[pos + i]);
                    assert(s.subrange(p1, p)[i - (p1 - pos)] == s[pos + i]);
                }
            }
        }
    }
}

/// Append the stored form of each string in `items`, in order.
pub fn write_str_list(out: &mut String, items: &Vec<String>)
    ensures
        final (out)@ == old(out)@ + enc_str_list(items@.map_values(|u: String| u@)),
{
    let ghost target = items@.map_values(|u: String| u@);
    let mut k: usize = 0;
    while k < items.len()
        invariant
            k <= items.len(),
            target == items@.map_values(|u: String| u@),
            out@ == old(out)@ + enc_str_list(target.subrange(0, k as int)),
        decreases items.len() - k,
    {
        write_chars(out, items[k].as_str());
        proof {
            let pre = target.subrange(0, k as int);
            let now = target.subrange(0, k + 1);
            lemma_enc_str_list_push(pre, target[k as int]);
            assert(now =~= pre.push(target[k as int]));
            assert(out@ =~= old(out)@ + enc_str_list(now));
        }
        k = k + 1;
    }
    proof {
        assert(target.subrange(0, items@.len() as int) =~= target);
    }
}

/// Encoding one more string extends the stored form at its end.
pub proof fn lemma_enc_str_list_push(l: Seq<Seq<char>>, v: Seq<char>)
    ensures
        enc_str_list(l.push(v)) == enc_str_list(l) + enc_chars(v),
    decreases l.len(),
{
    assert(enc_str_list(l.push(v)) == enc_chars(l.push(v)[0]) + enc_str_list(
        l.push(v).drop_first(),
    ));
    if l.len() == 0 {
        assert(l.push(v)[0] == v);
        let tail = l.push(v).drop_first();
        assert(tail =~= Seq::<Seq<char>>::empty());
        assert(enc_str_list(tail) == Seq::<char>::empty());
        assert(enc_chars(v) + Seq::<char>::empty() =~= enc_chars(v));
        assert(Seq::<char>::empty() + enc_chars(v) =~= enc_chars(v));
    } else {
        let tail = l.push(v).drop_first();
        assert(tail =~= l.drop_first().push(v));
        lemma_enc_str_list_push(l.drop_first(), v);
        assert(enc_str_list(tail) == enc_str_list(l.drop_first()) + enc_chars(v));
        assert(l.push(v)[0] == l[0]);
        assert(enc_chars(l[0]) + (enc_str_list(l.drop_first()) + enc_chars(v)) =~= (enc_chars(l[0])
            + enc_str_list(l.drop_first())) + enc_chars(v));
    }
}

/// Read `count` strings at `pos`, as [`dec_str_list`] says.
pub fn read_str_list(s: &str, pos: usize, count: u64) -> (r: Option<(Vec<String>, usize)>)
    requires
        pos <= s@.len(),
    ensures
        r is Some <==> dec_str_list(s@, pos as int, count as nat) is Some,
        r matches Some((v, p)) ==> dec_str_list(s@, pos as int, count as nat) matches Some(x)
            && v@.map_values(|u: String| u@) == x.0 && p as int == x.1 && p <= s@.len(),
{
    let mut out: Vec<String> = Vec::new();
    let mut p = pos;
    let mut k: u64 = 0;
    proof {
        assert(out@.map_values(|u: String| u@) =~= Seq::<Seq<char>>::empty());
        match dec_str_list(s@, pos as int, count as nat) {
            None => {},
            Some((l, pp)) => {
                assert(Seq::<Seq<char>>::empty() + l =~= l);
            },
        }
    }
    while k < count
        invariant
            k <= count,
            pos <= p <= s@.len(),
            out@.len() == k,
            dec_str_list(s@, pos as int, count as nat) == join_prefix(
                out@.map_values(|u: String| u@),
                dec_str_list(s@, p as int, (count - k) as nat),
            ),
        decreases count - k,
    {
        match read_chars(s, p) {
            None => {
                proof {
                    assert(dec_str_list(s@, p as int, (count - k) as nat) is None);
                }
                return None;
            },
            Some((v, p2)) => {
                proof {
                    let pre = out@.map_values(|u: String| u@);
                    let (dv, dp) = dec_chars(s@, p as int).unwrap();
                    assert(dv == v@ && dp == p2 as int);
                    let restr = dec_str_list(s@, p2 as int, (count - k - 1) as nat);
                    assert(dec_str_list(s@, p as int, (count - k) as nat) == join_prefix(
                        seq![v@],
                        restr,
                    ));
                    assert(out@.push(v).map_values(|u: String| u@) =~= pre + seq![v@]);
                    match restr {
                        None => {},
                        Some((l, pp)) => {
                            assert((pre + seq![v@]) + l =~= pre + (seq![v@] + l));
                        },
                    }
                }
                out.push(v);
                p = p2;
                k = k + 1;
            },
        }
    }
    proof {
        let pre = out@.map_values(|u: String| u@);
        assert(dec_str_list(s@, p as int, 0) == Some((Seq::<Seq<char>>::empty(), p as int)));
        assert(pre + Seq::<Seq<char>>::empty() =~= pre);
    }
    Some((out, p))
}

/// Adjacent subranges concatenate to the enclosing one.
pub proof fn lemma_subrange_join(s: Seq<char>, a: int, b: int, c: int)
    requires
        0 <= a <= b <= c <= s.len(),
    ensures
        s.subrange(a, c) == s.subrange(a, b) + s.subrange(b, c),
{
    assert(s.subrange(a, c) =~= s.subrange(a, b) + s.subrange(b, c));
}

/// The stored form of a number is seventeen characters.
pub proof fn lemma_enc_num_len(n: u64)
    ensures
        enc_num(n).len() == 17,
{
    lemma_hex_seq_len(n as nat, 16);
}

/// The stored form of a string is its length plus eighteen characters.
pub proof fn lemma_enc_chars_len(v: Seq<char>)
    ensures
        enc_chars(v).len() == 18 + v.len(),
{
    lemma_hex_seq_len(v.len() as u64 as nat, 16);
}

/// The stored form of an optional string: tag alone, or tag and string.
pub proof fn lemma_enc_opt_chars_len(o: Option<Seq<char>>)
    ensures
        enc_opt_chars(o).len() == (match o {
            None => 17int,
            Some(v) => 35 + v.len() as int,
        }),
{
    lemma_enc_num_len(0);
    lemma_enc_num_len(1);
    match o {
        None => {},
        Some(v) => {
            lemma_enc_chars_len(v);
        },
    }
}

/// An optional number in its stored form.
pub open spec fn enc_opt_num(o: Option<u64>) -> Seq<char> {
    match o {
        None => enc_num(0),
        Some(n) => enc_num(1) + enc_num(n),
    }
}

/// Parse an optional number at `pos`.
pub open spec fn dec_opt_num(s: Seq<char>, pos: int) -> Option<(Option<u64>, int)> {
    match dec_num(s, pos) {
        None => None,
        Some((tag, p1)) => if tag == 0 {
            Some((None, p1))
        } else if tag == 1 {
            match dec_num(s, p1) {
                None => None,
                Some((n, p2)) => Some((Some(n), p2)),
            }
        } else {
            None
        },
    }
}

pub proof fn lemma_dec_opt_num_of_enc(s: Seq<char>, pos: int, o: Option<u64>)
    requires
        0 <= pos,
        pos + enc_opt_num(o).len() <= s.len(),
        s.subrange(pos, pos + enc_opt_num(o).len()) == enc_opt_num(o),
    ensures
        dec_opt_num(s, pos) == Some((o, pos + enc_opt_num(o).len())),
{
    lemma_enc_num_len(0);
    lemma_enc_num_len(1);
    match o {
        None => {
            lemma_dec_num_of_enc(s, pos, 0);
        },
        Some(n) => {
            lemma_enc_num_len(n);
            lemma_subrange_split(s, pos, enc_num(1), enc_num(n));
            lemma_dec_num_of_enc(s, pos, 1);
            lemma_dec_num_of_enc(s, pos + 17, n);
        },
    }
}

pub proof fn lemma_dec_opt_num_exact(s: Seq<char>, pos: int, o: Option<u64>, p: int)
    requires
        dec_opt_num(s, pos) == Some((o, p)),
    ensures
        p == pos + enc_opt_num(o).len(),
        0 <= pos && p <= s.len(),
        s.subrange(pos, p) == enc_opt_num(o),
{
    let (tag, p1) = dec_num(s, pos).unwrap();
    lemma_dec_num_exact(s, pos, tag, p1);
    lemma_enc_num_len(tag);
    match o {
        None => {
            assert(s.subrange(pos, p) == enc_num(0));
        },
        Some(n) => {
            lemma_dec_num_exact(s, p1, n, p);
            lemma_enc_num_len(n);
            lemma_subrange_join(s, pos, p1, p);
        },
    }
}

/// Append the stored form of the optional number `o` to `out`.
pub fn write_opt_num(out: &mut String, o: &Option<u64>)
    ensures
        final (out)@ == old(out)@ + enc_opt_num(*o),
{
    match o {
        None => {
            write_num(out, 0);
        },
        Some(n) => {
            write_num(out, 1);
            write_num(out, *n);
            proof {
                assert(final (out)@ =~= old(out)@ + (enc_num(1) + enc_num(*n)));
            }
        },
    }
}

/// Read an optional number at `pos`, as [`dec_opt_num`] says.
pub fn read_opt_num(s: &str, pos: usize) -> (r: Option<(Option<u64>, usize)>)
    requires
        pos <= s@.len(),
    ensures
        r is Some <==> dec_opt_num(s@, pos as int) is Some,
        r matches Some((v, p)) ==> dec_opt_num(s@, pos as int) == Some((v, p as int)) && p
            <= s@.len(),
{
    match read_num(s, pos) {
        None => None,
        Some((tag, p1)) => {
            if tag == 0 {
                Some((None, p1))
            } else if tag == 1 {
                match read_num(s, p1) {
                    None => None,
                    Some((n, p2)) => Some((Some(n), p2)),
                }
            } else {
                None
            }
        },
    }
}

} // verus!
