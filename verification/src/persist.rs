//! Persisted-state codec.
//!
//! The combined keeper state is written wholesale as one JSON document,
//! `{"auctions":[[id,flag],...],"vaults":[[id,[fields...]],...],
//! "last_block":n}`, and read back once at startup.  Encoding is a function
//! of the state alone; decoding undoes it exactly, which is proved as a
//! round-trip law over the specification-level encoder and parser.
use crate::borrowers::Vault;
use crate::idmap::{entries_sorted, IdMap};
use crate::keeper::State;
use vstd::prelude::*;

verus! {

/// Whether `b` is an ASCII decimal digit.
pub open spec fn is_digit(b: u8) -> bool {
    48 <= b <= 57
}

/// The canonical decimal encoding of `n`: most significant digit first, no
/// leading zeros (`0` for zero).
pub open spec fn spec_dec(n: nat) -> Seq<u8>
    decreases n,
{
    if n < 10 {
        seq![(48 + n) as u8]
    } else {
        spec_dec(n / 10).push((48 + n % 10) as u8)
    }
}

/// The value of a digit string, most significant digit first.
pub open spec fn val_of(s: Seq<u8>) -> nat
    decreases s.len(),
{
    if s.len() == 0 {
        0
    } else {
        (val_of(s.drop_last()) * 10 + (s.last() - 48)) as nat
    }
}

/// The end of the digit run starting at `pos`.
pub open spec fn digits_end(s: Seq<u8>, pos: int) -> int
    decreases s.len() - pos,
{
    if 0 <= pos < s.len() && is_digit(s[pos]) {
        digits_end(s, pos + 1)
    } else {
        pos
    }
}

/// Every byte of a canonical decimal encoding is a digit.
pub proof fn lemma_dec_digits(n: nat)
    ensures
        spec_dec(n).len() >= 1,
        forall|i: int| 0 <= i < spec_dec(n).len() ==> is_digit(#[trigger] spec_dec(n)[i]),
    decreases n,
{
    if n >= 10 {
        lemma_dec_digits(n / 10);
    }
}

/// Reading back the canonical decimal encoding gives the value.
pub proof fn lemma_val_of_dec(n: nat)
    ensures
        val_of(spec_dec(n)) == n,
    decreases n,
{
    if n < 10 {
        let d = spec_dec(n);
        assert(d == seq![(48 + n) as u8]);
        assert(((48 + n) as u8) == 48 + n);
        assert(d.len() == 1);
        assert(d.drop_last() =~= Seq::<u8>::empty());
        assert(d.last() == (48 + n) as u8);
        assert(val_of(d.drop_last()) == 0);
        assert(val_of(d) == (val_of(d.drop_last()) * 10 + (d.last() - 48)) as nat);
    } else {
        lemma_val_of_dec(n / 10);
        let d = spec_dec(n);
        assert(d == spec_dec(n / 10).push((48 + n % 10) as u8));
        assert(d.drop_last() =~= spec_dec(n / 10));
        assert(d.last() == (48 + n % 10) as u8);
        assert(((48 + n % 10) as u8) == 48 + n % 10);
        assert(d.len() > 0);
        assert(val_of(d) == (val_of(d.drop_last()) * 10 + (d.last() - 48)) as nat);
        assert(val_of(d) == ((n / 10) * 10 + n % 10) as nat);
        vstd::arithmetic::div_mod::lemma_fundamental_div_mod(n as int, 10);
    }
}

/// The digit run over an embedded digit string, delimited by a non-digit
/// (or the buffer's end), ends exactly at the delimiter.
pub proof fn lemma_digits_end_exact(s: Seq<u8>, pos: int, d: Seq<u8>)
    requires
        0 <= pos,
        pos + d.len() <= s.len(),
        s.subrange(pos, pos + d.len()) == d,
        forall|i: int| 0 <= i < d.len() ==> is_digit(#[trigger] d[i]),
        pos + d.len() == s.len() || !is_digit(s[pos + d.len()]),
    ensures
        digits_end(s, pos) == pos + d.len(),
    decreases d.len(),
{
    if d.len() == 0 {
        assert(digits_end(s, pos) == pos);
    } else {
        assert(s[pos] == d[0]);
        assert(is_digit(s[pos]));
        let d2 = d.subrange(1, d.len() as int);
        assert(s.subrange(pos + 1, pos + 1 + d2.len()) =~= d2);
        lemma_digits_end_exact(s, pos + 1, d2);
    }
}

/// The parsed decimal number at `pos`: the digit run's value and the
/// position after it; nothing when no digit starts there or the value does
/// not fit 128 bits.
pub open spec fn spec_parse_u128(s: Seq<u8>, pos: int) -> Option<(u128, int)> {
    let e = digits_end(s, pos);
    if e == pos {
        Option::None
    } else if val_of(s.subrange(pos, e)) <= u128::MAX {
        Option::Some((val_of(s.subrange(pos, e)) as u128, e))
    } else {
        Option::None
    }
}

/// Parsing right after writing a decimal number reads the number back.
pub proof fn lemma_parse_u128_enc(s: Seq<u8>, pos: int, n: u128)
    requires
        0 <= pos,
        pos + spec_dec(n as nat).len() <= s.len(),
        s.subrange(pos, pos + spec_dec(n as nat).len()) == spec_dec(n as nat),
        pos + spec_dec(n as nat).len() == s.len() || !is_digit(s[pos + spec_dec(n as nat).len()]),
    ensures
        spec_parse_u128(s, pos) == Option::Some((n, pos + spec_dec(n as nat).len())),
{
    let d = spec_dec(n as nat);
    lemma_dec_digits(n as nat);
    lemma_digits_end_exact(s, pos, d);
    lemma_val_of_dec(n as nat);
}

/// Parse the decimal number at `pos`.
pub fn parse_u128(s: &Vec<u8>, pos: usize) -> (r: Option<(u128, usize)>)
    requires
        pos <= s@.len(),
    ensures
        match r {
            Some((v, e)) => spec_parse_u128(s@, pos as int) == Option::Some((v, e as int)) && pos
                < e <= s@.len(),
            None => spec_parse_u128(s@, pos as int) is None,
        },
{
    let n = s.len();
    if pos >= n || !(48 <= s[pos] && s[pos] <= 57) {
        return None;
    }
    let mut acc: u128 = 0;
    let mut i: usize = pos;
    let mut overflow: bool = false;
    while i < n && 48 <= s[i] && s[i] <= 57
        invariant
            pos <= i <= n,
            n == s@.len(),
            forall|j: int| pos <= j < i ==> is_digit(s@[j]),
            !overflow ==> acc == val_of(s@.subrange(pos as int, i as int)),
            overflow ==> val_of(s@.subrange(pos as int, i as int)) > u128::MAX,
        decreases n - i,
    {
        let d: u8 = s[i] - 48;
        let ghost pre = s@.subrange(pos as int, i as int);
        proof {
            assert(s@.subrange(pos as int, i + 1 as int).drop_last() =~= pre);
            assert(s@.subrange(pos as int, i + 1 as int).last() == s@[i as int]);
        }
        if !overflow {
            if acc > (u128::MAX - (d as u128)) / 10 {
                proof {
                    let cur = s@.subrange(pos as int, i + 1 as int);
                    assert(val_of(cur) == acc * 10 + d);
                    assert(acc * 10 + d > u128::MAX) by (nonlinear_arith)
                        requires
                            acc > (u128::MAX - (d as u128)) / 10,
                            0 <= d <= 9,
                    ;
                }
                overflow = true;
            } else {
                proof {
                    assert(acc * 10 + d <= u128::MAX) by (nonlinear_arith)
                        requires
                            acc <= (u128::MAX - (d as u128)) / 10,
                            0 <= d <= 9,
                    ;
                }
                acc = acc * 10 + (d as u128);
            }
        } else {
            proof {
                let cur = s@.subrange(pos as int, i + 1 as int);
                assert(val_of(cur) == val_of(pre) * 10 + d);
            }
        }
        i = i + 1;
    }
    proof {
        lemma_digits_end_exact(
            s@,
            pos as int,
            s@.subrange(pos as int, i as int),
        );
        assert(digits_end(s@, pos as int) == i as int);
    }
    if overflow {
        None
    } else {
        Some((acc, i))
    }
}

/// The fixed byte string at `pos`, if it is there: the position after it.
pub open spec fn spec_parse_lit(s: Seq<u8>, pos: int, lit: Seq<u8>) -> Option<int> {
    if 0 <= pos && pos + lit.len() <= s.len() && s.subrange(pos, pos + lit.len()) == lit {
        Option::Some(pos + lit.len())
    } else {
        Option::None
    }
}

/// Recognize the fixed byte string `lit` at `pos`.
pub fn parse_lit(s: &Vec<u8>, pos: usize, lit: &Vec<u8>) -> (r: Option<usize>)
    requires
        pos <= s@.len(),
    ensures
        match r {
            Some(e) => spec_parse_lit(s@, pos as int, lit@) == Option::Some(e as int) && e == pos
                + lit@.len() && e <= s@.len(),
            None => spec_parse_lit(s@, pos as int, lit@) is None,
        },
{
    if lit.len() > s.len() - pos {
        return None;
    }
    let mut i: usize = 0;
    while i < lit.len()
        invariant
            pos + lit@.len() <= s@.len(),
            s@.len() <= usize::MAX,
            i <= lit@.len(),
            forall|j: int| 0 <= j < i ==> s@[pos + j] == lit@[j],
        decreases lit@.len() - i,
    {
        if s[pos + i] != lit[i] {
            proof {
                assert(s@.subrange(pos as int, pos + lit@.len())[i as int] != lit@[i as int]);
            }
            return None;
        }
        i = i + 1;
    }
    proof {
        assert(s@.subrange(pos as int, pos + lit@.len()) =~= lit@);
    }
    Some(pos + lit.len())
}

/// Append the fixed byte string `lit` to `out`.
pub fn emit_bytes(out: &mut Vec<u8>, lit: &Vec<u8>)
    ensures
        final(out)@ == old(out)@ + lit@,
{
    let ghost out0 = out@;
    let mut i: usize = 0;
    while i < lit.len()
        invariant
            i <= lit@.len(),
            out@ == out0 + lit@.subrange(0, i as int),
        decreases lit@.len() - i,
    {
        out.push(lit[i]);
        proof {
            assert(out@ =~= out0 + lit@.subrange(0, i + 1 as int));
        }
        i = i + 1;
    }
    proof {
        assert(lit@.subrange(0, lit@.len() as int) =~= lit@);
    }
}

/// The bytes of `true` / `false`.
pub open spec fn spec_enc_bool(b: bool) -> Seq<u8> {
    if b {
        seq![116u8, 114u8, 117u8, 101u8]
    } else {
        seq![102u8, 97u8, 108u8, 115u8, 101u8]
    }
}

/// The flag at `pos`: `true` or `false`, and the position after it.
pub open spec fn spec_parse_bool(s: Seq<u8>, pos: int) -> Option<(bool, int)> {
    match spec_parse_lit(s, pos, spec_enc_bool(true)) {
        Option::Some(e) => Option::Some((true, e)),
        Option::None => match spec_parse_lit(s, pos, spec_enc_bool(false)) {
            Option::Some(e) => Option::Some((false, e)),
            Option::None => Option::None,
        },
    }
}

/// The bytes of `true`, as a vector.
pub fn lit_true() -> (r: Vec<u8>)
    ensures
        r@ == spec_enc_bool(true),
{
    let mut r: Vec<u8> = Vec::new();
    r.push(116);
    r.push(114);
    r.push(117);
    r.push(101);
    proof {
        assert(r@ =~= spec_enc_bool(true));
    }
    r
}

/// The bytes of `false`, as a vector.
pub fn lit_false() -> (r: Vec<u8>)
    ensures
        r@ == spec_enc_bool(false),
{
    let mut r: Vec<u8> = Vec::new();
    r.push(102);
    r.push(97);
    r.push(108);
    r.push(115);
    r.push(101);
    proof {
        assert(r@ =~= spec_enc_bool(false));
    }
    r
}

/// Parse a flag at `pos`.
pub fn parse_bool(s: &Vec<u8>, pos: usize) -> (r: Option<(bool, usize)>)
    requires
        pos <= s@.len(),
    ensures
        match r {
            Some((b, e)) => spec_parse_bool(s@, pos as int) == Option::Some((b, e as int)) && pos
                < e <= s@.len(),
            None => spec_parse_bool(s@, pos as int) is None,
        },
{
    let t = lit_true();
    match parse_lit(s, pos, &t) {
        Some(e) => Some((true, e)),
        None => {
            let f = lit_false();
            match parse_lit(s, pos, &f) {
                Some(e) => Some((false, e)),
                None => None,
            }
        },
    }
}

/// Append `true` / `false` to `out`.
pub fn emit_bool(out: &mut Vec<u8>, b: bool)
    ensures
        final(out)@ == old(out)@ + spec_enc_bool(b),
{
    if b {
        let t = lit_true();
        emit_bytes(out, &t);
    } else {
        let f = lit_false();
        emit_bytes(out, &f);
    }
}

/// The decimal encoding of a signed value: a minus sign before the
/// magnitude when negative.
pub open spec fn spec_enc_i128(v: i128) -> Seq<u8> {
    if v >= 0 {
        spec_dec(v as nat)
    } else {
        seq![45u8] + spec_dec((-(v as int)) as nat)
    }
}

/// The signed decimal number at `pos`.
pub open spec fn spec_parse_i128(s: Seq<u8>, pos: int) -> Option<(i128, int)> {
    if 0 <= pos < s.len() && s[pos] == 45 {
        match spec_parse_u128(s, pos + 1) {
            Option::Some((m, e)) => {
                if m <= 170141183460469231731687303715884105728u128 {
                    Option::Some(((-(m as int)) as i128, e))
                } else {
                    Option::None
                }
            },
            Option::None => Option::None,
        }
    } else {
        match spec_parse_u128(s, pos) {
            Option::Some((m, e)) => {
                if m <= i128::MAX as u128 {
                    Option::Some((m as i128, e))
                } else {
                    Option::None
                }
            },
            Option::None => Option::None,
        }
    }
}

/// Parse a signed decimal number at `pos`.
pub fn parse_i128(s: &Vec<u8>, pos: usize) -> (r: Option<(i128, usize)>)
    requires
        pos <= s@.len(),
    ensures
        match r {
            Some((v, e)) => spec_parse_i128(s@, pos as int) == Option::Some((v, e as int)) && pos
                < e <= s@.len(),
            None => spec_parse_i128(s@, pos as int) is None,
        },
{
    if pos < s.len() && s[pos] == 45 {
        match parse_u128(s, pos + 1) {
            Some((m, e)) => {
                if m <= 170141183460469231731687303715884105728u128 {
                    let v: i128 = if m <= i128::MAX as u128 {
                        -(m as i128)
                    } else {
                        i128::MIN
                    };
                    proof {
                        assert(v as int == -(m as int));
                    }
                    Some((v, e))
                } else {
                    None
                }
            },
            None => None,
        }
    } else {
        match parse_u128(s, pos) {
            Some((m, e)) => {
                if m <= i128::MAX as u128 {
                    Some((m as i128, e))
                } else {
                    None
                }
            },
            None => None,
        }
    }
}

/// Append the signed decimal bytes of `v` to `out`.
pub fn emit_i128(out: &mut Vec<u8>, v: i128)
    ensures
        final(out)@ == old(out)@ + spec_enc_i128(v),
{
    if v >= 0 {
        emit_u128(out, v as u128);
    } else {
        let ghost out0 = out@;
        out.push(45);
        // Negate without overflowing at the minimum value.
        let m: u128 = if v == i128::MIN {
            170141183460469231731687303715884105728u128
        } else {
            (-v) as u128
        };
        proof {
            assert(m as int == -(v as int));
        }
        emit_u128(out, m);
        proof {
            assert(out@ =~= out0 + spec_enc_i128(v));
        }
    }
}

/// Parsing right after writing a signed number reads it back: the byte
/// after the encoding must not be a digit.
pub proof fn lemma_parse_i128_enc(s: Seq<u8>, pos: int, v: i128)
    requires
        0 <= pos,
        pos + spec_enc_i128(v).len() <= s.len(),
        s.subrange(pos, pos + spec_enc_i128(v).len()) == spec_enc_i128(v),
        pos + spec_enc_i128(v).len() == s.len() || !is_digit(s[pos + spec_enc_i128(v).len()]),
    ensures
        spec_parse_i128(s, pos) == Option::Some((v, pos + spec_enc_i128(v).len())),
{
    let d = spec_enc_i128(v);
    if v >= 0 {
        lemma_dec_digits(v as nat);
        assert(s[pos] == d[0]);
        assert(is_digit(s[pos]));
        assert(s[pos] != 45);
        lemma_parse_u128_enc(s, pos, v as u128);
    } else {
        let m = (-(v as int)) as nat;
        assert(s[pos] == d[0]);
        assert(d[0] == 45);
        let dm = spec_dec(m);
        assert(s.subrange(pos + 1, pos + 1 + dm.len()) =~= dm) by {
            assert(forall|i: int|
                0 <= i < dm.len() ==> s.subrange(pos, pos + d.len())[i + 1] == d[i + 1] && d[i + 1]
                    == dm[i]);
        }
        lemma_parse_u128_enc(s, pos + 1, (m as u128));
        assert(m <= 170141183460469231731687303715884105728u128);
        assert((-(m as int)) as i128 == v);
    }
}

/// The decimal number at `pos`, narrowed to 64 bits.
pub open spec fn spec_parse_u64(s: Seq<u8>, pos: int) -> Option<(u64, int)> {
    match spec_parse_u128(s, pos) {
        Option::Some((m, e)) => {
            if m <= u64::MAX as u128 {
                Option::Some((m as u64, e))
            } else {
                Option::None
            }
        },
        Option::None => Option::None,
    }
}

/// Parse a decimal number at `pos`, narrowed to 64 bits.
pub fn parse_u64(s: &Vec<u8>, pos: usize) -> (r: Option<(u64, usize)>)
    requires
        pos <= s@.len(),
    ensures
        match r {
            Some((v, e)) => spec_parse_u64(s@, pos as int) == Option::Some((v, e as int)) && pos
                < e <= s@.len(),
            None => spec_parse_u64(s@, pos as int) is None,
        },
{
    match parse_u128(s, pos) {
        Some((m, e)) => {
            if m <= u64::MAX as u128 {
                Some((m as u64, e))
            } else {
                None
            }
        },
        None => None,
    }
}

/// The canonical decimal bytes of `n`, appended to `out`.
pub fn emit_u128(out: &mut Vec<u8>, n: u128)
    ensures
        final(out)@ == old(out)@ + spec_dec(n as nat),
{
    let mut digits: Vec<u8> = Vec::new();
    let mut m: u128 = n;
    loop
        invariant_except_break
            spec_dec(n as nat) == spec_dec(m as nat) + digits@.reverse(),
        ensures
            spec_dec(n as nat) == digits@.reverse(),
        decreases m,
    {
        let ghost d0 = digits@;
        let ghost m0 = m;
        if m < 10 {
            digits.push(48 + m as u8);
            proof {
                assert(spec_dec(m0 as nat) =~= seq![(48 + m0 as nat) as u8]);
                assert(digits@.reverse() =~= seq![(48 + m0 as nat) as u8] + d0.reverse());
                assert(spec_dec(n as nat) =~= digits@.reverse());
            }
            break ;
        }
        digits.push(48 + (m % 10) as u8);
        m = m / 10;
        proof {
            assert(spec_dec(m0 as nat) == spec_dec(m as nat).push((48 + m0 as nat % 10) as u8));
            assert(digits@.reverse() =~= seq![(48 + m0 as nat % 10) as u8] + d0.reverse());
            assert(spec_dec(m as nat) + digits@.reverse() =~= spec_dec(m as nat).push(
                (48 + m0 as nat % 10) as u8,
            ) + d0.reverse());
        }
    }
    let ghost out0 = out@;
    let ghost ds = digits@;
    let mut k: usize = digits.len();
    while k > 0
        invariant
            k <= ds.len(),
            digits@ == ds,
            out@ == out0 + ds.reverse().subrange(0, ds.len() - k),
        decreases k,
    {
        k = k - 1;
        out.push(digits[k]);
        proof {
            assert(ds.reverse()[ds.len() - 1 - k] == ds[k as int]);
            assert(out@ =~= out0 + ds.reverse().subrange(0, ds.len() - k));
        }
    }
    proof {
        assert(ds.reverse().subrange(0, ds.len() as int) =~= ds.reverse());
        assert(out@ =~= out0 + spec_dec(n as nat));
    }
}

/// True when `part` stands in `s` at `pos`.
pub open spec fn is_enc_at(s: Seq<u8>, pos: int, part: Seq<u8>) -> bool {
    &&& 0 <= pos
    &&& pos + part.len() <= s.len()
    &&& s.subrange(pos, pos + part.len()) == part
}

/// A byte string standing at `pos` splits into its two halves.
pub proof fn lemma_enc_at_split(s: Seq<u8>, pos: int, a: Seq<u8>, b: Seq<u8>)
    requires
        is_enc_at(s, pos, a + b),
    ensures
        is_enc_at(s, pos, a),
        is_enc_at(s, pos + a.len(), b),
{
    assert(s.subrange(pos, pos + a.len()) =~= a) by {
        assert(forall|i: int|
            0 <= i < a.len() ==> s.subrange(pos, pos + (a + b).len())[i] == (a + b)[i]);
    }
    assert(s.subrange(pos + a.len(), pos + a.len() + b.len()) =~= b) by {
        assert forall|i: int| 0 <= i < b.len() implies s.subrange(
            pos + a.len(),
            pos + a.len() + b.len(),
        )[i] == b[i] by {
            assert(s.subrange(pos, pos + (a + b).len())[a.len() + i] == (a + b)[a.len() + i]);
        }
    }
}

/// A single-byte vector.
pub fn lit1(b: u8) -> (r: Vec<u8>)
    ensures
        r@ == seq![b],
{
    let mut r: Vec<u8> = Vec::new();
    r.push(b);
    proof {
        assert(r@ =~= seq![b]);
    }
    r
}

/// The bytes of the vault record: its fields as one JSON array, in
/// declaration order.
pub open spec fn spec_enc_vault(v: Vault) -> Seq<u8> {
    seq![91u8] + (spec_dec(v.vault_id as nat) + (seq![44u8] + (spec_enc_bool(v.is_initialized) + (
    seq![44u8] + (spec_enc_bool(v.is_collateralized) + (seq![44u8] + (spec_enc_bool(
        v.under_auction,
    ) + (seq![44u8] + (spec_enc_i128(v.level) + (seq![44u8] + (spec_dec(v.debt as nat) + (
    seq![44u8] + (spec_dec(v.ilk_id as nat) + (seq![44u8] + (spec_dec(v.series_id as nat)
        + seq![93u8])))))))))))))))
}

/// The vault record at `pos`.
pub open spec fn spec_parse_vault(s: Seq<u8>, pos: int) -> Option<(Vault, int)> {
    match spec_parse_lit(s, pos, seq![91u8]) {
        Option::None => Option::None,
        Option::Some(p1) => match spec_parse_u128(s, p1) {
            Option::None => Option::None,
            Option::Some((vault_id, p2)) => match spec_parse_lit(s, p2, seq![44u8]) {
                Option::None => Option::None,
                Option::Some(p3) => match spec_parse_bool(s, p3) {
                    Option::None => Option::None,
                    Option::Some((is_initialized, p4)) => match spec_parse_lit(s, p4, seq![44u8]) {
                        Option::None => Option::None,
                        Option::Some(p5) => match spec_parse_bool(s, p5) {
                            Option::None => Option::None,
                            Option::Some((is_collateralized, p6)) => match spec_parse_lit(
                                s,
                                p6,
                                seq![44u8],
                            ) {
                                Option::None => Option::None,
                                Option::Some(p7) => match spec_parse_bool(s, p7) {
                                    Option::None => Option::None,
                                    Option::Some((under_auction, p8)) => match spec_parse_lit(
                                        s,
                                        p8,
                                        seq![44u8],
                                    ) {
                                        Option::None => Option::None,
                                        Option::Some(p9) => match spec_parse_i128(s, p9) {
                                            Option::None => Option::None,
                                            Option::Some((level, p10)) => match spec_parse_lit(
                                                s,
                                                p10,
                                                seq![44u8],
                                            ) {
                                                Option::None => Option::None,
                                                Option::Some(p11) => match spec_parse_u128(
                                                    s,
                                                    p11,
                                                ) {
                                                    Option::None => Option::None,
                                                    Option::Some((debt, p12)) => match spec_parse_lit(
                                                        s,
                                                        p12,
                                                        seq![44u8],
                                                    ) {
                                                        Option::None => Option::None,
                                                        Option::Some(p13) => match spec_parse_u64(
                                                            s,
                                                            p13,
                                                        ) {
                                                            Option::None => Option::None,
                                                            Option::Some(
                                                                (ilk_id, p14),
                                                            ) => match spec_parse_lit(
                                                                s,
                                                                p14,
                                                                seq![44u8],
                                                            ) {
                                                                Option::None => Option::None,
                                                                Option::Some(
                                                                    p15,
                                                                ) => match spec_parse_u64(
                                                                    s,
                                                                    p15,
                                                                ) {
                                                                    Option::None => Option::None,
                                                                    Option::Some(
                                                                        (series_id, p16),
                                                                    ) => match spec_parse_lit(
                                                                        s,
                                                                        p16,
                                                                        seq![93u8],
                                                                    ) {
                                                                        Option::None
                                                                            => Option::None,
                                                                        Option::Some(
                                                                            p17,
                                                                        ) => Option::Some(
                                                                            (
                                                                                Vault {
                                                                                    vault_id,
                                                                                    is_initialized,
                                                                                    is_collateralized,
                                                                                    under_auction,
                                                                                    level,
                                                                                    debt,
                                                                                    ilk_id,
                                                                                    series_id,
                                                                                },
                                                                                p17,
                                                                            ),
                                                                        ),
                                                                    },
                                                                },
                                                            },
                                                        },
                                                    },
                                                },
                                            },
                                        },
                                    },
                                },
                            },
                        },
                    },
                },
            },
        },
    }
}

/// Sequence concatenation is associative.
proof fn lemma_seq_assoc(x: Seq<u8>, y: Seq<u8>, z: Seq<u8>)
    ensures
        (x + y) + z == x + (y + z),
{
    assert((x + y) + z =~= x + (y + z));
}

/// One vault record, written left to right, is the record's bytes.
proof fn lemma_emit_vault_chain(x: Seq<u8>, v: Vault)
    ensures
        x + seq![91u8] + spec_dec(v.vault_id as nat) + seq![44u8] + spec_enc_bool(v.is_initialized)
            + seq![44u8] + spec_enc_bool(v.is_collateralized) + seq![44u8] + spec_enc_bool(
            v.under_auction,
        ) + seq![44u8] + spec_enc_i128(v.level) + seq![44u8] + spec_dec(v.debt as nat) + seq![44u8]
            + spec_dec(v.ilk_id as nat) + seq![44u8] + spec_dec(v.series_id as nat) + seq![93u8]
            == x + spec_enc_vault(v),
{
    let a1 = seq![91u8];
    let a2 = spec_dec(v.vault_id as nat);
    let a3 = seq![44u8];
    let a4 = spec_enc_bool(v.is_initialized);
    let a5 = seq![44u8];
    let a6 = spec_enc_bool(v.is_collateralized);
    let a7 = seq![44u8];
    let a8 = spec_enc_bool(v.under_auction);
    let a9 = seq![44u8];
    let a10 = spec_enc_i128(v.level);
    let a11 = seq![44u8];
    let a12 = spec_dec(v.debt as nat);
    let a13 = seq![44u8];
    let a14 = spec_dec(v.ilk_id as nat);
    let a15 = seq![44u8];
    let a16 = spec_dec(v.series_id as nat);
    let a17 = seq![93u8];
    let u17 = a17;
    let u16 = a16 + u17;
    let u15 = a15 + u16;
    let u14 = a14 + u15;
    let u13 = a13 + u14;
    let u12 = a12 + u13;
    let u11 = a11 + u12;
    let u10 = a10 + u11;
    let u9 = a9 + u10;
    let u8 = a8 + u9;
    let u7 = a7 + u8;
    let u6 = a6 + u7;
    let u5 = a5 + u6;
    let u4 = a4 + u5;
    let u3 = a3 + u4;
    let u2 = a2 + u3;
    let u1 = a1 + u2;
    let p1 = x + a1;
    let p2 = p1 + a2;
    let p3 = p2 + a3;
    let p4 = p3 + a4;
    let p5 = p4 + a5;
    let p6 = p5 + a6;
    let p7 = p6 + a7;
    let p8 = p7 + a8;
    let p9 = p8 + a9;
    let p10 = p9 + a10;
    let p11 = p10 + a11;
    let p12 = p11 + a12;
    let p13 = p12 + a13;
    let p14 = p13 + a14;
    let p15 = p14 + a15;
    let p16 = p15 + a16;
    let p17 = p16 + a17;
    // Fold the left-to-right writes into the nested record bytes.
    lemma_seq_assoc(p15, a16, u17);
    lemma_seq_assoc(p14, a15, u16);
    lemma_seq_assoc(p13, a14, u15);
    lemma_seq_assoc(p12, a13, u14);
    lemma_seq_assoc(p11, a12, u13);
    lemma_seq_assoc(p10, a11, u12);
    lemma_seq_assoc(p9, a10, u11);
    lemma_seq_assoc(p8, a9, u10);
    lemma_seq_assoc(p7, a8, u9);
    lemma_seq_assoc(p6, a7, u8);
    lemma_seq_assoc(p5, a6, u7);
    lemma_seq_assoc(p4, a5, u6);
    lemma_seq_assoc(p3, a4, u5);
    lemma_seq_assoc(p2, a3, u4);
    lemma_seq_assoc(p1, a2, u3);
    lemma_seq_assoc(x, a1, u2);
    assert(p17 == p16 + a17);
    assert(u1 == spec_enc_vault(v));
    assert(p17 == x + u1);
}

/// Append the vault record's bytes to `out`.
pub fn emit_vault(out: &mut Vec<u8>, v: &Vault)
    ensures
        final(out)@ == old(out)@ + spec_enc_vault(*v),
{
    let ghost out0 = out@;
    out.push(91);
    emit_u128(out, v.vault_id);
    out.push(44);
    emit_bool(out, v.is_initialized);
    out.push(44);
    emit_bool(out, v.is_collateralized);
    out.push(44);
    emit_bool(out, v.under_auction);
    out.push(44);
    emit_i128(out, v.level);
    out.push(44);
    emit_u128(out, v.debt);
    out.push(44);
    emit_u128(out, v.ilk_id as u128);
    out.push(44);
    emit_u128(out, v.series_id as u128);
    out.push(93);
    proof {
        lemma_emit_vault_chain(out0, *v);
        assert(out@ =~= out0 + seq![91u8] + spec_dec(v.vault_id as nat) + seq![44u8]
            + spec_enc_bool(v.is_initialized) + seq![44u8] + spec_enc_bool(v.is_collateralized)
            + seq![44u8] + spec_enc_bool(v.under_auction) + seq![44u8] + spec_enc_i128(v.level)
            + seq![44u8] + spec_dec(v.debt as nat) + seq![44u8] + spec_dec(v.ilk_id as nat)
            + seq![44u8] + spec_dec(v.series_id as nat) + seq![93u8]);
    }
}

/// Parse the vault record at `pos`.
pub fn parse_vault(s: &Vec<u8>, pos: usize) -> (r: Option<(Vault, usize)>)
    requires
        pos <= s@.len(),
    ensures
        match r {
            Some((v, e)) => spec_parse_vault(s@, pos as int) == Option::Some((v, e as int)) && pos
                < e <= s@.len(),
            None => spec_parse_vault(s@, pos as int) is None,
        },
{
    let open = lit1(91);
    let comma = lit1(44);
    let close = lit1(93);
    let p1 = match parse_lit(s, pos, &open) {
        Some(p) => p,
        None => {
            return None;
        },
    };
    let (vault_id, p2) = match parse_u128(s, p1) {
        Some(x) => x,
        None => {
            return None;
        },
    };
    let p3 = match parse_lit(s, p2, &comma) {
        Some(p) => p,
        None => {
            return None;
        },
    };
    let (is_initialized, p4) = match parse_bool(s, p3) {
        Some(x) => x,
        None => {
            return None;
        },
    };
    let p5 = match parse_lit(s, p4, &comma) {
        Some(p) => p,
        None => {
            return None;
        },
    };
    let (is_collateralized, p6) = match parse_bool(s, p5) {
        Some(x) => x,
        None => {
            return None;
        },
    };
    let p7 = match parse_lit(s, p6, &comma) {
        Some(p) => p,
        None => {
            return None;
        },
    };
    let (under_auction, p8) = match parse_bool(s, p7) {
        Some(x) => x,
        None => {
            return None;
        },
    };
    let p9 = match parse_lit(s, p8, &comma) {
        Some(p) => p,
        None => {
            return None;
        },
    };
    let (level, p10) = match parse_i128(s, p9) {
        Some(x) => x,
        None => {
            return None;
        },
    };
    let p11 = match parse_lit(s, p10, &comma) {
        Some(p) => p,
        None => {
            return None;
        },
    };
    let (debt, p12) = match parse_u128(s, p11) {
        Some(x) => x,
        None => {
            return None;
        },
    };
    let p13 = match parse_lit(s, p12, &comma) {
        Some(p) => p,
        None => {
            return None;
        },
    };
    let (ilk_id, p14) = match parse_u64(s, p13) {
        Some(x) => x,
        None => {
            return None;
        },
    };
    let p15 = match parse_lit(s, p14, &comma) {
        Some(p) => p,
        None => {
            return None;
        },
    };
    let (series_id, p16) = match parse_u64(s, p15) {
        Some(x) => x,
        None => {
            return None;
        },
    };
    let p17 = match parse_lit(s, p16, &close) {
        Some(p) => p,
        None => {
            return None;
        },
    };
    Some(
        (
            Vault {
                vault_id,
                is_initialized,
                is_collateralized,
                under_auction,
                level,
                debt,
                ilk_id,
                series_id,
            },
            p17,
        ),
    )
}

/// Parsing right after writing a vault record reads it back.
#[verifier::rlimit(100)]
pub proof fn lemma_parse_vault_enc(s: Seq<u8>, pos: int, v: Vault)
    requires
        is_enc_at(s, pos, spec_enc_vault(v)),
    ensures
        spec_parse_vault(s, pos) == Option::Some((v, pos + spec_enc_vault(v).len())),
{
    let d_id = spec_dec(v.vault_id as nat);
    let b1 = spec_enc_bool(v.is_initialized);
    let b2 = spec_enc_bool(v.is_collateralized);
    let b3 = spec_enc_bool(v.under_auction);
    let d_lv = spec_enc_i128(v.level);
    let d_db = spec_dec(v.debt as nat);
    let d_ilk = spec_dec(v.ilk_id as nat);
    let d_sr = spec_dec(v.series_id as nat);
    lemma_enc_at_split(s, pos, seq![91u8], d_id + (seq![44u8] + (b1 + (seq![44u8] + (b2 + (
    seq![44u8] + (b3 + (seq![44u8] + (d_lv + (seq![44u8] + (d_db + (seq![44u8] + (d_ilk + (
    seq![44u8] + (d_sr + seq![93u8])))))))))))))));
    let p1 = pos + 1;
    lemma_enc_at_split(s, p1, d_id, seq![44u8] + (b1 + (seq![44u8] + (b2 + (seq![44u8] + (b3 + (
    seq![44u8] + (d_lv + (seq![44u8] + (d_db + (seq![44u8] + (d_ilk + (seq![44u8] + (d_sr
        + seq![93u8]))))))))))))));
    let p2 = p1 + d_id.len();
    lemma_enc_at_split(s, p2, seq![44u8], b1 + (seq![44u8] + (b2 + (seq![44u8] + (b3 + (seq![44u8]
        + (d_lv + (seq![44u8] + (d_db + (seq![44u8] + (d_ilk + (seq![44u8] + (d_sr
        + seq![93u8])))))))))))));
    let p3 = p2 + 1;
    lemma_enc_at_split(s, p3, b1, seq![44u8] + (b2 + (seq![44u8] + (b3 + (seq![44u8] + (d_lv + (
    seq![44u8] + (d_db + (seq![44u8] + (d_ilk + (seq![44u8] + (d_sr + seq![93u8]))))))))))));
    let p4 = p3 + b1.len();
    lemma_enc_at_split(s, p4, seq![44u8], b2 + (seq![44u8] + (b3 + (seq![44u8] + (d_lv + (
    seq![44u8] + (d_db + (seq![44u8] + (d_ilk + (seq![44u8] + (d_sr + seq![93u8])))))))))));
    let p5 = p4 + 1;
    lemma_enc_at_split(s, p5, b2, seq![44u8] + (b3 + (seq![44u8] + (d_lv + (seq![44u8] + (d_db + (
    seq![44u8] + (d_ilk + (seq![44u8] + (d_sr + seq![93u8]))))))))));
    let p6 = p5 + b2.len();
    lemma_enc_at_split(s, p6, seq![44u8], b3 + (seq![44u8] + (d_lv + (seq![44u8] + (d_db + (
    seq![44u8] + (d_ilk + (seq![44u8] + (d_sr + seq![93u8])))))))));
    let p7 = p6 + 1;
    lemma_enc_at_split(s, p7, b3, seq![44u8] + (d_lv + (seq![44u8] + (d_db + (seq![44u8] + (d_ilk
        + (seq![44u8] + (d_sr + seq![93u8]))))))));
    let p8 = p7 + b3.len();
    lemma_enc_at_split(s, p8, seq![44u8], d_lv + (seq![44u8] + (d_db + (seq![44u8] + (d_ilk + (
    seq![44u8] + (d_sr + seq![93u8])))))));
    let p9 = p8 + 1;
    lemma_enc_at_split(s, p9, d_lv, seq![44u8] + (d_db + (seq![44u8] + (d_ilk + (seq![44u8] + (d_sr
        + seq![93u8]))))));
    let p10 = p9 + d_lv.len();
    lemma_enc_at_split(s, p10, seq![44u8], d_db + (seq![44u8] + (d_ilk + (seq![44u8] + (d_sr
        + seq![93u8])))));
    let p11 = p10 + 1;
    lemma_enc_at_split(s, p11, d_db, seq![44u8] + (d_ilk + (seq![44u8] + (d_sr + seq![93u8]))));
    let p12 = p11 + d_db.len();
    lemma_enc_at_split(s, p12, seq![44u8], d_ilk + (seq![44u8] + (d_sr + seq![93u8])));
    let p13 = p12 + 1;
    lemma_enc_at_split(s, p13, d_ilk, seq![44u8] + (d_sr + seq![93u8]));
    let p14 = p13 + d_ilk.len();
    lemma_enc_at_split(s, p14, seq![44u8], d_sr + seq![93u8]);
    let p15 = p14 + 1;
    lemma_enc_at_split(s, p15, d_sr, seq![93u8]);
    let p16 = p15 + d_sr.len();
    // Each numeric field is followed by a comma or bracket, never a digit.
    assert(s[p2] == 44) by {
        assert(s.subrange(p2, p2 + 1)[0] == 44);
    }
    assert(s[p10] == 44) by {
        assert(s.subrange(p10, p10 + 1)[0] == 44);
    }
    assert(s[p12] == 44) by {
        assert(s.subrange(p12, p12 + 1)[0] == 44);
    }
    assert(s[p14] == 44) by {
        assert(s.subrange(p14, p14 + 1)[0] == 44);
    }
    assert(s[p16] == 93) by {
        assert(s.subrange(p16, p16 + 1)[0] == 93);
    }
    lemma_parse_u128_enc(s, p1, v.vault_id);
    lemma_parse_i128_enc(s, p9, v.level);
    lemma_parse_u128_enc(s, p11, v.debt);
    lemma_parse_u128_enc(s, p13, v.ilk_id as u128);
    lemma_parse_u128_enc(s, p15, v.series_id as u128);
    assert(spec_parse_lit(s, pos, seq![91u8]) == Option::Some(p1));
    assert(spec_parse_lit(s, p2, seq![44u8]) == Option::Some(p3));
    assert(spec_parse_bool(s, p3) == Option::Some((v.is_initialized, p4))) by {
        lemma_parse_bool_enc(s, p3, v.is_initialized);
    }
    assert(spec_parse_lit(s, p4, seq![44u8]) == Option::Some(p5));
    assert(spec_parse_bool(s, p5) == Option::Some((v.is_collateralized, p6))) by {
        lemma_parse_bool_enc(s, p5, v.is_collateralized);
    }
    assert(spec_parse_lit(s, p6, seq![44u8]) == Option::Some(p7));
    assert(spec_parse_bool(s, p7) == Option::Some((v.under_auction, p8))) by {
        lemma_parse_bool_enc(s, p7, v.under_auction);
    }
    assert(spec_parse_lit(s, p8, seq![44u8]) == Option::Some(p9));
    assert(spec_parse_lit(s, p10, seq![44u8]) == Option::Some(p11));
    assert(spec_parse_lit(s, p12, seq![44u8]) == Option::Some(p13));
    assert(spec_parse_lit(s, p14, seq![44u8]) == Option::Some(p15));
    assert(spec_parse_lit(s, p16, seq![93u8]) == Option::Some(p16 + 1));
    assert(spec_parse_u64(s, p13) == Option::Some((v.ilk_id, p14)));
    assert(spec_parse_u64(s, p15) == Option::Some((v.series_id, p16)));
    assert(p16 + 1 == pos + spec_enc_vault(v).len());
}

/// A written flag reads back.
pub proof fn lemma_parse_bool_enc(s: Seq<u8>, pos: int, b: bool)
    requires
        is_enc_at(s, pos, spec_enc_bool(b)),
    ensures
        spec_parse_bool(s, pos) == Option::Some((b, pos + spec_enc_bool(b).len())),
{
    if b {
        assert(spec_parse_lit(s, pos, spec_enc_bool(true)) == Option::Some(pos + 4));
    } else {
        assert(s[pos] == 102);
        assert(spec_parse_lit(s, pos, spec_enc_bool(true)) is None) by {
            if spec_parse_lit(s, pos, spec_enc_bool(true)) is Some {
                assert(s.subrange(pos, pos + 4) == spec_enc_bool(true));
                assert(s.subrange(pos, pos + 4)[0] == 116);
            }
        }
        assert(spec_parse_lit(s, pos, spec_enc_bool(false)) == Option::Some(pos + 5));
    }
}

/// The bytes of one auction-registry entry: `[id,flag]`.
pub open spec fn spec_enc_auction_entry(k: u128, b: bool) -> Seq<u8> {
    seq![91u8] + (spec_dec(k as nat) + (seq![44u8] + (spec_enc_bool(b) + seq![93u8])))
}

/// The bytes of one vault-map entry: `[id,record]`.
pub open spec fn spec_enc_vault_entry(k: u128, v: Vault) -> Seq<u8> {
    seq![91u8] + (spec_dec(k as nat) + (seq![44u8] + (spec_enc_vault(v) + seq![93u8])))
}

/// The bytes of the auction entries from `s` on, separators included, up to
/// and including the list's closing bracket.
pub open spec fn spec_enc_auction_list(s: Seq<(u128, bool)>, first: bool) -> Seq<u8>
    decreases s.len(),
{
    if s.len() == 0 {
        seq![93u8]
    } else {
        (if first {
            Seq::<u8>::empty()
        } else {
            seq![44u8]
        }) + (spec_enc_auction_entry(s[0].0, s[0].1) + spec_enc_auction_list(s.drop_first(), false))
    }
}

/// The bytes of the vault entries from `s` on, separators included, up to
/// and including the list's closing bracket.
pub open spec fn spec_enc_vault_list(s: Seq<(u128, Vault)>, first: bool) -> Seq<u8>
    decreases s.len(),
{
    if s.len() == 0 {
        seq![93u8]
    } else {
        (if first {
            Seq::<u8>::empty()
        } else {
            seq![44u8]
        }) + (spec_enc_vault_entry(s[0].0, s[0].1) + spec_enc_vault_list(s.drop_first(), false))
    }
}

/// The auction-registry entry at `pos`.
pub open spec fn spec_parse_auction_entry(s: Seq<u8>, pos: int) -> Option<((u128, bool), int)> {
    match spec_parse_lit(s, pos, seq![91u8]) {
        Option::None => Option::None,
        Option::Some(p1) => match spec_parse_u128(s, p1) {
            Option::None => Option::None,
            Option::Some((k, p2)) => match spec_parse_lit(s, p2, seq![44u8]) {
                Option::None => Option::None,
                Option::Some(p3) => match spec_parse_bool(s, p3) {
                    Option::None => Option::None,
                    Option::Some((b, p4)) => match spec_parse_lit(s, p4, seq![93u8]) {
                        Option::None => Option::None,
                        Option::Some(p5) => Option::Some(((k, b), p5)),
                    },
                },
            },
        },
    }
}

/// The vault-map entry at `pos`.
pub open spec fn spec_parse_vault_entry(s: Seq<u8>, pos: int) -> Option<((u128, Vault), int)> {
    match spec_parse_lit(s, pos, seq![91u8]) {
        Option::None => Option::None,
        Option::Some(p1) => match spec_parse_u128(s, p1) {
            Option::None => Option::None,
            Option::Some((k, p2)) => match spec_parse_lit(s, p2, seq![44u8]) {
                Option::None => Option::None,
                Option::Some(p3) => match spec_parse_vault(s, p3) {
                    Option::None => Option::None,
                    Option::Some((v, p4)) => match spec_parse_lit(s, p4, seq![93u8]) {
                        Option::None => Option::None,
                        Option::Some(p5) => Option::Some(((k, v), p5)),
                    },
                },
            },
        },
    }
}

/// The auction entries from `pos` to the list's closing bracket.
pub open spec fn spec_parse_auction_list(s: Seq<u8>, pos: int, first: bool) -> Option<
    (Seq<(u128, bool)>, int),
>
    decreases s.len() - pos,
{
    if !(0 <= pos < s.len()) {
        Option::None
    } else if s[pos] == 93 {
        Option::Some((Seq::empty(), pos + 1))
    } else if !first && s[pos] != 44 {
        Option::None
    } else {
        let p1 = if first {
            pos
        } else {
            pos + 1
        };
        match spec_parse_auction_entry(s, p1) {
            Option::None => Option::None,
            Option::Some((kv, p2)) => {
                if pos < p2 <= s.len() {
                    match spec_parse_auction_list(s, p2, false) {
                        Option::None => Option::None,
                        Option::Some((rest, p3)) => Option::Some((seq![kv] + rest, p3)),
                    }
                } else {
                    Option::None
                }
            },
        }
    }
}

/// The vault entries from `pos` to the list's closing bracket.
pub open spec fn spec_parse_vault_list(s: Seq<u8>, pos: int, first: bool) -> Option<
    (Seq<(u128, Vault)>, int),
>
    decreases s.len() - pos,
{
    if !(0 <= pos < s.len()) {
        Option::None
    } else if s[pos] == 93 {
        Option::Some((Seq::empty(), pos + 1))
    } else if !first && s[pos] != 44 {
        Option::None
    } else {
        let p1 = if first {
            pos
        } else {
            pos + 1
        };
        match spec_parse_vault_entry(s, p1) {
            Option::None => Option::None,
            Option::Some((kv, p2)) => {
                if pos < p2 <= s.len() {
                    match spec_parse_vault_list(s, p2, false) {
                        Option::None => Option::None,
                        Option::Some((rest, p3)) => Option::Some((seq![kv] + rest, p3)),
                    }
                } else {
                    Option::None
                }
            },
        }
    }
}

/// The opening bytes of the document: `{"auctions":[`.
pub open spec fn spec_lit_a() -> Seq<u8> {
    seq![123u8, 34u8, 97u8, 117u8, 99u8, 116u8, 105u8, 111u8, 110u8, 115u8, 34u8, 58u8, 91u8]
}

/// The bytes between the lists: `,"vaults":[`.
pub open spec fn spec_lit_b() -> Seq<u8> {
    seq![44u8, 34u8, 118u8, 97u8, 117u8, 108u8, 116u8, 115u8, 34u8, 58u8, 91u8]
}

/// The bytes before the block number: `,"last_block":`.
pub open spec fn spec_lit_c() -> Seq<u8> {
    seq![44u8, 34u8, 108u8, 97u8, 115u8, 116u8, 95u8, 98u8, 108u8, 111u8, 99u8, 107u8, 34u8, 58u8]
}

/// The whole document's bytes for the given entries and block.
pub open spec fn spec_enc_state(
    auctions: Seq<(u128, bool)>,
    vaults: Seq<(u128, Vault)>,
    last_block: u64,
) -> Seq<u8> {
    spec_lit_a() + (spec_enc_auction_list(auctions, true) + (spec_lit_b() + (spec_enc_vault_list(
        vaults,
        true,
    ) + (spec_lit_c() + (spec_dec(last_block as nat) + seq![125u8])))))
}

/// The whole document parsed: the two entry lists and the block number; the
/// document must span the entire buffer.
pub open spec fn spec_parse_state(s: Seq<u8>) -> Option<
    (Seq<(u128, bool)>, Seq<(u128, Vault)>, u64),
> {
    match spec_parse_lit(s, 0, spec_lit_a()) {
        Option::None => Option::None,
        Option::Some(p1) => match spec_parse_auction_list(s, p1, true) {
            Option::None => Option::None,
            Option::Some((auctions, p2)) => match spec_parse_lit(s, p2, spec_lit_b()) {
                Option::None => Option::None,
                Option::Some(p3) => match spec_parse_vault_list(s, p3, true) {
                    Option::None => Option::None,
                    Option::Some((vaults, p4)) => match spec_parse_lit(s, p4, spec_lit_c()) {
                        Option::None => Option::None,
                        Option::Some(p5) => match spec_parse_u64(s, p5) {
                            Option::None => Option::None,
                            Option::Some((last_block, p6)) => match spec_parse_lit(
                                s,
                                p6,
                                seq![125u8],
                            ) {
                                Option::None => Option::None,
                                Option::Some(p7) => {
                                    if p7 == s.len() {
                                        Option::Some((auctions, vaults, last_block))
                                    } else {
                                        Option::None
                                    }
                                },
                            },
                        },
                    },
                },
            },
        },
    }
}

/// A written auction entry reads back.
proof fn lemma_parse_auction_entry_enc(s: Seq<u8>, pos: int, k: u128, b: bool)
    requires
        is_enc_at(s, pos, spec_enc_auction_entry(k, b)),
    ensures
        spec_parse_auction_entry(s, pos) == Option::Some(
            ((k, b), pos + spec_enc_auction_entry(k, b).len()),
        ),
{
    let d_k = spec_dec(k as nat);
    let d_b = spec_enc_bool(b);
    lemma_enc_at_split(s, pos, seq![91u8], d_k + (seq![44u8] + (d_b + seq![93u8])));
    let p1 = pos + 1;
    lemma_enc_at_split(s, p1, d_k, seq![44u8] + (d_b + seq![93u8]));
    let p2 = p1 + d_k.len();
    lemma_enc_at_split(s, p2, seq![44u8], d_b + seq![93u8]);
    let p3 = p2 + 1;
    lemma_enc_at_split(s, p3, d_b, seq![93u8]);
    let p4 = p3 + d_b.len();
    assert(s[p2] == 44) by {
        assert(s.subrange(p2, p2 + 1)[0] == 44);
    }
    lemma_parse_u128_enc(s, p1, k);
    lemma_parse_bool_enc(s, p3, b);
    assert(spec_parse_lit(s, pos, seq![91u8]) == Option::Some(p1));
    assert(spec_parse_lit(s, p2, seq![44u8]) == Option::Some(p3));
    assert(spec_parse_lit(s, p4, seq![93u8]) == Option::Some(p4 + 1));
}

/// A written vault entry reads back.
proof fn lemma_parse_vault_entry_enc(s: Seq<u8>, pos: int, k: u128, v: Vault)
    requires
        is_enc_at(s, pos, spec_enc_vault_entry(k, v)),
    ensures
        spec_parse_vault_entry(s, pos) == Option::Some(
            ((k, v), pos + spec_enc_vault_entry(k, v).len()),
        ),
{
    let d_k = spec_dec(k as nat);
    let d_v = spec_enc_vault(v);
    lemma_enc_at_split(s, pos, seq![91u8], d_k + (seq![44u8] + (d_v + seq![93u8])));
    let p1 = pos + 1;
    lemma_enc_at_split(s, p1, d_k, seq![44u8] + (d_v + seq![93u8]));
    let p2 = p1 + d_k.len();
    lemma_enc_at_split(s, p2, seq![44u8], d_v + seq![93u8]);
    let p3 = p2 + 1;
    lemma_enc_at_split(s, p3, d_v, seq![93u8]);
    let p4 = p3 + d_v.len();
    assert(s[p2] == 44) by {
        assert(s.subrange(p2, p2 + 1)[0] == 44);
    }
    lemma_parse_u128_enc(s, p1, k);
    lemma_parse_vault_enc(s, p3, v);
    assert(spec_parse_lit(s, pos, seq![91u8]) == Option::Some(p1));
    assert(spec_parse_lit(s, p2, seq![44u8]) == Option::Some(p3));
    assert(spec_parse_lit(s, p4, seq![93u8]) == Option::Some(p4 + 1));
}

/// A written auction list reads back.
proof fn lemma_parse_auction_list_enc(s: Seq<u8>, pos: int, entries: Seq<(u128, bool)>, first: bool)
    requires
        is_enc_at(s, pos, spec_enc_auction_list(entries, first)),
    ensures
        spec_parse_auction_list(s, pos, first) == Option::Some(
            (entries, pos + spec_enc_auction_list(entries, first).len()),
        ),
    decreases entries.len(),
{
    let d = spec_enc_auction_list(entries, first);
    if entries.len() == 0 {
        assert(s[pos] == 93) by {
            assert(s.subrange(pos, pos + 1)[0] == 93);
        }
        assert(entries =~= Seq::<(u128, bool)>::empty());
    } else {
        let head = entries[0];
        let rest = entries.drop_first();
        let sep: Seq<u8> = if first {
            Seq::<u8>::empty()
        } else {
            seq![44u8]
        };
        let d_e = spec_enc_auction_entry(head.0, head.1);
        let d_r = spec_enc_auction_list(rest, false);
        lemma_enc_at_split(s, pos, sep, d_e + d_r);
        let p1 = pos + sep.len();
        lemma_enc_at_split(s, p1, d_e, d_r);
        let p2 = p1 + d_e.len();
        assert(s[p1] == 91) by {
            assert(s.subrange(p1, p1 + d_e.len())[0] == d_e[0]);
        }
        if first {
            assert(s[pos] == 91);
        } else {
            assert(s[pos] == 44) by {
                assert(s.subrange(pos, pos + 1)[0] == 44);
            }
        }
        lemma_parse_auction_entry_enc(s, p1, head.0, head.1);
        lemma_parse_auction_list_enc(s, p2, rest, false);
        assert(seq![head] + rest =~= entries);
    }
}

/// A written vault list reads back.
#[verifier::rlimit(100)]
proof fn lemma_parse_vault_list_enc(s: Seq<u8>, pos: int, entries: Seq<(u128, Vault)>, first: bool)
    requires
        is_enc_at(s, pos, spec_enc_vault_list(entries, first)),
    ensures
        spec_parse_vault_list(s, pos, first) == Option::Some(
            (entries, pos + spec_enc_vault_list(entries, first).len()),
        ),
    decreases entries.len(),
{
    let d = spec_enc_vault_list(entries, first);
    if entries.len() == 0 {
        assert(s[pos] == 93) by {
            assert(s.subrange(pos, pos + 1)[0] == 93);
        }
        assert(entries =~= Seq::<(u128, Vault)>::empty());
    } else {
        let head = entries[0];
        let rest = entries.drop_first();
        let sep: Seq<u8> = if first {
            Seq::<u8>::empty()
        } else {
            seq![44u8]
        };
        let d_e = spec_enc_vault_entry(head.0, head.1);
        let d_r = spec_enc_vault_list(rest, false);
        lemma_enc_at_split(s, pos, sep, d_e + d_r);
        let p1 = pos + sep.len();
        lemma_enc_at_split(s, p1, d_e, d_r);
        let p2 = p1 + d_e.len();
        assert(s[p1] == 91) by {
            assert(s.subrange(p1, p1 + d_e.len())[0] == d_e[0]);
        }
        if first {
            assert(s[pos] == 91);
        } else {
            assert(s[pos] == 44) by {
                assert(s.subrange(pos, pos + 1)[0] == 44);
            }
        }
        lemma_parse_vault_entry_enc(s, p1, head.0, head.1);
        lemma_parse_vault_list_enc(s, p2, rest, false);
        assert(seq![head] + rest =~= entries);
    }
}

/// Persistence round-trip: parsing a written document gives back exactly
/// the entry lists and block number it was written from, for every input.
pub proof fn lemma_state_round_trip(
    auctions: Seq<(u128, bool)>,
    vaults: Seq<(u128, Vault)>,
    last_block: u64,
)
    ensures
        spec_parse_state(spec_enc_state(auctions, vaults, last_block)) == Option::Some(
            (auctions, vaults, last_block),
        ),
{
    let s = spec_enc_state(auctions, vaults, last_block);
    let d_al = spec_enc_auction_list(auctions, true);
    let d_vl = spec_enc_vault_list(vaults, true);
    let d_n = spec_dec(last_block as nat);
    assert(is_enc_at(s, 0, spec_lit_a() + (d_al + (spec_lit_b() + (d_vl + (spec_lit_c() + (d_n
        + seq![125u8]))))))) by {
        assert(s.subrange(0, s.len() as int) =~= s);
    }
    lemma_enc_at_split(s, 0, spec_lit_a(), d_al + (spec_lit_b() + (d_vl + (spec_lit_c() + (d_n
        + seq![125u8])))));
    let p1 = spec_lit_a().len() as int;
    lemma_enc_at_split(s, p1, d_al, spec_lit_b() + (d_vl + (spec_lit_c() + (d_n + seq![125u8]))));
    let p2 = p1 + d_al.len();
    lemma_enc_at_split(s, p2, spec_lit_b(), d_vl + (spec_lit_c() + (d_n + seq![125u8])));
    let p3 = p2 + spec_lit_b().len();
    lemma_enc_at_split(s, p3, d_vl, spec_lit_c() + (d_n + seq![125u8]));
    let p4 = p3 + d_vl.len();
    lemma_enc_at_split(s, p4, spec_lit_c(), d_n + seq![125u8]);
    let p5 = p4 + spec_lit_c().len();
    lemma_enc_at_split(s, p5, d_n, seq![125u8]);
    let p6 = p5 + d_n.len();
    assert(s[p6] == 125) by {
        assert(s.subrange(p6, p6 + 1)[0] == 125);
    }
    lemma_parse_auction_list_enc(s, p1, auctions, true);
    lemma_parse_vault_list_enc(s, p3, vaults, true);
    lemma_parse_u128_enc(s, p5, last_block as u128);
    assert(spec_parse_u64(s, p5) == Option::Some((last_block, p6)));
    assert(spec_parse_lit(s, 0, spec_lit_a()) == Option::Some(p1));
    assert(spec_parse_lit(s, p2, spec_lit_b()) == Option::Some(p3));
    assert(spec_parse_lit(s, p4, spec_lit_c()) == Option::Some(p5));
    assert(spec_parse_lit(s, p6, seq![125u8]) == Option::Some(p6 + 1));
    assert(p6 + 1 == s.len());
}

/// Append one auction entry's bytes to `out`.
fn emit_auction_entry(out: &mut Vec<u8>, k: u128, b: bool)
    ensures
        final(out)@ == old(out)@ + spec_enc_auction_entry(k, b),
{
    let ghost out0 = out@;
    out.push(91);
    emit_u128(out, k);
    out.push(44);
    emit_bool(out, b);
    out.push(93);
    proof {
        lemma_seq_assoc(out0, seq![91u8], spec_dec(k as nat));
        assert(out@ =~= out0 + spec_enc_auction_entry(k, b));
    }
}

/// Append one vault entry's bytes to `out`.
fn emit_vault_entry(out: &mut Vec<u8>, k: u128, v: &Vault)
    ensures
        final(out)@ == old(out)@ + spec_enc_vault_entry(k, *v),
{
    let ghost out0 = out@;
    out.push(91);
    emit_u128(out, k);
    out.push(44);
    emit_vault(out, v);
    out.push(93);
    proof {
        assert(out@ =~= out0 + spec_enc_vault_entry(k, *v));
    }
}

/// Append the auction entries from `idx` on, and the closing bracket.
fn emit_auction_list(out: &mut Vec<u8>, entries: &Vec<(u128, bool)>, idx: usize, first: bool)
    requires
        idx <= entries@.len(),
    ensures
        final(out)@ == old(out)@ + spec_enc_auction_list(
            entries@.subrange(idx as int, entries@.len() as int),
            first,
        ),
    decreases entries@.len() - idx,
{
    let ghost out0 = out@;
    let ghost sub = entries@.subrange(idx as int, entries@.len() as int);
    if idx == entries.len() {
        out.push(93);
        proof {
            assert(out@ =~= out0 + spec_enc_auction_list(sub, first));
        }
    } else {
        if !first {
            out.push(44);
        }
        let (k, b) = entries[idx];
        emit_auction_entry(out, k, b);
        emit_auction_list(out, entries, idx + 1, false);
        proof {
            assert(sub[0] == (k, b));
            assert(sub.drop_first() =~= entries@.subrange(idx + 1 as int, entries@.len() as int));
            let sep: Seq<u8> = if first {
                Seq::<u8>::empty()
            } else {
                seq![44u8]
            };
            assert(out@ =~= out0 + (sep + (spec_enc_auction_entry(k, b) + spec_enc_auction_list(
                sub.drop_first(),
                false,
            ))));
        }
    }
}

/// Append the vault entries from `idx` on, and the closing bracket.
fn emit_vault_list(out: &mut Vec<u8>, entries: &Vec<(u128, Vault)>, idx: usize, first: bool)
    requires
        idx <= entries@.len(),
    ensures
        final(out)@ == old(out)@ + spec_enc_vault_list(
            entries@.subrange(idx as int, entries@.len() as int),
            first,
        ),
    decreases entries@.len() - idx,
{
    let ghost out0 = out@;
    let ghost sub = entries@.subrange(idx as int, entries@.len() as int);
    if idx == entries.len() {
        out.push(93);
        proof {
            assert(out@ =~= out0 + spec_enc_vault_list(sub, first));
        }
    } else {
        if !first {
            out.push(44);
        }
        let (k, v) = entries[idx];
        emit_vault_entry(out, k, &v);
        emit_vault_list(out, entries, idx + 1, false);
        proof {
            assert(sub[0] == (k, v));
            assert(sub.drop_first() =~= entries@.subrange(idx + 1 as int, entries@.len() as int));
            let sep: Seq<u8> = if first {
                Seq::<u8>::empty()
            } else {
                seq![44u8]
            };
            assert(out@ =~= out0 + (sep + (spec_enc_vault_entry(k, v) + spec_enc_vault_list(
                sub.drop_first(),
                false,
            ))));
        }
    }
}

/// The opening bytes of the document, as a vector.
fn lit_a() -> (r: Vec<u8>)
    ensures
        r@ == spec_lit_a(),
{
    let mut r: Vec<u8> = Vec::new();
    r.push(123);
    r.push(34);
    r.push(97);
    r.push(117);
    r.push(99);
    r.push(116);
    r.push(105);
    r.push(111);
    r.push(110);
    r.push(115);
    r.push(34);
    r.push(58);
    r.push(91);
    proof {
        assert(r@ =~= spec_lit_a());
    }
    r
}

/// The bytes between the lists, as a vector.
fn lit_b() -> (r: Vec<u8>)
    ensures
        r@ == spec_lit_b(),
{
    let mut r: Vec<u8> = Vec::new();
    r.push(44);
    r.push(34);
    r.push(118);
    r.push(97);
    r.push(117);
    r.push(108);
    r.push(116);
    r.push(115);
    r.push(34);
    r.push(58);
    r.push(91);
    proof {
        assert(r@ =~= spec_lit_b());
    }
    r
}

/// The bytes before the block number, as a vector.
fn lit_c() -> (r: Vec<u8>)
    ensures
        r@ == spec_lit_c(),
{
    let mut r: Vec<u8> = Vec::new();
    r.push(44);
    r.push(34);
    r.push(108);
    r.push(97);
    r.push(115);
    r.push(116);
    r.push(95);
    r.push(98);
    r.push(108);
    r.push(111);
    r.push(99);
    r.push(107);
    r.push(34);
    r.push(58);
    proof {
        assert(r@ =~= spec_lit_c());
    }
    r
}

/// Write the whole state as one document.  Together with `decode_state`
/// and the round-trip law this pins persistence down: decoding these bytes
/// reproduces the state's auction registry, vault map and last block.
pub fn encode_state(st: &State) -> (r: Vec<u8>)
    ensures
        r@ == spec_enc_state(st.auctions.entries@, st.vaults.entries@, st.last_block),
{
    let mut out: Vec<u8> = Vec::new();
    let a = lit_a();
    emit_bytes(&mut out, &a);
    emit_auction_list(&mut out, &st.auctions.entries, 0, true);
    let b = lit_b();
    emit_bytes(&mut out, &b);
    emit_vault_list(&mut out, &st.vaults.entries, 0, true);
    let c = lit_c();
    emit_bytes(&mut out, &c);
    emit_u128(&mut out, st.last_block as u128);
    out.push(125);
    proof {
        assert(st.auctions.entries@.subrange(0, st.auctions.entries@.len() as int)
            =~= st.auctions.entries@);
        assert(st.vaults.entries@.subrange(0, st.vaults.entries@.len() as int)
            =~= st.vaults.entries@);
        assert(out@ =~= spec_enc_state(st.auctions.entries@, st.vaults.entries@, st.last_block));
    }
    out
}

/// Parse one auction entry at `pos`.
fn parse_auction_entry(s: &Vec<u8>, pos: usize) -> (r: Option<((u128, bool), usize)>)
    requires
        pos <= s@.len(),
    ensures
        match r {
            Some((kv, e)) => spec_parse_auction_entry(s@, pos as int) == Option::Some(
                (kv, e as int),
            ) && pos < e <= s@.len(),
            None => spec_parse_auction_entry(s@, pos as int) is None,
        },
{
    let open = lit1(91);
    let comma = lit1(44);
    let close = lit1(93);
    let p1 = match parse_lit(s, pos, &open) {
        Some(p) => p,
        None => {
            return None;
        },
    };
    let (k, p2) = match parse_u128(s, p1) {
        Some(x) => x,
        None => {
            return None;
        },
    };
    let p3 = match parse_lit(s, p2, &comma) {
        Some(p) => p,
        None => {
            return None;
        },
    };
    let (b, p4) = match parse_bool(s, p3) {
        Some(x) => x,
        None => {
            return None;
        },
    };
    let p5 = match parse_lit(s, p4, &close) {
        Some(p) => p,
        None => {
            return None;
        },
    };
    Some(((k, b), p5))
}

/// Parse one vault entry at `pos`.
fn parse_vault_entry(s: &Vec<u8>, pos: usize) -> (r: Option<((u128, Vault), usize)>)
    requires
        pos <= s@.len(),
    ensures
        match r {
            Some((kv, e)) => spec_parse_vault_entry(s@, pos as int) == Option::Some(
                (kv, e as int),
            ) && pos < e <= s@.len(),
            None => spec_parse_vault_entry(s@, pos as int) is None,
        },
{
    let open = lit1(91);
    let comma = lit1(44);
    let close = lit1(93);
    let p1 = match parse_lit(s, pos, &open) {
        Some(p) => p,
        None => {
            return None;
        },
    };
    let (k, p2) = match parse_u128(s, p1) {
        Some(x) => x,
        None => {
            return None;
        },
    };
    let p3 = match parse_lit(s, p2, &comma) {
        Some(p) => p,
        None => {
            return None;
        },
    };
    let (v, p4) = match parse_vault(s, p3) {
        Some(x) => x,
        None => {
            return None;
        },
    };
    let p5 = match parse_lit(s, p4, &close) {
        Some(p) => p,
        None => {
            return None;
        },
    };
    Some(((k, v), p5))
}

/// Parse the auction entries from `pos` to the list's closing bracket.
fn parse_auction_list(s: &Vec<u8>, pos: usize, first: bool) -> (r: Option<
    (Vec<(u128, bool)>, usize),
>)
    requires
        pos <= s@.len(),
    ensures
        match r {
            Some((v, e)) => spec_parse_auction_list(s@, pos as int, first) == Option::Some(
                (v@, e as int),
            ) && pos < e <= s@.len(),
            None => spec_parse_auction_list(s@, pos as int, first) is None,
        },
    decreases s@.len() - pos,
{
    if pos >= s.len() {
        return None;
    }
    if s[pos] == 93 {
        let empty: Vec<(u128, bool)> = Vec::new();
        proof {
            assert(empty@ =~= Seq::<(u128, bool)>::empty());
        }
        return Some((empty, pos + 1));
    }
    if !first && s[pos] != 44 {
        return None;
    }
    let p1 = if first {
        pos
    } else {
        pos + 1
    };
    let (kv, p2) = match parse_auction_entry(s, p1) {
        Some(x) => x,
        None => {
            return None;
        },
    };
    let (mut rest, p3) = match parse_auction_list(s, p2, false) {
        Some(x) => x,
        None => {
            return None;
        },
    };
    let ghost rest0 = rest@;
    rest.insert(0, kv);
    proof {
        assert(rest@ =~= seq![kv] + rest0);
    }
    Some((rest, p3))
}

/// Parse the vault entries from `pos` to the list's closing bracket.
fn parse_vault_list(s: &Vec<u8>, pos: usize, first: bool) -> (r: Option<
    (Vec<(u128, Vault)>, usize),
>)
    requires
        pos <= s@.len(),
    ensures
        match r {
            Some((v, e)) => spec_parse_vault_list(s@, pos as int, first) == Option::Some(
                (v@, e as int),
            ) && pos < e <= s@.len(),
            None => spec_parse_vault_list(s@, pos as int, first) is None,
        },
    decreases s@.len() - pos,
{
    if pos >= s.len() {
        return None;
    }
    if s[pos] == 93 {
        let empty: Vec<(u128, Vault)> = Vec::new();
        proof {
            assert(empty@ =~= Seq::<(u128, Vault)>::empty());
        }
        return Some((empty, pos + 1));
    }
    if !first && s[pos] != 44 {
        return None;
    }
    let p1 = if first {
        pos
    } else {
        pos + 1
    };
    let (kv, p2) = match parse_vault_entry(s, p1) {
        Some(x) => x,
        None => {
            return None;
        },
    };
    let (mut rest, p3) = match parse_vault_list(s, p2, false) {
        Some(x) => x,
        None => {
            return None;
        },
    };
    let ghost rest0 = rest@;
    rest.insert(0, kv);
    proof {
        assert(rest@ =~= seq![kv] + rest0);
    }
    Some((rest, p3))
}

/// Whether the entry keys are strictly increasing.
fn check_entries_sorted<T>(v: &Vec<(u128, T)>) -> (r: bool)
    ensures
        r == entries_sorted(v@),
{
    let mut i: usize = 1;
    while i < v.len()
        invariant
            1 <= i,
            i <= v@.len() || v@.len() == 0,
            forall|j: int| 1 <= j < i ==> v@[j - 1].0 < #[trigger] v@[j].0,
        decreases v@.len() - i,
    {
        if v[i - 1].0 >= v[i].0 {
            proof {
                assert(!entries_sorted(v@));
            }
            return false;
        }
        i = i + 1;
    }
    proof {
        assert forall|a: int, b: int| 0 <= a < b < v@.len() implies v@[a].0 < v@[b].0 by {
            lemma_consecutive_sorted(v@, a, b);
        }
    }
    true
}

/// Consecutive ascent gives pairwise ascent.
proof fn lemma_consecutive_sorted<T>(s: Seq<(u128, T)>, a: int, b: int)
    requires
        forall|j: int| 1 <= j < s.len() ==> s[j - 1].0 < #[trigger] s[j].0,
        0 <= a < b < s.len(),
    ensures
        s[a].0 < s[b].0,
    decreases b - a,
{
    if b > a + 1 {
        lemma_consecutive_sorted(s, a, b - 1);
        assert(s[b - 1].0 < s[b].0);
    }
}

/// Read a whole document back into a state.  On success the document is
/// exactly what `encode_state` writes for the returned state, so writing
/// then reading reproduces the auction registry, the vault map and the
/// last block (the round-trip law `lemma_state_round_trip`); a document
/// whose entry lists are not in strictly ascending key order is rejected.
pub fn decode_state(s: &Vec<u8>) -> (r: Option<State>)
    ensures
        match r {
            Some(st) => {
                &&& st.wf()
                &&& spec_parse_state(s@) == Option::Some(
                    (st.auctions.entries@, st.vaults.entries@, st.last_block),
                )
            },
            None => (match spec_parse_state(s@) {
                Option::Some((a, v, _)) => !entries_sorted(a) || !entries_sorted(v),
                Option::None => true,
            }),
        },
{
    let a_lit = lit_a();
    let p1 = match parse_lit(s, 0, &a_lit) {
        Some(p) => p,
        None => {
            return None;
        },
    };
    let (auctions, p2) = match parse_auction_list(s, p1, true) {
        Some(x) => x,
        None => {
            return None;
        },
    };
    let b_lit = lit_b();
    let p3 = match parse_lit(s, p2, &b_lit) {
        Some(p) => p,
        None => {
            return None;
        },
    };
    let (vaults, p4) = match parse_vault_list(s, p3, true) {
        Some(x) => x,
        None => {
            return None;
        },
    };
    let c_lit = lit_c();
    let p5 = match parse_lit(s, p4, &c_lit) {
        Some(p) => p,
        None => {
            return None;
        },
    };
    let (last_block, p6) = match parse_u64(s, p5) {
        Some(x) => x,
        None => {
            return None;
        },
    };
    let brace = lit1(125);
    let p7 = match parse_lit(s, p6, &brace) {
        Some(p) => p,
        None => {
            return None;
        },
    };
    if p7 != s.len() {
        return None;
    }
    if !check_entries_sorted(&auctions) {
        return None;
    }
    if !check_entries_sorted(&vaults) {
        return None;
    }
    Some(
        State {
            auctions: IdMap { entries: auctions },
            vaults: IdMap { entries: vaults },
            last_block,
        },
    )
}

} // verus!
