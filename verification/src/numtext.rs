//! Decimal text for integer cells: canonical formatting, parsing, and the
//! lemmas tying the two together.
//!
//! The table dialect carries integers as canonical decimal strings: an
//! optional minus sign, then digits with no leading zero, at most 18 of
//! them. Every integer the dialect admits therefore fits comfortably in
//! an `i64`, and formatting then parsing is the identity, as is parsing a
//! canonical string and formatting the value back.

use vstd::prelude::*;

verus! {

/// ASCII digit.
pub open spec fn is_digit(b: u8) -> bool {
    48 <= b <= 57
}

pub open spec fn all_digits(s: Seq<u8>) -> bool {
    forall|i: int| 0 <= i < s.len() ==> is_digit(#[trigger] s[i])
}

/// The value of a digit string, most significant digit first.
pub open spec fn digits_val(s: Seq<u8>) -> int
    decreases s.len(),
{
    if s.len() == 0 {
        0
    } else {
        digits_val(s.drop_last()) * 10 + (s.last() - 48)
    }
}

pub open spec fn pow10(n: nat) -> int
    decreases n,
{
    if n == 0 {
        1
    } else {
        10 * pow10((n - 1) as nat)
    }
}

/// A canonical digit string: non-empty, at most 18 digits, no leading zero
/// except for "0" itself.
pub open spec fn canonical_digits(s: Seq<u8>) -> bool {
    &&& s.len() >= 1
    &&& s.len() <= 18
    &&& all_digits(s)
    &&& s.len() > 1 ==> s[0] != 48
}

/// A field that the dialect reads as an integer: canonical digits, with an
/// optional leading minus sign on a non-zero value.
pub open spec fn is_int_field(s: Seq<u8>) -> bool {
    if s.len() >= 1 && s[0] == 45 {
        canonical_digits(s.skip(1)) && digits_val(s.skip(1)) > 0
    } else {
        canonical_digits(s)
    }
}

/// The integer an int-shaped field denotes.
pub open spec fn int_field_val(s: Seq<u8>) -> int {
    if s.len() >= 1 && s[0] == 45 {
        -digits_val(s.skip(1))
    } else {
        digits_val(s)
    }
}

/// The canonical digit string of a non-negative value.
pub open spec fn nat_repr(v: nat) -> Seq<u8>
    decreases v,
{
    if v < 10 {
        seq![(48 + v) as u8]
    } else {
        nat_repr(v / 10).push((48 + v % 10) as u8)
    }
}

/// The canonical field of an integer value.
pub open spec fn int_repr(v: int) -> Seq<u8> {
    if v < 0 {
        seq![45u8] + nat_repr((-v) as nat)
    } else {
        nat_repr(v as nat)
    }
}

pub proof fn lemma_pow10_pos(n: nat)
    ensures
        pow10(n) >= 1,
    decreases n,
{
    if n > 0 {
        lemma_pow10_pos((n - 1) as nat);
    }
}

pub proof fn lemma_pow10_mono(a: nat, b: nat)
    requires
        a <= b,
    ensures
        pow10(a) <= pow10(b),
    decreases b,
{
    if a < b {
        lemma_pow10_mono(a, (b - 1) as nat);
        lemma_pow10_pos((b - 1) as nat);
    }
}

/// The concrete values the executable code compares against.
pub proof fn lemma_pow10_values()
    ensures
        pow10(17) == 100_000_000_000_000_000,
        pow10(18) == 1_000_000_000_000_000_000,
{
    reveal_with_fuel(pow10, 20);
}

pub proof fn lemma_digits_val_bounds(s: Seq<u8>)
    requires
        all_digits(s),
    ensures
        0 <= digits_val(s) < pow10(s.len() as nat),
    decreases s.len(),
{
    if s.len() > 0 {
        let p = s.drop_last();
        assert(all_digits(p));
        lemma_digits_val_bounds(p);
    }
}

/// Formatting a non-negative value gives canonical digits denoting it.
pub proof fn lemma_nat_repr_ok(v: nat)
    ensures
        all_digits(nat_repr(v)),
        digits_val(nat_repr(v)) == v,
        nat_repr(v).len() >= 1,
        v >= 1 ==> nat_repr(v)[0] != 48,
        nat_repr(v).len() > 1 ==> nat_repr(v)[0] != 48,
    decreases v,
{
    if v < 10 {
        let r = nat_repr(v);
        assert(r == seq![(48 + v) as u8]);
        assert(r.drop_last().len() == 0);
        assert(digits_val(r.drop_last()) == 0);
        assert(r.last() == (48 + v) as u8);
        assert(((48 + v) as u8) as int == 48 + v);
        assert(digits_val(r) == v);
    } else {
        lemma_nat_repr_ok(v / 10);
        let p = nat_repr(v / 10);
        let r = nat_repr(v);
        assert(r == p.push((48 + v % 10) as u8));
        assert(r.drop_last() =~= p);
        assert(r.last() == (48 + v % 10) as u8);
        assert(0 <= v % 10 < 10);
        assert(((48 + v % 10) as u8) as int == 48 + (v % 10));
        assert(digits_val(r) == digits_val(p) * 10 + (v % 10));
        assert(v == (v / 10) * 10 + v % 10);
        assert(digits_val(r) == (v / 10) * 10 + (v % 10));
        assert(v / 10 >= 1);
        assert(r[0] == p[0]);
        assert(all_digits(r)) by {
            assert(forall|i: int| 0 <= i < p.len() ==> r[i] == p[i]);
        }
    }
}

/// A value below `pow10(n)` formats into at most `n` digits.
pub proof fn lemma_nat_repr_len(v: nat, n: nat)
    requires
        v < pow10(n),
        n >= 1,
    ensures
        nat_repr(v).len() <= n,
    decreases v,
{
    if v < 10 {
    } else {
        let p = pow10((n - 1) as nat);
        assert(pow10(n) == 10 * p);
        if n == 1 {
            lemma_pow10_pos(0);
            assert(false);
        }
        assert(v == 10 * (v / 10) + v % 10);
        assert(0 <= v % 10 < 10);
        if v / 10 >= p {
            assert(10 * (v / 10) >= 10 * p);
            assert(false);
        }
        lemma_nat_repr_len(v / 10, (n - 1) as nat);
    }
}

/// Formatting any value the dialect admits gives an int-shaped field that
/// parses back to the value.
pub proof fn lemma_int_repr_ok(v: int)
    requires
        -pow10(18) < v < pow10(18),
    ensures
        is_int_field(int_repr(v)),
        int_field_val(int_repr(v)) == v,
        int_repr(v).len() >= 1,
{
    if v >= 0 {
        lemma_nat_repr_ok(v as nat);
        lemma_nat_repr_len(v as nat, 18);
        assert(int_repr(v)[0] >= 48);
    } else {
        let m = (-v) as nat;
        lemma_nat_repr_ok(m);
        lemma_nat_repr_len(m, 18);
        let s = int_repr(v);
        assert(s == seq![45u8] + nat_repr(m));
        assert(s[0] == 45);
        assert(s.skip(1) =~= nat_repr(m));
    }
}

/// The value of an int-shaped field lies strictly within the dialect's
/// 18-digit range.
pub proof fn lemma_int_field_range(s: Seq<u8>)
    requires
        is_int_field(s),
    ensures
        -pow10(18) < int_field_val(s) < pow10(18),
{
    if s.len() >= 1 && s[0] == 45 {
        let d = s.skip(1);
        lemma_digits_val_bounds(d);
        lemma_pow10_mono(d.len() as nat, 18);
        lemma_pow10_pos(18);
    } else {
        lemma_digits_val_bounds(s);
        lemma_pow10_mono(s.len() as nat, 18);
        lemma_pow10_pos(18);
    }
}

/// Every byte of an int-shaped field is a digit or a leading minus: such a
/// field never holds a separator byte.
pub proof fn lemma_int_field_bytes(s: Seq<u8>)
    requires
        is_int_field(s),
    ensures
        forall|i: int| 0 <= i < s.len() ==> (is_digit(#[trigger] s[i]) || s[i] == 45),
{
    if s.len() >= 1 && s[0] == 45 {
        assert(forall|i: int| 1 <= i < s.len() ==> s[i] == s.skip(1)[i - 1]);
    }
}

/// Appends the canonical digits of `m`.
fn push_nat_digits(out: &mut Vec<u8>, m: u64)
    ensures
        final(out)@ == old(out)@ + nat_repr(m as nat),
    decreases m,
{
    if m < 10 {
        out.push(48 + m as u8);
        proof {
            assert(out@ =~= old(out)@ + nat_repr(m as nat));
        }
    } else {
        push_nat_digits(out, m / 10);
        out.push(48 + (m % 10) as u8);
        proof {
            assert(out@ =~= old(out)@ + nat_repr(m as nat));
        }
    }
}

/// Formats an integer as its canonical decimal field.
pub fn fmt_i64(v: i64) -> (r: Vec<u8>)
    requires
        -pow10(18) < v < pow10(18),
    ensures
        r@ == int_repr(v as int),
{
    let mut out: Vec<u8> = Vec::new();
    if v < 0 {
        out.push(45);
        let mag: u64 = ((-(v + 1)) as u64) + 1;
        proof {
            assert(mag as int == -(v as int));
        }
        push_nat_digits(&mut out, mag);
        proof {
            assert(out@ =~= seq![45u8] + nat_repr(mag as nat));
        }
    } else {
        push_nat_digits(&mut out, v as u64);
        proof {
            assert(out@ =~= nat_repr(v as nat));
        }
    }
    out
}

/// Parses a field as an integer of the dialect. Returns `Some` exactly on
/// int-shaped fields, with the value they denote.
pub fn scan_int_field(s: &Vec<u8>) -> (r: Option<i64>)
    ensures
        r is Some <==> is_int_field(s@),
        r matches Some(v) ==> v as int == int_field_val(s@),
{
    proof {
        lemma_pow10_values();
    }
    let n = s.len();
    if n == 0 {
        return None;
    }
    let neg = s[0] == 45;
    let start: usize = if neg { 1 } else { 0 };
    let ghost digits: Seq<u8> = if neg { s@.skip(1) } else { s@ };
    proof {
        if neg {
            assert(digits =~= s@.subrange(1, n as int));
        }
        assert(digits.len() == n - start);
        assert(forall|j: int| 0 <= j < digits.len() ==> digits[j] == s@[j + start]);
    }
    if n - start == 0 {
        return None;
    }
    if n - start > 18 {
        return None;
    }
    if s[start] == 48 && n - start > 1 {
        proof {
            assert(digits[0] == 48);
        }
        return None;
    }
    let mut acc: u64 = 0;
    let mut i: usize = start;
    #[verifier::loop_isolation(false)]
    while i < n
        invariant
            start <= i <= n,
            forall|j: int| 0 <= j < i - start ==> is_digit(#[trigger] digits[j]),
            acc == digits_val(digits.take(i - start)),
            acc < pow10((i - start) as nat),
        decreases n - i,
    {
        let b = s[i];
        if b < 48 || b > 57 {
            proof {
                assert(!is_digit(digits[i - start]));
            }
            return None;
        }
        proof {
            let k = i - start;
            assert(digits.take(k + 1).drop_last() =~= digits.take(k as int));
            assert(digits.take(k + 1).last() == digits[k as int]);
            assert(pow10(((i - start) + 1) as nat) == 10 * pow10((i - start) as nat));
            lemma_pow10_mono((i + 1 - start) as nat, 18);
        }
        acc = acc * 10 + ((b - 48) as u64);
        i = i + 1;
    }
    proof {
        assert(digits.take(n - start) =~= digits);
        assert(all_digits(digits));
        assert(canonical_digits(digits));
        lemma_digits_val_bounds(digits);
        lemma_pow10_mono(digits.len() as nat, 18);
    }
    if neg {
        if acc == 0 {
            return None;
        }
        Some(-(acc as i64))
    } else {
        Some(acc as i64)
    }
}

} // verus!
