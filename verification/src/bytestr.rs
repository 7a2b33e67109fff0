//! Byte strings read as big-endian non-negative integers: their numeric
//! value, minimality (no leading zero), lexicographic order, and verified
//! addition and subtraction returning minimal encodings.

use vstd::prelude::*;

verus! {

/// `256 ^ n`.
pub open spec fn pow256(n: nat) -> nat
    decreases n,
{
    if n == 0 {
        1
    } else {
        256 * pow256((n - 1) as nat)
    }
}

/// The value of a little-endian digit string.
pub open spec fn le_value(s: Seq<u8>) -> nat
    decreases s.len(),
{
    if s.len() == 0 {
        0
    } else {
        (s[0] + 256 * le_value(s.drop_first())) as nat
    }
}

/// The value of a big-endian digit string.
pub open spec fn be_value(s: Seq<u8>) -> nat {
    le_value(s.reverse())
}

/// A minimal big-endian encoding: one digit, or no leading zero.
pub open spec fn minimal_be(s: Seq<u8>) -> bool {
    s.len() >= 1 && (s.len() == 1 || s[0] != 0)
}

/// Strict lexicographic order on byte strings.
pub open spec fn spec_lex_lt(a: Seq<u8>, b: Seq<u8>) -> bool
    decreases a.len(),
{
    if b.len() == 0 {
        false
    } else if a.len() == 0 {
        true
    } else if a[0] < b[0] {
        true
    } else if a[0] > b[0] {
        false
    } else {
        spec_lex_lt(a.drop_first(), b.drop_first())
    }
}

/// `pow256` is positive.
pub proof fn lemma_pow256_pos(n: nat)
    ensures
        pow256(n) >= 1,
    decreases n,
{
    if n > 0 {
        lemma_pow256_pos((n - 1) as nat);
    }
}

/// Appending a digit adds its value at the next power.
pub proof fn lemma_le_value_push(s: Seq<u8>, d: u8)
    ensures
        le_value(s.push(d)) == le_value(s) + d * pow256(s.len()),
    decreases s.len(),
{
    if s.len() == 0 {
        assert(s.push(d).drop_first() =~= Seq::<u8>::empty());
        assert(s.push(d)[0] == d);
        assert(le_value(s.push(d)) == d + 256 * le_value(Seq::<u8>::empty()));
        assert(d * pow256(0) == d) by (nonlinear_arith);
    } else {
        assert(s.push(d).drop_first() =~= s.drop_first().push(d));
        lemma_le_value_push(s.drop_first(), d);
        assert(le_value(s.push(d)) == s[0] + 256 * (le_value(s.drop_first()) + d * pow256(
            (s.len() - 1) as nat,
        )));
        assert(256 * (le_value(s.drop_first()) + d * pow256((s.len() - 1) as nat)) == 256
            * le_value(s.drop_first()) + d * (256 * pow256((s.len() - 1) as nat)))
            by (nonlinear_arith);
        assert(256 * pow256((s.len() - 1) as nat) == pow256(s.len()));
    }
}

/// Every digit string's value lies below the power at its length.
pub proof fn lemma_le_value_bound(s: Seq<u8>)
    ensures
        le_value(s) < pow256(s.len()),
    decreases s.len(),
{
    if s.len() == 0 {
    } else {
        lemma_le_value_bound(s.drop_first());
        assert(256 * le_value(s.drop_first()) <= 256 * (pow256((s.len() - 1) as nat) - 1))
            by (nonlinear_arith)
            requires
                le_value(s.drop_first()) <= pow256((s.len() - 1) as nat) - 1,
        ;
    }
}

/// Dropping trailing zero digits keeps the value.
pub proof fn lemma_le_value_drop_last_zero(s: Seq<u8>)
    requires
        s.len() >= 1,
        s.last() == 0,
    ensures
        le_value(s) == le_value(s.drop_last()),
{
    assert(s =~= s.drop_last().push(0));
    lemma_le_value_push(s.drop_last(), 0);
}

/// Reverses a byte vector.
pub fn reverse_bytes(v: &Vec<u8>) -> (r: Vec<u8>)
    ensures
        r@ == v@.reverse(),
{
    let n = v.len();
    let mut r: Vec<u8> = Vec::new();
    let mut i: usize = 0;
    while i < n
        invariant
            i <= n,
            n == v@.len(),
            r@.len() == i,
            forall|k: int| 0 <= k < i ==> r@[k] == v@[n - 1 - k],
        decreases n - i,
    {
        r.push(v[n - 1 - i]);
        i = i + 1;
    }
    assert(r@ =~= v@.reverse());
    r
}

/// Compares two byte strings lexicographically.
pub fn lex_lt(a: &Vec<u8>, b: &Vec<u8>) -> (r: bool)
    ensures
        r == spec_lex_lt(a@, b@),
{
    let mut i: usize = 0;
    proof {
        assert(a@.subrange(0, a@.len() as int) =~= a@);
        assert(b@.subrange(0, b@.len() as int) =~= b@);
        assert(a@.subrange(0, 0) =~= b@.subrange(0, 0));
    }
    loop
        invariant
            i <= a@.len(),
            i <= b@.len(),
            a@.subrange(0, i as int) =~= b@.subrange(0, i as int),
            spec_lex_lt(a@, b@) == spec_lex_lt(
                a@.subrange(i as int, a@.len() as int),
                b@.subrange(i as int, b@.len() as int),
            ),
        decreases a@.len() - i,
    {
        let ghost asuf = a@.subrange(i as int, a@.len() as int);
        let ghost bsuf = b@.subrange(i as int, b@.len() as int);
        if i >= b.len() {
            assert(bsuf.len() == 0);
            return false;
        }
        if i >= a.len() {
            assert(asuf.len() == 0 && bsuf.len() > 0);
            return true;
        }
        let x = a[i];
        let y = b[i];
        assert(asuf[0] == a@[i as int] && bsuf[0] == b@[i as int]);
        if x < y {
            return true;
        }
        if x > y {
            return false;
        }
        proof {
            assert(asuf.drop_first() =~= a@.subrange(i + 1, a@.len() as int));
            assert(bsuf.drop_first() =~= b@.subrange(i + 1, b@.len() as int));
            assert(a@.subrange(0, i + 1) =~= b@.subrange(0, i + 1));
        }
        i = i + 1;
    }
}

/// Strips trailing zero digits of a little-endian string; the value is
/// kept, and the result is empty or ends in a non-zero digit.
fn strip_trailing_zeros(v: &mut Vec<u8>)
    ensures
        le_value(final(v)@) == le_value(old(v)@),
        final(v)@.len() == 0 || final(v)@.last() != 0,
{
    loop
        invariant
            le_value(v@) == le_value(old(v)@),
        decreases v@.len(),
    {
        if v.len() == 0 {
            return ;
        }
        let last = v[v.len() - 1];
        if last != 0 {
            return ;
        }
        proof {
            lemma_le_value_drop_last_zero(v@);
        }
        v.pop();
    }
}


/// Appending a least-significant digit scales the value by the base.
pub proof fn lemma_be_value_push(s: Seq<u8>, d: u8)
    ensures
        be_value(s.push(d)) == 256 * be_value(s) + d,
{
    assert(s.push(d).reverse() =~= seq![d] + s.reverse());
    let r = seq![d] + s.reverse();
    assert(r[0] == d);
    assert(r.drop_first() =~= s.reverse());
}

/// `pow256` grows with its exponent.
pub proof fn lemma_pow256_mono(a: nat, b: nat)
    requires
        a <= b,
    ensures
        pow256(a) <= pow256(b),
    decreases b,
{
    if a < b {
        lemma_pow256_mono(a, (b - 1) as nat);
        lemma_pow256_pos((b - 1) as nat);
        assert(256 * pow256((b - 1) as nat) >= pow256((b - 1) as nat)) by (nonlinear_arith)
            requires
                pow256((b - 1) as nat) >= 1,
        ;
    }
}

/// A minimal encoding of a value below `pow256(k)` has at most `k` digits.
pub proof fn lemma_minimal_len_bound(s: Seq<u8>, k: nat)
    requires
        minimal_be(s),
        be_value(s) < pow256(k),
        k >= 1,
    ensures
        s.len() <= k,
{
    if s.len() > k {
        // The leading digit is non-zero, so the value reaches the power at
        // the remaining length.
        crate::eventid::lemma_be_first_rest(s);
        assert(s[0] >= 1);
        assert(s[0] * pow256((s.len() - 1) as nat) >= pow256((s.len() - 1) as nat))
            by (nonlinear_arith)
            requires
                s[0] >= 1,
                pow256((s.len() - 1) as nat) >= 0,
        ;
        lemma_pow256_mono(k, (s.len() - 1) as nat);
        assert(false);
    }
}

/// Reads the numeric value of a short big-endian string.
pub fn be_value_u64(b: &Vec<u8>) -> (r: u64)
    requires
        b@.len() <= 8,
    ensures
        r == be_value(b@),
{
    proof {
        reveal_with_fuel(pow256, 10);
    }
    let n = b.len();
    let mut v: u64 = 0;
    let mut i: usize = 0;
    while i < n
        invariant
            i <= n,
            n == b@.len(),
            n <= 8,
            v == be_value(b@.take(i as int)),
            v < pow256(i as nat),
        decreases n - i,
    {
        proof {
            reveal_with_fuel(pow256, 10);
            assert(b@.take(i as int + 1) =~= b@.take(i as int).push(b@[i as int]));
            lemma_be_value_push(b@.take(i as int), b@[i as int]);
            lemma_pow256_mono(i as nat, 7);
            assert(pow256(7) == 0x100_0000_0000_0000);
            assert(256 * v + 255 < 256 * pow256(i as nat)) by (nonlinear_arith)
                requires
                    v < pow256(i as nat),
                    pow256(i as nat) >= 1,
            ;
            lemma_pow256_pos(i as nat);
        }
        v = v * 256 + (b[i] as u64);
        i = i + 1;
    }
    assert(b@.take(n as int) =~= b@);
    v
}

/// Adds two big-endian strings; the result is the minimal encoding of the
/// sum of their values.
pub fn be_add(a: &Vec<u8>, b: &Vec<u8>) -> (r: Vec<u8>)
    requires
        a@.len() + b@.len() < usize::MAX - 2,
    ensures
        be_value(r@) == be_value(a@) + be_value(b@),
        minimal_be(r@),
        r@.len() <= 1 + (if a@.len() >= b@.len() {
            a@.len()
        } else {
            b@.len()
        }),
{
    proof {
        lemma_add_len_bound(a@, b@);
    }
    let la = reverse_bytes(a);
    let lb = reverse_bytes(b);
    let n = if la.len() > lb.len() {
        la.len()
    } else {
        lb.len()
    };
    let mut out: Vec<u8> = Vec::new();
    let mut carry: u16 = 0;
    let mut i: usize = 0;
    while i < n
        invariant
            i <= n,
            n < usize::MAX,
            la@.len() <= n && lb@.len() <= n,
            carry <= 1,
            out@.len() == i,
            le_value(out@) + carry * pow256(i as nat) == le_value(la@.take(
                if i <= la@.len() {
                    i as int
                } else {
                    la@.len() as int
                },
            )) + le_value(lb@.take(
                if i <= lb@.len() {
                    i as int
                } else {
                    lb@.len() as int
                },
            )),
        decreases n - i,
    {
        let da: u16 = if i < la.len() {
            la[i] as u16
        } else {
            0
        };
        let db: u16 = if i < lb.len() {
            lb[i] as u16
        } else {
            0
        };
        let s: u16 = da + db + carry;
        let digit: u8 = (s % 256) as u8;
        let new_carry: u16 = s / 256;
        proof {
            let ghost ta = la@.take(
                if i <= la@.len() {
                    i as int
                } else {
                    la@.len() as int
                },
            );
            let ghost tb = lb@.take(
                if i <= lb@.len() {
                    i as int
                } else {
                    lb@.len() as int
                },
            );
            let ghost ta2 = la@.take(
                if i + 1 <= la@.len() {
                    i as int + 1
                } else {
                    la@.len() as int
                },
            );
            let ghost tb2 = lb@.take(
                if i + 1 <= lb@.len() {
                    i as int + 1
                } else {
                    lb@.len() as int
                },
            );
            if (i as int) < la@.len() {
                assert(ta2 =~= ta.push(la@[i as int]));
                lemma_le_value_push(ta, la@[i as int]);
            } else {
                assert(ta2 =~= ta);
            }
            if (i as int) < lb@.len() {
                assert(tb2 =~= tb.push(lb@[i as int]));
                lemma_le_value_push(tb, lb@[i as int]);
            } else {
                assert(tb2 =~= tb);
            }
            lemma_le_value_push(out@, digit);
            assert(s == digit + 256 * new_carry);
            lemma_pow256_pos(i as nat);
            assert(le_value(out@.push(digit)) + new_carry * pow256((i + 1) as nat) == le_value(ta2)
                + le_value(tb2)) by (nonlinear_arith)
                requires
                    le_value(out@) + carry * pow256(i as nat) == le_value(ta) + le_value(tb),
                    le_value(out@.push(digit)) == le_value(out@) + digit * pow256(i as nat),
                    le_value(ta2) == le_value(ta) + da * pow256(i as nat),
                    le_value(tb2) == le_value(tb) + db * pow256(i as nat),
                    pow256((i + 1) as nat) == 256 * pow256(i as nat),
                    s == digit + 256 * new_carry,
                    s == da + db + carry,
            ;
        }
        out.push(digit);
        carry = new_carry;
        i = i + 1;
    }
    proof {
        assert(la@.take(la@.len() as int) =~= la@);
        assert(lb@.take(lb@.len() as int) =~= lb@);
        assert(le_value(la@) == be_value(a@) && le_value(lb@) == be_value(b@));
    }
    if carry > 0 {
        proof {
            lemma_le_value_push(out@, 1);
            assert(1 * pow256(out@.len()) == pow256(out@.len())) by (nonlinear_arith);
        }
        out.push(1);
    }
    assert(le_value(out@) == be_value(a@) + be_value(b@));
    strip_trailing_zeros(&mut out);
    if out.len() == 0 {
        proof {
            assert(out@ =~= Seq::<u8>::empty());
            assert(le_value(out@) == 0);
        }
        out.push(0);
        proof {
            assert(out@ =~= seq![0u8]);
            assert(out@.drop_first() =~= Seq::<u8>::empty());
            assert(le_value(out@) == 0);
        }
    }
    let r = reverse_bytes(&out);
    proof {
        assert(out@.reverse().reverse() =~= out@);
        assert(be_value(r@) == le_value(out@));
        assert(r@[0] == out@[out@.len() - 1]);
        assert(minimal_be(r@));
        lemma_minimal_len_bound(
            r@,
            (1 + (if a@.len() >= b@.len() {
                a@.len()
            } else {
                b@.len()
            })) as nat,
        );
    }
    r
}

/// The sum of two values fits one digit more than the longer summand.
proof fn lemma_add_len_bound(a: Seq<u8>, b: Seq<u8>)
    ensures
        be_value(a) + be_value(b) < pow256((1 + (if a.len() >= b.len() {
            a.len()
        } else {
            b.len()
        })) as nat),
{
    let m: nat = if a.len() >= b.len() {
        a.len()
    } else {
        b.len()
    };
    lemma_le_value_bound(a.reverse());
    lemma_le_value_bound(b.reverse());
    assert(a.reverse().len() == a.len() && b.reverse().len() == b.len());
    lemma_pow256_mono(a.len(), m);
    lemma_pow256_mono(b.len(), m);
    assert(pow256((m + 1) as nat) == 256 * pow256(m));
    lemma_pow256_pos(m);
    assert(2 * pow256(m) <= 256 * pow256(m)) by (nonlinear_arith)
        requires
            pow256(m) >= 1,
    ;
}

/// Subtracts `b` from `a` as big-endian strings; the result is the minimal
/// encoding of the difference.
pub fn be_sub(a: &Vec<u8>, b: &Vec<u8>) -> (r: Vec<u8>)
    requires
        be_value(b@) <= be_value(a@),
    ensures
        be_value(r@) == be_value(a@) - be_value(b@),
        minimal_be(r@),
        r@.len() <= 1 + a@.len(),
{
    proof {
        lemma_le_value_bound(a@.reverse());
        assert(a@.reverse().len() == a@.len());
        lemma_pow256_mono(a@.len(), (a@.len() + 1) as nat);
        lemma_pow256_pos(a@.len());
    }
    let la = reverse_bytes(a);
    let lb = reverse_bytes(b);
    let n = la.len();
    let mut out: Vec<u8> = Vec::new();
    let mut borrow: u16 = 0;
    let mut i: usize = 0;
    while i < n
        invariant
            i <= n,
            n == la@.len(),
            borrow <= 1,
            out@.len() == i,
            le_value(out@) + le_value(lb@.take(
                if i <= lb@.len() {
                    i as int
                } else {
                    lb@.len() as int
                },
            )) == le_value(la@.take(i as int)) + borrow * pow256(i as nat),
        decreases n - i,
    {
        let da: u16 = la[i] as u16;
        let db: u16 = if i < lb.len() {
            lb[i] as u16
        } else {
            0
        };
        let (digit, new_borrow): (u8, u16) = if da >= db + borrow {
            ((da - db - borrow) as u8, 0)
        } else {
            ((256 + da - db - borrow) as u8, 1)
        };
        proof {
            let ghost ta = la@.take(i as int);
            let ghost tb = lb@.take(
                if i <= lb@.len() {
                    i as int
                } else {
                    lb@.len() as int
                },
            );
            let ghost ta2 = la@.take(i as int + 1);
            let ghost tb2 = lb@.take(
                if i + 1 <= lb@.len() {
                    i as int + 1
                } else {
                    lb@.len() as int
                },
            );
            assert(ta2 =~= ta.push(la@[i as int]));
            lemma_le_value_push(ta, la@[i as int]);
            if (i as int) < lb@.len() {
                assert(tb2 =~= tb.push(lb@[i as int]));
                lemma_le_value_push(tb, lb@[i as int]);
            } else {
                assert(tb2 =~= tb);
            }
            lemma_le_value_push(out@, digit);
            assert(digit + db + borrow == da + 256 * new_borrow);
            lemma_pow256_pos(i as nat);
            assert(le_value(out@.push(digit)) + le_value(tb2) == le_value(ta2) + new_borrow
                * pow256((i + 1) as nat)) by (nonlinear_arith)
                requires
                    le_value(out@) + le_value(tb) == le_value(ta) + borrow * pow256(i as nat),
                    le_value(out@.push(digit)) == le_value(out@) + digit * pow256(i as nat),
                    le_value(ta2) == le_value(ta) + da * pow256(i as nat),
                    le_value(tb2) == le_value(tb) + db * pow256(i as nat),
                    pow256((i + 1) as nat) == 256 * pow256(i as nat),
                    digit + db + borrow == da + 256 * new_borrow,
            ;
        }
        out.push(digit);
        borrow = new_borrow;
        i = i + 1;
    }
    proof {
        assert(la@.take(la@.len() as int) =~= la@);
        assert(le_value(la@) == be_value(a@) && le_value(lb@) == be_value(b@));
        if lb@.len() > n {
            // All of `b`'s digits beyond `a`'s length are zero, because
            // `b`'s value is bounded by `a`'s.
            lemma_le_value_bound(la@);
            lemma_le_value_small_take(lb@, n as int);
        } else {
            assert(lb@.take(lb@.len() as int) =~= lb@);
        }
        if borrow == 1 {
            lemma_le_value_bound(out@);
            lemma_pow256_pos(n as nat);
            assert(1 * pow256(n as nat) == pow256(n as nat)) by (nonlinear_arith);
            assert(false);
        }
    }
    assert(le_value(out@) == be_value(a@) - be_value(b@));
    strip_trailing_zeros(&mut out);
    if out.len() == 0 {
        proof {
            assert(out@ =~= Seq::<u8>::empty());
            assert(le_value(out@) == 0);
        }
        out.push(0);
        proof {
            assert(out@ =~= seq![0u8]);
            assert(out@.drop_first() =~= Seq::<u8>::empty());
            assert(le_value(out@) == 0);
        }
    }
    let r = reverse_bytes(&out);
    proof {
        assert(out@.reverse().reverse() =~= out@);
        assert(be_value(r@) == le_value(out@));
        assert(r@[0] == out@[out@.len() - 1]);
        assert(minimal_be(r@));
        lemma_minimal_len_bound(r@, (1 + a@.len()) as nat);
    }
    r
}

/// A little-endian string's value splits at `n` into its first `n` digits
/// plus its remaining digits shifted by `n` powers.
pub proof fn lemma_le_value_split(s: Seq<u8>, n: int)
    requires
        0 <= n <= s.len(),
    ensures
        le_value(s) == le_value(s.take(n)) + pow256(n as nat) * le_value(s.skip(n)),
    decreases n,
{
    if n == 0 {
        assert(s.take(0) =~= Seq::<u8>::empty());
        assert(s.skip(0) =~= s);
        assert(pow256(0) * le_value(s) == le_value(s)) by (nonlinear_arith);
    } else {
        let df = s.drop_first();
        lemma_le_value_split(df, n - 1);
        assert(s.take(n).drop_first() =~= df.take(n - 1));
        assert(s.skip(n) =~= df.skip(n - 1));
        assert(s.take(n)[0] == s[0]);
        assert(le_value(s.take(n)) == s[0] + 256 * le_value(df.take(n - 1)));
        assert(le_value(s) == s[0] + 256 * le_value(df));
        assert(256 * (le_value(df.take(n - 1)) + pow256((n - 1) as nat) * le_value(df.skip(n - 1)))
            == 256 * le_value(df.take(n - 1)) + (256 * pow256((n - 1) as nat)) * le_value(
            df.skip(n - 1),
        )) by (nonlinear_arith);
        assert(pow256(n as nat) == 256 * pow256((n - 1) as nat));
    }
}

/// A string worth less than `pow256(n)` has value zero beyond its first
/// `n` digits; its first `n` digits carry its whole value.
pub proof fn lemma_le_value_small_take(s: Seq<u8>, n: int)
    requires
        0 <= n <= s.len(),
        le_value(s) < pow256(n as nat),
    ensures
        le_value(s.take(n)) == le_value(s),
{
    lemma_le_value_split(s, n);
    if le_value(s.skip(n)) >= 1 {
        assert(pow256(n as nat) * le_value(s.skip(n)) >= pow256(n as nat)) by (nonlinear_arith)
            requires
                le_value(s.skip(n)) >= 1,
                pow256(n as nat) >= 1,
        ;
        lemma_pow256_pos(n as nat);
        assert(false);
    }
    assert(pow256(n as nat) * 0 == 0) by (nonlinear_arith);
}

} // verus!
