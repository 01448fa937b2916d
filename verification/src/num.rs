//! The runtime number domain: fixed-point decimal values with six
//! fractional digits, together with signed infinities and a not-a-number
//! value. A finite number is `mag / SCALE`, negated when `neg` is set.
//! Division by zero yields an infinity (or NaN for `0 / 0`), and results
//! whose magnitude exceeds `MAG_MAX` saturate to an infinity, so no
//! arithmetic operation can fail.

use vstd::prelude::*;

verus! {

/// Scale of the fixed-point representation: a finite number holds the
/// value `mag / SCALE`.
pub const SCALE: u128 = 1_000_000;

/// Largest magnitude a finite number may hold (`10^19 - 1`), chosen so
/// that the product of two magnitudes still fits in `u128`.
pub const MAG_MAX: u128 = 9_999_999_999_999_999_999;

/// Largest integer part a number literal may have (`MAG_MAX / SCALE`).
pub const INT_LIMIT: u128 = 9_999_999_999_999;

/// A runtime number: a signed fixed-point decimal, an infinity, or NaN.
#[derive(Clone, Copy, Debug, PartialEq, Eq, Structural)]
pub enum Num {
    Finite { neg: bool, mag: u128 },
    PosInf,
    NegInf,
    NaN,
}

impl Num {
    /// Well-formedness: the magnitude is in range and zero is never
    /// negative, so every value has one canonical representation.
    pub open spec fn wf(self) -> bool {
        self matches Num::Finite { neg, mag } ==> mag <= MAG_MAX && (mag == 0 ==> !neg)
    }

    /// The signed scaled value of a finite number.
    pub open spec fn as_int(self) -> int
        recommends
            self is Finite,
    {
        if self->neg {
            -(self->mag as int)
        } else {
            self->mag as int
        }
    }
}

/// The canonical finite number of the given sign and magnitude: zero
/// loses its sign, and a magnitude beyond `MAG_MAX` saturates to the
/// infinity of that sign.
pub open spec fn fin(neg: bool, mag: nat) -> Num {
    if mag > MAG_MAX {
        if neg {
            Num::NegInf
        } else {
            Num::PosInf
        }
    } else if mag == 0 {
        Num::Finite { neg: false, mag: 0 }
    } else {
        Num::Finite { neg, mag: mag as u128 }
    }
}

/// The sign used by multiplication and division: infinities carry their
/// sign, finite numbers their `neg` flag.
pub open spec fn sign_of(a: Num) -> bool
    recommends
        a !is NaN,
{
    match a {
        Num::Finite { neg, mag: _ } => neg,
        Num::PosInf => false,
        Num::NegInf => true,
        Num::NaN => false,
    }
}

/// Negation: flips the sign; NaN stays NaN.
pub open spec fn spec_neg(a: Num) -> Num {
    match a {
        Num::Finite { neg, mag } => fin(!neg, mag as nat),
        Num::PosInf => Num::NegInf,
        Num::NegInf => Num::PosInf,
        Num::NaN => Num::NaN,
    }
}

/// Addition: NaN is absorbing, opposite infinities give NaN, an infinity
/// absorbs any finite number, and finite numbers add exactly.
pub open spec fn spec_add(a: Num, b: Num) -> Num {
    if a is NaN || b is NaN {
        Num::NaN
    } else if a is PosInf {
        if b is NegInf {
            Num::NaN
        } else {
            Num::PosInf
        }
    } else if a is NegInf {
        if b is PosInf {
            Num::NaN
        } else {
            Num::NegInf
        }
    } else if b is PosInf {
        Num::PosInf
    } else if b is NegInf {
        Num::NegInf
    } else {
        let na = a->neg;
        let ma = a->mag;
        let nb = b->neg;
        let mb = b->mag;
        if na == nb {
            fin(na, (ma + mb) as nat)
        } else if ma >= mb {
            fin(na, (ma - mb) as nat)
        } else {
            fin(nb, (mb - ma) as nat)
        }
    }
}

/// Subtraction is addition of the negation.
pub open spec fn spec_sub(a: Num, b: Num) -> Num {
    spec_add(a, spec_neg(b))
}

/// Multiplication: NaN is absorbing, an infinity times zero is NaN, any
/// other product with an infinity is an infinity of the combined sign,
/// and finite products truncate toward zero at the sixth fractional digit.
pub open spec fn spec_mul(a: Num, b: Num) -> Num {
    if a is NaN || b is NaN {
        Num::NaN
    } else if a is PosInf || a is NegInf {
        if b matches Num::Finite { neg: _, mag } && mag == 0 {
            Num::NaN
        } else if sign_of(a) != sign_of(b) {
            Num::NegInf
        } else {
            Num::PosInf
        }
    } else if b is PosInf || b is NegInf {
        if a->mag == 0 {
            Num::NaN
        } else if sign_of(a) != sign_of(b) {
            Num::NegInf
        } else {
            Num::PosInf
        }
    } else {
        fin(a->neg != b->neg, ((a->mag * b->mag) / (SCALE as int)) as nat)
    }
}

/// Division: NaN is absorbing, `0 / 0` and `inf / inf` are NaN, division
/// of a nonzero number by zero is an infinity of the dividend's sign,
/// division by an infinity is zero, and finite quotients truncate toward
/// zero at the sixth fractional digit.
pub open spec fn spec_div(a: Num, b: Num) -> Num {
    if a is NaN || b is NaN {
        Num::NaN
    } else if a is PosInf || a is NegInf {
        if b is PosInf || b is NegInf {
            Num::NaN
        } else if sign_of(a) != sign_of(b) {
            Num::NegInf
        } else {
            Num::PosInf
        }
    } else if b is PosInf || b is NegInf {
        Num::Finite { neg: false, mag: 0 }
    } else if b->mag == 0 {
        if a->mag == 0 {
            Num::NaN
        } else if a->neg {
            Num::NegInf
        } else {
            Num::PosInf
        }
    } else {
        fin(a->neg != b->neg, ((a->mag * SCALE) / (b->mag as int)) as nat)
    }
}

/// Language equality on numbers: NaN equals nothing; otherwise canonical
/// representations coincide exactly when the values do.
pub open spec fn spec_num_eq(a: Num, b: Num) -> bool {
    if a is NaN || b is NaN {
        false
    } else {
        a == b
    }
}

/// Strict order: NaN compares false with everything; `NegInf` is below
/// every other value, `PosInf` above, and finite numbers compare by
/// signed value.
pub open spec fn spec_num_lt(a: Num, b: Num) -> bool {
    if a is NaN || b is NaN {
        false
    } else if a is NegInf {
        !(b is NegInf)
    } else if a is PosInf {
        false
    } else if b is NegInf {
        false
    } else if b is PosInf {
        true
    } else {
        a.as_int() < b.as_int()
    }
}

pub open spec fn spec_num_le(a: Num, b: Num) -> bool {
    spec_num_lt(a, b) || spec_num_eq(a, b)
}

impl Num {
    pub fn neg_val(self) -> (r: Num)
        requires
            self.wf(),
        ensures
            r == spec_neg(self),
            r.wf(),
    {
        match self {
            Num::Finite { neg, mag } => {
                if mag == 0 {
                    Num::Finite { neg: false, mag: 0 }
                } else {
                    Num::Finite { neg: !neg, mag }
                }
            },
            Num::PosInf => Num::NegInf,
            Num::NegInf => Num::PosInf,
            Num::NaN => Num::NaN,
        }
    }

    pub fn add(self, other: Num) -> (r: Num)
        requires
            self.wf(),
            other.wf(),
        ensures
            r == spec_add(self, other),
            r.wf(),
    {
        match (self, other) {
            (Num::NaN, _) => Num::NaN,
            (_, Num::NaN) => Num::NaN,
            (Num::PosInf, Num::NegInf) => Num::NaN,
            (Num::PosInf, _) => Num::PosInf,
            (Num::NegInf, Num::PosInf) => Num::NaN,
            (Num::NegInf, _) => Num::NegInf,
            (_, Num::PosInf) => Num::PosInf,
            (_, Num::NegInf) => Num::NegInf,
            (Num::Finite { neg: na, mag: ma }, Num::Finite { neg: nb, mag: mb }) => {
                if na == nb {
                    let m = ma + mb;
                    if m > MAG_MAX {
                        if na {
                            Num::NegInf
                        } else {
                            Num::PosInf
                        }
                    } else if m == 0 {
                        Num::Finite { neg: false, mag: 0 }
                    } else {
                        Num::Finite { neg: na, mag: m }
                    }
                } else if ma >= mb {
                    let m = ma - mb;
                    if m == 0 {
                        Num::Finite { neg: false, mag: 0 }
                    } else {
                        Num::Finite { neg: na, mag: m }
                    }
                } else {
                    Num::Finite { neg: nb, mag: mb - ma }
                }
            },
        }
    }

    pub fn sub(self, other: Num) -> (r: Num)
        requires
            self.wf(),
            other.wf(),
        ensures
            r == spec_sub(self, other),
            r.wf(),
    {
        self.add(other.neg_val())
    }

    pub fn mul(self, other: Num) -> (r: Num)
        requires
            self.wf(),
            other.wf(),
        ensures
            r == spec_mul(self, other),
            r.wf(),
    {
        match (self, other) {
            (Num::NaN, _) => Num::NaN,
            (_, Num::NaN) => Num::NaN,
            (Num::Finite { neg: na, mag: ma }, Num::Finite { neg: nb, mag: mb }) => {
                proof {
                    assert(ma * mb <= MAG_MAX * MAG_MAX) by (nonlinear_arith)
                        requires ma <= MAG_MAX, mb <= MAG_MAX;
                }
                let p = (ma * mb) / SCALE;
                if p > MAG_MAX {
                    if na != nb {
                        Num::NegInf
                    } else {
                        Num::PosInf
                    }
                } else if p == 0 {
                    Num::Finite { neg: false, mag: 0 }
                } else {
                    Num::Finite { neg: na != nb, mag: p }
                }
            },
            (a, b) => {
                // At least one operand is an infinity.
                let zero_operand = match (a, b) {
                    (_, Num::Finite { neg: _, mag }) => mag == 0,
                    (Num::Finite { neg: _, mag }, _) => mag == 0,
                    _ => false,
                };
                if zero_operand {
                    Num::NaN
                } else {
                    let sa = match a {
                        Num::Finite { neg, mag: _ } => neg,
                        Num::NegInf => true,
                        _ => false,
                    };
                    let sb = match b {
                        Num::Finite { neg, mag: _ } => neg,
                        Num::NegInf => true,
                        _ => false,
                    };
                    if sa != sb {
                        Num::NegInf
                    } else {
                        Num::PosInf
                    }
                }
            },
        }
    }

    pub fn div(self, other: Num) -> (r: Num)
        requires
            self.wf(),
            other.wf(),
        ensures
            r == spec_div(self, other),
            r.wf(),
    {
        match (self, other) {
            (Num::NaN, _) => Num::NaN,
            (_, Num::NaN) => Num::NaN,
            (Num::Finite { neg: na, mag: ma }, Num::Finite { neg: nb, mag: mb }) => {
                if mb == 0 {
                    if ma == 0 {
                        Num::NaN
                    } else if na {
                        Num::NegInf
                    } else {
                        Num::PosInf
                    }
                } else {
                    proof {
                        assert(ma * SCALE <= MAG_MAX * SCALE) by (nonlinear_arith)
                            requires ma <= MAG_MAX;
                    }
                    let q = (ma * SCALE) / mb;
                    if q > MAG_MAX {
                        if na != nb {
                            Num::NegInf
                        } else {
                            Num::PosInf
                        }
                    } else if q == 0 {
                        Num::Finite { neg: false, mag: 0 }
                    } else {
                        Num::Finite { neg: na != nb, mag: q }
                    }
                }
            },
            (a, Num::Finite { neg: nb, mag: _ }) => {
                // Infinity divided by a finite number.
                let sa = a matches Num::NegInf;
                if sa != nb {
                    Num::NegInf
                } else {
                    Num::PosInf
                }
            },
            (Num::Finite { neg: _, mag: _ }, _) => Num::Finite { neg: false, mag: 0 },
            (_, _) => Num::NaN,
        }
    }

    pub fn eq_val(self, other: Num) -> (r: bool)
        requires
            self.wf(),
            other.wf(),
        ensures
            r == spec_num_eq(self, other),
    {
        match (self, other) {
            (Num::NaN, _) => false,
            (_, Num::NaN) => false,
            (Num::PosInf, Num::PosInf) => true,
            (Num::NegInf, Num::NegInf) => true,
            (Num::Finite { neg: na, mag: ma }, Num::Finite { neg: nb, mag: mb }) => na == nb
                && ma == mb,
            _ => false,
        }
    }

    pub fn lt_val(self, other: Num) -> (r: bool)
        requires
            self.wf(),
            other.wf(),
        ensures
            r == spec_num_lt(self, other),
    {
        match (self, other) {
            (Num::NaN, _) => false,
            (_, Num::NaN) => false,
            (Num::NegInf, Num::NegInf) => false,
            (Num::NegInf, _) => true,
            (Num::PosInf, _) => false,
            (_, Num::NegInf) => false,
            (_, Num::PosInf) => true,
            (Num::Finite { neg: na, mag: ma }, Num::Finite { neg: nb, mag: mb }) => {
                if na && !nb {
                    true
                } else if !na && nb {
                    false
                } else if !na {
                    ma < mb
                } else {
                    mb < ma
                }
            },
        }
    }

    pub fn le_val(self, other: Num) -> (r: bool)
        requires
            self.wf(),
            other.wf(),
        ensures
            r == spec_num_le(self, other),
    {
        self.lt_val(other) || self.eq_val(other)
    }
}

/// The character for one decimal digit.
pub open spec fn digit_char(d: nat) -> char {
    if d == 0 {
        '0'
    } else if d == 1 {
        '1'
    } else if d == 2 {
        '2'
    } else if d == 3 {
        '3'
    } else if d == 4 {
        '4'
    } else if d == 5 {
        '5'
    } else if d == 6 {
        '6'
    } else if d == 7 {
        '7'
    } else if d == 8 {
        '8'
    } else {
        '9'
    }
}

/// The decimal digits of `n`, most significant first, with no leading
/// zeros (a single `0` for zero).
pub open spec fn dec_digits(n: nat) -> Seq<char>
    decreases n,
{
    if n < 10 {
        seq![digit_char(n)]
    } else {
        dec_digits(n / 10).push(digit_char(n % 10))
    }
}

/// Exactly `k` decimal digits of `f`, zero-padded on the left.
pub open spec fn pad_digits(f: nat, k: nat) -> Seq<char>
    decreases k,
{
    if k == 0 {
        Seq::<char>::empty()
    } else {
        pad_digits(f / 10, (k - 1) as nat).push(digit_char(f % 10))
    }
}

/// The `k` digits of a fractional part `f`, with trailing zeros removed;
/// a fractional part of all zeros renders as nothing.
pub open spec fn frac_text(f: nat, k: nat) -> Seq<char>
    decreases k,
{
    if k == 0 {
        Seq::<char>::empty()
    } else if f % 10 == 0 {
        frac_text(f / 10, (k - 1) as nat)
    } else {
        pad_digits(f, k)
    }
}

/// `10^k`.
pub open spec fn pow10(k: nat) -> nat
    decreases k,
{
    if k == 0 {
        1
    } else {
        10 * pow10((k - 1) as nat)
    }
}

/// The canonical text of a number: a minus sign for negative values, the
/// integer part in decimal, and, when the fractional part is nonzero, a
/// dot followed by its digits with trailing zeros removed. The special
/// values render as `inf`, `-inf` and `NaN`.
pub open spec fn num_text(a: Num) -> Seq<char> {
    match a {
        Num::Finite { neg, mag } => {
            let sign = if neg {
                seq!['-']
            } else {
                Seq::<char>::empty()
            };
            let ip = dec_digits((mag / SCALE) as nat);
            let f = (mag % SCALE) as nat;
            if f == 0 {
                sign + ip
            } else {
                sign + ip + seq!['.'] + frac_text(f, 6)
            }
        },
        Num::PosInf => seq!['i', 'n', 'f'],
        Num::NegInf => seq!['-', 'i', 'n', 'f'],
        Num::NaN => seq!['N', 'a', 'N'],
    }
}

/// Appends the character of one decimal digit to `s`.
fn push_digit(s: &mut String, d: u128)
    requires
        d < 10,
    ensures
        final(s)@ == old(s)@ + seq![digit_char(d as nat)],
{
    if d == 0 {
        s.append("0");
        proof {
            reveal_strlit("0");
            assert(old(s)@ + "0"@ =~= old(s)@ + seq![digit_char(d as nat)]);
        }
    } else if d == 1 {
        s.append("1");
        proof {
            reveal_strlit("1");
            assert(old(s)@ + "1"@ =~= old(s)@ + seq![digit_char(d as nat)]);
        }
    } else if d == 2 {
        s.append("2");
        proof {
            reveal_strlit("2");
            assert(old(s)@ + "2"@ =~= old(s)@ + seq![digit_char(d as nat)]);
        }
    } else if d == 3 {
        s.append("3");
        proof {
            reveal_strlit("3");
            assert(old(s)@ + "3"@ =~= old(s)@ + seq![digit_char(d as nat)]);
        }
    } else if d == 4 {
        s.append("4");
        proof {
            reveal_strlit("4");
            assert(old(s)@ + "4"@ =~= old(s)@ + seq![digit_char(d as nat)]);
        }
    } else if d == 5 {
        s.append("5");
        proof {
            reveal_strlit("5");
            assert(old(s)@ + "5"@ =~= old(s)@ + seq![digit_char(d as nat)]);
        }
    } else if d == 6 {
        s.append("6");
        proof {
            reveal_strlit("6");
            assert(old(s)@ + "6"@ =~= old(s)@ + seq![digit_char(d as nat)]);
        }
    } else if d == 7 {
        s.append("7");
        proof {
            reveal_strlit("7");
            assert(old(s)@ + "7"@ =~= old(s)@ + seq![digit_char(d as nat)]);
        }
    } else if d == 8 {
        s.append("8");
        proof {
            reveal_strlit("8");
            assert(old(s)@ + "8"@ =~= old(s)@ + seq![digit_char(d as nat)]);
        }
    } else {
        s.append("9");
        proof {
            reveal_strlit("9");
            assert(old(s)@ + "9"@ =~= old(s)@ + seq![digit_char(d as nat)]);
        }
    }
}

/// Appends the decimal digits of `n` to `s`.
pub fn push_dec(s: &mut String, n: u128)
    ensures
        final(s)@ == old(s)@ + dec_digits(n as nat),
    decreases n,
{
    if n < 10 {
        push_digit(s, n);
    } else {
        push_dec(s, n / 10);
        push_digit(s, n % 10);
        proof {
            assert(old(s)@ + dec_digits((n / 10) as nat) + seq![digit_char((n % 10) as nat)]
                =~= old(s)@ + dec_digits(n as nat));
        }
    }
}

/// Appends exactly `k` zero-padded digits of `f` to `s`.
fn push_padded(s: &mut String, f: u128, k: u32)
    ensures
        final(s)@ == old(s)@ + pad_digits(f as nat, k as nat),
    decreases k,
{
    if k == 0 {
        proof {
            assert(old(s)@ + pad_digits(f as nat, 0) =~= old(s)@);
        }
    } else {
        push_padded(s, f / 10, k - 1);
        push_digit(s, f % 10);
        proof {
            assert(old(s)@ + pad_digits((f / 10) as nat, (k - 1) as nat) + seq![
                digit_char((f % 10) as nat)
            ] =~= old(s)@ + pad_digits(f as nat, k as nat));
        }
    }
}

impl Num {
    /// The canonical text form of this number.
    pub fn to_text(&self) -> (r: String)
        requires
            self.wf(),
        ensures
            r@ == num_text(*self),
    {
        match self {
            Num::NaN => {
                let r = String::from_str("NaN");
                proof {
                    reveal_strlit("NaN");
                    assert(r@ =~= num_text(Num::NaN));
                }
                r
            },
            Num::PosInf => {
                let r = String::from_str("inf");
                proof {
                    reveal_strlit("inf");
                    assert(r@ =~= num_text(Num::PosInf));
                }
                r
            },
            Num::NegInf => {
                let r = String::from_str("-inf");
                proof {
                    reveal_strlit("-inf");
                    assert(r@ =~= num_text(Num::NegInf));
                }
                r
            },
            Num::Finite { neg, mag } => {
                let mut s = String::new();
                if *neg {
                    s.append("-");
                    proof {
                        reveal_strlit("-");
                    }
                }
                push_dec(&mut s, mag / SCALE);
                let f = mag % SCALE;
                if f == 0 {
                    proof {
                        let sign = if *neg {
                            seq!['-']
                        } else {
                            Seq::<char>::empty()
                        };
                        assert(s@ =~= sign + dec_digits((mag / SCALE) as nat));
                    }
                    s
                } else {
                    s.append(".");
                    proof {
                        reveal_strlit(".");
                    }
                    let mut ff = f;
                    let mut k: u32 = 6;
                    proof {
                        reveal_with_fuel(pow10, 7);
                        assert(pow10(6) == 1000000);
                    }
                    while ff % 10 == 0
                        invariant
                            1 <= k <= 6,
                            1 <= ff,
                            (ff as nat) < pow10(k as nat),
                            frac_text(f as nat, 6) == frac_text(ff as nat, k as nat),
                        decreases ff,
                    {
                        proof {
                            if k == 1 {
                                reveal_with_fuel(pow10, 2);
                                assert(pow10(1) == 10);
                                assert(ff < 10);
                                assert(ff % 10 == ff);
                                assert(false);
                            }
                            assert(pow10(k as nat) == 10 * pow10((k - 1) as nat));
                            assert((ff as nat) / 10 < pow10((k - 1) as nat)) by (nonlinear_arith)
                                requires (ff as nat) < 10 * pow10((k - 1) as nat);
                        }
                        ff = ff / 10;
                        k = k - 1;
                    }
                    push_padded(&mut s, ff, k);
                    proof {
                        let sign = if *neg {
                            seq!['-']
                        } else {
                            Seq::<char>::empty()
                        };
                        assert(frac_text(ff as nat, k as nat) == pad_digits(ff as nat, k as nat));
                        assert(s@ =~= sign + dec_digits((mag / SCALE) as nat) + seq!['.']
                            + frac_text(f as nat, 6));
                    }
                    s
                }
            },
        }
    }
}

} // verus!
