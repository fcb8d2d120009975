use vstd::prelude::*;

use crate::matchers::{is_bin_digit_char, is_digit_char, is_hex_digit_char};

verus! {

// ---------------------------------------------------------------------------
// Exact integers: the values expression evaluation computes with.  A
// number token whose text is an integer in decimal, hexadecimal (`0x…`)
// or binary (`0b…`) form carries an exact value; everything else stays
// text.
// ---------------------------------------------------------------------------

pub open spec fn digit_char(d: int) -> char {
    if d == 0 {
        '0'
    } else if d == 1 {
        '1'
    } else if d == 2 {
        '2'
    } else if d == 3 {
        '3'
    } else if d == 4 {
        '4'
    } else if d == 5 {
        '5'
    } else if d == 6 {
        '6'
    } else if d == 7 {
        '7'
    } else if d == 8 {
        '8'
    } else {
        '9'
    }
}

/// Decimal digits of `n`, most significant first.
pub open spec fn dec_digits(n: nat) -> Seq<char>
    decreases n,
{
    if n < 10 {
        seq![digit_char(n as int)]
    } else {
        dec_digits(n / 10).push(digit_char((n % 10) as int))
    }
}

/// The canonical decimal text of an integer.
pub open spec fn int_str(v: int) -> Seq<char> {
    if v < 0 {
        seq!['-'] + dec_digits((-v) as nat)
    } else {
        dec_digits(v as nat)
    }
}

/// Value of one digit character in any of the three bases; hexadecimal
/// letters count in either case.
pub open spec fn base_digit_val(c: char) -> int {
    let u = c as u32;
    if 48 <= u && u <= 57 {
        u - 48
    } else if 97 <= u && u <= 102 {
        u - 87
    } else if 65 <= u && u <= 70 {
        u - 55
    } else {
        0
    }
}

pub open spec fn is_base_digit(c: char, base: int) -> bool {
    if base == 16 {
        is_hex_digit_char(c)
    } else if base == 2 {
        is_bin_digit_char(c)
    } else {
        is_digit_char(c)
    }
}

/// Value of an unsigned digit string in the given base.
pub open spec fn uval_base(s: Seq<char>, base: int) -> int
    decreases s.len(),
{
    if s.len() == 0 {
        0
    } else {
        uval_base(s.drop_last(), base) * base + base_digit_val(s.last())
    }
}

pub open spec fn all_base_digits(s: Seq<char>, base: int) -> bool {
    forall|i: int| 0 <= i < s.len() ==> is_base_digit(#[trigger] s[i], base)
}

pub open spec fn sign_len(s: Seq<char>) -> int {
    if s.len() > 0 && s[0] == '-' {
        1
    } else {
        0
    }
}

/// An optional minus sign followed by at least one decimal digit.
pub open spec fn is_dec_int(s: Seq<char>) -> bool {
    s.len() > sign_len(s) && all_base_digits(s.subrange(sign_len(s), s.len() as int), 10)
}

/// An optional minus sign, `0x`, then at least one hexadecimal digit.
pub open spec fn is_hex_int(s: Seq<char>) -> bool {
    let k = sign_len(s);
    s.len() >= k + 3 && s[k] == '0' && s[k + 1] == 'x' && all_base_digits(
        s.subrange(k + 2, s.len() as int),
        16,
    )
}

/// An optional minus sign, `0b`, then at least one binary digit.
pub open spec fn is_bin_int(s: Seq<char>) -> bool {
    let k = sign_len(s);
    s.len() >= k + 3 && s[k] == '0' && s[k + 1] == 'b' && all_base_digits(
        s.subrange(k + 2, s.len() as int),
        2,
    )
}

/// The shapes an operand must have to take part in exact arithmetic.
pub open spec fn is_int_text(s: Seq<char>) -> bool {
    is_dec_int(s) || is_hex_int(s) || is_bin_int(s)
}

pub open spec fn int_text_val(s: Seq<char>) -> int {
    let k = sign_len(s);
    let m = if is_hex_int(s) {
        uval_base(s.subrange(k + 2, s.len() as int), 16)
    } else if is_bin_int(s) {
        uval_base(s.subrange(k + 2, s.len() as int), 2)
    } else {
        uval_base(s.subrange(k, s.len() as int), 10)
    };
    if k == 1 {
        -m
    } else {
        m
    }
}

pub open spec fn fits_i64(v: int) -> bool {
    -0x8000_0000_0000_0000 <= v <= 0x7fff_ffff_ffff_ffff
}

proof fn lemma_uval_nonneg(s: Seq<char>, base: int)
    requires
        base >= 1,
    ensures
        uval_base(s, base) >= 0,
    decreases s.len(),
{
    if s.len() > 0 {
        lemma_uval_nonneg(s.drop_last(), base);
        let v = uval_base(s.drop_last(), base);
        assert(v * base >= 0) by (nonlinear_arith)
            requires
                v >= 0,
                base >= 1,
        ;
    }
}

/// A digit string is worth at least any of its prefixes.
proof fn lemma_uval_prefix_le(s: Seq<char>, k: int, base: int)
    requires
        0 <= k <= s.len(),
        base >= 1,
    ensures
        uval_base(s.subrange(0, k), base) <= uval_base(s, base),
    decreases s.len() - k,
{
    if k < s.len() {
        lemma_uval_prefix_le(s, k + 1, base);
        let a = s.subrange(0, k);
        let b = s.subrange(0, k + 1);
        assert(b.drop_last() =~= a);
        lemma_uval_nonneg(a, base);
        assert(uval_base(b, base) == uval_base(a, base) * base + base_digit_val(s[k]));
        assert(base_digit_val(s[k]) >= 0);
        let va = uval_base(a, base);
        assert(va <= va * base) by (nonlinear_arith)
            requires
                va >= 0,
                base >= 1,
        ;
    } else {
        assert(s.subrange(0, k) =~= s);
    }
}

/// Reads an operand as an exact integer where its shape — decimal,
/// hexadecimal or binary — and the 64-bit range allow it.
#[verifier::loop_isolation(false)]
pub fn parse_int_text(s: &str) -> (r: Option<i64>)
    ensures
        match r {
            Some(v) => is_int_text(s@) && fits_i64(int_text_val(s@)) && v as int == int_text_val(
                s@,
            ),
            None => !(is_int_text(s@) && fits_i64(int_text_val(s@))),
        },
{
    let n = s.unicode_len();
    if n == 0 {
        return None;
    }
    let neg = s.get_char(0) == '-';
    let sign: usize = if neg {
        1
    } else {
        0
    };
    if n == sign {
        return None;
    }
    let prefixed = n - sign >= 2 && s.get_char(sign) == '0' && (s.get_char(sign + 1) == 'x'
        || s.get_char(sign + 1) == 'b');
    let base: u32 = if prefixed {
        if s.get_char(sign + 1) == 'x' {
            16
        } else {
            2
        }
    } else {
        10
    };
    let dstart: usize = if prefixed {
        sign + 2
    } else {
        sign
    };
    if n == dstart {
        // A bare `0x` or `0b`: no digits, and the `x` or `b` spoils the
        // decimal shape too.
        proof {
            assert(s@.subrange(sign as int, n as int)[1] == s@[sign + 1]);
            assert(!is_dec_int(s@));
        }
        return None;
    }
    let limit: i128 = if neg {
        0x8000_0000_0000_0000
    } else {
        0x7fff_ffff_ffff_ffff
    };
    let ghost ds = s@.subrange(dstart as int, n as int);
    let mut val: i128 = 0;
    let mut i: usize = dstart;
    while i < n
        invariant
            dstart <= i <= n,
            all_base_digits(s@.subrange(dstart as int, i as int), base as int),
            val == uval_base(s@.subrange(dstart as int, i as int), base as int),
            0 <= val <= limit,
        decreases n - i,
    {
        let c = s.get_char(i);
        let u = c as u32;
        let good = if base == 16 {
            (48 <= u && u <= 57) || (97 <= u && u <= 102) || (65 <= u && u <= 70)
        } else if base == 2 {
            u == 48 || u == 49
        } else {
            48 <= u && u <= 57
        };
        if !good {
            proof {
                assert(ds[i - dstart] == s@[i as int]);
                assert(!all_base_digits(ds, base as int));
                if prefixed {
                    assert(s@.subrange(sign as int, n as int)[1] == s@[sign + 1]);
                    assert(!is_dec_int(s@));
                } else {
                    assert(!is_dec_int(s@));
                    if is_hex_int(s@) || is_bin_int(s@) {
                        assert(s@[sign as int] == '0' && (s@[sign + 1] == 'x' || s@[sign + 1]
                            == 'b'));
                        assert(false);
                    }
                }
            }
            return None;
        }
        let d: u32 = if 48 <= u && u <= 57 {
            u - 48
        } else if 97 <= u && u <= 102 {
            u - 87
        } else {
            u - 55
        };
        proof {
            let v = val;
            assert(v * (base as int) + 15 <= 0x10_0000_0000_0000_0000int) by (nonlinear_arith)
                requires
                    0 <= v <= 0x8000_0000_0000_0000int,
                    2 <= base as int <= 16,
            ;
        }
        val = val * (base as i128) + (d as i128);
        proof {
            assert(s@.subrange(dstart as int, i + 1).drop_last() =~= s@.subrange(
                dstart as int,
                i as int,
            ));
            assert(s@.subrange(dstart as int, i + 1).last() == s@[i as int]);
            assert(all_base_digits(s@.subrange(dstart as int, i + 1), base as int)) by {
                assert(forall|x: int|
                    dstart <= x <= i ==> s@.subrange(dstart as int, i + 1)[x - dstart] == s@[x]);
            }
        }
        if val > limit {
            proof {
                assert(ds.subrange(0, i + 1 - dstart) =~= s@.subrange(dstart as int, i + 1));
                lemma_uval_prefix_le(ds, i + 1 - dstart, base as int);
                assert(uval_base(ds, base as int) > limit);
                if is_int_text(s@) {
                    if prefixed {
                        assert(s@.subrange(sign as int, n as int)[1] == s@[sign + 1]);
                        assert(!is_dec_int(s@));
                        assert(int_text_val(s@) == if neg {
                            -uval_base(ds, base as int)
                        } else {
                            uval_base(ds, base as int)
                        });
                    } else {
                        if is_hex_int(s@) || is_bin_int(s@) {
                            assert(ds[1] == s@[sign + 1]);
                            assert(false);
                        }
                        assert(int_text_val(s@) == if neg {
                            -uval_base(ds, base as int)
                        } else {
                            uval_base(ds, base as int)
                        });
                    }
                }
            }
            return None;
        }
        i += 1;
    }
    proof {
        assert(ds =~= s@.subrange(dstart as int, i as int));
        if prefixed {
            assert(s@.subrange(sign as int, n as int)[1] == s@[sign + 1]);
            assert(!is_dec_int(s@));
            if base == 16 {
                assert(is_hex_int(s@));
            } else {
                assert(s@[sign + 1] == 'b');
                assert(is_bin_int(s@));
                assert(!is_hex_int(s@));
            }
        } else {
            assert(is_dec_int(s@));
            if is_hex_int(s@) || is_bin_int(s@) {
                assert(ds[1] == s@[sign + 1]);
                assert(false);
            }
        }
        assert(int_text_val(s@) == if neg {
            -val
        } else {
            val as int
        });
    }
    if neg {
        Some((-val) as i64)
    } else {
        Some(val as i64)
    }
}

fn push_digits(out: &mut String, m: u64)
    ensures
        final(out)@ == old(out)@ + dec_digits(m as nat),
    decreases m,
{
    if m >= 10 {
        push_digits(out, m / 10);
    }
    let ghost before = out@;
    let d = m % 10;
    if d == 0 {
        out.append("0");
        proof {
            reveal_strlit("0");
        }
    } else if d == 1 {
        out.append("1");
        proof {
            reveal_strlit("1");
        }
    } else if d == 2 {
        out.append("2");
        proof {
            reveal_strlit("2");
        }
    } else if d == 3 {
        out.append("3");
        proof {
            reveal_strlit("3");
        }
    } else if d == 4 {
        out.append("4");
        proof {
            reveal_strlit("4");
        }
    } else if d == 5 {
        out.append("5");
        proof {
            reveal_strlit("5");
        }
    } else if d == 6 {
        out.append("6");
        proof {
            reveal_strlit("6");
        }
    } else if d == 7 {
        out.append("7");
        proof {
            reveal_strlit("7");
        }
    } else if d == 8 {
        out.append("8");
        proof {
            reveal_strlit("8");
        }
    } else {
        out.append("9");
        proof {
            reveal_strlit("9");
        }
    }
    proof {
        assert(out@ =~= before + seq![digit_char(d as int)]);
        if m >= 10 {
            assert(dec_digits(m as nat) =~= dec_digits((m / 10) as nat) + seq![
                digit_char((m % 10) as int),
            ]);
            assert(out@ =~= old(out)@ + dec_digits(m as nat));
        } else {
            assert(dec_digits(m as nat) =~= seq![digit_char(m as int)]);
            assert(out@ =~= old(out)@ + dec_digits(m as nat));
        }
    }
}

/// Writes an integer in its canonical decimal form.
pub fn fmt_i64(v: i64) -> (r: String)
    ensures
        r@ == int_str(v as int),
{
    let mag: u64 = if v < 0 {
        (-(v as i128)) as u64
    } else {
        v as u64
    };
    let mut out = String::new();
    if v < 0 {
        out.append("-");
        proof {
            reveal_strlit("-");
        }
    }
    push_digits(&mut out, mag);
    proof {
        if v < 0 {
            assert(out@ =~= seq!['-'] + dec_digits(mag as nat));
            assert(out@ =~= int_str(v as int));
        } else {
            assert(out@ =~= int_str(v as int));
        }
    }
    out
}

} // verus!
