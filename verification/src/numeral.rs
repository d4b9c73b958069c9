use vstd::prelude::*;
use vstd::arithmetic::div_mod::lemma_fundamental_div_mod;
use vstd::string::StrSliceExecFns;

verus! {

/// The character for one decimal digit.
pub open spec fn digit_char(d: int) -> char {
    if d == 0 {
        '0'
    } else if d == 1 {
        '1'
    } else if d == 2 {
        '2'
    } else if d == 3 {
        '3'
    } else if d == 4 {
        '4'
    } else if d == 5 {
        '5'
    } else if d == 6 {
        '6'
    } else if d == 7 {
        '7'
    } else if d == 8 {
        '8'
    } else {
        '9'
    }
}

pub open spec fn is_digit_char(c: char) -> bool {
    c == '0' || c == '1' || c == '2' || c == '3' || c == '4' || c == '5' || c == '6' || c == '7'
        || c == '8' || c == '9'
}

/// The digit a character stands for; -1 where it is none.
pub open spec fn digit_val(c: char) -> int {
    if c == '0' {
        0
    } else if c == '1' {
        1
    } else if c == '2' {
        2
    } else if c == '3' {
        3
    } else if c == '4' {
        4
    } else if c == '5' {
        5
    } else if c == '6' {
        6
    } else if c == '7' {
        7
    } else if c == '8' {
        8
    } else if c == '9' {
        9
    } else {
        -1
    }
}

/// The decimal digits of `n`, most significant first, no leading zeros.
pub open spec fn dec_digits(n: nat) -> Seq<char>
    decreases n,
{
    if n < 10 {
        seq![digit_char(n as int)]
    } else {
        dec_digits(n / 10).push(digit_char((n % 10) as int))
    }
}

/// An integer's magnitude.
pub open spec fn mag(i: int) -> nat {
    if i >= 0 {
        i as nat
    } else {
        (-i) as nat
    }
}

/// The canonical decimal representation of an integer: digits, with a
/// leading minus sign when negative.
pub open spec fn dec_rep(i: int) -> Seq<char> {
    if i >= 0 {
        dec_digits(i as nat)
    } else {
        seq!['-'] + dec_digits((-i) as nat)
    }
}

pub open spec fn all_digits(s: Seq<char>) -> bool {
    forall|k: int| 0 <= k < s.len() ==> is_digit_char(s[k])
}

/// The number a digit string denotes.
pub open spec fn val_of(s: Seq<char>) -> int
    decreases s.len(),
{
    if s.len() == 0 {
        0
    } else {
        val_of(s.drop_last()) * 10 + digit_val(s.last())
    }
}

/// The decimal digits of `n` are digit characters, at least one of them,
/// and they denote `n`.
pub proof fn lemma_dec_digits_props(n: nat)
    ensures
        all_digits(dec_digits(n)),
        dec_digits(n).len() >= 1,
        val_of(dec_digits(n)) == n,
    decreases n,
{
    if n < 10 {
        let s = dec_digits(n);
        assert(s =~= seq![digit_char(n as int)]);
        assert(s.drop_last() =~= Seq::<char>::empty());
        assert(val_of(Seq::<char>::empty()) == 0);
        assert(s.last() == digit_char(n as int));
        assert(val_of(s) == 0 * 10 + digit_val(digit_char(n as int)));
    } else {
        lemma_dec_digits_props(n / 10);
        let rest = dec_digits(n / 10);
        let c = digit_char((n % 10) as int);
        let s = dec_digits(n);
        assert(s == rest.push(c));
        assert(s.drop_last() =~= rest);
        assert(s.last() == c);
        assert(val_of(s) == (n / 10) * 10 + (n % 10));
        lemma_fundamental_div_mod(n as int, 10);
        assert forall|k: int| 0 <= k < s.len() implies is_digit_char(s[k]) by {
            if k < rest.len() {
                assert(s[k] == rest[k]);
            }
        }
    }
}

/// One step of `val_of` over a prefix.
proof fn lemma_val_of_take_succ(s: Seq<char>, k: int)
    requires
        0 <= k < s.len(),
    ensures
        val_of(s.take(k + 1)) == val_of(s.take(k)) * 10 + digit_val(s[k]),
{
    assert(s.take(k + 1).drop_last() =~= s.take(k));
    assert(s.take(k + 1).last() == s[k]);
}

proof fn lemma_val_of_nonneg(s: Seq<char>)
    requires
        all_digits(s),
    ensures
        val_of(s) >= 0,
    decreases s.len(),
{
    if s.len() > 0 {
        assert(all_digits(s.drop_last()));
        lemma_val_of_nonneg(s.drop_last());
    }
}

/// Over a digit string, the value of a prefix never exceeds the value of
/// the whole.
proof fn lemma_val_of_take_le(s: Seq<char>, k: int)
    requires
        all_digits(s),
        0 <= k <= s.len(),
    ensures
        val_of(s.take(k)) <= val_of(s),
    decreases s.len() - k,
{
    if k == s.len() {
        assert(s.take(k) =~= s);
    } else {
        lemma_val_of_take_succ(s, k);
        assert(all_digits(s.take(k)));
        lemma_val_of_nonneg(s.take(k));
        lemma_val_of_take_le(s, k + 1);
    }
}

/// Two integers with the same decimal representation are the same.
pub proof fn lemma_dec_rep_injective(i: int, j: int)
    requires
        dec_rep(i) == dec_rep(j),
    ensures
        i == j,
{
    lemma_dec_digits_props(mag(i));
    lemma_dec_digits_props(mag(j));
    if i >= 0 && j >= 0 {
        assert(val_of(dec_digits(i as nat)) == val_of(dec_digits(j as nat)));
    } else if i < 0 && j < 0 {
        let a = dec_digits((-i) as nat);
        let b = dec_digits((-j) as nat);
        assert((seq!['-'] + a) =~= dec_rep(i));
        assert(a =~= dec_rep(i).subrange(1, dec_rep(i).len() as int));
        assert(b =~= dec_rep(j).subrange(1, dec_rep(j).len() as int));
        assert(val_of(a) == val_of(b));
    } else if i >= 0 {
        assert(dec_rep(j)[0] == '-');
        assert(is_digit_char(dec_rep(i)[0]));
        assert(false);
    } else {
        assert(dec_rep(i)[0] == '-');
        assert(is_digit_char(dec_rep(j)[0]));
        assert(false);
    }
}

/// Relies on `String::push`: appends the given character to the end of the
/// string.
pub assume_specification[ String::push ](s: &mut String, ch: char)
    ensures
        final(s)@ == old(s)@.push(ch),
;

fn digit_to_char(d: u8) -> (c: char)
    requires
        d < 10,
    ensures
        c == digit_char(d as int),
{
    match d {
        0 => '0',
        1 => '1',
        2 => '2',
        3 => '3',
        4 => '4',
        5 => '5',
        6 => '6',
        7 => '7',
        8 => '8',
        _ => '9',
    }
}

fn char_to_digit(c: char) -> (r: Option<u8>)
    ensures
        match r {
            Some(d) => is_digit_char(c) && d < 10 && d as int == digit_val(c),
            None => !is_digit_char(c),
        },
{
    match c {
        '0' => Some(0),
        '1' => Some(1),
        '2' => Some(2),
        '3' => Some(3),
        '4' => Some(4),
        '5' => Some(5),
        '6' => Some(6),
        '7' => Some(7),
        '8' => Some(8),
        '9' => Some(9),
        _ => None,
    }
}

fn push_dec_digits(n: u64, out: &mut String)
    ensures
        final(out)@ == old(out)@ + dec_digits(n as nat),
    decreases n,
{
    if n < 10 {
        out.push(digit_to_char(n as u8));
        proof {
            assert(final(out)@ =~= old(out)@ + dec_digits(n as nat));
        }
    } else {
        let ghost pre = out@;
        push_dec_digits(n / 10, out);
        out.push(digit_to_char((n % 10) as u8));
        proof {
            assert((n / 10) as nat == (n as nat) / 10);
            assert((n % 10) as nat == (n as nat) % 10);
            assert(final(out)@ =~= pre + dec_digits(n as nat));
        }
    }
}

/// The canonical decimal form of `i`.
pub fn i64_to_dec(i: i64) -> (r: String)
    ensures
        r@ == dec_rep(i as int),
{
    let mut s = String::new();
    if i < 0 {
        s.push('-');
        let mag: u64 = if i == i64::MIN {
            9223372036854775808u64
        } else {
            (-i) as u64
        };
        push_dec_digits(mag, &mut s);
        proof {
            assert(mag as nat == (-(i as int)) as nat);
            assert(s@ =~= dec_rep(i as int));
        }
    } else {
        push_dec_digits(i as u64, &mut s);
    }
    s
}

/// Reads a decimal integer. Wherever the input is the canonical decimal
/// form of an `i64`, that value comes back.
pub fn dec_to_i64(s: &str) -> (r: Option<i64>)
    ensures
        forall|i: i64| s@ == dec_rep(i as int) ==> r == Some(i),
{
    let n = s.unicode_len();
    if n == 0 {
        proof {
            assert forall|i: i64| s@ == dec_rep(i as int) implies false by {
                lemma_dec_digits_props(mag(i as int));
            }
        }
        return None;
    }
    let neg = s.get_char(0) == '-';
    let start: usize = if neg {
        1
    } else {
        0
    };
    proof {
        assert forall|i: i64| s@ == dec_rep(i as int) implies digits_part_of(s@, i as int)
            == dec_digits(mag(i as int)) && (neg <==> i < 0) by {
            lemma_shape(s@, i as int, neg);
        }
    }
    if start >= n {
        proof {
            assert forall|i: i64| s@ == dec_rep(i as int) implies false by {
                lemma_dec_digits_props(mag(i as int));
            }
        }
        return None;
    }
    let mut val: u64 = 0;
    let mut idx = start;
    while idx < n
        invariant
            start <= idx <= n,
            n == s@.len(),
            start == (if neg { 1int } else { 0int }),
            forall|i: i64| s@ == dec_rep(i as int) ==> digits_part_of(s@, i as int) == dec_digits(
                mag(i as int),
            ) && (neg <==> i < 0),
            val as int == val_of(s@.subrange(start as int, idx as int)),
            forall|k: int| start <= k < idx ==> is_digit_char(s@[k]),
        decreases n - idx,
    {
        let c = s.get_char(idx);
        let d = match char_to_digit(c) {
            Some(d) => d,
            None => {
                proof {
                    assert forall|i: i64| s@ == dec_rep(i as int) implies false by {
                        lemma_dec_digits_props(mag(i as int));
                        assert(s@[idx as int] == dec_digits(mag(i as int))[idx
                            - start]);
                    }
                }
                return None;
            },
        };
        proof {
            assert forall|i: i64| s@ == dec_rep(i as int) implies val as int * 10 + d as int
                <= 9223372036854775808int by {
                lemma_in_range(s@, i as int, start as int, idx as int, val as int, d as int);
            }
        }
        let v10 = match val.checked_mul(10) {
            Some(v) => v,
            None => {
                proof {
                    assert forall|i: i64| s@ == dec_rep(i as int) implies false by {
                        lemma_in_range(s@, i as int, start as int, idx as int, val as int,
                            d as int);
                    }
                }
                return None;
            },
        };
        let v = match v10.checked_add(d as u64) {
            Some(v) => v,
            None => {
                proof {
                    assert forall|i: i64| s@ == dec_rep(i as int) implies false by {
                        lemma_in_range(s@, i as int, start as int, idx as int, val as int,
                            d as int);
                    }
                }
                return None;
            },
        };
        proof {
            assert(s@.subrange(start as int, idx + 1).drop_last() =~= s@.subrange(
                start as int,
                idx as int,
            ));
            assert(s@.subrange(start as int, idx + 1).last() == s@[idx as int]);
        }
        val = v;
        idx = idx + 1;
    }
    proof {
        assert(s@.subrange(start as int, n as int) =~= s@.skip(start as int));
        assert forall|i: i64| s@ == dec_rep(i as int) implies val as int == mag(i as int) by {
            lemma_dec_digits_props(mag(i as int));
            assert(s@.subrange(start as int, n as int) =~= dec_digits(mag(i as int)));
        }
    }
    if neg {
        if val > 9223372036854775808u64 {
            return None;
        } else if val == 9223372036854775808u64 {
            return Some(i64::MIN);
        } else {
            return Some(-(val as i64));
        }
    } else {
        if val > 9223372036854775807u64 {
            return None;
        } else {
            return Some(val as i64);
        }
    }
}

/// The digit run of a decimal string: everything after the sign, if any.
pub open spec fn digits_part_of(s: Seq<char>, i: int) -> Seq<char> {
    if i >= 0 {
        s
    } else {
        s.subrange(1, s.len() as int)
    }
}

/// Shape of a canonical representation: the sign is there exactly when the
/// value is negative, and the rest is the digit run of its magnitude.
proof fn lemma_shape(s: Seq<char>, i: int, neg: bool)
    requires
        s == dec_rep(i),
        s.len() > 0,
        neg == (s[0] == '-'),
    ensures
        digits_part_of(s, i) == dec_digits(mag(i)),
        neg <==> i < 0,
{
    lemma_dec_digits_props(mag(i));
    if i >= 0 {
        assert(is_digit_char(s[0]));
    } else {
        assert(s =~= seq!['-'] + dec_digits((-i) as nat));
        assert(s[0] == '-');
        assert(s.subrange(1, s.len() as int) =~= dec_digits((-i) as nat));
    }
}

/// While a canonical representation is being read, the running value never
/// leaves the magnitude's range.
proof fn lemma_in_range(s: Seq<char>, i: int, start: int, idx: int, val: int, d: int)
    requires
        s == dec_rep(i),
        i64::MIN <= i <= i64::MAX,
        start == (if i < 0 { 1int } else { 0int }),
        start <= idx < s.len(),
        val == val_of(s.subrange(start, idx)),
        d == digit_val(s[idx]),
    ensures
        val * 10 + d <= 9223372036854775808,
        val * 10 + d == val_of(s.subrange(start, idx + 1)),
{
    lemma_dec_digits_props(mag(i));
    let ds = dec_digits(mag(i));
    assert(digits_part_of(s, i) == ds) by {
        if i < 0 {
            assert(s =~= seq!['-'] + ds);
            assert(s.subrange(1, s.len() as int) =~= ds);
        }
    }
    assert(s.subrange(start, idx) =~= ds.take(idx - start));
    assert(s.subrange(start, idx + 1) =~= ds.take(idx - start + 1));
    lemma_val_of_take_succ(ds, idx - start);
    assert(ds[idx - start] == s[idx]);
    lemma_val_of_take_le(ds, idx - start + 1);
    assert(val_of(ds.take(idx - start + 1)) <= val_of(ds));
    assert(val_of(ds) == mag(i));
    assert(mag(i) <= 9223372036854775808);
}

} // verus!
