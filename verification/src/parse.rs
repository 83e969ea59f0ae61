//! Parsing of decimal strings into fixed-point numbers and small counters.
//!
//! The accepted number grammar is an optional sign, at least one integer
//! digit, and an optional fraction introduced by a dot: fraction digits past
//! the sixth carry no weight (one millionth is the smallest step), but must
//! still be digits. A value whose magnitude exceeds `PRICE_LIMIT` is rejected.

use vstd::prelude::*;

use crate::chart::PRICE_LIMIT;
use crate::fixed::SCALE;

verus! {

/// A decimal digit.
pub open spec fn is_digit(c: char) -> bool {
    48 <= c as int <= 57
}

/// The value of a decimal digit.
pub open spec fn digit_val(c: char) -> int {
    c as int - 48
}

/// Every character is a decimal digit.
pub open spec fn all_digits(s: Seq<char>) -> bool {
    forall|i: int| 0 <= i < s.len() ==> is_digit(#[trigger] s[i])
}

/// The base-ten value of a digit string.
pub open spec fn digits_val(s: Seq<char>) -> int
    decreases s.len(),
{
    if s.len() == 0 {
        0
    } else {
        digits_val(s.drop_last()) * 10 + digit_val(s.last())
    }
}

/// Index of the first dot, or the length when there is none.
pub open spec fn find_dot(s: Seq<char>) -> int
    decreases s.len(),
{
    if s.len() == 0 {
        0
    } else if s[0] == '.' {
        0
    } else {
        1 + find_dot(s.skip(1))
    }
}

/// A sequence of `n` zero digits.
pub open spec fn zero_digits(n: int) -> Seq<char> {
    Seq::new(n as nat, |i: int| '0')
}

/// The fraction digits, padded or cut to exactly six places.
pub open spec fn pad_to_six(f: Seq<char>) -> Seq<char> {
    if f.len() >= 6 {
        f.take(6)
    } else {
        f + zero_digits(6 - f.len())
    }
}

/// The fraction part of an unsigned decimal string: what follows the first
/// dot, or nothing when there is no dot.
pub open spec fn frac_of(s: Seq<char>) -> Seq<char> {
    if find_dot(s) < s.len() {
        s.skip(find_dot(s) + 1)
    } else {
        Seq::<char>::empty()
    }
}

/// The fixed-point value of an unsigned decimal string: integer digits, then
/// an optional dot and fraction digits. `None` when the string does not fit
/// the grammar.
pub open spec fn parse_unsigned_fixed(s: Seq<char>) -> Option<int> {
    let int_part = s.take(find_dot(s));
    if int_part.len() >= 1 && all_digits(int_part) && all_digits(frac_of(s)) {
        Some(digits_val(int_part) * SCALE + digits_val(pad_to_six(frac_of(s))))
    } else {
        None
    }
}

/// The fixed-point value of a decimal string with an optional leading sign.
pub open spec fn parse_fixed_spec(s: Seq<char>) -> Option<int> {
    if s.len() >= 1 && s[0] == '-' {
        match parse_unsigned_fixed(s.skip(1)) {
            Some(v) => Some(-v),
            None => None,
        }
    } else if s.len() >= 1 && s[0] == '+' {
        parse_unsigned_fixed(s.skip(1))
    } else {
        parse_unsigned_fixed(s)
    }
}

/// What `parse_fixed` returns: the value of the string when it fits the
/// grammar and `PRICE_LIMIT`, and `None` otherwise.
pub open spec fn parse_fixed_result(s: Seq<char>) -> Option<i64> {
    match parse_fixed_spec(s) {
        Some(v) => if -PRICE_LIMIT <= v <= PRICE_LIMIT {
            Some(v as i64)
        } else {
            None::<i64>
        },
        None => None::<i64>,
    }
}

/// The value of a counter string: digits with an optional leading plus sign.
pub open spec fn parse_counter_spec(s: Seq<char>) -> Option<int> {
    let t = if s.len() >= 1 && s[0] == '+' {
        s.skip(1)
    } else {
        s
    };
    if t.len() >= 1 && all_digits(t) {
        Some(digits_val(t))
    } else {
        None
    }
}

/// What `parse_u16` returns: the value of the string when it fits in a
/// `u16`, and `None` otherwise.
pub open spec fn parse_u16_result(s: Seq<char>) -> Option<u16> {
    match parse_counter_spec(s) {
        Some(v) => if v <= u16::MAX {
            Some(v as u16)
        } else {
            None::<u16>
        },
        None => None::<u16>,
    }
}

/// Smallest power of ten past any value of `k` digits (for `k` up to six).
pub open spec fn digit_bound(k: int) -> int {
    if k <= 0 {
        1
    } else if k == 1 {
        10
    } else if k == 2 {
        100
    } else if k == 3 {
        1_000
    } else if k == 4 {
        10_000
    } else if k == 5 {
        100_000
    } else {
        1_000_000
    }
}

/// The character of a decimal digit.
pub open spec fn digit_char(d: int) -> char {
    ((48 + d) as u8) as char
}

/// The decimal digits of a nonnegative number, most significant first.
pub open spec fn digits_of(n: int) -> Seq<char>
    decreases n,
{
    if n < 10 {
        seq![digit_char(n)]
    } else {
        digits_of(n / 10).push(digit_char(n % 10))
    }
}

/// Exactly six fraction digits, zero-padded, most significant first.
pub open spec fn frac_chars(n: int) -> Seq<char> {
    Seq::new(6, |i: int| digit_char((n / digit_bound(5 - i)) % 10))
}

/// The canonical text of a fixed-point number: an optional minus sign, the
/// integer digits, a dot, and exactly six fraction digits.
pub open spec fn fixed_string(v: int) -> Seq<char> {
    if v < 0 {
        seq!['-'] + digits_of((-v) / (SCALE as int)) + seq!['.'] + frac_chars(
            (-v) % (SCALE as int),
        )
    } else {
        digits_of(v / (SCALE as int)) + seq!['.'] + frac_chars(v % (SCALE as int))
    }
}

/// A digit string has a nonnegative value, and no prefix has a larger value.
proof fn lemma_digits_val_prefix(s: Seq<char>, i: int)
    requires
        all_digits(s),
        0 <= i <= s.len(),
    ensures
        0 <= digits_val(s.take(i)) <= digits_val(s),
    decreases s.len(),
{
    if s.len() == 0 {
        assert(s.take(i) =~= s);
    } else if i == s.len() {
        assert(s.take(i) =~= s);
        lemma_digits_val_prefix(s.drop_last(), s.len() - 1);
        assert(s.drop_last().take(s.len() - 1) =~= s.drop_last());
    } else {
        let t = s.drop_last();
        assert(all_digits(t));
        assert(s.take(i) =~= t.take(i));
        lemma_digits_val_prefix(t, i);
        assert(digits_val(s) == digits_val(t) * 10 + digit_val(s.last()));
        assert(t.take(t.len() as int) =~= t);
        lemma_digits_val_prefix(t, t.len() as int);
    }
}

/// Reading one more digit multiplies the prefix value by ten and adds it.
proof fn lemma_digits_val_step(s: Seq<char>, i: int)
    requires
        0 <= i < s.len(),
    ensures
        digits_val(s.take(i + 1)) == digits_val(s.take(i)) * 10 + digit_val(s[i]),
{
    assert(s.take(i + 1).drop_last() =~= s.take(i));
    assert(s.take(i + 1).last() == s[i]);
}

/// Appending a zero digit multiplies the value by ten.
proof fn lemma_digits_val_append_zero(s: Seq<char>)
    ensures
        digits_val(s.push('0')) == digits_val(s) * 10,
{
    assert(s.push('0').drop_last() =~= s);
    assert(digit_val('0') == 0);
}

/// The first dot is where the scan that found no earlier dot stops.
proof fn lemma_find_dot_at(s: Seq<char>, i: int)
    requires
        0 <= i <= s.len(),
        forall|j: int| 0 <= j < i ==> s[j] != '.',
        i == s.len() || s[i] == '.',
    ensures
        find_dot(s) == i,
    decreases s.len(),
{
    if s.len() == 0 {
    } else if s[0] == '.' {
        assert(i == 0);
    } else {
        let t = s.skip(1);
        assert(forall|j: int| 0 <= j < i - 1 ==> t[j] == s[j + 1]);
        lemma_find_dot_at(t, i - 1);
    }
}

/// Padding a digit string to six places keeps every character a digit.
proof fn lemma_pad_to_six_digits(f: Seq<char>)
    requires
        all_digits(f),
    ensures
        all_digits(pad_to_six(f)),
{
    let p = pad_to_six(f);
    assert forall|x: int| 0 <= x < p.len() implies is_digit(#[trigger] p[x]) by {
        if f.len() >= 6 {
            assert(p[x] == f[x]);
        } else if x < f.len() {
            assert(p[x] == f[x]);
        } else {
            assert(p[x] == '0');
        }
    }
}

/// A digit's character reads back to the digit.
proof fn lemma_digit_char_val(d: int)
    requires
        0 <= d <= 9,
    ensures
        digit_val(digit_char(d)) == d,
        is_digit(digit_char(d)),
{
    assert(((48 + d) as u8) as char as int == 48 + d);
}

/// The digits of a nonnegative number are digits, and read back to its
/// value.
proof fn lemma_digits_of_value(n: int)
    requires
        n >= 0,
    ensures
        all_digits(digits_of(n)),
        digits_val(digits_of(n)) == n,
        digits_of(n).len() >= 1,
    decreases n,
{
    if n < 10 {
        lemma_digit_char_val(n);
        assert(digits_of(n) =~= seq![digit_char(n)]);
        assert(seq![digit_char(n)].drop_last() =~= Seq::<char>::empty());
        assert(digits_val(Seq::<char>::empty()) == 0);
        assert(digits_val(seq![digit_char(n)]) == digits_val(Seq::<char>::empty()) * 10
            + digit_val(digit_char(n)));
    } else {
        lemma_digits_of_value(n / 10);
        lemma_digit_char_val(n % 10);
        let t = digits_of(n / 10);
        assert(t.push(digit_char(n % 10)).drop_last() =~= t);
        assert(forall|i: int|
            0 <= i < t.push(digit_char(n % 10)).len() ==> is_digit(
                #[trigger] t.push(digit_char(n % 10))[i],
            ));
    }
}

/// The six fraction characters are digits, and read back to the fraction.
#[verifier::rlimit(60)]
proof fn lemma_frac_chars_value(n: int)
    requires
        0 <= n < 1_000_000,
    ensures
        all_digits(frac_chars(n)),
        digits_val(frac_chars(n)) == n,
{
    let f = frac_chars(n);
    assert forall|i: int| 0 <= i < 6 implies is_digit(#[trigger] f[i]) by {
        lemma_digit_char_val((n / digit_bound(5 - i)) % 10);
    }
    assert(f.drop_last() =~= Seq::new(5, |i: int| digit_char((n / digit_bound(5 - i)) % 10)));
    let f5 = f.drop_last();
    assert(f5.drop_last() =~= Seq::new(4, |i: int| digit_char((n / digit_bound(5 - i)) % 10)));
    let f4 = f5.drop_last();
    assert(f4.drop_last() =~= Seq::new(3, |i: int| digit_char((n / digit_bound(5 - i)) % 10)));
    let f3 = f4.drop_last();
    assert(f3.drop_last() =~= Seq::new(2, |i: int| digit_char((n / digit_bound(5 - i)) % 10)));
    let f2 = f3.drop_last();
    assert(f2.drop_last() =~= Seq::new(1, |i: int| digit_char((n / digit_bound(5 - i)) % 10)));
    let f1 = f2.drop_last();
    assert(f1.drop_last() =~= Seq::<char>::empty());
    assert(digits_val(Seq::<char>::empty()) == 0);
    lemma_digit_char_val((n / 100_000) % 10);
    lemma_digit_char_val((n / 10_000) % 10);
    lemma_digit_char_val((n / 1_000) % 10);
    lemma_digit_char_val((n / 100) % 10);
    lemma_digit_char_val((n / 10) % 10);
    lemma_digit_char_val(n % 10);
    assert(digits_val(f1) == (n / 100_000) % 10);
    assert(digits_val(f2) == digits_val(f1) * 10 + (n / 10_000) % 10);
    assert(digits_val(f3) == digits_val(f2) * 10 + (n / 1_000) % 10);
    assert(digits_val(f4) == digits_val(f3) * 10 + (n / 100) % 10);
    assert(digits_val(f5) == digits_val(f4) * 10 + (n / 10) % 10);
    assert(digits_val(f) == digits_val(f5) * 10 + n % 10);
}

/// Round trip: the canonical text of any in-range fixed-point number parses
/// back to exactly that number.
pub proof fn lemma_render_parse_round_trip(v: int)
    requires
        -PRICE_LIMIT <= v <= PRICE_LIMIT,
    ensures
        parse_fixed_result(fixed_string(v)) == Some(v as i64),
{
    if v >= 0 {
        lemma_unsigned_render_parse(v);
    } else {
        let s = fixed_string(v);
        let u = fixed_string(-v);
        assert(s =~= seq!['-'] + u);
        assert(s[0] == '-');
        assert(s.skip(1) =~= u);
        lemma_unsigned_render_parse(-v);
    }
}

/// The unsigned half of the round trip.
proof fn lemma_unsigned_render_parse(v: int)
    requires
        0 <= v <= PRICE_LIMIT,
    ensures
        parse_unsigned_fixed(fixed_string(v)) == Some(v),
        fixed_string(v).len() >= 1,
        fixed_string(v)[0] != '-',
        fixed_string(v)[0] != '+',
{
    let q = v / (SCALE as int);
    let f = v % (SCALE as int);
    let ints = digits_of(q);
    let fracs = frac_chars(f);
    let s = fixed_string(v);
    lemma_digits_of_value(q);
    lemma_frac_chars_value(f);
    assert(s =~= ints + seq!['.'] + fracs);
    assert(forall|j: int| 0 <= j < ints.len() ==> s[j] == ints[j]);
    assert(forall|j: int| 0 <= j < ints.len() ==> #[trigger] s[j] != '.');
    assert(s[ints.len() as int] == '.');
    lemma_find_dot_at(s, ints.len() as int);
    assert(s.take(ints.len() as int) =~= ints);
    assert(frac_of(s) =~= fracs);
    assert(fracs.len() >= 6);
    assert(pad_to_six(fracs) =~= fracs);
    assert(digits_val(ints) * SCALE + digits_val(pad_to_six(fracs)) == q * SCALE + f);
    assert(q * (SCALE as int) + f == v);
    assert(is_digit(s[0]));
}

/// Parses a decimal string into a fixed-point number: `None` when the string
/// does not fit the grammar or its magnitude exceeds `PRICE_LIMIT`.
pub fn parse_fixed(s: &str) -> (r: Option<i64>)
    ensures
        r == parse_fixed_result(s@),
{
    let n = s.unicode_len();
    let mut neg = false;
    let mut start: usize = 0;
    if n >= 1 {
        let c0 = s.get_char(0);
        if c0 == '-' {
            neg = true;
            start = 1;
        } else if c0 == '+' {
            start = 1;
        }
    }
    proof {
        if start == 0 {
            assert(s@.skip(0) =~= s@);
        }
    }
    let unsigned = parse_unsigned_from(s, start, n);
    match unsigned {
        None => None,
        Some(v) => {
            if v > PRICE_LIMIT {
                None
            } else if neg {
                Some(-v)
            } else {
                Some(v)
            }
        },
    }
}

/// Parses the unsigned tail of a decimal string, beginning at `start`. A
/// returned value is the exact fixed-point value of the tail; `None` comes
/// exactly when the tail breaks the grammar or its value is beyond
/// `PRICE_LIMIT`.
fn parse_unsigned_from(s: &str, start: usize, n: usize) -> (r: Option<i64>)
    requires
        n == s@.len(),
        start <= n,
    ensures
        r matches Some(v) ==> parse_unsigned_fixed(s@.skip(start as int)) == Some(v as int) && 0
            <= v <= PRICE_LIMIT + SCALE,
        r is None ==> (match parse_unsigned_fixed(s@.skip(start as int)) {
            Some(v) => v > PRICE_LIMIT,
            None => true,
        }),
{
    let ghost t = s@.skip(start as int);
    // Find the first dot after `start`.
    let mut i: usize = start;
    while i < n && s.get_char(i) != '.'
        invariant
            n == s@.len(),
            start <= i <= n,
            t == s@.skip(start as int),
            forall|j: int| 0 <= j < i - start ==> t[j] != '.',
        decreases n - i,
    {
        i = i + 1;
    }
    let dot: usize = i;
    proof {
        lemma_find_dot_at(t, dot - start);
    }
    let ghost int_part = t.take(dot - start);
    if dot == start {
        // No integer digits before the dot (or an empty tail).
        return None;
    }
    // Integer digits.
    let mut acc: i64 = 0;
    let mut j: usize = start;
    proof {
        assert(int_part.take(0) =~= Seq::<char>::empty());
    }
    while j < dot
        invariant
            n == s@.len(),
            start <= j <= dot <= n,
            start < dot,
            t == s@.skip(start as int),
            find_dot(t) == dot - start,
            int_part == t.take(dot - start),
            int_part.len() == dot - start,
            all_digits(int_part.take(j - start)),
            acc == digits_val(int_part.take(j - start)),
            0 <= acc <= 1_000_000,
        decreases dot - j,
    {
        let c = s.get_char(j);
        let v = c as u32;
        proof {
            assert(t[j - start] == s@[j as int]);
            assert(int_part[j - start] == t[j - start]);
        }
        if v < 48 || v > 57 {
            proof {
                assert(!is_digit(int_part[j - start]));
                assert(!all_digits(int_part));
            }
            return None;
        }
        let d = (v - 48) as i64;
        proof {
            lemma_digits_val_step(int_part, j - start);
        }
        let next = acc * 10 + d;
        if next > 1_000_000 {
            // Even with a zero fraction the value would exceed PRICE_LIMIT.
            proof {
                let pu = parse_unsigned_fixed(t);
                if pu is Some {
                    assert(all_digits(int_part));
                    lemma_digits_val_prefix(int_part, j - start + 1);
                    lemma_pad_to_six_digits(frac_of(t));
                    lemma_digits_val_prefix(pad_to_six(frac_of(t)), 0);
                    assert(pad_to_six(frac_of(t)).take(0) =~= Seq::<char>::empty());
                    assert(digits_val(int_part) >= next);
                    assert(digits_val(int_part) * SCALE >= 1_000_001 * 1_000_000int)
                        by (nonlinear_arith)
                        requires
                            digits_val(int_part) >= 1_000_001,
                    ;
                }
            }
            return None;
        }
        acc = next;
        j = j + 1;
    }
    proof {
        assert(int_part.take(dot - start) =~= int_part);
    }
    // Fraction digits: only the first six carry weight.
    let mut facc: i64 = 0;
    let mut fcount: usize = 0;
    let ghost frac_part = frac_of(t);
    proof {
        if dot < n {
            assert(frac_part == t.skip(dot - start + 1));
            assert(frac_part.len() == n - dot - 1);
        } else {
            assert(frac_part.len() == 0);
        }
        assert(frac_part.take(0) =~= Seq::<char>::empty());
    }
    if dot < n {
        let mut k: usize = dot + 1;
        while k < n
            invariant
                n == s@.len(),
                dot < k <= n,
                start <= dot < n,
                t == s@.skip(start as int),
                find_dot(t) == dot - start,
                frac_part == frac_of(t),
                frac_part == t.skip(dot - start + 1),
                frac_part.len() == n - dot - 1,
                all_digits(frac_part.take(k - dot - 1)),
                fcount == if k - dot - 1 <= 6 {
                    k - dot - 1
                } else {
                    6int
                },
                facc == digits_val(frac_part.take(fcount as int)),
                0 <= facc < digit_bound(fcount as int),
            decreases n - k,
        {
            let c = s.get_char(k);
            let v = c as u32;
            proof {
                assert(frac_part[k - dot - 1] == t[k - start]);
                assert(t[k - start] == s@[k as int]);
            }
            if v < 48 || v > 57 {
                proof {
                    assert(!is_digit(frac_part[k - dot - 1]));
                    assert(!all_digits(frac_part));
                }
                return None;
            }
            proof {
                assert(frac_part.take(k - dot - 1 + 1).drop_last() =~= frac_part.take(
                    k - dot - 1,
                ));
            }
            if fcount < 6 {
                let d = (v - 48) as i64;
                proof {
                    lemma_digits_val_step(frac_part, fcount as int);
                }
                facc = facc * 10 + d;
                fcount = fcount + 1;
            }
            k = k + 1;
        }
        proof {
            assert(frac_part.take(frac_part.len() as int) =~= frac_part);
        }
    }
    // Pad a short fraction with zero digits.
    let ghost mut padded = frac_part.take(fcount as int);
    while fcount < 6
        invariant
            0 <= fcount <= 6,
            facc == digits_val(padded),
            padded.len() == fcount,
            fcount >= frac_part.len() ==> padded =~= frac_part + zero_digits(
                fcount - frac_part.len(),
            ),
            fcount < frac_part.len() ==> fcount == 6,
            frac_part.len() >= 6 ==> padded =~= frac_part.take(6),
            0 <= facc < digit_bound(fcount as int),
        decreases 6 - fcount,
    {
        proof {
            lemma_digits_val_append_zero(padded);
            assert((padded + zero_digits(1)) =~= padded.push('0'));
        }
        facc = facc * 10;
        fcount = fcount + 1;
        proof {
            padded = padded.push('0');
            assert(fcount >= frac_part.len() ==> padded =~= frac_part + zero_digits(
                fcount - frac_part.len(),
            ));
        }
    }
    proof {
        assert(padded =~= pad_to_six(frac_part));
        assert(all_digits(int_part));
        assert(all_digits(frac_part));
        assert(parse_unsigned_fixed(t) == Some(
            digits_val(int_part) * SCALE + digits_val(pad_to_six(frac_part)),
        ));
    }
    let value: i64 = acc * SCALE + facc;
    Some(value)
}

/// The decimal digits collected by repeated division, read back to front.
spec fn rev_chars(ds: Seq<i64>) -> Seq<char> {
    Seq::new(ds.len(), |i: int| digit_char(ds[ds.len() - 1 - i] as int))
}

/// The one-character string of a decimal digit.
fn digit_str(d: i64) -> (r: &'static str)
    requires
        0 <= d <= 9,
    ensures
        r@ =~= seq![digit_char(d as int)],
{
    proof {
        reveal_strlit("0");
        reveal_strlit("1");
        reveal_strlit("2");
        reveal_strlit("3");
        reveal_strlit("4");
        reveal_strlit("5");
        reveal_strlit("6");
        reveal_strlit("7");
        reveal_strlit("8");
        reveal_strlit("9");
    }
    if d == 0 {
        "0"
    } else if d == 1 {
        "1"
    } else if d == 2 {
        "2"
    } else if d == 3 {
        "3"
    } else if d == 4 {
        "4"
    } else if d == 5 {
        "5"
    } else if d == 6 {
        "6"
    } else if d == 7 {
        "7"
    } else if d == 8 {
        "8"
    } else {
        "9"
    }
}

/// Renders a fixed-point number as its canonical decimal text: sign,
/// integer digits, a dot, six fraction digits.
#[verifier::rlimit(60)]
pub fn fixed_to_string(v: i64) -> (r: String)
    requires
        v > i64::MIN,
    ensures
        r@ == fixed_string(v as int),
{
    let neg = v < 0;
    let mag: i64 = if v < 0 {
        -v
    } else {
        v
    };
    let q: i64 = mag / SCALE;
    let frac: i64 = mag % SCALE;
    // Collect the integer digits, least significant first.
    let mut digs: Vec<i64> = Vec::new();
    digs.push(q % 10);
    let mut x: i64 = q / 10;
    proof {
        assert(rev_chars(digs@) =~= seq![digit_char(q as int % 10)]);
        if q < 10 {
            assert(q % 10 == q);
        } else {
            assert(digits_of(q as int) =~= digits_of(q as int / 10) + seq![digit_char(q as int % 10)]);
        }
    }
    while x > 0
        invariant
            0 <= x,
            0 <= q,
            digs@.len() >= 1,
            forall|j: int| 0 <= j < digs@.len() ==> 0 <= #[trigger] digs@[j] <= 9,
            x > 0 ==> digits_of(q as int) =~= digits_of(x as int) + rev_chars(digs@),
            x == 0 ==> digits_of(q as int) =~= rev_chars(digs@),
        decreases x,
    {
        let c = x % 10;
        let ghost old_digs = digs@;
        digs.push(c);
        proof {
            assert(rev_chars(digs@) =~= seq![digit_char(c as int)] + rev_chars(old_digs));
            if x < 10 {
                assert(x % 10 == x);
                assert(digits_of(x as int) =~= seq![digit_char(x as int)]);
            } else {
                assert(digits_of(x as int) =~= digits_of(x as int / 10) + seq![
                    digit_char(x as int % 10),
                ]);
            }
        }
        x = x / 10;
    }
    // Emit: sign, integer digits back to front, dot, six fraction digits.
    let mut out = String::new();
    if neg {
        out.append("-");
        proof {
            reveal_strlit("-");
        }
    }
    let ghost sign: Seq<char> = if neg {
        seq!['-']
    } else {
        Seq::<char>::empty()
    };
    proof {
        assert(out@ =~= sign);
    }
    let ghost rev = rev_chars(digs@);
    let mut k: usize = digs.len();
    while k > 0
        invariant
            0 <= k <= digs@.len(),
            rev == rev_chars(digs@),
            rev.len() == digs@.len(),
            forall|j: int| 0 <= j < digs@.len() ==> 0 <= #[trigger] digs@[j] <= 9,
            out@ =~= sign + rev.take(digs@.len() - k),
        decreases k,
    {
        k = k - 1;
        let ghost before = out@;
        out.append(digit_str(digs[k]));
        proof {
            assert(rev[digs@.len() - 1 - k as int] == digit_char(digs@[k as int] as int));
            assert(rev.take(digs@.len() - k as int) =~= rev.take(digs@.len() - k as int - 1).push(
                rev[digs@.len() - 1 - k as int],
            ));
        }
    }
    proof {
        assert(rev.take(digs@.len() as int) =~= rev);
        assert(out@ =~= sign + digits_of(q as int));
    }
    out.append(".");
    proof {
        reveal_strlit(".");
        assert(out@ =~= sign + digits_of(q as int) + seq!['.']);
    }
    let ghost base = sign + digits_of(q as int) + seq!['.'];
    let ghost fr = frac_chars(frac as int);
    proof {
        assert(fr.len() == 6);
        assert(fr[0] == digit_char((frac as int / 100_000) % 10));
        assert(fr[1] == digit_char((frac as int / 10_000) % 10));
        assert(fr[2] == digit_char((frac as int / 1_000) % 10));
        assert(fr[3] == digit_char((frac as int / 100) % 10));
        assert(fr[4] == digit_char((frac as int / 10) % 10));
        assert(fr[5] == digit_char((frac as int / 1) % 10));
    }
    let f0 = (frac / 100_000) % 10;
    out.append(digit_str(f0));
    proof {
        assert(out@ =~= base + fr.take(1));
    }
    let f1 = (frac / 10_000) % 10;
    out.append(digit_str(f1));
    proof {
        assert(out@ =~= base + fr.take(2));
    }
    let f2 = (frac / 1_000) % 10;
    out.append(digit_str(f2));
    proof {
        assert(out@ =~= base + fr.take(3));
    }
    let f3 = (frac / 100) % 10;
    out.append(digit_str(f3));
    proof {
        assert(out@ =~= base + fr.take(4));
    }
    let f4 = (frac / 10) % 10;
    out.append(digit_str(f4));
    proof {
        assert(out@ =~= base + fr.take(5));
    }
    let f5 = frac % 10;
    out.append(digit_str(f5));
    proof {
        assert(fr.take(6) =~= fr);
        assert(out@ =~= base + fr);
        assert(out@ =~= fixed_string(v as int));
    }
    out
}

/// Parses a counter string into a `u16`: `None` when the string is not all
/// digits (after an optional plus sign) or its value does not fit.
pub fn parse_u16(s: &str) -> (r: Option<u16>)
    ensures
        r == parse_u16_result(s@),
{
    let n = s.unicode_len();
    let mut start: usize = 0;
    if n >= 1 {
        let c0 = s.get_char(0);
        if c0 == '+' {
            start = 1;
        }
    }
    let ghost t = if s@.len() >= 1 && s@[0] == '+' {
        s@.skip(1)
    } else {
        s@
    };
    proof {
        if start == 0 {
            assert(s@.skip(0) =~= s@);
        }
        assert(t == s@.skip(start as int));
    }
    if start >= n {
        return None;
    }
    let mut acc: u32 = 0;
    let mut j: usize = start;
    proof {
        assert(t.take(0) =~= Seq::<char>::empty());
    }
    while j < n
        invariant
            n == s@.len(),
            start <= j <= n,
            start < n,
            t == s@.skip(start as int),
            t == (if s@.len() >= 1 && s@[0] == '+' {
                s@.skip(1)
            } else {
                s@
            }),
            t.len() == n - start,
            all_digits(t.take(j - start)),
            acc == digits_val(t.take(j - start)),
            0 <= acc <= u16::MAX,
        decreases n - j,
    {
        let c = s.get_char(j);
        let v = c as u32;
        proof {
            assert(t[j - start] == s@[j as int]);
        }
        if v < 48 || v > 57 {
            proof {
                assert(!is_digit(t[j - start]));
                assert(!all_digits(t));
            }
            return None;
        }
        proof {
            lemma_digits_val_step(t, j - start);
        }
        let next = acc * 10 + (v - 48);
        if next > 65535 {
            proof {
                if parse_counter_spec(s@) is Some {
                    assert(all_digits(t));
                    lemma_digits_val_prefix(t, j - start + 1);
                    assert(digits_val(t) >= next);
                }
            }
            return None;
        }
        acc = next;
        j = j + 1;
    }
    proof {
        assert(t.take(n - start) =~= t);
    }
    Some(acc as u16)
}

} // verus!
