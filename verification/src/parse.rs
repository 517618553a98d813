//! Reading decimal integers the way Rust's `str::parse` does, and splitting
//! text at dashes.

use vstd::prelude::*;

use crate::text::chars_of;

verus! {

/// ASCII decimal digit.
pub open spec fn is_digit(c: char) -> bool {
    '0' <= c && c <= '9'
}

/// Value of an ASCII decimal digit.
pub open spec fn digit_value(c: char) -> int {
    c as int - '0' as int
}

/// Every character of `s` is a decimal digit.
pub open spec fn all_digits(s: Seq<char>) -> bool {
    forall|i: int| 0 <= i < s.len() ==> is_digit(#[trigger] s[i])
}

/// Value of a string of decimal digits (leading zeros allowed).
pub open spec fn digits_value(s: Seq<char>) -> int
    decreases s.len(),
{
    if s.len() == 0 {
        0
    } else {
        digits_value(s.drop_last()) * 10 + digit_value(s.last())
    }
}

/// What Rust's `str::parse` gives for an integer type with values
/// `lo..=hi` (a signed type when `lo < 0`): an optional `+` (or `-` for a
/// signed type), then one or more decimal digits, with the value in range.
pub open spec fn parse_decimal(s: Seq<char>, lo: int, hi: int) -> Option<int> {
    if s.len() == 0 {
        None
    } else {
        let negative = lo < 0 && s[0] == '-';
        let body = if s[0] == '+' || negative { s.drop_first() } else { s };
        if body.len() == 0 || !all_digits(body) {
            None
        } else {
            let v = if negative { -digits_value(body) } else { digits_value(body) };
            if lo <= v <= hi { Some(v) } else { None }
        }
    }
}

/// Value of a digit string, capped at `cap`.
pub open spec fn capped(v: int, cap: int) -> int {
    if v < cap { v } else { cap }
}

proof fn lemma_digits_value_nonneg(s: Seq<char>)
    requires
        all_digits(s),
    ensures
        digits_value(s) >= 0,
    decreases s.len(),
{
    if s.len() > 0 {
        assert(all_digits(s.drop_last())) by {
            assert forall|i: int| 0 <= i < s.drop_last().len() implies is_digit(#[trigger] s.drop_last()[i]) by {
                assert(s.drop_last()[i] == s[i]);
            }
        }
        lemma_digits_value_nonneg(s.drop_last());
        assert(is_digit(s[s.len() - 1]));
    }
}

/// Reads `s` as a decimal integer of the range `lo..=hi`, as Rust's
/// `str::parse` does for such a type.
fn parse_decimal_chars(s: &Vec<char>, lo: i64, hi: i64) -> (res: Option<i64>)
    requires
        -2147483648 <= lo <= 0,
        0 <= hi <= 2147483647,
    ensures
        res matches Some(v) ==> parse_decimal(s@, lo as int, hi as int) == Some(v as int),
        res is None ==> parse_decimal(s@, lo as int, hi as int) is None,
{
    if s.len() == 0 {
        return None;
    }
    let negative = lo < 0 && s[0] == '-';
    let start: usize = if s[0] == '+' || negative { 1 } else { 0 };
    let ghost body = if s@[0] == '+' || negative { s@.drop_first() } else { s@ };
    if start >= s.len() {
        return None;
    }
    assert(body =~= s@.subrange(start as int, s.len() as int));
    let cap: i64 = 4294967296;
    let mut acc: i64 = 0;
    let mut i: usize = start;
    while i < s.len()
        invariant
            1 <= s.len(),
            start <= i <= s.len(),
            start == 0 || start == 1,
            body == s@.subrange(start as int, s.len() as int),
            negative == (lo < 0 && s@[0] == '-'),
            body == (if s@[0] == '+' || negative { s@.drop_first() } else { s@ }),
            body.len() > 0,
            all_digits(body.take(i - start)),
            acc == capped(digits_value(body.take(i - start)), cap as int),
            0 <= acc <= cap,
            cap == 4294967296,
        decreases s.len() - i,
    {
        let c = s[i];
        if !('0' <= c && c <= '9') {
            assert(body[i - start] == c);
            assert(!is_digit(body[i - start]));
            assert(!all_digits(body));
            return None;
        }
        let d: i64 = (c as u32 - '0' as u32) as i64;
        proof {
            let pre = body.take(i - start);
            let nxt = body.take(i - start + 1);
            assert(nxt.drop_last() =~= pre);
            assert(nxt.last() == c);
            assert(digits_value(nxt) == digits_value(pre) * 10 + d);
            lemma_digits_value_nonneg(pre);
            assert(all_digits(nxt)) by {
                assert forall|k: int| 0 <= k < nxt.len() implies is_digit(#[trigger] nxt[k]) by {
                    if k < pre.len() {
                        assert(nxt[k] == pre[k]);
                    }
                }
            }
        }
        if acc >= cap {
            acc = cap;
        } else {
            let next = acc * 10 + d;
            acc = if next < cap { next } else { cap };
        }
        i = i + 1;
    }
    assert(body.take(i - start) =~= body);
    proof {
        lemma_digits_value_nonneg(body);
    }
    let v: i64 = if negative { -acc } else { acc };
    if acc >= cap {
        return None;
    }
    if lo <= v && v <= hi {
        Some(v)
    } else {
        None
    }
}

/// `s.parse::<i32>().ok()`.
pub fn parse_i32(s: &str) -> (res: Option<i32>)
    ensures
        res matches Some(v) ==> parse_decimal(s@, i32::MIN as int, i32::MAX as int) == Some(v as int),
        res is None ==> parse_decimal(s@, i32::MIN as int, i32::MAX as int) is None,
{
    let v = chars_of(s);
    match parse_decimal_chars(&v, -2147483648, 2147483647) {
        Some(x) => Some(x as i32),
        None => None,
    }
}

/// `s.parse::<u8>().ok()`.
pub fn parse_u8(s: &str) -> (res: Option<u8>)
    ensures
        res matches Some(v) ==> parse_decimal(s@, 0, 255) == Some(v as int),
        res is None ==> parse_decimal(s@, 0, 255) is None,
{
    let v = chars_of(s);
    match parse_decimal_chars(&v, 0, 255) {
        Some(x) => Some(x as u8),
        None => None,
    }
}

} // verus!

verus! {

/// The pieces of `s` between dashes (`str::split('-')`).
pub open spec fn split_dashes(s: Seq<char>) -> Seq<Seq<char>>
    decreases s.len(),
{
    if s.len() == 0 {
        seq![seq![]]
    } else {
        let parts = split_dashes(s.drop_last());
        if s.last() == '-' {
            parts.push(seq![])
        } else {
            parts.drop_last().push(parts.last().push(s.last()))
        }
    }
}

/// Splits `s` at every dash.
pub fn split_dash_chars(s: &Vec<char>) -> (res: Vec<Vec<char>>)
    ensures
        res@.map_values(|v: Vec<char>| v@) == split_dashes(s@),
{
    let mut done: Vec<Vec<char>> = Vec::new();
    let mut cur: Vec<char> = Vec::new();
    let mut i: usize = 0;
    assert(s@.take(0) =~= Seq::<char>::empty());
    while i < s.len()
        invariant
            0 <= i <= s.len(),
            done@.map_values(|v: Vec<char>| v@).push(cur@) == split_dashes(s@.take(i as int)),
        decreases s.len() - i,
    {
        let c = s[i];
        let ghost prev_done = done@.map_values(|v: Vec<char>| v@);
        let ghost prev_cur = cur@;
        proof {
            assert(s@.take(i + 1).drop_last() =~= s@.take(i as int));
            assert(s@.take(i + 1).last() == c);
        }
        if c == '-' {
            let finished = cur;
            cur = Vec::new();
            done.push(finished);
            assert(done@.map_values(|v: Vec<char>| v@) =~= prev_done.push(prev_cur));
            assert(done@.map_values(|v: Vec<char>| v@).push(cur@) =~= prev_done.push(prev_cur).push(seq![]));
        } else {
            cur.push(c);
            assert(prev_done.push(prev_cur).drop_last() =~= prev_done);
            assert(done@.map_values(|v: Vec<char>| v@).push(cur@) =~= prev_done.push(prev_cur).drop_last().push(prev_cur.push(c)));
        }
        i = i + 1;
    }
    assert(s@.take(i as int) =~= s@);
    let ghost prev_done = done@.map_values(|v: Vec<char>| v@);
    let ghost last = cur@;
    done.push(cur);
    assert(done@.map_values(|v: Vec<char>| v@) =~= prev_done.push(last));
    done
}

} // verus!

verus! {

/// `s` holds no dash.
pub open spec fn dashless(s: Seq<char>) -> bool {
    forall|i: int| 0 <= i < s.len() ==> #[trigger] s[i] != '-'
}

proof fn lemma_split_dashless_tail(x: Seq<char>, y: Seq<char>)
    requires
        dashless(y),
    ensures
        split_dashes(x + seq!['-'] + y) == split_dashes(x).push(y),
    decreases y.len(),
{
    if y.len() == 0 {
        assert(x + seq!['-'] + y =~= x.push('-'));
        assert((x.push('-')).drop_last() =~= x);
        assert(y =~= Seq::<char>::empty());
    } else {
        let y0 = y.drop_last();
        assert(dashless(y0)) by {
            assert forall|i: int| 0 <= i < y0.len() implies #[trigger] y0[i] != '-' by {
                assert(y0[i] == y[i]);
            }
        }
        lemma_split_dashless_tail(x, y0);
        let s = x + seq!['-'] + y;
        assert(s.drop_last() =~= x + seq!['-'] + y0);
        assert(s.last() == y[y.len() - 1]);
        assert(y[y.len() - 1] != '-');
        assert(y0.push(y.last()) =~= y);
        assert(split_dashes(x).push(y0).drop_last() =~= split_dashes(x));
        assert(split_dashes(s) =~= split_dashes(x).push(y0).drop_last().push(y0.push(y.last())));
    }
}

proof fn lemma_split_dashless(y: Seq<char>)
    requires
        dashless(y),
    ensures
        split_dashes(y) == seq![y],
    decreases y.len(),
{
    if y.len() == 0 {
        assert(y =~= Seq::<char>::empty());
    } else {
        let y0 = y.drop_last();
        assert(dashless(y0)) by {
            assert forall|i: int| 0 <= i < y0.len() implies #[trigger] y0[i] != '-' by {
                assert(y0[i] == y[i]);
            }
        }
        lemma_split_dashless(y0);
        assert(y[y.len() - 1] != '-');
        assert(y0.push(y.last()) =~= y);
        assert(seq![y0].drop_last().push(y0.push(y.last())) =~= seq![y]);
    }
}

/// Splitting `a-b-c` at dashes gives `a`, `b` and `c` when none holds a dash.
pub proof fn lemma_split_three(a: Seq<char>, b: Seq<char>, c: Seq<char>)
    requires
        dashless(a),
        dashless(b),
        dashless(c),
    ensures
        split_dashes(a + seq!['-'] + b + seq!['-'] + c) == seq![a, b, c],
{
    lemma_split_dashless(a);
    lemma_split_dashless_tail(a, b);
    lemma_split_dashless_tail(a + seq!['-'] + b, c);
    assert(seq![a].push(b).push(c) =~= seq![a, b, c]);
}

/// The decimal numeral of `n` is made of digits and reads back as `n`.
pub proof fn lemma_decimal_digits(n: nat)
    ensures
        all_digits(crate::text::decimal(n)),
        digits_value(crate::text::decimal(n)) == n,
        crate::text::decimal(n).len() > 0,
    decreases n,
{
    let s = crate::text::decimal(n);
    if n < 10 {
        assert(s.drop_last() =~= Seq::<char>::empty());
        lemma_digit_char(n as int);
        assert(s.last() == crate::text::digit_char(n as int));
        assert(digits_value(s) == digits_value(s.drop_last()) * 10 + digit_value(s.last()));
    } else {
        lemma_digit_char((n % 10) as int);
        lemma_decimal_digits(n / 10);
        let p = crate::text::decimal(n / 10);
        assert(s.drop_last() =~= p);
        assert(s.last() == crate::text::digit_char((n % 10) as int));
        assert(digits_value(s) == digits_value(p) * 10 + digit_value(s.last()));
        assert(n == (n / 10) * 10 + n % 10);
        assert forall|i: int| 0 <= i < s.len() implies is_digit(#[trigger] s[i]) by {
            if i < p.len() {
                assert(s[i] == p[i]);
            }
        }
    }
}

/// Leading zeros change neither the digit-ness nor the value of a numeral.
pub proof fn lemma_leading_zeros(k: nat, t: Seq<char>)
    requires
        all_digits(t),
    ensures
        all_digits(crate::text::repeat_char('0', k) + t),
        digits_value(crate::text::repeat_char('0', k) + t) == digits_value(t),
    decreases t.len(),
{
    let z = crate::text::repeat_char('0', k);
    let s = z + t;
    assert forall|i: int| 0 <= i < s.len() implies is_digit(#[trigger] s[i]) by {
        if i < z.len() {
            assert(s[i] == '0');
        } else {
            assert(s[i] == t[i - z.len()]);
        }
    }
    if t.len() == 0 {
        lemma_zeros_value(k);
        assert(s =~= z);
    } else {
        let t0 = t.drop_last();
        assert(all_digits(t0)) by {
            assert forall|i: int| 0 <= i < t0.len() implies is_digit(#[trigger] t0[i]) by {
                assert(t0[i] == t[i]);
            }
        }
        lemma_leading_zeros(k, t0);
        assert(s.drop_last() =~= z + t0);
    }
}

proof fn lemma_digit_char(d: int)
    requires
        0 <= d < 10,
    ensures
        is_digit(crate::text::digit_char(d)),
        digit_value(crate::text::digit_char(d)) == d,
{
}

proof fn lemma_zeros_value(k: nat)
    ensures
        digits_value(crate::text::repeat_char('0', k)) == 0,
    decreases k,
{
    if k > 0 {
        lemma_zeros_value((k - 1) as nat);
        assert(crate::text::repeat_char('0', k).drop_last() =~= crate::text::repeat_char('0', (k - 1) as nat));
    }
}

} // verus!

verus! {

/// A zero-padded numeral of a non-negative number holds no dash and reads
/// back as that number.
pub proof fn lemma_zero_padded_reads_back(v: int, w: nat, lo: int, hi: int)
    requires
        0 <= v,
        lo <= 0,
        v <= hi,
    ensures
        dashless(crate::text::zero_padded(v, w)),
        parse_decimal(crate::text::zero_padded(v, w), lo, hi) == Some(v),
{
    let dec = crate::text::decimal(v as nat);
    lemma_decimal_digits(v as nat);
    let s = crate::text::zero_padded(v, w);
    if dec.len() >= w {
        assert(s == dec);
    } else {
        let k = (w - dec.len()) as nat;
        lemma_leading_zeros(k, dec);
        assert(s == crate::text::repeat_char('0', k) + dec);
    }
    assert(all_digits(s));
    assert(s.len() > 0);
    assert forall|i: int| 0 <= i < s.len() implies #[trigger] s[i] != '-' by {
        assert(is_digit(s[i]));
    }
    assert(is_digit(s[0]));
    assert(s[0] != '+' && s[0] != '-');
}

} // verus!
