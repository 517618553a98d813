//! Character-level text building: decimal numerals, padding and the
//! conversions between `&str`, `String` and character vectors.

use vstd::prelude::*;

verus! {

/// The ASCII digit for `d` in 0..=9.
pub open spec fn digit_char(d: int) -> char {
    if d == 0 { '0' }
    else if d == 1 { '1' }
    else if d == 2 { '2' }
    else if d == 3 { '3' }
    else if d == 4 { '4' }
    else if d == 5 { '5' }
    else if d == 6 { '6' }
    else if d == 7 { '7' }
    else if d == 8 { '8' }
    else { '9' }
}

/// Decimal numeral of `n`, without leading zeros.
pub open spec fn decimal(n: nat) -> Seq<char>
    decreases n,
{
    if n < 10 {
        seq![digit_char(n as int)]
    } else {
        decimal(n / 10).push(digit_char((n % 10) as int))
    }
}

/// `n` copies of `c`.
pub open spec fn repeat_char(c: char, n: nat) -> Seq<char> {
    Seq::new(n, |_i: int| c)
}

/// `s` right-aligned in a field of `w` characters filled with `c`.
pub open spec fn pad_left(s: Seq<char>, w: nat, c: char) -> Seq<char> {
    if s.len() >= w { s } else { repeat_char(c, (w - s.len()) as nat) + s }
}

/// `s` left-aligned in a field of `w` characters filled with spaces.
pub open spec fn pad_right(s: Seq<char>, w: nat) -> Seq<char> {
    if s.len() >= w { s } else { s + repeat_char(' ', (w - s.len()) as nat) }
}

/// The numeral Rust's `{}` prints for an integer.
pub open spec fn int_text(i: int) -> Seq<char> {
    if i < 0 { seq!['-'] + decimal((-i) as nat) } else { decimal(i as nat) }
}

/// The numeral Rust's `{:0w$}` prints for an integer: zeros go between the
/// sign and the digits, and the sign counts towards the width.
pub open spec fn zero_padded(i: int, w: nat) -> Seq<char> {
    if i < 0 {
        seq!['-'] + pad_left(decimal((-i) as nat), (w - 1) as nat, '0')
    } else {
        pad_left(decimal(i as nat), w, '0')
    }
}

fn digit(d: u32) -> (c: char)
    requires
        d < 10,
    ensures
        c == digit_char(d as int),
{
    if d == 0 { '0' }
    else if d == 1 { '1' }
    else if d == 2 { '2' }
    else if d == 3 { '3' }
    else if d == 4 { '4' }
    else if d == 5 { '5' }
    else if d == 6 { '6' }
    else if d == 7 { '7' }
    else if d == 8 { '8' }
    else { '9' }
}

/// Appends the decimal numeral of `n`.
pub fn push_decimal(out: &mut Vec<char>, n: u32)
    ensures
        final(out)@ == old(out)@ + decimal(n as nat),
    decreases n,
{
    if n >= 10 {
        push_decimal(out, n / 10);
    }
    out.push(digit(n % 10));
    proof {
        if n >= 10 {
            assert(old(out)@ + decimal(n as nat) =~= old(out)@ + decimal((n / 10) as nat) + seq![digit_char((n % 10) as int)]);
        }
    }
}

/// Appends the characters of `s`.
pub fn push_str(out: &mut Vec<char>, s: &str)
    ensures
        final(out)@ == old(out)@ + s@,
{
    let ghost start = out@;
    for c in it: s.chars()
        invariant
            out@ == start + it.seq().take(it.index() as int),
            it.seq() == s@,
    {
        out.push(c);
    }
}

/// The characters of `s`.
pub fn chars_of(s: &str) -> (res: Vec<char>)
    ensures
        res@ == s@,
{
    let mut out: Vec<char> = Vec::new();
    push_str(&mut out, s);
    out
}

/// Decimal digits of `n`, into a fresh vector.
pub fn decimal_chars(n: u32) -> (res: Vec<char>)
    ensures
        res@ == decimal(n as nat),
{
    let mut v: Vec<char> = Vec::new();
    push_decimal(&mut v, n);
    assert(v@ =~= decimal(n as nat));
    v
}

/// Appends `n` copies of `c`.
pub fn push_repeat(out: &mut Vec<char>, c: char, n: usize)
    ensures
        final(out)@ == old(out)@ + repeat_char(c, n as nat),
{
    let ghost start = out@;
    let mut i: usize = 0;
    while i < n
        invariant
            0 <= i <= n,
            out@ == start + repeat_char(c, i as nat),
        decreases n - i,
    {
        out.push(c);
        i = i + 1;
        assert(out@ =~= start + repeat_char(c, i as nat));
    }
}

/// Appends the characters of `s`.
pub fn push_chars(out: &mut Vec<char>, s: &Vec<char>)
    ensures
        final(out)@ == old(out)@ + s@,
{
    let ghost start = out@;
    let mut i: usize = 0;
    while i < s.len()
        invariant
            0 <= i <= s.len(),
            out@ == start + s@.take(i as int),
        decreases s.len() - i,
    {
        out.push(s[i]);
        i = i + 1;
        assert(out@ =~= start + s@.take(i as int));
    }
    assert(s@.take(s.len() as int) =~= s@);
}

/// Appends `s` right-aligned in a field of `w` characters filled with `c`.
pub fn push_pad_left(out: &mut Vec<char>, s: &Vec<char>, w: usize, c: char)
    ensures
        final(out)@ == old(out)@ + pad_left(s@, w as nat, c),
{
    let ghost start = out@;
    if s.len() < w {
        push_repeat(out, c, w - s.len());
    }
    push_chars(out, s);
    assert(out@ =~= start + pad_left(s@, w as nat, c));
}

/// Appends `s` left-aligned in a field of `w` characters filled with spaces.
pub fn push_pad_right(out: &mut Vec<char>, s: &Vec<char>, w: usize)
    ensures
        final(out)@ == old(out)@ + pad_right(s@, w as nat),
{
    let ghost start = out@;
    push_chars(out, s);
    if s.len() < w {
        push_repeat(out, ' ', w - s.len());
    }
    assert(out@ =~= start + pad_right(s@, w as nat));
}

/// Appends the numeral Rust's `{}` prints for `i`.
pub fn push_int(out: &mut Vec<char>, i: i32)
    ensures
        final(out)@ == old(out)@ + int_text(i as int),
{
    let ghost start = out@;
    if i < 0 {
        out.push('-');
        let m: u32 = if i == i32::MIN { 2147483648u32 } else { (-i) as u32 };
        push_decimal(out, m);
        assert(out@ =~= start + int_text(i as int));
    } else {
        push_decimal(out, i as u32);
    }
}

/// Appends the numeral Rust's `{:0w$}` prints for `i`.
pub fn push_zero_padded(out: &mut Vec<char>, i: i32, w: usize)
    requires
        w >= 1,
    ensures
        final(out)@ == old(out)@ + zero_padded(i as int, w as nat),
{
    let ghost start = out@;
    if i < 0 {
        out.push('-');
        let m: u32 = if i == i32::MIN { 2147483648u32 } else { (-i) as u32 };
        let d = decimal_chars(m);
        push_pad_left(out, &d, w - 1, '0');
        assert(out@ =~= start + zero_padded(i as int, w as nat));
    } else {
        let d = decimal_chars(i as u32);
        push_pad_left(out, &d, w, '0');
    }
}

/// `s` holds no escape character (`ESC`, which starts ANSI sequences).
pub open spec fn plain(s: Seq<char>) -> bool {
    forall|i: int| 0 <= i < s.len() ==> #[trigger] s[i] != '\x1b'
}

/// Joining texts without escape characters gives one without.
pub proof fn lemma_plain_concat(a: Seq<char>, b: Seq<char>)
    requires
        plain(a),
        plain(b),
    ensures
        plain(a + b),
{
    assert forall|i: int| 0 <= i < (a + b).len() implies #[trigger] (a + b)[i] != '\x1b' by {
        if i < a.len() {
            assert((a + b)[i] == a[i]);
        } else {
            assert((a + b)[i] == b[i - a.len()]);
        }
    }
}

/// Numerals hold no escape character.
pub proof fn lemma_decimal_plain(n: nat)
    ensures
        plain(decimal(n)),
    decreases n,
{
    let s = decimal(n);
    if n >= 10 {
        lemma_decimal_plain(n / 10);
        assert forall|i: int| 0 <= i < s.len() implies #[trigger] s[i] != '\x1b' by {
            if i < s.len() - 1 {
                assert(s[i] == decimal(n / 10)[i]);
            }
        }
    }
}

/// Integer numerals hold no escape character.
pub proof fn lemma_int_text_plain(i: int)
    ensures
        plain(int_text(i)),
{
    if i < 0 {
        lemma_decimal_plain((-i) as nat);
        lemma_plain_concat(seq!['-'], decimal((-i) as nat));
    } else {
        lemma_decimal_plain(i as nat);
    }
}

/// `s` holds no line break.
pub open spec fn no_newline(s: Seq<char>) -> bool {
    forall|i: int| 0 <= i < s.len() ==> #[trigger] s[i] != '\n'
}

/// Joining texts without line breaks gives one without.
pub proof fn lemma_no_newline_concat(a: Seq<char>, b: Seq<char>)
    requires
        no_newline(a),
        no_newline(b),
    ensures
        no_newline(a + b),
{
    assert forall|i: int| 0 <= i < (a + b).len() implies #[trigger] (a + b)[i] != '\n' by {
        if i < a.len() {
            assert((a + b)[i] == a[i]);
        } else {
            assert((a + b)[i] == b[i - a.len()]);
        }
    }
}

/// Numerals and their paddings hold no line break.
pub proof fn lemma_numeral_no_newline(i: int, w: nat)
    ensures
        no_newline(int_text(i)),
        no_newline(zero_padded(i, w)),
        i >= 0 ==> no_newline(decimal(i as nat)),
        i >= 0 ==> no_newline(pad_left(decimal(i as nat), w, ' ')),
{
    let n: nat = if i < 0 { (-i) as nat } else { i as nat };
    crate::parse::lemma_decimal_digits(n);
    let d = decimal(n);
    assert forall|k: int| 0 <= k < d.len() implies #[trigger] d[k] != '\n' by {
        assert(crate::parse::is_digit(d[k]));
    }
    assert(no_newline(seq!['-']));
    lemma_no_newline_pads(d, w, ' ');
    lemma_no_newline_pads(d, w, '0');
    lemma_no_newline_pads(d, (w - 1) as nat, '0');
    lemma_no_newline_concat(seq!['-'], d);
    lemma_no_newline_concat(seq!['-'], pad_left(d, (w - 1) as nat, '0'));
}

/// Padding text without line breaks, with a fill that is none, gives text
/// without.
pub proof fn lemma_no_newline_pads(s: Seq<char>, w: nat, c: char)
    requires
        no_newline(s),
        c != '\n',
    ensures
        no_newline(pad_left(s, w, c)),
        no_newline(pad_right(s, w)),
{
    if s.len() < w {
        let k = (w - s.len()) as nat;
        assert(no_newline(repeat_char(c, k)));
        assert(no_newline(repeat_char(' ', k)));
        lemma_no_newline_concat(repeat_char(c, k), s);
        lemma_no_newline_concat(s, repeat_char(' ', k));
    }
}

/// Padding text without escape characters, with a fill that is none,
/// gives text without.
pub proof fn lemma_pads_plain(s: Seq<char>, w: nat, c: char)
    requires
        plain(s),
        c != '\x1b',
    ensures
        plain(pad_left(s, w, c)),
        plain(pad_right(s, w)),
{
    if s.len() < w {
        let k = (w - s.len()) as nat;
        assert(plain(repeat_char(c, k)));
        assert(plain(repeat_char(' ', k)));
        lemma_plain_concat(repeat_char(c, k), s);
        lemma_plain_concat(s, repeat_char(' ', k));
    }
}

/// Zero-padded numerals hold no escape character.
pub proof fn lemma_zero_padded_plain(i: int, w: nat)
    ensures
        plain(zero_padded(i, w)),
{
    if i < 0 {
        lemma_decimal_plain((-i) as nat);
        lemma_pads_plain(decimal((-i) as nat), (w - 1) as nat, '0');
        lemma_plain_concat(seq!['-'], pad_left(decimal((-i) as nat), (w - 1) as nat, '0'));
    } else {
        lemma_decimal_plain(i as nat);
        lemma_pads_plain(decimal(i as nat), w, '0');
    }
}

/// `p` is a prefix of `w`.
pub open spec fn is_prefix(p: Seq<char>, w: Seq<char>) -> bool {
    p.len() <= w.len() && w.subrange(0, p.len() as int) == p
}

/// Whether two character vectors hold the same characters.
pub fn chars_equal(a: &Vec<char>, b: &Vec<char>) -> (r: bool)
    ensures
        r == (a@ == b@),
{
    if a.len() != b.len() {
        return false;
    }
    let mut i: usize = 0;
    while i < a.len()
        invariant
            a.len() == b.len(),
            0 <= i <= a.len(),
            forall|k: int| 0 <= k < i ==> a@[k] == b@[k],
        decreases a.len() - i,
    {
        if a[i] != b[i] {
            return false;
        }
        i = i + 1;
    }
    assert(a@ =~= b@);
    true
}

/// Whether `p` is a prefix of `w`.
pub fn has_prefix(w: &Vec<char>, p: &Vec<char>) -> (r: bool)
    ensures
        r == is_prefix(p@, w@),
{
    if p.len() > w.len() {
        return false;
    }
    let mut i: usize = 0;
    while i < p.len()
        invariant
            p.len() <= w.len(),
            0 <= i <= p.len(),
            forall|k: int| 0 <= k < i ==> w@[k] == p@[k],
        decreases p.len() - i,
    {
        if w[i] != p[i] {
            assert(w@.subrange(0, p.len() as int)[i as int] != p@[i as int]);
            return false;
        }
        i = i + 1;
    }
    assert(w@.subrange(0, p.len() as int) =~= p@);
    true
}

/// Whether `a` and `b` hold the same characters.
pub fn str_equals(a: &str, b: &str) -> (r: bool)
    ensures
        r == (a@ == b@),
{
    let x = chars_of(a);
    let y = chars_of(b);
    chars_equal(&x, &y)
}

/// Calls std's `FromIterator<char> for String` on the characters; the
/// string holds exactly those characters, in order.
#[verifier::external_body]
pub fn string_from_chars(chars: &Vec<char>) -> (res: String)
    ensures
        res@ == chars@,
{
    chars.iter().collect()
}

} // verus!
