//! Reading decimal text into fixed-point integers.
use vstd::prelude::*;
use vstd::std_specs::iter::IteratorSpec;

verus! {

/// Whether `c` is an ASCII decimal digit.
pub open spec fn is_digit(c: char) -> bool {
    '0' <= c && c <= '9'
}

/// The value of a decimal digit.
pub open spec fn digit_value(c: char) -> int {
    (c as int) - ('0' as int)
}

/// Whether every character of `s` is a decimal digit.
pub open spec fn all_digits(s: Seq<char>) -> bool {
    forall|i: int| 0 <= i < s.len() ==> #[trigger] is_digit(s[i])
}

/// The number that a string of decimal digits spells.
pub open spec fn digits_value(s: Seq<char>) -> int
    decreases s.len(),
{
    if s.len() == 0 {
        0
    } else {
        digits_value(s.drop_last()) * 10 + digit_value(s.last())
    }
}

/// Ten to the power `n`.
pub open spec fn pow10(n: nat) -> int
    decreases n,
{
    if n == 0 {
        1
    } else {
        10 * pow10((n - 1) as nat)
    }
}

/// The text after an optional leading `+`.
pub open spec fn unsigned_body(s: Seq<char>) -> Seq<char> {
    if s.len() > 0 && s[0] == '+' {
        s.drop_first()
    } else {
        s
    }
}

/// Whether `s` is an unsigned integer: an optional `+` and one or more digits.
pub open spec fn is_integer_text(s: Seq<char>) -> bool {
    unsigned_body(s).len() > 0 && all_digits(unsigned_body(s))
}

/// Whether `b` is digits, a point at `d`, and digits, with at least one digit.
pub open spec fn point_at(b: Seq<char>, d: int) -> bool {
    &&& 0 <= d < b.len()
    &&& b[d] == '.'
    &&& b.len() >= 2
    &&& all_digits(b.take(d))
    &&& all_digits(b.skip(d + 1))
}

/// Whether `c` marks an exponent.
pub open spec fn is_exp_mark(c: char) -> bool {
    c == 'e' || c == 'E'
}

/// Whether `m` is a mantissa: one or more digits, with at most one decimal
/// point among them.
pub open spec fn is_mantissa(m: Seq<char>) -> bool {
    (m.len() > 0 && all_digits(m)) || exists|d: int| point_at(m, d)
}

/// The digits of an exponent after its optional sign.
pub open spec fn exponent_digits(x: Seq<char>) -> Seq<char> {
    if x.len() > 0 && (x[0] == '+' || x[0] == '-') {
        x.drop_first()
    } else {
        x
    }
}

/// Whether `x` is an exponent: an optional sign and one or more digits.
pub open spec fn is_exponent(x: Seq<char>) -> bool {
    exponent_digits(x).len() > 0 && all_digits(exponent_digits(x))
}

/// The value of an exponent.
pub open spec fn exponent_value(x: Seq<char>) -> int {
    if x.len() > 0 && x[0] == '-' {
        -digits_value(exponent_digits(x))
    } else {
        digits_value(exponent_digits(x))
    }
}

/// Whether `b` is a mantissa up to `k`, followed, unless `k` is its end,
/// by an exponent mark and an exponent.
pub open spec fn number_split(b: Seq<char>, k: int) -> bool {
    &&& 0 <= k <= b.len()
    &&& is_mantissa(b.take(k))
    &&& k < b.len() ==> is_exp_mark(b[k]) && is_exponent(b.skip(k + 1))
}

/// Whether `s` is an unsigned decimal number: an optional `+`, a mantissa
/// of digits with at most one decimal point and at least one digit, and
/// optionally `e` or `E` followed by an optionally signed integer exponent.
pub open spec fn is_decimal_text(s: Seq<char>) -> bool {
    exists|k: int| number_split(unsigned_body(s), k)
}

/// The digits of a mantissa before its decimal point.
pub open spec fn int_digits(m: Seq<char>) -> Seq<char> {
    if all_digits(m) {
        m
    } else {
        m.take(choose|d: int| point_at(m, d))
    }
}

/// The digits of a mantissa after its decimal point.
pub open spec fn frac_digits(m: Seq<char>) -> Seq<char> {
    if all_digits(m) {
        Seq::empty()
    } else {
        m.skip((choose|d: int| point_at(m, d)) + 1)
    }
}

/// The number that the first `p` digits of `c` spell, with zeros appended
/// when `c` is shorter, and zero when `p` is not positive.
pub open spec fn shifted_value(c: Seq<char>, p: int) -> int {
    if p <= 0 {
        0
    } else if p <= c.len() {
        digits_value(c.take(p))
    } else {
        digits_value(c) * pow10((p - c.len()) as nat)
    }
}

/// The value of a decimal number text as a count of `10^-scale` units,
/// rounded down: its digits, with the decimal point moved right by the
/// exponent and the scale.
pub open spec fn fixed_value(s: Seq<char>, scale: nat) -> int {
    let b = unsigned_body(s);
    let k = choose|k: int| number_split(b, k);
    let m = b.take(k);
    let e = if k < b.len() { exponent_value(b.skip(k + 1)) } else { 0 };
    shifted_value(int_digits(m) + frac_digits(m), int_digits(m).len() + e + scale)
}

proof fn lemma_digits_bounds(s: Seq<char>)
    requires
        all_digits(s),
    ensures
        0 <= digits_value(s) < pow10(s.len()),
    decreases s.len(),
{
    if s.len() > 0 {
        let p = s.drop_last();
        assert(all_digits(p)) by {
            assert forall|i: int| 0 <= i < p.len() implies #[trigger] is_digit(p[i]) by {
                assert(is_digit(s[i]));
            }
        }
        lemma_digits_bounds(p);
        assert(is_digit(s[s.len() - 1]));
    }
}

proof fn lemma_pow10_positive(n: nat)
    ensures
        pow10(n) >= 1,
    decreases n,
{
    if n > 0 {
        lemma_pow10_positive((n - 1) as nat);
    }
}

/// The characters of a string.
fn chars_of(text: &str) -> (v: Vec<char>)
    ensures
        v@ == text@,
{
    let mut v: Vec<char> = Vec::new();
    for c in it: text.chars()
        invariant
            it.seq() == text@,
            v@ == text@.take(it.index()),
    {
        proof {
            assert(text@.take(it.index() + 1) == text@.take(it.index()).push(c));
        }
        v.push(c);
    }
    proof {
        assert(text@.take(text@.len() as int) == text@);
    }
    v
}

/// Whether every character in `v[lo..hi]` is a digit.
fn digits_between(v: &Vec<char>, lo: usize, hi: usize) -> (r: bool)
    requires
        lo <= hi <= v@.len(),
    ensures
        r == all_digits(v@.subrange(lo as int, hi as int)),
{
    let mut i = lo;
    while i < hi
        invariant
            lo <= i <= hi <= v@.len(),
            forall|j: int| lo <= j < i ==> #[trigger] is_digit(v@[j]),
        decreases hi - i,
    {
        let c = v[i];
        if !('0' <= c && c <= '9') {
            assert(!is_digit(v@.subrange(lo as int, hi as int)[i - lo]));
            return false;
        }
        i = i + 1;
    }
    assert forall|j: int| 0 <= j < hi - lo implies #[trigger] is_digit(v@.subrange(lo as int, hi as int)[j]) by {
        assert(is_digit(v@[lo + j]));
    }
    true
}

/// The value of the digits `v[lo..hi]` when it fits in a `u64`.
fn value_between(v: &Vec<char>, lo: usize, hi: usize) -> (r: Option<u128>)
    requires
        lo <= hi <= v@.len(),
        all_digits(v@.subrange(lo as int, hi as int)),
    ensures
        digits_value(v@.subrange(lo as int, hi as int)) <= u64::MAX ==> r == Some(digits_value(v@.subrange(lo as int, hi as int)) as u128),
        digits_value(v@.subrange(lo as int, hi as int)) > u64::MAX ==> r is None,
        0 <= digits_value(v@.subrange(lo as int, hi as int)) < pow10((hi - lo) as nat),
{
    proof {
        lemma_digits_bounds(v@.subrange(lo as int, hi as int));
    }
    let ghost whole = v@.subrange(lo as int, hi as int);
    let mut acc: u128 = 0;
    let mut over = false;
    let mut i = lo;
    while i < hi
        invariant
            lo <= i <= hi <= v@.len(),
            whole == v@.subrange(lo as int, hi as int),
            all_digits(whole),
            !over ==> acc == digits_value(v@.subrange(lo as int, i as int)),
            !over ==> acc <= u64::MAX,
            over ==> digits_value(v@.subrange(lo as int, i as int)) > u64::MAX,
        decreases hi - i,
    {
        let ghost prefix = v@.subrange(lo as int, i as int);
        let ghost next = v@.subrange(lo as int, i + 1);
        proof {
            assert(next.drop_last() =~= prefix);
            assert(next.last() == whole[i - lo]);
            assert(is_digit(whole[i - lo]));
            lemma_digits_bounds(prefix.take(0));
        }
        let c = v[i];
        let d = (c as u32 - '0' as u32) as u128;
        if !over {
            let next_acc = acc * 10 + d;
            if next_acc > u64::MAX as u128 {
                over = true;
            } else {
                acc = next_acc;
            }
        } else {
            assert(digits_value(prefix) >= 0 && digit_value(next.last()) >= 0);
        }
        i = i + 1;
    }
    if over { None } else { Some(acc) }
}

/// Ten to the power `n`.
fn pow10_of(n: u32) -> (r: u64)
    requires
        n <= 19,
    ensures
        r == pow10(n as nat),
{
    let mut r: u64 = 1;
    let mut i: u32 = 0;
    while i < n
        invariant
            i <= n <= 19,
            r == pow10(i as nat),
            r <= 10_000_000_000_000_000_000,
        decreases n - i,
    {
        assert(pow10((i + 1) as nat) == 10 * pow10(i as nat));
        proof {
            if i + 1 <= 19 {
                lemma_pow10_bound((i + 1) as nat);
            }
        }
        r = r * 10;
        i = i + 1;
    }
    r
}

proof fn lemma_pow10_bound(n: nat)
    requires
        n <= 19,
    ensures
        pow10(n) <= 10_000_000_000_000_000_000,
    decreases n,
{
    reveal_with_fuel(pow10, 20);
    if n > 0 {
        lemma_pow10_bound((n - 1) as nat);
        assert(pow10(n) == 10 * pow10((n - 1) as nat));
        assert(pow10((n - 1) as nat) <= 1_000_000_000_000_000_000) by {
            lemma_pow10_monotone((n - 1) as nat, 18);
        }
    }
}

proof fn lemma_pow10_monotone(a: nat, b: nat)
    requires
        a <= b,
    ensures
        pow10(a) <= pow10(b),
    decreases b,
{
    if a < b {
        lemma_pow10_monotone(a, (b - 1) as nat);
        lemma_pow10_positive((b - 1) as nat);
    }
}

proof fn lemma_pow10_add(a: nat, b: nat)
    ensures
        pow10(a) * pow10(b) == pow10(a + b),
    decreases a,
{
    if a > 0 {
        lemma_pow10_add((a - 1) as nat, b);
        assert(pow10(a) * pow10(b) == 10 * (pow10((a - 1) as nat) * pow10(b))) by (nonlinear_arith)
            requires
                pow10(a) == 10 * pow10((a - 1) as nat),
        ;
        assert(pow10(a + b) == 10 * pow10((a + b - 1) as nat));
    }
}

/// The text after an optional `+` is the rest of the characters.
proof fn lemma_body_is_suffix(v: Seq<char>, start: int)
    requires
        start == (if v.len() > 0 && v[0] == '+' { 1int } else { 0int }),
    ensures
        unsigned_body(v) == v.subrange(start, v.len() as int),
{
    assert(unsigned_body(v) =~= v.subrange(start, v.len() as int));
}

/// Reads an unsigned integer text: an optional `+` and one or more digits.
/// Anything else, and a value beyond `u64`, gives `None`.
pub fn parse_u64(text: &str) -> (r: Option<u64>)
    ensures
        r == (if is_integer_text(text@) && digits_value(unsigned_body(text@)) <= u64::MAX {
            Some(digits_value(unsigned_body(text@)) as u64)
        } else {
            None
        }),
{
    let v = chars_of(text);
    let len = v.len();
    let start: usize = if len > 0 && v[0] == '+' { 1 } else { 0 };
    proof {
        lemma_body_is_suffix(v@, start as int);
    }
    if start == len {
        return None;
    }
    if !digits_between(&v, start, len) {
        return None;
    }
    let ghost body = v@.subrange(start as int, len as int);
    assert(is_integer_text(text@));
    match value_between(&v, start, len) {
        Some(x) => {
            assert(x == digits_value(body));
            Some(x as u64)
        },
        None => None,
    }
}

/// The digits of the mantissa `v[start..k]` with its decimal point at `d`
/// left out (`d == k` when there is none).
pub open spec fn digit_seq(v: Seq<char>, start: int, d: int, k: int) -> Seq<char> {
    if d < k {
        v.subrange(start, d) + v.subrange(d + 1, k)
    } else {
        v.subrange(start, k)
    }
}

/// Largest exponent magnitude told apart: any larger one moves every digit
/// of any text beyond the `u64` range or below the units.
pub open spec fn exponent_cap() -> int {
    0x4_0000_0000_0000_0000
}

/// The number that the digits `v[lo..hi]` spell, held at [`exponent_cap`].
fn capped_digits(v: &Vec<char>, lo: usize, hi: usize) -> (r: u128)
    requires
        lo <= hi <= v@.len(),
        all_digits(v@.subrange(lo as int, hi as int)),
    ensures
        r == (if digits_value(v@.subrange(lo as int, hi as int)) < exponent_cap() {
            digits_value(v@.subrange(lo as int, hi as int))
        } else {
            exponent_cap()
        }),
{
    let ghost whole = v@.subrange(lo as int, hi as int);
    let mut acc: u128 = 0;
    let mut i = lo;
    while i < hi
        invariant
            lo <= i <= hi <= v@.len(),
            whole == v@.subrange(lo as int, hi as int),
            all_digits(whole),
            acc == (if digits_value(v@.subrange(lo as int, i as int)) < exponent_cap() {
                digits_value(v@.subrange(lo as int, i as int))
            } else {
                exponent_cap()
            }),
            digits_value(v@.subrange(lo as int, i as int)) >= 0,
        decreases hi - i,
    {
        let ghost prefix = v@.subrange(lo as int, i as int);
        let ghost next = v@.subrange(lo as int, i + 1);
        proof {
            assert(next.drop_last() =~= prefix);
            assert(next.last() == whole[i - lo]);
            assert(is_digit(whole[i - lo]));
        }
        let c = v[i];
        let d = (c as u32 - '0' as u32) as u128;
        let grown = acc * 10 + d;
        acc = if grown < 0x4_0000_0000_0000_0000 { grown } else { 0x4_0000_0000_0000_0000 };
        i = i + 1;
    }
    acc
}

/// The number that the first `t` digits of `digit_seq(v, start, d, k)`
/// spell, when it fits in a `u64`.
fn prefix_value(v: &Vec<char>, start: usize, d: usize, k: usize, t: usize) -> (r: Option<u64>)
    requires
        start <= d <= k <= v@.len(),
        all_digits(digit_seq(v@, start as int, d as int, k as int)),
        t <= digit_seq(v@, start as int, d as int, k as int).len(),
    ensures
        ({
            let x = digits_value(digit_seq(v@, start as int, d as int, k as int).take(t as int));
            &&& x >= 0
            &&& x <= u64::MAX ==> r == Some(x as u64)
            &&& x > u64::MAX ==> r is None
        }),
{
    let ghost c = digit_seq(v@, start as int, d as int, k as int);
    let ilen = d - start;
    proof {
        assert forall|j: int| 0 <= j < c.len() implies #[trigger] c[j] == v@[if j < ilen { start + j } else { d + 1 + (j - ilen) }] by {
            if d < k {
                if j < ilen {
                    assert(c[j] == v@.subrange(start as int, d as int)[j]);
                } else {
                    assert(c[j] == v@.subrange(d + 1, k as int)[j - ilen]);
                }
            } else {
                assert(c[j] == v@.subrange(start as int, k as int)[j]);
            }
        }
    }
    let mut acc: u64 = 0;
    let mut over = false;
    let mut j: usize = 0;
    while j < t
        invariant
            start <= d <= k <= v@.len(),
            ilen == d - start,
            c == digit_seq(v@, start as int, d as int, k as int),
            all_digits(c),
            t <= c.len(),
            j <= t,
            forall|x: int| 0 <= x < c.len() ==> #[trigger] c[x] == v@[if x < ilen { start + x } else { d + 1 + (x - ilen) }],
            digits_value(c.take(j as int)) >= 0,
            !over ==> acc == digits_value(c.take(j as int)),
            over ==> digits_value(c.take(j as int)) > u64::MAX,
        decreases t - j,
    {
        proof {
            assert(c.take(j + 1).drop_last() =~= c.take(j as int));
            assert(c.take(j + 1).last() == c[j as int]);
            assert(is_digit(c[j as int]));
        }
        let idx = if j < ilen { start + j } else { d + 1 + (j - ilen) };
        let ch = v[idx];
        let dv = (ch as u32 - '0' as u32) as u128;
        if !over {
            let grown = acc as u128 * 10 + dv;
            if grown > u64::MAX as u128 {
                over = true;
            } else {
                acc = grown as u64;
            }
        }
        j = j + 1;
    }
    if over { None } else { Some(acc) }
}

/// A mantissa holds only digits and decimal points.
proof fn lemma_mantissa_chars(m: Seq<char>, i: int)
    requires
        is_mantissa(m),
        0 <= i < m.len(),
    ensures
        is_digit(m[i]) || m[i] == '.',
{
    if !all_digits(m) {
        let d = choose|d: int| point_at(m, d);
        if i < d {
            assert(m.take(d)[i] == m[i]);
        } else if i > d {
            assert(m.skip(d + 1)[i - d - 1] == m[i]);
        }
    }
}

/// With the first exponent mark of `v` after `start` at `k` (or none, `k`
/// the end) and the first decimal point before it at `d` (or none, `d ==
/// k`), a text is a decimal number exactly when the pieces are well formed,
/// and its value is the shifted value of the mantissa's digits.
proof fn lemma_decomposition(v: Seq<char>, start: int, d: int, k: int, scale: nat)
    requires
        start == (if v.len() > 0 && v[0] == '+' { 1int } else { 0int }),
        start <= d <= k <= v.len(),
        forall|j: int| start <= j < k ==> !is_exp_mark(v[j]),
        k < v.len() ==> is_exp_mark(v[k]),
        forall|j: int| start <= j < d ==> v[j] != '.',
        d < k ==> v[d] == '.',
    ensures
        ({
            let mant_ok = if d == k {
                k > start && all_digits(v.subrange(start, k))
            } else {
                k - start >= 2 && all_digits(v.subrange(start, d)) && all_digits(v.subrange(d + 1, k))
            };
            let exp_ok = k == v.len() || is_exponent(v.subrange(k + 1, v.len() as int));
            let e = if k < v.len() { exponent_value(v.subrange(k + 1, v.len() as int)) } else { 0 };
            &&& is_decimal_text(v) == (mant_ok && exp_ok)
            &&& mant_ok ==> all_digits(digit_seq(v, start, d, k))
            &&& is_decimal_text(v) ==> fixed_value(v, scale) == shifted_value(digit_seq(v, start, d, k), (d - start) + e + scale)
        }),
{
    lemma_body_is_suffix(v, start);
    let b = unsigned_body(v);
    let kk = k - start;
    let dd = d - start;
    let m = b.take(kk);
    assert(m =~= v.subrange(start, k));
    let mant_ok = if d == k {
        k > start && all_digits(v.subrange(start, k))
    } else {
        k - start >= 2 && all_digits(v.subrange(start, d)) && all_digits(v.subrange(d + 1, k))
    };
    if d == k {
        assert forall|x: int| !point_at(m, x) by {
            if 0 <= x < m.len() {
                assert(m[x] == v[start + x]);
            }
        }
        assert(is_mantissa(m) == mant_ok);
        if mant_ok {
            assert(digit_seq(v, start, d, k) == m);
        }
    } else {
        assert(m[dd] == '.');
        assert(!is_digit(m[dd]));
        assert(!all_digits(m));
        assert(m.take(dd) =~= v.subrange(start, d));
        assert(m.skip(dd + 1) =~= v.subrange(d + 1, k));
        assert forall|x: int| #[trigger] point_at(m, x) implies x == dd by {
            if x < dd {
                assert(m[x] == v[start + x]);
            } else if x > dd {
                assert(m.take(x)[dd] == '.');
            }
        }
        if mant_ok {
            assert(point_at(m, dd));
            assert forall|j: int| 0 <= j < digit_seq(v, start, d, k).len() implies #[trigger] is_digit(digit_seq(v, start, d, k)[j]) by {
                if j < dd {
                    assert(is_digit(v.subrange(start, d)[j]));
                } else {
                    assert(is_digit(v.subrange(d + 1, k)[j - dd]));
                }
            }
        }
        assert(is_mantissa(m) == mant_ok);
    }
    if kk < b.len() {
        assert(b[kk] == v[k]);
        assert(b.skip(kk + 1) =~= v.subrange(k + 1, v.len() as int));
    }
    // Any split is at `kk`.
    assert forall|x: int| #[trigger] number_split(b, x) implies x == kk by {
        if x < kk {
            assert(b[x] == v[start + x]);
        } else if x > kk {
            assert(kk < b.len());
            lemma_mantissa_chars(b.take(x), kk);
            assert(b.take(x)[kk] == b[kk]);
        }
    }
    let exp_ok = k == v.len() || is_exponent(v.subrange(k + 1, v.len() as int));
    assert(number_split(b, kk) == (mant_ok && exp_ok));
    if mant_ok && exp_ok {
        assert(number_split(b, kk));
    }
    if is_decimal_text(v) {
        let kc = choose|x: int| number_split(b, x);
        assert(number_split(b, kc));
        assert(kc == kk);
        if d == k {
            assert(all_digits(m));
            assert(int_digits(m) + frac_digits(m) =~= digit_seq(v, start, d, k));
            assert(int_digits(m).len() == d - start);
        } else {
            assert(point_at(m, dd));
            assert(int_digits(m) == v.subrange(start, d));
            assert(frac_digits(m) == v.subrange(d + 1, k));
        }
    }
}

/// Reads a decimal number text as a count of `10^-scale` units, rounded
/// down: an optional `+`, digits with at most one decimal point and at
/// least one digit, and optionally `e` or `E` with an optionally signed
/// integer exponent. Anything else, and a value beyond `u64`, gives `None`.
#[verifier::rlimit(40)]
pub fn parse_fixed(text: &str, scale: u32) -> (r: Option<u64>)
    ensures
        r == (if is_decimal_text(text@) && fixed_value(text@, scale as nat) <= u64::MAX {
            Some(fixed_value(text@, scale as nat) as u64)
        } else {
            None
        }),
{
    let v = chars_of(text);
    let len = v.len();
    let start: usize = if len > 0 && v[0] == '+' { 1 } else { 0 };
    let mut k = start;
    while k < len && !(v[k] == 'e' || v[k] == 'E')
        invariant
            start <= k <= len == v@.len(),
            forall|j: int| start <= j < k ==> !is_exp_mark(#[trigger] v@[j]),
        decreases len - k,
    {
        k = k + 1;
    }
    let mut d = start;
    while d < k && v[d] != '.'
        invariant
            start <= d <= k <= len == v@.len(),
            forall|j: int| start <= j < d ==> v@[j] != '.',
        decreases k - d,
    {
        d = d + 1;
    }
    proof {
        lemma_decomposition(v@, start as int, d as int, k as int, scale as nat);
    }
    let mant_ok = if d == k {
        k > start && digits_between(&v, start, k)
    } else {
        k - start >= 2 && digits_between(&v, start, d) && digits_between(&v, d + 1, k)
    };
    if !mant_ok {
        return None;
    }
    let mut neg = false;
    let mut ds = len;
    if k < len {
        let es = k + 1;
        if es < len && (v[es] == '+' || v[es] == '-') {
            neg = v[es] == '-';
            ds = es + 1;
        } else {
            ds = es;
        }
        proof {
            let x = v@.subrange(k + 1, len as int);
            assert(exponent_digits(x) =~= v@.subrange(ds as int, len as int));
        }
        if ds >= len || !digits_between(&v, ds, len) {
            return None;
        }
    }
    let ghost c = digit_seq(v@, start as int, d as int, k as int);
    let ghost e: int = if k < len { exponent_value(v@.subrange(k + 1, len as int)) } else { 0 };
    let mag: i128 = if k < len { capped_digits(&v, ds, len) as i128 } else { 0 };
    let ilen = (d - start) as i128;
    let clen: usize = if d < k { k - start - 1 } else { k - start };
    assert(c.len() == clen);
    let shift: i128 = ilen + scale as i128;
    let p: i128 = if neg { shift - mag } else { shift + mag };
    proof {
        if k < len {
            let x = v@.subrange(k + 1, len as int);
            assert(neg == (x[0] == '-'));
        }
    }
    proof {
        lemma_capped_shift(c, ilen + e + scale, p as int, k < len && mag == exponent_cap());
    }
    shift_value(&v, start, d, k, p)
}

/// Shifting by a capped exponent gives the same result as by the true one:
/// both put the point before every digit, or both put it at least twenty
/// places after them.
proof fn lemma_capped_shift(c: Seq<char>, p: int, q: int, capped: bool)
    requires
        all_digits(c),
        !capped ==> p == q,
        capped ==> (p <= 0 && q <= 0) || (p >= c.len() + 20 && q >= c.len() + 20),
    ensures
        (shifted_value(c, p) <= u64::MAX) == (shifted_value(c, q) <= u64::MAX),
        shifted_value(c, p) <= u64::MAX ==> shifted_value(c, p) == shifted_value(c, q),
{
    if capped && p > 0 {
        lemma_digits_bounds(c);
        lemma_pow10_monotone(20, (p - c.len()) as nat);
        lemma_pow10_monotone(20, (q - c.len()) as nat);
        reveal_with_fuel(pow10, 21);
        assert(pow10(20) == 100_000_000_000_000_000_000);
        let x = digits_value(c);
        let pp = pow10((p - c.len()) as nat);
        let pq = pow10((q - c.len()) as nat);
        if x > 0 {
            assert(x * pp >= 100_000_000_000_000_000_000) by (nonlinear_arith)
                requires
                    x >= 1,
                    pp >= 100_000_000_000_000_000_000,
            ;
            assert(x * pq >= 100_000_000_000_000_000_000) by (nonlinear_arith)
                requires
                    x >= 1,
                    pq >= 100_000_000_000_000_000_000,
            ;
        } else {
            assert(x * pp == 0 && x * pq == 0) by (nonlinear_arith)
                requires
                    x == 0,
            ;
        }
    }
}

/// The number that the digits of `digit_seq(v, start, d, k)` spell with the
/// decimal point moved to after the first `p` of them, if it fits.
fn shift_value(v: &Vec<char>, start: usize, d: usize, k: usize, p: i128) -> (r: Option<u64>)
    requires
        start <= d <= k <= v@.len(),
        all_digits(digit_seq(v@, start as int, d as int, k as int)),
    ensures
        ({
            let x = shifted_value(digit_seq(v@, start as int, d as int, k as int), p as int);
            r == (if x <= u64::MAX { Some(x as u64) } else { None })
        }),
{
    let ghost c = digit_seq(v@, start as int, d as int, k as int);
    let clen: usize = if d < k { k - start - 1 } else { k - start };
    assert(c.len() == clen);
    if p <= 0 {
        return Some(0);
    }
    if p <= clen as i128 {
        let r = prefix_value(v, start, d, k, p as usize);
        return r;
    }
    let whole = prefix_value(v, start, d, k, clen);
    assert(c.take(clen as int) =~= c);
    let extra = p - clen as i128;
    proof {
        lemma_pow10_positive(extra as nat);
    }
    match whole {
        None => {
            assert(digits_value(c) * pow10(extra as nat) >= digits_value(c)) by (nonlinear_arith)
                requires
                    digits_value(c) >= 0,
                    pow10(extra as nat) >= 1,
            ;
            None
        },
        Some(x) => {
            if x == 0 {
                assert(0 * pow10(extra as nat) == 0);
                Some(0)
            } else if extra > 19 {
                proof {
                    lemma_pow10_monotone(20, extra as nat);
                    reveal_with_fuel(pow10, 21);
                    assert(pow10(20) == 100_000_000_000_000_000_000);
                    let pe = pow10(extra as nat);
                    assert(x * pe >= 100_000_000_000_000_000_000) by (nonlinear_arith)
                        requires
                            x >= 1,
                            pe >= 100_000_000_000_000_000_000,
                    ;
                }
                None
            } else {
                proof {
                    lemma_pow10_bound(extra as nat);
                }
                let unit = pow10_of(extra as u32) as u128;
                assert(x * unit <= 0xffff_ffff_ffff_ffff * 10_000_000_000_000_000_000) by (nonlinear_arith)
                    requires
                        x <= 0xffff_ffff_ffff_ffff,
                        unit <= 10_000_000_000_000_000_000,
                ;
                let total = x as u128 * unit;
                if total > u64::MAX as u128 { None } else { Some(total as u64) }
            }
        },
    }
}

/// Whether `c` equals the lowercase letter `lower` when ASCII case is ignored.
pub open spec fn same_letter(c: char, lower: char) -> bool {
    c == lower || (c as int) == (lower as int) - 32
}

/// Whether the characters read `true` in any mix of ASCII case.
pub open spec fn reads_true(s: Seq<char>) -> bool {
    s.len() == 4 && same_letter(s[0], 't') && same_letter(s[1], 'r') && same_letter(s[2], 'u')
        && same_letter(s[3], 'e')
}

/// The value of a decimal text in `10^-scale` units, or zero when the text
/// is not a decimal or the value is beyond `u64`.
pub open spec fn fixed_or_zero(s: Seq<char>, scale: nat) -> u64 {
    if is_decimal_text(s) && fixed_value(s, scale) <= u64::MAX {
        fixed_value(s, scale) as u64
    } else {
        0
    }
}

/// The value of an integer text, or zero when the text is not an integer
/// or the value is beyond `u64`.
pub open spec fn integer_or_zero(s: Seq<char>) -> u64 {
    if is_integer_text(s) && digits_value(unsigned_body(s)) <= u64::MAX {
        digits_value(unsigned_body(s)) as u64
    } else {
        0
    }
}

/// Whether the text reads `true` in any mix of ASCII case.
pub fn is_true_text(text: &str) -> (r: bool)
    ensures
        r == reads_true(text@),
{
    let v = chars_of(text);
    if v.len() != 4 {
        return false;
    }
    (v[0] == 't' || v[0] == 'T') && (v[1] == 'r' || v[1] == 'R') && (v[2] == 'u' || v[2] == 'U')
        && (v[3] == 'e' || v[3] == 'E')
}

/// An integer text is also a decimal text, and read at scale zero it has
/// the same value as read as an integer.
pub proof fn lemma_integer_text_is_decimal(s: Seq<char>)
    requires
        is_integer_text(s),
    ensures
        is_decimal_text(s),
        fixed_value(s, 0) == digits_value(unsigned_body(s)),
{
    let b = unsigned_body(s);
    assert(b.take(b.len() as int) =~= b);
    assert(number_split(b, b.len() as int));
    assert forall|x: int| #[trigger] number_split(b, x) implies x == b.len() by {
        if x < b.len() {
            assert(is_digit(b[x]));
        }
    }
    let k = choose|x: int| number_split(b, x);
    assert(k == b.len());
    assert(int_digits(b) + frac_digits(b) =~= b);
    assert(b.take(b.len() as int) =~= b);
}

} // verus!