use vstd::prelude::*;

verus! {

/// Integer parts at or above this bound are kept as the bound: every such
/// value is already far outside any coordinate range.
pub const INT_CAP: u64 = 1000;

/// Exponents at or above this bound in magnitude are kept as the bound: it
/// exceeds the length of any text, so such a number is either far out of
/// range or closer to zero than the scale can show.
pub const EXP_CAP: u128 = 100_000_000_000_000_000_000;

/// Fixed-point scale of a coordinate: units of one ten-millionth of a degree.
pub const SCALE: u64 = 10_000_000;

/// Whether `c` is an ASCII decimal digit.
pub open spec fn is_digit(c: char) -> bool {
    '0' <= c && c <= '9'
}

/// The value of the decimal digit `c`.
pub open spec fn digit_value(c: char) -> nat {
    (c as int - '0' as int) as nat
}

/// Every character of `s` is a decimal digit.
pub open spec fn all_digits(s: Seq<char>) -> bool {
    forall|k: int| 0 <= k < s.len() ==> is_digit(#[trigger] s[k])
}

/// Every character of `s` is `'0'`.
pub open spec fn all_zeros(s: Seq<char>) -> bool {
    forall|k: int| 0 <= k < s.len() ==> #[trigger] s[k] == '0'
}

/// The natural number written by the digits `s`, most significant first.
pub open spec fn digits_value(s: Seq<char>) -> nat
    decreases s.len(),
{
    if s.len() == 0 {
        0
    } else {
        digits_value(s.drop_last()) * 10 + digit_value(s.last())
    }
}

/// Ten to the power `k`.
pub open spec fn pow10(k: nat) -> nat
    decreases k,
{
    if k == 0 {
        1
    } else {
        pow10((k - 1) as nat) * 10
    }
}

/// Length of the optional leading sign.
pub open spec fn sign_len(s: Seq<char>) -> int {
    if s.len() > 0 && (s[0] == '+' || s[0] == '-') {
        1
    } else {
        0
    }
}

/// Whether the text carries a leading minus sign.
pub open spec fn is_negative(s: Seq<char>) -> bool {
    s.len() > 0 && s[0] == '-'
}

/// End of the run of digits that starts at `i`.
pub open spec fn digits_end(s: Seq<char>, i: int) -> int
    decreases s.len() - i,
{
    if 0 <= i < s.len() && is_digit(s[i]) {
        digits_end(s, i + 1)
    } else {
        i
    }
}

/// End of the integer digits of a number text.
pub open spec fn int_end(s: Seq<char>) -> int {
    digits_end(s, sign_len(s))
}

/// The integer digits are followed by a decimal point.
pub open spec fn has_point(s: Seq<char>) -> bool {
    int_end(s) < s.len() && s[int_end(s)] == '.'
}

/// End of the mantissa: the integer digits and, after a point, the
/// fractional digits.
pub open spec fn mant_end(s: Seq<char>) -> int {
    if has_point(s) {
        digits_end(s, int_end(s) + 1)
    } else {
        int_end(s)
    }
}

/// The digits before the decimal point.
pub open spec fn int_digits(s: Seq<char>) -> Seq<char> {
    s.subrange(sign_len(s), int_end(s))
}

/// The digits after the decimal point (empty when there is none).
pub open spec fn frac_digits(s: Seq<char>) -> Seq<char> {
    if has_point(s) {
        s.subrange(int_end(s) + 1, mant_end(s))
    } else {
        Seq::empty()
    }
}

/// All digits of the mantissa, the point left out.
pub open spec fn mantissa(s: Seq<char>) -> Seq<char> {
    int_digits(s) + frac_digits(s)
}

/// Something follows the mantissa: it must be an exponent part.
pub open spec fn has_exponent(s: Seq<char>) -> bool {
    mant_end(s) < s.len()
}

/// Whether the exponent carries a minus sign.
pub open spec fn exp_negative(s: Seq<char>) -> bool {
    mant_end(s) + 1 < s.len() && s[mant_end(s) + 1] == '-'
}

/// Where the exponent digits start: after the `e` and its optional sign.
pub open spec fn exp_start(s: Seq<char>) -> int {
    let m = mant_end(s) + 1;
    if m < s.len() && (s[m] == '+' || s[m] == '-') {
        m + 1
    } else {
        m
    }
}

/// The digits of the exponent.
pub open spec fn exp_digits(s: Seq<char>) -> Seq<char> {
    s.subrange(exp_start(s), s.len() as int)
}

/// Nothing follows the mantissa, or a well-formed exponent part does.
pub open spec fn exponent_ok(s: Seq<char>) -> bool {
    has_exponent(s) ==> {
        &&& s[mant_end(s)] == 'e' || s[mant_end(s)] == 'E'
        &&& exp_start(s) < s.len()
        &&& all_digits(exp_digits(s))
    }
}

/// A decimal number: an optional sign, digits with an optional decimal point
/// (at least one digit in all), and optionally `e` or `E`, an optional sign
/// and at least one digit.
pub open spec fn is_decimal(s: Seq<char>) -> bool {
    &&& mantissa(s).len() > 0
    &&& exponent_ok(s)
}

/// The exponent of a decimal (zero when there is none).
pub open spec fn exponent(s: Seq<char>) -> int {
    if !has_exponent(s) {
        0
    } else if exp_negative(s) {
        -digits_value(exp_digits(s))
    } else {
        digits_value(exp_digits(s)) as int
    }
}

/// Where the decimal point falls in the mantissa once the exponent has moved
/// it: the number is `0.d₀d₁… × 10^point`.
pub open spec fn point(s: Seq<char>) -> int {
    int_digits(s).len() + exponent(s)
}

/// Digit `i` of `d`, with zeros on both sides.
pub open spec fn padded(d: Seq<char>, i: int) -> char {
    if 0 <= i < d.len() {
        d[i]
    } else {
        '0'
    }
}

/// The digits of `d` at positions `a` up to `b`, zeros outside `d`.
pub open spec fn window(d: Seq<char>, a: int, b: int) -> Seq<char> {
    Seq::new(if a < b { (b - a) as nat } else { 0 }, |t: int| padded(d, a + t))
}

/// The integer part of the absolute value of the decimal `s`.
pub open spec fn int_value(s: Seq<char>) -> nat {
    digits_value(window(mantissa(s), 0, point(s)))
}

/// Whether the absolute value of the decimal `s` is at most `limit`.
pub open spec fn within(s: Seq<char>, limit: nat) -> bool {
    int_value(s) < limit || (int_value(s) == limit && all_zeros(
        window(mantissa(s), point(s), mantissa(s).len() as int),
    ))
}

/// The decimal `s` in units of `1 / SCALE`, truncated toward zero.
pub open spec fn scaled_value(s: Seq<char>) -> int {
    let m = digits_value(window(mantissa(s), 0, point(s) + 7));
    if is_negative(s) {
        -m
    } else {
        m as int
    }
}

/// Why a text is not an acceptable coordinate value.
#[derive(Clone, Copy, Debug, PartialEq, Eq, Structural)]
pub enum NumberError {
    NotANumber,
    OutOfRange,
}

/// The exact outcome of reading `s` with bound `limit` degrees.
pub open spec fn read_outcome(s: Seq<char>, limit: nat) -> Result<int, NumberError> {
    if !is_decimal(s) {
        Err(NumberError::NotANumber)
    } else if !within(s, limit) {
        Err(NumberError::OutOfRange)
    } else {
        Ok(scaled_value(s))
    }
}

proof fn lemma_digits_end(s: Seq<char>, st: int, i: int)
    requires
        0 <= st <= i <= s.len(),
        forall|k: int| st <= k < i ==> is_digit(#[trigger] s[k]),
        i == s.len() || !is_digit(s[i]),
    ensures
        digits_end(s, st) == i,
    decreases i - st,
{
    if st < i {
        lemma_digits_end(s, st + 1, i);
    }
}

proof fn lemma_digits_push(x: Seq<char>, c: char)
    ensures
        digits_value(x.push(c)) == digits_value(x) * 10 + digit_value(c),
{
    assert(x.push(c).drop_last() =~= x);
}

proof fn lemma_window_push(d: Seq<char>, a: int, t: int)
    requires
        a <= t,
    ensures
        window(d, a, t + 1) =~= window(d, a, t).push(padded(d, t)),
{
}

/// Once a digit run reaches a cap, appending a digit keeps it there.
proof fn lemma_cap_step(v: nat, d: nat, cap: nat)
    requires
        v >= cap,
    ensures
        v * 10 + d >= cap,
{
    assert(v * 10 + d >= cap) by (nonlinear_arith)
        requires
            v >= cap,
    ;
}

proof fn lemma_all_zeros_value(f: Seq<char>)
    requires
        all_zeros(f),
    ensures
        digits_value(f) == 0,
    decreases f.len(),
{
    if f.len() > 0 {
        lemma_all_zeros_value(f.drop_last());
    }
}

proof fn lemma_pow10_pos(k: nat)
    ensures
        pow10(k) >= 1,
    decreases k,
{
    if k > 0 {
        lemma_pow10_pos((k - 1) as nat);
    }
}

proof fn lemma_pow10_mono(j: nat, k: nat)
    requires
        j <= k,
    ensures
        pow10(j) <= pow10(k),
    decreases k,
{
    if j < k {
        lemma_pow10_mono(j, (k - 1) as nat);
    }
}

proof fn lemma_digits_concat(a: Seq<char>, b: Seq<char>)
    ensures
        digits_value(a + b) == digits_value(a) * pow10(b.len()) + digits_value(b),
    decreases b.len(),
{
    if b.len() == 0 {
        assert(a + b =~= a);
        assert(digits_value(a) * 1 == digits_value(a));
    } else {
        let b1 = b.drop_last();
        assert((a + b).drop_last() =~= a + b1);
        assert((a + b).last() == b.last());
        assert(pow10(b.len()) == pow10(b1.len()) * 10);
        lemma_digits_concat(a, b1);
        let x = digits_value(a);
        let p = pow10(b1.len());
        let y = digits_value(b1);
        let dl = digit_value(b.last());
        assert(digits_value(a + b) == digits_value(a + b1) * 10 + dl);
        assert(digits_value(b) == y * 10 + dl);
        assert((x * p + y) * 10 + dl == x * (p * 10) + (y * 10 + dl)) by (nonlinear_arith);
    }
}

proof fn lemma_digits_bound(b: Seq<char>)
    requires
        all_digits(b),
    ensures
        digits_value(b) < pow10(b.len()),
    decreases b.len(),
{
    if b.len() > 0 {
        let b1 = b.drop_last();
        assert(is_digit(b[b.len() - 1]));
        lemma_digits_bound(b1);
        let y = digits_value(b1);
        let p = pow10(b1.len());
        let d = digit_value(b.last());
        assert(y * 10 + d < p * 10) by (nonlinear_arith)
            requires
                y < p,
                d < 10,
        ;
    }
}

/// A run that starts with a non-zero digit is at least `10^(len - 1)`.
proof fn lemma_digits_lower(b: Seq<char>)
    requires
        b.len() > 0,
        is_digit(b[0]),
        b[0] != '0',
    ensures
        digits_value(b) >= pow10((b.len() - 1) as nat),
{
    let rest = b.subrange(1, b.len() as int);
    assert(b =~= seq![b[0]] + rest);
    lemma_digits_concat(seq![b[0]], rest);
    assert(seq![b[0]] =~= Seq::<char>::empty().push(b[0]));
    lemma_digits_push(Seq::<char>::empty(), b[0]);
    assert(digits_value(seq![b[0]]) * pow10(rest.len()) >= pow10(rest.len())) by (
    nonlinear_arith)
        requires
            digits_value(seq![b[0]]) >= 1,
    ;
}

proof fn lemma_window_split(d: Seq<char>, a: int, m: int, b: int)
    requires
        a <= m <= b,
    ensures
        window(d, a, b) =~= window(d, a, m) + window(d, m, b),
{
}

proof fn lemma_window_digits(d: Seq<char>, a: int, b: int)
    requires
        all_digits(d),
    ensures
        all_digits(window(d, a, b)),
{
    assert forall|k: int| 0 <= k < window(d, a, b).len() implies is_digit(
        #[trigger] window(d, a, b)[k],
    ) by {
        if 0 <= a + k < d.len() {
            assert(is_digit(d[a + k]));
        }
    }
}

proof fn lemma_pow10_bound(k: nat)
    requires
        k < 7,
    ensures
        pow10(k) <= 1_000_000,
{
    lemma_pow10_mono(k, 6);
    reveal_with_fuel(pow10, 7);
}

/// The value of the character at `i` when it is a decimal digit.
fn digit_at(raw: &str, i: usize) -> (r: Option<u64>)
    requires
        i < raw@.len(),
    ensures
        r == (if is_digit(raw@[i as int]) {
            Some(digit_value(raw@[i as int]) as u64)
        } else {
            None::<u64>
        }),
{
    let c = raw.get_char(i);
    if '0' <= c && c <= '9' {
        Some((c as u32 - '0' as u32) as u64)
    } else {
        None
    }
}

/// End of the run of digits of `raw` that starts at `i`.
fn scan_digits(raw: &str, n: usize, i: usize) -> (r: usize)
    requires
        n == raw@.len(),
        i <= n,
    ensures
        r == digits_end(raw@, i as int),
        i <= r <= n,
{
    let mut j: usize = i;
    while j < n && digit_at(raw, j).is_some()
        invariant
            n == raw@.len(),
            i <= j <= n,
            forall|k: int| i <= k < j ==> is_digit(#[trigger] raw@[k]),
        decreases n - j,
    {
        j = j + 1;
    }
    proof {
        lemma_digits_end(raw@, i as int, j as int);
    }
    j
}

/// Where the mantissa's digits lie in the text: the integer digits at
/// `st .. st + il`, the fractional digits at `fs .. fs + fl`.
struct Mantissa {
    st: usize,
    il: usize,
    fs: usize,
    fl: usize,
}

impl Mantissa {
    spec fn wf(&self, s: Seq<char>) -> bool {
        &&& self.st + self.il <= s.len()
        &&& self.fs + self.fl <= s.len()
        &&& s.len() <= usize::MAX
        &&& all_digits(s.subrange(self.st as int, self.st + self.il))
        &&& all_digits(s.subrange(self.fs as int, self.fs + self.fl))
    }

    spec fn digits(&self, s: Seq<char>) -> Seq<char> {
        s.subrange(self.st as int, self.st + self.il) + s.subrange(
            self.fs as int,
            self.fs + self.fl,
        )
    }

    /// Digit `i` of the mantissa, zeros outside it.
    fn digit(&self, raw: &str, i: i128) -> (r: u64)
        requires
            self.wf(raw@),
        ensures
            r == digit_value(padded(self.digits(raw@), i as int)),
            r < 10,
    {
        let ghost d = self.digits(raw@);
        if 0 <= i && i < self.il as i128 {
            let k = self.st + i as usize;
            assert(raw@.subrange(self.st as int, self.st + self.il)[i as int] == raw@[k as int]);
            assert(d[i as int] == raw@[k as int]);
            let c = raw.get_char(k);
            (c as u32 - '0' as u32) as u64
        } else if self.il as i128 <= i && i < self.il as i128 + self.fl as i128 {
            let k = self.fs + (i - self.il as i128) as usize;
            assert(raw@.subrange(self.fs as int, self.fs + self.fl)[i - self.il] == raw@[k as int]);
            assert(d[i as int] == raw@[k as int]);
            let c = raw.get_char(k);
            (c as u32 - '0' as u32) as u64
        } else {
            0
        }
    }

    /// Position of the first non-zero digit, or the length when there is none.
    fn first_nonzero(&self, raw: &str) -> (z: i128)
        requires
            self.wf(raw@),
        ensures
            0 <= z <= self.digits(raw@).len(),
            forall|k: int| 0 <= k < z ==> #[trigger] self.digits(raw@)[k] == '0',
            z < self.digits(raw@).len() ==> self.digits(raw@)[z as int] != '0',
    {
        let len: i128 = self.il as i128 + self.fl as i128;
        let mut z: i128 = 0;
        while z < len && self.digit(raw, z) == 0
            invariant
                self.wf(raw@),
                len == self.digits(raw@).len(),
                0 <= z <= len,
                forall|k: int| 0 <= k < z ==> #[trigger] self.digits(raw@)[k] == '0',
            decreases len - z,
        {
            z = z + 1;
        }
        z
    }

    /// The digits at positions `0 .. p`, their value capped at `INT_CAP`.
    fn capped_prefix(&self, raw: &str, p: i128) -> (r: u64)
        requires
            self.wf(raw@),
        ensures
            r == (if digits_value(window(self.digits(raw@), 0, p as int)) >= INT_CAP {
                INT_CAP as nat
            } else {
                digits_value(window(self.digits(raw@), 0, p as int))
            }),
    {
        let ghost d = self.digits(raw@);
        let mut t: i128 = 0;
        let mut ip: u64 = 0;
        while t < p
            invariant
                self.wf(raw@),
                d == self.digits(raw@),
                0 <= t,
                t <= p || t == 0,
                ip == (if digits_value(window(d, 0, t as int)) >= INT_CAP {
                    INT_CAP as nat
                } else {
                    digits_value(window(d, 0, t as int))
                }),
            decreases p - t,
        {
            let dd = self.digit(raw, t);
            proof {
                lemma_window_push(d, 0, t as int);
                lemma_digits_push(window(d, 0, t as int), padded(d, t as int));
                if ip >= INT_CAP {
                    lemma_cap_step(digits_value(window(d, 0, t as int)), dd as nat, INT_CAP as nat);
                }
            }
            if ip < INT_CAP {
                ip = ip * 10 + dd;
                if ip > INT_CAP {
                    ip = INT_CAP;
                }
            }
            t = t + 1;
        }
        assert(window(d, 0, t as int) =~= window(d, 0, p as int));
        ip
    }

    /// Whether every digit from position `p` to the end is zero.
    fn zeros_from(&self, raw: &str, p: i128) -> (r: bool)
        requires
            self.wf(raw@),
        ensures
            r == all_zeros(window(self.digits(raw@), p as int, self.digits(raw@).len() as int)),
    {
        let ghost d = self.digits(raw@);
        let len: i128 = self.il as i128 + self.fl as i128;
        let mut u: i128 = p;
        let mut zeros = true;
        while u < len
            invariant
                self.wf(raw@),
                d == self.digits(raw@),
                len == d.len(),
                p <= u,
                u <= len || u == p,
                zeros == all_zeros(window(d, p as int, u as int)),
            decreases len - u,
        {
            let dd = self.digit(raw, u);
            proof {
                lemma_window_push(d, p as int, u as int);
                let w = window(d, p as int, u as int);
                let w1 = window(d, p as int, u + 1);
                if zeros && dd == 0 {
                    assert forall|q: int| 0 <= q < w1.len() implies #[trigger] w1[q] == '0' by {
                        if q < w.len() {
                            assert(w1[q] == w[q]);
                        }
                    }
                } else if !zeros {
                    let q = choose|q: int| 0 <= q < w.len() && w[q] != '0';
                    assert(w1[q] == w[q]);
                } else {
                    assert(w1[w.len() as int] == padded(d, u as int));
                }
            }
            if dd != 0 {
                zeros = false;
            }
            u = u + 1;
        }
        assert(window(d, p as int, u as int) =~= window(d, p as int, len as int));
        zeros
    }

    /// The value of the digits at positions `0 .. end`, known to be small.
    fn prefix_value(&self, raw: &str, end: i128) -> (r: u64)
        requires
            self.wf(raw@),
            digits_value(window(self.digits(raw@), 0, end as int)) <= 180 * SCALE,
        ensures
            r == digits_value(window(self.digits(raw@), 0, end as int)),
    {
        let ghost d = self.digits(raw@);
        let ghost total = digits_value(window(d, 0, end as int));
        let mut w: i128 = 0;
        let mut acc: u64 = 0;
        while w < end
            invariant
                self.wf(raw@),
                d == self.digits(raw@),
                0 <= w,
                w <= end || w == 0,
                total == digits_value(window(d, 0, end as int)),
                total <= 180 * SCALE,
                acc == digits_value(window(d, 0, w as int)),
            decreases end - w,
        {
            let dd = self.digit(raw, w);
            proof {
                lemma_window_push(d, 0, w as int);
                lemma_digits_push(window(d, 0, w as int), padded(d, w as int));
                lemma_window_split(d, 0, w + 1, end as int);
                lemma_digits_concat(window(d, 0, w + 1), window(d, w + 1, end as int));
                lemma_pow10_pos(window(d, w + 1, end as int).len());
                let a = digits_value(window(d, 0, w + 1));
                let pp = pow10(window(d, w + 1, end as int).len());
                let b = digits_value(window(d, w + 1, end as int));
                assert(a * pp + b >= a) by (nonlinear_arith)
                    requires
                        pp >= 1,
                ;
            }
            acc = acc * 10 + dd;
            w = w + 1;
        }
        assert(window(d, 0, w as int) =~= window(d, 0, end as int));
        acc
    }
}

/// Reads the mantissa of `raw`: its sign and where its digits lie.
fn scan_mantissa(raw: &str, n: usize) -> (r: (bool, Mantissa, usize))
    requires
        n == raw@.len(),
    ensures
        r.0 == is_negative(raw@),
        r.1.wf(raw@),
        r.1.digits(raw@) == mantissa(raw@),
        r.1.il == int_digits(raw@).len(),
        r.2 == mant_end(raw@),
        r.2 <= n,
{
    let ghost s = raw@;
    let mut st: usize = 0;
    if n > 0 {
        let c0 = raw.get_char(0);
        if c0 == '+' || c0 == '-' {
            st = 1;
        }
    }
    let neg = n > 0 && raw.get_char(0) == '-';
    let ie = scan_digits(raw, n, st);
    let mut fs: usize = ie;
    let mut me: usize = ie;
    if ie < n && raw.get_char(ie) == '.' {
        fs = ie + 1;
        me = scan_digits(raw, n, fs);
    }
    let m = Mantissa { st, il: ie - st, fs, fl: me - fs };
    proof {
        assert(s.subrange(st as int, ie as int) =~= int_digits(s));
        assert(s.subrange(fs as int, me as int) =~= frac_digits(s));
        assert forall|k: int| st <= k < ie implies is_digit(#[trigger] s[k]) by {
            lemma_digits_run(s, st as int, k);
        }
        assert forall|k: int| fs <= k < me implies is_digit(#[trigger] s[k]) by {
            lemma_digits_run(s, fs as int, k);
        }
        assert(all_digits(s.subrange(st as int, ie as int)));
        assert(all_digits(s.subrange(fs as int, me as int)));
    }
    (neg, m, me)
}

proof fn lemma_digits_run(s: Seq<char>, i: int, k: int)
    requires
        0 <= i <= k < digits_end(s, i),
    ensures
        is_digit(s[k]),
    decreases k - i,
{
    if i < k {
        lemma_digits_run(s, i + 1, k);
    }
}

/// Reads the exponent part that follows the mantissa at `me`: its sign and
/// its magnitude capped at `EXP_CAP`, or `None` where it is malformed.
fn scan_exponent(raw: &str, n: usize, me: usize) -> (r: Option<(bool, u128)>)
    requires
        n == raw@.len(),
        me == mant_end(raw@),
        me < n,
    ensures
        r is Some <==> exponent_ok(raw@),
        r matches Some((neg, e)) ==> neg == exp_negative(raw@) && e == (if digits_value(
            exp_digits(raw@),
        ) >= EXP_CAP {
            EXP_CAP as nat
        } else {
            digits_value(exp_digits(raw@))
        }),
{
    let ghost s = raw@;
    let c = raw.get_char(me);
    if c != 'e' && c != 'E' {
        return None;
    }
    let mut k: usize = me + 1;
    let mut eneg = false;
    if k < n {
        let c1 = raw.get_char(k);
        if c1 == '+' || c1 == '-' {
            eneg = c1 == '-';
            k = k + 1;
        }
    }
    let es = k;
    assert(es == exp_start(s));
    if es == n {
        return None;
    }
    let mut e: u128 = 0;
    while k < n
        invariant
            n == s.len(),
            s == raw@,
            es == exp_start(s),
            es <= k <= n,
            all_digits(s.subrange(es as int, k as int)),
            e == (if digits_value(s.subrange(es as int, k as int)) >= EXP_CAP {
                EXP_CAP as nat
            } else {
                digits_value(s.subrange(es as int, k as int))
            }),
        decreases n - k,
    {
        let dd = match digit_at(raw, k) {
            Some(x) => x,
            None => {
                assert(exp_digits(s)[k - es] == s[k as int]);
                return None;
            },
        };
        proof {
            assert(s.subrange(es as int, k + 1) =~= s.subrange(es as int, k as int).push(
                s[k as int],
            ));
            lemma_digits_push(s.subrange(es as int, k as int), s[k as int]);
            if e >= EXP_CAP {
                lemma_cap_step(
                    digits_value(s.subrange(es as int, k as int)),
                    dd as nat,
                    EXP_CAP as nat,
                );
            }
        }
        if e < EXP_CAP {
            e = e * 10 + dd as u128;
            if e > EXP_CAP {
                e = EXP_CAP;
            }
        }
        k = k + 1;
    }
    assert(s.subrange(es as int, k as int) =~= exp_digits(s));
    Some((eneg, e))
}

proof fn lemma_zero_mantissa(d: Seq<char>, a: int, b: int)
    requires
        all_zeros(d),
    ensures
        all_zeros(window(d, a, b)),
        digits_value(window(d, a, b)) == 0,
{
    assert(all_zeros(window(d, a, b)));
    lemma_all_zeros_value(window(d, a, b));
}

/// A mantissa whose first non-zero digit stands four or more places before
/// the point has an integer part of at least a thousand.
proof fn lemma_large(d: Seq<char>, z: int, pt: int)
    requires
        all_digits(d),
        0 <= z < d.len(),
        d[z] != '0',
        pt - z >= 4,
    ensures
        digits_value(window(d, 0, pt)) >= 1000,
{
    let hi = window(d, 0, z);
    let lo = window(d, z, pt);
    lemma_window_split(d, 0, z, pt);
    lemma_digits_concat(hi, lo);
    assert(lo[0] == d[z]);
    lemma_digits_lower(lo);
    lemma_pow10_mono(3, (lo.len() - 1) as nat);
    reveal_with_fuel(pow10, 4);
    assert(digits_value(hi) * pow10(lo.len()) >= 0) by (nonlinear_arith);
}

/// A mantissa whose first non-zero digit stands seven or more places after
/// the point is zero at the scale, and has no integer part.
proof fn lemma_tiny(d: Seq<char>, z: int, pt: int)
    requires
        forall|k: int| 0 <= k < z ==> #[trigger] d[k] == '0',
        pt + 7 <= z,
    ensures
        digits_value(window(d, 0, pt + 7)) == 0,
        digits_value(window(d, 0, pt)) == 0,
{
    assert(all_zeros(window(d, 0, pt + 7)));
    lemma_all_zeros_value(window(d, 0, pt + 7));
    assert(all_zeros(window(d, 0, pt)));
    lemma_all_zeros_value(window(d, 0, pt));
}

/// A value within `limit` degrees is within `limit * SCALE` at the scale.
proof fn lemma_scaled_bound(d: Seq<char>, z: int, pt: int, limit: nat)
    requires
        all_digits(d),
        0 <= z < d.len(),
        d[z] != '0',
        pt + 7 > z,
        digits_value(window(d, 0, pt)) < limit || (digits_value(window(d, 0, pt)) == limit
            && all_zeros(window(d, pt, d.len() as int))),
    ensures
        digits_value(window(d, 0, pt + 7)) <= limit * SCALE,
{
    let total = digits_value(window(d, 0, pt + 7));
    if pt >= 0 {
        lemma_window_split(d, 0, pt, pt + 7);
        lemma_digits_concat(window(d, 0, pt), window(d, pt, pt + 7));
        lemma_window_digits(d, pt, pt + 7);
        lemma_digits_bound(window(d, pt, pt + 7));
        reveal_with_fuel(pow10, 8);
        let iv = digits_value(window(d, 0, pt));
        let f = digits_value(window(d, pt, pt + 7));
        if iv == limit {
            let w = window(d, pt, pt + 7);
            let wz = window(d, pt, d.len() as int);
            assert forall|q: int| 0 <= q < w.len() implies #[trigger] w[q] == '0' by {
                if pt + q < d.len() {
                    assert(wz[q] == w[q]);
                }
            }
            lemma_all_zeros_value(w);
        } else {
            assert(iv * SCALE + f <= limit * SCALE) by (nonlinear_arith)
                requires
                    iv < limit,
                    f < SCALE,
            ;
        }
    } else {
        lemma_window_digits(d, 0, pt + 7);
        lemma_digits_bound(window(d, 0, pt + 7));
        lemma_pow10_bound((pt + 7) as nat);
        if limit == 0 {
            let wz = window(d, pt, d.len() as int);
            assert(wz[z - pt] == d[z]);
        } else {
            assert(1_000_000 <= limit * SCALE) by (nonlinear_arith)
                requires
                    limit >= 1,
            ;
        }
    }
}

/// Reads the decimal text `raw` as a value of at most `limit` degrees in
/// absolute value, in units of `1 / SCALE`.
pub fn read_scaled(raw: &str, limit: u64) -> (r: Result<i64, NumberError>)
    requires
        1 <= limit <= 180,
    ensures
        match r {
            Ok(v) => read_outcome(raw@, limit as nat) == Ok::<int, NumberError>(v as int),
            Err(e) => read_outcome(raw@, limit as nat) == Err::<int, NumberError>(e),
        },
        r is Ok ==> -(limit * SCALE) <= r->Ok_0 <= limit * SCALE,
{
    let ghost s = raw@;
    let n = raw.unicode_len();
    let (neg, m, me) = scan_mantissa(raw, n);
    let ghost d = mantissa(s);
    if m.il == 0 && m.fl == 0 {
        return Err(NumberError::NotANumber);
    }
    let (eneg, e) = if me < n {
        match scan_exponent(raw, n, me) {
            Some(x) => x,
            None => {
                return Err(NumberError::NotANumber);
            },
        }
    } else {
        (false, 0)
    };
    assert(is_decimal(s));
    let ghost ev = digits_value(exp_digits(s));
    let ghost pt = point(s);
    assert(all_digits(d));
    let len: i128 = m.il as i128 + m.fl as i128;
    let z = m.first_nonzero(raw);
    if z == len {
        proof {
            assert(all_zeros(d));
            lemma_zero_mantissa(d, 0, pt);
            lemma_zero_mantissa(d, pt, d.len() as int);
            lemma_zero_mantissa(d, 0, pt + 7);
        }
        return Ok(0);
    }
    let p: i128 = if eneg {
        m.il as i128 - e as i128
    } else {
        m.il as i128 + e as i128
    };
    assert(m.il <= usize::MAX && m.fl <= usize::MAX);
    assert(0 <= z <= len);
    assert(me == n ==> p == pt);
    assert(me < n && ev < EXP_CAP ==> p == pt);
    assert(me < n && !eneg && ev >= EXP_CAP ==> pt >= p && p - z >= 4);
    assert(me < n && eneg && ev >= EXP_CAP ==> pt <= p && p - z <= -7);
    if p - z >= 4 {
        proof {
            lemma_large(d, z as int, pt);
        }
        return Err(NumberError::OutOfRange);
    }
    if p - z <= -7 {
        proof {
            lemma_tiny(d, z as int, pt);
        }
        return Ok(0);
    }
    assert(p == pt);
    let ip = m.capped_prefix(raw, p);
    let zeros = m.zeros_from(raw, p);
    if !(ip < limit || (ip == limit && zeros)) {
        return Err(NumberError::OutOfRange);
    }
    proof {
        lemma_scaled_bound(d, z as int, pt, limit as nat);
        assert(limit * SCALE <= 180 * SCALE);
    }
    let v: i64 = m.prefix_value(raw, p + 7) as i64;
    if neg {
        Ok(-v)
    } else {
        Ok(v)
    }
}

} // verus!
