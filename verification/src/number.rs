//! Numbers in telegram values: the grammar of decimal literals, and
//! hexadecimal counters.

use vstd::prelude::*;

verus! {

/// An ASCII decimal digit.
pub open spec fn is_digit(c: char) -> bool {
    '0' <= c <= '9'
}

/// Every character of `s` is an ASCII decimal digit.
pub open spec fn all_digits(s: Seq<char>) -> bool {
    forall|i: int| 0 <= i < s.len() ==> #[trigger] is_digit(s[i])
}

/// `s` spells the lowercase ASCII word `word`, in any mix of upper and lower case.
pub open spec fn spells_ignoring_case(s: Seq<char>, word: Seq<char>) -> bool {
    &&& s.len() == word.len()
    &&& forall|i: int|
        0 <= i < s.len() ==> #[trigger] s[i] == word[i] || s[i] as u32 + 32 == word[i] as u32
}

/// `s` begins with a `+` or `-` sign.
pub open spec fn has_sign(s: Seq<char>) -> bool {
    s.len() > 0 && (s[0] == '+' || s[0] == '-')
}

/// `s` without its leading sign, if it has one.
pub open spec fn unsigned_part(s: Seq<char>) -> Seq<char> {
    if has_sign(s) {
        s.drop_first()
    } else {
        s
    }
}

/// The digits of a decimal literal without exponent: `Digit+`,
/// `Digit+ '.' Digit*` or `Digit* '.' Digit+`.
#[verifier::opaque]
pub open spec fn is_mantissa(m: Seq<char>) -> bool {
    ||| m.len() > 0 && all_digits(m)
    ||| exists|p: int|
        0 <= p < m.len() && m[p] == '.' && all_digits(m.take(p)) && all_digits(m.skip(p + 1))
            && m.len() > 1
}

/// The letter that starts an exponent.
pub open spec fn is_exponent_marker(c: char) -> bool {
    c == 'e' || c == 'E'
}

/// The part of an exponent after its marker: an optional sign and digits.
pub open spec fn is_exponent(x: Seq<char>) -> bool {
    unsigned_part(x).len() > 0 && all_digits(unsigned_part(x))
}

/// An unsigned decimal literal, with or without an exponent.
#[verifier::opaque]
pub open spec fn is_number(u: Seq<char>) -> bool {
    ||| is_mantissa(u)
    ||| exists|k: int|
        0 <= k < u.len() && is_mantissa(u.take(k)) && is_exponent_marker(u[k]) && is_exponent(
            u.skip(k + 1),
        )
}

/// The text of a floating-point literal as `f64::from_str` accepts it:
/// an optional sign, then `inf`, `infinity`, `nan` (in any case) or a decimal
/// number with an optional exponent.
pub open spec fn is_float_literal(s: Seq<char>) -> bool {
    let u = unsigned_part(s);
    ||| spells_ignoring_case(u, seq!['i', 'n', 'f'])
    ||| spells_ignoring_case(u, seq!['i', 'n', 'f', 'i', 'n', 'i', 't', 'y'])
    ||| spells_ignoring_case(u, seq!['n', 'a', 'n'])
    ||| is_number(u)
}

/// The end of the run of ASCII digits that starts at `from`.
fn digits_end(chars: &Vec<char>, from: usize, to: usize) -> (e: usize)
    requires
        from <= to <= chars@.len(),
    ensures
        from <= e <= to,
        all_digits(chars@.subrange(from as int, e as int)),
        e < to ==> !is_digit(chars@[e as int]),
{
    let mut e = from;
    while e < to && '0' <= chars[e] && chars[e] <= '9'
        invariant
            from <= e <= to <= chars@.len(),
            forall|i: int| from <= i < e ==> is_digit(#[trigger] chars@[i]),
        decreases to - e,
    {
        e = e + 1;
    }
    assert forall|i: int| 0 <= i < e - from implies #[trigger] is_digit(
        chars@.subrange(from as int, e as int)[i],
    ) by {
        assert(is_digit(chars@[from + i]));
    }
    e
}

/// Whether `chars[from..to]` spells `word` (given in lowercase ASCII) in any case.
fn spells_word(chars: &Vec<char>, from: usize, to: usize, word: &str) -> (b: bool)
    requires
        from <= to <= chars@.len(),
    ensures
        b == spells_ignoring_case(chars@.subrange(from as int, to as int), word@),
{
    let w = crate::text::chars_of(word);
    if to - from != w.len() {
        return false;
    }
    let ghost s = chars@.subrange(from as int, to as int);
    let mut i: usize = 0;
    while i < w.len()
        invariant
            from <= to <= chars@.len(),
            s == chars@.subrange(from as int, to as int),
            w@ == word@,
            to - from == w@.len(),
            i <= w@.len(),
            forall|j: int|
                0 <= j < i ==> #[trigger] s[j] == w@[j] || s[j] as u32 + 32 == w@[j] as u32,
        decreases w.len() - i,
    {
        let c = chars[from + i];
        let l = w[i];
        if !(c == l || ((l as u32) >= 32 && (c as u32) == (l as u32) - 32)) {
            assert(!(s[i as int] == w@[i as int] || s[i as int] as u32 + 32 == w@[i as int] as u32));
            return false;
        }
        i = i + 1;
    }
    true
}


/// The shape that scanning `digits [ '.' digits ]` from the start of `u`
/// finds: `a` ends the first run of digits and `b` ends the whole scan.
pub open spec fn mantissa_scan(u: Seq<char>, a: int, b: int) -> bool {
    &&& 0 <= a <= b <= u.len()
    &&& all_digits(u.take(a))
    &&& a < u.len() ==> !is_digit(u[a])
    &&& a < u.len() && u[a] == '.' ==> b > a && all_digits(u.subrange(a + 1, b)) && (b < u.len()
        ==> !is_digit(u[b]))
    &&& !(a < u.len() && u[a] == '.') ==> b == a
}

proof fn lemma_scan_chars(u: Seq<char>, a: int, b: int, k: int)
    requires
        mantissa_scan(u, a, b),
        0 <= k < b,
    ensures
        is_digit(u[k]) || u[k] == '.',
{
    if k < a {
        assert(is_digit(u.take(a)[k]));
    } else if k > a {
        assert(is_digit(u.subrange(a + 1, b)[k - a - 1]));
    }
}

proof fn lemma_scan_longest(u: Seq<char>, a: int, b: int, k: int)
    requires
        mantissa_scan(u, a, b),
        0 <= k <= u.len(),
        is_mantissa(u.take(k)),
    ensures
        k <= b,
{
    reveal(is_mantissa);
    reveal(is_number);
    if k > b {
        let m = u.take(k);
        if m.len() > 0 && all_digits(m) {
            assert(is_digit(m[a]));
        } else {
            let p = choose|p: int|
                0 <= p < m.len() && m[p] == '.' && all_digits(m.take(p)) && all_digits(
                    m.skip(p + 1),
                ) && m.len() > 1;
            if a < p {
                assert(is_digit(m.take(p)[a]));
            } else if a > p {
                assert(is_digit(m.skip(p + 1)[a - p - 1]));
            } else {
                if b < p {
                    assert(is_digit(m.take(p)[b]));
                } else {
                    assert(is_digit(m.skip(p + 1)[b - p - 1]));
                }
            }
        }
    }
}

proof fn lemma_scan_mantissa(u: Seq<char>, a: int, b: int)
    requires
        mantissa_scan(u, a, b),
    ensures
        is_mantissa(u.take(b)) == (if a < u.len() && u[a] == '.' {
            b > 1
        } else {
            a > 0
        }),
{
    reveal(is_mantissa);
    reveal(is_number);
    let m = u.take(b);
    if a < u.len() && u[a] == '.' {
        if b > 1 {
            assert(m.take(a) =~= u.take(a));
            assert(m.skip(a + 1) =~= u.subrange(a + 1, b));
            assert(m[a] == '.');
        } else {
            assert(m.len() == 1);
        }
        if m.len() > 0 && all_digits(m) {
            assert(is_digit(m[a]));
        }
    } else {
        assert(m =~= u.take(a));
        if a > 0 {
            assert(m.len() > 0 && all_digits(m));
        } else {
            assert(m.len() == 0);
        }
    }
}

proof fn lemma_marker_at_scan_end(u: Seq<char>, a: int, b: int, k: int)
    requires
        mantissa_scan(u, a, b),
        0 <= k < u.len(),
        is_mantissa(u.take(k)),
        is_exponent_marker(u[k]),
    ensures
        k == b,
{
    lemma_scan_longest(u, a, b, k);
    if k < b {
        lemma_scan_chars(u, a, b, k);
    }
}

/// What the scan of `digits [ '.' digits ]` at the start of `u`, ending at
/// `b`, tells of `u` as a number: `u` is a number without exponent exactly
/// when the scan covers all of it, and with exponent exactly when the
/// exponent's marker stands where the scan ends.
proof fn lemma_number_scan(u: Seq<char>, a: int, b: int)
    requires
        mantissa_scan(u, a, b),
    ensures
        is_number(u) <==> is_mantissa(u.take(b)) && (b == u.len() || (is_exponent_marker(u[b])
            && is_exponent(u.skip(b + 1)))),
{
    reveal(is_mantissa);
    reveal(is_number);
    assert(u.take(u.len() as int) =~= u);
    if is_mantissa(u) {
        lemma_scan_longest(u, a, b, u.len() as int);
    }
    if is_number(u) && !is_mantissa(u) {
        let k = choose|k: int|
            0 <= k < u.len() && is_mantissa(u.take(k)) && is_exponent_marker(u[k])
                && is_exponent(u.skip(k + 1));
        lemma_marker_at_scan_end(u, a, b, k);
    }
    if is_mantissa(u.take(b)) && b < u.len() && is_exponent_marker(u[b]) && is_exponent(
        u.skip(b + 1),
    ) {
        assert(0 <= b < u.len() && is_mantissa(u.take(b)) && is_exponent_marker(u[b])
            && is_exponent(u.skip(b + 1)));
    }
}

/// Scans `digits [ '.' digits ]` at the start of `chars[from..to]`: returns
/// where the first run of digits ends and where the scan ends.
fn scan_mantissa(chars: &Vec<char>, from: usize, to: usize) -> (r: (usize, usize))
    requires
        from <= to <= chars@.len(),
    ensures
        from <= r.0 <= r.1 <= to,
        mantissa_scan(chars@.subrange(from as int, to as int), r.0 - from, r.1 - from),
{
    let ghost u = chars@.subrange(from as int, to as int);
    let a = digits_end(chars, from, to);
    let dot = a < to && chars[a] == '.';
    let b = if dot {
        digits_end(chars, a + 1, to)
    } else {
        a
    };
    let ghost a1 = a - from;
    let ghost b1 = b - from;
    assert(u.take(a1) =~= chars@.subrange(from as int, a as int));
    if a < to {
        assert(u[a1] == chars@[a as int]);
    }
    if dot {
        assert(u.subrange(a1 + 1, b1) =~= chars@.subrange(a + 1, b as int));
    }
    (a, b)
}

/// Whether `chars[from..to]` is an exponent (after its marker): an optional
/// sign and at least one digit.
fn scan_exponent(chars: &Vec<char>, from: usize, to: usize) -> (b: bool)
    requires
        from <= to <= chars@.len(),
    ensures
        b == is_exponent(chars@.subrange(from as int, to as int)),
{
    let ghost x = chars@.subrange(from as int, to as int);
    let e1 = if from < to && (chars[from] == '+' || chars[from] == '-') {
        from + 1
    } else {
        from
    };
    assert(unsigned_part(x) =~= chars@.subrange(e1 as int, to as int));
    let ee = digits_end(chars, e1, to);
    if ee == to && ee > e1 {
        return true;
    }
    assert(!is_exponent(x)) by {
        if is_exponent(x) {
            assert(is_digit(chars@.subrange(e1 as int, to as int)[ee - e1]));
        }
    }
    false
}

/// Whether `chars[from..to]` is an unsigned decimal number, with or without
/// an exponent.
fn scan_number(chars: &Vec<char>, from: usize, to: usize) -> (b: bool)
    requires
        from <= to <= chars@.len(),
    ensures
        b == is_number(chars@.subrange(from as int, to as int)),
{
    let ghost u = chars@.subrange(from as int, to as int);
    let (a, b) = scan_mantissa(chars, from, to);
    proof {
        lemma_scan_mantissa(u, a - from, b - from);
        lemma_number_scan(u, a - from, b - from);
    }
    let dot = a < to && chars[a] == '.';
    assert(a < to ==> u[a - from] == chars@[a as int]);
    let ok = if dot {
        b - from > 1
    } else {
        a > from
    };
    if !ok {
        return false;
    }
    if b == to {
        return true;
    }
    assert(u[b - from] == chars@[b as int]);
    if chars[b] == 'e' || chars[b] == 'E' {
        assert(u.skip(b - from + 1) =~= chars@.subrange(b + 1, to as int));
        return scan_exponent(chars, b + 1, to);
    }
    false
}

/// Whether `chars[from..to]` is a floating-point literal as `f64::from_str`
/// accepts it (see `is_float_literal`).
pub fn float_literal(chars: &Vec<char>, from: usize, to: usize) -> (b: bool)
    requires
        from <= to <= chars@.len(),
    ensures
        b == is_float_literal(chars@.subrange(from as int, to as int)),
{
    let ghost s = chars@.subrange(from as int, to as int);
    let signed = from < to && (chars[from] == '+' || chars[from] == '-');
    let u0 = if signed {
        from + 1
    } else {
        from
    };
    assert(chars@.subrange(u0 as int, to as int) =~= unsigned_part(s));
    proof {
        reveal_strlit("nan");
        reveal_strlit("inf");
        reveal_strlit("infinity");
    }
    spells_word(chars, u0, to, "nan") || spells_word(chars, u0, to, "inf") || spells_word(
        chars,
        u0,
        to,
        "infinity",
    ) || scan_number(chars, u0, to)
}

/// An ASCII hexadecimal digit, in either case.
pub open spec fn is_hex_digit(c: char) -> bool {
    is_digit(c) || ('a' <= c <= 'f') || ('A' <= c <= 'F')
}

/// The value of a hexadecimal digit.
pub open spec fn hex_digit_value(c: char) -> nat {
    if is_digit(c) {
        (c as u32 - '0' as u32) as nat
    } else if 'a' <= c <= 'f' {
        (c as u32 - 'a' as u32 + 10) as nat
    } else {
        (c as u32 - 'A' as u32 + 10) as nat
    }
}

/// The value of a string of hexadecimal digits, most significant first.
pub open spec fn hex_value(s: Seq<char>) -> nat
    decreases s.len(),
{
    if s.len() == 0 {
        0
    } else {
        hex_value(s.drop_last()) * 16 + hex_digit_value(s.last())
    }
}

/// Every character of `s` is a hexadecimal digit.
pub open spec fn all_hex_digits(s: Seq<char>) -> bool {
    forall|i: int| 0 <= i < s.len() ==> #[trigger] is_hex_digit(s[i])
}

/// `s` without one leading `+`.
pub open spec fn without_plus(s: Seq<char>) -> Seq<char> {
    if s.len() > 0 && s[0] == '+' {
        s.drop_first()
    } else {
        s
    }
}

/// The `u32` that `s` denotes in base 16, as `u32::from_str_radix(s, 16)`
/// reads it: an optional `+`, then at least one hexadecimal digit, with a
/// value that fits in 32 bits.
pub open spec fn parse_hex_spec(s: Seq<char>) -> Option<u32> {
    let d = without_plus(s);
    if d.len() > 0 && all_hex_digits(d) && hex_value(d) <= u32::MAX {
        Some(hex_value(d) as u32)
    } else {
        None
    }
}

proof fn lemma_hex_value_grows(s: Seq<char>, i: int)
    requires
        0 <= i <= s.len(),
    ensures
        hex_value(s.take(i)) <= hex_value(s),
    decreases s.len(),
{
    if i < s.len() {
        assert(s.drop_last().take(i) =~= s.take(i));
        lemma_hex_value_grows(s.drop_last(), i);
    } else {
        assert(s.take(i) =~= s);
    }
}

/// The value of `c` as a hexadecimal digit, if it is one.
fn hex_digit(c: char) -> (r: Option<u64>)
    ensures
        match r {
            Some(d) => is_hex_digit(c) && d == hex_digit_value(c) && d < 16,
            None => !is_hex_digit(c),
        },
{
    if '0' <= c && c <= '9' {
        Some((c as u32 - '0' as u32) as u64)
    } else if 'a' <= c && c <= 'f' {
        Some((c as u32 - 'a' as u32 + 10) as u64)
    } else if 'A' <= c && c <= 'F' {
        Some((c as u32 - 'A' as u32 + 10) as u64)
    } else {
        None
    }
}

/// The value of `chars[from..to]` read as a base-16 `u32`.
pub fn parse_hex(chars: &Vec<char>, from: usize, to: usize) -> (r: Option<u32>)
    requires
        from <= to <= chars@.len(),
    ensures
        r == parse_hex_spec(chars@.subrange(from as int, to as int)),
{
    let ghost s = chars@.subrange(from as int, to as int);
    let start = if from < to && chars[from] == '+' {
        from + 1
    } else {
        from
    };
    let ghost d = chars@.subrange(start as int, to as int);
    assert(d =~= without_plus(s));
    if start == to {
        return None;
    }
    let mut acc: u64 = 0;
    let mut i = start;
    while i < to
        invariant
            from <= start <= i <= to <= chars@.len(),
            d == chars@.subrange(start as int, to as int),
            d == without_plus(chars@.subrange(from as int, to as int)),
            all_hex_digits(d.take(i - start)),
            acc == hex_value(d.take(i - start)),
            acc <= u32::MAX,
        decreases to - i,
    {
        let k: Ghost<int> = Ghost(i - start);
        assert(d.take(k@ + 1).drop_last() =~= d.take(k@));
        match hex_digit(chars[i]) {
            None => {
                assert(d[k@] == chars@[i as int]);
                assert(!is_hex_digit(d[k@]));
                assert(!all_hex_digits(d));
                return None;
            },
            Some(v) => {
                assert(d[k@] == chars@[i as int]);
                assert(d.take(k@ + 1).last() == d[k@]);
                acc = acc * 16 + v;
                i = i + 1;
                assert(all_hex_digits(d.take(k@ + 1))) by {
                    assert forall|j: int| 0 <= j < k@ + 1 implies #[trigger] is_hex_digit(
                        d.take(k@ + 1)[j],
                    ) by {
                        if j < k@ {
                            assert(is_hex_digit(d.take(k@)[j]));
                        }
                    }
                }
                if acc > 0xffff_ffff {
                    proof {
                        lemma_hex_value_grows(d, k@ + 1);
                    }
                    return None;
                }
            },
        }
    }
    assert(d.take(d.len() as int) =~= d);
    Some(acc as u32)
}

/// The ASCII digit for `d < 10`.
pub open spec fn decimal_digit_char(d: nat) -> char {
    ('0' as u32 + d) as char
}

/// The decimal text of `n`, without leading zeros.
pub open spec fn decimal_text(n: nat) -> Seq<char>
    decreases n,
{
    if n < 10 {
        seq![decimal_digit_char(n)]
    } else {
        decimal_text(n / 10).push(decimal_digit_char(n % 10))
    }
}

/// The uppercase hexadecimal digit for `d < 16`.
pub open spec fn hex_digit_char(d: nat) -> char {
    if d < 10 {
        ('0' as u32 + d) as char
    } else {
        ('A' as u32 + d - 10) as char
    }
}

/// The lowest `width` hexadecimal digits of `n`, uppercase, most significant
/// first.
pub open spec fn hex_text(n: nat, width: nat) -> Seq<char>
    decreases width,
{
    if width == 0 {
        Seq::empty()
    } else {
        hex_text(n / 16, (width - 1) as nat).push(hex_digit_char(n % 16))
    }
}

/// Appends the decimal text of `n` to `s`.
pub fn push_decimal(s: &mut String, n: u32)
    ensures
        final(s)@ == old(s)@ + decimal_text(n as nat),
    decreases n,
{
    if n >= 10 {
        push_decimal(s, n / 10);
    }
    let d: u8 = (n % 10) as u8;
    let c: char = (48u8 + d) as char;
    assert(c == decimal_digit_char((n % 10) as nat));
    crate::text::push_char(s, c);
}

/// Appends the lowest `width` uppercase hexadecimal digits of `n` to `s`.
pub fn push_hex(s: &mut String, n: u32, width: u32)
    ensures
        final(s)@ == old(s)@ + hex_text(n as nat, width as nat),
    decreases width,
{
    if width == 0 {
        return;
    }
    push_hex(s, n / 16, width - 1);
    let d: u8 = (n % 16) as u8;
    let c: char = if d < 10 {
        (48u8 + d) as char
    } else {
        (55u8 + d) as char
    };
    assert(c == hex_digit_char((n % 16) as nat));
    crate::text::push_char(s, c);
}


/// `16` to the power `w`.
pub open spec fn pow16(w: nat) -> nat
    decreases w,
{
    if w == 0 {
        1
    } else {
        16 * pow16((w - 1) as nat)
    }
}

proof fn lemma_hex_text_value(n: nat, w: nat)
    requires
        n < pow16(w),
    ensures
        hex_value(hex_text(n, w)) == n,
        hex_text(n, w).len() == w,
        all_hex_digits(hex_text(n, w)),
    decreases w,
{
    if w > 0 {
        let p = pow16((w - 1) as nat);
        assert(n / 16 < p) by (nonlinear_arith)
            requires
                n < 16 * p,
        ;
        lemma_hex_text_value(n / 16, (w - 1) as nat);
        let t = hex_text(n, w);
        let prefix = hex_text(n / 16, (w - 1) as nat);
        assert(t.drop_last() =~= prefix);
        assert(hex_digit_value(hex_digit_char(n % 16)) == n % 16);
        assert forall|i: int| 0 <= i < t.len() implies #[trigger] is_hex_digit(t[i]) by {
            if i < t.len() - 1 {
                assert(t[i] == prefix[i]);
            }
        }
    } else {
        assert(hex_text(n, w) =~= Seq::<char>::empty());
    }
}

/// The status flags as the log shows them (eight uppercase hexadecimal
/// digits) read back as the same value.
pub proof fn lemma_hex_text_reads_back(v: u32)
    ensures
        parse_hex_spec(hex_text(v as nat, 8)) == Some(v),
{
    assert(pow16(8) == 0x1_0000_0000) by {
        reveal_with_fuel(pow16, 9);
    }
    lemma_hex_text_value(v as nat, 8);
    let t = hex_text(v as nat, 8);
    assert(is_hex_digit(t[0]));
    assert(without_plus(t) == t);
}

/// The value of a string of decimal digits, read as a base-10 numeral.
pub open spec fn decimal_value(s: Seq<char>) -> nat
    decreases s.len(),
{
    if s.len() == 0 {
        0
    } else {
        decimal_value(s.drop_last()) * 10 + (s.last() as u32 - '0' as u32) as nat
    }
}

/// The decimal text of `n` is its numeral: it is made of digits, read back as
/// a base-10 numeral it is `n`, and it begins with `0` only when `n` is 0.
pub proof fn lemma_decimal_text_reads_back(n: nat)
    ensures
        decimal_text(n).len() > 0,
        all_digits(decimal_text(n)),
        decimal_value(decimal_text(n)) == n,
        decimal_text(n)[0] == '0' ==> n == 0,
    decreases n,
{
    let t = decimal_text(n);
    let d = n % 10;
    assert(('0' as u32 + d) as char as u32 == '0' as u32 + d);
    if n < 10 {
        assert(t.drop_last() =~= Seq::<char>::empty());
        assert(decimal_value(t.drop_last()) == 0);
        assert(t.last() as u32 - '0' as u32 == d);
        assert(is_digit(t[0]));
    } else {
        lemma_decimal_text_reads_back(n / 10);
        let u = decimal_text(n / 10);
        assert(t.drop_last() =~= u);
        assert(t.last() == decimal_digit_char(d));
        assert forall|i: int| 0 <= i < t.len() implies #[trigger] is_digit(t[i]) by {
            if i < u.len() {
                assert(t[i] == u[i]);
                assert(is_digit(u[i]));
            }
        }
        assert(t[0] == u[0]);
        assert(t.last() as u32 - '0' as u32 == d);
        assert(decimal_value(t) == decimal_value(u) * 10 + d);
        assert(n == (n / 10) * 10 + d);
    }
}

} // verus!
