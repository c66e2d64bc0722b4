//! Text handling: decimal numerals, right-aligned columns, integer parsing
//! and ASCII case mapping, each stated over the characters of the text.
use vstd::prelude::*;

verus! {

// ---------------------------------------------------------------------------
// Decimal numerals
// ---------------------------------------------------------------------------

/// The character of a decimal digit `d` (`0 <= d < 10`).
pub open spec fn digit_char(d: int) -> char {
    (48 + d) as char
}

/// Decimal numeral of a natural number, most significant digit first.
pub open spec fn nat_digits(n: nat) -> Seq<char>
    decreases n,
{
    if n < 10 {
        seq![digit_char(n as int)]
    } else {
        nat_digits(n / 10).push(digit_char((n % 10) as int))
    }
}

/// Decimal numeral of an integer, as `Display` writes it: a minus sign for
/// negative numbers, no sign otherwise.
pub open spec fn decimal(n: int) -> Seq<char> {
    if n < 0 {
        seq!['-'] + nat_digits((-n) as nat)
    } else {
        nat_digits(n as nat)
    }
}

/// `k` spaces.
pub open spec fn spaces(k: nat) -> Seq<char> {
    Seq::new(k, |i: int| ' ')
}

/// `s` right-aligned in a column of `width` characters (as `{:>width}`
/// formats it): spaces in front up to the width, never cut.
pub open spec fn pad_left(s: Seq<char>, width: nat) -> Seq<char> {
    if s.len() < width {
        spaces((width - s.len()) as nat) + s
    } else {
        s
    }
}

/// Appends `c` to `s` (`String::push`).
#[verifier::external_body]
pub fn push_char(s: &mut String, c: char)
    ensures
        final(s)@ == old(s)@.push(c),
{
    s.push(c);
}

fn digit(d: u64) -> (c: char)
    requires
        d < 10,
    ensures
        c == digit_char(d as int),
{
    let b: u8 = 48u8 + (d as u8);
    b as char
}

fn push_nat(out: &mut String, n: u64)
    ensures
        final(out)@ == old(out)@ + nat_digits(n as nat),
    decreases n,
{
    if n >= 10 {
        push_nat(out, n / 10);
    }
    let ghost mid = out@;
    push_char(out, digit(n % 10));
    proof {
        if n >= 10 {
            assert(old(out)@ + nat_digits(n as nat) =~= old(out)@ + nat_digits((n / 10) as nat) + seq![
                digit_char((n % 10) as int),
            ]);
        } else {
            assert(nat_digits(n as nat) =~= seq![digit_char(n as int)]);
        }
    }
}

/// Appends the decimal numeral of `n` to `out`.
pub fn push_int(out: &mut String, n: i64)
    ensures
        final(out)@ == old(out)@ + decimal(n as int),
{
    if n < 0 {
        push_char(out, '-');
        let m: i128 = -(n as i128);
        push_nat(out, m as u64);
        assert(old(out)@ + decimal(n as int) =~= old(out)@.push('-') + nat_digits((-n) as nat));
    } else {
        push_nat(out, n as u64);
    }
}

/// The decimal numeral of `n` as a new string.
pub fn int_to_string(n: i64) -> (s: String)
    ensures
        s@ == decimal(n as int),
{
    let mut s = String::new();
    push_int(&mut s, n);
    assert(Seq::<char>::empty() + decimal(n as int) =~= decimal(n as int));
    s
}

/// Appends `s` to `out`.
pub fn push_str(out: &mut String, s: &str)
    ensures
        final(out)@ == old(out)@ + s@,
{
    out.append(s);
}

/// Appends `s` right-aligned in a column of `width` characters.
pub fn push_right_aligned(out: &mut String, s: &str, width: usize)
    ensures
        final(out)@ == old(out)@ + pad_left(s@, width as nat),
{
    let len = s.unicode_len();
    let mut k: usize = len;
    while k < width
        invariant
            len == s@.len(),
            len <= k,
            k <= width || len >= width,
            len >= width ==> k == len,
            out@ == old(out)@ + spaces((k - len) as nat),
        decreases width - k,
    {
        push_char(out, ' ');
        assert(spaces((k + 1 - len) as nat) =~= spaces((k - len) as nat).push(' '));
        k = k + 1;
    }
    out.append(s);
    proof {
        if len < width {
            assert(k == width);
        } else {
            assert(spaces((k - len) as nat) =~= Seq::<char>::empty());
            assert(old(out)@ + Seq::<char>::empty() =~= old(out)@);
        }
        assert(old(out)@ + spaces((k - len) as nat) + s@ =~= old(out)@ + pad_left(s@, width as nat));
    }
}

/// Appends the decimal numeral of `n` right-aligned in a column of `width`
/// characters.
pub fn push_int_right_aligned(out: &mut String, n: i64, width: usize)
    ensures
        final(out)@ == old(out)@ + pad_left(decimal(n as int), width as nat),
{
    let s = int_to_string(n);
    push_right_aligned(out, s.as_str(), width);
}

// ---------------------------------------------------------------------------
// Parsing integers
// ---------------------------------------------------------------------------

/// `c` is one of `0` to `9`.
pub open spec fn is_digit(c: char) -> bool {
    '0' <= c && c <= '9'
}

/// Every character of `s` is a decimal digit.
pub open spec fn all_digits(s: Seq<char>) -> bool {
    forall|i: int| 0 <= i < s.len() ==> is_digit(#[trigger] s[i])
}

/// Value of a string of decimal digits, most significant first.
pub open spec fn digits_value(s: Seq<char>) -> int
    decreases s.len(),
{
    if s.len() == 0 {
        0
    } else {
        10 * digits_value(s.drop_last()) + (s.last() as int - 48)
    }
}

/// The integer that `s` writes as `str::parse` reads one: an optional `+` or
/// `-` sign followed by at least one decimal digit, and nothing else.
pub open spec fn integer_value(s: Seq<char>) -> Option<int> {
    if s.len() == 0 {
        None
    } else if s[0] == '+' || s[0] == '-' {
        let body = s.drop_first();
        if body.len() > 0 && all_digits(body) {
            Some(if s[0] == '-' { -digits_value(body) } else { digits_value(body) })
        } else {
            None
        }
    } else if all_digits(s) {
        Some(digits_value(s))
    } else {
        None
    }
}

/// The result of parsing `s` into an integer type whose values run from `lo`
/// to `hi`: the value written, when it is written properly and fits.
pub open spec fn parse_in_range(s: Seq<char>, lo: int, hi: int) -> Option<int> {
    match integer_value(s) {
        Some(v) => if lo <= v && v <= hi { Some(v) } else { None },
        None => None,
    }
}

proof fn lemma_digits_value_grows(s: Seq<char>, k: int)
    requires
        0 <= k <= s.len(),
        all_digits(s),
    ensures
        digits_value(s) >= digits_value(s.take(k)) >= 0,
    decreases s.len(),
{
    if s.len() > 0 {
        if k == s.len() {
            assert(s.take(k) =~= s);
            lemma_digits_value_grows(s.drop_last(), s.len() - 1);
            assert(s.drop_last().take(s.len() - 1) =~= s.drop_last());
        } else {
            lemma_digits_value_grows(s.drop_last(), k);
            assert(s.drop_last().take(k) =~= s.take(k));
            lemma_digits_value_grows(s.drop_last(), s.len() - 1);
            assert(s.drop_last().take(s.len() - 1) =~= s.drop_last());
        }
    } else {
        assert(s.take(k) =~= s);
    }
}

/// The largest magnitude that `parse_integer` accumulates before it knows the
/// value cannot fit.
pub const PARSE_CAP: i64 = 0x100_0000_0000;

/// Reads `s` as an integer between `lo` and `hi`, as `str::parse` does for an
/// integer type with that range.
pub fn parse_integer(s: &str, lo: i64, hi: i64) -> (r: Option<i64>)
    requires
        -PARSE_CAP <= lo,
        hi <= PARSE_CAP,
    ensures
        r matches Some(v) ==> parse_in_range(s@, lo as int, hi as int) == Some(v as int),
        r is None ==> parse_in_range(s@, lo as int, hi as int) is None,
{
    let n = s.unicode_len();
    if n == 0 {
        return None;
    }
    let first = s.get_char(0);
    let negative = first == '-';
    let start: usize = if first == '+' || first == '-' { 1 } else { 0 };
    if start == n {
        return None;
    }
    let ghost body = s@.subrange(start as int, n as int);
    proof {
        if start == 1 {
            assert(body =~= s@.drop_first());
        } else {
            assert(body =~= s@);
        }
    }
    let mut acc: i64 = 0;
    let mut k: usize = start;
    while k < n
        invariant
            n == s@.len(),
            1 <= n,
            start <= k <= n,
            body == s@.subrange(start as int, n as int),
            all_digits(body.take(k - start)),
            acc == digits_value(body.take(k - start)),
            0 <= acc <= PARSE_CAP,
            -PARSE_CAP <= lo,
            hi <= PARSE_CAP,
            negative == (s@[0] == '-'),
            start <= 1,
            start == 1 ==> body == s@.drop_first() && (s@[0] == '+' || s@[0] == '-'),
            start == 0 ==> body == s@ && !(s@[0] == '+' || s@[0] == '-'),
        decreases n - k,
    {
        let c = s.get_char(k);
        assert(body[k - start] == c);
        assert(body.take(k - start + 1).drop_last() =~= body.take(k - start));
        if !('0' <= c && c <= '9') {
            assert(!is_digit(body[k - start]));
            assert(!all_digits(body));
            if start == 1 {
                assert(s@.drop_first() == body);
            } else {
                assert(s@ == body);
            }
            assert(integer_value(s@) is None);
            return None;
        }
        let d: i64 = (c as u32 - 48) as i64;
        let next: i64 = acc * 10 + d;
        if next > PARSE_CAP {
            proof {
                assert(body.take(k - start + 1).last() == c);
                assert(digits_value(body.take(k - start + 1)) == next);
                if all_digits(body) {
                    lemma_digits_value_grows(body, k - start + 1);
                }
                if start == 1 {
                    assert(s@.drop_first() == body);
                } else {
                    assert(s@ == body);
                }
            }
            return None;
        }
        acc = next;
        k = k + 1;
    }
    assert(body.take(n - start) =~= body);
    let v: i64 = if negative { -acc } else { acc };
    if lo <= v && v <= hi {
        Some(v)
    } else {
        None
    }
}

/// Reads `s` as an `i16` (`str::parse::<i16>`).
pub fn parse_i16(s: &str) -> (r: Option<i16>)
    ensures
        r matches Some(v) ==> parse_in_range(s@, i16::MIN as int, i16::MAX as int) == Some(v as int),
        r is None ==> parse_in_range(s@, i16::MIN as int, i16::MAX as int) is None,
{
    match parse_integer(s, i16::MIN as i64, i16::MAX as i64) {
        Some(v) => Some(v as i16),
        None => None,
    }
}

/// Reads `s` as an `i32` (`str::parse::<i32>`).
pub fn parse_i32(s: &str) -> (r: Option<i32>)
    ensures
        r matches Some(v) ==> parse_in_range(s@, i32::MIN as int, i32::MAX as int) == Some(v as int),
        r is None ==> parse_in_range(s@, i32::MIN as int, i32::MAX as int) is None,
{
    match parse_integer(s, i32::MIN as i64, i32::MAX as i64) {
        Some(v) => Some(v as i32),
        None => None,
    }
}

proof fn lemma_nat_digits(m: nat)
    ensures
        nat_digits(m).len() > 0,
        all_digits(nat_digits(m)),
        digits_value(nat_digits(m)) == m,
    decreases m,
{
    if m >= 10 {
        lemma_nat_digits(m / 10);
        let s = nat_digits(m / 10);
        assert(nat_digits(m).drop_last() =~= s);
        assert(nat_digits(m).last() == digit_char((m % 10) as int));
        assert(digit_char((m % 10) as int) as int == 48 + m % 10);
        assert(digits_value(nat_digits(m)) == 10 * (m / 10) + m % 10);
        assert(m == 10 * (m / 10) + m % 10) by (nonlinear_arith);
        assert forall|i: int| 0 <= i < nat_digits(m).len() implies is_digit(#[trigger] nat_digits(m)[i]) by {
            if i < s.len() {
                assert(nat_digits(m)[i] == s[i]);
            }
        }
    } else {
        assert(digit_char(m as int) as int == 48 + m);
        assert(nat_digits(m).drop_last() =~= Seq::<char>::empty());
        assert(digits_value(nat_digits(m).drop_last()) == 0);
        assert(nat_digits(m).last() == digit_char(m as int));
    }
}

/// Law: the decimal numeral that `push_int` writes reads back, through
/// `parse_integer`, as the same number.
pub proof fn law_decimal_reads_back(n: int)
    ensures
        integer_value(decimal(n)) == Some(n),
{
    if n < 0 {
        let m = (-n) as nat;
        lemma_nat_digits(m);
        assert(decimal(n).drop_first() =~= nat_digits(m));
        assert(decimal(n)[0] == '-');
    } else {
        lemma_nat_digits(n as nat);
        assert(is_digit(decimal(n)[0]));
    }
}

// ---------------------------------------------------------------------------
// Characters
// ---------------------------------------------------------------------------

/// The first character of `s`.
pub fn first_char(s: &str) -> (c: char)
    requires
        s@.len() > 0,
    ensures
        c == s@[0],
{
    s.get_char(0)
}

/// Tells whether `a` and `b` hold the same characters.
pub fn str_eq(a: &str, b: &str) -> (r: bool)
    ensures
        r == (a@ == b@),
{
    let n = a.unicode_len();
    if n != b.unicode_len() {
        return false;
    }
    let mut k: usize = 0;
    while k < n
        invariant
            n == a@.len(),
            n == b@.len(),
            k <= n,
            forall|i: int| 0 <= i < k ==> a@[i] == b@[i],
        decreases n - k,
    {
        if a.get_char(k) != b.get_char(k) {
            return false;
        }
        k = k + 1;
    }
    assert(a@ =~= b@);
    true
}

/// Bytes that UTF-8 takes for `c`.
pub open spec fn utf8_width(c: char) -> int {
    if (c as u32) <= 0x7F {
        1
    } else if (c as u32) <= 0x7FF {
        2
    } else if (c as u32) <= 0xFFFF {
        3
    } else {
        4
    }
}

/// Bytes that UTF-8 takes for `s` (what `str::len` reports).
pub open spec fn utf8_len(s: Seq<char>) -> int
    decreases s.len(),
{
    if s.len() == 0 {
        0
    } else {
        utf8_len(s.drop_last()) + utf8_width(s.last())
    }
}

proof fn lemma_utf8_len_grows(s: Seq<char>, k: int)
    requires
        0 <= k <= s.len(),
    ensures
        utf8_len(s) >= utf8_len(s.take(k)),
    decreases s.len(),
{
    if k < s.len() {
        lemma_utf8_len_grows(s.drop_last(), k);
        assert(s.drop_last().take(k) =~= s.take(k));
    } else {
        assert(s.take(k) =~= s);
    }
}

/// Tells whether `s` takes more than `limit` bytes in UTF-8.
pub fn utf8_longer_than(s: &str, limit: usize) -> (r: bool)
    ensures
        r == (utf8_len(s@) > limit),
{
    let n = s.unicode_len();
    let mut total: usize = 0;
    let mut k: usize = 0;
    while k < n
        invariant
            n == s@.len(),
            k <= n,
            total == utf8_len(s@.take(k as int)),
            total <= limit,
        decreases n - k,
    {
        let c = s.get_char(k);
        let w: usize = if (c as u32) <= 0x7F {
            1
        } else if (c as u32) <= 0x7FF {
            2
        } else if (c as u32) <= 0xFFFF {
            3
        } else {
            4
        };
        assert(s@.take(k as int + 1).drop_last() =~= s@.take(k as int));
        assert(s@.take(k as int + 1).last() == c);
        if w > limit - total {
            proof {
                lemma_utf8_len_grows(s@, k as int + 1);
            }
            return true;
        }
        total = total + w;
        k = k + 1;
    }
    assert(s@.take(n as int) =~= s@);
    false
}

/// `c` with `a` to `z` mapped to `A` to `Z`; every other character unchanged.
pub open spec fn ascii_upper_char(c: char) -> char {
    if 'a' <= c && c <= 'z' {
        (c as int - 32) as char
    } else {
        c
    }
}

/// `s` with its ASCII letters in upper case (`to_ascii_uppercase`).
pub open spec fn ascii_upper(s: Seq<char>) -> Seq<char> {
    Seq::new(s.len(), |i: int| ascii_upper_char(s[i]))
}

/// A copy of `s` with its ASCII letters in upper case.
pub fn to_ascii_upper(s: &str) -> (r: String)
    ensures
        r@ == ascii_upper(s@),
{
    let n = s.unicode_len();
    let mut r = String::new();
    let mut k: usize = 0;
    while k < n
        invariant
            n == s@.len(),
            k <= n,
            r@ =~= ascii_upper(s@).take(k as int),
        decreases n - k,
    {
        let c = s.get_char(k);
        if 'a' <= c && c <= 'z' {
            let b: u8 = (c as u32 - 32) as u8;
            push_char(&mut r, b as char);
        } else {
            push_char(&mut r, c);
        }
        k = k + 1;
    }
    r
}

} // verus!
