//! Numbers as text: decimal and hexadecimal rendering, hexadecimal reading,
//! and the recogniser for numeric literals.

use crate::text::{copy_range, starts_with};
use vstd::prelude::*;

verus! {

// ---------------------------------------------------------------------------
// Rendering
// ---------------------------------------------------------------------------

/// The character for the digit `d` of a number in base 10 or 16.
pub open spec fn digit_char(d: int, upper: bool) -> char {
    if d < 10 {
        (('0' as u8) + d) as u8 as char
    } else if upper {
        (('A' as u8) + d - 10) as u8 as char
    } else {
        (('a' as u8) + d - 10) as u8 as char
    }
}

/// The digits of `n` in base 16 where `base` is 16, and in base 10
/// otherwise: most significant first, without leading zeros; one zero for
/// `n == 0`.
pub open spec fn digits(n: nat, base: nat, upper: bool) -> Seq<char>
    decreases n,
{
    if base == 16 {
        if n < 16 {
            seq![digit_char(n as int, upper)]
        } else {
            digits(n / 16, 16, upper).push(digit_char((n % 16) as int, upper))
        }
    } else {
        if n < 10 {
            seq![digit_char(n as int, upper)]
        } else {
            digits(n / 10, 10, upper).push(digit_char((n % 10) as int, upper))
        }
    }
}

/// `s` with zeros put in front until it has at least `width` characters.
pub open spec fn zero_padded(s: Seq<char>, width: nat) -> Seq<char> {
    if s.len() >= width {
        s
    } else {
        Seq::new((width - s.len()) as nat, |i: int| '0') + s
    }
}

/// `n` in decimal.
pub open spec fn decimal(n: nat) -> Seq<char> {
    digits(n, 10, false)
}

/// `n` in upper-case hexadecimal.
pub open spec fn hex_upper(n: nat) -> Seq<char> {
    digits(n, 16, true)
}

/// `n` in lower-case hexadecimal.
pub open spec fn hex_lower(n: nat) -> Seq<char> {
    digits(n, 16, false)
}

/// The digits still to be written in front of those already produced.
pub open spec fn digits_front(n: nat, base: nat, upper: bool) -> Seq<char> {
    if n == 0 {
        Seq::empty()
    } else {
        digits(n, base, upper)
    }
}

proof fn lemma_digits_step(n: nat, base: nat, upper: bool)
    requires
        base == 10 || base == 16,
        n > 0,
    ensures
        digits(n, base, upper) == digits_front(n / base, base, upper).push(
            digit_char((n % base) as int, upper),
        ),
{
    if n < base {
        assert(Seq::<char>::empty().push(digit_char(n as int, upper)) =~= seq![
            digit_char(n as int, upper),
        ]);
    }
}

fn digit_of(d: u64, upper: bool) -> (c: char)
    requires
        d < 16,
    ensures
        c == digit_char(d as int, upper),
{
    let d8: u8 = d as u8;
    if d8 < 10 {
        (('0' as u8) + d8) as char
    } else if upper {
        (('A' as u8) + d8 - 10) as char
    } else {
        (('a' as u8) + d8 - 10) as char
    }
}

/// Appends `n` in base `base` to `out`, padded with zeros to `width`
/// characters.
pub fn push_number(out: &mut Vec<char>, n: u64, base: u64, upper: bool, width: usize)
    requires
        base == 10 || base == 16,
    ensures
        final(out)@ == old(out)@ + zero_padded(digits(n as nat, base as nat, upper), width as nat),
{
    let mut buf: Vec<char> = Vec::new();
    let mut m: u64 = n;
    buf.push(digit_of(m % base, upper));
    m = m / base;
    proof {
        if n > 0 {
            lemma_digits_step(n as nat, base as nat, upper);
        } else {
            assert(digits(0, base as nat, upper) =~= Seq::<char>::empty() + seq![
                digit_char(0, upper),
            ]);
        }
        assert(buf@.reverse() =~= seq![digit_char((n % base) as int, upper)]);
        assert(digits(n as nat, base as nat, upper) =~= digits_front(
            m as nat,
            base as nat,
            upper,
        ) + buf@.reverse());
    }
    while m > 0
        invariant
            base == 10 || base == 16,
            digits(n as nat, base as nat, upper) == digits_front(m as nat, base as nat, upper)
                + buf@.reverse(),
            buf.len() >= 1,
        decreases m,
    {
        let ghost before = buf@;
        buf.push(digit_of(m % base, upper));
        proof {
            lemma_digits_step(m as nat, base as nat, upper);
            assert(buf@.reverse() =~= seq![digit_char((m % base) as int, upper)]
                + before.reverse());
            assert(digits_front((m / base) as nat, base as nat, upper).push(
                digit_char((m % base) as int, upper),
            ) + before.reverse() =~= digits_front((m / base) as nat, base as nat, upper)
                + buf@.reverse());
        }
        m = m / base;
    }
    let ghost start = out@;
    let ghost body = digits(n as nat, base as nat, upper);
    proof {
        assert(body =~= buf@.reverse());
    }
    let mut pad: usize = buf.len();
    proof {
        assert(out@ =~= start + Seq::new(0, |i: int| '0'));
    }
    while pad < width
        invariant
            buf.len() <= pad,
            pad <= width || pad == buf.len(),
            out@ == start + Seq::new((pad - buf.len()) as nat, |i: int| '0'),
        decreases width - pad,
    {
        out.push('0');
        pad += 1;
        proof {
            assert(out@ =~= start + Seq::new((pad - buf.len()) as nat, |i: int| '0'));
        }
    }
    let ghost padded = out@;
    let mut k: usize = buf.len();
    while k > 0
        invariant
            k <= buf.len(),
            out@ == padded + buf@.reverse().take(buf.len() - k),
        decreases k,
    {
        k -= 1;
        out.push(buf[k]);
        proof {
            let r = buf@.reverse();
            assert(r[buf.len() - 1 - k] == buf@[k as int]);
            assert(r.take(buf.len() - k) =~= r.take(buf.len() - k - 1).push(buf@[k as int]));
        }
    }
    proof {
        assert(buf@.reverse().take(buf.len() as int) =~= buf@.reverse());
        assert(body.len() == buf.len());
        if body.len() >= width {
            assert(padded =~= start);
        } else {
            assert(pad == width);
        }
        assert(out@ =~= start + zero_padded(body, width as nat));
    }
}

/// Appends `n` in decimal to `out`.
pub fn push_decimal(out: &mut Vec<char>, n: u64)
    ensures
        final(out)@ == old(out)@ + decimal(n as nat),
{
    push_number(out, n, 10, false, 0);
}

// ---------------------------------------------------------------------------
// Reading hexadecimal
// ---------------------------------------------------------------------------

/// The value of a hexadecimal digit; `None` for any other character.
pub open spec fn hex_value(c: char) -> Option<int> {
    if '0' <= c <= '9' {
        Some(c as int - '0' as int)
    } else if 'a' <= c <= 'f' {
        Some(c as int - 'a' as int + 10)
    } else if 'A' <= c <= 'F' {
        Some(c as int - 'A' as int + 10)
    } else {
        None
    }
}

/// Whether every character of `s` is a hexadecimal digit.
pub open spec fn all_hex(s: Seq<char>) -> bool {
    forall|i: int| 0 <= i < s.len() ==> (#[trigger] hex_value(s[i])) is Some
}

/// The number that the hexadecimal digits `s` spell.
pub open spec fn hex_number(s: Seq<char>) -> nat
    decreases s.len(),
{
    if s.len() == 0 {
        0
    } else {
        match hex_value(s.last()) {
            Some(d) => (hex_number(s.drop_last()) * 16 + d) as nat,
            None => 0,
        }
    }
}

/// `s` read as an unsigned 64-bit hexadecimal number: an optional `+`, then
/// one or more hexadecimal digits, and nothing else. `None` where `s` has
/// another form or the number does not fit.
pub open spec fn parse_hex(s: Seq<char>) -> Option<u64> {
    let d = if s.len() > 0 && s[0] == '+' {
        s.drop_first()
    } else {
        s
    };
    if d.len() > 0 && all_hex(d) && hex_number(d) <= u64::MAX {
        Some(hex_number(d) as u64)
    } else {
        None
    }
}

proof fn lemma_hex_number_grows(s: Seq<char>, k: int)
    requires
        all_hex(s),
        0 <= k <= s.len(),
    ensures
        hex_number(s.take(k)) <= hex_number(s),
    decreases s.len() - k,
{
    if k < s.len() {
        lemma_hex_number_grows(s, k + 1);
        let t = s.take(k + 1);
        assert(t.drop_last() =~= s.take(k));
        assert(t.last() == s[k]);
        assert(hex_value(s[k]) is Some);
    } else {
        assert(s.take(k) =~= s);
    }
}

fn hex_digit_value(c: char) -> (r: Option<u64>)
    ensures
        match r {
            Some(d) => hex_value(c) == Some(d as int) && d < 16,
            None => hex_value(c).is_none(),
        },
{
    if '0' <= c && c <= '9' {
        Some((c as u64) - ('0' as u64))
    } else if 'a' <= c && c <= 'f' {
        Some((c as u64) - ('a' as u64) + 10)
    } else if 'A' <= c && c <= 'F' {
        Some((c as u64) - ('A' as u64) + 10)
    } else {
        None
    }
}

/// Reads `s` as an unsigned 64-bit hexadecimal number.
pub fn read_hex(s: &[char]) -> (r: Option<u64>)
    ensures
        r == parse_hex(s@),
{
    let start: usize = if s.len() > 0 && s[0] == '+' {
        1
    } else {
        0
    };
    let ghost d = s@.skip(start as int);
    proof {
        if start == 1 {
            assert(d =~= s@.drop_first());
        } else {
            assert(d =~= s@);
        }
    }
    if start >= s.len() {
        return None;
    }
    let mut acc: u64 = 0;
    let mut i: usize = start;
    while i < s.len()
        invariant
            start <= i <= s.len(),
            d == s@.skip(start as int),
            d == (if s@.len() > 0 && s@[0] == '+' {
                s@.drop_first()
            } else {
                s@
            }),
            all_hex(d.take(i - start)),
            acc == hex_number(d.take(i - start)),
        decreases s.len() - i,
    {
        let ghost prefix = d.take(i - start);
        let ghost next = d.take(i + 1 - start);
        proof {
            assert(next.drop_last() =~= prefix);
            assert(d[i - start] == s@[i as int]);
            assert(next.last() == s@[i as int]);
        }
        match hex_digit_value(s[i]) {
            None => {
                proof {
                    assert(hex_value(d[i - start]).is_none());
                }
                return None;
            },
            Some(v) => {
                proof {
                    assert forall|k: int| 0 <= k < next.len() implies (#[trigger] hex_value(
                        next[k],
                    )) is Some by {
                        if k < prefix.len() {
                            assert(next[k] == prefix[k]);
                        }
                    }
                }
                proof {
                    assert(hex_value(next.last()) == Some(v as int));
                    assert(hex_number(next) == (hex_number(next.drop_last()) * 16 + v) as nat);
                    assert(hex_number(next) == acc * 16 + v);
                }
                if acc > (u64::MAX - v) / 16 {
                    proof {
                        assert(acc * 16 + v > u64::MAX) by (nonlinear_arith)
                            requires
                                acc > (u64::MAX - v) / 16,
                                v < 16,
                        ;
                        if all_hex(d) {
                            lemma_hex_number_grows(d, i + 1 - start);
                        }
                    }
                    return None;
                }
                assert(acc * 16 + v <= u64::MAX) by (nonlinear_arith)
                    requires
                        acc <= (u64::MAX - v) / 16,
                        v < 16,
                ;
                acc = acc * 16 + v;
            },
        }
        i += 1;
    }
    proof {
        assert(d.take(s.len() - start) =~= d);
    }
    Some(acc)
}

/// `s` without every copy of `p` that it begins with.
pub open spec fn without_leading(s: Seq<char>, p: Seq<char>) -> Seq<char>
    decreases s.len(),
{
    if p.len() > 0 && p.is_prefix_of(s) {
        without_leading(s.skip(p.len() as int), p)
    } else {
        s
    }
}

/// Removes every copy of `p` from the start of `s`.
pub fn strip_leading(s: &[char], p: &[char]) -> (r: Vec<char>)
    ensures
        r@ == without_leading(s@, p@),
{
    let mut i: usize = 0;
    let mut more: bool = p.len() > 0;
    proof {
        assert(s@.skip(0) =~= s@);
    }
    while more
        invariant
            i <= s.len(),
            more ==> p.len() > 0,
            without_leading(s@.skip(i as int), p@) == without_leading(s@, p@),
            !more ==> without_leading(s@.skip(i as int), p@) == s@.skip(i as int),
        decreases 2 * (s.len() - i) + (if more { 1int } else { 0int }),
    {
        if s.len() - i < p.len() {
            more = false;
        } else {
            let rest = copy_range(s, i, s.len());
            proof {
                assert(rest@ =~= s@.skip(i as int));
            }
            if starts_with(rest.as_slice(), p) {
                proof {
                    assert(s@.skip(i as int).skip(p.len() as int) =~= s@.skip(i + p.len()));
                }
                i += p.len();
            } else {
                more = false;
            }
        }
    }
    let r = copy_range(s, i, s.len());
    proof {
        assert(r@ =~= s@.skip(i as int));
    }
    r
}

/// The address that the text `s` spells: `s` without its `0x` and `0X`
/// prefixes read as hexadecimal, and 0 where that is no number.
pub open spec fn address_value(s: Seq<char>) -> u64 {
    match parse_hex(without_leading(without_leading(s, seq!['0', 'x']), seq!['0', 'X'])) {
        Some(v) => v,
        None => 0,
    }
}

/// Reads the address that `s` spells.
pub fn read_address(s: &[char]) -> (r: u64)
    ensures
        r == address_value(s@),
{
    let lower: [char; 2] = ['0', 'x'];
    let upper: [char; 2] = ['0', 'X'];
    let a = strip_leading(s, lower.as_slice());
    let b = strip_leading(a.as_slice(), upper.as_slice());
    proof {
        assert(lower@ =~= seq!['0', 'x']);
        assert(upper@ =~= seq!['0', 'X']);
    }
    match read_hex(b.as_slice()) {
        Some(v) => v,
        None => 0,
    }
}


// ---------------------------------------------------------------------------
// Numeric literals
// ---------------------------------------------------------------------------

/// Whether `c` is a decimal digit.
pub open spec fn is_digit(c: char) -> bool {
    '0' <= c <= '9'
}

/// How many decimal digits `s` begins with.
pub open spec fn digit_run(s: Seq<char>) -> nat
    decreases s.len(),
{
    if s.len() > 0 && is_digit(s[0]) {
        1 + digit_run(s.drop_first())
    } else {
        0
    }
}

/// `c`, or its lower-case form if `c` is an upper-case ASCII letter.
pub open spec fn ascii_lower(c: char) -> char {
    if 'A' <= c <= 'Z' {
        ((c as u8) + 32) as u8 as char
    } else {
        c
    }
}

/// Whether `s` spells the lower-case `word`, in any mix of cases.
pub open spec fn spells(s: Seq<char>, word: Seq<char>) -> bool {
    s.len() == word.len() && forall|i: int|
        0 <= i < s.len() ==> ascii_lower(#[trigger] s[i]) == word[i]
}

/// An exponent: `e` or `E`, an optional sign, one or more digits.
pub open spec fn is_exponent(s: Seq<char>) -> bool {
    s.len() >= 2 && (s[0] == 'e' || s[0] == 'E') && {
        let r = if s[1] == '+' || s[1] == '-' {
            s.skip(2)
        } else {
            s.skip(1)
        };
        r.len() > 0 && digit_run(r) == r.len()
    }
}

/// An unsigned decimal number: digits with at most one point among them,
/// at least one digit in all, and an optional exponent.
pub open spec fn is_number(s: Seq<char>) -> bool {
    let a = digit_run(s);
    let r = s.skip(a as int);
    if r.len() > 0 && r[0] == '.' {
        let b = digit_run(r.skip(1));
        let e = r.skip(1 + b as int);
        a + b >= 1 && (e.len() == 0 || is_exponent(e))
    } else {
        a >= 1 && (r.len() == 0 || is_exponent(r))
    }
}

/// Whether `s` is a numeric literal: an optional sign followed by `inf`,
/// `infinity` or `nan` in any mix of cases, or by an unsigned decimal
/// number.
pub open spec fn is_numeric_literal(s: Seq<char>) -> bool {
    let b = if s.len() > 0 && (s[0] == '+' || s[0] == '-') {
        s.drop_first()
    } else {
        s
    };
    ||| spells(b, seq!['i', 'n', 'f'])
    ||| spells(b, seq!['i', 'n', 'f', 'i', 'n', 'i', 't', 'y'])
    ||| spells(b, seq!['n', 'a', 'n'])
    ||| is_number(b)
}

/// The count of leading digits is fixed by the first position that holds
/// another character.
pub proof fn lemma_digit_run_is(s: Seq<char>, k: int)
    requires
        0 <= k <= s.len(),
        forall|i: int| 0 <= i < k ==> is_digit(#[trigger] s[i]),
        k < s.len() ==> !is_digit(s[k]),
    ensures
        digit_run(s) == k,
    decreases s.len(),
{
    if k > 0 {
        let t = s.drop_first();
        assert(is_digit(s[0]));
        assert forall|i: int| 0 <= i < k - 1 implies is_digit(#[trigger] t[i]) by {
            assert(t[i] == s[i + 1]);
        }
        lemma_digit_run_is(t, k - 1);
    }
}

fn count_digits(v: &[char], from: usize) -> (k: usize)
    requires
        from <= v.len(),
    ensures
        k == digit_run(v@.skip(from as int)),
        from + k <= v.len(),
{
    let mut j: usize = from;
    while j < v.len() && '0' <= v[j] && v[j] <= '9'
        invariant
            from <= j <= v.len(),
            forall|i: int| from <= i < j ==> is_digit(#[trigger] v@[i]),
        decreases v.len() - j,
    {
        j += 1;
    }
    proof {
        let rest = v@.skip(from as int);
        assert forall|i: int| 0 <= i < j - from implies is_digit(#[trigger] rest[i]) by {
            assert(rest[i] == v@[i + from]);
        }
        if j < v.len() {
            assert(rest[j - from] == v@[j as int]);
        }
        lemma_digit_run_is(rest, j - from);
    }
    j - from
}

fn exponent_at(v: &[char], from: usize) -> (r: bool)
    requires
        from <= v.len(),
    ensures
        r == is_exponent(v@.skip(from as int)),
{
    let ghost s = v@.skip(from as int);
    if v.len() - from < 2 {
        return false;
    }
    proof {
        assert(s[0] == v@[from as int]);
        assert(s[1] == v@[from + 1]);
    }
    if v[from] != 'e' && v[from] != 'E' {
        return false;
    }
    let digits_from: usize = if v[from + 1] == '+' || v[from + 1] == '-' {
        from + 2
    } else {
        from + 1
    };
    proof {
        assert(s.skip(digits_from - from) =~= v@.skip(digits_from as int));
    }
    let k = count_digits(v, digits_from);
    digits_from < v.len() && digits_from + k == v.len()
}

fn number_form(v: &[char]) -> (r: bool)
    ensures
        r == is_number(v@),
{
    proof {
        assert(v@.skip(0) =~= v@);
    }
    let a = count_digits(v, 0);
    let ghost rest = v@.skip(a as int);
    if a < v.len() && v[a] == '.' {
        proof {
            assert(rest[0] == v@[a as int]);
            assert(rest.skip(1) =~= v@.skip(a + 1));
        }
        let b = count_digits(v, a + 1);
        proof {
            assert(rest.skip(1 + b) =~= v@.skip(a + 1 + b));
        }
        let tail = a + 1 + b;
        a + b >= 1 && (tail == v.len() || exponent_at(v, tail))
    } else {
        proof {
            if a < v.len() {
                assert(rest[0] == v@[a as int]);
            }
        }
        a >= 1 && (a == v.len() || exponent_at(v, a))
    }
}

fn lower_ascii(c: char) -> (r: char)
    ensures
        r == ascii_lower(c),
{
    if 'A' <= c && c <= 'Z' {
        ((c as u8) + 32) as char
    } else {
        c
    }
}

fn spells_word(v: &[char], word: &[char]) -> (r: bool)
    ensures
        r == spells(v@, word@),
{
    if v.len() != word.len() {
        return false;
    }
    let mut i: usize = 0;
    while i < v.len()
        invariant
            i <= v.len(),
            v.len() == word.len(),
            forall|k: int| 0 <= k < i ==> ascii_lower(#[trigger] v@[k]) == word@[k],
        decreases v.len() - i,
    {
        if lower_ascii(v[i]) != word[i] {
            return false;
        }
        i += 1;
    }
    true
}

/// Decides `is_numeric_literal`.
pub fn is_numeric(s: &[char]) -> (r: bool)
    ensures
        r == is_numeric_literal(s@),
{
    let start: usize = if s.len() > 0 && (s[0] == '+' || s[0] == '-') {
        1
    } else {
        0
    };
    let body = copy_range(s, start, s.len());
    proof {
        if start == 1 {
            assert(body@ =~= s@.drop_first());
        } else {
            assert(body@ =~= s@);
        }
    }
    let inf: [char; 3] = ['i', 'n', 'f'];
    let infinity: [char; 8] = ['i', 'n', 'f', 'i', 'n', 'i', 't', 'y'];
    let nan: [char; 3] = ['n', 'a', 'n'];
    proof {
        assert(inf@ =~= seq!['i', 'n', 'f']);
        assert(infinity@ =~= seq!['i', 'n', 'f', 'i', 'n', 'i', 't', 'y']);
        assert(nan@ =~= seq!['n', 'a', 'n']);
    }
    spells_word(body.as_slice(), inf.as_slice()) || spells_word(
        body.as_slice(),
        infinity.as_slice(),
    ) || spells_word(body.as_slice(), nan.as_slice()) || number_form(body.as_slice())
}

} // verus!
