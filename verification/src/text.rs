//! Character-sequence primitives that the A2L reader and writer are built on.
//!
//! Text is handled as a sequence of Unicode scalar values. Every function
//! here is stated over `Seq<char>`, the view of `str`, `String` and
//! `Vec<char>` alike.

use vstd::prelude::*;

verus! {

/// `String::push` appends exactly one character to the end of the string.
pub assume_specification[ String::push ](s: &mut String, ch: char)
    ensures
        final(s)@ == old(s)@.push(ch),
;

/// The characters of `s`, in order.
pub fn chars_of(s: &str) -> (v: Vec<char>)
    ensures
        v@ == s@,
{
    let mut v: Vec<char> = Vec::new();
    for c in it: s.chars()
        invariant
            v@ == it.seq().take(it.index()),
            it.seq() == s@,
    {
        v.push(c);
    }
    v
}

/// The string made of the characters of `v`, in order.
pub fn string_of(v: &[char]) -> (s: String)
    ensures
        s@ == v@,
{
    let mut s = String::new();
    let mut i: usize = 0;
    while i < v.len()
        invariant
            i <= v.len(),
            s@ == v@.take(i as int),
        decreases v.len() - i,
    {
        s.push(v[i]);
        i += 1;
    }
    s
}

/// Appends the characters of `tail` to `out`.
pub fn push_all(out: &mut Vec<char>, tail: &[char])
    ensures
        final(out)@ == old(out)@ + tail@,
{
    let mut i: usize = 0;
    while i < tail.len()
        invariant
            i <= tail.len(),
            out@ == old(out)@ + tail@.take(i as int),
        decreases tail.len() - i,
    {
        out.push(tail[i]);
        i += 1;
    }
}

/// Appends the characters of the string `tail` to `out`.
pub fn push_str(out: &mut Vec<char>, tail: &str)
    ensures
        final(out)@ == old(out)@ + tail@,
{
    let t = chars_of(tail);
    push_all(out, t.as_slice());
}

/// The characters of `v` from position `lo` up to, not including, `hi`.
pub fn copy_range(v: &[char], lo: usize, hi: usize) -> (r: Vec<char>)
    requires
        lo <= hi <= v.len(),
    ensures
        r@ == v@.subrange(lo as int, hi as int),
{
    let mut r: Vec<char> = Vec::new();
    let mut i: usize = lo;
    while i < hi
        invariant
            lo <= i <= hi <= v.len(),
            r@ == v@.subrange(lo as int, i as int),
        decreases hi - i,
    {
        r.push(v[i]);
        i += 1;
    }
    r
}

/// Whether two character sequences are the same.
pub fn same_chars(a: &[char], b: &[char]) -> (r: bool)
    ensures
        r == (a@ == b@),
{
    if a.len() != b.len() {
        return false;
    }
    let mut i: usize = 0;
    while i < a.len()
        invariant
            i <= a.len(),
            a.len() == b.len(),
            a@.take(i as int) == b@.take(i as int),
        decreases a.len() - i,
    {
        if a[i] != b[i] {
            return false;
        }
        assert(a@.take(i + 1) == a@.take(i as int).push(a@[i as int]));
        assert(b@.take(i + 1) == b@.take(i as int).push(b@[i as int]));
        i += 1;
    }
    assert(a@.take(a.len() as int) == a@);
    assert(b@.take(b.len() as int) == b@);
    true
}

// ---------------------------------------------------------------------------
// White space
// ---------------------------------------------------------------------------

/// The characters that carry the Unicode `White_Space` property.
pub open spec fn is_whitespace(c: char) -> bool {
    let n = c as u32;
    ||| 0x09 <= n <= 0x0D
    ||| n == 0x20
    ||| n == 0x85
    ||| n == 0xA0
    ||| n == 0x1680
    ||| 0x2000 <= n <= 0x200A
    ||| n == 0x2028
    ||| n == 0x2029
    ||| n == 0x202F
    ||| n == 0x205F
    ||| n == 0x3000
}

/// Decides `is_whitespace`.
pub fn is_ws(c: char) -> (b: bool)
    ensures
        b == is_whitespace(c),
{
    let n: u32 = c as u32;
    (0x09 <= n && n <= 0x0D) || n == 0x20 || n == 0x85 || n == 0xA0 || n == 0x1680 || (0x2000 <= n
        && n <= 0x200A) || n == 0x2028 || n == 0x2029 || n == 0x202F || n == 0x205F || n == 0x3000
}

/// How many white-space characters `s` begins with.
pub open spec fn leading_ws(s: Seq<char>) -> nat
    decreases s.len(),
{
    if s.len() > 0 && is_whitespace(s[0]) {
        1 + leading_ws(s.drop_first())
    } else {
        0
    }
}

/// How many white-space characters `s` ends with.
pub open spec fn trailing_ws(s: Seq<char>) -> nat
    decreases s.len(),
{
    if s.len() > 0 && is_whitespace(s.last()) {
        1 + trailing_ws(s.drop_last())
    } else {
        0
    }
}

/// `s` without the white space it begins with.
pub open spec fn trim_start(s: Seq<char>) -> Seq<char> {
    s.skip(leading_ws(s) as int)
}

/// `s` without the white space it begins and ends with.
pub open spec fn trim(s: Seq<char>) -> Seq<char> {
    let t = trim_start(s);
    t.take(t.len() - trailing_ws(t))
}

/// The leading white space is white space, and what follows it is not.
pub proof fn lemma_leading_ws(s: Seq<char>)
    ensures
        leading_ws(s) <= s.len(),
        forall|i: int| 0 <= i < leading_ws(s) ==> is_whitespace(#[trigger] s[i]),
        leading_ws(s) < s.len() ==> !is_whitespace(s[leading_ws(s) as int]),
    decreases s.len(),
{
    if s.len() > 0 && is_whitespace(s[0]) {
        let t = s.drop_first();
        lemma_leading_ws(t);
        assert forall|i: int| 0 <= i < leading_ws(s) implies is_whitespace(#[trigger] s[i]) by {
            if i > 0 {
                assert(s[i] == t[i - 1]);
            }
        }
        if leading_ws(s) < s.len() {
            assert(s[leading_ws(s) as int] == t[leading_ws(t) as int]);
        }
    }
}

/// The count of leading white space is fixed by the first position that
/// holds another character.
pub proof fn lemma_leading_ws_is(s: Seq<char>, k: int)
    requires
        0 <= k <= s.len(),
        forall|i: int| 0 <= i < k ==> is_whitespace(#[trigger] s[i]),
        k < s.len() ==> !is_whitespace(s[k]),
    ensures
        leading_ws(s) == k,
    decreases s.len(),
{
    if k > 0 {
        let t = s.drop_first();
        assert(is_whitespace(s[0]));
        assert forall|i: int| 0 <= i < k - 1 implies is_whitespace(#[trigger] t[i]) by {
            assert(t[i] == s[i + 1]);
        }
        lemma_leading_ws_is(t, k - 1);
    }
}

/// The count of trailing white space is fixed by the last position that
/// holds another character.
pub proof fn lemma_trailing_ws_is(s: Seq<char>, k: int)
    requires
        0 <= k <= s.len(),
        forall|i: int| s.len() - k <= i < s.len() ==> is_whitespace(#[trigger] s[i]),
        k < s.len() ==> !is_whitespace(s[s.len() - k - 1]),
    ensures
        trailing_ws(s) == k,
    decreases s.len(),
{
    if k > 0 {
        let t = s.drop_last();
        assert(is_whitespace(s.last()));
        assert forall|i: int| t.len() - (k - 1) <= i < t.len() implies is_whitespace(
            #[trigger] t[i],
        ) by {
            assert(t[i] == s[i]);
        }
        lemma_trailing_ws_is(t, k - 1);
    }
}

/// The number of white-space characters at the start of `v`.
pub fn count_leading_ws(v: &[char]) -> (k: usize)
    ensures
        k == leading_ws(v@),
        k <= v.len(),
{
    let mut k: usize = 0;
    while k < v.len() && is_ws(v[k])
        invariant
            k <= v.len(),
            forall|i: int| 0 <= i < k ==> is_whitespace(#[trigger] v@[i]),
        decreases v.len() - k,
    {
        k += 1;
    }
    proof {
        lemma_leading_ws_is(v@, k as int);
    }
    k
}

/// `v` without the white space around it.
pub fn trimmed(v: &[char]) -> (r: Vec<char>)
    ensures
        r@ == trim(v@),
{
    let lo = count_leading_ws(v);
    let mut hi: usize = v.len();
    while hi > lo && is_ws(v[hi - 1])
        invariant
            lo <= hi <= v.len(),
            forall|i: int| hi <= i < v.len() ==> is_whitespace(#[trigger] v@[i]),
        decreases hi,
    {
        hi -= 1;
    }
    proof {
        let t = trim_start(v@);
        let k = v.len() - hi;
        lemma_leading_ws(v@);
        assert forall|i: int| t.len() - k <= i < t.len() implies is_whitespace(#[trigger] t[i]) by {
            assert(t[i] == v@[i + lo]);
        }
        if k < t.len() {
            assert(t[t.len() - k - 1] == v@[hi - 1]);
        }
        lemma_trailing_ws_is(t, k);
        assert(v@.subrange(lo as int, hi as int) =~= t.take(t.len() - k));
    }
    copy_range(v, lo, hi)
}

// ---------------------------------------------------------------------------
// Lines
// ---------------------------------------------------------------------------

/// The views of a list of character vectors.
pub open spec fn views(v: Seq<Vec<char>>) -> Seq<Seq<char>> {
    Seq::new(v.len(), |i: int| v[i]@)
}

/// The number of characters before the first line feed of `s`; all of `s`
/// if it holds none.
pub open spec fn line_end(s: Seq<char>) -> nat
    decreases s.len(),
{
    if s.len() == 0 || s[0] == '\n' {
        0
    } else {
        1 + line_end(s.drop_first())
    }
}

/// `l` without one carriage return at its end.
pub open spec fn strip_cr(l: Seq<char>) -> Seq<char> {
    if l.len() > 0 && l.last() == '\r' {
        l.drop_last()
    } else {
        l
    }
}

/// The lines of `s`. A line ends at a line feed; a carriage return just
/// before that line feed belongs to the terminator. Text after the last
/// line feed is a line of its own, taken as it stands; an empty rest is no
/// line.
pub open spec fn lines(s: Seq<char>) -> Seq<Seq<char>>
    decreases s.len(),
{
    if s.len() == 0 {
        Seq::empty()
    } else {
        let k = line_end(s);
        if k >= s.len() {
            seq![s]
        } else {
            seq![strip_cr(s.take(k as int))] + lines(s.skip(k as int + 1))
        }
    }
}

/// The end of the first line is fixed by the first position that holds a
/// line feed.
pub proof fn lemma_line_end_is(s: Seq<char>, k: int)
    requires
        0 <= k <= s.len(),
        forall|i: int| 0 <= i < k ==> #[trigger] s[i] != '\n',
        k < s.len() ==> s[k] == '\n',
    ensures
        line_end(s) == k,
    decreases s.len(),
{
    if k > 0 {
        let t = s.drop_first();
        assert(s[0] != '\n');
        assert forall|i: int| 0 <= i < k - 1 implies #[trigger] t[i] != '\n' by {
            assert(t[i] == s[i + 1]);
        }
        lemma_line_end_is(t, k - 1);
    }
}

/// The first line ends within the text; no line feed stands before its
/// end, and one stands at its end unless the text ends there.
pub proof fn lemma_line_end_bounds(s: Seq<char>)
    ensures
        line_end(s) <= s.len(),
        forall|i: int| 0 <= i < line_end(s) ==> #[trigger] s[i] != '\n',
        line_end(s) < s.len() ==> s[line_end(s) as int] == '\n',
    decreases s.len(),
{
    if !(s.len() == 0 || s[0] == '\n') {
        let t = s.drop_first();
        lemma_line_end_bounds(t);
        assert forall|i: int| 0 <= i < line_end(s) implies #[trigger] s[i] != '\n' by {
            if i > 0 {
                assert(s[i] == t[i - 1]);
            }
        }
        if line_end(s) < s.len() {
            assert(s[line_end(s) as int] == t[line_end(t) as int]);
        }
    }
}

/// Splits `text` into its lines.
pub fn split_lines(text: &[char]) -> (r: Vec<Vec<char>>)
    ensures
        views(r@) == lines(text@),
{
    let mut r: Vec<Vec<char>> = Vec::new();
    let mut start: usize = 0;
    let n = text.len();
    proof {
        assert(text@.skip(0) =~= text@);
        assert(views(r@) + lines(text@) =~= lines(text@));
    }
    while start < n
        invariant
            start <= n,
            n == text.len(),
            views(r@) + lines(text@.skip(start as int)) == lines(text@),
        decreases n - start,
    {
        let mut j: usize = start;
        while j < n && text[j] != '\n'
            invariant
                start <= j <= n,
                n == text.len(),
                forall|i: int| start <= i < j ==> #[trigger] text@[i] != '\n',
            decreases n - j,
        {
            j += 1;
        }
        let ghost rest = text@.skip(start as int);
        proof {
            assert forall|i: int| 0 <= i < j - start implies #[trigger] rest[i] != '\n' by {
                assert(rest[i] == text@[i + start]);
            }
            lemma_line_end_is(rest, j - start);
        }
        if j >= n {
            let line = copy_range(text, start, n);
            proof {
                assert(line@ =~= rest);
                assert(lines(rest) == seq![rest]);
                assert(views(r@.push(line)) =~= views(r@) + seq![rest]);
                assert(text@.skip(n as int).len() == 0);
                assert(lines(text@.skip(n as int)) =~= Seq::<Seq<char>>::empty());
                assert(views(r@.push(line)) + lines(text@.skip(n as int)) =~= views(r@) + lines(
                    rest,
                ));
            }
            r.push(line);
            start = n;
        } else {
            let hi = if j > start && text[j - 1] == '\r' {
                j - 1
            } else {
                j
            };
            let line = copy_range(text, start, hi);
            proof {
                let raw = rest.take(j - start);
                assert(raw =~= text@.subrange(start as int, j as int));
                assert(line@ =~= strip_cr(raw));
                assert(rest.skip(j - start + 1) =~= text@.skip(j + 1));
                assert(lines(rest) == seq![strip_cr(raw)] + lines(text@.skip(j + 1)));
                assert(views(r@.push(line)) =~= views(r@) + seq![line@]);
                assert(views(r@.push(line)) + lines(text@.skip(j + 1)) =~= views(r@) + lines(rest));
            }
            r.push(line);
            start = j + 1;
        }
    }
    proof {
        assert(text@.skip(n as int).len() == 0);
        assert(views(r@) + Seq::<Seq<char>>::empty() =~= views(r@));
    }
    r
}

// ---------------------------------------------------------------------------
// Words
// ---------------------------------------------------------------------------

/// How many characters other than white space `s` begins with.
pub open spec fn word_len(s: Seq<char>) -> nat
    decreases s.len(),
{
    if s.len() > 0 && !is_whitespace(s[0]) {
        1 + word_len(s.drop_first())
    } else {
        0
    }
}

/// The words of `s`: its maximal runs of characters other than white space,
/// in order.
pub open spec fn tokens(s: Seq<char>) -> Seq<Seq<char>>
    decreases s.len(),
{
    if s.len() == 0 {
        Seq::empty()
    } else if is_whitespace(s[0]) {
        tokens(s.drop_first())
    } else {
        let n = word_len(s);
        if n == 0 || n > s.len() {
            Seq::empty()
        } else {
            seq![s.take(n as int)] + tokens(s.skip(n as int))
        }
    }
}

/// The length of the first word is fixed by the first position that
/// holds white space.
pub proof fn lemma_word_len_is(s: Seq<char>, k: int)
    requires
        0 <= k <= s.len(),
        forall|i: int| 0 <= i < k ==> !is_whitespace(#[trigger] s[i]),
        k < s.len() ==> is_whitespace(s[k]),
    ensures
        word_len(s) == k,
    decreases s.len(),
{
    if k > 0 {
        let t = s.drop_first();
        assert(!is_whitespace(s[0]));
        assert forall|i: int| 0 <= i < k - 1 implies !is_whitespace(#[trigger] t[i]) by {
            assert(t[i] == s[i + 1]);
        }
        lemma_word_len_is(t, k - 1);
    }
}

/// The first word holds no white space, and white space follows it.
pub proof fn lemma_word_len(s: Seq<char>)
    ensures
        word_len(s) <= s.len(),
        forall|i: int| 0 <= i < word_len(s) ==> !is_whitespace(#[trigger] s[i]),
        word_len(s) < s.len() ==> is_whitespace(s[word_len(s) as int]),
    decreases s.len(),
{
    if s.len() > 0 && !is_whitespace(s[0]) {
        let t = s.drop_first();
        lemma_word_len(t);
        assert forall|i: int| 0 <= i < word_len(s) implies !is_whitespace(#[trigger] s[i]) by {
            if i > 0 {
                assert(s[i] == t[i - 1]);
            }
        }
        if word_len(s) < s.len() {
            assert(s[word_len(s) as int] == t[word_len(t) as int]);
        }
    }
}

/// Splits `s` into its words.
pub fn split_tokens(s: &[char]) -> (r: Vec<Vec<char>>)
    ensures
        views(r@) == tokens(s@),
{
    let mut r: Vec<Vec<char>> = Vec::new();
    let mut i: usize = 0;
    let n = s.len();
    proof {
        assert(s@.skip(0) =~= s@);
        assert(views(r@) + tokens(s@) =~= tokens(s@));
    }
    while i < n
        invariant
            i <= n,
            n == s.len(),
            views(r@) + tokens(s@.skip(i as int)) == tokens(s@),
        decreases n - i,
    {
        let ghost rest = s@.skip(i as int);
        if is_ws(s[i]) {
            proof {
                assert(rest[0] == s@[i as int]);
                assert(rest.drop_first() =~= s@.skip(i + 1));
            }
            i += 1;
        } else {
            let mut j: usize = i + 1;
            while j < n && !is_ws(s[j])
                invariant
                    i < j <= n,
                    n == s.len(),
                    forall|k: int| i <= k < j ==> !is_whitespace(#[trigger] s@[k]),
                decreases n - j,
            {
                j += 1;
            }
            let word = copy_range(s, i, j);
            proof {
                assert forall|k: int| 0 <= k < j - i implies !is_whitespace(#[trigger] rest[k]) by {
                    assert(rest[k] == s@[k + i]);
                }
                if j < n {
                    assert(rest[j - i] == s@[j as int]);
                }
                lemma_word_len_is(rest, j - i);
                assert(rest[0] == s@[i as int]);
                assert(word@ =~= rest.take(j - i));
                assert(rest.skip(j - i) =~= s@.skip(j as int));
                assert(tokens(rest) == seq![word@] + tokens(s@.skip(j as int)));
                assert(views(r@.push(word)) =~= views(r@) + seq![word@]);
                assert(views(r@.push(word)) + tokens(s@.skip(j as int)) =~= views(r@) + tokens(
                    rest,
                ));
            }
            r.push(word);
            i = j;
        }
    }
    proof {
        assert(s@.skip(n as int).len() == 0);
        assert(views(r@) + Seq::<Seq<char>>::empty() =~= views(r@));
    }
    r
}

// ---------------------------------------------------------------------------
// Searching
// ---------------------------------------------------------------------------

/// Whether `p` stands in `s` at position `i`.
pub open spec fn occurs_at(s: Seq<char>, p: Seq<char>, i: int) -> bool {
    0 <= i && i + p.len() <= s.len() && s.subrange(i, i + p.len()) == p
}

/// Whether `p` stands somewhere in `s`.
pub open spec fn contains(s: Seq<char>, p: Seq<char>) -> bool {
    exists|i: int| occurs_at(s, p, i)
}

/// The first position at or after `i` where `p` stands in `s`.
pub open spec fn find_from(s: Seq<char>, p: Seq<char>, i: int) -> Option<int>
    decreases s.len() - i + 1,
{
    if i < 0 || i + p.len() > s.len() {
        None
    } else if occurs_at(s, p, i) {
        Some(i)
    } else {
        find_from(s, p, i + 1)
    }
}

/// The first position where `p` stands in `s`.
pub open spec fn find_first(s: Seq<char>, p: Seq<char>) -> Option<int> {
    find_from(s, p, 0)
}

/// The last position at or before `i` where `p` stands in `s`.
pub open spec fn rfind_from(s: Seq<char>, p: Seq<char>, i: int) -> Option<int>
    decreases i + 1,
{
    if i < 0 {
        None
    } else if occurs_at(s, p, i) {
        Some(i)
    } else {
        rfind_from(s, p, i - 1)
    }
}

/// The last position where `p` stands in `s`.
pub open spec fn find_last(s: Seq<char>, p: Seq<char>) -> Option<int> {
    rfind_from(s, p, s.len() - p.len())
}

/// What `find_from` finds is the first place at or after `i` where `p`
/// stands; it finds nothing only if there is none.
pub proof fn lemma_find_from(s: Seq<char>, p: Seq<char>, i: int)
    requires
        0 <= i,
    ensures
        match find_from(s, p, i) {
            Some(k) => i <= k && occurs_at(s, p, k) && forall|j: int|
                i <= j < k ==> !occurs_at(s, p, j),
            None => forall|j: int| i <= j ==> !occurs_at(s, p, j),
        },
    decreases s.len() - i + 1,
{
    if i + p.len() > s.len() {
    } else if occurs_at(s, p, i) {
    } else {
        lemma_find_from(s, p, i + 1);
    }
}

/// What `rfind_from` finds is the last place at or before `i` where `p`
/// stands; it finds nothing only if there is none.
pub proof fn lemma_rfind_from(s: Seq<char>, p: Seq<char>, i: int)
    ensures
        match rfind_from(s, p, i) {
            Some(k) => k <= i && occurs_at(s, p, k) && forall|j: int|
                k < j <= i ==> !occurs_at(s, p, j),
            None => forall|j: int| j <= i ==> !occurs_at(s, p, j),
        },
    decreases i + 1,
{
    if i < 0 {
    } else if occurs_at(s, p, i) {
    } else {
        lemma_rfind_from(s, p, i - 1);
    }
}

/// `find_first` is `None` exactly when `p` stands nowhere in `s`.
pub proof fn lemma_find_first_contains(s: Seq<char>, p: Seq<char>)
    ensures
        find_first(s, p) is Some <==> contains(s, p),
{
    lemma_find_from(s, p, 0);
}

/// Whether `p` stands in `s` at position `i`.
pub fn matches_at(s: &[char], p: &[char], i: usize) -> (r: bool)
    ensures
        r == occurs_at(s@, p@, i as int),
{
    if p.len() > s.len() || i > s.len() - p.len() {
        return false;
    }
    let mut k: usize = 0;
    while k < p.len()
        invariant
            k <= p.len(),
            i + p.len() <= s.len(),
            s@.subrange(i as int, i + k) == p@.take(k as int),
        decreases p.len() - k,
    {
        if s[i + k] != p[k] {
            proof {
                if s@.subrange(i as int, i + p.len()) == p@ {
                    assert(s@.subrange(i as int, i + p.len())[k as int] == p@[k as int]);
                }
            }
            return false;
        }
        proof {
            assert(s@.subrange(i as int, i + k + 1) =~= s@.subrange(i as int, i + k).push(
                s@[i + k],
            ));
            assert(p@.take(k + 1) =~= p@.take(k as int).push(p@[k as int]));
        }
        k += 1;
    }
    proof {
        assert(p@.take(p.len() as int) =~= p@);
    }
    true
}

/// Whether `s` begins with `p`.
pub fn starts_with(s: &[char], p: &[char]) -> (r: bool)
    ensures
        r == p@.is_prefix_of(s@),
{
    let r = matches_at(s, p, 0);
    proof {
        if p@.len() <= s@.len() {
            assert(s@.subrange(0, p@.len() as int) =~= s@.take(p@.len() as int));
        }
        if r {
            assert(p@ =~= s@.subrange(0, p@.len() as int));
        }
        if p@.is_prefix_of(s@) {
            assert(s@.subrange(0, p@.len() as int) =~= p@);
        }
    }
    r
}

/// Whether `s` ends with `p`.
pub fn ends_with(s: &[char], p: &[char]) -> (r: bool)
    ensures
        r == p@.is_suffix_of(s@),
{
    if p.len() > s.len() {
        return false;
    }
    let r = matches_at(s, p, s.len() - p.len());
    proof {
        assert(s@.subrange(s@.len() - p@.len(), s@.len() as int) =~= s@.skip(s@.len() - p@.len()));
    }
    r
}

/// The first position where `p` stands in `s`.
pub fn find(s: &[char], p: &[char]) -> (r: Option<usize>)
    ensures
        match r {
            Some(i) => find_first(s@, p@) == Some(i as int),
            None => find_first(s@, p@).is_none(),
        },
{
    if p.len() > s.len() {
        return None;
    }
    let last = s.len() - p.len();
    let mut i: usize = 0;
    loop
        invariant
            i <= last,
            last == s.len() - p.len(),
            find_from(s@, p@, i as int) == find_first(s@, p@),
        decreases last - i,
    {
        if matches_at(s, p, i) {
            return Some(i);
        }
        if i == last {
            assert(find_from(s@, p@, i + 1).is_none());
            return None;
        }
        i += 1;
    }
}

/// The last position where `p` stands in `s`.
pub fn rfind(s: &[char], p: &[char]) -> (r: Option<usize>)
    ensures
        match r {
            Some(i) => find_last(s@, p@) == Some(i as int),
            None => find_last(s@, p@).is_none(),
        },
{
    if p.len() > s.len() {
        return None;
    }
    let mut i: usize = s.len() - p.len();
    loop
        invariant
            i + p.len() <= s.len(),
            rfind_from(s@, p@, i as int) == find_last(s@, p@),
        decreases i,
    {
        if matches_at(s, p, i) {
            return Some(i);
        }
        if i == 0 {
            assert(rfind_from(s@, p@, -1).is_none());
            return None;
        }
        i -= 1;
    }
}

/// Whether `p` stands somewhere in `s`.
pub fn has_substring(s: &[char], p: &[char]) -> (r: bool)
    ensures
        r == contains(s@, p@),
{
    proof {
        lemma_find_first_contains(s@, p@);
    }
    find(s, p).is_some()
}

// ---------------------------------------------------------------------------
// Case folding
// ---------------------------------------------------------------------------

/// The lower-case form of a text, as the standard library computes it from
/// the Unicode case-mapping tables.
pub uninterp spec fn lowercase_of(s: Seq<char>) -> Seq<char>;

/// The lower-case form of `s`, from `str::to_lowercase`. The standard
/// library derives it from `s` alone; its value is named, not defined here.
#[verifier::external_body]
pub(crate) fn to_lowercase(s: &str) -> (r: String)
    ensures
        r@ == lowercase_of(s@),
{
    s.to_lowercase()
}

/// The lower-case form of `s` as a character vector.
pub fn lowered(s: &str) -> (r: Vec<char>)
    ensures
        r@ == lowercase_of(s@),
{
    let l = to_lowercase(s);
    chars_of(l.as_str())
}

// ---------------------------------------------------------------------------
// Writing lines
// ---------------------------------------------------------------------------

/// `n` spaces.
pub open spec fn spaces(n: nat) -> Seq<char> {
    Seq::new(n, |i: int| ' ')
}

/// The words `words` with one space between neighbours.
pub open spec fn joined(words: Seq<Seq<char>>) -> Seq<char>
    decreases words.len(),
{
    if words.len() == 0 {
        Seq::empty()
    } else if words.len() == 1 {
        words[0]
    } else {
        joined(words.drop_last()) + seq![' '] + words.last()
    }
}

/// A line of text: `indent` spaces, then the words `words` with one space
/// between neighbours.
pub open spec fn text_line(indent: nat, words: Seq<Seq<char>>) -> Seq<char> {
    spaces(indent) + joined(words)
}

/// The text of the lines `ls`: each line followed by a line feed.
pub open spec fn unlines(ls: Seq<Seq<char>>) -> Seq<char>
    decreases ls.len(),
{
    if ls.len() == 0 {
        Seq::empty()
    } else {
        unlines(ls.drop_last()) + ls.last() + seq!['\n']
    }
}

/// The text of two lists of lines, one after the other, is the text of
/// the first followed by the text of the second.
pub proof fn lemma_unlines_concat(a: Seq<Seq<char>>, b: Seq<Seq<char>>)
    ensures
        unlines(a + b) == unlines(a) + unlines(b),
    decreases b.len(),
{
    if b.len() == 0 {
        assert(a + b =~= a);
        assert(unlines(a) + unlines(b) =~= unlines(a));
    } else {
        lemma_unlines_concat(a, b.drop_last());
        assert((a + b).drop_last() =~= a + b.drop_last());
        assert((a + b).last() == b.last());
        assert((unlines(a) + unlines(b.drop_last())) + b.last() + seq!['\n'] =~= unlines(a) + (
        unlines(b.drop_last()) + b.last() + seq!['\n']));
    }
}

/// Appends to `out` a line of `indent` spaces and the words `words`, and
/// a line feed.
pub fn push_text_line(out: &mut Vec<char>, indent: usize, words: &Vec<Vec<char>>)
    ensures
        final(out)@ == old(out)@ + text_line(indent as nat, views(words@)) + seq!['\n'],
{
    let mut b: Vec<char> = Vec::new();
    let mut k: usize = 0;
    while k < indent
        invariant
            k <= indent,
            b@ == spaces(k as nat),
        decreases indent - k,
    {
        b.push(' ');
        k += 1;
        proof {
            assert(b@ =~= spaces(k as nat));
        }
    }
    let ghost ws = views(words@);
    let mut j: Vec<char> = Vec::new();
    let mut i: usize = 0;
    proof {
        assert(ws.take(0) =~= Seq::<Seq<char>>::empty());
    }
    while i < words.len()
        invariant
            i <= words.len(),
            ws == views(words@),
            j@ == joined(ws.take(i as int)),
        decreases words.len() - i,
    {
        proof {
            let next = ws.take(i + 1);
            assert(next.drop_last() =~= ws.take(i as int));
            assert(next.last() == words@[i as int]@);
        }
        if i > 0 {
            j.push(' ');
        }
        let ghost before = j@;
        push_all(&mut j, words[i].as_slice());
        proof {
            if i == 0 {
                assert(j@ =~= words@[0]@);
            } else {
                assert(j@ =~= joined(ws.take(i as int)) + seq![' '] + words@[i as int]@);
            }
        }
        i += 1;
    }
    proof {
        assert(ws.take(words.len() as int) =~= ws);
    }
    push_all(&mut b, j.as_slice());
    b.push('\n');
    proof {
        assert(b@ =~= text_line(indent as nat, ws) + seq!['\n']);
    }
    push_all(out, b.as_slice());
    proof {
        assert(out@ =~= old(out)@ + text_line(indent as nat, ws) + seq!['\n']);
    }
}

} // verus!
