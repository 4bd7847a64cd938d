//! What lines and words are read back from text that was written as lines
//! of words.

use crate::text::{
    is_whitespace, joined, leading_ws, lemma_leading_ws_is, lemma_line_end_is,
    lemma_trailing_ws_is, lemma_unlines_concat, lemma_word_len, lemma_word_len_is, line_end, lines,
    spaces, strip_cr, text_line, tokens, trailing_ws, trim, trim_start, unlines, word_len,
};
use vstd::prelude::*;

verus! {

/// A word: one or more characters, none of them white space.
pub open spec fn is_word(s: Seq<char>) -> bool {
    s.len() > 0 && forall|i: int| 0 <= i < s.len() ==> !is_whitespace(#[trigger] s[i])
}

/// Whether every item of `ws` is a word.
pub open spec fn all_words(ws: Seq<Seq<char>>) -> bool {
    forall|k: int| 0 <= k < ws.len() ==> is_word(#[trigger] ws[k])
}

/// Whether `s` holds nothing but white space.
pub open spec fn is_blank(s: Seq<char>) -> bool {
    forall|i: int| 0 <= i < s.len() ==> is_whitespace(#[trigger] s[i])
}

/// Whether `l` can be a line of a text: it holds no line feed and does not
/// end with a carriage return.
pub open spec fn is_clean(l: Seq<char>) -> bool {
    &&& forall|i: int| 0 <= i < l.len() ==> #[trigger] l[i] != '\n'
    &&& l.len() > 0 ==> l.last() != '\r'
}

/// Whether every item of `ls` can be a line of a text.
pub open spec fn all_clean(ls: Seq<Seq<char>>) -> bool {
    forall|k: int| 0 <= k < ls.len() ==> is_clean(#[trigger] ls[k])
}

// ---------------------------------------------------------------------------
// Words
// ---------------------------------------------------------------------------

/// Blank text holds no words.
pub proof fn lemma_tokens_blank(s: Seq<char>)
    requires
        is_blank(s),
    ensures
        tokens(s) == Seq::<Seq<char>>::empty(),
    decreases s.len(),
{
    if s.len() > 0 {
        assert(is_whitespace(s[0]));
        assert forall|i: int| 0 <= i < s.drop_first().len() implies is_whitespace(
            #[trigger] s.drop_first()[i],
        ) by {
            assert(s.drop_first()[i] == s[i + 1]);
        }
        lemma_tokens_blank(s.drop_first());
    }
}

/// The words of two texts, one after the other, are the words of the
/// first and then those of the second, where no word runs across the
/// seam.
pub proof fn lemma_tokens_concat(a: Seq<char>, b: Seq<char>)
    requires
        a.len() == 0 || b.len() == 0 || is_whitespace(a.last()) || is_whitespace(b[0]),
    ensures
        tokens(a + b) == tokens(a) + tokens(b),
    decreases a.len(),
{
    let s = a + b;
    if a.len() == 0 {
        assert(s =~= b);
        assert(tokens(a) + tokens(b) =~= tokens(b));
    } else if is_whitespace(a[0]) {
        assert(s[0] == a[0]);
        assert(s.drop_first() =~= a.drop_first() + b);
        if a.drop_first().len() > 0 {
            assert(a.drop_first().last() == a.last());
        }
        lemma_tokens_concat(a.drop_first(), b);
    } else {
        assert(s[0] == a[0]);
        let n = word_len(a);
        lemma_word_len(a);
        assert(n >= 1);
        assert forall|i: int| 0 <= i < n implies !is_whitespace(#[trigger] s[i]) by {
            assert(s[i] == a[i]);
        }
        if n < a.len() {
            assert(s[n as int] == a[n as int]);
        } else if b.len() > 0 {
            assert(a.last() == a[a.len() - 1]);
            assert(s[n as int] == b[0]);
        }
        lemma_word_len_is(s, n as int);
        assert(s.take(n as int) =~= a.take(n as int));
        assert(s.skip(n as int) =~= a.skip(n as int) + b);
        if a.skip(n as int).len() > 0 {
            assert(a.skip(n as int).last() == a.last());
        }
        lemma_tokens_concat(a.skip(n as int), b);
        assert(tokens(s) == seq![s.take(n as int)] + tokens(s.skip(n as int)));
        assert(tokens(a) == seq![a.take(n as int)] + tokens(a.skip(n as int)));
        assert(seq![a.take(n as int)] + (tokens(a.skip(n as int)) + tokens(b)) =~= (seq![
            a.take(n as int),
        ] + tokens(a.skip(n as int))) + tokens(b));
    }
}

/// A word is its own only word.
pub proof fn lemma_tokens_word(w: Seq<char>)
    requires
        is_word(w),
    ensures
        tokens(w) == seq![w],
{
    lemma_word_len_is(w, w.len() as int);
    assert(w.take(w.len() as int) =~= w);
    assert(w.skip(w.len() as int) =~= Seq::<char>::empty());
    assert(tokens(w.skip(w.len() as int)) =~= Seq::<Seq<char>>::empty());
    assert(seq![w] + Seq::<Seq<char>>::empty() =~= seq![w]);
}

/// Words joined by single spaces begin with the first character of the
/// first word and end with the last character of the last.
pub proof fn lemma_joined_ends(words: Seq<Seq<char>>)
    requires
        all_words(words),
        words.len() > 0,
    ensures
        joined(words).len() > 0,
        joined(words)[0] == words[0][0],
        joined(words).last() == words.last().last(),
        forall|i: int| 0 <= i < joined(words).len() ==> #[trigger] joined(words)[i] != '\n'
            && joined(words)[i] != '\r',
    decreases words.len(),
{
    assert(is_word(words[0]));
    assert(is_word(words.last()));
    if words.len() > 1 {
        let init = words.drop_last();
        assert(all_words(init)) by {
            assert forall|k: int| 0 <= k < init.len() implies is_word(#[trigger] init[k]) by {
                assert(init[k] == words[k]);
            }
        }
        lemma_joined_ends(init);
        let j = joined(words);
        assert(j[0] == joined(init)[0]);
        assert(init[0] == words[0]);
        assert forall|i: int| 0 <= i < j.len() implies #[trigger] j[i] != '\n' && j[i] != '\r' by {
            if i < joined(init).len() {
                assert(j[i] == joined(init)[i]);
            } else if i == joined(init).len() {
                assert(j[i] == ' ');
            } else {
                assert(j[i] == words.last()[i - joined(init).len() - 1]);
            }
        }
    } else {
        let w = words[0];
        assert forall|i: int| 0 <= i < w.len() implies #[trigger] w[i] != '\n' && w[i] != '\r' by {
            assert(!is_whitespace(w[i]));
        }
    }
}

/// The words of words joined by single spaces are those words.
pub proof fn lemma_tokens_joined(words: Seq<Seq<char>>)
    requires
        all_words(words),
    ensures
        tokens(joined(words)) == words,
    decreases words.len(),
{
    if words.len() == 0 {
        assert(tokens(joined(words)) =~= words);
    } else if words.len() == 1 {
        lemma_tokens_word(words[0]);
        assert(seq![words[0]] =~= words);
    } else {
        let init = words.drop_last();
        let last = words.last();
        assert(all_words(init)) by {
            assert forall|k: int| 0 <= k < init.len() implies is_word(#[trigger] init[k]) by {
                assert(init[k] == words[k]);
            }
        }
        assert(is_word(last));
        lemma_tokens_joined(init);
        let tail = seq![' '] + last;
        assert(is_whitespace(tail[0]));
        lemma_tokens_concat(joined(init), tail);
        lemma_tokens_concat(seq![' '], last);
        assert(is_blank(seq![' ']));
        lemma_tokens_blank(seq![' ']);
        lemma_tokens_word(last);
        assert(joined(words) =~= joined(init) + tail);
        assert(Seq::<Seq<char>>::empty() + seq![last] =~= seq![last]);
        assert(init + seq![last] =~= words);
    }
}

/// A line of text without the white space around it is its words joined
/// by single spaces.
pub proof fn lemma_trim_text_line(indent: nat, words: Seq<Seq<char>>)
    requires
        all_words(words),
    ensures
        trim(text_line(indent, words)) == joined(words),
{
    let line = text_line(indent, words);
    let j = joined(words);
    if words.len() == 0 {
        assert(line =~= spaces(indent));
        lemma_leading_ws_is(line, indent as int);
        assert(trim_start(line) =~= Seq::<char>::empty());
        assert(trim(line) =~= j);
    } else {
        lemma_joined_ends(words);
        assert(is_word(words[0]));
        assert(is_word(words.last()));
        assert(!is_whitespace(words[0][0]));
        assert(!is_whitespace(words.last()[words.last().len() - 1]));
        assert forall|i: int| 0 <= i < indent implies is_whitespace(#[trigger] line[i]) by {
            assert(line[i] == ' ');
        }
        assert(line[indent as int] == j[0]);
        lemma_leading_ws_is(line, indent as int);
        assert(trim_start(line) =~= j);
        lemma_trailing_ws_is(j, 0);
        assert(j.take(j.len() as int) =~= j);
    }
}

/// Words joined by single spaces have no white space around them.
pub proof fn lemma_trim_joined(words: Seq<Seq<char>>)
    requires
        all_words(words),
    ensures
        trim(joined(words)) == joined(words),
{
    lemma_trim_text_line(0, words);
    assert(text_line(0, words) =~= joined(words));
}

/// A line of text can be a line of a text.
pub proof fn lemma_text_line_clean(indent: nat, words: Seq<Seq<char>>)
    requires
        all_words(words),
    ensures
        is_clean(text_line(indent, words)),
{
    let line = text_line(indent, words);
    if words.len() > 0 {
        lemma_joined_ends(words);
        let j = joined(words);
        assert forall|i: int| 0 <= i < line.len() implies #[trigger] line[i] != '\n' by {
            if i >= indent {
                assert(line[i] == j[i - indent]);
            }
        }
        assert(line.last() == j.last());
        assert(j.last() == j[j.len() - 1]);
    } else {
        assert(line =~= spaces(indent));
        if indent > 0 {
            assert(line.last() == ' ');
        }
    }
}

// ---------------------------------------------------------------------------
// Lines
// ---------------------------------------------------------------------------

/// A text that begins with a line and its line feed has that line as its
/// first line.
pub proof fn lemma_lines_cons(l: Seq<char>, rest: Seq<char>)
    requires
        is_clean(l),
    ensures
        lines(l + seq!['\n'] + rest) == seq![l] + lines(rest),
{
    let s = l + seq!['\n'] + rest;
    assert forall|i: int| 0 <= i < l.len() implies #[trigger] s[i] != '\n' by {
        assert(s[i] == l[i]);
    }
    assert(s[l.len() as int] == '\n');
    lemma_line_end_is(s, l.len() as int);
    assert(s.take(l.len() as int) =~= l);
    assert(s.skip(l.len() as int + 1) =~= rest);
    if l.len() > 0 {
        assert(l.last() != '\r');
    }
    assert(strip_cr(l) == l);
}

/// The text of lines begins with the first of them.
pub proof fn lemma_unlines_front(ls: Seq<Seq<char>>)
    requires
        ls.len() > 0,
    ensures
        unlines(ls) == ls[0] + seq!['\n'] + unlines(ls.skip(1)),
{
    let first = seq![ls[0]];
    lemma_unlines_concat(first, ls.skip(1));
    assert(first + ls.skip(1) =~= ls);
    assert(first.drop_last() =~= Seq::<Seq<char>>::empty());
    assert(unlines(first.drop_last()) =~= Seq::<char>::empty());
    assert(first.last() == ls[0]);
    assert(unlines(first) == unlines(first.drop_last()) + first.last() + seq!['\n']);
    assert(unlines(first) =~= ls[0] + seq!['\n']);
}

/// The lines of the text of lines are those lines.
pub proof fn lemma_lines_unlines(ls: Seq<Seq<char>>)
    requires
        all_clean(ls),
    ensures
        lines(unlines(ls)) == ls,
    decreases ls.len(),
{
    if ls.len() == 0 {
        assert(lines(unlines(ls)) =~= ls);
    } else {
        let rest = ls.skip(1);
        assert(all_clean(rest)) by {
            assert forall|k: int| 0 <= k < rest.len() implies is_clean(#[trigger] rest[k]) by {
                assert(rest[k] == ls[k + 1]);
            }
        }
        lemma_lines_unlines(rest);
        lemma_unlines_front(ls);
        assert(is_clean(ls[0]));
        lemma_lines_cons(ls[0], unlines(rest));
        assert(seq![ls[0]] + rest =~= ls);
    }
}

/// The words of a line of text are the words it was written from.
pub proof fn lemma_tokens_text_line(indent: nat, words: Seq<Seq<char>>)
    requires
        all_words(words),
    ensures
        tokens(text_line(indent, words)) == words,
{
    let pad = spaces(indent);
    assert(is_blank(pad));
    lemma_tokens_blank(pad);
    if indent > 0 {
        assert(pad.last() == ' ');
    }
    lemma_tokens_concat(pad, joined(words));
    lemma_tokens_joined(words);
    assert(Seq::<Seq<char>>::empty() + words =~= words);
}

/// The lines of two texts, one after the other, are the lines of the
/// first and then those of the second, where the first is empty or ends
/// with a line feed.
pub proof fn lemma_lines_append(a: Seq<char>, b: Seq<char>)
    requires
        a.len() == 0 || a.last() == '\n',
    ensures
        lines(a + b) == lines(a) + lines(b),
    decreases a.len(),
{
    let s = a + b;
    if a.len() == 0 {
        assert(s =~= b);
        assert(lines(a) + lines(b) =~= lines(b));
    } else {
        let k = line_end(a);
        crate::text::lemma_line_end_bounds(a);
        assert(k < a.len()) by {
            if k >= a.len() {
                assert(a[a.len() - 1] != '\n');
            }
        }
        assert forall|i: int| 0 <= i < k implies #[trigger] s[i] != '\n' by {
            assert(s[i] == a[i]);
        }
        assert(s[k as int] == a[k as int]);
        lemma_line_end_is(s, k as int);
        let rest = a.skip(k as int + 1);
        assert(s.skip(k as int + 1) =~= rest + b);
        assert(s.take(k as int) =~= a.take(k as int));
        if rest.len() > 0 {
            assert(rest.last() == a.last());
        }
        lemma_lines_append(rest, b);
        assert(lines(s) == seq![strip_cr(s.take(k as int))] + lines(s.skip(k as int + 1)));
        assert(lines(a) == seq![strip_cr(a.take(k as int))] + lines(rest));
        assert(seq![strip_cr(a.take(k as int))] + (lines(rest) + lines(b)) =~= (seq![
            strip_cr(a.take(k as int)),
        ] + lines(rest)) + lines(b));
    }
}

} // verus!
