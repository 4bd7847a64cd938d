//! Reading back what the emitter wrote: the blocks made for a list of
//! entries give, when scanned, the name, the address and the scalar tag of
//! each entry, in order.

use crate::a2l::{
    address_text, document, entry_blocks, entry_max, entry_min, footer_lines, format_string,
    header_lines, mask_lines, mask_text, max_text, measurement_block, measurement_lines, min_text,
    quoted, variable_blocks, variable_entry, A2lVariableView, ExportKind,
};
use crate::number::is_numeric_literal;
use crate::types::{tag_for_lowered, VariableView};
use crate::a2l_scan::{
    begin_kind, begin_prefix, block_fold, block_step, end_prefix, follower, index_from,
    is_end_line, is_scalar_tag, kind_word, parsed_block, parsed_variables, scan_close, scan_fold,
    scan_step, valid_subject, with_address, word, BlockState, ScanState,
};
use crate::number::{decimal, digit_char, digits, hex_upper, is_digit, zero_padded};
use crate::text::{
    is_whitespace, joined, lemma_unlines_concat, lines, text_line, tokens, trim, unlines,
};
use crate::types::EntryView;
use crate::words::{
    all_clean, all_words, is_clean, is_word, lemma_joined_ends, lemma_lines_unlines,
    lemma_text_line_clean, lemma_tokens_joined, lemma_trim_joined,
    lemma_trim_text_line,
};
use vstd::prelude::*;

verus! {

// ---------------------------------------------------------------------------
// What is read back
// ---------------------------------------------------------------------------

/// An entry can be read back if its name is a word that can name a block
/// and its type is a scalar tag.
pub open spec fn readable(e: EntryView) -> bool {
    is_word(e.full_name) && valid_subject(e.full_name) && is_scalar_tag(e.a2l_type)
}

/// What the MEASUREMENT block of the entry `e` says when it is read back:
/// its name, its address as text, and its scalar tag.
pub open spec fn read_back(e: EntryView) -> A2lVariableView {
    A2lVariableView {
        name: e.full_name,
        address: Some(address_text(e.address)),
        var_type: "MEASUREMENT"@,
        data_type: e.a2l_type,
    }
}

/// What the blocks of the entries `es` say when they are read back.
pub open spec fn read_back_all(es: Seq<EntryView>) -> Seq<A2lVariableView> {
    Seq::new(es.len(), |i: int| read_back(es[i]))
}

// ---------------------------------------------------------------------------
// The words of a block
// ---------------------------------------------------------------------------

/// A text that begins like a number: with a digit or a minus sign.
pub open spec fn starts_like_number(s: Seq<char>) -> bool {
    s.len() > 0 && (is_digit(s[0]) || s[0] == '-')
}

proof fn lemma_digit_chars(d: int, upper: bool)
    requires
        0 <= d < 16,
    ensures
        !is_whitespace(digit_char(d, upper)),
        d < 10 ==> is_digit(digit_char(d, upper)),
{
}

/// The digits of a number are a word; in base 10 it begins with a digit.
pub proof fn lemma_digits_word(n: nat, base: nat, upper: bool)
    requires
        base == 10 || base == 16,
    ensures
        is_word(digits(n, base, upper)),
        base == 10 ==> is_digit(digits(n, base, upper)[0]),
    decreases n,
{
    if n < base {
        lemma_digit_chars(n as int, upper);
    } else {
        lemma_digits_word(n / base, base, upper);
        lemma_digit_chars((n % base) as int, upper);
        let head = digits(n / base, base, upper);
        let all = digits(n, base, upper);
        assert(all == head.push(digit_char((n % base) as int, upper)));
        assert forall|i: int| 0 <= i < all.len() implies !is_whitespace(#[trigger] all[i]) by {
            if i < head.len() {
                assert(all[i] == head[i]);
            }
        }
        assert(all[0] == head[0]);
    }
}

/// An address as text is a word that begins with a digit.
pub proof fn lemma_address_word(addr: u64)
    ensures
        is_word(address_text(addr)),
        address_text(addr)[0] == '0',
{
    reveal_strlit("0x");
    lemma_digits_word(addr as nat, 16, true);
    let body = zero_padded(hex_upper(addr as nat), 8);
    let hex = hex_upper(addr as nat);
    assert forall|i: int| 0 <= i < body.len() implies !is_whitespace(#[trigger] body[i]) by {
        if hex.len() < 8 {
            if i < 8 - hex.len() {
                assert(body[i] == '0');
            } else {
                assert(body[i] == hex[i - (8 - hex.len())]);
            }
        }
    }
    let t = address_text(addr);
    assert forall|i: int| 0 <= i < t.len() implies !is_whitespace(#[trigger] t[i]) by {
        if i >= 2 {
            assert(t[i] == body[i - 2]);
        }
    }
}

/// The mask of an entry as text is a word that begins with a digit.
pub proof fn lemma_mask_word(e: EntryView)
    ensures
        is_word(mask_text(e)),
        mask_text(e)[0] == '0',
{
    reveal_strlit("0x");
    let m = crate::a2l::mask_of(e.bit_offset, e.bit_size);
    lemma_digits_word(m as nat, 16, true);
    let hex = hex_upper(m as nat);
    let t = mask_text(e);
    assert forall|i: int| 0 <= i < t.len() implies !is_whitespace(#[trigger] t[i]) by {
        if i >= 2 {
            assert(t[i] == hex[i - 2]);
        }
    }
}

/// A text without white space, put between quotes, is a word that begins
/// with a quote.
pub proof fn lemma_quoted_word(s: Seq<char>)
    requires
        forall|i: int| 0 <= i < s.len() ==> !is_whitespace(#[trigger] s[i]),
    ensures
        is_word(quoted(s)),
        quoted(s)[0] == '"',
{
    let q = quoted(s);
    assert forall|i: int| 0 <= i < q.len() implies !is_whitespace(#[trigger] q[i]) by {
        if 0 < i <= s.len() {
            assert(q[i] == s[i - 1]);
        }
    }
}

/// A scalar tag is a word that begins with a letter.
pub proof fn lemma_scalar_tag_word(tag: Seq<char>)
    requires
        is_scalar_tag(tag),
    ensures
        is_word(tag),
        tag[0] == 'U' || tag[0] == 'S' || tag[0] == 'A' || tag[0] == 'F',
{
    reveal_strlit("UBYTE");
    reveal_strlit("SBYTE");
    reveal_strlit("UWORD");
    reveal_strlit("SWORD");
    reveal_strlit("ULONG");
    reveal_strlit("SLONG");
    reveal_strlit("A_UINT64");
    reveal_strlit("A_INT64");
    reveal_strlit("FLOAT32_IEEE");
    reveal_strlit("FLOAT64_IEEE");
    reveal_strlit("FLOAT16");
    reveal_strlit("FLOAT64");
    reveal_strlit("UFIX16");
    reveal_strlit("UFIX32");
    reveal_strlit("SFIX16");
    reveal_strlit("SFIX32");
}

/// The range of a scalar tag, as text, is two words that begin like
/// numbers.
pub proof fn lemma_range_words(tag: Seq<char>)
    ensures
        is_word(min_text(tag)),
        is_word(max_text(tag)),
        starts_like_number(min_text(tag)),
        starts_like_number(max_text(tag)),
{
    reveal_strlit("0");
    reveal_strlit("255");
    reveal_strlit("-128");
    reveal_strlit("127");
    reveal_strlit("65535");
    reveal_strlit("-32768");
    reveal_strlit("32767");
    reveal_strlit("4294967295");
    reveal_strlit("-2147483648");
    reveal_strlit("2147483647");
    reveal_strlit("18446744073709551615");
    reveal_strlit("-9223372036854775808");
    reveal_strlit("9223372036854775807");
    reveal_strlit("-3.4E38");
    reveal_strlit("3.4E38");
    reveal_strlit("-1.7E308");
    reveal_strlit("1.7E308");
}

/// The range of an entry, as text, is two words that begin like numbers.
pub proof fn lemma_entry_range_words(e: EntryView)
    ensures
        is_word(entry_min(e)),
        is_word(entry_max(e)),
        starts_like_number(entry_min(e)),
        starts_like_number(entry_max(e)),
{
    lemma_range_words(e.a2l_type);
    reveal_strlit("0");
    match e.bit_size {
        Some(w) => {
            lemma_digits_word(crate::a2l::bitfield_max(w) as nat, 10, false);
        },
        None => {},
    }
}

/// The display format of a scalar tag holds no white space.
pub proof fn lemma_format_word(tag: Seq<char>)
    ensures
        is_word(quoted(format_string(tag))),
        quoted(format_string(tag))[0] == '"',
{
    reveal_strlit("%3.0");
    reveal_strlit("%5.0");
    reveal_strlit("%10.0");
    reveal_strlit("%20.0");
    reveal_strlit("%10.4");
    reveal_strlit("%16.8");
    lemma_quoted_word(format_string(tag));
}

// ---------------------------------------------------------------------------
// The lines of a block, as words
// ---------------------------------------------------------------------------

/// The words of the opening line of a block of kind `kind` named `name`.
pub open spec fn begin_words(kind: ExportKind, name: Seq<char>) -> Seq<Seq<char>> {
    seq!["/begin"@, kind_word(kind), name, "\"\""@]
}

/// The words of the line of the data type.
pub open spec fn type_words(e: EntryView) -> Seq<Seq<char>> {
    seq![e.a2l_type, "NO_COMPU_METHOD"@, "0"@, "0"@, entry_min(e), entry_max(e)]
}

/// The words of the lines of a MEASUREMENT block between its opening and
/// its closing line, the line of the data type and the line of the mask
/// left out.
pub open spec fn body_words(e: EntryView) -> Seq<Seq<Seq<char>>> {
    seq![
        seq!["ECU_ADDRESS"@, address_text(e.address)],
        seq!["ECU_ADDRESS_EXTENSION"@, "0x0"@],
        seq!["FORMAT"@, quoted(format_string(e.a2l_type))],
        seq!["SYMBOL_LINK"@, quoted(e.full_name), "0"@],
    ]
}

/// The words of the line of the mask.
pub open spec fn mask_words(e: EntryView) -> Seq<Seq<char>> {
    seq!["BIT_MASK"@, mask_text(e)]
}

/// The words of the closing line of a MEASUREMENT block.
pub open spec fn end_words() -> Seq<Seq<char>> {
    seq!["/end"@, "MEASUREMENT"@]
}

/// The lines of a block are written from words.
pub proof fn lemma_block_words(e: EntryView)
    requires
        is_word(e.full_name),
        is_word(e.a2l_type),
    ensures
        all_words(begin_words(ExportKind::Measurement, e.full_name)),
        all_words(type_words(e)),
        all_words(mask_words(e)),
        all_words(body_words(e)[0]),
        all_words(body_words(e)[1]),
        all_words(body_words(e)[2]),
        all_words(body_words(e)[3]),
        all_words(end_words()),
{
    reveal_strlit("/begin");
    reveal_strlit("MEASUREMENT");
    reveal_strlit("\"\"");
    reveal_strlit("NO_COMPU_METHOD");
    reveal_strlit("0");
    reveal_strlit("BIT_MASK");
    reveal_strlit("ECU_ADDRESS");
    reveal_strlit("ECU_ADDRESS_EXTENSION");
    reveal_strlit("0x0");
    reveal_strlit("FORMAT");
    reveal_strlit("SYMBOL_LINK");
    reveal_strlit("/end");
    lemma_entry_range_words(e);
    lemma_mask_word(e);
    lemma_address_word(e.address);
    lemma_format_word(e.a2l_type);
    lemma_quoted_word(e.full_name);
    let b = begin_words(ExportKind::Measurement, e.full_name);
    assert(all_words(b)) by {
        assert forall|k: int| 0 <= k < b.len() implies is_word(#[trigger] b[k]) by {
            if k == 0 {
            } else if k == 1 {
            } else if k == 2 {
            } else {
            }
        }
    }
    let t = type_words(e);
    assert(all_words(t)) by {
        assert forall|k: int| 0 <= k < t.len() implies is_word(#[trigger] t[k]) by {
            if k == 0 {
            } else if k == 1 {
            } else if k == 2 {
            } else if k == 3 {
            } else if k == 4 {
            } else {
            }
        }
    }
    let m = mask_words(e);
    assert(all_words(m)) by {
        assert forall|k: int| 0 <= k < m.len() implies is_word(#[trigger] m[k]) by {
            if k == 0 {
            } else {
            }
        }
    }
    let b0 = body_words(e)[0];
    assert(all_words(b0)) by {
        assert forall|k: int| 0 <= k < b0.len() implies is_word(#[trigger] b0[k]) by {
            if k == 0 {
            } else {
            }
        }
    }
    let b1 = body_words(e)[1];
    assert(all_words(b1)) by {
        assert forall|k: int| 0 <= k < b1.len() implies is_word(#[trigger] b1[k]) by {
            if k == 0 {
            } else {
            }
        }
    }
    let b2 = body_words(e)[2];
    assert(all_words(b2)) by {
        assert forall|k: int| 0 <= k < b2.len() implies is_word(#[trigger] b2[k]) by {
            if k == 0 {
            } else {
            }
        }
    }
    let b3 = body_words(e)[3];
    assert(all_words(b3)) by {
        assert forall|k: int| 0 <= k < b3.len() implies is_word(#[trigger] b3[k]) by {
            if k == 0 {
            } else if k == 1 {
            } else {
            }
        }
    }
    let z = end_words();
    assert(all_words(z)) by {
        assert forall|k: int| 0 <= k < z.len() implies is_word(#[trigger] z[k]) by {
            if k == 0 {
            } else {
            }
        }
    }
}


// ---------------------------------------------------------------------------
// Which lines open and close blocks
// ---------------------------------------------------------------------------

/// A line that begins, white space set aside, with another character than
/// `/` neither opens nor closes a block.
pub proof fn lemma_plain_line(line: Seq<char>)
    requires
        trim(line).len() > 0,
        trim(line)[0] != '/',
    ensures
        begin_kind(line).is_none(),
        !is_end_line(line, ExportKind::Measurement),
        !is_end_line(line, ExportKind::Characteristic),
{
    reveal_strlit("/begin MEASUREMENT ");
    reveal_strlit("/begin CHARACTERISTIC ");
    reveal_strlit("/end MEASUREMENT");
    reveal_strlit("/end CHARACTERISTIC");
    let t = trim(line);
    let bm = begin_prefix(ExportKind::Measurement);
    let bc = begin_prefix(ExportKind::Characteristic);
    let em = end_prefix(ExportKind::Measurement);
    let ec = end_prefix(ExportKind::Characteristic);
    if bm.is_prefix_of(t) {
        assert(t.subrange(0, bm.len() as int)[0] == bm[0]);
    }
    if bc.is_prefix_of(t) {
        assert(t.subrange(0, bc.len() as int)[0] == bc[0]);
    }
    if em.is_prefix_of(t) {
        assert(t.subrange(0, em.len() as int)[0] == em[0]);
    }
    if ec.is_prefix_of(t) {
        assert(t.subrange(0, ec.len() as int)[0] == ec[0]);
    }
}

/// An empty line neither opens nor closes a block.
pub proof fn lemma_empty_line()
    ensures
        begin_kind(Seq::<char>::empty()).is_none(),
        !is_end_line(Seq::<char>::empty(), ExportKind::Measurement),
        !is_end_line(Seq::<char>::empty(), ExportKind::Characteristic),
{
    reveal_strlit("/begin MEASUREMENT ");
    reveal_strlit("/begin CHARACTERISTIC ");
    reveal_strlit("/end MEASUREMENT");
    reveal_strlit("/end CHARACTERISTIC");
    let none = Seq::<char>::empty();
    assert(trim(none) =~= none);
}

/// Four words joined by single spaces, written out.
pub proof fn lemma_joined_four(a: Seq<char>, b: Seq<char>, c: Seq<char>, d: Seq<char>)
    ensures
        joined(seq![a, b, c, d]) == a + seq![' '] + b + seq![' '] + c + seq![' '] + d,
{
    let w4 = seq![a, b, c, d];
    let w3 = w4.drop_last();
    let w2 = w3.drop_last();
    let w1 = w2.drop_last();
    assert(w3 =~= seq![a, b, c]);
    assert(w2 =~= seq![a, b]);
    assert(w1 =~= seq![a]);
    assert(joined(w1) == a);
    assert(joined(w2) == joined(w1) + seq![' '] + b);
    assert(joined(w3) == joined(w2) + seq![' '] + c);
    assert(joined(w4) == joined(w3) + seq![' '] + d);
}

/// Two words joined by a single space, written out.
pub proof fn lemma_joined_two(a: Seq<char>, b: Seq<char>)
    ensures
        joined(seq![a, b]) == a + seq![' '] + b,
{
    let w2 = seq![a, b];
    let w1 = w2.drop_last();
    assert(w1 =~= seq![a]);
    assert(joined(w1) == a);
    assert(joined(w2) == joined(w1) + seq![' '] + b);
}

/// The opening line of a MEASUREMENT block opens one.
pub proof fn lemma_begin_line(line: Seq<char>, name: Seq<char>)
    requires
        trim(line) == joined(begin_words(ExportKind::Measurement, name)),
    ensures
        begin_kind(line) == Some(ExportKind::Measurement),
{
    reveal_strlit("/begin MEASUREMENT ");
    reveal_strlit("/begin");
    reveal_strlit("MEASUREMENT");
    lemma_joined_four("/begin"@, "MEASUREMENT"@, name, "\"\""@);
    let t = trim(line);
    let p = begin_prefix(ExportKind::Measurement);
    assert(p =~= "/begin"@ + seq![' '] + "MEASUREMENT"@ + seq![' ']);
    assert(t.subrange(0, p.len() as int) =~= p);
}

/// The closing line of a MEASUREMENT block closes one and opens none.
pub proof fn lemma_end_line(line: Seq<char>)
    requires
        trim(line) == joined(end_words()),
    ensures
        begin_kind(line).is_none(),
        is_end_line(line, ExportKind::Measurement),
{
    reveal_strlit("/begin MEASUREMENT ");
    reveal_strlit("/begin CHARACTERISTIC ");
    reveal_strlit("/end MEASUREMENT");
    reveal_strlit("/end");
    reveal_strlit("MEASUREMENT");
    lemma_joined_two("/end"@, "MEASUREMENT"@);
    let t = trim(line);
    let p = end_prefix(ExportKind::Measurement);
    assert(t =~= p);
    assert(t.subrange(0, p.len() as int) =~= p);
    let bm = begin_prefix(ExportKind::Measurement);
    let bc = begin_prefix(ExportKind::Characteristic);
    assert(!(bm.len() <= t.len()));
    assert(!(bc.len() <= t.len()));
}

// ---------------------------------------------------------------------------
// Reading a block
// ---------------------------------------------------------------------------

/// Where `key` stands nowhere among `w` from `i` on, it is not found.
pub proof fn lemma_index_none(w: Seq<Seq<char>>, key: Seq<char>, i: int)
    requires
        0 <= i,
        forall|k: int| i <= k < w.len() ==> #[trigger] w[k] != key,
    ensures
        index_from(w, key, i).is_none(),
    decreases w.len() - i,
{
    if i < w.len() {
        lemma_index_none(w, key, i + 1);
    }
}

/// What is known of a block of kind `kind` after the lines `ls`, given
/// what was known before them.
pub open spec fn block_from(st: BlockState, ls: Seq<Seq<char>>, kind: ExportKind) -> BlockState
    decreases ls.len(),
{
    if ls.len() == 0 {
        st
    } else {
        block_step(block_from(st, ls.drop_last(), kind), ls.last(), kind)
    }
}

/// Reading two lists of lines, one after the other, is reading the second
/// from where the first left off.
pub proof fn lemma_block_from_concat(
    st: BlockState,
    a: Seq<Seq<char>>,
    b: Seq<Seq<char>>,
    kind: ExportKind,
)
    ensures
        block_from(st, a + b, kind) == block_from(block_from(st, a, kind), b, kind),
    decreases b.len(),
{
    if b.len() == 0 {
        assert(a + b =~= a);
    } else {
        lemma_block_from_concat(st, a, b.drop_last(), kind);
        assert((a + b).drop_last() =~= a + b.drop_last());
        assert((a + b).last() == b.last());
    }
}

/// Reading one line is one step.
pub proof fn lemma_block_from_one(st: BlockState, l: Seq<char>, kind: ExportKind)
    ensures
        block_from(st, seq![l], kind) == block_step(st, l, kind),
{
    assert(seq![l].drop_last() =~= Seq::<Seq<char>>::empty());
    assert(block_from(st, seq![l].drop_last(), kind) == st);
    assert(seq![l].last() == l);
}

/// What is known of a block before its first line.
pub open spec fn nothing_known() -> BlockState {
    BlockState { name: Seq::empty(), found: false, address: None, data_type: Seq::empty() }
}

/// Reading a block is reading its lines from nothing known.
pub proof fn lemma_block_fold_from(ls: Seq<Seq<char>>, kind: ExportKind)
    ensures
        block_fold(ls, kind) == block_from(nothing_known(), ls, kind),
    decreases ls.len(),
{
    if ls.len() > 0 {
        lemma_block_fold_from(ls.drop_last(), kind);
    }
}

/// The opening line gives the name.
pub proof fn lemma_step_begin(st: BlockState, e: EntryView)
    requires
        readable(e),
    ensures
        block_step(
            st,
            joined(begin_words(ExportKind::Measurement, e.full_name)),
            ExportKind::Measurement,
        ) == (BlockState { name: e.full_name, found: true, ..st }),
{
    let words = begin_words(ExportKind::Measurement, e.full_name);
    let t = joined(words);
    lemma_scalar_tag_word(e.a2l_type);
    lemma_block_words(e);
    lemma_trim_joined(words);
    lemma_tokens_joined(words);
    lemma_joined_ends(words);
    lemma_begin_line(t, e.full_name);
    assert(word(t, 2) == e.full_name);
}

/// A line between the opening and the closing line that holds neither a
/// scalar tag at its start nor the word `ECU_ADDRESS` tells nothing new
/// once the name is known.
pub proof fn lemma_step_plain(st: BlockState, words: Seq<Seq<char>>)
    requires
        all_words(words),
        words.len() > 0,
        words[0][0] != '/',
        st.found,
        !is_scalar_tag(words[0]),
        forall|k: int| 0 <= k < words.len() ==> #[trigger] words[k] != "ECU_ADDRESS"@,
    ensures
        block_step(st, joined(words), ExportKind::Measurement) == st,
{
    let t = joined(words);
    lemma_trim_joined(words);
    lemma_tokens_joined(words);
    lemma_joined_ends(words);
    lemma_plain_line(t);
    lemma_index_none(words, "ECU_ADDRESS"@, 0);
}

/// The line of the data type gives the data type.
pub proof fn lemma_step_type(st: BlockState, e: EntryView)
    requires
        readable(e),
        st.found,
    ensures
        block_step(st, joined(type_words(e)), ExportKind::Measurement) == (BlockState {
            data_type: e.a2l_type,
            ..st
        }),
{
    let words = type_words(e);
    let t = joined(words);
    lemma_scalar_tag_word(e.a2l_type);
    lemma_block_words(e);
    lemma_trim_joined(words);
    lemma_tokens_joined(words);
    lemma_joined_ends(words);
    lemma_scalar_tag_word(e.a2l_type);
    lemma_entry_range_words(e);
    reveal_strlit("ECU_ADDRESS");
    reveal_strlit("NO_COMPU_METHOD");
    reveal_strlit("0");
    lemma_plain_line(t);
    assert forall|k: int| 0 <= k < words.len() implies #[trigger] words[k] != "ECU_ADDRESS"@ by {
        if k == 0 {
        } else if k == 1 {
        } else if k == 2 {
        } else if k == 3 {
        } else if k == 4 {
            assert(starts_like_number(words[4]));
        } else {
            assert(starts_like_number(words[5]));
        }
    }
    lemma_index_none(words, "ECU_ADDRESS"@, 0);
}

/// The line of the address gives the address.
pub proof fn lemma_step_address(st: BlockState, e: EntryView)
    requires
        readable(e),
        st.found,
    ensures
        block_step(st, joined(body_words(e)[0]), ExportKind::Measurement) == (BlockState {
            address: Some(address_text(e.address)),
            ..st
        }),
{
    let words = body_words(e)[0];
    let t = joined(words);
    lemma_scalar_tag_word(e.a2l_type);
    lemma_block_words(e);
    lemma_trim_joined(words);
    lemma_tokens_joined(words);
    lemma_joined_ends(words);
    lemma_not_tags();
    reveal_strlit("ECU_ADDRESS");
    lemma_plain_line(t);
    assert(index_from(words, "ECU_ADDRESS"@, 0) == Some(0int));
}

/// The words at the start of the other lines are no scalar tags.
pub proof fn lemma_not_tags()
    ensures
        !is_scalar_tag("BIT_MASK"@),
        !is_scalar_tag("ECU_ADDRESS"@),
        !is_scalar_tag("ECU_ADDRESS_EXTENSION"@),
        !is_scalar_tag("FORMAT"@),
        !is_scalar_tag("SYMBOL_LINK"@),
{
    reveal_strlit("BIT_MASK");
    reveal_strlit("ECU_ADDRESS");
    reveal_strlit("ECU_ADDRESS_EXTENSION");
    reveal_strlit("FORMAT");
    reveal_strlit("SYMBOL_LINK");
    reveal_strlit("UBYTE");
    reveal_strlit("SBYTE");
    reveal_strlit("UWORD");
    reveal_strlit("SWORD");
    reveal_strlit("ULONG");
    reveal_strlit("SLONG");
    reveal_strlit("A_UINT64");
    reveal_strlit("A_INT64");
    reveal_strlit("FLOAT32_IEEE");
    reveal_strlit("FLOAT64_IEEE");
    reveal_strlit("FLOAT16");
    reveal_strlit("FLOAT64");
    reveal_strlit("UFIX16");
    reveal_strlit("UFIX32");
    reveal_strlit("SFIX16");
    reveal_strlit("SFIX32");
    assert("BIT_MASK"@.len() == 8 && "BIT_MASK"@[0] == 'B');
    assert("ECU_ADDRESS"@.len() == 11);
    assert("ECU_ADDRESS_EXTENSION"@.len() == 21);
    assert("FORMAT"@.len() == 6 && "FORMAT"@[0] == 'F');
    assert("SYMBOL_LINK"@.len() == 11);
    assert("UBYTE"@.len() == 5 && "SBYTE"@.len() == 5 && "UWORD"@.len() == 5);
    assert("SWORD"@.len() == 5 && "ULONG"@.len() == 5 && "SLONG"@.len() == 5);
    assert("A_UINT64"@.len() == 8 && "A_UINT64"@[0] == 'A');
    assert("A_INT64"@.len() == 7);
    assert("FLOAT32_IEEE"@.len() == 12 && "FLOAT64_IEEE"@.len() == 12);
    assert("FLOAT16"@.len() == 7 && "FLOAT64"@.len() == 7);
    assert("UFIX16"@.len() == 6 && "UFIX16"@[0] == 'U');
    assert("UFIX32"@.len() == 6 && "UFIX32"@[0] == 'U');
    assert("SFIX16"@.len() == 6 && "SFIX16"@[0] == 'S');
    assert("SFIX32"@.len() == 6 && "SFIX32"@[0] == 'S');
}

/// The lines of a MEASUREMENT block from its opening line up to its
/// closing line, without the white space around them.
pub open spec fn inner_lines(e: EntryView) -> Seq<Seq<char>> {
    seq![joined(begin_words(ExportKind::Measurement, e.full_name)), joined(type_words(e))] + (
    if e.is_bitfield() {
        seq![joined(mask_words(e))]
    } else {
        Seq::empty()
    }) + seq![
        joined(body_words(e)[0]),
        joined(body_words(e)[1]),
        joined(body_words(e)[2]),
        joined(body_words(e)[3]),
    ]
}

/// The lines of the block of an entry say its name, address and scalar
/// tag.
pub proof fn lemma_block_read(e: EntryView)
    requires
        readable(e),
    ensures
        parsed_block(inner_lines(e), ExportKind::Measurement) == read_back(e),
{
    let start = nothing_known();
    let l1 = joined(begin_words(ExportKind::Measurement, e.full_name));
    let l2 = joined(type_words(e));
    let lm = joined(mask_words(e));
    let b = body_words(e);
    let head = seq![l1, l2];
    let mid = if e.is_bitfield() {
        seq![lm]
    } else {
        Seq::<Seq<char>>::empty()
    };
    let tail = seq![joined(b[0]), joined(b[1]), joined(b[2]), joined(b[3])];
    lemma_scalar_tag_word(e.a2l_type);
    lemma_block_words(e);
    lemma_not_tags();
    lemma_mask_word(e);
    lemma_address_word(e.address);
    lemma_format_word(e.a2l_type);
    lemma_quoted_word(e.full_name);
    reveal_strlit("ECU_ADDRESS");
    reveal_strlit("ECU_ADDRESS_EXTENSION");
    reveal_strlit("BIT_MASK");
    reveal_strlit("FORMAT");
    reveal_strlit("SYMBOL_LINK");
    reveal_strlit("0x0");
    reveal_strlit("0");

    let at1 = BlockState { name: e.full_name, found: true, ..start };
    let at2 = BlockState { data_type: e.a2l_type, ..at1 };
    let at3 = BlockState { address: Some(address_text(e.address)), ..at2 };

    // The opening line and the line of the data type.
    lemma_step_begin(start, e);
    lemma_step_type(at1, e);
    lemma_block_from_one(start, l1, ExportKind::Measurement);
    lemma_block_from_one(at1, l2, ExportKind::Measurement);
    lemma_block_from_concat(start, seq![l1], seq![l2], ExportKind::Measurement);
    assert(seq![l1] + seq![l2] =~= head);
    assert(block_from(start, head, ExportKind::Measurement) == at2);

    // The line of the mask, if there is one.
    if e.is_bitfield() {
        let mw = mask_words(e);
        assert forall|k: int| 0 <= k < mw.len() implies #[trigger] mw[k] != "ECU_ADDRESS"@ by {
            if k == 0 {
            } else {
            }
        }
        lemma_step_plain(at2, mw);
        lemma_block_from_one(at2, lm, ExportKind::Measurement);
    }
    assert(block_from(at2, mid, ExportKind::Measurement) == at2);
    lemma_block_from_concat(start, head, mid, ExportKind::Measurement);

    // The lines after it.
    lemma_step_address(at2, e);
    assert forall|k: int| 0 <= k < b[1].len() implies #[trigger] b[1][k] != "ECU_ADDRESS"@ by {
        if k == 0 {
        } else {
        }
    }
    lemma_step_plain(at3, b[1]);
    assert forall|k: int| 0 <= k < b[2].len() implies #[trigger] b[2][k] != "ECU_ADDRESS"@ by {
        if k == 0 {
        } else {
        }
    }
    lemma_step_plain(at3, b[2]);
    assert forall|k: int| 0 <= k < b[3].len() implies #[trigger] b[3][k] != "ECU_ADDRESS"@ by {
        assert("ECU_ADDRESS"@.len() == 11 && "ECU_ADDRESS"@[0] == 'E');
        if k == 0 {
            assert(b[3][0] == "SYMBOL_LINK"@);
            assert("SYMBOL_LINK"@[0] == 'S');
        } else if k == 1 {
            assert(b[3][1] == quoted(e.full_name));
            assert(quoted(e.full_name)[0] == '"');
        } else {
            assert(b[3][2] == "0"@);
            assert("0"@.len() == 1);
        }
    }
    lemma_step_plain(at3, b[3]);
    let t0 = seq![joined(b[0])];
    let t1 = seq![joined(b[1])];
    let t2 = seq![joined(b[2])];
    let t3 = seq![joined(b[3])];
    lemma_block_from_one(at2, joined(b[0]), ExportKind::Measurement);
    lemma_block_from_one(at3, joined(b[1]), ExportKind::Measurement);
    lemma_block_from_one(at3, joined(b[2]), ExportKind::Measurement);
    lemma_block_from_one(at3, joined(b[3]), ExportKind::Measurement);
    lemma_block_from_concat(at2, t0, t1, ExportKind::Measurement);
    lemma_block_from_concat(at2, t0 + t1, t2, ExportKind::Measurement);
    lemma_block_from_concat(at2, t0 + t1 + t2, t3, ExportKind::Measurement);
    assert(t0 + t1 + t2 + t3 =~= tail);
    assert(block_from(at2, tail, ExportKind::Measurement) == at3);
    lemma_block_from_concat(start, head + mid, tail, ExportKind::Measurement);
    assert(inner_lines(e) =~= head + mid + tail);
    lemma_block_fold_from(inner_lines(e), ExportKind::Measurement);
    reveal_strlit("MEASUREMENT");
}


// ---------------------------------------------------------------------------
// Scanning blocks
// ---------------------------------------------------------------------------

/// The reader after the lines `ls`, from where it stood before them.
pub open spec fn scan_from(s: ScanState, ls: Seq<Seq<char>>) -> ScanState
    decreases ls.len(),
{
    if ls.len() == 0 {
        s
    } else {
        scan_step(scan_from(s, ls.drop_last()), ls.last())
    }
}

/// Scanning two lists of lines, one after the other, is scanning the
/// second from where the first left off.
pub proof fn lemma_scan_from_concat(s: ScanState, a: Seq<Seq<char>>, b: Seq<Seq<char>>)
    ensures
        scan_from(s, a + b) == scan_from(scan_from(s, a), b),
    decreases b.len(),
{
    if b.len() == 0 {
        assert(a + b =~= a);
    } else {
        lemma_scan_from_concat(s, a, b.drop_last());
        assert((a + b).drop_last() =~= a + b.drop_last());
        assert((a + b).last() == b.last());
    }
}

/// Scanning one line is one step.
pub proof fn lemma_scan_from_one(s: ScanState, l: Seq<char>)
    ensures
        scan_from(s, seq![l]) == scan_step(s, l),
{
    assert(seq![l].drop_last() =~= Seq::<Seq<char>>::empty());
    assert(scan_from(s, seq![l].drop_last()) == s);
    assert(seq![l].last() == l);
}

/// Scanning a text is scanning its lines from outside any block.
pub proof fn lemma_scan_fold_from(ls: Seq<Seq<char>>)
    ensures
        scan_fold(ls) == scan_from(
            ScanState { mode: None, current: Seq::empty(), out: Seq::empty() },
            ls,
        ),
    decreases ls.len(),
{
    if ls.len() > 0 {
        lemma_scan_fold_from(ls.drop_last());
    }
}

/// Inside a block, a line of words that begins with another character
/// than `/` is gathered without its indentation.
pub proof fn lemma_scan_inner(s: ScanState, indent: nat, words: Seq<Seq<char>>)
    requires
        all_words(words),
        words.len() > 0,
        words[0][0] != '/',
        s.mode is Some,
    ensures
        scan_step(s, text_line(indent, words)) == (ScanState {
            current: s.current.push(joined(words)),
            ..s
        }),
{
    lemma_trim_text_line(indent, words);
    lemma_joined_ends(words);
    lemma_plain_line(text_line(indent, words));
}

/// The reader outside a block.
pub open spec fn outside(out: Seq<A2lVariableView>) -> ScanState {
    ScanState { mode: None, current: Seq::empty(), out }
}

/// The lines of a MEASUREMENT block between its opening and its closing
/// line begin with another character than `/`.
proof fn lemma_inner_starts(e: EntryView)
    requires
        readable(e),
    ensures
        type_words(e)[0][0] != '/',
        mask_words(e)[0][0] != '/',
        body_words(e)[0][0][0] != '/',
        body_words(e)[1][0][0] != '/',
        body_words(e)[2][0][0] != '/',
        body_words(e)[3][0][0] != '/',
{
    lemma_scalar_tag_word(e.a2l_type);
    reveal_strlit("BIT_MASK");
    reveal_strlit("ECU_ADDRESS");
    reveal_strlit("ECU_ADDRESS_EXTENSION");
    reveal_strlit("FORMAT");
    reveal_strlit("SYMBOL_LINK");
}

/// The reader inside a MEASUREMENT block of which it has gathered the
/// lines `current`.
pub open spec fn inside(current: Seq<Seq<char>>, out: Seq<A2lVariableView>) -> ScanState {
    ScanState { mode: Some(ExportKind::Measurement), current, out }
}

/// The opening line and the line of the data type, as written.
pub open spec fn head_lines(e: EntryView) -> Seq<Seq<char>> {
    seq![
        text_line(4, begin_words(ExportKind::Measurement, e.full_name)),
        text_line(6, type_words(e)),
    ]
}

/// The lines after the line of the mask, as written.
pub open spec fn tail_lines(e: EntryView) -> Seq<Seq<char>> {
    seq![
        text_line(6, body_words(e)[0]),
        text_line(6, body_words(e)[1]),
        text_line(6, body_words(e)[2]),
        text_line(6, body_words(e)[3]),
        text_line(4, end_words()),
        Seq::empty(),
    ]
}

/// The opening line starts a block; the line of the data type is
/// gathered.
proof fn lemma_scan_head(out: Seq<A2lVariableView>, e: EntryView)
    requires
        readable(e),
    ensures
        scan_from(outside(out), head_lines(e)) == inside(
            seq![
                joined(begin_words(ExportKind::Measurement, e.full_name)),
                joined(type_words(e)),
            ],
            out,
        ),
{
    let bw = begin_words(ExportKind::Measurement, e.full_name);
    let tw = type_words(e);
    lemma_scalar_tag_word(e.a2l_type);
    lemma_block_words(e);
    lemma_inner_starts(e);
    let l1 = text_line(4, bw);
    let l2 = text_line(6, tw);
    let at0 = outside(out);
    lemma_trim_text_line(4, bw);
    lemma_begin_line(l1, e.full_name);
    let at1 = inside(seq![joined(bw)], out);
    assert(scan_step(at0, l1) == at1);
    lemma_scan_inner(at1, 6, tw);
    lemma_scan_from_one(at0, l1);
    lemma_scan_from_one(at1, l2);
    lemma_scan_from_concat(at0, seq![l1], seq![l2]);
    assert(seq![l1] + seq![l2] =~= head_lines(e));
    assert(seq![joined(bw)].push(joined(tw)) =~= seq![joined(bw), joined(tw)]);
}

/// The line of the mask, if there is one, is gathered.
proof fn lemma_scan_mask(c: Seq<Seq<char>>, out: Seq<A2lVariableView>, e: EntryView)
    requires
        readable(e),
    ensures
        scan_from(inside(c, out), mask_lines(e)) == inside(
            c + (if e.is_bitfield() {
                seq![joined(mask_words(e))]
            } else {
                Seq::empty()
            }),
            out,
        ),
{
    lemma_scalar_tag_word(e.a2l_type);
    lemma_block_words(e);
    lemma_inner_starts(e);
    if e.is_bitfield() {
        let mw = mask_words(e);
        lemma_scan_inner(inside(c, out), 6, mw);
        lemma_scan_from_one(inside(c, out), text_line(6, mw));
        assert(mask_lines(e) =~= seq![text_line(6, mw)]);
        assert(c.push(joined(mw)) =~= c + seq![joined(mw)]);
    } else {
        assert(mask_lines(e) =~= Seq::<Seq<char>>::empty());
        assert(c + Seq::<Seq<char>>::empty() =~= c);
    }
}

/// The lines up to the closing line are gathered.
proof fn lemma_scan_body(c: Seq<Seq<char>>, out: Seq<A2lVariableView>, e: EntryView)
    requires
        readable(e),
    ensures
        scan_from(inside(c, out), tail_lines(e).take(4)) == inside(
            c + seq![
                joined(body_words(e)[0]),
                joined(body_words(e)[1]),
                joined(body_words(e)[2]),
                joined(body_words(e)[3]),
            ],
            out,
        ),
{
    let b = body_words(e);
    lemma_scalar_tag_word(e.a2l_type);
    lemma_block_words(e);
    lemma_inner_starts(e);
    let c1 = c.push(joined(b[0]));
    let c2 = c1.push(joined(b[1]));
    let c3 = c2.push(joined(b[2]));
    let c4 = c3.push(joined(b[3]));
    lemma_scan_inner(inside(c, out), 6, b[0]);
    lemma_scan_inner(inside(c1, out), 6, b[1]);
    lemma_scan_inner(inside(c2, out), 6, b[2]);
    lemma_scan_inner(inside(c3, out), 6, b[3]);
    let l3 = text_line(6, b[0]);
    let l4 = text_line(6, b[1]);
    let l5 = text_line(6, b[2]);
    let l6 = text_line(6, b[3]);
    lemma_scan_from_one(inside(c, out), l3);
    lemma_scan_from_one(inside(c1, out), l4);
    lemma_scan_from_one(inside(c2, out), l5);
    lemma_scan_from_one(inside(c3, out), l6);
    lemma_scan_from_concat(inside(c, out), seq![l3], seq![l4]);
    lemma_scan_from_concat(inside(c, out), seq![l3] + seq![l4], seq![l5]);
    lemma_scan_from_concat(inside(c, out), seq![l3] + seq![l4] + seq![l5], seq![l6]);
    assert(seq![l3] + seq![l4] + seq![l5] + seq![l6] =~= tail_lines(e).take(4));
    assert(c4 =~= c + seq![joined(b[0]), joined(b[1]), joined(b[2]), joined(b[3])]);
}

/// The closing line ends the block that was gathered; the empty line
/// after it changes nothing.
proof fn lemma_scan_end(c: Seq<Seq<char>>, out: Seq<A2lVariableView>, e: EntryView)
    ensures
        scan_from(inside(c, out), tail_lines(e).skip(4)) == outside(
            out.push(parsed_block(c, ExportKind::Measurement)),
        ),
{
    let zw = end_words();
    let none = Seq::<char>::empty();
    let l7 = text_line(4, zw);
    reveal_strlit("/end");
    reveal_strlit("MEASUREMENT");
    assert(is_word("/end"@) && is_word("MEASUREMENT"@));
    assert(all_words(zw)) by {
        assert forall|k: int| 0 <= k < zw.len() implies is_word(#[trigger] zw[k]) by {
            if k == 0 {
            } else {
            }
        }
    }
    lemma_trim_text_line(4, zw);
    lemma_end_line(l7);
    let done = outside(out.push(parsed_block(c, ExportKind::Measurement)));
    assert(scan_step(inside(c, out), l7) == done);
    lemma_empty_line();
    assert(scan_step(done, none) == done);
    lemma_scan_from_one(inside(c, out), l7);
    lemma_scan_from_one(done, none);
    lemma_scan_from_concat(inside(c, out), seq![l7], seq![none]);
    assert(seq![l7] + seq![none] =~= tail_lines(e).skip(4));
}

/// Scanning the MEASUREMENT block of an entry adds what the block says to
/// what was read, and leaves the reader outside a block.
pub proof fn lemma_scan_block(out: Seq<A2lVariableView>, e: EntryView)
    requires
        readable(e),
    ensures
        scan_from(outside(out), measurement_lines(e)) == outside(out.push(read_back(e))),
{
    let head = head_lines(e);
    let mid = mask_lines(e);
    let tail = tail_lines(e);
    let b = body_words(e);
    let c2 = seq![
        joined(begin_words(ExportKind::Measurement, e.full_name)),
        joined(type_words(e)),
    ];
    let c3 = c2 + (if e.is_bitfield() {
        seq![joined(mask_words(e))]
    } else {
        Seq::empty()
    });
    let c7 = c3 + seq![joined(b[0]), joined(b[1]), joined(b[2]), joined(b[3])];
    assert(measurement_lines(e) =~= head + mid + tail) by {
        reveal_strlit("MEASUREMENT");
        assert(begin_words(ExportKind::Measurement, e.full_name) =~= seq![
            "/begin"@,
            "MEASUREMENT"@,
            e.full_name,
            "\"\""@,
        ]);
    }
    lemma_scan_head(out, e);
    lemma_scan_mask(c2, out, e);
    lemma_scan_body(c3, out, e);
    lemma_scan_end(c7, out, e);
    assert(c7 =~= inner_lines(e));
    lemma_block_read(e);
    let start = outside(out);
    lemma_scan_from_concat(start, head, mid);
    lemma_scan_from_concat(start, head + mid, tail.take(4));
    lemma_scan_from_concat(start, head + mid + tail.take(4), tail.skip(4));
    assert(tail.take(4) + tail.skip(4) =~= tail);
    assert(head + mid + tail.take(4) + tail.skip(4) =~= head + mid + tail);
}

/// The lines of a MEASUREMENT block can be lines of a text.
pub proof fn lemma_block_clean(e: EntryView)
    requires
        is_word(e.full_name),
        is_word(e.a2l_type),
    ensures
        all_clean(measurement_lines(e)),
{
    let bw = begin_words(ExportKind::Measurement, e.full_name);
    let b = body_words(e);
    lemma_block_words(e);
    reveal_strlit("MEASUREMENT");
    assert(bw =~= seq!["/begin"@, "MEASUREMENT"@, e.full_name, "\"\""@]);
    lemma_text_line_clean(4, bw);
    lemma_text_line_clean(6, type_words(e));
    lemma_text_line_clean(6, mask_words(e));
    lemma_text_line_clean(6, b[0]);
    lemma_text_line_clean(6, b[1]);
    lemma_text_line_clean(6, b[2]);
    lemma_text_line_clean(6, b[3]);
    lemma_text_line_clean(4, end_words());
    let ls = measurement_lines(e);
    let head = seq![text_line(4, bw), text_line(6, type_words(e))];
    let mid = mask_lines(e);
    let tail = seq![
        text_line(6, b[0]),
        text_line(6, b[1]),
        text_line(6, b[2]),
        text_line(6, b[3]),
        text_line(4, end_words()),
        Seq::<char>::empty(),
    ];
    assert(ls =~= head + mid + tail);
    assert forall|k: int| 0 <= k < ls.len() implies is_clean(#[trigger] ls[k]) by {
        if k < 2 {
            assert(ls[k] == head[k]);
        } else if k < 2 + mid.len() {
            assert(ls[k] == mid[k - 2]);
        } else {
            assert(ls[k] == tail[k - 2 - mid.len()]);
            let j = k - 2 - mid.len();
            if j == 0 {
            } else if j == 1 {
            } else if j == 2 {
            } else if j == 3 {
            } else if j == 4 {
            } else {
            }
        }
    }
}

/// The lines of the MEASUREMENT blocks of the entries `es`, in order.
pub open spec fn all_lines(es: Seq<EntryView>) -> Seq<Seq<char>>
    decreases es.len(),
{
    if es.len() == 0 {
        Seq::empty()
    } else {
        all_lines(es.drop_last()) + measurement_lines(es.last())
    }
}

/// Whether every entry of `es` can be read back.
pub open spec fn all_readable(es: Seq<EntryView>) -> bool {
    forall|i: int| 0 <= i < es.len() ==> readable(#[trigger] es[i])
}

proof fn lemma_all_lines(out: Seq<A2lVariableView>, es: Seq<EntryView>)
    requires
        all_readable(es),
    ensures
        entry_blocks(es, ExportKind::Measurement) == unlines(all_lines(es)),
        all_clean(all_lines(es)),
        scan_from(outside(out), all_lines(es)) == outside(out + read_back_all(es)),
    decreases es.len(),
{
    if es.len() == 0 {
        assert(out + read_back_all(es) =~= out);
    } else {
        let init = es.drop_last();
        let e = es.last();
        assert(all_readable(init)) by {
            assert forall|i: int| 0 <= i < init.len() implies readable(#[trigger] init[i]) by {
                assert(init[i] == es[i]);
            }
        }
        assert(readable(e));
        lemma_all_lines(out, init);
        lemma_scalar_tag_word(e.a2l_type);
        lemma_block_clean(e);
        lemma_unlines_concat(all_lines(init), measurement_lines(e));
        let a = all_lines(init);
        let m = measurement_lines(e);
        assert forall|k: int| 0 <= k < (a + m).len() implies is_clean(#[trigger] (a + m)[k]) by {
            if k < a.len() {
                assert((a + m)[k] == a[k]);
            } else {
                assert((a + m)[k] == m[k - a.len()]);
            }
        }
        lemma_scan_from_concat(outside(out), a, m);
        lemma_scan_block(out + read_back_all(init), e);
        assert((out + read_back_all(init)).push(read_back(e)) =~= out + read_back_all(es));
    }
}

/// Reading back what the emitter wrote gives what went in: scanning the
/// MEASUREMENT blocks written for a list of entries gives, for each entry
/// in order, its name, its address as text, and its scalar tag.
pub proof fn law_blocks_read_back(es: Seq<EntryView>)
    requires
        all_readable(es),
    ensures
        parsed_variables(entry_blocks(es, ExportKind::Measurement)) == read_back_all(es),
{
    lemma_all_lines(Seq::empty(), es);
    lemma_lines_unlines(all_lines(es));
    lemma_scan_fold_from(all_lines(es));
    assert(Seq::<A2lVariableView>::empty() + read_back_all(es) =~= read_back_all(es));
}


// ---------------------------------------------------------------------------
// Scanning a whole document
// ---------------------------------------------------------------------------

/// Outside a block, a line that opens none changes nothing.
pub proof fn lemma_scan_outside(out: Seq<A2lVariableView>, line: Seq<char>)
    requires
        begin_kind(line).is_none(),
    ensures
        scan_step(outside(out), line) == outside(out),
{
}

/// What the placeholder of a document says when it is read back.
pub open spec fn placeholder() -> A2lVariableView {
    A2lVariableView {
        name: "__PLACEHOLDER__"@,
        address: Some("0x0"@),
        var_type: "CHARACTERISTIC"@,
        data_type: Seq::empty(),
    }
}

/// The words of the lines of a document outside its blocks are words.
proof fn lemma_header_words(project: Seq<char>, module: Seq<char>)
    requires
        is_word(project),
        is_word(module),
    ensures
        all_words(seq!["/begin"@, "ASAP2_VERSION"@]),
        all_words(seq!["1"@, "71"@]),
        all_words(seq!["/end"@, "ASAP2_VERSION"@]),
        all_words(seq!["/begin"@, "PROJECT"@, project, "\"\""@]),
        all_words(seq!["/begin"@, "MODULE"@, module, "\"\""@]),
        all_words(seq!["/begin"@, "CHARACTERISTIC"@, "__PLACEHOLDER__"@, "\"\""@]),
        all_words(seq!["VALUE"@, "0x0"@, "NO_COMPU_METHOD"@, "0"@, "0"@, "0"@, "0"@]),
        all_words(seq!["/end"@, "CHARACTERISTIC"@]),
        all_words(seq!["/begin"@, "COMPU_METHOD"@]),
        all_words(
            seq!["NO_COMPU_METHOD"@, "\"\""@, "NO_COMPU_VTAB"@, "\"\""@, "\"\""@, "\"\""@],
        ),
        all_words(seq!["/end"@, "COMPU_METHOD"@]),
        all_words(seq!["/end"@, "MODULE"@]),
        all_words(seq!["/end"@, "PROJECT"@]),
{
    reveal_strlit("/begin");
    reveal_strlit("/end");
    reveal_strlit("ASAP2_VERSION");
    reveal_strlit("1");
    reveal_strlit("71");
    reveal_strlit("PROJECT");
    reveal_strlit("MODULE");
    reveal_strlit("CHARACTERISTIC");
    reveal_strlit("__PLACEHOLDER__");
    reveal_strlit("\"\"");
    reveal_strlit("VALUE");
    reveal_strlit("0x0");
    reveal_strlit("NO_COMPU_METHOD");
    reveal_strlit("NO_COMPU_VTAB");
    reveal_strlit("COMPU_METHOD");
    reveal_strlit("0");
    assert(is_word("/begin"@) && is_word("/end"@) && is_word("ASAP2_VERSION"@));
    assert(is_word("1"@) && is_word("71"@) && is_word("PROJECT"@) && is_word("MODULE"@));
    assert(is_word("CHARACTERISTIC"@) && is_word("__PLACEHOLDER__"@) && is_word("\"\""@));
    assert(is_word("VALUE"@) && is_word("0x0"@) && is_word("NO_COMPU_METHOD"@));
    assert(is_word("NO_COMPU_VTAB"@) && is_word("COMPU_METHOD"@) && is_word("0"@));
}

/// A line of words whose first word is not `/begin` opens no block.
proof fn lemma_not_begin(indent: nat, words: Seq<Seq<char>>)
    requires
        all_words(words),
        words.len() > 0,
        words[0] != "/begin"@,
    ensures
        begin_kind(text_line(indent, words)).is_none(),
{
    lemma_second_word_decides(indent, words, ExportKind::Measurement);
    lemma_second_word_decides(indent, words, ExportKind::Characteristic);
}

/// A line of words opens a block of kind `kind` only if its first two
/// words are `/begin` and the word of that kind.
proof fn lemma_second_word_decides(indent: nat, words: Seq<Seq<char>>, kind: ExportKind)
    requires
        all_words(words),
    ensures
        begin_prefix(kind).is_prefix_of(trim(text_line(indent, words))) ==> words.len() >= 2
            && words[0] == "/begin"@ && words[1] == kind_word(kind),
{
    reveal_strlit("/begin MEASUREMENT ");
    reveal_strlit("/begin CHARACTERISTIC ");
    reveal_strlit("/begin");
    reveal_strlit("MEASUREMENT");
    reveal_strlit("CHARACTERISTIC");
    let t = trim(text_line(indent, words));
    let p = begin_prefix(kind);
    lemma_trim_text_line(indent, words);
    lemma_tokens_joined(words);
    if p.is_prefix_of(t) {
        let rest = t.skip(p.len() as int);
        assert(t =~= p + rest);
        let head = "/begin"@ + seq![' '] + kind_word(kind);
        assert(p =~= head + seq![' ']);
        assert(is_whitespace(p.last()));
        crate::words::lemma_tokens_concat(p, rest);
        crate::words::lemma_tokens_concat("/begin"@, seq![' '] + kind_word(kind) + seq![' ']);
        crate::words::lemma_tokens_concat(seq![' '], kind_word(kind) + seq![' ']);
        crate::words::lemma_tokens_concat(kind_word(kind), seq![' ']);
        crate::words::lemma_tokens_word("/begin"@);
        crate::words::lemma_tokens_word(kind_word(kind));
        crate::words::lemma_tokens_blank(seq![' ']);
        assert(p =~= "/begin"@ + (seq![' '] + kind_word(kind) + seq![' ']));
        assert(seq![' '] + kind_word(kind) + seq![' '] =~= seq![' '] + (kind_word(kind) + seq![
            ' ',
        ]));
        let two = seq!["/begin"@, kind_word(kind)];
        assert(tokens(p) =~= two) by {
            assert(tokens(kind_word(kind) + seq![' ']) =~= seq![kind_word(kind)]);
            assert(tokens(seq![' '] + (kind_word(kind) + seq![' '])) =~= seq![kind_word(kind)]);
        }
        assert(tokens(t) == two + tokens(rest));
        assert(words[0] == two[0]);
        assert(words[1] == two[1]);
    }
}

/// The placeholder line opens a CHARACTERISTIC block.
proof fn lemma_placeholder_begin(line: Seq<char>)
    requires
        trim(line) == joined(
            seq!["/begin"@, "CHARACTERISTIC"@, "__PLACEHOLDER__"@, "\"\""@],
        ),
    ensures
        begin_kind(line) == Some(ExportKind::Characteristic),
{
    reveal_strlit("/begin MEASUREMENT ");
    reveal_strlit("/begin CHARACTERISTIC ");
    reveal_strlit("/begin");
    reveal_strlit("CHARACTERISTIC");
    lemma_joined_four("/begin"@, "CHARACTERISTIC"@, "__PLACEHOLDER__"@, "\"\""@);
    let t = trim(line);
    let pc = begin_prefix(ExportKind::Characteristic);
    let pm = begin_prefix(ExportKind::Measurement);
    assert(pc =~= "/begin"@ + seq![' '] + "CHARACTERISTIC"@ + seq![' ']);
    assert(t.subrange(0, pc.len() as int) =~= pc);
    assert(t[7] == 'C');
    assert(pm[7] == 'M');
    if pm.is_prefix_of(t) {
        assert(t.subrange(0, pm.len() as int)[7] == pm[7]);
    }
}

/// The closing line of a CHARACTERISTIC block closes one, and neither
/// opens a block nor closes a MEASUREMENT block.
proof fn lemma_characteristic_end(line: Seq<char>)
    requires
        trim(line) == joined(seq!["/end"@, "CHARACTERISTIC"@]),
    ensures
        begin_kind(line).is_none(),
        !is_end_line(line, ExportKind::Measurement),
        is_end_line(line, ExportKind::Characteristic),
{
    reveal_strlit("/begin MEASUREMENT ");
    reveal_strlit("/begin CHARACTERISTIC ");
    reveal_strlit("/end MEASUREMENT");
    reveal_strlit("/end CHARACTERISTIC");
    reveal_strlit("/end");
    reveal_strlit("CHARACTERISTIC");
    lemma_joined_two("/end"@, "CHARACTERISTIC"@);
    let t = trim(line);
    let ec = end_prefix(ExportKind::Characteristic);
    let em = end_prefix(ExportKind::Measurement);
    assert(t =~= ec);
    assert(t.subrange(0, ec.len() as int) =~= ec);
    assert(t[5] == 'C');
    if em.is_prefix_of(t) {
        assert(t.subrange(0, em.len() as int)[5] == em[5]);
    }
    let bm = begin_prefix(ExportKind::Measurement);
    let bc = begin_prefix(ExportKind::Characteristic);
    assert(t[1] == 'e');
    if bm.is_prefix_of(t) {
        assert(t.subrange(0, bm.len() as int)[1] == bm[1]);
    }
    if bc.is_prefix_of(t) {
        assert(t.subrange(0, bc.len() as int)[1] == bc[1]);
    }
}

/// The name of the placeholder can name a block.
proof fn lemma_placeholder_name()
    ensures
        valid_subject("__PLACEHOLDER__"@),
{
    reveal_strlit("__PLACEHOLDER__");
    let n = "__PLACEHOLDER__"@;
    assert(n.len() == 15 && n[0] == '_');
    if is_scalar_tag(n) {
        lemma_scalar_tag_word(n);
    }
    assert(crate::number::digit_run(n) == 0);
    assert(n.skip(0) =~= n);
    assert(!crate::number::is_number(n));
    assert(!is_numeric_literal(n));
}

/// The lines of the placeholder say its name and the address of its
/// value.
proof fn lemma_placeholder_read()
    ensures
        parsed_block(
            seq![
                joined(seq!["/begin"@, "CHARACTERISTIC"@, "__PLACEHOLDER__"@, "\"\""@]),
                joined(seq!["VALUE"@, "0x0"@, "NO_COMPU_METHOD"@, "0"@, "0"@, "0"@, "0"@]),
            ],
            ExportKind::Characteristic,
        ) == placeholder(),
{
    let w1 = seq!["/begin"@, "CHARACTERISTIC"@, "__PLACEHOLDER__"@, "\"\""@];
    let w2 = seq!["VALUE"@, "0x0"@, "NO_COMPU_METHOD"@, "0"@, "0"@, "0"@, "0"@];
    let t1 = joined(w1);
    let t2 = joined(w2);
    let kind = ExportKind::Characteristic;
    reveal_strlit("x");
    assert(is_word("x"@));
    lemma_header_words("x"@, "x"@);
    lemma_placeholder_name();
    lemma_trim_joined(w1);
    lemma_tokens_joined(w1);
    lemma_joined_ends(w1);
    lemma_placeholder_begin(t1);
    let at0 = nothing_known();
    let at1 = BlockState { name: "__PLACEHOLDER__"@, found: true, ..at0 };
    assert(word(t1, 2) == "__PLACEHOLDER__"@);
    assert(block_step(at0, t1, kind) == at1);
    lemma_trim_joined(w2);
    lemma_tokens_joined(w2);
    lemma_joined_ends(w2);
    reveal_strlit("VALUE");
    reveal_strlit("ECU_ADDRESS");
    reveal_strlit("0x0");
    reveal_strlit("NO_COMPU_METHOD");
    reveal_strlit("0");
    lemma_plain_line(t2);
    assert("VALUE"@.len() == 5 && "VALUE"@[0] == 'V');
    if is_scalar_tag("VALUE"@) {
        lemma_scalar_tag_word("VALUE"@);
    }
    assert("ECU_ADDRESS"@.len() == 11);
    assert forall|k: int| 0 <= k < w2.len() implies #[trigger] w2[k] != "ECU_ADDRESS"@ by {
        if k == 0 {
        } else if k == 1 {
            assert("0x0"@.len() == 3);
        } else if k == 2 {
            assert("NO_COMPU_METHOD"@.len() == 15);
        } else {
            assert("0"@.len() == 1);
        }
    }
    lemma_index_none(w2, "ECU_ADDRESS"@, 0);
    assert(index_from(w2, "VALUE"@, 0) == Some(0int));
    let at2 = BlockState { address: Some("0x0"@), ..at1 };
    assert(block_step(at1, t2, kind) == at2);
    lemma_block_from_one(at0, t1, kind);
    lemma_block_from_one(at1, t2, kind);
    lemma_block_from_concat(at0, seq![t1], seq![t2], kind);
    assert(seq![t1] + seq![t2] =~= seq![t1, t2]);
    lemma_block_fold_from(seq![t1, t2], kind);
    reveal_strlit("CHARACTERISTIC");
}

/// Outside a block, lines that open none change nothing.
proof fn lemma_scan_all_outside(out: Seq<A2lVariableView>, ls: Seq<Seq<char>>)
    requires
        forall|k: int| 0 <= k < ls.len() ==> begin_kind(#[trigger] ls[k]).is_none(),
    ensures
        scan_from(outside(out), ls) == outside(out),
    decreases ls.len(),
{
    if ls.len() > 0 {
        let init = ls.drop_last();
        assert forall|k: int| 0 <= k < init.len() implies begin_kind(#[trigger] init[k]).is_none() by {
            assert(init[k] == ls[k]);
        }
        lemma_scan_all_outside(out, init);
        assert(begin_kind(ls[ls.len() - 1]).is_none());
        lemma_scan_outside(out, ls.last());
    }
}

/// The lines of the header before the placeholder.
pub open spec fn header_front(project: Seq<char>, module: Seq<char>) -> Seq<Seq<char>> {
    seq![
        text_line(0, seq!["/begin"@, "ASAP2_VERSION"@]),
        text_line(2, seq!["1"@, "71"@]),
        text_line(0, seq!["/end"@, "ASAP2_VERSION"@]),
        Seq::empty(),
        text_line(0, seq!["/begin"@, "PROJECT"@, project, "\"\""@]),
        text_line(2, seq!["/begin"@, "MODULE"@, module, "\"\""@]),
    ]
}

/// The lines of the placeholder.
pub open spec fn header_placeholder() -> Seq<Seq<char>> {
    seq![
        text_line(4, seq!["/begin"@, "CHARACTERISTIC"@, "__PLACEHOLDER__"@, "\"\""@]),
        text_line(6, seq!["VALUE"@, "0x0"@, "NO_COMPU_METHOD"@, "0"@, "0"@, "0"@, "0"@]),
        text_line(4, seq!["/end"@, "CHARACTERISTIC"@]),
    ]
}

/// The lines of the header after the placeholder.
pub open spec fn header_back() -> Seq<Seq<char>> {
    seq![
        Seq::empty(),
        text_line(4, seq!["/begin"@, "COMPU_METHOD"@]),
        text_line(
            6,
            seq!["NO_COMPU_METHOD"@, "\"\""@, "NO_COMPU_VTAB"@, "\"\""@, "\"\""@, "\"\""@],
        ),
        text_line(4, seq!["/end"@, "COMPU_METHOD"@]),
        Seq::empty(),
    ]
}

/// The words that follow `/begin` in the header outside the placeholder
/// name no kind of block.
proof fn lemma_other_kinds()
    ensures
        "ASAP2_VERSION"@ != "MEASUREMENT"@,
        "ASAP2_VERSION"@ != "CHARACTERISTIC"@,
        "PROJECT"@ != "MEASUREMENT"@,
        "PROJECT"@ != "CHARACTERISTIC"@,
        "MODULE"@ != "MEASUREMENT"@,
        "MODULE"@ != "CHARACTERISTIC"@,
        "COMPU_METHOD"@ != "MEASUREMENT"@,
        "COMPU_METHOD"@ != "CHARACTERISTIC"@,
        "/end"@ != "/begin"@,
{
    reveal_strlit("/begin");
    reveal_strlit("/end");
    reveal_strlit("ASAP2_VERSION");
    reveal_strlit("PROJECT");
    reveal_strlit("MODULE");
    reveal_strlit("COMPU_METHOD");
    reveal_strlit("MEASUREMENT");
    reveal_strlit("CHARACTERISTIC");
    assert("/begin"@.len() == 6 && "/end"@.len() == 4);
    assert("ASAP2_VERSION"@.len() == 13 && "PROJECT"@.len() == 7 && "MODULE"@.len() == 6);
    assert("COMPU_METHOD"@.len() == 12 && "MEASUREMENT"@.len() == 11);
    assert("CHARACTERISTIC"@.len() == 14);
}

/// A line of words that begins with `/begin` and a word that names no
/// kind of block opens no block.
proof fn lemma_other_begin(indent: nat, words: Seq<Seq<char>>)
    requires
        all_words(words),
        words.len() >= 2,
        words[1] != "MEASUREMENT"@,
        words[1] != "CHARACTERISTIC"@,
    ensures
        begin_kind(text_line(indent, words)).is_none(),
{
    lemma_second_word_decides(indent, words, ExportKind::Measurement);
    lemma_second_word_decides(indent, words, ExportKind::Characteristic);
}

/// A line of words that begins with another character than `/` opens no
/// block.
proof fn lemma_plain_text_line(indent: nat, words: Seq<Seq<char>>)
    requires
        all_words(words),
        words.len() > 0,
        words[0][0] != '/',
    ensures
        begin_kind(text_line(indent, words)).is_none(),
{
    lemma_trim_text_line(indent, words);
    lemma_joined_ends(words);
    lemma_plain_line(text_line(indent, words));
}

proof fn lemma_header_front(project: Seq<char>, module: Seq<char>)
    requires
        is_word(project),
        is_word(module),
    ensures
        scan_from(outside(Seq::empty()), header_front(project, module)) == outside(Seq::empty()),
        all_clean(header_front(project, module)),
{
    let h = header_front(project, module);
    let w0 = seq!["/begin"@, "ASAP2_VERSION"@];
    let w1 = seq!["1"@, "71"@];
    let w2 = seq!["/end"@, "ASAP2_VERSION"@];
    let w4 = seq!["/begin"@, "PROJECT"@, project, "\"\""@];
    let w5 = seq!["/begin"@, "MODULE"@, module, "\"\""@];
    lemma_header_words(project, module);
    lemma_other_kinds();
    reveal_strlit("1");
    assert("1"@[0] == '1');
    lemma_other_begin(0, w0);
    lemma_plain_text_line(2, w1);
    lemma_not_begin(0, w2);
    lemma_empty_line();
    lemma_other_begin(0, w4);
    lemma_other_begin(2, w5);
    assert forall|k: int| 0 <= k < h.len() implies begin_kind(#[trigger] h[k]).is_none() by {
        if k == 0 {
        } else if k == 1 {
        } else if k == 2 {
        } else if k == 3 {
        } else if k == 4 {
        } else {
        }
    }
    lemma_scan_all_outside(Seq::empty(), h);
    lemma_text_line_clean(0, w0);
    lemma_text_line_clean(2, w1);
    lemma_text_line_clean(0, w2);
    lemma_text_line_clean(0, w4);
    lemma_text_line_clean(2, w5);
    assert forall|k: int| 0 <= k < h.len() implies is_clean(#[trigger] h[k]) by {
        if k == 0 {
        } else if k == 1 {
        } else if k == 2 {
        } else if k == 3 {
        } else if k == 4 {
        } else {
        }
    }
}

proof fn lemma_header_back(out: Seq<A2lVariableView>)
    ensures
        scan_from(outside(out), header_back()) == outside(out),
        all_clean(header_back()),
{
    let h = header_back();
    let w1 = seq!["/begin"@, "COMPU_METHOD"@];
    let w2 = seq!["NO_COMPU_METHOD"@, "\"\""@, "NO_COMPU_VTAB"@, "\"\""@, "\"\""@, "\"\""@];
    let w3 = seq!["/end"@, "COMPU_METHOD"@];
    reveal_strlit("x");
    assert(is_word("x"@));
    lemma_header_words("x"@, "x"@);
    lemma_other_kinds();
    reveal_strlit("NO_COMPU_METHOD");
    assert("NO_COMPU_METHOD"@[0] == 'N');
    lemma_empty_line();
    lemma_other_begin(4, w1);
    lemma_plain_text_line(6, w2);
    lemma_not_begin(4, w3);
    assert forall|k: int| 0 <= k < h.len() implies begin_kind(#[trigger] h[k]).is_none() by {
        if k == 0 {
        } else if k == 1 {
        } else if k == 2 {
        } else if k == 3 {
        } else {
        }
    }
    lemma_scan_all_outside(out, h);
    lemma_text_line_clean(4, w1);
    lemma_text_line_clean(6, w2);
    lemma_text_line_clean(4, w3);
    assert forall|k: int| 0 <= k < h.len() implies is_clean(#[trigger] h[k]) by {
        if k == 0 {
        } else if k == 1 {
        } else if k == 2 {
        } else if k == 3 {
        } else {
        }
    }
}

proof fn lemma_header_placeholder()
    ensures
        scan_from(outside(Seq::empty()), header_placeholder()) == outside(seq![placeholder()]),
        all_clean(header_placeholder()),
{
    let h = header_placeholder();
    let w6 = seq!["/begin"@, "CHARACTERISTIC"@, "__PLACEHOLDER__"@, "\"\""@];
    let w7 = seq!["VALUE"@, "0x0"@, "NO_COMPU_METHOD"@, "0"@, "0"@, "0"@, "0"@];
    let w8 = seq!["/end"@, "CHARACTERISTIC"@];
    reveal_strlit("x");
    assert(is_word("x"@));
    lemma_header_words("x"@, "x"@);
    reveal_strlit("VALUE");
    assert("VALUE"@[0] == 'V');
    let s = outside(Seq::<A2lVariableView>::empty());
    let done = outside(seq![placeholder()]);
    lemma_trim_text_line(4, w6);
    lemma_placeholder_begin(h[0]);
    let c1 = seq![joined(w6)];
    let at1 = ScanState { mode: Some(ExportKind::Characteristic), current: c1, out: Seq::empty() };
    assert(scan_step(s, h[0]) == at1);
    lemma_scan_inner(at1, 6, w7);
    let c2 = c1.push(joined(w7));
    let at2 = ScanState { current: c2, ..at1 };
    lemma_trim_text_line(4, w8);
    lemma_characteristic_end(h[2]);
    lemma_placeholder_read();
    assert(c2 =~= seq![joined(w6), joined(w7)]);
    assert(Seq::<A2lVariableView>::empty().push(placeholder()) =~= seq![placeholder()]);
    assert(scan_step(at2, h[2]) == done);
    lemma_scan_from_one(s, h[0]);
    lemma_scan_from_one(at1, h[1]);
    lemma_scan_from_one(at2, h[2]);
    lemma_scan_from_concat(s, seq![h[0]], seq![h[1]]);
    lemma_scan_from_concat(s, seq![h[0]] + seq![h[1]], seq![h[2]]);
    assert(seq![h[0]] + seq![h[1]] + seq![h[2]] =~= h);
    lemma_text_line_clean(4, w6);
    lemma_text_line_clean(6, w7);
    lemma_text_line_clean(4, w8);
    assert forall|k: int| 0 <= k < h.len() implies is_clean(#[trigger] h[k]) by {
        if k == 0 {
        } else if k == 1 {
        } else {
        }
    }
}

/// Scanning the header of a document reads the placeholder, and leaves
/// the reader outside a block.
proof fn lemma_scan_header(project: Seq<char>, module: Seq<char>)
    requires
        is_word(project),
        is_word(module),
    ensures
        scan_from(outside(Seq::empty()), header_lines(project, module)) == outside(
            seq![placeholder()],
        ),
        all_clean(header_lines(project, module)),
{
    let a = header_front(project, module);
    let b = header_placeholder();
    let c = header_back();
    let s = outside(Seq::<A2lVariableView>::empty());
    lemma_header_front(project, module);
    lemma_header_placeholder();
    lemma_header_back(seq![placeholder()]);
    assert(header_lines(project, module) =~= a + b + c);
    lemma_scan_from_concat(s, a, b);
    lemma_scan_from_concat(s, a + b, c);
    lemma_clean_concat(a, b);
    lemma_clean_concat(a + b, c);
}

/// Scanning the footer of a document changes nothing.
proof fn lemma_scan_footer(out: Seq<A2lVariableView>)
    ensures
        scan_from(outside(out), footer_lines()) == outside(out),
        all_clean(footer_lines()),
{
    let f = footer_lines();
    let w0 = seq!["/end"@, "MODULE"@];
    let w1 = seq!["/end"@, "PROJECT"@];
    reveal_strlit("x");
    assert(is_word("x"@));
    lemma_header_words("x"@, "x"@);
    reveal_strlit("/begin");
    reveal_strlit("/end");
    assert("/begin"@.len() == 6 && "/end"@.len() == 4);
    lemma_not_begin(2, w0);
    lemma_not_begin(0, w1);
    lemma_scan_outside(out, f[0]);
    lemma_scan_outside(out, f[1]);
    let s = outside(out);
    let front = f.take(1);
    assert(front.drop_last() =~= Seq::<Seq<char>>::empty());
    assert(scan_from(s, front.drop_last()) == s);
    assert(scan_from(s, front) == s);
    assert(f.drop_last() =~= front);
    lemma_text_line_clean(2, w0);
    lemma_text_line_clean(0, w1);
    assert forall|k: int| 0 <= k < f.len() implies is_clean(#[trigger] f[k]) by {
        if k == 0 {
        } else {
        }
    }
}

/// The entries that stand for the variables `vars`.
pub open spec fn variable_entries(vars: Seq<VariableView>) -> Seq<EntryView> {
    Seq::new(vars.len(), |i: int| variable_entry(vars[i]))
}

/// The scalar tag guessed for a type name is a scalar tag.
pub proof fn lemma_guessed_tag(size: usize, lower: Seq<char>)
    ensures
        is_scalar_tag(tag_for_lowered(size, lower)),
{
}

proof fn lemma_variable_blocks(vars: Seq<VariableView>)
    ensures
        variable_blocks(vars) == entry_blocks(variable_entries(vars), ExportKind::Measurement),
    decreases vars.len(),
{
    let es = variable_entries(vars);
    if vars.len() > 0 {
        lemma_variable_blocks(vars.drop_last());
        assert(es.drop_last() =~= variable_entries(vars.drop_last()));
        assert(es.last() == variable_entry(vars.last()));
    }
}

proof fn lemma_clean_concat(a: Seq<Seq<char>>, b: Seq<Seq<char>>)
    requires
        all_clean(a),
        all_clean(b),
    ensures
        all_clean(a + b),
{
    assert forall|k: int| 0 <= k < (a + b).len() implies is_clean(#[trigger] (a + b)[k]) by {
        if k < a.len() {
            assert((a + b)[k] == a[k]);
        } else {
            assert((a + b)[k] == b[k - a.len()]);
        }
    }
}

/// Whether the name of every variable of `vars` is a word that can name a
/// block.
pub open spec fn all_nameable(vars: Seq<VariableView>) -> bool {
    forall|i: int|
        0 <= i < vars.len() ==> is_word((#[trigger] vars[i]).name) && valid_subject(vars[i].name)
}

/// Reading back a whole document gives what went in: the placeholder,
/// then, for each variable and each entry in order, its name, its address
/// as text, and its scalar tag.
pub proof fn law_document_read_back(
    project: Seq<char>,
    module: Seq<char>,
    vars: Seq<VariableView>,
    entries: Seq<EntryView>,
)
    requires
        is_word(project),
        is_word(module),
        all_nameable(vars),
        all_readable(entries),
    ensures
        parsed_variables(document(project, module, vars, entries)) == seq![placeholder()]
            + read_back_all(variable_entries(vars)) + read_back_all(entries),
{
    let ves = variable_entries(vars);
    assert(all_readable(ves)) by {
        assert forall|i: int| 0 <= i < ves.len() implies readable(#[trigger] ves[i]) by {
            lemma_guessed_tag(vars[i].size, crate::text::lowercase_of(vars[i].ty_name));
        }
    }
    let h = header_lines(project, module);
    let v = all_lines(ves);
    let e = all_lines(entries);
    let f = footer_lines();
    let first = seq![placeholder()];
    lemma_scan_header(project, module);
    lemma_variable_blocks(vars);
    lemma_all_lines(first, ves);
    lemma_all_lines(first + read_back_all(ves), entries);
    lemma_scan_footer(first + read_back_all(ves) + read_back_all(entries));
    lemma_unlines_concat(h, v);
    lemma_unlines_concat(h + v, e);
    lemma_unlines_concat(h + v + e, f);
    lemma_clean_concat(h, v);
    lemma_clean_concat(h + v, e);
    lemma_clean_concat(h + v + e, f);
    let all = h + v + e + f;
    assert(document(project, module, vars, entries) == unlines(all));
    lemma_lines_unlines(all);
    lemma_scan_fold_from(all);
    let s = outside(Seq::<A2lVariableView>::empty());
    lemma_scan_from_concat(s, h, v);
    lemma_scan_from_concat(s, h + v, e);
    lemma_scan_from_concat(s, h + v + e, f);
}

} // verus!
