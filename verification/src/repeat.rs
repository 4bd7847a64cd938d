//! What an `add` edit does when it is applied a second time: the block it
//! put in names the entry, so the second edit finds the name and is
//! skipped.

use crate::a2l::{block_of, characteristic_lines, measurement_lines, ExportKind, SaveResult};
use crate::a2l_edit::{
    after_add, after_edit, after_edits, anchor, blank_between, insertion_point, lemma_anchor_bounds,
    lemma_line_start, line_start, mode_of, skipped, spliced, EditView, Outcome,
};
use crate::a2l_scan::{
    begin_kind, begin_prefix, kind_word, name_exists, named_subject, subject_names, valid_subject,
    word,
};
use crate::roundtrip::{begin_words, lemma_joined_four};
use crate::text::{lines, text_line, trim, unlines};
use crate::types::EntryView;
use crate::words::{
    all_words, is_clean, is_word, lemma_lines_append, lemma_lines_cons, lemma_text_line_clean,
    lemma_tokens_text_line, lemma_trim_text_line, lemma_unlines_front,
};
use vstd::prelude::*;

verus! {

// ---------------------------------------------------------------------------
// The opening line of a block
// ---------------------------------------------------------------------------

/// The opening line of a block, as it is written for the name `name`.
pub open spec fn opening_line(kind: ExportKind, name: Seq<char>) -> Seq<char> {
    text_line(4, begin_words(kind, name))
}

/// The lines of the block of kind `kind` for the entry `e`.
pub open spec fn block_lines(e: EntryView, kind: ExportKind) -> Seq<Seq<char>> {
    match kind {
        ExportKind::Measurement => measurement_lines(e),
        ExportKind::Characteristic => characteristic_lines(e),
    }
}

/// The opening line of a block names the block, where the name is a word
/// that can name one.
pub proof fn lemma_opening_line(kind: ExportKind, name: Seq<char>)
    requires
        is_word(name),
        valid_subject(name),
    ensures
        named_subject(opening_line(kind, name)) == Some(name),
        is_clean(opening_line(kind, name)),
{
    let w = begin_words(kind, name);
    let line = opening_line(kind, name);
    reveal_strlit("/begin");
    reveal_strlit("MEASUREMENT");
    reveal_strlit("CHARACTERISTIC");
    reveal_strlit("\"\"");
    reveal_strlit("/begin MEASUREMENT ");
    reveal_strlit("/begin CHARACTERISTIC ");
    assert(is_word("/begin"@));
    assert(is_word(kind_word(kind)));
    assert(is_word("\"\""@));
    assert(all_words(w)) by {
        assert forall|k: int| 0 <= k < w.len() implies is_word(#[trigger] w[k]) by {
            if k == 0 {
            } else if k == 1 {
            } else if k == 2 {
            } else {
            }
        }
    }
    lemma_tokens_text_line(4, w);
    lemma_trim_text_line(4, w);
    lemma_text_line_clean(4, w);
    lemma_joined_four("/begin"@, kind_word(kind), name, "\"\""@);
    assert(word(line, 2) == name);
    let t = trim(line);
    let p = begin_prefix(kind);
    assert(p =~= "/begin"@ + seq![' '] + kind_word(kind) + seq![' ']);
    assert(t.subrange(0, p.len() as int) =~= p);
    assert(p.is_prefix_of(t));
    assert(begin_kind(line) is Some);
}

/// A block begins with its opening line.
pub proof fn lemma_block_front(e: EntryView, kind: ExportKind)
    ensures
        block_of(e, kind) == opening_line(kind, e.full_name) + seq!['\n'] + unlines(
            block_lines(e, kind).skip(1),
        ),
{
    let ls = block_lines(e, kind);
    reveal_strlit("MEASUREMENT");
    reveal_strlit("CHARACTERISTIC");
    assert(ls.len() > 0);
    assert(ls[0] == opening_line(kind, e.full_name)) by {
        assert(begin_words(kind, e.full_name) =~= seq![
            "/begin"@,
            kind_word(kind),
            e.full_name,
            "\"\""@,
        ]);
        match kind {
            ExportKind::Measurement => {
                assert(ls[0] == text_line(
                    4,
                    seq!["/begin"@, "MEASUREMENT"@, e.full_name, "\"\""@],
                ));
            },
            ExportKind::Characteristic => {
                assert(ls[0] == text_line(
                    4,
                    seq!["/begin"@, "CHARACTERISTIC"@, e.full_name, "\"\""@],
                ));
            },
        }
    }
    lemma_unlines_front(ls);
}

// ---------------------------------------------------------------------------
// The names of lines
// ---------------------------------------------------------------------------

/// The name of a block that one of the lines opens is among the names of
/// the lines.
pub proof fn lemma_named_line(ls: Seq<Seq<char>>, i: int)
    requires
        0 <= i < ls.len(),
        named_subject(ls[i]) is Some,
    ensures
        subject_names(ls).contains(named_subject(ls[i]).unwrap()),
    decreases ls.len(),
{
    let name = named_subject(ls[i]).unwrap();
    let init = ls.drop_last();
    let before = subject_names(init);
    let all = subject_names(ls);
    if i < ls.len() - 1 {
        assert(init[i] == ls[i]);
        lemma_named_line(init, i);
        let j = choose|j: int| 0 <= j < before.len() && before[j] == name;
        assert(all[j] == name);
    } else {
        assert(ls.last() == ls[i]);
        assert(all == before.push(name));
        assert(all[all.len() - 1] == name);
    }
}

// ---------------------------------------------------------------------------
// Where the block goes
// ---------------------------------------------------------------------------

/// Whether nothing but white space stands before the anchor on its line.
pub open spec fn anchor_leads_line(text: Seq<char>) -> bool {
    blank_between(text, line_start(text, anchor(text)), anchor(text))
}

/// A line starts at the start of the text or after a line feed.
pub proof fn lemma_line_start_after_feed(text: Seq<char>, pos: int)
    requires
        0 <= pos <= text.len(),
    ensures
        line_start(text, pos) == 0 || text[line_start(text, pos) - 1] == '\n',
    decreases pos,
{
    if pos > 0 && text[pos - 1] != '\n' {
        lemma_line_start_after_feed(text, pos - 1);
    }
}

/// A block that is put in where a line starts names its entry in the new
/// text: after an entry was added before an anchor that leads its line,
/// the text holds the entry's name.
pub proof fn law_added_name_exists(text: Seq<char>, e: EntryView, kind: ExportKind)
    requires
        is_word(e.full_name),
        valid_subject(e.full_name),
        anchor_leads_line(text),
    ensures
        name_exists(spliced(text, block_of(e, kind)), e.full_name),
{
    let a = anchor(text);
    let p = insertion_point(text);
    lemma_anchor_bounds(text);
    lemma_line_start(text, a);
    lemma_line_start_after_feed(text, a);
    assert(p == line_start(text, a));
    let front = text.take(p);
    let back = text.skip(p);
    let first = opening_line(kind, e.full_name);
    let others = unlines(block_lines(e, kind).skip(1));
    lemma_block_front(e, kind);
    lemma_opening_line(kind, e.full_name);
    let new_text = spliced(text, block_of(e, kind));
    let rest = others + back;
    assert(new_text =~= front + (first + seq!['\n'] + rest));
    assert(front.len() == 0 || front.last() == '\n') by {
        if p > 0 {
            assert(front.last() == text[p - 1]);
        }
    }
    lemma_lines_append(front, first + seq!['\n'] + rest);
    lemma_lines_cons(first, rest);
    let ls = lines(new_text);
    let k = lines(front).len() as int;
    assert(ls == lines(front) + (seq![first] + lines(rest)));
    assert(ls[k] == first);
    lemma_named_line(ls, k);
}

/// An entry that was added is not added again: where its name is a word
/// that can name a block and the anchor leads its line, the same `add`
/// edit applied to what the first left is counted as skipped and leaves
/// the text as it is.
pub proof fn law_add_twice(text: Seq<char>, e: EditView, entry: EntryView)
    requires
        e.action == "add"@,
        e.entry == Some(entry),
        is_word(entry.full_name),
        valid_subject(entry.full_name),
        anchor_leads_line(text),
    ensures
        after_edits(text, seq![e], 1) is Some,
        after_edit(after_edits(text, seq![e], 1).unwrap(), e) == Some(
            skipped(after_edits(text, seq![e], 1).unwrap()),
        ),
{
    reveal_strlit("add");
    reveal_strlit("delete");
    reveal_strlit("modify");
    assert("add"@[0] != "modify"@[0]);
    assert("add"@[0] != "delete"@[0]);
    let start = Outcome {
        text,
        counts: SaveResult { modified: 0, deleted: 0, added: 0, skipped: 0 },
    };
    let kind = mode_of(e.export_mode);
    assert(after_edits(text, seq![e], 0) == Some(start));
    assert(seq![e][0] == e);
    assert(after_edits(text, seq![e], 1) == after_add(start, Some(entry), kind));
    let once = after_add(start, Some(entry), kind).unwrap();
    if !name_exists(text, entry.full_name) {
        law_added_name_exists(text, entry, kind);
    }
    assert(name_exists(once.text, entry.full_name));
    assert(after_edit(once, e) == after_add(once, Some(entry), kind));
}

} // verus!
