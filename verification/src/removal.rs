//! What a removal leaves: the lines outside the removed blocks, as they
//! stood; and what a second removal of the same names does to them:
//! nothing.

use crate::a2l::ExportKind;
use crate::a2l_edit::{
    edited_from, end_from, line_out, lines_text, prepend, removed_text, scan_at, EditOp, Scan,
};
use crate::a2l_scan::{begin_kind, is_end_line, valid_subject, word};
use crate::text::{
    lemma_line_end_bounds, lemma_unlines_concat, line_end, lines, strip_cr, unlines,
};
use crate::words::{all_clean, is_clean, lemma_lines_unlines};
use vstd::prelude::*;

verus! {

// ---------------------------------------------------------------------------
// The lines that are kept
// ---------------------------------------------------------------------------

/// The lines from `i` on that a removal of the blocks named in `names`
/// keeps: every line outside a block, and every line of a block with
/// another name. A block reaches from its opening line to the first line
/// after it that closes its kind.
pub open spec fn kept_from(ls: Seq<Seq<char>>, i: int, names: Seq<Seq<char>>) -> Seq<Seq<char>>
    decreases ls.len() - i,
{
    if i < 0 || i >= ls.len() {
        Seq::empty()
    } else {
        match scan_at(ls, i) {
            Scan::Plain => seq![ls[i]] + kept_from(ls, i + 1, names),
            Scan::Broken => Seq::empty(),
            Scan::Block { kind, end } => if end <= i || end >= ls.len() {
                Seq::empty()
            } else if names.contains(word(ls[i], 2)) {
                kept_from(ls, end + 1, names)
            } else {
                ls.subrange(i, end + 1) + kept_from(ls, end + 1, names)
            },
        }
    }
}

/// Whether no line of `ls` ends with a carriage return.
pub open spec fn plain_ends(ls: Seq<Seq<char>>) -> bool {
    forall|k: int| 0 <= k < ls.len() ==> (#[trigger] ls[k]).len() > 0 ==> ls[k].last() != '\r'
}

/// No line of a text holds a line feed.
pub proof fn lemma_lines_hold_no_feed(s: Seq<char>)
    ensures
        forall|k: int, j: int|
            0 <= k < lines(s).len() && 0 <= j < lines(s)[k].len() ==> #[trigger] lines(s)[k][j]
                != '\n',
    decreases s.len(),
{
    if s.len() > 0 {
        let e = line_end(s);
        lemma_line_end_bounds(s);
        if e < s.len() {
            let first = strip_cr(s.take(e as int));
            let rest = s.skip(e as int + 1);
            lemma_lines_hold_no_feed(rest);
            assert(lines(s) == seq![first] + lines(rest));
            assert forall|k: int, j: int|
                0 <= k < lines(s).len() && 0 <= j < lines(s)[k].len() implies #[trigger] lines(
                s,
            )[k][j] != '\n' by {
                if k == 0 {
                    assert(first[j] == s[j]);
                } else {
                    assert(lines(s)[k] == lines(rest)[k - 1]);
                }
            }
        }
    }
}

/// The lines of a text can be lines of a text again, where none of them
/// ends with a carriage return.
pub proof fn lemma_lines_clean(s: Seq<char>)
    requires
        plain_ends(lines(s)),
    ensures
        all_clean(lines(s)),
{
    lemma_lines_hold_no_feed(s);
    let ls = lines(s);
    assert forall|k: int| 0 <= k < ls.len() implies is_clean(#[trigger] ls[k]) by {
        assert forall|j: int| 0 <= j < ls[k].len() implies #[trigger] ls[k][j] != '\n' by {
            assert(lines(s)[k][j] != '\n');
        }
    }
}

/// The lines that are kept are lines that stood there.
pub proof fn lemma_kept_clean(ls: Seq<Seq<char>>, i: int, names: Seq<Seq<char>>)
    requires
        all_clean(ls),
        0 <= i,
    ensures
        all_clean(kept_from(ls, i, names)),
    decreases ls.len() - i,
{
    let kept = kept_from(ls, i, names);
    if i < ls.len() {
        match scan_at(ls, i) {
            Scan::Plain => {
                lemma_kept_clean(ls, i + 1, names);
                let rest = kept_from(ls, i + 1, names);
                assert forall|k: int| 0 <= k < kept.len() implies is_clean(#[trigger] kept[k]) by {
                    if k > 0 {
                        assert(kept[k] == rest[k - 1]);
                    }
                }
            },
            Scan::Broken => {},
            Scan::Block { kind, end } => {
                if i < end < ls.len() {
                    lemma_kept_clean(ls, end + 1, names);
                    let rest = kept_from(ls, end + 1, names);
                    if !names.contains(word(ls[i], 2)) {
                        let block = ls.subrange(i, end + 1);
                        assert forall|k: int| 0 <= k < kept.len() implies is_clean(
                            #[trigger] kept[k],
                        ) by {
                            if k < block.len() {
                                assert(kept[k] == ls[i + k]);
                            } else {
                                assert(kept[k] == rest[k - block.len()]);
                            }
                        }
                    }
                }
            },
        }
    }
}

// ---------------------------------------------------------------------------
// What is written is the lines that are kept
// ---------------------------------------------------------------------------

/// Lines written out one after the other are the text of those lines.
pub proof fn lemma_lines_text(ls: Seq<Seq<char>>, from: int, to: int)
    requires
        0 <= from <= to <= ls.len(),
    ensures
        lines_text(ls, from, to) == unlines(ls.subrange(from, to)),
    decreases to - from,
{
    let part = ls.subrange(from, to);
    if from < to {
        lemma_lines_text(ls, from, to - 1);
        assert(part.drop_last() =~= ls.subrange(from, to - 1));
        assert(part.last() == ls[to - 1]);
        assert(unlines(part) =~= unlines(part.drop_last()) + line_out(part.last()));
    } else {
        assert(unlines(part) =~= Seq::<char>::empty());
    }
}

/// The text of one line.
proof fn lemma_unlines_one(l: Seq<char>)
    ensures
        unlines(seq![l]) == line_out(l),
{
    let one = seq![l];
    assert(one.drop_last() =~= Seq::<Seq<char>>::empty());
    assert(unlines(one.drop_last()) =~= Seq::<char>::empty());
    assert(unlines(one) =~= line_out(l));
}

/// What a removal writes for the lines from `i` on is the text of the
/// lines that it keeps.
pub proof fn lemma_removed_is_kept(ls: Seq<Seq<char>>, i: int, names: Seq<Seq<char>>)
    requires
        0 <= i,
        edited_from(ls, i, EditOp::Remove(names)) is Some,
    ensures
        edited_from(ls, i, EditOp::Remove(names)) == Some(unlines(kept_from(ls, i, names))),
    decreases ls.len() - i,
{
    let op = EditOp::Remove(names);
    if i < ls.len() {
        match scan_at(ls, i) {
            Scan::Plain => {
                lemma_removed_is_kept(ls, i + 1, names);
                lemma_unlines_one(ls[i]);
                lemma_unlines_concat(seq![ls[i]], kept_from(ls, i + 1, names));
            },
            Scan::Broken => {},
            Scan::Block { kind, end } => {
                lemma_removed_is_kept(ls, end + 1, names);
                let rest = kept_from(ls, end + 1, names);
                if names.contains(word(ls[i], 2)) {
                    assert(Seq::<char>::empty() + unlines(rest) =~= unlines(rest));
                } else {
                    lemma_lines_text(ls, i, end + 1);
                    lemma_unlines_concat(ls.subrange(i, end + 1), rest);
                }
            },
        }
    } else {
        assert(unlines(kept_from(ls, i, names)) =~= Seq::<char>::empty());
    }
}

// ---------------------------------------------------------------------------
// Lines in front of other lines
// ---------------------------------------------------------------------------

/// The line that closes a block is the first at or after `j` that closes
/// its kind.
pub proof fn lemma_end_from(ls: Seq<Seq<char>>, kind: ExportKind, j: int)
    requires
        0 <= j,
    ensures
        match end_from(ls, kind, j) {
            Some(e) => j <= e < ls.len() && is_end_line(ls[e], kind) && forall|k: int|
                j <= k < e ==> !is_end_line(#[trigger] ls[k], kind),
            None => forall|k: int| j <= k < ls.len() ==> !is_end_line(#[trigger] ls[k], kind),
        },
    decreases ls.len() - j,
{
    if j < ls.len() && !is_end_line(ls[j], kind) {
        lemma_end_from(ls, kind, j + 1);
    }
}

/// Behind other lines a closing line is found where it is found without
/// them, further on by their number.
proof fn lemma_shift_end(head: Seq<Seq<char>>, rest: Seq<Seq<char>>, kind: ExportKind, j: int)
    requires
        0 <= j,
    ensures
        end_from(head + rest, kind, head.len() + j) == match end_from(rest, kind, j) {
            Some(e) => Some(head.len() + e),
            None => None,
        },
    decreases rest.len() - j,
{
    let all = head + rest;
    if j < rest.len() {
        assert(all[head.len() + j] == rest[j]);
        if !is_end_line(rest[j], kind) {
            lemma_shift_end(head, rest, kind, j + 1);
        }
    }
}

/// Behind other lines a removal writes what it writes without them.
proof fn lemma_shift_removal(
    head: Seq<Seq<char>>,
    rest: Seq<Seq<char>>,
    j: int,
    names: Seq<Seq<char>>,
)
    requires
        0 <= j,
    ensures
        edited_from(head + rest, head.len() + j, EditOp::Remove(names)) == edited_from(
            rest,
            j,
            EditOp::Remove(names),
        ),
    decreases rest.len() - j,
{
    let all = head + rest;
    let h = head.len() as int;
    let op = EditOp::Remove(names);
    if j < rest.len() {
        assert(all[h + j] == rest[j]);
        match begin_kind(rest[j]) {
            None => {
                lemma_shift_removal(head, rest, j + 1, names);
            },
            Some(kind) => {
                if valid_subject(word(rest[j], 2)) {
                    lemma_shift_end(head, rest, kind, j + 1);
                    lemma_end_from(rest, kind, j + 1);
                    match end_from(rest, kind, j + 1) {
                        Some(end) => {
                            assert(scan_at(all, h + j) == Scan::Block { kind, end: h + end });
                            lemma_shift_removal(head, rest, end + 1, names);
                            lemma_lines_text(all, h + j, h + end + 1);
                            lemma_lines_text(rest, j, end + 1);
                            assert(all.subrange(h + j, h + end + 1) =~= rest.subrange(j, end + 1));
                        },
                        None => {},
                    }
                }
            },
        }
    }
}

/// A line that opens no block, in front of other lines, is written out as
/// it is.
proof fn lemma_plain_in_front(l: Seq<char>, rest: Seq<Seq<char>>, names: Seq<Seq<char>>)
    requires
        begin_kind(l).is_none(),
    ensures
        edited_from(seq![l] + rest, 0, EditOp::Remove(names)) == prepend(
            line_out(l),
            edited_from(rest, 0, EditOp::Remove(names)),
        ),
{
    let all = seq![l] + rest;
    assert(all[0] == l);
    lemma_shift_removal(seq![l], rest, 0, names);
}

/// A whole block with a name that is not removed, in front of other
/// lines, is written out as it is.
proof fn lemma_block_in_front(
    block: Seq<Seq<char>>,
    rest: Seq<Seq<char>>,
    kind: ExportKind,
    names: Seq<Seq<char>>,
)
    requires
        block.len() >= 2,
        begin_kind(block[0]) == Some(kind),
        valid_subject(word(block[0], 2)),
        !names.contains(word(block[0], 2)),
        is_end_line(block.last(), kind),
        forall|k: int| 1 <= k < block.len() - 1 ==> !is_end_line(#[trigger] block[k], kind),
    ensures
        edited_from(block + rest, 0, EditOp::Remove(names)) == prepend(
            unlines(block),
            edited_from(rest, 0, EditOp::Remove(names)),
        ),
{
    let all = block + rest;
    let n = block.len() as int;
    assert(all[0] == block[0]);
    lemma_end_from(all, kind, 1);
    assert(all[n - 1] == block[n - 1]);
    assert(end_from(all, kind, 1) == Some(n - 1)) by {
        match end_from(all, kind, 1) {
            Some(e) => {
                if e < n - 1 {
                    assert(all[e] == block[e]);
                } else if e > n - 1 {
                    assert(!is_end_line(all[n - 1], kind));
                }
            },
            None => {
                assert(!is_end_line(all[n - 1], kind));
            },
        }
    }
    assert(scan_at(all, 0) == Scan::Block { kind, end: n - 1 });
    lemma_shift_removal(block, rest, 0, names);
    lemma_lines_text(all, 0, n);
    assert(all.subrange(0, n) =~= block);
}

// ---------------------------------------------------------------------------
// Removing twice
// ---------------------------------------------------------------------------

/// A removal changes nothing in the lines that a removal of the same names
/// has kept.
pub proof fn lemma_kept_stays(ls: Seq<Seq<char>>, i: int, names: Seq<Seq<char>>)
    requires
        0 <= i,
        edited_from(ls, i, EditOp::Remove(names)) is Some,
    ensures
        edited_from(kept_from(ls, i, names), 0, EditOp::Remove(names)) == Some(
            unlines(kept_from(ls, i, names)),
        ),
    decreases ls.len() - i,
{
    let kept = kept_from(ls, i, names);
    if i < ls.len() {
        match scan_at(ls, i) {
            Scan::Plain => {
                let rest = kept_from(ls, i + 1, names);
                lemma_kept_stays(ls, i + 1, names);
                lemma_plain_in_front(ls[i], rest, names);
                lemma_unlines_one(ls[i]);
                lemma_unlines_concat(seq![ls[i]], rest);
            },
            Scan::Broken => {},
            Scan::Block { kind, end } => {
                let rest = kept_from(ls, end + 1, names);
                lemma_kept_stays(ls, end + 1, names);
                if !names.contains(word(ls[i], 2)) {
                    let block = ls.subrange(i, end + 1);
                    lemma_end_from(ls, kind, i + 1);
                    assert(block[0] == ls[i]);
                    assert(block.last() == ls[end]);
                    assert forall|k: int| 1 <= k < block.len() - 1 implies !is_end_line(
                        #[trigger] block[k],
                        kind,
                    ) by {
                        assert(block[k] == ls[i + k]);
                    }
                    lemma_block_in_front(block, rest, kind, names);
                    lemma_unlines_concat(block, rest);
                }
            },
        }
    } else {
        assert(unlines(kept) =~= Seq::<char>::empty());
    }
}

/// The lines of a text after a removal are the lines that the removal
/// keeps, as they stood and in their order: where no line of the text
/// ends with a carriage return, the lines of what `removed_text` gives
/// are those of `kept_from`.
pub proof fn law_removal_keeps_lines(text: Seq<char>, names: Seq<Seq<char>>)
    requires
        plain_ends(lines(text)),
        removed_text(text, names) is Some,
    ensures
        lines(removed_text(text, names).unwrap()) == kept_from(lines(text), 0, names),
{
    let ls = lines(text);
    lemma_removed_is_kept(ls, 0, names);
    lemma_lines_clean(text);
    lemma_kept_clean(ls, 0, names);
    lemma_lines_unlines(kept_from(ls, 0, names));
}

/// Removing the same names a second time changes nothing: where no line
/// of the text ends with a carriage return, the removal applied to what
/// it gave gives the same text again.
pub proof fn law_remove_twice(text: Seq<char>, names: Seq<Seq<char>>)
    requires
        plain_ends(lines(text)),
        removed_text(text, names) is Some,
    ensures
        removed_text(removed_text(text, names).unwrap(), names) == removed_text(text, names),
{
    let ls = lines(text);
    law_removal_keeps_lines(text, names);
    lemma_removed_is_kept(ls, 0, names);
    lemma_kept_stays(ls, 0, names);
}

} // verus!
