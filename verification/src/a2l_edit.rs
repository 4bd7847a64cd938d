//! Editing A2L text in place: blocks are deleted, rewritten or added, and
//! every other line is kept as it stands.

use crate::a2l::{
    address_text, block_of, characteristic_block, entry_blocks, format_string, max_text,
    measurement_block, min_text, A2lEntryInfo, A2lError, A2lGenerator, AppendResult, ExportKind,
    SaveResult, VariableChanges, VariableEdit,
};
use crate::a2l_scan::{
    begin_kind, can_name, existing_names, is_data_tag, is_end_line, is_sized_tag, line_begin_kind,
    line_is_end, line_subject, listed, name_exists, named_subject, names_of_lines, drop_repeats,
    follower, kind_word, string_views, subject_names, valid_subject, word, word_after, word_at,
};
use crate::number::{address_value, hex_upper, push_number, read_address, zero_padded};
use crate::text::{
    chars_of, copy_range, count_leading_ws, find, find_first, find_last, is_whitespace, is_ws,
    leading_ws, lemma_find_from, lemma_leading_ws, lemma_rfind_from, lines, push_all, push_str,
    rfind, same_chars, split_lines, split_tokens, string_of, tokens, views,
};
use crate::types::{entry_views, A2lEntry, EntryView};
use vstd::prelude::*;

verus! {

// ---------------------------------------------------------------------------
// Views of the edit records
// ---------------------------------------------------------------------------

/// The view of an optional string.
pub open spec fn opt_view(s: Option<String>) -> Option<Seq<char>> {
    match s {
        Some(x) => Some(x@),
        None => None,
    }
}

/// What a `VariableChanges` holds.
pub struct ChangesView {
    pub name: Option<Seq<char>>,
    pub address: Option<Seq<char>>,
    pub data_type: Option<Seq<char>>,
    pub var_type: Option<Seq<char>>,
    pub bit_mask: Option<Seq<char>>,
}

impl View for VariableChanges {
    type V = ChangesView;

    open spec fn view(&self) -> ChangesView {
        ChangesView {
            name: opt_view(self.name),
            address: opt_view(self.address),
            data_type: opt_view(self.data_type),
            var_type: opt_view(self.var_type),
            bit_mask: opt_view(self.bit_mask),
        }
    }
}

/// What a `VariableEdit` holds.
pub struct EditView {
    pub action: Seq<char>,
    pub original_name: Seq<char>,
    pub changes: Option<ChangesView>,
    pub entry: Option<EntryView>,
    pub export_mode: Option<Seq<char>>,
}

impl View for VariableEdit {
    type V = EditView;

    open spec fn view(&self) -> EditView {
        EditView {
            action: self.action@,
            original_name: self.original_name@,
            changes: match self.changes {
                Some(c) => Some(c@),
                None => None,
            },
            entry: match self.entry {
                Some(e) => Some(e.entry()),
                None => None,
            },
            export_mode: opt_view(self.export_mode),
        }
    }
}

/// The views of a list of edits.
pub open spec fn edit_views(s: Seq<VariableEdit>) -> Seq<EditView> {
    Seq::new(s.len(), |i: int| s[i]@)
}

// ---------------------------------------------------------------------------
// Blocks
// ---------------------------------------------------------------------------

/// A line as it is written out: the line and a line feed.
pub open spec fn line_out(l: Seq<char>) -> Seq<char> {
    l + seq!['\n']
}

/// The lines `from .. to` as they are written out.
pub open spec fn lines_text(lines: Seq<Seq<char>>, from: int, to: int) -> Seq<char>
    decreases to - from,
{
    if from >= to {
        Seq::empty()
    } else {
        lines_text(lines, from, to - 1) + line_out(lines[to - 1])
    }
}

/// The first line at or after `j` that closes a block of kind `kind`.
pub open spec fn end_from(lines: Seq<Seq<char>>, kind: ExportKind, j: int) -> Option<int>
    decreases lines.len() - j,
{
    if j < 0 || j >= lines.len() {
        None
    } else if is_end_line(lines[j], kind) {
        Some(j)
    } else {
        end_from(lines, kind, j + 1)
    }
}

/// What stands at a line.
pub enum Scan {
    /// A line that opens no block.
    Plain,
    /// The opening line of a block that the line `end` closes.
    Block { kind: ExportKind, end: int },
    /// The opening line of a block that is never closed, or whose name is a
    /// number or a scalar tag.
    Broken,
}

/// What stands at line `i`.
pub open spec fn scan_at(lines: Seq<Seq<char>>, i: int) -> Scan {
    match begin_kind(lines[i]) {
        None => Scan::Plain,
        Some(kind) => if !valid_subject(word(lines[i], 2)) {
            Scan::Broken
        } else {
            match end_from(lines, kind, i + 1) {
                Some(j) => Scan::Block { kind, end: j },
                None => Scan::Broken,
            }
        },
    }
}

// ---------------------------------------------------------------------------
// Rewriting one block
// ---------------------------------------------------------------------------

/// What a block says of itself before it is changed.
pub struct Origin {
    pub name: Seq<char>,
    pub address: Seq<char>,
    pub data_type: Seq<char>,
}

/// What is known of a block's own values after one more of its lines: the
/// third word of an opening line is the name; the word after `ECU_ADDRESS`
/// is the address; a first word that is one of the ten scalar tags with a
/// range of their own is the data type.
pub open spec fn origin_step(o: Origin, line: Seq<char>) -> Origin {
    let w = tokens(line);
    let named = if begin_kind(line) is Some && w.len() >= 3 {
        Origin { name: w[2], ..o }
    } else {
        o
    };
    let addressed = match follower(w, "ECU_ADDRESS"@) {
        Some(a) => Origin { address: a, ..named },
        None => named,
    };
    if w.len() > 0 && is_sized_tag(w[0]) {
        Origin { data_type: w[0], ..addressed }
    } else {
        addressed
    }
}

/// What the block `lines` says of itself.
pub open spec fn origin_of(lines: Seq<Seq<char>>) -> Origin
    decreases lines.len(),
{
    if lines.len() == 0 {
        Origin { name: Seq::empty(), address: Seq::empty(), data_type: Seq::empty() }
    } else {
        origin_step(origin_of(lines.drop_last()), lines.last())
    }
}

/// The new value if one is given and not empty, else the old one.
pub open spec fn chosen(new: Option<Seq<char>>, old: Seq<char>) -> Seq<char> {
    match new {
        Some(n) => if n.len() > 0 {
            n
        } else {
            old
        },
        None => old,
    }
}

/// The values of a block after the changes `ch`.
pub open spec fn changed(o: Origin, ch: ChangesView) -> Origin {
    Origin {
        name: chosen(ch.name, o.name),
        address: chosen(ch.address, o.address),
        data_type: chosen(ch.data_type, o.data_type),
    }
}

/// The white space that `line` begins with.
pub open spec fn indent_of(line: Seq<char>) -> Seq<char> {
    line.take(leading_ws(line) as int)
}

/// Whether the first word of the line with the words `w` is `key`.
pub open spec fn starts_with_word(w: Seq<Seq<char>>, key: Seq<char>) -> bool {
    w.len() > 0 && w[0] == key
}

/// One line of a block of kind `kind` whose data type was `old_type`,
/// after the change to the values `new`, as it is written out. The indentation is kept. An opening line
/// gets the new name; `ECU_ADDRESS`, `LINK_MAP` and `SYMBOL_LINK` lines get
/// the new address and name; the line of the data type gets the new data
/// type and its range; in a MEASUREMENT, `FORMAT` and `DISPLAY` lines get
/// the format and the range of the new data type. Any other line is kept.
pub open spec fn rewritten_line(
    line: Seq<char>,
    old_type: Seq<char>,
    new: Origin,
    kind: ExportKind,
) -> Seq<char> {
    let w = tokens(line);
    let pad = indent_of(line);
    if begin_kind(line) is Some {
        pad + "/begin "@ + kind_word(kind) + " "@ + new.name + " \"\"\n"@
    } else if starts_with_word(w, "ECU_ADDRESS"@) {
        pad + "ECU_ADDRESS "@ + new.address + "\n"@
    } else if starts_with_word(w, "LINK_MAP"@) {
        pad + "LINK_MAP \""@ + new.name + "\" 0x"@ + hex_upper(address_value(new.address) as nat)
            + " 0 0 0 0\n"@
    } else if starts_with_word(w, "SYMBOL_LINK"@) {
        pad + "SYMBOL_LINK \""@ + new.name + "\" 0\n"@
    } else if old_type.len() > 0 && starts_with_word(w, old_type) && w.len() >= 6 {
        pad + new.data_type + " NO_COMPU_METHOD 0 0 "@ + min_text(new.data_type) + " "@
            + max_text(new.data_type) + "\n"@
    } else if kind == ExportKind::Measurement && starts_with_word(w, "FORMAT"@) {
        pad + "FORMAT \""@ + format_string(new.data_type) + "\"\n"@
    } else if kind == ExportKind::Measurement && starts_with_word(w, "DISPLAY"@) && w.len() >= 2 {
        pad + "DISPLAY "@ + w[1] + " "@ + min_text(new.data_type) + " "@ + max_text(new.data_type)
            + "\n"@
    } else {
        line_out(line)
    }
}

/// The lines of a block up to `upto` after the change to the values
/// `new`.
pub open spec fn rewritten_lines(
    lines: Seq<Seq<char>>,
    upto: int,
    old_type: Seq<char>,
    new: Origin,
    kind: ExportKind,
) -> Seq<char>
    decreases upto,
{
    if upto <= 0 || upto > lines.len() {
        Seq::empty()
    } else {
        rewritten_lines(lines, upto - 1, old_type, new, kind) + rewritten_line(
            lines[upto - 1],
            old_type,
            new,
            kind,
        )
    }
}

/// The kind that the changes `ch` turn a block of kind `kind` into, if
/// they turn it into the other kind.
pub open spec fn turned_into(ch: ChangesView, kind: ExportKind) -> Option<ExportKind> {
    if ch.var_type == Some("CHARACTERISTIC"@) && kind == ExportKind::Measurement {
        Some(ExportKind::Characteristic)
    } else if ch.var_type == Some("MEASUREMENT"@) && kind == ExportKind::Characteristic {
        Some(ExportKind::Measurement)
    } else {
        None
    }
}

/// The entry from which a block is made anew when its kind changes: the
/// values after the change, four bytes, no bit position.
pub open spec fn regenerated_entry(new: Origin) -> EntryView {
    EntryView {
        full_name: new.name,
        address: address_value(new.address),
        size: 4,
        a2l_type: new.data_type,
        ty_name: Seq::empty(),
        bit_offset: None,
        bit_size: None,
        array_index: None,
    }
}

/// The block `lines` of kind `kind` after the changes `ch`: made anew
/// where the kind changes, and rewritten line by line otherwise.
pub open spec fn rewritten_block(lines: Seq<Seq<char>>, ch: ChangesView, kind: ExportKind) -> Seq<
    char,
> {
    let old = origin_of(lines);
    let new = changed(old, ch);
    match turned_into(ch, kind) {
        Some(k) => block_of(regenerated_entry(new), k),
        None => rewritten_lines(lines, lines.len() as int, old.data_type, new, kind),
    }
}

/// The values of a block.
pub struct BlockValues {
    pub name: Vec<char>,
    pub address: Vec<char>,
    pub data_type: Vec<char>,
}

impl View for BlockValues {
    type V = Origin;

    open spec fn view(&self) -> Origin {
        Origin { name: self.name@, address: self.address@, data_type: self.data_type@ }
    }
}

fn copy_of(v: &Vec<char>) -> (r: Vec<char>)
    ensures
        r@ == v@,
{
    let r = copy_range(v.as_slice(), 0, v.len());
    proof {
        assert(r@ =~= v@);
    }
    r
}

/// The new value if one is given and not empty, else the old one.
pub fn choose_value(new: &Option<String>, old: &Vec<char>) -> (r: Vec<char>)
    ensures
        r@ == chosen(opt_view(*new), old@),
{
    match new {
        Some(n) => {
            let c = chars_of(n.as_str());
            if c.len() > 0 {
                c
            } else {
                copy_of(old)
            }
        },
        None => copy_of(old),
    }
}

/// Whether `value` is the text `word`.
pub fn is_given(value: &Option<String>, word: &str) -> (r: bool)
    ensures
        r == (opt_view(*value) == Some(word@)),
{
    match value {
        Some(s) => {
            let c = chars_of(s.as_str());
            crate::a2l::is_word(c.as_slice(), word)
        },
        None => false,
    }
}

/// Whether the first of `words` is `key`.
pub fn first_word_is(words: &Vec<Vec<char>>, key: &[char]) -> (r: bool)
    ensures
        r == starts_with_word(views(words@), key@),
{
    if words.len() == 0 {
        return false;
    }
    proof {
        assert(views(words@)[0] == words@[0]@);
    }
    same_chars(words[0].as_slice(), key)
}

/// What the block `block_lines` says of itself.
pub fn read_origin(block_lines: &Vec<Vec<char>>) -> (r: BlockValues)
    ensures
        r@ == origin_of(views(block_lines@)),
{
    let mut o = BlockValues { name: Vec::new(), address: Vec::new(), data_type: Vec::new() };
    let ghost ls = views(block_lines@);
    let mut i: usize = 0;
    proof {
        assert(ls.take(0) =~= Seq::<Seq<char>>::empty());
    }
    while i < block_lines.len()
        invariant
            i <= block_lines.len(),
            ls == views(block_lines@),
            o@ == origin_of(ls.take(i as int)),
        decreases block_lines.len() - i,
    {
        proof {
            let next = ls.take(i + 1);
            assert(next.drop_last() =~= ls.take(i as int));
            assert(next.last() == block_lines@[i as int]@);
        }
        let line = block_lines[i].as_slice();
        let w = split_tokens(line);
        if line_begin_kind(line).is_some() && w.len() >= 3 {
            proof {
                assert(views(w@)[2] == w@[2]@);
            }
            o.name = copy_of(&w[2]);
        }
        match word_after(&w, "ECU_ADDRESS") {
            Some(a) => {
                o.address = a;
            },
            None => {},
        }
        if w.len() > 0 {
            proof {
                assert(views(w@)[0] == w@[0]@);
            }
            if is_data_tag(w[0].as_slice()) {
                o.data_type = copy_of(&w[0]);
            }
        }
        i += 1;
    }
    proof {
        assert(ls.take(block_lines.len() as int) =~= ls);
    }
    o
}

/// Appends to `out` the line `line` of a block of kind `kind` whose data
/// type was `old_type`, after the change to the values `new`.
pub fn push_rewritten_line(
    out: &mut Vec<char>,
    line: &[char],
    old_type: &Vec<char>,
    new: &BlockValues,
    kind: ExportKind,
)
    ensures
        final(out)@ == old(out)@ + rewritten_line(line@, old_type@, new@, kind),
{
    let w = split_tokens(line);
    let k = count_leading_ws(line);
    let pad = copy_range(line, 0, k);
    let mut b: Vec<char> = Vec::new();
    let measurement = match kind {
        ExportKind::Measurement => true,
        ExportKind::Characteristic => false,
    };
    let ecu = chars_of("ECU_ADDRESS");
    let link = chars_of("LINK_MAP");
    let symbol = chars_of("SYMBOL_LINK");
    let format = chars_of("FORMAT");
    let display = chars_of("DISPLAY");
    proof {
        assert(pad@ =~= indent_of(line@));
    }
    if line_begin_kind(line).is_some() {
        push_all(&mut b, pad.as_slice());
        push_str(&mut b, "/begin ");
        match kind {
            ExportKind::Measurement => push_str(&mut b, "MEASUREMENT"),
            ExportKind::Characteristic => push_str(&mut b, "CHARACTERISTIC"),
        }
        push_str(&mut b, " ");
        push_all(&mut b, new.name.as_slice());
        push_str(&mut b, " \"\"\n");
    } else if first_word_is(&w, ecu.as_slice()) {
        push_all(&mut b, pad.as_slice());
        push_str(&mut b, "ECU_ADDRESS ");
        push_all(&mut b, new.address.as_slice());
        push_str(&mut b, "\n");
    } else if first_word_is(&w, link.as_slice()) {
        let addr = read_address(new.address.as_slice());
        push_all(&mut b, pad.as_slice());
        push_str(&mut b, "LINK_MAP \"");
        push_all(&mut b, new.name.as_slice());
        push_str(&mut b, "\" 0x");
        push_number(&mut b, addr, 16, true, 0);
        push_str(&mut b, " 0 0 0 0\n");
        proof {
            assert(zero_padded(hex_upper(addr as nat), 0) == hex_upper(addr as nat));
        }
    } else if first_word_is(&w, symbol.as_slice()) {
        push_all(&mut b, pad.as_slice());
        push_str(&mut b, "SYMBOL_LINK \"");
        push_all(&mut b, new.name.as_slice());
        push_str(&mut b, "\" 0\n");
    } else if old_type.len() > 0 && first_word_is(&w, old_type.as_slice()) && w.len() >= 6 {
        let tag = string_of(new.data_type.as_slice());
        let (min, max) = A2lGenerator::get_min_max(tag.as_str());
        push_all(&mut b, pad.as_slice());
        push_all(&mut b, new.data_type.as_slice());
        push_str(&mut b, " NO_COMPU_METHOD 0 0 ");
        push_str(&mut b, min);
        push_str(&mut b, " ");
        push_str(&mut b, max);
        push_str(&mut b, "\n");
    } else if measurement && first_word_is(&w, format.as_slice()) {
        let tag = string_of(new.data_type.as_slice());
        push_all(&mut b, pad.as_slice());
        push_str(&mut b, "FORMAT \"");
        push_str(&mut b, A2lGenerator::get_format_string(tag.as_str()));
        push_str(&mut b, "\"\n");
    } else if measurement && first_word_is(&w, display.as_slice()) && w.len() >= 2 {
        let tag = string_of(new.data_type.as_slice());
        let (min, max) = A2lGenerator::get_min_max(tag.as_str());
        proof {
            assert(views(w@)[1] == w@[1]@);
        }
        push_all(&mut b, pad.as_slice());
        push_str(&mut b, "DISPLAY ");
        push_all(&mut b, w[1].as_slice());
        push_str(&mut b, " ");
        push_str(&mut b, min);
        push_str(&mut b, " ");
        push_str(&mut b, max);
        push_str(&mut b, "\n");
    } else {
        push_all(&mut b, line);
        b.push('\n');
    }
    proof {
        assert(b@ =~= rewritten_line(line@, old_type@, new@, kind));
    }
    push_all(out, b.as_slice());
}

impl A2lGenerator {
    /// The block `block_lines` after the changes `changes`.
    pub fn apply_changes_to_block(
        block_lines: &Vec<Vec<char>>,
        changes: &VariableChanges,
        is_measurement: bool,
    ) -> (r: String)
        ensures
            r@ == rewritten_block(
                views(block_lines@),
                changes@,
                if is_measurement {
                    ExportKind::Measurement
                } else {
                    ExportKind::Characteristic
                },
            ),
    {
        let kind = if is_measurement {
            ExportKind::Measurement
        } else {
            ExportKind::Characteristic
        };
        let ghost ls = views(block_lines@);
        let old = read_origin(block_lines);
        let new = BlockValues {
            name: choose_value(&changes.name, &old.name),
            address: choose_value(&changes.address, &old.address),
            data_type: choose_value(&changes.data_type, &old.data_type),
        };
        proof {
            assert(new@ == changed(old@, changes@));
        }
        let to_characteristic = is_given(&changes.var_type, "CHARACTERISTIC") && is_measurement;
        let to_measurement = is_given(&changes.var_type, "MEASUREMENT") && !is_measurement;
        if to_characteristic || to_measurement {
            let entry = A2lEntry {
                full_name: string_of(new.name.as_slice()),
                address: read_address(new.address.as_slice()),
                size: 4,
                a2l_type: string_of(new.data_type.as_slice()),
                ty_name: String::new(),
                bit_offset: None,
                bit_size: None,
                array_index: None,
            };
            proof {
                assert(entry@ == regenerated_entry(new@));
            }
            if to_characteristic {
                return Self::generate_characteristic_block(&entry);
            } else {
                return Self::generate_measurement_block(&entry);
            }
        }
        let mut out: Vec<char> = Vec::new();
        let mut i: usize = 0;
        while i < block_lines.len()
            invariant
                i <= block_lines.len(),
                ls == views(block_lines@),
                out@ == rewritten_lines(ls, i as int, old@.data_type, new@, kind),
            decreases block_lines.len() - i,
        {
            proof {
                assert(ls[i as int] == block_lines@[i as int]@);
            }
            push_rewritten_line(&mut out, block_lines[i].as_slice(), &old.data_type, &new, kind);
            i += 1;
        }
        string_of(out.as_slice())
    }
}

// ---------------------------------------------------------------------------
// Editing a whole text
// ---------------------------------------------------------------------------

/// What to do with the blocks of a text.
pub enum EditOp {
    /// Delete the blocks with one of these names.
    Remove(Seq<Seq<char>>),
    /// Rewrite the blocks with this name by these changes.
    Modify(Seq<char>, ChangesView),
}

/// What is written for the block of kind `kind` that the lines
/// `start ..= end` make up.
pub open spec fn block_output(
    lines: Seq<Seq<char>>,
    start: int,
    end: int,
    kind: ExportKind,
    op: EditOp,
) -> Seq<char> {
    let subject = word(lines[start], 2);
    match op {
        EditOp::Remove(names) => if names.contains(subject) {
            Seq::empty()
        } else {
            lines_text(lines, start, end + 1)
        },
        EditOp::Modify(name, ch) => if subject == name {
            rewritten_block(lines.subrange(start, end + 1), ch, kind)
        } else {
            lines_text(lines, start, end + 1)
        },
    }
}

/// `head` in front of `rest`, if there is a rest.
pub open spec fn prepend(head: Seq<char>, rest: Option<Seq<char>>) -> Option<Seq<char>> {
    match rest {
        Some(r) => Some(head + r),
        None => None,
    }
}

/// The text for the lines from `i` on after the edit `op`: lines outside
/// blocks are written out as they are, each block as `block_output` says.
/// `None` if one of these lines opens a block that is never closed or
/// whose name is a number or a scalar tag.
pub open spec fn edited_from(lines: Seq<Seq<char>>, i: int, op: EditOp) -> Option<Seq<char>>
    decreases lines.len() - i,
{
    if i < 0 || i >= lines.len() {
        Some(Seq::empty())
    } else {
        match scan_at(lines, i) {
            Scan::Plain => prepend(line_out(lines[i]), edited_from(lines, i + 1, op)),
            Scan::Broken => None,
            Scan::Block { kind, end } => if end <= i || end >= lines.len() {
                None
            } else {
                prepend(block_output(lines, i, end, kind, op), edited_from(lines, end + 1, op))
            },
        }
    }
}

/// `text` without the blocks named in `names`; `None` if `text` holds a
/// block that is never closed or whose name is a number or a scalar tag.
pub open spec fn removed_text(text: Seq<char>, names: Seq<Seq<char>>) -> Option<Seq<char>> {
    edited_from(lines(text), 0, EditOp::Remove(names))
}

/// `text` with the blocks named `name` rewritten by `ch`; `None` if `text`
/// holds a block that is never closed or whose name is a number or a
/// scalar tag.
pub open spec fn modified_text(text: Seq<char>, name: Seq<char>, ch: ChangesView) -> Option<
    Seq<char>,
> {
    edited_from(lines(text), 0, EditOp::Modify(name, ch))
}

/// An edit of the blocks of a text.
pub enum EditRequest<'a> {
    Remove(&'a Vec<Vec<char>>),
    Modify(&'a Vec<char>, &'a VariableChanges),
}

impl<'a> View for EditRequest<'a> {
    type V = EditOp;

    open spec fn view(&self) -> EditOp {
        match self {
            EditRequest::Remove(names) => EditOp::Remove(views(names@)),
            EditRequest::Modify(name, ch) => EditOp::Modify(name@, ch@),
        }
    }
}

/// The first line at or after `from` that closes a block of kind `kind`.
pub fn find_end(all: &Vec<Vec<char>>, kind: ExportKind, from: usize) -> (r: Option<usize>)
    ensures
        match r {
            Some(j) => end_from(views(all@), kind, from as int) == Some(j as int) && from <= j
                < all.len(),
            None => end_from(views(all@), kind, from as int).is_none(),
        },
{
    let ghost ls = views(all@);
    let mut j: usize = from;
    while j < all.len()
        invariant
            from <= j,
            ls == views(all@),
            end_from(ls, kind, j as int) == end_from(ls, kind, from as int),
        decreases all.len() - j,
    {
        proof {
            assert(ls[j as int] == all@[j as int]@);
        }
        if line_is_end(all[j].as_slice(), kind) {
            return Some(j);
        }
        j += 1;
    }
    None
}

/// Appends the lines `from .. to` of `all` to `out`, each with a line
/// feed.
pub fn push_lines(out: &mut Vec<char>, all: &Vec<Vec<char>>, from: usize, to: usize)
    requires
        from <= to <= all.len(),
    ensures
        final(out)@ == old(out)@ + lines_text(views(all@), from as int, to as int),
{
    let ghost ls = views(all@);
    let mut i: usize = from;
    proof {
        assert(out@ =~= old(out)@ + lines_text(ls, from as int, from as int));
    }
    while i < to
        invariant
            from <= i <= to <= all.len(),
            ls == views(all@),
            out@ == old(out)@ + lines_text(ls, from as int, i as int),
        decreases to - i,
    {
        let ghost before = out@;
        push_all(out, all[i].as_slice());
        out.push('\n');
        proof {
            assert(ls[i as int] == all@[i as int]@);
            assert(out@ =~= before + line_out(ls[i as int]));
            assert(out@ =~= old(out)@ + lines_text(ls, from as int, i + 1));
        }
        i += 1;
    }
}

fn copy_lines(all: &Vec<Vec<char>>, from: usize, to: usize) -> (r: Vec<Vec<char>>)
    requires
        from <= to <= all.len(),
    ensures
        views(r@) == views(all@).subrange(from as int, to as int),
{
    let mut r: Vec<Vec<char>> = Vec::new();
    let mut i: usize = from;
    while i < to
        invariant
            from <= i <= to <= all.len(),
            r.len() == i - from,
            forall|k: int| 0 <= k < r.len() ==> (#[trigger] r@[k])@ == all@[from + k]@,
        decreases to - i,
    {
        r.push(copy_of(&all[i]));
        i += 1;
    }
    proof {
        assert(views(r@) =~= views(all@).subrange(from as int, to as int));
    }
    r
}

/// The text for the lines `all` after the edit `op`.
pub fn edit_lines(all: &Vec<Vec<char>>, op: &EditRequest) -> (r: Result<Vec<char>, A2lError>)
    ensures
        match r {
            Ok(t) => edited_from(views(all@), 0, op@) == Some(t@),
            Err(e) => edited_from(views(all@), 0, op@).is_none(),
        },
{
    let ghost ls = views(all@);
    let mut out: Vec<char> = Vec::new();
    let mut i: usize = 0;
    proof {
        assert(prepend(out@, edited_from(ls, 0, op@)) =~= edited_from(ls, 0, op@)) by {
            match edited_from(ls, 0, op@) {
                Some(r) => {
                    assert(out@ + r =~= r);
                },
                None => {},
            }
        }
    }
    while i < all.len()
        invariant
            i <= all.len(),
            ls == views(all@),
            prepend(out@, edited_from(ls, i as int, op@)) == edited_from(ls, 0, op@),
        decreases all.len() - i,
    {
        let ghost before = out@;
        let line = all[i].as_slice();
        proof {
            assert(ls[i as int] == all@[i as int]@);
        }
        match line_begin_kind(line) {
            None => {
                push_all(&mut out, line);
                out.push('\n');
                proof {
                    assert(out@ =~= before + line_out(ls[i as int]));
                    match edited_from(ls, i + 1, op@) {
                        Some(r) => {
                            assert(before + (line_out(ls[i as int]) + r) =~= out@ + r);
                        },
                        None => {},
                    }
                }
                i += 1;
            },
            Some(kind) => {
                let w = split_tokens(line);
                let subject = word_at(&w, 2);
                proof {
                    if 2 < w.len() {
                        assert(views(w@)[2] == w@[2]@);
                    }
                    assert(subject@ == word(ls[i as int], 2));
                }
                if !can_name(subject.as_slice()) {
                    return Err(A2lError::InvalidA2lFile);
                }
                match find_end(all, kind, i + 1) {
                    None => {
                        return Err(A2lError::InvalidA2lFile);
                    },
                    Some(end) => {
                        let keep: bool = match op {
                            EditRequest::Remove(names) => {
                                if listed(names, subject.as_slice()) {
                                    false
                                } else {
                                    true
                                }
                            },
                            EditRequest::Modify(name, changes) => {
                                if same_chars(subject.as_slice(), name.as_slice()) {
                                    let block = copy_lines(all, i, end + 1);
                                    let measurement = match kind {
                                        ExportKind::Measurement => true,
                                        ExportKind::Characteristic => false,
                                    };
                                    let text = A2lGenerator::apply_changes_to_block(
                                        &block,
                                        changes,
                                        measurement,
                                    );
                                    crate::text::push_str(&mut out, text.as_str());
                                    false
                                } else {
                                    true
                                }
                            },
                        };
                        if keep {
                            push_lines(&mut out, all, i, end + 1);
                        }
                        proof {
                            let piece = block_output(ls, i as int, end as int, kind, op@);
                            assert(out@ =~= before + piece);
                            match edited_from(ls, end + 1, op@) {
                                Some(r) => {
                                    assert(before + (piece + r) =~= out@ + r);
                                },
                                None => {},
                            }
                        }
                        i = end + 1;
                    },
                }
            },
        }
    }
    proof {
        assert(out@ + Seq::<char>::empty() =~= out@);
    }
    Ok(out)
}

/// The character vectors for a list of strings.
pub fn chars_of_all(v: &[String]) -> (r: Vec<Vec<char>>)
    ensures
        views(r@) == string_views(v@),
{
    let mut r: Vec<Vec<char>> = Vec::new();
    let mut i: usize = 0;
    while i < v.len()
        invariant
            i <= v.len(),
            r.len() == i,
            forall|k: int| 0 <= k < i ==> (#[trigger] r@[k])@ == v@[k]@,
        decreases v.len() - i,
    {
        r.push(chars_of(v[i].as_str()));
        i += 1;
    }
    proof {
        assert(views(r@) =~= string_views(v@));
    }
    r
}

impl A2lGenerator {
    /// `content` without the blocks named in `names`. Every other line is
    /// kept, ended by a line feed. Fails if `content` holds a block that
    /// is never closed or whose name is a number or a scalar tag.
    pub fn remove_variables(content: &str, names: &[String]) -> (r: Result<String, A2lError>)
        ensures
            match r {
                Ok(t) => removed_text(content@, string_views(names@)) == Some(t@),
                Err(e) => removed_text(content@, string_views(names@)).is_none(),
            },
    {
        let text = chars_of(content);
        let all = split_lines(text.as_slice());
        let wanted = chars_of_all(names);
        match edit_lines(&all, &EditRequest::Remove(&wanted)) {
            Ok(t) => Ok(string_of(t.as_slice())),
            Err(e) => Err(e),
        }
    }

    /// `content` with the blocks named `original_name` rewritten by
    /// `changes`. Every other line is kept, ended by a line feed. Fails if
    /// `content` holds a block that is never closed or whose name is a
    /// number or a scalar tag.
    pub fn modify_variable(content: &str, original_name: &str, changes: &VariableChanges) -> (r:
        Result<String, A2lError>)
        ensures
            match r {
                Ok(t) => modified_text(content@, original_name@, changes@) == Some(t@),
                Err(e) => modified_text(content@, original_name@, changes@).is_none(),
            },
    {
        let text = chars_of(content);
        let all = split_lines(text.as_slice());
        let name = chars_of(original_name);
        match edit_lines(&all, &EditRequest::Modify(&name, changes)) {
            Ok(t) => Ok(string_of(t.as_slice())),
            Err(e) => Err(e),
        }
    }
}

// ---------------------------------------------------------------------------
// Adding blocks
// ---------------------------------------------------------------------------

/// Where new blocks go, before any shift: the first `/begin GROUP`; else
/// the last `/end MEASUREMENT`; else the last `/end CHARACTERISTIC`; else
/// the last `/end MODULE`; else the end of the text.
pub open spec fn anchor(text: Seq<char>) -> int {
    match find_first(text, "/begin GROUP"@) {
        Some(p) => p,
        None => match find_last(text, "/end MEASUREMENT"@) {
            Some(p) => p,
            None => match find_last(text, "/end CHARACTERISTIC"@) {
                Some(p) => p,
                None => match find_last(text, "/end MODULE"@) {
                    Some(p) => p,
                    None => text.len() as int,
                },
            },
        },
    }
}

/// The start of the line that position `pos` lies in.
pub open spec fn line_start(text: Seq<char>, pos: int) -> int
    decreases pos,
{
    if pos <= 0 || pos > text.len() {
        0
    } else if text[pos - 1] == '\n' {
        pos
    } else {
        line_start(text, pos - 1)
    }
}

/// Whether `text` holds only white space from `from` up to `to`.
pub open spec fn blank_between(text: Seq<char>, from: int, to: int) -> bool {
    forall|k: int| from <= k < to ==> is_whitespace(#[trigger] text[k])
}

/// Where new blocks go: at the anchor, or at the start of its line if
/// only white space stands between the two.
pub open spec fn insertion_point(text: Seq<char>) -> int {
    let a = anchor(text);
    let s = line_start(text, a);
    if blank_between(text, s, a) {
        s
    } else {
        a
    }
}

/// `text` with `block` put in at the insertion point.
pub open spec fn spliced(text: Seq<char>, block: Seq<char>) -> Seq<char> {
    let p = insertion_point(text);
    text.take(p) + block + text.skip(p)
}

/// The start of the line of a position lies at or before the position.
pub proof fn lemma_line_start(text: Seq<char>, pos: int)
    requires
        0 <= pos <= text.len(),
    ensures
        0 <= line_start(text, pos) <= pos,
    decreases pos,
{
    if pos > 0 && text[pos - 1] != '\n' {
        lemma_line_start(text, pos - 1);
    }
}

/// The anchor lies within the text.
pub proof fn lemma_anchor_bounds(text: Seq<char>)
    ensures
        0 <= anchor(text) <= text.len(),
{
    lemma_find_from(text, "/begin GROUP"@, 0);
    lemma_rfind_from(text, "/end MEASUREMENT"@, text.len() - "/end MEASUREMENT"@.len());
    lemma_rfind_from(text, "/end CHARACTERISTIC"@, text.len() - "/end CHARACTERISTIC"@.len());
    lemma_rfind_from(text, "/end MODULE"@, text.len() - "/end MODULE"@.len());
}

/// The insertion point lies within the text.
pub proof fn lemma_insertion_point_bounds(text: Seq<char>)
    ensures
        0 <= insertion_point(text) <= text.len(),
{
    lemma_anchor_bounds(text);
    lemma_line_start(text, anchor(text));
}

fn find_word(text: &[char], word: &str) -> (r: Option<usize>)
    ensures
        match r {
            Some(i) => find_first(text@, word@) == Some(i as int),
            None => find_first(text@, word@).is_none(),
        },
{
    let w = chars_of(word);
    find(text, w.as_slice())
}

fn rfind_word(text: &[char], word: &str) -> (r: Option<usize>)
    ensures
        match r {
            Some(i) => find_last(text@, word@) == Some(i as int),
            None => find_last(text@, word@).is_none(),
        },
{
    let w = chars_of(word);
    rfind(text, w.as_slice())
}

/// Where new blocks go in `text`.
pub fn find_insertion_point(text: &[char]) -> (r: usize)
    ensures
        r == insertion_point(text@),
        r <= text.len(),
{
    let a: usize = match find_word(text, "/begin GROUP") {
        Some(p) => p,
        None => match rfind_word(text, "/end MEASUREMENT") {
            Some(p) => p,
            None => match rfind_word(text, "/end CHARACTERISTIC") {
                Some(p) => p,
                None => match rfind_word(text, "/end MODULE") {
                    Some(p) => p,
                    None => text.len(),
                },
            },
        },
    };
    proof {
        lemma_anchor_bounds(text@);
        lemma_insertion_point_bounds(text@);
    }
    let mut s: usize = a;
    while s > 0 && text[s - 1] != '\n'
        invariant
            s <= a <= text.len(),
            line_start(text@, s as int) == line_start(text@, a as int),
        decreases s,
    {
        s -= 1;
    }
    let mut k: usize = s;
    proof {
        assert(line_start(text@, s as int) == s);
    }
    while k < a
        invariant
            s <= k <= a <= text.len(),
            a == anchor(text@),
            s == line_start(text@, a as int),
            blank_between(text@, s as int, k as int),
        decreases a - k,
    {
        if !is_ws(text[k]) {
            proof {
                assert(!is_whitespace(text@[k as int]));
            }
            return a;
        }
        k += 1;
    }
    s
}

/// `text` with `block` put in at the insertion point.
pub fn splice(text: &Vec<char>, block: &[char]) -> (r: Vec<char>)
    ensures
        r@ == spliced(text@, block@),
{
    let p = find_insertion_point(text.as_slice());
    let mut r: Vec<char> = copy_range(text.as_slice(), 0, p);
    push_all(&mut r, block);
    let tail = copy_range(text.as_slice(), p, text.len());
    push_all(&mut r, tail.as_slice());
    proof {
        assert(r@ =~= spliced(text@, block@));
    }
    r
}

/// The entries of `entries` whose name is not among `names`, in order.
pub open spec fn fresh_entries(entries: Seq<EntryView>, names: Seq<Seq<char>>) -> Seq<EntryView>
    decreases entries.len(),
{
    if entries.len() == 0 {
        Seq::empty()
    } else {
        let head = fresh_entries(entries.drop_last(), names);
        if names.contains(entries.last().full_name) {
            head
        } else {
            head.push(entries.last())
        }
    }
}

/// What an append of `entries` to `text` reports.
pub open spec fn append_counts(text: Seq<char>, entries: Seq<EntryView>) -> AppendResult {
    let names = existing_names(text);
    let fresh = fresh_entries(entries, names);
    AppendResult {
        added: fresh.len() as usize,
        skipped: (entries.len() - fresh.len()) as usize,
        existing: names.len() as usize,
    }
}

/// `text` after an append of `entries` as blocks of kind `kind`: the
/// blocks of the entries whose name `text` does not hold yet, put in at
/// the insertion point.
pub open spec fn appended_text(text: Seq<char>, entries: Seq<EntryView>, kind: ExportKind) -> Seq<
    char,
> {
    spliced(text, entry_blocks(fresh_entries(entries, existing_names(text)), kind))
}

impl A2lGenerator {
    /// Appends to `content` the blocks of kind `kind` for the entries whose
    /// name `content` does not hold yet, and reports how many were added,
    /// how many skipped, and how many names `content` held.
    pub fn append_to_file(content: &str, entries: &[A2lEntry], kind: ExportKind) -> (r: (
        String,
        AppendResult,
    ))
        ensures
            r.0@ == appended_text(content@, entry_views(entries@), kind),
            r.1 == append_counts(content@, entry_views(entries@)),
    {
        let text = chars_of(content);
        let all = split_lines(text.as_slice());
        let names = drop_repeats(&names_of_lines(&all));
        let ghost es = entry_views(entries@);
        let ghost known = existing_names(content@);
        let mut blocks: Vec<char> = Vec::new();
        let mut added: usize = 0;
        let mut i: usize = 0;
        proof {
            assert(es.take(0) =~= Seq::<EntryView>::empty());
            assert(blocks@ =~= entry_blocks(fresh_entries(es.take(0), known), kind));
        }
        while i < entries.len()
            invariant
                i <= entries.len(),
                es == entry_views(entries@),
                known == views(names@),
                added == fresh_entries(es.take(i as int), known).len(),
                added <= i,
                blocks@ == entry_blocks(fresh_entries(es.take(i as int), known), kind),
            decreases entries.len() - i,
        {
            proof {
                let next = es.take(i + 1);
                assert(next.drop_last() =~= es.take(i as int));
                assert(next.last() == entries@[i as int]@);
            }
            let name = chars_of(entries[i].full_name.as_str());
            if !listed(&names, name.as_slice()) {
                Self::push_block(&mut blocks, &entries[i], kind);
                added += 1;
                proof {
                    let f = fresh_entries(es.take(i + 1), known);
                    assert(f.drop_last() =~= fresh_entries(es.take(i as int), known));
                }
            }
            i += 1;
        }
        proof {
            assert(es.take(entries.len() as int) =~= es);
        }
        let new_text = splice(&text, blocks.as_slice());
        (
            string_of(new_text.as_slice()),
            AppendResult { added, skipped: entries.len() - added, existing: names.len() },
        )
    }

    /// What `append_to_file` would report for `content` and `entries`.
    pub fn preview_append(content: &str, entries: &[A2lEntry]) -> (r: AppendResult)
        ensures
            r == append_counts(content@, entry_views(entries@)),
    {
        let text = chars_of(content);
        let all = split_lines(text.as_slice());
        let names = drop_repeats(&names_of_lines(&all));
        let ghost es = entry_views(entries@);
        let ghost known = existing_names(content@);
        let mut added: usize = 0;
        let mut i: usize = 0;
        proof {
            assert(es.take(0) =~= Seq::<EntryView>::empty());
        }
        while i < entries.len()
            invariant
                i <= entries.len(),
                es == entry_views(entries@),
                known == views(names@),
                added == fresh_entries(es.take(i as int), known).len(),
                added <= i,
            decreases entries.len() - i,
        {
            proof {
                let next = es.take(i + 1);
                assert(next.drop_last() =~= es.take(i as int));
                assert(next.last() == entries@[i as int]@);
            }
            let name = chars_of(entries[i].full_name.as_str());
            if !listed(&names, name.as_slice()) {
                added += 1;
            }
            i += 1;
        }
        proof {
            assert(es.take(entries.len() as int) =~= es);
        }
        AppendResult { added, skipped: entries.len() - added, existing: names.len() }
    }
}

// ---------------------------------------------------------------------------
// Applying a list of edits
// ---------------------------------------------------------------------------

/// A text and the count of what was done to it.
pub struct Outcome {
    pub text: Seq<char>,
    pub counts: SaveResult,
}

/// The kind of block that an `add` edit asks for: CHARACTERISTIC if its
/// mode is `characteristic`, else MEASUREMENT.
pub open spec fn mode_of(export_mode: Option<Seq<char>>) -> ExportKind {
    if export_mode == Some("characteristic"@) {
        ExportKind::Characteristic
    } else {
        ExportKind::Measurement
    }
}

/// `o` with one more edit counted as skipped.
pub open spec fn skipped(o: Outcome) -> Outcome {
    Outcome {
        text: o.text,
        counts: SaveResult { skipped: (o.counts.skipped + 1) as usize, ..o.counts },
    }
}

/// `o` after a `modify` edit of the block `name` by `changes`.
pub open spec fn after_modify(o: Outcome, name: Seq<char>, changes: Option<ChangesView>)
    -> Option<Outcome> {
    match changes {
        None => Some(o),
        Some(ch) => if name_exists(o.text, name) {
            match modified_text(o.text, name, ch) {
                Some(t) => Some(
                    Outcome {
                        text: t,
                        counts: SaveResult {
                            modified: (o.counts.modified + 1) as usize,
                            ..o.counts
                        },
                    },
                ),
                None => None,
            }
        } else {
            Some(skipped(o))
        },
    }
}

/// `o` after a `delete` edit of the block `name`.
pub open spec fn after_delete(o: Outcome, name: Seq<char>) -> Option<Outcome> {
    if name_exists(o.text, name) {
        match removed_text(o.text, seq![name]) {
            Some(t) => Some(
                Outcome {
                    text: t,
                    counts: SaveResult { deleted: (o.counts.deleted + 1) as usize, ..o.counts },
                },
            ),
            None => None,
        }
    } else {
        Some(skipped(o))
    }
}

/// `o` after an `add` edit of `entry` as a block of kind `kind`.
pub open spec fn after_add(o: Outcome, entry: Option<EntryView>, kind: ExportKind) -> Option<
    Outcome,
> {
    match entry {
        None => Some(o),
        Some(e) => if name_exists(o.text, e.full_name) {
            Some(skipped(o))
        } else {
            Some(
                Outcome {
                    text: spliced(o.text, block_of(e, kind)),
                    counts: SaveResult { added: (o.counts.added + 1) as usize, ..o.counts },
                },
            )
        },
    }
}

/// `o` after the edit `e`. A `modify` or `delete` of a name that the text
/// does not hold, and an `add` of a name that it holds, leave the text as
/// it is and count as skipped. An edit with another action, a `modify`
/// without changes and an `add` without an entry do nothing. `None` if the
/// edit meets a block that is never closed or whose name is a number or a
/// scalar tag.
pub open spec fn after_edit(o: Outcome, e: EditView) -> Option<Outcome> {
    if e.action == "modify"@ {
        after_modify(o, e.original_name, e.changes)
    } else if e.action == "delete"@ {
        after_delete(o, e.original_name)
    } else if e.action == "add"@ {
        after_add(o, e.entry, mode_of(e.export_mode))
    } else {
        Some(o)
    }
}

/// `text` after the first `upto` of `edits`, each applied to what the
/// edits before it left; `None` if one of them fails.
pub open spec fn after_edits(text: Seq<char>, edits: Seq<EditView>, upto: int) -> Option<Outcome>
    decreases upto,
{
    if upto <= 0 || upto > edits.len() {
        Some(
            Outcome {
                text,
                counts: SaveResult { modified: 0, deleted: 0, added: 0, skipped: 0 },
            },
        )
    } else {
        match after_edits(text, edits, upto - 1) {
            Some(o) => after_edit(o, edits[upto - 1]),
            None => None,
        }
    }
}

/// Once an edit has failed, the list has failed.
pub proof fn lemma_failure_stays(text: Seq<char>, edits: Seq<EditView>, k: int, n: int)
    requires
        0 < k <= n <= edits.len(),
        after_edits(text, edits, k).is_none(),
    ensures
        after_edits(text, edits, n).is_none(),
    decreases n - k,
{
    if k < n {
        lemma_failure_stays(text, edits, k, n - 1);
    }
}

/// Whether `text` holds a block named `name`.
pub fn has_name(text: &Vec<char>, name: &[char]) -> (r: bool)
    ensures
        r == name_exists(text@, name@),
{
    let all = split_lines(text.as_slice());
    let names = names_of_lines(&all);
    listed(&names, name)
}

impl A2lGenerator {
    /// Applies `edits` to `content`, one after the other, each to the text
    /// that the edits before it left, and counts what was done. Fails,
    /// with nothing changed, if one of them fails.
    pub fn apply_changes(content: &str, edits: &[VariableEdit]) -> (r: Result<
        (String, SaveResult),
        A2lError,
    >)
        ensures
            match r {
                Ok(done) => after_edits(content@, edit_views(edits@), edits@.len() as int)
                    == Some(Outcome { text: done.0@, counts: done.1 }),
                Err(e) => after_edits(content@, edit_views(edits@), edits@.len() as int).is_none(),
            },
    {
        let mut text = chars_of(content);
        let mut counts = SaveResult { modified: 0, deleted: 0, added: 0, skipped: 0 };
        let ghost es = edit_views(edits@);
        let mut i: usize = 0;
        while i < edits.len()
            invariant
                i <= edits.len(),
                es == edit_views(edits@),
                after_edits(content@, es, i as int) == Some(Outcome { text: text@, counts }),
                counts.modified + counts.deleted + counts.added + counts.skipped <= i,
            decreases edits.len() - i,
        {
            let edit = &edits[i];
            let ghost o = Outcome { text: text@, counts };
            proof {
                assert(es[i as int] == edit@);
                assert(after_edits(content@, es, i + 1) == after_edit(o, edit@));
            }
            let action = chars_of(edit.action.as_str());
            let name = chars_of(edit.original_name.as_str());
            if crate::a2l::is_word(action.as_slice(), "modify") {
                match &edit.changes {
                    None => {},
                    Some(changes) => {
                        if has_name(&text, name.as_slice()) {
                            let all = split_lines(text.as_slice());
                            match edit_lines(&all, &EditRequest::Modify(&name, changes)) {
                                Ok(t) => {
                                    text = t;
                                    counts.modified = counts.modified + 1;
                                },
                                Err(e) => {
                                    proof {
                                        lemma_failure_stays(
                                            content@,
                                            es,
                                            i + 1,
                                            edits@.len() as int,
                                        );
                                    }
                                    return Err(e);
                                },
                            }
                        } else {
                            counts.skipped = counts.skipped + 1;
                        }
                    },
                }
            } else if crate::a2l::is_word(action.as_slice(), "delete") {
                if has_name(&text, name.as_slice()) {
                    let all = split_lines(text.as_slice());
                    let mut wanted: Vec<Vec<char>> = Vec::new();
                    wanted.push(name);
                    proof {
                        assert(views(wanted@) =~= seq![edit.original_name@]);
                    }
                    match edit_lines(&all, &EditRequest::Remove(&wanted)) {
                        Ok(t) => {
                            text = t;
                            counts.deleted = counts.deleted + 1;
                        },
                        Err(e) => {
                            proof {
                                lemma_failure_stays(content@, es, i + 1, edits@.len() as int);
                            }
                            return Err(e);
                        },
                    }
                } else {
                    counts.skipped = counts.skipped + 1;
                }
            } else if crate::a2l::is_word(action.as_slice(), "add") {
                match &edit.entry {
                    None => {},
                    Some(info) => {
                        let subject = chars_of(info.full_name.as_str());
                        if has_name(&text, subject.as_slice()) {
                            counts.skipped = counts.skipped + 1;
                        } else {
                            let kind = if is_given(&edit.export_mode, "characteristic") {
                                ExportKind::Characteristic
                            } else {
                                ExportKind::Measurement
                            };
                            let entry = info.to_entry();
                            let mut block: Vec<char> = Vec::new();
                            Self::push_block(&mut block, &entry, kind);
                            proof {
                                assert(block@ =~= block_of(entry@, kind));
                            }
                            text = splice(&text, block.as_slice());
                            counts.added = counts.added + 1;
                        }
                    },
                }
            }
            i += 1;
        }
        Ok((string_of(text.as_slice()), counts))
    }
}

// ---------------------------------------------------------------------------
// What edits leave alone
// ---------------------------------------------------------------------------

/// The counts of a call that did nothing but skip one edit.
pub open spec fn one_skipped() -> SaveResult {
    SaveResult { modified: 0, deleted: 0, added: 0, skipped: 1 }
}

/// Deleting a name that the text does not hold is no change: the text
/// stays as it is, no block is counted as deleted, and the edit is counted
/// as skipped.
pub proof fn law_delete_of_missing_name(text: Seq<char>, e: EditView)
    requires
        e.action == "delete"@,
        !name_exists(text, e.original_name),
    ensures
        after_edits(text, seq![e], 1) == Some(Outcome { text, counts: one_skipped() }),
{
    reveal_strlit("delete");
    reveal_strlit("modify");
    assert("delete"@[0] != "modify"@[0]);
    let start = Outcome {
        text,
        counts: SaveResult { modified: 0, deleted: 0, added: 0, skipped: 0 },
    };
    assert(after_edits(text, seq![e], 0) == Some(start));
    assert(seq![e][0] == e);
    assert(after_edit(start, e) == after_delete(start, e.original_name));
}

/// Adding an entry whose name the text holds already is no change: the
/// text stays as it is, no block is counted as added, and the edit is
/// counted as skipped.
pub proof fn law_add_of_present_name(text: Seq<char>, e: EditView, entry: EntryView)
    requires
        e.action == "add"@,
        e.entry == Some(entry),
        name_exists(text, entry.full_name),
    ensures
        after_edits(text, seq![e], 1) == Some(Outcome { text, counts: one_skipped() }),
{
    reveal_strlit("add");
    reveal_strlit("delete");
    reveal_strlit("modify");
    assert("add"@.len() != "modify"@.len());
    assert("add"@.len() != "delete"@.len());
    let start = Outcome {
        text,
        counts: SaveResult { modified: 0, deleted: 0, added: 0, skipped: 0 },
    };
    assert(after_edits(text, seq![e], 0) == Some(start));
    assert(seq![e][0] == e);
    assert(after_edit(start, e) == after_add(start, e.entry, mode_of(e.export_mode)));
}

} // verus!
