//! Reading A2L text: which lines open and close blocks, the names of the
//! blocks, and the variables that the blocks describe.

use crate::a2l::{is_word, A2lGenerator, A2lParser, A2lVariable, A2lVariableView, ExportKind};
use crate::number::{is_numeric, is_numeric_literal};
use crate::text::{
    chars_of, lines, same_chars, split_lines, split_tokens, starts_with, string_of, tokens, trim,
    trimmed, views,
};
use vstd::prelude::*;

verus! {

// ---------------------------------------------------------------------------
// Lines that open and close blocks
// ---------------------------------------------------------------------------

/// The word that names a kind of block.
pub open spec fn kind_word(kind: ExportKind) -> Seq<char> {
    match kind {
        ExportKind::Measurement => "MEASUREMENT"@,
        ExportKind::Characteristic => "CHARACTERISTIC"@,
    }
}

/// What the opening line of a block of kind `kind` begins with.
pub open spec fn begin_prefix(kind: ExportKind) -> Seq<char> {
    match kind {
        ExportKind::Measurement => "/begin MEASUREMENT "@,
        ExportKind::Characteristic => "/begin CHARACTERISTIC "@,
    }
}

/// What the closing line of a block of kind `kind` begins with.
pub open spec fn end_prefix(kind: ExportKind) -> Seq<char> {
    match kind {
        ExportKind::Measurement => "/end MEASUREMENT"@,
        ExportKind::Characteristic => "/end CHARACTERISTIC"@,
    }
}

/// The kind of block that `line` opens, if it opens one: white space
/// around it set aside, the line begins with the opening words of that
/// kind.
pub open spec fn begin_kind(line: Seq<char>) -> Option<ExportKind> {
    let t = trim(line);
    if begin_prefix(ExportKind::Measurement).is_prefix_of(t) {
        Some(ExportKind::Measurement)
    } else if begin_prefix(ExportKind::Characteristic).is_prefix_of(t) {
        Some(ExportKind::Characteristic)
    } else {
        None
    }
}

/// Whether `line` closes a block of kind `kind`.
pub open spec fn is_end_line(line: Seq<char>, kind: ExportKind) -> bool {
    end_prefix(kind).is_prefix_of(trim(line))
}

/// Word `k` of `line`; empty if the line has fewer words.
pub open spec fn word(line: Seq<char>, k: int) -> Seq<char> {
    let w = tokens(line);
    if 0 <= k < w.len() {
        w[k]
    } else {
        Seq::empty()
    }
}

/// The words that are scalar tags.
pub open spec fn is_scalar_tag(w: Seq<char>) -> bool {
    ||| w == "UBYTE"@
    ||| w == "SBYTE"@
    ||| w == "UWORD"@
    ||| w == "SWORD"@
    ||| w == "ULONG"@
    ||| w == "SLONG"@
    ||| w == "A_UINT64"@
    ||| w == "A_INT64"@
    ||| w == "FLOAT32_IEEE"@
    ||| w == "FLOAT64_IEEE"@
    ||| w == "FLOAT16"@
    ||| w == "FLOAT64"@
    ||| w == "UFIX16"@
    ||| w == "UFIX32"@
    ||| w == "SFIX16"@
    ||| w == "SFIX32"@
}

/// The scalar tags that have a range of their own: a data type by byte
/// size and encoding.
pub open spec fn is_sized_tag(w: Seq<char>) -> bool {
    ||| w == "UBYTE"@
    ||| w == "SBYTE"@
    ||| w == "UWORD"@
    ||| w == "SWORD"@
    ||| w == "ULONG"@
    ||| w == "SLONG"@
    ||| w == "A_UINT64"@
    ||| w == "A_INT64"@
    ||| w == "FLOAT32_IEEE"@
    ||| w == "FLOAT64_IEEE"@
}

/// A word can name a block if it is not empty, no numeric literal and no
/// scalar tag.
pub open spec fn valid_subject(w: Seq<char>) -> bool {
    w.len() > 0 && !is_numeric_literal(w) && !is_scalar_tag(w)
}

/// The name of the block that `line` opens: its third word, if the line
/// opens a block and that word can name one.
pub open spec fn named_subject(line: Seq<char>) -> Option<Seq<char>> {
    if begin_kind(line) is Some && valid_subject(word(line, 2)) {
        Some(word(line, 2))
    } else {
        None
    }
}

/// The names of the blocks that the lines open, in order.
pub open spec fn subject_names(lines: Seq<Seq<char>>) -> Seq<Seq<char>>
    decreases lines.len(),
{
    if lines.len() == 0 {
        Seq::empty()
    } else {
        match named_subject(lines.last()) {
            Some(name) => subject_names(lines.drop_last()).push(name),
            None => subject_names(lines.drop_last()),
        }
    }
}

/// `s` without the items that stood in it before.
pub open spec fn without_repeats(s: Seq<Seq<char>>) -> Seq<Seq<char>>
    decreases s.len(),
{
    if s.len() == 0 {
        Seq::empty()
    } else {
        let head = without_repeats(s.drop_last());
        if head.contains(s.last()) {
            head
        } else {
            head.push(s.last())
        }
    }
}

/// The names that `text` holds: the names of the blocks that its lines
/// open, each once, in the order of first appearance.
pub open spec fn existing_names(text: Seq<char>) -> Seq<Seq<char>> {
    without_repeats(subject_names(lines(text)))
}

/// Whether `text` holds a block named `name`.
pub open spec fn name_exists(text: Seq<char>, name: Seq<char>) -> bool {
    subject_names(lines(text)).contains(name)
}

/// `without_repeats` keeps every item of `s`, and holds no other.
pub proof fn lemma_without_repeats_contains(s: Seq<Seq<char>>, x: Seq<char>)
    ensures
        without_repeats(s).contains(x) <==> s.contains(x),
    decreases s.len(),
{
    if s.len() > 0 {
        let init = s.drop_last();
        let head = without_repeats(init);
        let full = without_repeats(s);
        lemma_without_repeats_contains(init, x);
        if s.contains(x) {
            let i = choose|i: int| 0 <= i < s.len() && s[i] == x;
            if i < s.len() - 1 {
                assert(init[i] == x);
                assert(init.contains(x));
                let j = choose|j: int| 0 <= j < head.len() && head[j] == x;
                assert(full[j] == x);
            } else if head.contains(x) {
                let j = choose|j: int| 0 <= j < head.len() && head[j] == x;
                assert(full[j] == x);
            } else {
                assert(full.last() == x);
            }
        }
        if full.contains(x) {
            let j = choose|j: int| 0 <= j < full.len() && full[j] == x;
            if j < head.len() {
                assert(head[j] == x);
                assert(head.contains(x));
                let i = choose|i: int| 0 <= i < init.len() && init[i] == x;
                assert(s[i] == x);
            } else {
                assert(s[s.len() - 1] == x);
            }
        }
    }
}

/// `without_repeats` holds nothing twice.
pub proof fn lemma_without_repeats_distinct(s: Seq<Seq<char>>)
    ensures
        without_repeats(s).no_duplicates(),
    decreases s.len(),
{
    if s.len() > 0 {
        lemma_without_repeats_distinct(s.drop_last());
    }
}

/// The kind of block that `line` opens.
pub fn line_begin_kind(line: &[char]) -> (r: Option<ExportKind>)
    ensures
        r == begin_kind(line@),
{
    let t = trimmed(line);
    let m = chars_of("/begin MEASUREMENT ");
    let c = chars_of("/begin CHARACTERISTIC ");
    if starts_with(t.as_slice(), m.as_slice()) {
        Some(ExportKind::Measurement)
    } else if starts_with(t.as_slice(), c.as_slice()) {
        Some(ExportKind::Characteristic)
    } else {
        None
    }
}

/// Whether `line` closes a block of kind `kind`.
pub fn line_is_end(line: &[char], kind: ExportKind) -> (r: bool)
    ensures
        r == is_end_line(line@, kind),
{
    let t = trimmed(line);
    let p = match kind {
        ExportKind::Measurement => chars_of("/end MEASUREMENT"),
        ExportKind::Characteristic => chars_of("/end CHARACTERISTIC"),
    };
    starts_with(t.as_slice(), p.as_slice())
}

/// Whether `w` is a scalar tag.
pub fn is_tag(w: &[char]) -> (r: bool)
    ensures
        r == is_scalar_tag(w@),
{
    is_word(w, "UBYTE") || is_word(w, "SBYTE") || is_word(w, "UWORD") || is_word(w, "SWORD")
        || is_word(w, "ULONG") || is_word(w, "SLONG") || is_word(w, "A_UINT64") || is_word(
        w,
        "A_INT64",
    ) || is_word(w, "FLOAT32_IEEE") || is_word(w, "FLOAT64_IEEE") || is_word(w, "FLOAT16")
        || is_word(w, "FLOAT64") || is_word(w, "UFIX16") || is_word(w, "UFIX32") || is_word(
        w,
        "SFIX16",
    ) || is_word(w, "SFIX32")
}

/// Whether `w` is a scalar tag with a range of its own.
pub fn is_data_tag(w: &[char]) -> (r: bool)
    ensures
        r == is_sized_tag(w@),
{
    is_word(w, "UBYTE") || is_word(w, "SBYTE") || is_word(w, "UWORD") || is_word(w, "SWORD")
        || is_word(w, "ULONG") || is_word(w, "SLONG") || is_word(w, "A_UINT64") || is_word(
        w,
        "A_INT64",
    ) || is_word(w, "FLOAT32_IEEE") || is_word(w, "FLOAT64_IEEE")
}

/// Whether `w` can name a block.
pub fn can_name(w: &[char]) -> (r: bool)
    ensures
        r == valid_subject(w@),
{
    w.len() > 0 && !is_numeric(w) && !is_tag(w)
}

/// Word `k` of the line whose words are `words`.
pub fn word_at(words: &Vec<Vec<char>>, k: usize) -> (r: Vec<char>)
    ensures
        r@ == (if k < words.len() {
            words@[k as int]@
        } else {
            Seq::<char>::empty()
        }),
{
    if k < words.len() {
        let r = crate::text::copy_range(words[k].as_slice(), 0, words[k].len());
        proof {
            assert(r@ =~= words@[k as int]@);
        }
        r
    } else {
        Vec::new()
    }
}

/// The name of the block that `line` opens.
pub fn line_subject(line: &[char]) -> (r: Option<Vec<char>>)
    ensures
        match r {
            Some(name) => named_subject(line@) == Some(name@),
            None => named_subject(line@).is_none(),
        },
{
    match line_begin_kind(line) {
        None => None,
        Some(_) => {
            let words = split_tokens(line);
            let name = word_at(&words, 2);
            proof {
                assert(views(words@) == tokens(line@));
                if 2 < words.len() {
                    assert(views(words@)[2] == words@[2]@);
                }
                assert(name@ == word(line@, 2));
            }
            if can_name(name.as_slice()) {
                Some(name)
            } else {
                None
            }
        },
    }
}

/// Whether one of `list` is `name`.
pub fn listed(list: &Vec<Vec<char>>, name: &[char]) -> (r: bool)
    ensures
        r == views(list@).contains(name@),
{
    let mut i: usize = 0;
    while i < list.len()
        invariant
            i <= list.len(),
            forall|k: int| 0 <= k < i ==> views(list@)[k] != name@,
        decreases list.len() - i,
    {
        if same_chars(list[i].as_slice(), name) {
            assert(views(list@)[i as int] == name@);
            return true;
        }
        i += 1;
    }
    false
}

/// The names of the blocks that the lines `all` open, in order.
pub fn names_of_lines(all: &Vec<Vec<char>>) -> (r: Vec<Vec<char>>)
    ensures
        views(r@) == subject_names(views(all@)),
{
    let mut r: Vec<Vec<char>> = Vec::new();
    let mut i: usize = 0;
    let ghost ls = views(all@);
    proof {
        assert(ls.take(0) =~= Seq::<Seq<char>>::empty());
        assert(views(r@) =~= subject_names(ls.take(0)));
    }
    while i < all.len()
        invariant
            i <= all.len(),
            ls == views(all@),
            views(r@) == subject_names(ls.take(i as int)),
        decreases all.len() - i,
    {
        proof {
            let next = ls.take(i + 1);
            assert(next.drop_last() =~= ls.take(i as int));
            assert(next.last() == all@[i as int]@);
        }
        match line_subject(all[i].as_slice()) {
            Some(name) => {
                let ghost before = r@;
                r.push(name);
                proof {
                    assert(views(r@) =~= views(before).push(name@));
                }
            },
            None => {},
        }
        i += 1;
    }
    proof {
        assert(ls.take(all.len() as int) =~= ls);
    }
    r
}

/// `names` without the items that stood in it before.
pub fn drop_repeats(names: &Vec<Vec<char>>) -> (r: Vec<Vec<char>>)
    ensures
        views(r@) == without_repeats(views(names@)),
{
    let mut r: Vec<Vec<char>> = Vec::new();
    let mut i: usize = 0;
    let ghost ns = views(names@);
    proof {
        assert(ns.take(0) =~= Seq::<Seq<char>>::empty());
        assert(views(r@) =~= without_repeats(ns.take(0)));
    }
    while i < names.len()
        invariant
            i <= names.len(),
            ns == views(names@),
            views(r@) == without_repeats(ns.take(i as int)),
        decreases names.len() - i,
    {
        proof {
            let next = ns.take(i + 1);
            assert(next.drop_last() =~= ns.take(i as int));
            assert(next.last() == names@[i as int]@);
        }
        if !listed(&r, names[i].as_slice()) {
            let ghost before = r@;
            let copy = crate::text::copy_range(names[i].as_slice(), 0, names[i].len());
            r.push(copy);
            proof {
                assert(copy@ =~= names@[i as int]@);
                assert(views(r@) =~= views(before).push(names@[i as int]@));
            }
        }
        i += 1;
    }
    proof {
        assert(ns.take(names.len() as int) =~= ns);
    }
    r
}

/// The views of a list of strings.
pub open spec fn string_views(v: Seq<String>) -> Seq<Seq<char>> {
    Seq::new(v.len(), |i: int| v[i]@)
}

/// The strings for a list of character vectors.
pub fn strings_of(v: &Vec<Vec<char>>) -> (r: Vec<String>)
    ensures
        string_views(r@) == views(v@),
{
    let mut r: Vec<String> = Vec::new();
    let mut i: usize = 0;
    while i < v.len()
        invariant
            i <= v.len(),
            r.len() == i,
            forall|k: int| 0 <= k < i ==> (#[trigger] r@[k])@ == v@[k]@,
        decreases v.len() - i,
    {
        r.push(string_of(v[i].as_slice()));
        i += 1;
    }
    proof {
        assert(string_views(r@) =~= views(v@));
    }
    r
}

impl A2lGenerator {
    /// The names that `content` holds: the names of the blocks that its
    /// lines open, each once, in the order of first appearance.
    pub fn parse_existing_names(content: &str) -> (r: Vec<String>)
        ensures
            string_views(r@) == existing_names(content@),
            string_views(r@).no_duplicates(),
            forall|name: Seq<char>|
                string_views(r@).contains(name) <==> name_exists(content@, name),
    {
        let text = chars_of(content);
        let all = split_lines(text.as_slice());
        let names = names_of_lines(&all);
        let unique = drop_repeats(&names);
        proof {
            let found = subject_names(lines(content@));
            lemma_without_repeats_distinct(found);
            assert forall|name: Seq<char>|
                without_repeats(found).contains(name) <==> found.contains(name) by {
                lemma_without_repeats_contains(found, name);
            }
        }
        strings_of(&unique)
    }
}


// ---------------------------------------------------------------------------
// Reading one block
// ---------------------------------------------------------------------------

/// What has been read of a block so far.
pub struct BlockState {
    pub name: Seq<char>,
    pub found: bool,
    pub address: Option<Seq<char>>,
    pub data_type: Seq<char>,
}

/// The first position at or after `i` where `key` stands among `words`.
pub open spec fn index_from(words: Seq<Seq<char>>, key: Seq<char>, i: int) -> Option<int>
    decreases words.len() - i,
{
    if i < 0 || i >= words.len() {
        None
    } else if words[i] == key {
        Some(i)
    } else {
        index_from(words, key, i + 1)
    }
}

/// The word that follows the first `key` among `words`.
pub open spec fn follower(words: Seq<Seq<char>>, key: Seq<char>) -> Option<Seq<char>> {
    match index_from(words, key, 0) {
        Some(p) => if p + 1 < words.len() {
            Some(words[p + 1])
        } else {
            None
        },
        None => None,
    }
}

/// `st` with the address `found`, if there is one.
pub open spec fn with_address(st: BlockState, found: Option<Seq<char>>) -> BlockState {
    match found {
        Some(a) => BlockState { address: Some(a), ..st },
        None => st,
    }
}

/// What is known of a block of kind `kind` after one more of its lines.
/// The opening line gives the name, if its third word can be one. Other
/// lines that begin with `/` and empty lines give nothing. Of any other
/// line, the first word is the name if none was found yet and the word can
/// be one; it is the data type if it is a scalar tag and more words follow;
/// the word after `ECU_ADDRESS`, and in a CHARACTERISTIC the word after
/// `VALUE`, is the address.
pub open spec fn block_step(st: BlockState, line: Seq<char>, kind: ExportKind) -> BlockState {
    let t = trim(line);
    let w = tokens(t);
    if t.len() == 0 {
        st
    } else if begin_kind(t) is Some {
        if valid_subject(word(t, 2)) {
            BlockState { name: word(t, 2), found: true, ..st }
        } else {
            st
        }
    } else if t[0] == '/' || w.len() == 0 {
        st
    } else {
        let named = if !st.found && !is_numeric_literal(w[0]) && !is_scalar_tag(w[0]) {
            BlockState { name: w[0], found: true, ..st }
        } else {
            st
        };
        let typed = if w.len() >= 2 && is_scalar_tag(w[0]) {
            BlockState { data_type: w[0], ..named }
        } else {
            named
        };
        let addressed = with_address(typed, follower(w, "ECU_ADDRESS"@));
        if kind == ExportKind::Characteristic {
            with_address(addressed, follower(w, "VALUE"@))
        } else {
            addressed
        }
    }
}

/// What is known of a block of kind `kind` after all of `lines`.
pub open spec fn block_fold(lines: Seq<Seq<char>>, kind: ExportKind) -> BlockState
    decreases lines.len(),
{
    if lines.len() == 0 {
        BlockState { name: Seq::empty(), found: false, address: None, data_type: Seq::empty() }
    } else {
        block_step(block_fold(lines.drop_last(), kind), lines.last(), kind)
    }
}

/// The variable that the block `lines` of kind `kind` describes.
pub open spec fn parsed_block(lines: Seq<Seq<char>>, kind: ExportKind) -> A2lVariableView {
    let st = block_fold(lines, kind);
    A2lVariableView {
        name: st.name,
        address: st.address,
        var_type: kind_word(kind),
        data_type: st.data_type,
    }
}

/// The word that follows the first `key` among `words`.
pub fn word_after(words: &Vec<Vec<char>>, key: &str) -> (r: Option<Vec<char>>)
    ensures
        match r {
            Some(a) => follower(views(words@), key@) == Some(a@),
            None => follower(views(words@), key@).is_none(),
        },
{
    let k = chars_of(key);
    let mut i: usize = 0;
    let ghost ws = views(words@);
    while i < words.len()
        invariant
            i <= words.len(),
            ws == views(words@),
            k@ == key@,
            index_from(ws, key@, i as int) == index_from(ws, key@, 0),
        decreases words.len() - i,
    {
        if same_chars(words[i].as_slice(), k.as_slice()) {
            proof {
                assert(ws[i as int] == words@[i as int]@);
            }
            if i + 1 < words.len() {
                let a = word_at(words, i + 1);
                proof {
                    assert(ws[i + 1] == words@[i + 1]@);
                }
                return Some(a);
            } else {
                return None;
            }
        }
        proof {
            assert(ws[i as int] == words@[i as int]@);
        }
        i += 1;
    }
    None
}

fn copy_chars(v: &Vec<char>) -> (r: Vec<char>)
    ensures
        r@ == v@,
{
    let r = crate::text::copy_range(v.as_slice(), 0, v.len());
    proof {
        assert(r@ =~= v@);
    }
    r
}

impl A2lParser {
    /// The variable that the block `block_lines` of kind `kind` describes.
    pub fn parse_variable_block(block_lines: &Vec<Vec<char>>, kind: ExportKind) -> (r:
        A2lVariable)
        ensures
            r@ == parsed_block(views(block_lines@), kind),
    {
        let mut name: Vec<char> = Vec::new();
        let mut found: bool = false;
        let mut address: Option<Vec<char>> = None;
        let mut data_type: Vec<char> = Vec::new();
        let ghost ls = views(block_lines@);
        let mut i: usize = 0;
        proof {
            assert(ls.take(0) =~= Seq::<Seq<char>>::empty());
        }
        while i < block_lines.len()
            invariant
                i <= block_lines.len(),
                ls == views(block_lines@),
                block_fold(ls.take(i as int), kind) == (BlockState {
                    name: name@,
                    found,
                    address: match address {
                        Some(a) => Some(a@),
                        None => None,
                    },
                    data_type: data_type@,
                }),
            decreases block_lines.len() - i,
        {
            proof {
                let next = ls.take(i + 1);
                assert(next.drop_last() =~= ls.take(i as int));
                assert(next.last() == block_lines@[i as int]@);
            }
            let t = trimmed(block_lines[i].as_slice());
            let w = split_tokens(t.as_slice());
            if t.len() == 0 {
            } else if line_begin_kind(t.as_slice()).is_some() {
                let candidate = word_at(&w, 2);
                proof {
                    if 2 < w.len() {
                        assert(views(w@)[2] == w@[2]@);
                    }
                    assert(candidate@ == word(t@, 2));
                }
                if can_name(candidate.as_slice()) {
                    name = candidate;
                    found = true;
                }
            } else if t[0] == '/' || w.len() == 0 {
            } else {
                proof {
                    assert(views(w@)[0] == w@[0]@);
                }
                if !found && !is_numeric(w[0].as_slice()) && !is_tag(w[0].as_slice()) {
                    name = copy_chars(&w[0]);
                    found = true;
                }
                if w.len() >= 2 && is_tag(w[0].as_slice()) {
                    data_type = copy_chars(&w[0]);
                }
                match word_after(&w, "ECU_ADDRESS") {
                    Some(a) => {
                        address = Some(a);
                    },
                    None => {},
                }
                match kind {
                    ExportKind::Characteristic => {
                        match word_after(&w, "VALUE") {
                            Some(a) => {
                                address = Some(a);
                            },
                            None => {},
                        }
                    },
                    ExportKind::Measurement => {},
                }
            }
            i += 1;
        }
        proof {
            assert(ls.take(block_lines.len() as int) =~= ls);
        }
        let kind_name = match kind {
            ExportKind::Measurement => "MEASUREMENT",
            ExportKind::Characteristic => "CHARACTERISTIC",
        };
        A2lVariable {
            name: string_of(name.as_slice()),
            address: match address {
                Some(a) => Some(string_of(a.as_slice())),
                None => None,
            },
            var_type: kind_name.to_owned(),
            data_type: string_of(data_type.as_slice()),
        }
    }
}

// ---------------------------------------------------------------------------
// Reading all blocks
// ---------------------------------------------------------------------------

/// Where the reader stands: the kind of the block it is in, the lines of
/// that block so far, and the variables read.
pub struct ScanState {
    pub mode: Option<ExportKind>,
    pub current: Seq<Seq<char>>,
    pub out: Seq<A2lVariableView>,
}

/// The reader after a line that closes a block of kind `kind`: inside a
/// block of that kind, the block is read and left; the lines gathered are
/// dropped either way.
pub open spec fn scan_close(s: ScanState, kind: ExportKind) -> ScanState {
    if s.mode == Some(kind) {
        ScanState { mode: None, current: Seq::empty(), out: s.out.push(parsed_block(s.current, kind)) }
    } else {
        ScanState { mode: s.mode, current: Seq::empty(), out: s.out }
    }
}

/// The reader after one more line. A line that opens a block starts a new
/// block with that line; a line that closes one ends it; any other line
/// inside a block is gathered without the white space around it.
pub open spec fn scan_step(s: ScanState, line: Seq<char>) -> ScanState {
    match begin_kind(line) {
        Some(k) => ScanState { mode: Some(k), current: seq![trim(line)], out: s.out },
        None => if is_end_line(line, ExportKind::Measurement) {
            scan_close(s, ExportKind::Measurement)
        } else if is_end_line(line, ExportKind::Characteristic) {
            scan_close(s, ExportKind::Characteristic)
        } else if s.mode is Some {
            ScanState { current: s.current.push(trim(line)), ..s }
        } else {
            s
        },
    }
}

/// The reader after all of `lines`.
pub open spec fn scan_fold(lines: Seq<Seq<char>>) -> ScanState
    decreases lines.len(),
{
    if lines.len() == 0 {
        ScanState { mode: None, current: Seq::empty(), out: Seq::empty() }
    } else {
        scan_step(scan_fold(lines.drop_last()), lines.last())
    }
}

/// The variables that the blocks of `text` describe, in order.
pub open spec fn parsed_variables(text: Seq<char>) -> Seq<A2lVariableView> {
    scan_fold(lines(text)).out
}

/// The views of a list of variables read back.
pub open spec fn read_views(v: Seq<A2lVariable>) -> Seq<A2lVariableView> {
    Seq::new(v.len(), |i: int| v[i]@)
}

/// The names of the MEASUREMENT blocks that the lines open, in order: the
/// third word of each line that opens one, where that word can name a
/// block. A name that several lines give stands once for each.
pub open spec fn measurement_names(lines: Seq<Seq<char>>) -> Seq<Seq<char>>
    decreases lines.len(),
{
    if lines.len() == 0 {
        Seq::empty()
    } else {
        let head = measurement_names(lines.drop_last());
        if begin_kind(lines.last()) == Some(ExportKind::Measurement) {
            match named_subject(lines.last()) {
                Some(name) => head.push(name),
                None => head,
            }
        } else {
            head
        }
    }
}

impl A2lParser {
    /// The names of the MEASUREMENT blocks of `content`, in the order of
    /// the text: the third word of each opening line.
    pub fn parse_measurement_names(content: &str) -> (r: Vec<String>)
        ensures
            string_views(r@) == measurement_names(lines(content@)),
    {
        let text = chars_of(content);
        let all = split_lines(text.as_slice());
        let ghost ls = views(all@);
        let mut names: Vec<Vec<char>> = Vec::new();
        let mut i: usize = 0;
        proof {
            assert(ls.take(0) =~= Seq::<Seq<char>>::empty());
            assert(views(names@) =~= measurement_names(ls.take(0)));
        }
        while i < all.len()
            invariant
                i <= all.len(),
                ls == views(all@),
                views(names@) == measurement_names(ls.take(i as int)),
            decreases all.len() - i,
        {
            proof {
                let next = ls.take(i + 1);
                assert(next.drop_last() =~= ls.take(i as int));
                assert(next.last() == all@[i as int]@);
            }
            match line_begin_kind(all[i].as_slice()) {
                Some(ExportKind::Measurement) => {
                    match line_subject(all[i].as_slice()) {
                        Some(name) => {
                            let ghost before = names@;
                            names.push(name);
                            proof {
                                assert(views(names@) =~= views(before).push(name@));
                            }
                        },
                        None => {},
                    }
                },
                _ => {},
            }
            i += 1;
        }
        proof {
            assert(ls.take(all.len() as int) =~= ls);
        }
        strings_of(&names)
    }

    /// The variables that the MEASUREMENT and CHARACTERISTIC blocks of
    /// `content` describe, in order.
    pub fn parse_all_variables(content: &str) -> (r: Vec<A2lVariable>)
        ensures
            read_views(r@) == parsed_variables(content@),
    {
        let text = chars_of(content);
        let all = split_lines(text.as_slice());
        let ghost ls = views(all@);
        let mut out: Vec<A2lVariable> = Vec::new();
        let mut mode: Option<ExportKind> = None;
        let mut current: Vec<Vec<char>> = Vec::new();
        let mut i: usize = 0;
        proof {
            assert(ls.take(0) =~= Seq::<Seq<char>>::empty());
            assert(views(current@) =~= Seq::<Seq<char>>::empty());
            assert(read_views(out@) =~= Seq::<A2lVariableView>::empty());
        }
        while i < all.len()
            invariant
                i <= all.len(),
                ls == views(all@),
                scan_fold(ls.take(i as int)) == (ScanState {
                    mode,
                    current: views(current@),
                    out: read_views(out@),
                }),
            decreases all.len() - i,
        {
            proof {
                let next = ls.take(i + 1);
                assert(next.drop_last() =~= ls.take(i as int));
                assert(next.last() == all@[i as int]@);
            }
            let line = all[i].as_slice();
            match line_begin_kind(line) {
                Some(k) => {
                    mode = Some(k);
                    current = Vec::new();
                    let t = trimmed(line);
                    current.push(t);
                    proof {
                        assert(views(current@) =~= seq![trim(line@)]);
                    }
                },
                None => {
                    if line_is_end(line, ExportKind::Measurement) {
                        match mode {
                            Some(ExportKind::Measurement) => {
                                let ghost before = out@;
                                let v = Self::parse_variable_block(
                                    &current,
                                    ExportKind::Measurement,
                                );
                                out.push(v);
                                mode = None;
                                proof {
                                    assert(read_views(out@) =~= read_views(before).push(v@));
                                }
                            },
                            _ => {},
                        }
                        current = Vec::new();
                        proof {
                            assert(views(current@) =~= Seq::<Seq<char>>::empty());
                        }
                    } else if line_is_end(line, ExportKind::Characteristic) {
                        match mode {
                            Some(ExportKind::Characteristic) => {
                                let ghost before = out@;
                                let v = Self::parse_variable_block(
                                    &current,
                                    ExportKind::Characteristic,
                                );
                                out.push(v);
                                mode = None;
                                proof {
                                    assert(read_views(out@) =~= read_views(before).push(v@));
                                }
                            },
                            _ => {},
                        }
                        current = Vec::new();
                        proof {
                            assert(views(current@) =~= Seq::<Seq<char>>::empty());
                        }
                    } else if mode.is_some() {
                        let ghost before = current@;
                        let t = trimmed(line);
                        current.push(t);
                        proof {
                            assert(views(current@) =~= views(before).push(trim(line@)));
                        }
                    }
                },
            }
            i += 1;
        }
        proof {
            assert(ls.take(all.len() as int) =~= ls);
        }
        out
    }
}

} // verus!
