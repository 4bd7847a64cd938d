//! A2L text: the edit records, the scalar-tag tables and the emitter of
//! MEASUREMENT and CHARACTERISTIC blocks.

use crate::number::{decimal, hex_upper, push_decimal, push_number, zero_padded};
use crate::text::{
    chars_of, lemma_unlines_concat, lowercase_of, push_all, push_str, push_text_line, same_chars,
    string_of, text_line, unlines, views,
};
use crate::types::{
    entry_views, infer_a2l_type, tag_for_lowered, variable_views, A2lEntry, EntryView, Variable,
    VariableView,
};
use vstd::prelude::*;

verus! {

// ---------------------------------------------------------------------------
// Records
// ---------------------------------------------------------------------------

/// What to change of one block; `None` leaves a field as it is.
#[derive(Debug)]
pub struct VariableChanges {
    pub name: Option<String>,
    pub address: Option<String>,
    pub data_type: Option<String>,
    pub var_type: Option<String>,
    pub bit_mask: Option<String>,
}

/// One edit: `action` is `modify`, `delete` or `add`.
#[derive(Debug)]
pub struct VariableEdit {
    pub action: String,
    pub original_name: String,
    pub changes: Option<VariableChanges>,
    pub entry: Option<A2lEntryInfo>,
    pub export_mode: Option<String>,
}

/// The leaf that an `add` edit carries.
#[derive(Debug)]
pub struct A2lEntryInfo {
    pub full_name: String,
    pub address: u64,
    pub size: usize,
    pub a2l_type: String,
    pub ty_name: String,
    pub bit_offset: Option<usize>,
    pub bit_size: Option<usize>,
}

impl A2lEntryInfo {
    /// The catalogue entry that the record stands for.
    pub open spec fn entry(&self) -> EntryView {
        EntryView {
            full_name: self.full_name@,
            address: self.address,
            size: self.size,
            a2l_type: self.a2l_type@,
            ty_name: self.ty_name@,
            bit_offset: self.bit_offset,
            bit_size: self.bit_size,
            array_index: None,
        }
    }

    /// The catalogue entry that the record stands for.
    pub fn to_entry(&self) -> (r: A2lEntry)
        ensures
            r@ == self.entry(),
    {
        A2lEntry {
            full_name: self.full_name.clone(),
            address: self.address,
            size: self.size,
            a2l_type: self.a2l_type.clone(),
            ty_name: self.ty_name.clone(),
            bit_offset: self.bit_offset,
            bit_size: self.bit_size,
            array_index: None,
        }
    }
}

/// How many edits of each outcome one call applied.
#[derive(Debug, Clone, Copy, PartialEq, Eq, Structural)]
pub struct SaveResult {
    pub modified: usize,
    pub deleted: usize,
    pub added: usize,
    pub skipped: usize,
}

/// What an append did: blocks added, leaves skipped as already present,
/// and how many names the text held before.
#[derive(Debug, Clone, Copy, PartialEq, Eq, Structural)]
pub struct AppendResult {
    pub added: usize,
    pub skipped: usize,
    pub existing: usize,
}

/// The two kinds of block.
#[derive(Debug, Clone, Copy, PartialEq, Eq, Structural)]
pub enum ExportKind {
    Measurement,
    Characteristic,
}

/// Why a text cannot be edited.
#[derive(Debug, Clone, Copy, PartialEq, Eq, Structural)]
pub enum A2lError {
    /// A block has no closing line, or the subject on its opening line is a
    /// number or a scalar tag.
    InvalidA2lFile,
}

impl A2lError {
    /// A short description of the failure.
    pub fn to_string(&self) -> (r: String)
        ensures
            r@ == "the A2L text holds a block that is not closed or not named"@,
    {
        "the A2L text holds a block that is not closed or not named".to_owned()
    }
}

/// One block as read back from a text.
#[derive(Debug)]
pub struct A2lVariable {
    pub name: String,
    pub address: Option<String>,
    pub var_type: String,
    pub data_type: String,
}

/// What an `A2lVariable` holds.
pub struct A2lVariableView {
    pub name: Seq<char>,
    pub address: Option<Seq<char>>,
    pub var_type: Seq<char>,
    pub data_type: Seq<char>,
}

impl View for A2lVariable {
    type V = A2lVariableView;

    open spec fn view(&self) -> A2lVariableView {
        A2lVariableView {
            name: self.name@,
            address: match self.address {
                Some(a) => Some(a@),
                None => None,
            },
            var_type: self.var_type@,
            data_type: self.data_type@,
        }
    }
}

impl Clone for A2lVariable {
    fn clone(&self) -> (r: Self)
        ensures
            r@ == self@,
    {
        A2lVariable {
            name: self.name.clone(),
            address: match &self.address {
                Some(a) => Some(a.clone()),
                None => None,
            },
            var_type: self.var_type.clone(),
            data_type: self.data_type.clone(),
        }
    }
}

/// Collects variables and catalogue entries and renders them as A2L text.
pub struct A2lGenerator {
    pub(crate) project_name: String,
    pub(crate) module_name: String,
    pub(crate) variables: Vec<Variable>,
    pub(crate) entries: Vec<A2lEntry>,
}

/// Reads blocks back from A2L text.
pub struct A2lParser;

// ---------------------------------------------------------------------------
// Scalar-tag tables
// ---------------------------------------------------------------------------

/// The record layout of a CHARACTERISTIC with the scalar tag `tag`.
pub open spec fn record_layout(tag: Seq<char>) -> Seq<char> {
    if tag == "UBYTE"@ {
        "__UByte_Value"@
    } else if tag == "SBYTE"@ {
        "__SByte_Value"@
    } else if tag == "UWORD"@ {
        "__UWord_Value"@
    } else if tag == "SWORD"@ {
        "__SWord_Value"@
    } else if tag == "ULONG"@ {
        "__ULong_Value"@
    } else if tag == "SLONG"@ {
        "__SLong_Value"@
    } else if tag == "A_UINT64"@ {
        "__UInt64_Value"@
    } else if tag == "A_INT64"@ {
        "__Int64_Value"@
    } else if tag == "FLOAT32_IEEE"@ {
        "__Float32_Value"@
    } else if tag == "FLOAT64_IEEE"@ {
        "__Float64_Value"@
    } else {
        "__ULong_Value"@
    }
}

/// The display format of a value with the scalar tag `tag`.
pub open spec fn format_string(tag: Seq<char>) -> Seq<char> {
    if tag == "UBYTE"@ || tag == "SBYTE"@ {
        "%3.0"@
    } else if tag == "UWORD"@ || tag == "SWORD"@ {
        "%5.0"@
    } else if tag == "ULONG"@ || tag == "SLONG"@ {
        "%10.0"@
    } else if tag == "A_UINT64"@ || tag == "A_INT64"@ {
        "%20.0"@
    } else if tag == "FLOAT32_IEEE"@ {
        "%10.4"@
    } else if tag == "FLOAT64_IEEE"@ {
        "%16.8"@
    } else {
        "%10.0"@
    }
}

/// The least value of the scalar tag `tag`, as text.
pub open spec fn min_text(tag: Seq<char>) -> Seq<char> {
    if tag == "UBYTE"@ {
        "0"@
    } else if tag == "SBYTE"@ {
        "-128"@
    } else if tag == "UWORD"@ {
        "0"@
    } else if tag == "SWORD"@ {
        "-32768"@
    } else if tag == "ULONG"@ {
        "0"@
    } else if tag == "SLONG"@ {
        "-2147483648"@
    } else if tag == "A_UINT64"@ {
        "0"@
    } else if tag == "A_INT64"@ {
        "-9223372036854775808"@
    } else if tag == "FLOAT32_IEEE"@ {
        "-3.4E38"@
    } else if tag == "FLOAT64_IEEE"@ {
        "-1.7E308"@
    } else {
        "0"@
    }
}

/// The greatest value of the scalar tag `tag`, as text.
pub open spec fn max_text(tag: Seq<char>) -> Seq<char> {
    if tag == "UBYTE"@ {
        "255"@
    } else if tag == "SBYTE"@ {
        "127"@
    } else if tag == "UWORD"@ {
        "65535"@
    } else if tag == "SWORD"@ {
        "32767"@
    } else if tag == "ULONG"@ {
        "4294967295"@
    } else if tag == "SLONG"@ {
        "2147483647"@
    } else if tag == "A_UINT64"@ {
        "18446744073709551615"@
    } else if tag == "A_INT64"@ {
        "9223372036854775807"@
    } else if tag == "FLOAT32_IEEE"@ {
        "3.4E38"@
    } else if tag == "FLOAT64_IEEE"@ {
        "1.7E308"@
    } else {
        "0"@
    }
}

/// The greatest value of a bitfield of `bit_size` bits.
pub open spec fn bitfield_max(bit_size: usize) -> u64 {
    if bit_size >= 64 {
        u64::MAX
    } else {
        ((1u64 << (bit_size as u64)) - 1) as u64
    }
}

/// The mask of a bitfield of `bit_size` bits at `bit_offset`: the bits of
/// the bitfield within a 64-bit word.
pub open spec fn bitfield_mask(bit_offset: usize, bit_size: usize) -> u64 {
    if bit_offset >= 64 {
        0
    } else {
        bitfield_max(bit_size) << (bit_offset as u64)
    }
}

/// The mask of an entry: that of its bitfield, and 0 where offset or size
/// is missing.
pub open spec fn mask_of(bit_offset: Option<usize>, bit_size: Option<usize>) -> u64 {
    match (bit_offset, bit_size) {
        (Some(o), Some(w)) => bitfield_mask(o, w),
        _ => 0,
    }
}

/// Whether `s` is the text `word`.
pub fn is_word(s: &[char], word: &str) -> (r: bool)
    ensures
        r == (s@ == word@),
{
    let w = chars_of(word);
    same_chars(s, w.as_slice())
}

impl A2lGenerator {
    /// The record layout of a CHARACTERISTIC with the scalar tag `a2l_type`.
    pub fn get_record_layout(a2l_type: &str) -> (r: &'static str)
        ensures
            r@ == record_layout(a2l_type@),
    {
        let t = chars_of(a2l_type);
        let t = t.as_slice();
        if is_word(t, "UBYTE") {
            "__UByte_Value"
        } else if is_word(t, "SBYTE") {
            "__SByte_Value"
        } else if is_word(t, "UWORD") {
            "__UWord_Value"
        } else if is_word(t, "SWORD") {
            "__SWord_Value"
        } else if is_word(t, "ULONG") {
            "__ULong_Value"
        } else if is_word(t, "SLONG") {
            "__SLong_Value"
        } else if is_word(t, "A_UINT64") {
            "__UInt64_Value"
        } else if is_word(t, "A_INT64") {
            "__Int64_Value"
        } else if is_word(t, "FLOAT32_IEEE") {
            "__Float32_Value"
        } else if is_word(t, "FLOAT64_IEEE") {
            "__Float64_Value"
        } else {
            "__ULong_Value"
        }
    }

    /// The display format of a value with the scalar tag `a2l_type`.
    pub fn get_format_string(a2l_type: &str) -> (r: &'static str)
        ensures
            r@ == format_string(a2l_type@),
    {
        let t = chars_of(a2l_type);
        let t = t.as_slice();
        if is_word(t, "UBYTE") || is_word(t, "SBYTE") {
            "%3.0"
        } else if is_word(t, "UWORD") || is_word(t, "SWORD") {
            "%5.0"
        } else if is_word(t, "ULONG") || is_word(t, "SLONG") {
            "%10.0"
        } else if is_word(t, "A_UINT64") || is_word(t, "A_INT64") {
            "%20.0"
        } else if is_word(t, "FLOAT32_IEEE") {
            "%10.4"
        } else if is_word(t, "FLOAT64_IEEE") {
            "%16.8"
        } else {
            "%10.0"
        }
    }

    /// The range of the scalar tag `a2l_type`, as text.
    pub fn get_min_max(a2l_type: &str) -> (r: (&'static str, &'static str))
        ensures
            r.0@ == min_text(a2l_type@),
            r.1@ == max_text(a2l_type@),
    {
        let t = chars_of(a2l_type);
        let t = t.as_slice();
        if is_word(t, "UBYTE") {
            ("0", "255")
        } else if is_word(t, "SBYTE") {
            ("-128", "127")
        } else if is_word(t, "UWORD") {
            ("0", "65535")
        } else if is_word(t, "SWORD") {
            ("-32768", "32767")
        } else if is_word(t, "ULONG") {
            ("0", "4294967295")
        } else if is_word(t, "SLONG") {
            ("-2147483648", "2147483647")
        } else if is_word(t, "A_UINT64") {
            ("0", "18446744073709551615")
        } else if is_word(t, "A_INT64") {
            ("-9223372036854775808", "9223372036854775807")
        } else if is_word(t, "FLOAT32_IEEE") {
            ("-3.4E38", "3.4E38")
        } else if is_word(t, "FLOAT64_IEEE") {
            ("-1.7E308", "1.7E308")
        } else {
            ("0", "0")
        }
    }

    /// The greatest value of a bitfield of `bit_size` bits.
    pub fn get_bitfield_max(bit_size: usize) -> (r: u64)
        ensures
            r == bitfield_max(bit_size),
    {
        if bit_size >= 64 {
            u64::MAX
        } else {
            let one: u64 = 1;
            let shift: u64 = bit_size as u64;
            let top: u64 = one << shift;
            proof {
                assert(1u64 << shift >= 1) by (bit_vector)
                    requires
                        shift < 64,
                ;
            }
            top - 1
        }
    }

    /// The mask of a bitfield; 0 where offset or size is missing.
    pub fn calculate_bit_mask(bit_offset: Option<usize>, bit_size: Option<usize>) -> (r: u64)
        ensures
            r == mask_of(bit_offset, bit_size),
    {
        match (bit_offset, bit_size) {
            (Some(offset), Some(size)) => {
                if offset >= 64 {
                    0
                } else {
                    let shift: u64 = offset as u64;
                    Self::get_bitfield_max(size) << shift
                }
            },
            _ => 0,
        }
    }
}


// ---------------------------------------------------------------------------
// The emitter
// ---------------------------------------------------------------------------

/// The least value of the entry `e`, as text: 0 for a bitfield, else that
/// of its scalar tag.
pub open spec fn entry_min(e: EntryView) -> Seq<char> {
    match e.bit_size {
        Some(w) => "0"@,
        None => min_text(e.a2l_type),
    }
}

/// The greatest value of the entry `e`, as text: that of its bits for a
/// bitfield, else that of its scalar tag.
pub open spec fn entry_max(e: EntryView) -> Seq<char> {
    match e.bit_size {
        Some(w) => decimal(bitfield_max(w) as nat),
        None => max_text(e.a2l_type),
    }
}

/// An address as text: `0x` and at least eight upper-case hexadecimal
/// digits.
pub open spec fn address_text(addr: u64) -> Seq<char> {
    "0x"@ + zero_padded(hex_upper(addr as nat), 8)
}

/// `s` between double quotes.
pub open spec fn quoted(s: Seq<char>) -> Seq<char> {
    seq!['"'] + s + seq!['"']
}

/// The mask of the entry `e` as text: `0x` and upper-case hexadecimal
/// digits.
pub open spec fn mask_text(e: EntryView) -> Seq<char> {
    "0x"@ + hex_upper(mask_of(e.bit_offset, e.bit_size) as nat)
}

/// The BIT_MASK line of the entry `e`; none where `e` is no bitfield.
pub open spec fn mask_lines(e: EntryView) -> Seq<Seq<char>> {
    if e.is_bitfield() {
        seq![text_line(6, seq!["BIT_MASK"@, mask_text(e)])]
    } else {
        Seq::empty()
    }
}

/// The lines of the MEASUREMENT block for the entry `e`; the last one is
/// empty.
pub open spec fn measurement_lines(e: EntryView) -> Seq<Seq<char>> {
    seq![
        text_line(4, seq!["/begin"@, "MEASUREMENT"@, e.full_name, "\"\""@]),
        text_line(
            6,
            seq![e.a2l_type, "NO_COMPU_METHOD"@, "0"@, "0"@, entry_min(e), entry_max(e)],
        ),
    ] + mask_lines(e) + seq![
        text_line(6, seq!["ECU_ADDRESS"@, address_text(e.address)]),
        text_line(6, seq!["ECU_ADDRESS_EXTENSION"@, "0x0"@]),
        text_line(6, seq!["FORMAT"@, quoted(format_string(e.a2l_type))]),
        text_line(6, seq!["SYMBOL_LINK"@, quoted(e.full_name), "0"@]),
        text_line(4, seq!["/end"@, "MEASUREMENT"@]),
        Seq::empty(),
    ]
}

/// The MEASUREMENT block for the entry `e`.
pub open spec fn measurement_block(e: EntryView) -> Seq<char> {
    unlines(measurement_lines(e))
}

/// The lines of the CHARACTERISTIC block for the entry `e`; the last one
/// is empty.
pub open spec fn characteristic_lines(e: EntryView) -> Seq<Seq<char>> {
    seq![
        text_line(4, seq!["/begin"@, "CHARACTERISTIC"@, e.full_name, "\"\""@]),
        text_line(
            6,
            seq![
                "VALUE"@,
                address_text(e.address),
                record_layout(e.a2l_type),
                "0"@,
                "NO_COMPU_METHOD"@,
                "0"@,
                entry_max(e),
            ],
        ),
    ] + mask_lines(e) + seq![
        text_line(6, seq!["EXTENDED_LIMITS"@, "0"@, entry_max(e)]),
        text_line(6, seq!["SYMBOL_LINK"@, quoted(e.full_name), "0"@]),
        text_line(4, seq!["/end"@, "CHARACTERISTIC"@]),
        Seq::empty(),
    ]
}

/// The CHARACTERISTIC block for the entry `e`.
pub open spec fn characteristic_block(e: EntryView) -> Seq<char> {
    unlines(characteristic_lines(e))
}

/// The block of kind `kind` for the entry `e`.
pub open spec fn block_of(e: EntryView, kind: ExportKind) -> Seq<char> {
    match kind {
        ExportKind::Measurement => measurement_block(e),
        ExportKind::Characteristic => characteristic_block(e),
    }
}

/// The entry that stands for the variable `v` in a MEASUREMENT block: its
/// scalar tag is guessed from its type name and size.
pub open spec fn variable_entry(v: VariableView) -> EntryView {
    EntryView::plain(
        v.name,
        v.address,
        v.size,
        tag_for_lowered(v.size, lowercase_of(v.ty_name)),
        v.ty_name,
    )
}

/// The blocks for the variables `vars`, in order.
pub open spec fn variable_blocks(vars: Seq<VariableView>) -> Seq<char>
    decreases vars.len(),
{
    if vars.len() == 0 {
        Seq::empty()
    } else {
        variable_blocks(vars.drop_last()) + measurement_block(variable_entry(vars.last()))
    }
}

/// The blocks of kind `kind` for the entries `entries`, in order.
pub open spec fn entry_blocks(entries: Seq<EntryView>, kind: ExportKind) -> Seq<char>
    decreases entries.len(),
{
    if entries.len() == 0 {
        Seq::empty()
    } else {
        entry_blocks(entries.drop_last(), kind) + block_of(entries.last(), kind)
    }
}

/// The lines before the blocks of a document: the version, the opening
/// lines of the project and the module, a placeholder CHARACTERISTIC, and
/// the conversion method.
pub open spec fn header_lines(project: Seq<char>, module: Seq<char>) -> Seq<Seq<char>> {
    seq![
        text_line(0, seq!["/begin"@, "ASAP2_VERSION"@]),
        text_line(2, seq!["1"@, "71"@]),
        text_line(0, seq!["/end"@, "ASAP2_VERSION"@]),
        Seq::empty(),
        text_line(0, seq!["/begin"@, "PROJECT"@, project, "\"\""@]),
        text_line(2, seq!["/begin"@, "MODULE"@, module, "\"\""@]),
        text_line(4, seq!["/begin"@, "CHARACTERISTIC"@, "__PLACEHOLDER__"@, "\"\""@]),
        text_line(6, seq!["VALUE"@, "0x0"@, "NO_COMPU_METHOD"@, "0"@, "0"@, "0"@, "0"@]),
        text_line(4, seq!["/end"@, "CHARACTERISTIC"@]),
        Seq::empty(),
        text_line(4, seq!["/begin"@, "COMPU_METHOD"@]),
        text_line(
            6,
            seq!["NO_COMPU_METHOD"@, "\"\""@, "NO_COMPU_VTAB"@, "\"\""@, "\"\""@, "\"\""@],
        ),
        text_line(4, seq!["/end"@, "COMPU_METHOD"@]),
        Seq::empty(),
    ]
}

/// The lines after the blocks of a document: the closing lines of the
/// module and the project.
pub open spec fn footer_lines() -> Seq<Seq<char>> {
    seq![text_line(2, seq!["/end"@, "MODULE"@]), text_line(0, seq!["/end"@, "PROJECT"@])]
}

/// A whole A2L document: the header, one MEASUREMENT block for each
/// variable and each entry, and the footer.
pub open spec fn document(
    project: Seq<char>,
    module: Seq<char>,
    vars: Seq<VariableView>,
    entries: Seq<EntryView>,
) -> Seq<char> {
    unlines(header_lines(project, module)) + variable_blocks(vars) + entry_blocks(
        entries,
        ExportKind::Measurement,
    ) + unlines(footer_lines())
}

/// The text of an address.
pub fn format_address(addr: u64) -> (r: Vec<char>)
    ensures
        r@ == address_text(addr),
{
    let mut r: Vec<char> = Vec::new();
    push_str(&mut r, "0x");
    push_number(&mut r, addr, 16, true, 8);
    proof {
        assert(r@ =~= address_text(addr));
    }
    r
}

/// The words `words` as a list of character vectors.
pub fn words_of(words: &[&str]) -> (r: Vec<Vec<char>>)
    ensures
        r.len() == words.len(),
        forall|i: int| 0 <= i < words.len() ==> (#[trigger] r@[i])@ == words@[i]@,
{
    let mut r: Vec<Vec<char>> = Vec::new();
    let mut i: usize = 0;
    while i < words.len()
        invariant
            i <= words.len(),
            r.len() == i,
            forall|k: int| 0 <= k < i ==> (#[trigger] r@[k])@ == words@[k]@,
        decreases words.len() - i,
    {
        r.push(chars_of(words[i]));
        i += 1;
    }
    r
}

fn quote(s: &str) -> (r: String)
    ensures
        r@ == quoted(s@),
{
    let mut out: Vec<char> = Vec::new();
    out.push('"');
    push_str(&mut out, s);
    out.push('"');
    proof {
        assert(out@ =~= quoted(s@));
    }
    string_of(out.as_slice())
}

/// Appends one more line to the text of the lines `done`.
fn add_line(
    b: &mut Vec<char>,
    indent: usize,
    words: &Vec<Vec<char>>,
    Ghost(done): Ghost<Seq<Seq<char>>>,
)
    requires
        old(b)@ == unlines(done),
    ensures
        final(b)@ == unlines(done.push(text_line(indent as nat, views(words@)))),
{
    push_text_line(b, indent, words);
    proof {
        let next = done.push(text_line(indent as nat, views(words@)));
        assert(next.drop_last() =~= done);
    }
}

/// Appends the BIT_MASK line of `entry`, if it has one, to the text of the
/// lines `done`.
fn add_mask_lines(b: &mut Vec<char>, entry: &A2lEntry, Ghost(done): Ghost<Seq<Seq<char>>>)
    requires
        old(b)@ == unlines(done),
    ensures
        final(b)@ == unlines(done + mask_lines(entry@)),
{
    if entry.is_bitfield() {
        let mask = A2lGenerator::calculate_bit_mask(entry.bit_offset, entry.bit_size);
        let mut m: Vec<char> = Vec::new();
        push_str(&mut m, "0x");
        push_number(&mut m, mask, 16, true, 0);
        proof {
            assert(zero_padded(hex_upper(mask as nat), 0) == hex_upper(mask as nat));
            assert(m@ =~= mask_text(entry@));
        }
        let text = string_of(m.as_slice());
        let words = words_of(&["BIT_MASK", text.as_str()]);
        proof {
            assert(views(words@) =~= seq!["BIT_MASK"@, mask_text(entry@)]);
        }
        add_line(b, 6, &words, Ghost(done));
        proof {
            assert(done.push(text_line(6, views(words@))) =~= done + mask_lines(entry@));
        }
    } else {
        proof {
            assert(done + mask_lines(entry@) =~= done);
        }
    }
}

fn format_entry_max(entry: &A2lEntry) -> (r: Vec<char>)
    ensures
        r@ == entry_max(entry@),
{
    match entry.bit_size {
        Some(w) => {
            let mut r: Vec<char> = Vec::new();
            push_decimal(&mut r, A2lGenerator::get_bitfield_max(w));
            proof {
                assert(r@ =~= entry_max(entry@));
            }
            r
        },
        None => {
            let (_, max) = A2lGenerator::get_min_max(entry.a2l_type.as_str());
            chars_of(max)
        },
    }
}

fn format_entry_min(entry: &A2lEntry) -> (r: Vec<char>)
    ensures
        r@ == entry_min(entry@),
{
    match entry.bit_size {
        Some(w) => chars_of("0"),
        None => {
            let (min, _) = A2lGenerator::get_min_max(entry.a2l_type.as_str());
            chars_of(min)
        },
    }
}

impl A2lGenerator {
    /// Appends the MEASUREMENT block for `entry` to `out`.
    pub fn push_measurement_block(out: &mut Vec<char>, entry: &A2lEntry)
        ensures
            final(out)@ == old(out)@ + measurement_block(entry@),
    {
        let ghost e = entry@;
        let min = string_of(format_entry_min(entry).as_slice());
        let max = string_of(format_entry_max(entry).as_slice());
        let addr = string_of(format_address(entry.address).as_slice());
        let name = entry.full_name.as_str();
        let tag = entry.a2l_type.as_str();
        let format = quote(Self::get_format_string(tag));
        let link = quote(name);
        let mut b: Vec<char> = Vec::new();
        let l1 = words_of(&["/begin", "MEASUREMENT", name, "\"\""]);
        let l2 = words_of(&[tag, "NO_COMPU_METHOD", "0", "0", min.as_str(), max.as_str()]);
        let l3 = words_of(&["ECU_ADDRESS", addr.as_str()]);
        let l4 = words_of(&["ECU_ADDRESS_EXTENSION", "0x0"]);
        let l5 = words_of(&["FORMAT", format.as_str()]);
        let l6 = words_of(&["SYMBOL_LINK", link.as_str(), "0"]);
        let l7 = words_of(&["/end", "MEASUREMENT"]);
        let l8: Vec<Vec<char>> = Vec::new();
        let ghost d0 = Seq::<Seq<char>>::empty();
        let ghost d1 = d0.push(text_line(4, views(l1@)));
        let ghost d2 = d1.push(text_line(6, views(l2@)));
        let ghost d3 = d2 + mask_lines(e);
        let ghost d4 = d3.push(text_line(6, views(l3@)));
        let ghost d5 = d4.push(text_line(6, views(l4@)));
        let ghost d6 = d5.push(text_line(6, views(l5@)));
        let ghost d7 = d6.push(text_line(6, views(l6@)));
        let ghost d8 = d7.push(text_line(4, views(l7@)));
        let ghost d9 = d8.push(text_line(0, views(l8@)));
        add_line(&mut b, 4, &l1, Ghost(d0));
        add_line(&mut b, 6, &l2, Ghost(d1));
        add_mask_lines(&mut b, entry, Ghost(d2));
        add_line(&mut b, 6, &l3, Ghost(d3));
        add_line(&mut b, 6, &l4, Ghost(d4));
        add_line(&mut b, 6, &l5, Ghost(d5));
        add_line(&mut b, 6, &l6, Ghost(d6));
        add_line(&mut b, 4, &l7, Ghost(d7));
        add_line(&mut b, 0, &l8, Ghost(d8));
        proof {
            assert(views(l1@) =~= seq!["/begin"@, "MEASUREMENT"@, e.full_name, "\"\""@]);
            assert(views(l2@) =~= seq![
                e.a2l_type,
                "NO_COMPU_METHOD"@,
                "0"@,
                "0"@,
                entry_min(e),
                entry_max(e),
            ]);
            assert(views(l3@) =~= seq!["ECU_ADDRESS"@, address_text(e.address)]);
            assert(views(l4@) =~= seq!["ECU_ADDRESS_EXTENSION"@, "0x0"@]);
            assert(views(l5@) =~= seq!["FORMAT"@, quoted(format_string(e.a2l_type))]);
            assert(views(l6@) =~= seq!["SYMBOL_LINK"@, quoted(e.full_name), "0"@]);
            assert(views(l7@) =~= seq!["/end"@, "MEASUREMENT"@]);
            assert(views(l8@) =~= Seq::<Seq<char>>::empty());
            assert(text_line(0, views(l8@)) =~= Seq::<char>::empty());
            assert(d9 =~= measurement_lines(e));
        }
        push_all(out, b.as_slice());
    }

    /// Appends the CHARACTERISTIC block for `entry` to `out`.
    pub fn push_characteristic_block(out: &mut Vec<char>, entry: &A2lEntry)
        ensures
            final(out)@ == old(out)@ + characteristic_block(entry@),
    {
        let ghost e = entry@;
        let max = string_of(format_entry_max(entry).as_slice());
        let addr = string_of(format_address(entry.address).as_slice());
        let name = entry.full_name.as_str();
        let tag = entry.a2l_type.as_str();
        let link = quote(name);
        let mut b: Vec<char> = Vec::new();
        let l1 = words_of(&["/begin", "CHARACTERISTIC", name, "\"\""]);
        let l2 = words_of(
            &[
                "VALUE",
                addr.as_str(),
                Self::get_record_layout(tag),
                "0",
                "NO_COMPU_METHOD",
                "0",
                max.as_str(),
            ],
        );
        let l3 = words_of(&["EXTENDED_LIMITS", "0", max.as_str()]);
        let l4 = words_of(&["SYMBOL_LINK", link.as_str(), "0"]);
        let l5 = words_of(&["/end", "CHARACTERISTIC"]);
        let l6: Vec<Vec<char>> = Vec::new();
        let ghost d0 = Seq::<Seq<char>>::empty();
        let ghost d1 = d0.push(text_line(4, views(l1@)));
        let ghost d2 = d1.push(text_line(6, views(l2@)));
        let ghost d3 = d2 + mask_lines(e);
        let ghost d4 = d3.push(text_line(6, views(l3@)));
        let ghost d5 = d4.push(text_line(6, views(l4@)));
        let ghost d6 = d5.push(text_line(4, views(l5@)));
        let ghost d7 = d6.push(text_line(0, views(l6@)));
        add_line(&mut b, 4, &l1, Ghost(d0));
        add_line(&mut b, 6, &l2, Ghost(d1));
        add_mask_lines(&mut b, entry, Ghost(d2));
        add_line(&mut b, 6, &l3, Ghost(d3));
        add_line(&mut b, 6, &l4, Ghost(d4));
        add_line(&mut b, 4, &l5, Ghost(d5));
        add_line(&mut b, 0, &l6, Ghost(d6));
        proof {
            assert(views(l1@) =~= seq!["/begin"@, "CHARACTERISTIC"@, e.full_name, "\"\""@]);
            assert(views(l2@) =~= seq![
                "VALUE"@,
                address_text(e.address),
                record_layout(e.a2l_type),
                "0"@,
                "NO_COMPU_METHOD"@,
                "0"@,
                entry_max(e),
            ]);
            assert(views(l3@) =~= seq!["EXTENDED_LIMITS"@, "0"@, entry_max(e)]);
            assert(views(l4@) =~= seq!["SYMBOL_LINK"@, quoted(e.full_name), "0"@]);
            assert(views(l5@) =~= seq!["/end"@, "CHARACTERISTIC"@]);
            assert(views(l6@) =~= Seq::<Seq<char>>::empty());
            assert(text_line(0, views(l6@)) =~= Seq::<char>::empty());
            assert(d7 =~= characteristic_lines(e));
        }
        push_all(out, b.as_slice());
    }

    /// Appends the block of kind `kind` for `entry` to `out`.
    pub fn push_block(out: &mut Vec<char>, entry: &A2lEntry, kind: ExportKind)
        ensures
            final(out)@ == old(out)@ + block_of(entry@, kind),
    {
        match kind {
            ExportKind::Measurement => Self::push_measurement_block(out, entry),
            ExportKind::Characteristic => Self::push_characteristic_block(out, entry),
        }
    }

    /// The MEASUREMENT block for `entry`.
    pub fn generate_measurement_block(entry: &A2lEntry) -> (r: String)
        ensures
            r@ == measurement_block(entry@),
    {
        let mut out: Vec<char> = Vec::new();
        Self::push_measurement_block(&mut out, entry);
        proof {
            assert(out@ =~= measurement_block(entry@));
        }
        string_of(out.as_slice())
    }

    /// The CHARACTERISTIC block for `entry`.
    pub fn generate_characteristic_block(entry: &A2lEntry) -> (r: String)
        ensures
            r@ == characteristic_block(entry@),
    {
        let mut out: Vec<char> = Vec::new();
        Self::push_characteristic_block(&mut out, entry);
        proof {
            assert(out@ =~= characteristic_block(entry@));
        }
        string_of(out.as_slice())
    }

    /// The MEASUREMENT block for the variable `var`.
    pub fn generate_measurement(&self, var: &Variable) -> (r: String)
        ensures
            r@ == measurement_block(variable_entry(var@)),
    {
        let entry = Self::entry_for(var);
        Self::generate_measurement_block(&entry)
    }

    /// The entry that stands for `var` in a MEASUREMENT block.
    pub fn entry_for(var: &Variable) -> (r: A2lEntry)
        ensures
            r@ == variable_entry(var@),
    {
        let tag = infer_a2l_type(var.size, var.ty_name.as_str());
        A2lEntry::new(
            var.name.clone(),
            var.address,
            var.size,
            tag.to_owned(),
            var.ty_name.clone(),
        )
    }
}


// ---------------------------------------------------------------------------
// The generator
// ---------------------------------------------------------------------------

impl A2lGenerator {
    /// The name of the project.
    pub closed spec fn project(&self) -> Seq<char> {
        self.project_name@
    }

    /// The name of the module.
    pub closed spec fn module(&self) -> Seq<char> {
        self.module_name@
    }

    /// The variables collected so far.
    pub closed spec fn vars(&self) -> Seq<VariableView> {
        variable_views(self.variables@)
    }

    /// The entries collected so far.
    pub closed spec fn leaves(&self) -> Seq<EntryView> {
        entry_views(self.entries@)
    }

    /// A generator without variables or entries.
    pub fn new(project_name: &str, module_name: &str) -> (r: Self)
        ensures
            r.project() == project_name@,
            r.module() == module_name@,
            r.vars() == Seq::<VariableView>::empty(),
            r.leaves() == Seq::<EntryView>::empty(),
    {
        let r = A2lGenerator {
            project_name: project_name.to_owned(),
            module_name: module_name.to_owned(),
            variables: Vec::new(),
            entries: Vec::new(),
        };
        proof {
            assert(r.vars() =~= Seq::<VariableView>::empty());
            assert(r.leaves() =~= Seq::<EntryView>::empty());
        }
        r
    }

    /// Appends `variable`.
    pub fn add_variable(&mut self, variable: Variable)
        ensures
            final(self).vars() == old(self).vars().push(variable@),
            final(self).leaves() == old(self).leaves(),
            final(self).project() == old(self).project(),
            final(self).module() == old(self).module(),
    {
        self.variables.push(variable);
        proof {
            assert(self.vars() =~= old(self).vars().push(variable@));
        }
    }

    /// Appends copies of `variables`, in order.
    pub fn add_variables(&mut self, variables: &[Variable])
        ensures
            final(self).vars() == old(self).vars() + variable_views(variables@),
            final(self).leaves() == old(self).leaves(),
            final(self).project() == old(self).project(),
            final(self).module() == old(self).module(),
    {
        let mut i: usize = 0;
        proof {
            assert(self.vars() =~= old(self).vars() + variable_views(variables@.take(0)));
        }
        while i < variables.len()
            invariant
                i <= variables.len(),
                self.vars() == old(self).vars() + variable_views(variables@.take(i as int)),
                self.leaves() == old(self).leaves(),
                self.project() == old(self).project(),
                self.module() == old(self).module(),
            decreases variables.len() - i,
        {
            let ghost before = self.vars();
            let copy = variables[i].clone();
            self.variables.push(copy);
            i += 1;
            proof {
                assert(self.vars() =~= before.push(copy@));
                assert(before.push(copy@) =~= old(self).vars() + variable_views(
                    variables@.take(i as int),
                ));
            }
        }
        proof {
            assert(variables@.take(variables.len() as int) =~= variables@);
        }
    }

    /// Appends `entry`.
    pub fn add_entry(&mut self, entry: A2lEntry)
        ensures
            final(self).leaves() == old(self).leaves().push(entry@),
            final(self).vars() == old(self).vars(),
            final(self).project() == old(self).project(),
            final(self).module() == old(self).module(),
    {
        self.entries.push(entry);
        proof {
            assert(self.leaves() =~= old(self).leaves().push(entry@));
        }
    }

    /// Appends copies of `entries`, in order.
    pub fn add_entries(&mut self, entries: &[A2lEntry])
        ensures
            final(self).leaves() == old(self).leaves() + entry_views(entries@),
            final(self).vars() == old(self).vars(),
            final(self).project() == old(self).project(),
            final(self).module() == old(self).module(),
    {
        let mut i: usize = 0;
        proof {
            assert(self.leaves() =~= old(self).leaves() + entry_views(entries@.take(0)));
        }
        while i < entries.len()
            invariant
                i <= entries.len(),
                self.leaves() == old(self).leaves() + entry_views(entries@.take(i as int)),
                self.vars() == old(self).vars(),
                self.project() == old(self).project(),
                self.module() == old(self).module(),
            decreases entries.len() - i,
        {
            let ghost before = self.leaves();
            let copy = entries[i].clone();
            self.entries.push(copy);
            i += 1;
            proof {
                assert(self.leaves() =~= before.push(copy@));
                assert(before.push(copy@) =~= old(self).leaves() + entry_views(
                    entries@.take(i as int),
                ));
            }
        }
        proof {
            assert(entries@.take(entries.len() as int) =~= entries@);
        }
    }

    /// How many variables and entries the generator holds; `usize::MAX`
    /// where their number is greater than that.
    pub fn variable_count(&self) -> (r: usize)
        ensures
            r == if self.vars().len() + self.leaves().len() <= usize::MAX {
                self.vars().len() + self.leaves().len()
            } else {
                usize::MAX as nat
            },
    {
        let a = self.variables.len();
        let b = self.entries.len();
        if a <= usize::MAX - b {
            a + b
        } else {
            usize::MAX
        }
    }

    /// Drops all variables and entries.
    pub fn clear(&mut self)
        ensures
            final(self).vars() == Seq::<VariableView>::empty(),
            final(self).leaves() == Seq::<EntryView>::empty(),
            final(self).project() == old(self).project(),
            final(self).module() == old(self).module(),
    {
        self.variables.clear();
        self.entries.clear();
        proof {
            assert(self.vars() =~= Seq::<VariableView>::empty());
            assert(self.leaves() =~= Seq::<EntryView>::empty());
        }
    }

    /// The A2L document for what the generator holds.
    pub fn generate(&self) -> (r: String)
        ensures
            r@ == document(self.project(), self.module(), self.vars(), self.leaves()),
    {
        let mut out: Vec<char> = Vec::new();
        let project = self.project_name.as_str();
        let module = self.module_name.as_str();
        let h1 = words_of(&["/begin", "ASAP2_VERSION"]);
        let h2 = words_of(&["1", "71"]);
        let h3 = words_of(&["/end", "ASAP2_VERSION"]);
        let blank: Vec<Vec<char>> = Vec::new();
        let h5 = words_of(&["/begin", "PROJECT", project, "\"\""]);
        let h6 = words_of(&["/begin", "MODULE", module, "\"\""]);
        let h7 = words_of(&["/begin", "CHARACTERISTIC", "__PLACEHOLDER__", "\"\""]);
        let h8 = words_of(&["VALUE", "0x0", "NO_COMPU_METHOD", "0", "0", "0", "0"]);
        let h9 = words_of(&["/end", "CHARACTERISTIC"]);
        let h11 = words_of(&["/begin", "COMPU_METHOD"]);
        let h12 = words_of(&["NO_COMPU_METHOD", "\"\"", "NO_COMPU_VTAB", "\"\"", "\"\"", "\"\""]);
        let h13 = words_of(&["/end", "COMPU_METHOD"]);
        let ghost d0 = Seq::<Seq<char>>::empty();
        let ghost d1 = d0.push(text_line(0, views(h1@)));
        let ghost d2 = d1.push(text_line(2, views(h2@)));
        let ghost d3 = d2.push(text_line(0, views(h3@)));
        let ghost d4 = d3.push(text_line(0, views(blank@)));
        let ghost d5 = d4.push(text_line(0, views(h5@)));
        let ghost d6 = d5.push(text_line(2, views(h6@)));
        let ghost d7 = d6.push(text_line(4, views(h7@)));
        let ghost d8 = d7.push(text_line(6, views(h8@)));
        let ghost d9 = d8.push(text_line(4, views(h9@)));
        let ghost d10 = d9.push(text_line(0, views(blank@)));
        let ghost d11 = d10.push(text_line(4, views(h11@)));
        let ghost d12 = d11.push(text_line(6, views(h12@)));
        let ghost d13 = d12.push(text_line(4, views(h13@)));
        let ghost d14 = d13.push(text_line(0, views(blank@)));
        add_line(&mut out, 0, &h1, Ghost(d0));
        add_line(&mut out, 2, &h2, Ghost(d1));
        add_line(&mut out, 0, &h3, Ghost(d2));
        add_line(&mut out, 0, &blank, Ghost(d3));
        add_line(&mut out, 0, &h5, Ghost(d4));
        add_line(&mut out, 2, &h6, Ghost(d5));
        add_line(&mut out, 4, &h7, Ghost(d6));
        add_line(&mut out, 6, &h8, Ghost(d7));
        add_line(&mut out, 4, &h9, Ghost(d8));
        add_line(&mut out, 0, &blank, Ghost(d9));
        add_line(&mut out, 4, &h11, Ghost(d10));
        add_line(&mut out, 6, &h12, Ghost(d11));
        add_line(&mut out, 4, &h13, Ghost(d12));
        add_line(&mut out, 0, &blank, Ghost(d13));
        proof {
            assert(views(h1@) =~= seq!["/begin"@, "ASAP2_VERSION"@]);
            assert(views(h2@) =~= seq!["1"@, "71"@]);
            assert(views(h3@) =~= seq!["/end"@, "ASAP2_VERSION"@]);
            assert(views(blank@) =~= Seq::<Seq<char>>::empty());
            assert(text_line(0, views(blank@)) =~= Seq::<char>::empty());
            assert(views(h5@) =~= seq!["/begin"@, "PROJECT"@, self.project(), "\"\""@]);
            assert(views(h6@) =~= seq!["/begin"@, "MODULE"@, self.module(), "\"\""@]);
            assert(views(h7@) =~= seq![
                "/begin"@,
                "CHARACTERISTIC"@,
                "__PLACEHOLDER__"@,
                "\"\""@,
            ]);
            assert(views(h8@) =~= seq![
                "VALUE"@,
                "0x0"@,
                "NO_COMPU_METHOD"@,
                "0"@,
                "0"@,
                "0"@,
                "0"@,
            ]);
            assert(views(h9@) =~= seq!["/end"@, "CHARACTERISTIC"@]);
            assert(views(h11@) =~= seq!["/begin"@, "COMPU_METHOD"@]);
            assert(views(h12@) =~= seq![
                "NO_COMPU_METHOD"@,
                "\"\""@,
                "NO_COMPU_VTAB"@,
                "\"\""@,
                "\"\""@,
                "\"\""@,
            ]);
            assert(views(h13@) =~= seq!["/end"@, "COMPU_METHOD"@]);
            assert(d14 =~= header_lines(self.project(), self.module()));
        }
        let ghost head = out@;
        let ghost vars = self.vars();
        let ghost leaves = self.leaves();
        let mut i: usize = 0;
        proof {
            assert(vars.take(0) =~= Seq::<VariableView>::empty());
            assert(out@ =~= head + variable_blocks(vars.take(0)));
        }
        while i < self.variables.len()
            invariant
                i <= self.variables.len(),
                vars == self.vars(),
                out@ == head + variable_blocks(vars.take(i as int)),
            decreases self.variables.len() - i,
        {
            let ghost before = out@;
            let entry = Self::entry_for(&self.variables[i]);
            Self::push_measurement_block(&mut out, &entry);
            proof {
                let next = vars.take(i + 1);
                assert(next.drop_last() =~= vars.take(i as int));
                assert(next.last() == self.variables@[i as int]@);
                assert(out@ =~= head + variable_blocks(next));
            }
            i += 1;
        }
        let ghost mid = out@;
        let mut k: usize = 0;
        proof {
            assert(vars.take(self.variables.len() as int) =~= vars);
            assert(leaves.take(0) =~= Seq::<EntryView>::empty());
            assert(out@ =~= mid + entry_blocks(leaves.take(0), ExportKind::Measurement));
        }
        while k < self.entries.len()
            invariant
                k <= self.entries.len(),
                leaves == self.leaves(),
                out@ == mid + entry_blocks(leaves.take(k as int), ExportKind::Measurement),
            decreases self.entries.len() - k,
        {
            Self::push_measurement_block(&mut out, &self.entries[k]);
            proof {
                let next = leaves.take(k + 1);
                assert(next.drop_last() =~= leaves.take(k as int));
                assert(next.last() == self.entries@[k as int]@);
                assert(out@ =~= mid + entry_blocks(next, ExportKind::Measurement));
            }
            k += 1;
        }
        proof {
            assert(leaves.take(self.entries.len() as int) =~= leaves);
        }
        let ghost body = out@;
        let f1 = words_of(&["/end", "MODULE"]);
        let f2 = words_of(&["/end", "PROJECT"]);
        let mut foot: Vec<char> = Vec::new();
        let ghost e0 = Seq::<Seq<char>>::empty();
        let ghost e1 = e0.push(text_line(2, views(f1@)));
        let ghost e2 = e1.push(text_line(0, views(f2@)));
        add_line(&mut foot, 2, &f1, Ghost(e0));
        add_line(&mut foot, 0, &f2, Ghost(e1));
        proof {
            assert(views(f1@) =~= seq!["/end"@, "MODULE"@]);
            assert(views(f2@) =~= seq!["/end"@, "PROJECT"@]);
            assert(e2 =~= footer_lines());
        }
        push_all(&mut out, foot.as_slice());
        proof {
            assert(out@ =~= document(self.project(), self.module(), vars, leaves));
        }
        string_of(out.as_slice())
    }
}

} // verus!
