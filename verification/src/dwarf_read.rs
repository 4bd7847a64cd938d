//! Reading the debugging information of an image into plain entries, with
//! `gimli`.

use crate::dwarf_raw::{
    attr_view, AttrValue, AttrView, RawDie, RawUnit, DW_AT_BIT_OFFSET, DW_AT_BIT_SIZE,
    DW_AT_BYTE_SIZE, DW_AT_CONST_VALUE, DW_AT_COUNT, DW_AT_DATA_MEMBER_LOCATION, DW_AT_ENCODING,
    DW_AT_NAME, DW_AT_TYPE, DW_AT_UPPER_BOUND,
};
use gimli::AttributeValue;
use vstd::prelude::*;

verus! {

/// Why an image could not be read.
#[derive(Debug, Clone, Copy, PartialEq, Eq, Structural)]
pub enum ParseError {
    /// The image, or its debugging information, is not what its format
    /// asks for.
    InvalidImage,
}

impl ParseError {
    /// A short description of the failure.
    pub fn to_string(&self) -> (r: String)
        ensures
            r@ == "the image cannot be read"@,
    {
        "the image cannot be read".to_owned()
    }
}

/// `gimli::Error`, the error of a read. It is carried through; nothing is
/// said of what it holds.
#[verifier::external_type_specification]
#[verifier::external_body]
pub struct ExGimliError(gimli::Error);

/// `gimli::Abbreviations`, the abbreviations of one unit. They are carried
/// through; nothing is said of what they hold.
#[verifier::external_type_specification]
#[verifier::external_body]
pub struct ExAbbreviations(gimli::Abbreviations);

/// The unit headers of a `.debug_info` section that are still to be read.
#[verifier::external_body]
pub struct UnitList<'a> {
    inner: gimli::DebugInfoUnitHeadersIter<gimli::EndianSlice<'a, gimli::LittleEndian>>,
}

/// The header of one unit.
#[verifier::external_body]
pub struct UnitHead<'a> {
    inner: gimli::UnitHeader<gimli::EndianSlice<'a, gimli::LittleEndian>>,
}

/// The entries of one unit that are still to be read.
#[verifier::external_body]
pub struct EntryList<'a, 'b> {
    inner: gimli::EntriesCursor<'b, gimli::EndianSlice<'a, gimli::LittleEndian>>,
}

/// One entry as `gimli` holds it.
#[verifier::external_body]
pub struct Entry<'a> {
    inner: gimli::DebuggingInformationEntry<gimli::EndianSlice<'a, gimli::LittleEndian>>,
}

/// The value of one attribute as `gimli` holds it.
#[verifier::external_body]
pub struct Attr<'a> {
    inner: AttributeValue<gimli::EndianSlice<'a, gimli::LittleEndian>>,
}

// ---------------------------------------------------------------------------
// What `gimli` reads
// ---------------------------------------------------------------------------

/// The unit headers of the little-endian `.debug_info` section `info`,
/// before any was read.
pub uninterp spec fn units_in(info: Seq<u8>) -> UnitList<'static>;

/// The headers that `list` hands out before it ends or fails, in order.
pub uninterp spec fn heads_left(list: UnitList) -> Seq<UnitHead<'static>>;

/// Whether `list` fails, after the headers that are left, on a header
/// that `gimli` cannot read.
pub uninterp spec fn heads_broken(list: UnitList) -> bool;

/// Where the unit of `head` starts in the `.debug_info` section, if that
/// is where it lies.
pub uninterp spec fn head_start(head: UnitHead) -> Option<usize>;

/// The abbreviations of the unit of `head` in the little-endian
/// `.debug_abbrev` section `abbrev`; `None` if `gimli` cannot read them.
pub uninterp spec fn head_abbreviations(head: UnitHead, abbrev: Seq<u8>) -> Option<
    gimli::Abbreviations,
>;

/// The entries of the unit of `head`, read with `abbreviations`, before
/// any was read.
pub uninterp spec fn entries_in(head: UnitHead, abbreviations: gimli::Abbreviations) -> EntryList<
    'static,
    'static,
>;

/// The entries that `list` hands out before it ends or fails, in tree
/// order.
pub uninterp spec fn entries_left(list: EntryList) -> Seq<Entry<'static>>;

/// Whether `list` fails, after the entries that are left, on an entry
/// that `gimli` cannot read.
pub uninterp spec fn entries_broken(list: EntryList) -> bool;

/// Where `entry` stands in its unit.
pub uninterp spec fn entry_place(entry: Entry) -> usize;

/// How deep `entry` lies in the tree of its unit.
pub uninterp spec fn entry_level(entry: Entry) -> isize;

/// The number of the tag of `entry`.
pub uninterp spec fn entry_kind(entry: Entry) -> u16;

/// The value of the first attribute of `entry` with the name of number
/// `name`, if it has one.
pub uninterp spec fn entry_attribute(entry: Entry, name: u16) -> Option<Attr<'static>>;

/// The constant that `attr` holds, in the form in which it was written;
/// `None` if it holds no constant.
pub uninterp spec fn constant_of(attr: Attr) -> Option<AttrView>;

/// What `attr` holds if it holds no constant.
pub uninterp spec fn other_of(attr: Attr) -> AttrView;

/// `gimli::DebugInfo::units` on the little-endian section `info`: the
/// headers of its units, not yet read. They depend on the bytes alone.
#[verifier::external_body]
pub(crate) fn unit_list<'a>(info: &'a [u8]) -> (r: UnitList<'a>)
    ensures
        r == units_in(info@),
{
    UnitList { inner: gimli::DebugInfo::new(info, gimli::LittleEndian).units() }
}

/// `gimli::DebugInfoUnitHeadersIter::next`: the next header, `None` after
/// the last, or the error that reading it met. A header that comes back
/// is the first of those that were left, and the others are left; the
/// list ends or fails only when none was left.
#[verifier::external_body]
pub(crate) fn next_unit<'a>(list: &mut UnitList<'a>) -> (r: Result<
    Option<UnitHead<'a>>,
    gimli::Error,
>)
    ensures
        match r {
            Ok(Some(head)) => {
                &&& heads_left(*old(list)).len() > 0
                &&& head == heads_left(*old(list))[0]
                &&& heads_left(*final(list)) == heads_left(*old(list)).skip(1)
                &&& heads_broken(*final(list)) == heads_broken(*old(list))
            },
            Ok(None) => heads_left(*old(list)).len() == 0 && !heads_broken(*old(list)),
            Err(_) => heads_left(*old(list)).len() == 0 && heads_broken(*old(list)),
        },
{
    list.inner.next().map(|o| o.map(|inner| UnitHead { inner }))
}

/// `gimli::UnitHeader::debug_info_offset`: where the unit starts in the
/// `.debug_info` section, if that is where it lies. It depends on the
/// header alone.
#[verifier::external_body]
pub(crate) fn unit_start(head: &UnitHead) -> (r: Option<usize>)
    ensures
        r == head_start(*head),
{
    head.inner.debug_info_offset().map(|o| o.0)
}

/// `gimli::UnitHeader::abbreviations` on the little-endian section
/// `abbrev`: the abbreviations of the unit, or the error that reading them
/// met. Whether they are read, and which, depends on the header and the
/// bytes alone.
#[verifier::external_body]
pub(crate) fn unit_abbreviations<'a>(head: &UnitHead<'a>, abbrev: &'a [u8]) -> (r: Result<
    gimli::Abbreviations,
    gimli::Error,
>)
    ensures
        match r {
            Ok(a) => head_abbreviations(*head, abbrev@) == Some(a),
            Err(_) => head_abbreviations(*head, abbrev@).is_none(),
        },
{
    head.inner.abbreviations(&gimli::DebugAbbrev::new(abbrev, gimli::LittleEndian))
}

/// `gimli::UnitHeader::entries`: the entries of the unit, not yet read.
/// They depend on the header and the abbreviations alone.
#[verifier::external_body]
pub(crate) fn unit_entries<'a, 'b>(head: &UnitHead<'a>, abbreviations: &'b gimli::Abbreviations)
    -> (r: EntryList<'a, 'b>)
    ensures
        r == entries_in(*head, *abbreviations),
{
    EntryList { inner: head.inner.entries(abbreviations) }
}

/// `gimli::EntriesCursor::next_dfs`: a copy of the next entry in tree
/// order, `None` after the last, or the error that reading it met. An
/// entry that comes back is the first of those that were left, and the
/// others are left; the list ends or fails only when none was left.
#[verifier::external_body]
pub(crate) fn next_entry<'a, 'b>(list: &mut EntryList<'a, 'b>) -> (r: Result<
    Option<Entry<'a>>,
    gimli::Error,
>)
    ensures
        match r {
            Ok(Some(entry)) => {
                &&& entries_left(*old(list)).len() > 0
                &&& entry == entries_left(*old(list))[0]
                &&& entries_left(*final(list)) == entries_left(*old(list)).skip(1)
                &&& entries_broken(*final(list)) == entries_broken(*old(list))
            },
            Ok(None) => entries_left(*old(list)).len() == 0 && !entries_broken(*old(list)),
            Err(_) => entries_left(*old(list)).len() == 0 && entries_broken(*old(list)),
        },
{
    list.inner.next_dfs().map(|o| o.map(|e| Entry { inner: e.clone() }))
}

/// `gimli::DebuggingInformationEntry::offset`: where the entry stands in
/// its unit. It depends on the entry alone.
#[verifier::external_body]
pub(crate) fn entry_offset(entry: &Entry) -> (r: usize)
    ensures
        r == entry_place(*entry),
{
    entry.inner.offset().0
}

/// `gimli::DebuggingInformationEntry::depth`: how deep the entry lies in
/// the tree of its unit. It depends on the entry alone.
#[verifier::external_body]
pub(crate) fn entry_depth(entry: &Entry) -> (r: isize)
    ensures
        r == entry_level(*entry),
{
    entry.inner.depth()
}

/// `gimli::DebuggingInformationEntry::tag`: the number of the entry's tag.
/// It depends on the entry alone.
#[verifier::external_body]
pub(crate) fn entry_tag(entry: &Entry) -> (r: u16)
    ensures
        r == entry_kind(*entry),
{
    entry.inner.tag().0
}

/// `gimli::DebuggingInformationEntry::attr_value`: the value of the first
/// attribute of the entry with the name of number `name`, if it has one.
/// It depends on the entry and the number alone.
#[verifier::external_body]
pub(crate) fn entry_attr<'a>(entry: &Entry<'a>, name: u16) -> (r: Option<Attr<'a>>)
    ensures
        r == entry_attribute(*entry, name),
{
    entry.inner.attr_value(gimli::DwAt(name)).map(|inner| Attr { inner })
}

/// The constant that the attribute value holds, in the form in which it
/// was written; `None` if it is no constant. It depends on the value
/// alone.
#[verifier::external_body]
pub(crate) fn attr_constant(attr: &Attr) -> (r: Option<AttrValue>)
    ensures
        attr_view(r) == constant_of(*attr),
{
    match attr.inner {
        AttributeValue::Udata(v) => Some(AttrValue::Udata(v)),
        AttributeValue::Sdata(v) => Some(AttrValue::Sdata(v)),
        AttributeValue::Data1(v) => Some(AttrValue::Data1(v)),
        AttributeValue::Data2(v) => Some(AttrValue::Data2(v)),
        AttributeValue::Data4(v) => Some(AttrValue::Data4(v)),
        AttributeValue::Data8(v) => Some(AttrValue::Data8(v)),
        _ => None,
    }
}

/// What the attribute value holds if it is no constant: the bytes of a
/// string, a block or an expression, an encoding, or a reference. It
/// depends on the value alone.
#[verifier::external_body]
pub(crate) fn attr_other(attr: &Attr) -> (r: AttrValue)
    ensures
        r@ == other_of(*attr),
{
    match attr.inner {
        AttributeValue::String(r) => AttrValue::Text(r.slice().to_vec()),
        AttributeValue::Encoding(e) => AttrValue::Encoding(e.0),
        AttributeValue::Block(r) => AttrValue::Block(r.slice().to_vec()),
        AttributeValue::Exprloc(e) => AttrValue::Exprloc(e.0.slice().to_vec()),
        AttributeValue::UnitRef(o) => AttrValue::UnitRef(o.0),
        AttributeValue::DebugInfoRef(o) => AttrValue::DebugInfoRef(o.0),
        _ => AttrValue::Other,
    }
}

// ---------------------------------------------------------------------------
// Entries as plain values
// ---------------------------------------------------------------------------

/// What the attribute of `entry` with the name of number `name` holds, if
/// the entry has one.
pub open spec fn attribute_read(entry: Entry, name: u16) -> Option<AttrView> {
    match entry_attribute(entry, name) {
        Some(attr) => Some(
            match constant_of(attr) {
                Some(v) => v,
                None => other_of(attr),
            },
        ),
        None => None,
    }
}

/// Whether the plain entry `d` says what `entry` holds: its place, depth
/// and tag, and each attribute that the parser reads.
pub open spec fn tells_die(d: RawDie, entry: Entry) -> bool {
    &&& d.offset == entry_place(entry)
    &&& d.depth == entry_level(entry)
    &&& d.tag == entry_kind(entry)
    &&& attr_view(d.name) == attribute_read(entry, DW_AT_NAME)
    &&& attr_view(d.byte_size) == attribute_read(entry, DW_AT_BYTE_SIZE)
    &&& attr_view(d.encoding) == attribute_read(entry, DW_AT_ENCODING)
    &&& attr_view(d.member_location) == attribute_read(entry, DW_AT_DATA_MEMBER_LOCATION)
    &&& attr_view(d.type_ref) == attribute_read(entry, DW_AT_TYPE)
    &&& attr_view(d.bit_size) == attribute_read(entry, DW_AT_BIT_SIZE)
    &&& attr_view(d.bit_offset) == attribute_read(entry, DW_AT_BIT_OFFSET)
    &&& attr_view(d.const_value) == attribute_read(entry, DW_AT_CONST_VALUE)
    &&& attr_view(d.upper_bound) == attribute_read(entry, DW_AT_UPPER_BOUND)
    &&& attr_view(d.count) == attribute_read(entry, DW_AT_COUNT)
}

/// Whether the plain entries `dies` say what the entries `from` hold, one
/// for one and in order.
pub open spec fn tell_dies(dies: Seq<RawDie>, from: Seq<Entry>) -> bool {
    &&& dies.len() == from.len()
    &&& forall|i: int| 0 <= i < dies.len() ==> tells_die(#[trigger] dies[i], from[i])
}

/// The attribute of `entry` with the name of number `name`, as a plain
/// value.
pub(crate) fn read_attr(entry: &Entry, name: u16) -> (r: Option<AttrValue>)
    ensures
        attr_view(r) == attribute_read(*entry, name),
{
    match entry_attr(entry, name) {
        Some(attr) => {
            match attr_constant(&attr) {
                Some(v) => Some(v),
                None => Some(attr_other(&attr)),
            }
        },
        None => None,
    }
}

/// `entry` as a plain value.
pub(crate) fn read_entry(entry: &Entry) -> (r: RawDie)
    ensures
        tells_die(r, *entry),
{
    RawDie {
        offset: entry_offset(entry),
        depth: entry_depth(entry),
        tag: entry_tag(entry),
        name: read_attr(entry, DW_AT_NAME),
        byte_size: read_attr(entry, DW_AT_BYTE_SIZE),
        encoding: read_attr(entry, DW_AT_ENCODING),
        member_location: read_attr(entry, DW_AT_DATA_MEMBER_LOCATION),
        type_ref: read_attr(entry, DW_AT_TYPE),
        bit_size: read_attr(entry, DW_AT_BIT_SIZE),
        bit_offset: read_attr(entry, DW_AT_BIT_OFFSET),
        const_value: read_attr(entry, DW_AT_CONST_VALUE),
        upper_bound: read_attr(entry, DW_AT_UPPER_BOUND),
        count: read_attr(entry, DW_AT_COUNT),
    }
}

/// The entries of the unit `head` as plain values, in tree order. Fails
/// if one of them cannot be read.
pub(crate) fn read_entries<'a>(head: &UnitHead<'a>, abbreviations: &gimli::Abbreviations) -> (r:
    Result<Vec<RawDie>, ParseError>)
    ensures
        match r {
            Ok(dies) => !entries_broken(entries_in(*head, *abbreviations)) && tell_dies(
                dies@,
                entries_left(entries_in(*head, *abbreviations)),
            ),
            Err(e) => e == ParseError::InvalidImage && entries_broken(
                entries_in(*head, *abbreviations),
            ),
        },
{
    let mut list = unit_entries(head, abbreviations);
    let mut dies: Vec<RawDie> = Vec::new();
    let ghost start = entries_in(*head, *abbreviations);
    let ghost all = entries_left(start);
    proof {
        assert(all.skip(0) =~= all);
    }
    loop
        invariant
            start == entries_in(*head, *abbreviations),
            all == entries_left(start),
            dies.len() <= all.len(),
            entries_left(list) == all.skip(dies.len() as int),
            entries_broken(list) == entries_broken(start),
            forall|i: int| 0 <= i < dies.len() ==> tells_die(#[trigger] dies@[i], all[i]),
        decreases entries_left(list).len(),
    {
        let ghost before = entries_left(list);
        let ghost n = dies.len() as int;
        match next_entry(&mut list) {
            Ok(Some(entry)) => {
                let plain = read_entry(&entry);
                proof {
                    assert(before[0] == all[n]);
                    assert(before.skip(1) =~= all.skip(n + 1));
                }
                dies.push(plain);
            },
            Ok(None) => {
                proof {
                    assert(all.skip(n).len() == 0);
                }
                return Ok(dies);
            },
            Err(_) => {
                return Err(ParseError::InvalidImage);
            },
        }
    }
}

// ---------------------------------------------------------------------------
// Units as plain values
// ---------------------------------------------------------------------------

/// Whether reading the unit of `head` fails: its abbreviations can be
/// read, and one of its entries cannot.
pub open spec fn unit_fails(head: UnitHead, abbrev: Seq<u8>) -> bool {
    match head_abbreviations(head, abbrev) {
        Some(a) => entries_broken(entries_in(head, a)),
        None => false,
    }
}

/// Whether the plain unit `u` says what the unit of `head` holds: where
/// it starts, 0 if it lies in another section, and its entries.
pub open spec fn tells_unit(u: RawUnit, head: UnitHead, abbrev: Seq<u8>) -> bool {
    match head_abbreviations(head, abbrev) {
        Some(a) => {
            &&& u.offset == match head_start(head) {
                Some(o) => o,
                None => 0,
            }
            &&& tell_dies(u.dies@, entries_left(entries_in(head, a)))
        },
        None => false,
    }
}

/// The headers among `heads` whose abbreviations can be read, in order.
pub open spec fn read_heads(heads: Seq<UnitHead>, abbrev: Seq<u8>) -> Seq<UnitHead>
    decreases heads.len(),
{
    if heads.len() == 0 {
        Seq::empty()
    } else {
        let init = read_heads(heads.drop_last(), abbrev);
        if head_abbreviations(heads.last(), abbrev) is Some {
            init.push(heads.last())
        } else {
            init
        }
    }
}

/// Whether the plain units `units` say what the units of `heads` hold:
/// one for each header whose abbreviations can be read, in order.
pub open spec fn tell_units(units: Seq<RawUnit>, heads: Seq<UnitHead>, abbrev: Seq<u8>) -> bool {
    let kept = read_heads(heads, abbrev);
    &&& units.len() == kept.len()
    &&& forall|i: int| 0 <= i < units.len() ==> tells_unit(#[trigger] units[i], kept[i], abbrev)
}

/// Whether one of `heads` is the header of a unit that cannot be read.
pub open spec fn some_unit_fails(heads: Seq<UnitHead>, abbrev: Seq<u8>) -> bool {
    exists|i: int| 0 <= i < heads.len() && unit_fails(#[trigger] heads[i], abbrev)
}

/// Whether the debugging information in the sections `info` and `abbrev`
/// cannot be read: a unit header or an entry of a unit cannot be read.
pub open spec fn units_fail(info: Seq<u8>, abbrev: Seq<u8>) -> bool {
    heads_broken(units_in(info)) || some_unit_fails(heads_left(units_in(info)), abbrev)
}

/// The units of the debugging information in the sections `info` and
/// `abbrev` as plain values, in order. A unit whose abbreviations cannot
/// be read is left out. Fails if a unit header or an entry cannot be read.
pub(crate) fn read_units(info: &[u8], abbrev: &[u8]) -> (r: Result<Vec<RawUnit>, ParseError>)
    ensures
        match r {
            Ok(units) => !units_fail(info@, abbrev@) && tell_units(
                units@,
                heads_left(units_in(info@)),
                abbrev@,
            ),
            Err(e) => e == ParseError::InvalidImage && units_fail(info@, abbrev@),
        },
{
    let mut list = unit_list(info);
    let mut units: Vec<RawUnit> = Vec::new();
    let ghost start = units_in(info@);
    let ghost all = heads_left(start);
    let ghost mut n: int = 0;
    proof {
        assert(all.skip(0) =~= all);
        assert(all.take(0) =~= Seq::<UnitHead>::empty());
    }
    loop
        invariant
            start == units_in(info@),
            all == heads_left(start),
            0 <= n <= all.len(),
            heads_left(list) == all.skip(n),
            heads_broken(list) == heads_broken(start),
            tell_units(units@, all.take(n), abbrev@),
            forall|i: int| 0 <= i < n ==> !unit_fails(#[trigger] all[i], abbrev@),
        decreases heads_left(list).len(),
    {
        let ghost before = heads_left(list);
        let ghost kept = read_heads(all.take(n), abbrev@);
        match next_unit(&mut list) {
            Ok(Some(head)) => {
                proof {
                    assert(before[0] == all[n]);
                    assert(before.skip(1) =~= all.skip(n + 1));
                    assert(all.take(n + 1).drop_last() =~= all.take(n));
                    assert(all.take(n + 1).last() == all[n]);
                }
                match unit_abbreviations(&head, abbrev) {
                    Ok(abbreviations) => {
                        let offset = match unit_start(&head) {
                            Some(o) => o,
                            None => 0,
                        };
                        match read_entries(&head, &abbreviations) {
                            Ok(dies) => {
                                let unit = RawUnit { offset, dies };
                                proof {
                                    assert(tells_unit(unit, all[n], abbrev@));
                                    assert(read_heads(all.take(n + 1), abbrev@) == kept.push(
                                        all[n],
                                    ));
                                }
                                units.push(unit);
                            },
                            Err(e) => {
                                proof {
                                    assert(unit_fails(all[n], abbrev@));
                                }
                                return Err(e);
                            },
                        }
                    },
                    Err(_) => {
                        proof {
                            assert(read_heads(all.take(n + 1), abbrev@) == kept);
                        }
                    },
                }
                proof {
                    n = n + 1;
                }
            },
            Ok(None) => {
                proof {
                    assert(all.skip(n).len() == 0);
                    assert(all.take(n) =~= all);
                }
                return Ok(units);
            },
            Err(_) => {
                return Err(ParseError::InvalidImage);
            },
        }
    }
}

} // verus!
