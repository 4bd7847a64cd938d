//! Reading the sections and symbols of an image, with `object`.

use crate::dwarf_read::ParseError;
use crate::symbols::RawSymbol;
use object::{Object, ObjectSection, ObjectSymbol};
use vstd::prelude::*;

verus! {

/// `object::Error`, the error of a read. It is carried through; nothing is
/// said of what it holds.
#[verifier::external_type_specification]
#[verifier::external_body]
pub struct ExObjectError(object::Error);

/// An image as `object` holds it.
#[verifier::external_body]
pub struct Image<'a> {
    inner: object::File<'a>,
}

/// One section of an image as `object` holds it.
#[verifier::external_body]
pub struct Section<'a, 'b> {
    inner: object::Section<'a, 'b>,
}

/// The symbols of an image that are still to be read.
#[verifier::external_body]
pub struct SymbolList<'a, 'b> {
    inner: object::SymbolIterator<'a, 'b>,
}

/// One symbol as `object` holds it.
#[verifier::external_body]
pub struct Symbol<'a, 'b> {
    inner: object::Symbol<'a, 'b>,
}

// ---------------------------------------------------------------------------
// What `object` reads
// ---------------------------------------------------------------------------

/// The image that `object` reads out of the bytes `data`; `None` if it
/// reads none.
pub uninterp spec fn image_in(data: Seq<u8>) -> Option<Image<'static>>;

/// The first section of `image` with the name `name`, if it has one.
pub uninterp spec fn section_named(image: Image, name: Seq<char>) -> Option<
    Section<'static, 'static>,
>;

/// The section of `image` with the number `index`, if it has one.
pub uninterp spec fn section_numbered(image: Image, index: usize) -> Option<
    Section<'static, 'static>,
>;

/// The bytes of `section` as they lie in the image; `None` if `object`
/// cannot read them.
pub uninterp spec fn section_content(section: Section) -> Option<Seq<u8>>;

/// The name of `section`; `None` if `object` cannot read it.
pub uninterp spec fn section_title(section: Section) -> Option<Seq<char>>;

/// The symbols of the symbol table of `image`, in the order in which
/// `object` hands them out.
pub uninterp spec fn symbols_in(image: Image) -> Seq<Symbol<'static, 'static>>;

/// The symbols that `list` has still to hand out, in order.
pub uninterp spec fn symbols_left(list: SymbolList) -> Seq<Symbol<'static, 'static>>;

/// The name of `symbol`; `None` if `object` cannot read it.
pub uninterp spec fn symbol_label(symbol: Symbol) -> Option<Seq<char>>;

/// The address of `symbol`.
pub uninterp spec fn symbol_place(symbol: Symbol) -> u64;

/// The size of `symbol`.
pub uninterp spec fn symbol_extent(symbol: Symbol) -> u64;

/// The number of the section that `symbol` lies in, if it lies in one.
pub uninterp spec fn symbol_home(symbol: Symbol) -> Option<usize>;

/// The characters of a text that may be missing.
pub open spec fn text_of(t: Option<String>) -> Option<Seq<char>> {
    match t {
        Some(s) => Some(s@),
        None => None,
    }
}

/// `object::File::parse`: the image in `data`, or the error that reading
/// it met. Whether an image is read, and which, depends on the bytes
/// alone.
#[verifier::external_body]
pub(crate) fn open_image<'a>(data: &'a [u8]) -> (r: Result<Image<'a>, object::Error>)
    ensures
        match r {
            Ok(image) => image_in(data@) == Some(image),
            Err(_) => image_in(data@).is_none(),
        },
{
    object::File::parse(data).map(|inner| Image { inner })
}

/// `object::Object::section_by_name`: the first section of the image with
/// the name `name`, if there is one. It depends on the image and the name
/// alone.
#[verifier::external_body]
pub(crate) fn find_section<'a, 'b>(image: &'b Image<'a>, name: &str) -> (r: Option<
    Section<'a, 'b>,
>)
    ensures
        r == section_named(*image, name@),
{
    image.inner.section_by_name(name).map(|inner| Section { inner })
}

/// `object::Object::section_by_index`: the section of the image with the
/// number `index`, if there is one. It depends on the image and the
/// number alone.
#[verifier::external_body]
pub(crate) fn section_at<'a, 'b>(image: &'b Image<'a>, index: usize) -> (r: Option<
    Section<'a, 'b>,
>)
    ensures
        r == section_numbered(*image, index),
{
    image.inner.section_by_index(object::SectionIndex(index)).ok().map(|inner| Section { inner })
}

/// `object::ObjectSection::data`: the bytes of the section as they lie in
/// the image, if they can be read. They depend on the section alone.
#[verifier::external_body]
pub(crate) fn section_data<'a, 'b>(section: &Section<'a, 'b>) -> (r: Option<&'a [u8]>)
    ensures
        match r {
            Some(bytes) => section_content(*section) == Some(bytes@),
            None => section_content(*section).is_none(),
        },
{
    section.inner.data().ok()
}

/// `object::ObjectSection::name`: the name of the section, if it can be
/// read. It depends on the section alone.
#[verifier::external_body]
pub(crate) fn section_name(section: &Section) -> (r: Option<String>)
    ensures
        text_of(r) == section_title(*section),
{
    section.inner.name().ok().map(|n| n.to_owned())
}

/// `object::Object::symbols`: the symbols of the image, not yet read.
/// They are the symbols of its symbol table, all still to be handed out.
#[verifier::external_body]
pub(crate) fn symbol_list<'a, 'b>(image: &'b Image<'a>) -> (r: SymbolList<'a, 'b>)
    ensures
        symbols_left(r) == symbols_in(*image),
{
    SymbolList { inner: image.inner.symbols() }
}

/// `object::SymbolIterator::next`: the next symbol of the symbol table;
/// `None` after the last. A symbol that comes back is the first of those
/// that were left, and the others are left; none comes back only when
/// none was left.
#[verifier::external_body]
pub(crate) fn next_symbol<'a, 'b>(list: &mut SymbolList<'a, 'b>) -> (r: Option<Symbol<'a, 'b>>)
    ensures
        match r {
            Some(symbol) => symbols_left(*old(list)).len() > 0 && symbol == symbols_left(
                *old(list),
            )[0] && symbols_left(*final(list)) == symbols_left(*old(list)).skip(1),
            None => symbols_left(*old(list)).len() == 0,
        },
{
    list.inner.next().map(|inner| Symbol { inner })
}

/// `object::ObjectSymbol::name`: the name of the symbol, if it can be
/// read. It depends on the symbol alone.
#[verifier::external_body]
pub(crate) fn symbol_name(symbol: &Symbol) -> (r: Option<String>)
    ensures
        text_of(r) == symbol_label(*symbol),
{
    symbol.inner.name().ok().map(|n| n.to_owned())
}

/// `object::ObjectSymbol::address`: the address of the symbol. It depends
/// on the symbol alone.
#[verifier::external_body]
pub(crate) fn symbol_address(symbol: &Symbol) -> (r: u64)
    ensures
        r == symbol_place(*symbol),
{
    symbol.inner.address()
}

/// `object::ObjectSymbol::size`: the size of the symbol. It depends on
/// the symbol alone.
#[verifier::external_body]
pub(crate) fn symbol_size(symbol: &Symbol) -> (r: u64)
    ensures
        r == symbol_extent(*symbol),
{
    symbol.inner.size()
}

/// `object::ObjectSymbol::section_index`: the number of the section of
/// the symbol, if it lies in one. It depends on the symbol alone.
#[verifier::external_body]
pub(crate) fn symbol_section(symbol: &Symbol) -> (r: Option<usize>)
    ensures
        r == symbol_home(*symbol),
{
    symbol.inner.section_index().map(|i| i.0)
}

// ---------------------------------------------------------------------------
// Symbols as plain values
// ---------------------------------------------------------------------------

/// The bytes of the section of `image` named `name`; none if the image
/// has no such section or its bytes cannot be read.
pub open spec fn section_bytes(image: Image, name: Seq<char>) -> Seq<u8> {
    match section_named(image, name) {
        Some(section) => match section_content(section) {
            Some(bytes) => bytes,
            None => Seq::empty(),
        },
        None => Seq::empty(),
    }
}

/// The name of the section of number `home` of `image`; empty if `home`
/// is no number, the image has no such section or its name cannot be
/// read.
pub open spec fn section_of(image: Image, home: Option<usize>) -> Seq<char> {
    match home {
        Some(index) => match section_numbered(image, index) {
            Some(section) => match section_title(section) {
                Some(name) => name,
                None => Seq::empty(),
            },
            None => Seq::empty(),
        },
        None => Seq::empty(),
    }
}

/// The bytes of the section of `image` named `name`, if it has such a
/// section with bytes that can be read.
pub(crate) fn read_section<'a>(image: &Image<'a>, name: &str) -> (r: Option<&'a [u8]>)
    ensures
        match r {
            Some(bytes) => bytes@ == section_bytes(*image, name@),
            None => section_bytes(*image, name@).len() == 0,
        },
{
    match find_section(image, name) {
        Some(section) => section_data(&section),
        None => None,
    }
}

/// The name of the section that `symbol` of `image` lies in.
pub(crate) fn read_section_name(image: &Image, symbol: &Symbol) -> (r: String)
    ensures
        r@ == section_of(*image, symbol_home(*symbol)),
{
    match symbol_section(symbol) {
        Some(index) => match section_at(image, index) {
            Some(section) => match section_name(&section) {
                Some(name) => name,
                None => String::new(),
            },
            None => String::new(),
        },
        None => String::new(),
    }
}

/// Whether the plain symbol `s` says what `symbol` of `image` holds.
pub open spec fn tells_symbol(s: RawSymbol, image: Image, symbol: Symbol) -> bool {
    &&& text_of(s.name) == symbol_label(symbol)
    &&& s.address == symbol_place(symbol)
    &&& s.size == symbol_extent(symbol)
    &&& s.section@ == section_of(image, symbol_home(symbol))
}

/// Whether the plain symbols `symbols` say what the symbols `from` of
/// `image` hold, one for one and in order.
pub open spec fn tell_symbols(symbols: Seq<RawSymbol>, image: Image, from: Seq<Symbol>) -> bool {
    &&& symbols.len() == from.len()
    &&& forall|i: int|
        0 <= i < symbols.len() ==> tells_symbol(#[trigger] symbols[i], image, from[i])
}

/// `symbol` of `image` as a plain value.
pub(crate) fn read_symbol(image: &Image, symbol: &Symbol) -> (r: RawSymbol)
    ensures
        tells_symbol(r, *image, *symbol),
{
    RawSymbol {
        name: symbol_name(symbol),
        address: symbol_address(symbol),
        size: symbol_size(symbol),
        section: read_section_name(image, symbol),
    }
}

/// The symbols of `image` as plain values, in the order of its symbol
/// table.
pub(crate) fn read_symbols(image: &Image) -> (r: Vec<RawSymbol>)
    ensures
        tell_symbols(r@, *image, symbols_in(*image)),
{
    let mut list = symbol_list(image);
    let mut symbols: Vec<RawSymbol> = Vec::new();
    let ghost all = symbols_in(*image);
    proof {
        assert(all.skip(0) =~= all);
    }
    loop
        invariant_except_break
            symbols_left(list) == all.skip(symbols.len() as int),
        invariant
            all == symbols_in(*image),
            symbols.len() <= all.len(),
            forall|i: int|
                0 <= i < symbols.len() ==> tells_symbol(#[trigger] symbols@[i], *image, all[i]),
        ensures
            tell_symbols(symbols@, *image, all),
        decreases symbols_left(list).len(),
    {
        let ghost before = symbols_left(list);
        let ghost n = symbols.len() as int;
        match next_symbol(&mut list) {
            Some(symbol) => {
                let plain = read_symbol(image, &symbol);
                proof {
                    assert(before[0] == all[n]);
                    assert(before.skip(1) =~= all.skip(n + 1));
                }
                symbols.push(plain);
            },
            None => {
                proof {
                    assert(all.skip(n).len() == 0);
                }
                break ;
            },
        }
    }
    symbols
}

/// The image in `data`.
pub(crate) fn read_image<'a>(data: &'a [u8]) -> (r: Result<Image<'a>, ParseError>)
    ensures
        match r {
            Ok(image) => image_in(data@) == Some(image),
            Err(e) => e == ParseError::InvalidImage && image_in(data@).is_none(),
        },
{
    match open_image(data) {
        Ok(image) => Ok(image),
        Err(_) => Err(ParseError::InvalidImage),
    }
}

} // verus!
