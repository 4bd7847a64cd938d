//! From the bytes of an image to the parser and the session.

use crate::dwarf::{after_units, DwarfParser, ParserView};
use crate::dwarf_raw::RawUnit;
use crate::dwarf_read::{heads_left, read_units, tell_units, units_fail, units_in, ParseError};
use crate::elf::{deep_session, shallow_session, ElfParser, SessionView};
use crate::image::{
    image_in, read_image, read_section, read_symbols, section_bytes, symbols_in, tell_symbols,
    Image,
};
use crate::infer::{all_typed, assign_types};
use crate::resolve::{backfilled, collapsed, inlined, resolved};
use crate::shape::{all_shaped, law_repository_shaped};
use crate::symbols::RawSymbol;
use crate::types::{variable_views, TypeView, Variable};
use vstd::prelude::*;

verus! {

// ---------------------------------------------------------------------------
// The repository of an image
// ---------------------------------------------------------------------------

/// The section `.debug_info` of `image`.
pub open spec fn debug_info(image: Image) -> Seq<u8> {
    section_bytes(image, ".debug_info"@)
}

/// The section `.debug_abbrev` of `image`.
pub open spec fn debug_abbrev(image: Image) -> Seq<u8> {
    section_bytes(image, ".debug_abbrev"@)
}

/// Whether `image` holds debugging information: neither of the two
/// sections is missing or empty.
pub open spec fn has_debug(image: Image) -> bool {
    debug_info(image).len() > 0 && debug_abbrev(image).len() > 0
}

/// Whether the debugging information of the image in `data` cannot be
/// read: the bytes hold no image, or a unit header or an entry of its
/// debugging information cannot be read.
pub open spec fn unreadable(data: Seq<u8>) -> bool {
    match image_in(data) {
        Some(image) => has_debug(image) && units_fail(debug_info(image), debug_abbrev(image)),
        None => true,
    }
}

/// Whether `p` is the repository of the units `units`, and these say what
/// the sections `info` and `abbrev` hold.
pub open spec fn made_from(p: ParserView, units: Seq<RawUnit>, info: Seq<u8>, abbrev: Seq<u8>)
    -> bool {
    tell_units(units, heads_left(units_in(info)), abbrev) && p == resolved(
        after_units(units, units.len() as int),
    )
}

/// Whether `p` is the repository of the image in `data`: empty for an
/// image without debugging information; else what the units of its
/// debugging information give, each unit whose abbreviations can be read
/// taken with all its entries.
pub open spec fn is_repository_of(p: ParserView, data: Seq<u8>) -> bool {
    match image_in(data) {
        Some(image) => if has_debug(image) {
            exists|units: Seq<RawUnit>| #[trigger]
                made_from(p, units, debug_info(image), debug_abbrev(image))
        } else {
            p == ParserView::empty()
        },
        None => false,
    }
}

/// No units give the empty parser.
pub proof fn lemma_no_units()
    ensures
        resolved(after_units(Seq::<RawUnit>::empty(), 0)) == ParserView::empty(),
{
    let none = Seq::<RawUnit>::empty();
    let st = after_units(none, 0);
    assert(st == ParserView::empty());
    assert(backfilled(st.types) =~= Map::<u64, TypeView>::empty());
    assert(collapsed(backfilled(st.types), st.type_refs, 0) == backfilled(st.types));
    assert(inlined(backfilled(st.types), st.array_elements, 0) == backfilled(st.types));
    assert(resolved(st).types =~= ParserView::empty().types);
    assert(resolved(st) == ParserView::empty());
}

/// Every descriptor of the repository of an image has the shape of its
/// kind and stands under the offset that it carries.
pub proof fn law_image_repository_shaped(p: ParserView, data: Seq<u8>)
    requires
        is_repository_of(p, data),
    ensures
        all_shaped(p.types),
{
    let image = image_in(data).unwrap();
    if has_debug(image) {
        let units = choose|units: Seq<RawUnit>| #[trigger]
            made_from(p, units, debug_info(image), debug_abbrev(image));
        law_repository_shaped(units);
    } else {
        lemma_no_units();
        law_repository_shaped(Seq::<RawUnit>::empty());
    }
}

impl DwarfParser {
    /// The parser for the image in `elf_data`. An image without debugging
    /// information, or with empty debugging sections, gives the empty
    /// parser. Fails if the image, a unit header or an entry cannot be
    /// read.
    pub fn parse(elf_data: &[u8]) -> (r: Result<Self, ParseError>)
        ensures
            match r {
                Ok(p) => p@.wf() && !unreadable(elf_data@) && is_repository_of(p@, elf_data@),
                Err(e) => e == ParseError::InvalidImage && unreadable(elf_data@),
            },
    {
        let image = match read_image(elf_data) {
            Ok(i) => i,
            Err(e) => {
                return Err(ParseError::InvalidImage);
            },
        };
        let info = read_section(&image, ".debug_info");
        let abbrev = read_section(&image, ".debug_abbrev");
        match (info, abbrev) {
            (Some(i), Some(a)) => {
                if i.len() == 0 || a.len() == 0 {
                    return Ok(DwarfParser::new());
                }
                match read_units(i, a) {
                    Ok(units) => {
                        let parser = DwarfParser::from_units(&units);
                        proof {
                            assert(made_from(parser@, units@, i@, a@));
                        }
                        Ok(parser)
                    },
                    Err(e) => Err(ParseError::InvalidImage),
                }
            },
            _ => Ok(DwarfParser::new()),
        }
    }
}

/// Gives each of `variables` its type from the debugging information of
/// the image in `elf_data`, or the type that its name and size suggest,
/// and tells whether the image held debugging information with a named
/// struct or union. On failure the variables stay as they are.
pub fn analyze_variables_with_dwarf(variables: &mut Vec<Variable>, elf_data: &[u8]) -> (r: Result<
    bool,
    ParseError,
>)
    ensures
        match r {
            Ok(found) => !unreadable(elf_data@) && exists|p: ParserView|
                #[trigger] is_repository_of(p, elf_data@) && found == (p.structs.len() > 0)
                    && variable_views(final(variables)@) == all_typed(
                    p,
                    variable_views(old(variables)@),
                ),
            Err(e) => e == ParseError::InvalidImage && unreadable(elf_data@) && final(variables)@
                == old(variables)@,
        },
{
    match DwarfParser::parse(elf_data) {
        Ok(parser) => {
            assign_types(variables, &parser);
            Ok(parser.has_dwarf_info())
        },
        Err(e) => Err(e),
    }
}

impl DwarfParser {
    /// Whether the debugging information held a named struct or union.
    pub fn has_dwarf_info(&self) -> (r: bool)
        ensures
            r == (self@.structs.len() > 0),
    {
        self.struct_index.len() > 0
    }
}

// ---------------------------------------------------------------------------
// The session of an image
// ---------------------------------------------------------------------------

/// Whether `s` is the session that the symbols `symbols` give for the
/// image in `data`, with or without the repository of its debugging
/// information.
pub open spec fn session_from(s: SessionView, symbols: Seq<RawSymbol>, data: Seq<u8>, deep: bool)
    -> bool {
    if deep {
        exists|p: ParserView| #[trigger]
            is_repository_of(p, data) && s == deep_session(symbols, data.len() as u64, p)
    } else {
        s == shallow_session(symbols, data.len() as u64)
    }
}

/// Whether `s` is the session of the image in `data`: what the symbols of
/// its symbol table give, in the order of the table, with or without the
/// repository of its debugging information.
pub open spec fn is_session_of(s: SessionView, data: Seq<u8>, deep: bool) -> bool {
    match image_in(data) {
        Some(image) => exists|symbols: Seq<RawSymbol>| #[trigger]
            tell_symbols(symbols, image, symbols_in(image)) && session_from(s, symbols, data, deep),
        None => false,
    }
}

/// Whether no session can be made for the image in `data`: the bytes
/// hold no image or, with `deep`, its debugging information cannot be
/// read.
pub open spec fn no_session(data: Seq<u8>, deep: bool) -> bool {
    if deep {
        unreadable(data)
    } else {
        image_in(data).is_none()
    }
}

impl ElfParser {
    /// The session for the image in `data`, without its debugging
    /// information.
    pub fn parse(data: &[u8]) -> (r: Result<Self, ParseError>)
        ensures
            match r {
                Ok(s) => !no_session(data@, false) && is_session_of(s@, data@, false),
                Err(e) => e == ParseError::InvalidImage && no_session(data@, false),
            },
    {
        Self::parse_with_depth(data, false)
    }

    /// The session for the image in `data`, with its debugging
    /// information.
    pub fn parse_deep(data: &[u8]) -> (r: Result<Self, ParseError>)
        ensures
            match r {
                Ok(s) => !no_session(data@, true) && is_session_of(s@, data@, true),
                Err(e) => e == ParseError::InvalidImage && no_session(data@, true),
            },
    {
        Self::parse_with_depth(data, true)
    }

    /// The session for the image in `data`: its variables, and with `deep`
    /// their types and the catalogue of their leaves. Fails if the image
    /// or, with `deep`, its debugging information cannot be read.
    pub fn parse_with_depth(data: &[u8], deep: bool) -> (r: Result<Self, ParseError>)
        ensures
            match r {
                Ok(s) => !no_session(data@, deep) && is_session_of(s@, data@, deep),
                Err(e) => e == ParseError::InvalidImage && no_session(data@, deep),
            },
    {
        let file_size = data.len() as u64;
        let image = match read_image(data) {
            Ok(i) => i,
            Err(e) => {
                return Err(ParseError::InvalidImage);
            },
        };
        let symbols = read_symbols(&image);
        let ghost read = image_in(data@).unwrap();
        if deep {
            match DwarfParser::parse(data) {
                Ok(parser) => {
                    let ghost p = parser@;
                    let session = Self::deep(&symbols, file_size, parser);
                    proof {
                        assert(is_repository_of(p, data@) && session@ == deep_session(
                            symbols@,
                            data@.len() as u64,
                            p,
                        ));
                        assert(tell_symbols(symbols@, read, symbols_in(read)) && session_from(
                            session@,
                            symbols@,
                            data@,
                            deep,
                        ));
                    }
                    Ok(session)
                },
                Err(e) => Err(e),
            }
        } else {
            let session = Self::shallow(&symbols, file_size);
            proof {
                assert(tell_symbols(symbols@, read, symbols_in(read)) && session_from(
                    session@,
                    symbols@,
                    data@,
                    deep,
                ));
            }
            Ok(session)
        }
    }
}

} // verus!
