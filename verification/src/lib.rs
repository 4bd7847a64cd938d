//! Type-and-layout engine for turning firmware images into A2L
//! measurement and characteristic descriptions.
//!
//! The debugging information of an image is read into a repository of type
//! descriptors keyed by offset; every global variable is then expanded
//! into a flat catalogue of addressable leaves; and the catalogue is
//! rendered as A2L blocks, which can also be added to, changed in and
//! deleted from an existing A2L text.

pub mod a2l;
pub mod a2l_edit;
pub mod a2l_scan;
pub mod dwarf;
pub mod dwarf_query;
pub mod dwarf_raw;
pub mod dwarf_read;
pub mod elf;
pub mod expand;
pub mod guards;
pub mod hash;
pub mod image;
pub mod infer;
pub mod layout;
pub mod number;
pub mod parse;
pub mod resolve;
pub mod removal;
pub mod repeat;
pub mod roundtrip;
pub mod shape;
pub mod symbols;
pub mod text;
pub mod types;
pub mod unique;
pub mod words;

pub use a2l::{
    A2lEntryInfo, A2lError, A2lGenerator, A2lParser, A2lVariable, AppendResult, ExportKind,
    SaveResult, VariableChanges, VariableEdit,
};
pub use dwarf::DwarfParser;
pub use dwarf_raw::{AttrValue, RawDie, RawUnit};
pub use dwarf_read::ParseError;
pub use elf::{DwarfStats, ElfParser};
pub use guards::GuardCounts;
pub use hash::{compute_file_hash, format_file_size};
pub use infer::infer_type_from_name;
pub use parse::analyze_variables_with_dwarf;
pub use symbols::RawSymbol;
pub use types::{
    infer_a2l_type, infer_a2l_type_from_encoding, A2lEntry, A2lEntryStore, CacheEntry, Endianness,
    EnumVariant, StructMember, TypeEncoding, TypeInfo, TypeKind, Variable, MAX_ARRAY_EXPAND,
    MAX_NESTING_DEPTH,
};
