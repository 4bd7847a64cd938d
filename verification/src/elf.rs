//! The parse session: the variables of an image and, after a deep parse,
//! the repository of its types and the catalogue of its leaves.

use crate::dwarf::{DwarfParser, ParserView};
use crate::expand::{catalogue, repo_view};
use crate::guards::{counts_of, stops_in_all, GuardCounts, Stops};
use crate::infer::{all_typed, assign_types};
use crate::symbols::{extract_variables, extracted, sorted_by_name, RawSymbol};
use crate::text::{
    chars_of, contains, has_substring, lowercase_of, lowered, same_chars,
};
use crate::types::{
    entry_views, variable_views, A2lEntryStore, EntryView, TypeInfo, TypeView, Variable,
    VariableView,
};
use std::collections::HashMap;
use vstd::prelude::*;

verus! {

/// How many descriptors of each sort the debugging information held.
#[derive(Debug, Clone, Copy, PartialEq, Eq, Structural)]
pub struct DwarfStats {
    pub base_types: usize,
    pub structs: usize,
    pub unions: usize,
    pub enums: usize,
    pub arrays: usize,
    pub pointers: usize,
    pub typedefs: usize,
    pub variables: usize,
    pub struct_members: usize,
    pub enum_values: usize,
}

/// The counts of the parser as the session reports them.
pub open spec fn stats_of(s: crate::dwarf::DwarfStats) -> DwarfStats {
    DwarfStats {
        base_types: s.base_types,
        structs: s.structs,
        unions: s.unions,
        enums: s.enums,
        arrays: s.arrays,
        pointers: s.pointers,
        typedefs: s.typedefs,
        variables: s.variables,
        struct_members: s.struct_members,
        enum_values: s.enum_values,
    }
}

/// The result of parsing one image.
pub struct ElfParser {
    pub(crate) variables: Vec<Variable>,
    pub(crate) file_size: u64,
    pub(crate) has_dwarf: bool,
    pub(crate) dwarf_stats: Option<DwarfStats>,
    pub(crate) a2l_entries: Option<A2lEntryStore>,
    pub(crate) type_cache: Option<HashMap<u64, TypeInfo>>,
    pub(crate) guard_counts: GuardCounts,
}

/// What an `ElfParser` holds.
pub struct SessionView {
    pub variables: Seq<VariableView>,
    pub file_size: u64,
    pub has_dwarf: bool,
    pub dwarf_stats: Option<DwarfStats>,
    pub entries: Option<Seq<EntryView>>,
    pub types: Option<Map<u64, TypeView>>,
    pub guards: GuardCounts,
}

impl View for ElfParser {
    type V = SessionView;

    closed spec fn view(&self) -> SessionView {
        SessionView {
            variables: variable_views(self.variables@),
            file_size: self.file_size,
            has_dwarf: self.has_dwarf,
            dwarf_stats: self.dwarf_stats,
            entries: match self.a2l_entries {
                Some(s) => Some(s@),
                None => None,
            },
            types: match self.type_cache {
                Some(m) => Some(repo_view(m@)),
                None => None,
            },
            guards: self.guard_counts,
        }
    }
}

/// The session for an image of `file_size` bytes with the symbols
/// `symbols`, parsed without its debugging information.
pub open spec fn shallow_session(symbols: Seq<RawSymbol>, file_size: u64) -> SessionView {
    SessionView {
        variables: extracted(symbols, symbols.len() as int),
        file_size,
        has_dwarf: false,
        dwarf_stats: None,
        entries: None,
        types: None,
        guards: counts_of(Stops::none()),
    }
}

/// The session for an image of `file_size` bytes with the symbols
/// `symbols` and the debugging information `parser`: every variable has
/// its type, the catalogue holds the leaves of all of them, and the
/// counts tell how often their expansion stopped short.
pub open spec fn deep_session(symbols: Seq<RawSymbol>, file_size: u64, parser: ParserView)
    -> SessionView {
    let variables = all_typed(parser, extracted(symbols, symbols.len() as int));
    SessionView {
        variables,
        file_size,
        has_dwarf: parser.structs.len() > 0,
        dwarf_stats: if parser.structs.len() > 0 {
            Some(stats_of(parser.stats))
        } else {
            None
        },
        entries: Some(catalogue(parser.types, variables)),
        types: Some(parser.types),
        guards: counts_of(stops_in_all(parser.types, variables)),
    }
}

/// Whether the lower-case name of `v` holds the lower-case form of
/// `pattern`.
pub open spec fn name_matches(v: VariableView, pattern: Seq<char>) -> bool {
    contains(lowercase_of(v.name), lowercase_of(pattern))
}

/// The variables of `vars` whose name holds `pattern`, letter case set
/// aside, in order.
pub open spec fn matching_variables(vars: Seq<VariableView>, pattern: Seq<char>) -> Seq<
    VariableView,
>
    decreases vars.len(),
{
    if vars.len() == 0 {
        Seq::empty()
    } else {
        let head = matching_variables(vars.drop_last(), pattern);
        if name_matches(vars.last(), pattern) {
            head.push(vars.last())
        } else {
            head
        }
    }
}

/// The first position at or after `i` whose variable is named `name`.
pub open spec fn variable_index(vars: Seq<VariableView>, name: Seq<char>, i: int) -> Option<int>
    decreases vars.len() - i,
{
    if i < 0 || i >= vars.len() {
        None
    } else if vars[i].name == name {
        Some(i)
    } else {
        variable_index(vars, name, i + 1)
    }
}

/// The views of the variables that a list of references points to.
pub open spec fn variable_ref_views(s: Seq<&Variable>) -> Seq<VariableView> {
    Seq::new(s.len(), |i: int| s[i]@)
}

impl ElfParser {
    /// The session for an image of `file_size` bytes with the symbols
    /// `symbols`, without its debugging information.
    pub fn shallow(symbols: &Vec<RawSymbol>, file_size: u64) -> (r: Self)
        ensures
            r@ == shallow_session(symbols@, file_size),
            sorted_by_name(r@.variables),
    {
        ElfParser {
            variables: extract_variables(symbols),
            file_size,
            has_dwarf: false,
            dwarf_stats: None,
            a2l_entries: None,
            type_cache: None,
            guard_counts: GuardCounts { too_deep: 0, too_wide: 0 },
        }
    }

    /// The session for an image of `file_size` bytes with the symbols
    /// `symbols` and the debugging information `parser`.
    pub fn deep(symbols: &Vec<RawSymbol>, file_size: u64, parser: DwarfParser) -> (r: Self)
        ensures
            r@ == deep_session(symbols@, file_size, parser@),
    {
        let mut variables = extract_variables(symbols);
        assign_types(&mut variables, &parser);
        let has_dwarf = parser.struct_index.len() > 0;
        let dwarf_stats = if has_dwarf {
            Some(
                DwarfStats {
                    base_types: parser.stats.base_types,
                    structs: parser.stats.structs,
                    unions: parser.stats.unions,
                    enums: parser.stats.enums,
                    arrays: parser.stats.arrays,
                    pointers: parser.stats.pointers,
                    typedefs: parser.stats.typedefs,
                    variables: parser.stats.variables,
                    struct_members: parser.stats.struct_members,
                    enum_values: parser.stats.enum_values,
                },
            )
        } else {
            None
        };
        let entries = Self::expand_all_entries(&variables, &parser.type_cache);
        let guard_counts = Self::count_all_guard_stops(&variables, &parser.type_cache);
        ElfParser {
            variables,
            file_size,
            has_dwarf,
            dwarf_stats,
            a2l_entries: Some(entries),
            type_cache: Some(parser.type_cache),
            guard_counts,
        }
    }

    /// How often the expansion of the variables stopped short: at the
    /// depth limit, and at arrays with too many elements.
    pub fn guard_counts(&self) -> (r: GuardCounts)
        ensures
            r == self@.guards,
    {
        self.guard_counts
    }

    /// The variables, in the order of their names.
    pub fn variables(&self) -> (r: &[Variable])
        ensures
            variable_views(r@) == self@.variables,
    {
        self.variables.as_slice()
    }

    /// The number of variables.
    pub fn variable_count(&self) -> (r: usize)
        ensures
            r == self@.variables.len(),
    {
        self.variables.len()
    }

    /// The size of the image file in bytes.
    pub fn file_size(&self) -> (r: u64)
        ensures
            r == self@.file_size,
    {
        self.file_size
    }

    /// Whether the image held debugging information with at least one
    /// named struct or union.
    pub fn has_dwarf(&self) -> (r: bool)
        ensures
            r == self@.has_dwarf,
    {
        self.has_dwarf
    }

    /// The counts of the debugging information, if there was any.
    pub fn dwarf_stats(&self) -> (r: Option<&DwarfStats>)
        ensures
            match r {
                Some(s) => self@.dwarf_stats == Some(*s),
                None => self@.dwarf_stats.is_none(),
            },
    {
        self.dwarf_stats.as_ref()
    }

    /// The variables whose name holds `pattern`, letter case set aside, in
    /// order.
    pub fn search(&self, pattern: &str) -> (r: Vec<&Variable>)
        ensures
            variable_ref_views(r@) == matching_variables(self@.variables, pattern@),
    {
        let needle = lowered(pattern);
        let mut r: Vec<&Variable> = Vec::new();
        let mut i: usize = 0;
        let ghost vars = variable_views(self.variables@);
        proof {
            assert(vars.take(0) =~= Seq::<VariableView>::empty());
            assert(variable_ref_views(r@) =~= matching_variables(vars.take(0), pattern@));
        }
        while i < self.variables.len()
            invariant
                i <= self.variables.len(),
                vars == variable_views(self.variables@),
                needle@ == lowercase_of(pattern@),
                variable_ref_views(r@) == matching_variables(vars.take(i as int), pattern@),
            decreases self.variables.len() - i,
        {
            let hay = lowered(self.variables[i].name.as_str());
            proof {
                let next = vars.take(i + 1);
                assert(next.drop_last() =~= vars.take(i as int));
                assert(next.last() == self.variables@[i as int]@);
            }
            if has_substring(hay.as_slice(), needle.as_slice()) {
                let ghost before = r@;
                r.push(&self.variables[i]);
                proof {
                    assert(variable_ref_views(r@) =~= variable_ref_views(before).push(
                        self.variables@[i as int]@,
                    ));
                }
            }
            i += 1;
        }
        proof {
            assert(vars.take(self.variables.len() as int) =~= vars);
        }
        r
    }

    /// The first variable named `name`.
    pub fn get_by_name(&self, name: &str) -> (r: Option<&Variable>)
        ensures
            match variable_index(self@.variables, name@, 0) {
                Some(i) => r.is_some() && r.unwrap()@ == self@.variables[i],
                None => r.is_none(),
            },
    {
        let wanted = chars_of(name);
        let ghost vars = variable_views(self.variables@);
        let mut i: usize = 0;
        while i < self.variables.len()
            invariant
                i <= self.variables.len(),
                vars == variable_views(self.variables@),
                wanted@ == name@,
                variable_index(vars, name@, i as int) == variable_index(vars, name@, 0),
            decreases self.variables.len() - i,
        {
            let current = chars_of(self.variables[i].name.as_str());
            proof {
                assert(vars[i as int] == self.variables@[i as int]@);
            }
            if same_chars(current.as_slice(), wanted.as_slice()) {
                return Some(&self.variables[i]);
            }
            i += 1;
        }
        None
    }

    /// The catalogue, if the session has one.
    pub fn a2l_entries(&self) -> (r: Option<&A2lEntryStore>)
        ensures
            match r {
                Some(s) => self@.entries == Some(s@),
                None => self@.entries.is_none(),
            },
    {
        self.a2l_entries.as_ref()
    }

    /// The number of entries of the catalogue; 0 without a catalogue.
    pub fn a2l_entry_count(&self) -> (r: usize)
        ensures
            r == match self@.entries {
                Some(e) => e.len(),
                None => 0,
            },
    {
        match &self.a2l_entries {
            Some(s) => s.len(),
            None => 0,
        }
    }

    /// Puts `store` in as the catalogue.
    pub fn set_a2l_entries(&mut self, store: A2lEntryStore)
        ensures
            final(self)@ == (SessionView { entries: Some(store@), ..old(self)@ }),
    {
        self.a2l_entries = Some(store);
    }
}

} // verus!
