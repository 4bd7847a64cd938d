//! The symbol extractor: from the symbols of an image to its variables,
//! each name once, in the order of their names.

use crate::infer::{infer_type_name, sized_label};
use crate::text::{chars_of, contains, same_chars};
use crate::types::{holds, variable_views, Variable, VariableView};
use vstd::prelude::*;

verus! {

/// One symbol of an image: its name, if it can be read; its address and
/// size; and the name of its section, empty if it has none or the name
/// cannot be read.
#[derive(Debug)]
pub struct RawSymbol {
    pub name: Option<String>,
    pub address: u64,
    pub size: u64,
    pub section: String,
}

// ---------------------------------------------------------------------------
// The order of names
// ---------------------------------------------------------------------------

/// Whether `a` comes before `b` in the order of the dictionary, character
/// by character.
pub open spec fn lex_less(a: Seq<char>, b: Seq<char>) -> bool
    decreases a.len(),
{
    if b.len() == 0 {
        false
    } else if a.len() == 0 {
        true
    } else if a[0] != b[0] {
        a[0] < b[0]
    } else {
        lex_less(a.drop_first(), b.drop_first())
    }
}

/// Of two different names one comes before the other.
pub proof fn lemma_lex_total(a: Seq<char>, b: Seq<char>)
    requires
        a != b,
    ensures
        lex_less(a, b) || lex_less(b, a),
    decreases a.len(),
{
    if a.len() > 0 && b.len() > 0 && a[0] == b[0] {
        if a.drop_first() == b.drop_first() {
            assert(a =~= seq![a[0]] + a.drop_first());
            assert(b =~= seq![b[0]] + b.drop_first());
        }
        lemma_lex_total(a.drop_first(), b.drop_first());
    } else if a.len() == 0 && b.len() == 0 {
        assert(a =~= b);
    }
}

/// What comes before a name that comes before a third comes before the
/// third.
pub proof fn lemma_lex_transitive(a: Seq<char>, b: Seq<char>, c: Seq<char>)
    requires
        lex_less(a, b),
        lex_less(b, c),
    ensures
        lex_less(a, c),
    decreases a.len(),
{
    if a.len() > 0 && b.len() > 0 && c.len() > 0 {
        if a[0] == b[0] && b[0] == c[0] {
            lemma_lex_transitive(a.drop_first(), b.drop_first(), c.drop_first());
        }
    }
}

/// Whether `a` comes before `b`.
pub fn comes_before(a: &[char], b: &[char]) -> (r: bool)
    ensures
        r == lex_less(a@, b@),
{
    let mut i: usize = 0;
    proof {
        assert(a@.skip(0) =~= a@);
        assert(b@.skip(0) =~= b@);
    }
    while i < a.len() && i < b.len()
        invariant
            i <= a.len(),
            i <= b.len(),
            lex_less(a@.skip(i as int), b@.skip(i as int)) == lex_less(a@, b@),
        decreases a.len() - i,
    {
        proof {
            assert(a@.skip(i as int)[0] == a@[i as int]);
            assert(b@.skip(i as int)[0] == b@[i as int]);
            assert(a@.skip(i as int).drop_first() =~= a@.skip(i + 1));
            assert(b@.skip(i as int).drop_first() =~= b@.skip(i + 1));
        }
        if a[i] != b[i] {
            return a[i] < b[i];
        }
        i += 1;
    }
    i < b.len()
}

// ---------------------------------------------------------------------------
// Which symbols are variables
// ---------------------------------------------------------------------------

/// Whether a section of the name `section` holds data: its name holds
/// `data`, `bss` or `rodata`, or begins with a dot.
pub open spec fn is_data_section(section: Seq<char>) -> bool {
    ||| contains(section, "data"@)
    ||| contains(section, "bss"@)
    ||| contains(section, "rodata"@)
    ||| (section.len() > 0 && section[0] == '.')
}

/// Whether the symbol `s` is a variable: it has a name that is not empty
/// and does not begin with a dot, a size above 0, and a section that holds
/// data.
pub open spec fn is_variable(s: RawSymbol) -> bool {
    match s.name {
        Some(n) => n@.len() > 0 && n@[0] != '.' && (s.size as usize) > 0 && is_data_section(
            s.section@,
        ),
        None => false,
    }
}

/// The variable that the symbol `s` with the name `name` stands for: its
/// type is named by its size.
pub open spec fn variable_of(s: RawSymbol, name: Seq<char>) -> VariableView {
    VariableView {
        name,
        address: s.address,
        size: s.size as usize,
        ty_name: sized_label(s.size as usize),
        section: s.section@,
        type_info: None,
    }
}

/// The first position at or after `i` whose variable is not named before
/// `name`.
pub open spec fn place_from(list: Seq<VariableView>, name: Seq<char>, i: int) -> int
    decreases list.len() - i,
{
    if i < 0 || i >= list.len() {
        list.len() as int
    } else if !lex_less(list[i].name, name) {
        i
    } else {
        place_from(list, name, i + 1)
    }
}

/// `list` with `v` in its place by name; `list` itself if it holds a
/// variable of that name already.
pub open spec fn placed(list: Seq<VariableView>, v: VariableView) -> Seq<VariableView> {
    let p = place_from(list, v.name, 0);
    if p < list.len() && list[p].name == v.name {
        list
    } else {
        list.insert(p, v)
    }
}

/// The variables among the first `upto` of `symbols`: each symbol that is
/// a variable, the first of each name, in the order of their names.
pub open spec fn extracted(symbols: Seq<RawSymbol>, upto: int) -> Seq<VariableView>
    decreases upto,
{
    if upto <= 0 || upto > symbols.len() {
        Seq::empty()
    } else {
        let before = extracted(symbols, upto - 1);
        let s = symbols[upto - 1];
        match s.name {
            Some(n) => if is_variable(s) {
                placed(before, variable_of(s, n@))
            } else {
                before
            },
            None => before,
        }
    }
}

/// Whether the variables of `list` stand in the order of their names, no
/// name twice.
pub open spec fn sorted_by_name(list: Seq<VariableView>) -> bool {
    forall|i: int, j: int| 0 <= i < j < list.len() ==> lex_less(list[i].name, list[j].name)
}

/// The place of a name is the position before which every name comes
/// before it, and at which none does.
pub proof fn lemma_place_is(list: Seq<VariableView>, name: Seq<char>, i: int, p: int)
    requires
        0 <= i <= p <= list.len(),
        forall|k: int| i <= k < p ==> lex_less(#[trigger] list[k].name, name),
        p < list.len() ==> !lex_less(list[p].name, name),
    ensures
        place_from(list, name, i) == p,
    decreases p - i,
{
    if i < p {
        lemma_place_is(list, name, i + 1, p);
    }
}

/// Putting a variable in its place keeps the order.
pub proof fn lemma_placed_sorted(list: Seq<VariableView>, v: VariableView)
    requires
        sorted_by_name(list),
    ensures
        sorted_by_name(placed(list, v)),
{
    let p = place_from(list, v.name, 0);
    lemma_place_bounds(list, v.name, 0);
    if !(p < list.len() && list[p].name == v.name) {
        let out = list.insert(p, v);
        assert forall|i: int, j: int| 0 <= i < j < out.len() implies lex_less(
            out[i].name,
            out[j].name,
        ) by {
            if j == p {
                assert(out[i] == list[i]);
            } else if i == p {
                assert(out[j] == list[j - 1]);
                if j - 1 > p {
                    lemma_lex_total(list[p].name, v.name);
                    lemma_lex_transitive(v.name, list[p].name, list[j - 1].name);
                } else {
                    lemma_lex_total(list[p].name, v.name);
                }
            } else if i < p && j < p {
                assert(out[i] == list[i] && out[j] == list[j]);
            } else if i < p && j > p {
                assert(out[i] == list[i] && out[j] == list[j - 1]);
            } else {
                assert(out[i] == list[i - 1] && out[j] == list[j - 1]);
            }
        }
    }
}

/// The place of a name lies within the list; every name before it comes
/// before the name, and the name at it does not.
pub proof fn lemma_place_bounds(list: Seq<VariableView>, name: Seq<char>, i: int)
    requires
        0 <= i <= list.len(),
    ensures
        i <= place_from(list, name, i) <= list.len(),
        forall|k: int| i <= k < place_from(list, name, i) ==> lex_less(#[trigger] list[k].name, name),
        place_from(list, name, i) < list.len() ==> !lex_less(
            list[place_from(list, name, i)].name,
            name,
        ),
    decreases list.len() - i,
{
    if i < list.len() && lex_less(list[i].name, name) {
        lemma_place_bounds(list, name, i + 1);
    }
}

/// The variables extracted stand in the order of their names, no name
/// twice.
pub proof fn lemma_extracted_sorted(symbols: Seq<RawSymbol>, upto: int)
    ensures
        sorted_by_name(extracted(symbols, upto)),
    decreases upto,
{
    if 0 < upto <= symbols.len() {
        lemma_extracted_sorted(symbols, upto - 1);
        let s = symbols[upto - 1];
        match s.name {
            Some(n) => {
                if is_variable(s) {
                    lemma_placed_sorted(extracted(symbols, upto - 1), variable_of(s, n@));
                }
            },
            None => {},
        }
    }
}

/// Whether every variable of `list` has a size above 0.
pub open spec fn all_sized(list: Seq<VariableView>) -> bool {
    forall|i: int| 0 <= i < list.len() ==> (#[trigger] list[i]).size > 0
}

/// Every variable extracted has a size above 0.
pub proof fn lemma_extracted_sized(symbols: Seq<RawSymbol>, upto: int)
    ensures
        all_sized(extracted(symbols, upto)),
    decreases upto,
{
    if 0 < upto <= symbols.len() {
        lemma_extracted_sized(symbols, upto - 1);
        let before = extracted(symbols, upto - 1);
        let s = symbols[upto - 1];
        match s.name {
            Some(n) => {
                if is_variable(s) {
                    let v = variable_of(s, n@);
                    let p = place_from(before, v.name, 0);
                    lemma_place_bounds(before, v.name, 0);
                    let after = placed(before, v);
                    assert forall|i: int| 0 <= i < after.len() implies (#[trigger] after[i]).size
                        > 0 by {
                        if !(p < before.len() && before[p].name == v.name) {
                            if i < p {
                                assert(after[i] == before[i]);
                            } else if i > p {
                                assert(after[i] == before[i - 1]);
                            }
                        }
                    }
                }
            },
            None => {},
        }
    }
}

/// Whether the section named `section` holds data.
pub fn section_holds_data(section: &[char]) -> (r: bool)
    ensures
        r == is_data_section(section@),
{
    holds(section, "data") || holds(section, "bss") || holds(section, "rodata") || (section.len()
        > 0 && section[0] == '.')
}

/// The place of `name` among `names`, the names of a list that stands in
/// order.
fn find_place(names: &Vec<Vec<char>>, name: &[char], Ghost(list): Ghost<Seq<VariableView>>) -> (r:
    usize)
    requires
        sorted_by_name(list),
        names.len() == list.len(),
        forall|k: int| 0 <= k < list.len() ==> (#[trigger] names@[k])@ == list[k].name,
    ensures
        r == place_from(list, name@, 0),
        r <= names.len(),
{
    let mut lo: usize = 0;
    let mut hi: usize = names.len();
    while lo < hi
        invariant
            lo <= hi <= names.len(),
            sorted_by_name(list),
            names.len() == list.len(),
            forall|k: int| 0 <= k < list.len() ==> (#[trigger] names@[k])@ == list[k].name,
            forall|k: int| 0 <= k < lo ==> lex_less(#[trigger] list[k].name, name@),
            forall|k: int| hi <= k < list.len() ==> !lex_less(#[trigger] list[k].name, name@),
        decreases hi - lo,
    {
        let mid = lo + (hi - lo) / 2;
        if comes_before(names[mid].as_slice(), name) {
            proof {
                assert forall|k: int| 0 <= k < mid + 1 implies lex_less(
                    #[trigger] list[k].name,
                    name@,
                ) by {
                    if k < mid {
                        lemma_lex_transitive(list[k].name, list[mid as int].name, name@);
                    }
                }
            }
            lo = mid + 1;
        } else {
            proof {
                assert forall|k: int| mid <= k < list.len() implies !lex_less(
                    #[trigger] list[k].name,
                    name@,
                ) by {
                    if k > mid && lex_less(list[k].name, name@) {
                        lemma_lex_transitive(list[mid as int].name, list[k].name, name@);
                    }
                }
            }
            hi = mid;
        }
    }
    proof {
        lemma_place_is(list, name@, 0, lo as int);
    }
    lo
}

/// The variables among `symbols`: each symbol that is a variable, the
/// first of each name, in the order of their names.
pub fn extract_variables(symbols: &Vec<RawSymbol>) -> (r: Vec<Variable>)
    ensures
        variable_views(r@) == extracted(symbols@, symbols@.len() as int),
        sorted_by_name(variable_views(r@)),
        all_sized(variable_views(r@)),
{
    let mut out: Vec<Variable> = Vec::new();
    let mut names: Vec<Vec<char>> = Vec::new();
    let mut i: usize = 0;
    proof {
        assert(variable_views(out@) =~= extracted(symbols@, 0));
    }
    while i < symbols.len()
        invariant
            i <= symbols.len(),
            variable_views(out@) == extracted(symbols@, i as int),
            names.len() == out.len(),
            forall|k: int| 0 <= k < out.len() ==> (#[trigger] names@[k])@ == out@[k].name@,
        decreases symbols.len() - i,
    {
        let s = &symbols[i];
        let ghost before = variable_views(out@);
        proof {
            lemma_extracted_sorted(symbols@, i as int);
        }
        match &s.name {
            Some(n) => {
                let name = chars_of(n.as_str());
                let section = chars_of(s.section.as_str());
                let size: usize = #[verifier::truncate]
                (s.size as usize);
                if name.len() > 0 && name[0] != '.' && size > 0 && section_holds_data(
                    section.as_slice(),
                ) {
                    let p = find_place(&names, name.as_slice(), Ghost(before));
                    let known = p < names.len() && same_chars(
                        names[p].as_slice(),
                        name.as_slice(),
                    );
                    if !known {
                        let v = Variable::new(
                            n.clone(),
                            s.address,
                            size,
                            infer_type_name(size),
                            s.section.clone(),
                        );
                        proof {
                            assert(v@ == variable_of(*s, n@));
                        }
                        out.insert(p, v);
                        names.insert(p, name);
                        proof {
                            assert(variable_views(out@) =~= before.insert(p as int, v@));
                        }
                    }
                }
            },
            None => {},
        }
        i += 1;
    }
    proof {
        lemma_extracted_sorted(symbols@, symbols@.len() as int);
        lemma_extracted_sized(symbols@, symbols@.len() as int);
    }
    out
}

} // verus!
