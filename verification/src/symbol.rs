//! The symbol table: predefined symbols, labels, then user variables.
//!
//! The table is built once per translation by [`make_symbol_table`] and is
//! read-only afterwards.  It is modeled as an association list looked up by
//! first match; the builder never inserts a name twice, so the first binding
//! of a name always wins.

use crate::lines::{
    content_lines, is_label, is_label_spec, is_variable, is_variable_spec, label_name,
    label_name_spec, lemma_content_front, lemma_content_len_le, lemma_normalize_len_le,
    normalize_lines, normalize_program, str_to_chars, sub_chars,
};
use vstd::prelude::*;
use vstd::string::*;

verus! {

broadcast use vstd::string::group_string_axioms;

/// First-match lookup in an association list of bindings.
pub open spec fn assoc_lookup(t: Seq<(Seq<char>, u16)>, name: Seq<char>) -> Option<u16>
    decreases t.len(),
{
    if t.len() == 0 {
        None
    } else if t[0].0 == name {
        Some(t[0].1)
    } else {
        assoc_lookup(t.drop_first(), name)
    }
}

/// Whether a name is bound.
pub open spec fn assoc_contains(t: Seq<(Seq<char>, u16)>, name: Seq<char>) -> bool {
    assoc_lookup(t, name) is Some
}

/// A binding appended at the end is only seen by names that were unbound.
pub proof fn lemma_assoc_push(t: Seq<(Seq<char>, u16)>, p: (Seq<char>, u16), name: Seq<char>)
    ensures
        assoc_lookup(t.push(p), name) == if assoc_contains(t, name) {
            assoc_lookup(t, name)
        } else if p.0 == name {
            Some(p.1)
        } else {
            None::<u16>
        },
    decreases t.len(),
{
    if t.len() == 0 {
        assert(t.push(p)[0] == p);
        assert(t.push(p).drop_first() =~= Seq::<(Seq<char>, u16)>::empty());
    } else {
        assert(t.push(p)[0] == t[0]);
        assert(t.push(p).drop_first() =~= t.drop_first().push(p));
        lemma_assoc_push(t.drop_first(), p, name);
    }
}

/// A lookup in a table of 15-bit addresses returns a 15-bit address.
pub proof fn lemma_assoc_lookup_le(t: Seq<(Seq<char>, u16)>, name: Seq<char>)
    requires
        forall|i: int| 0 <= i < t.len() ==> (#[trigger] t[i]).1 <= 32767,
    ensures
        assoc_lookup(t, name) matches Some(v) ==> v <= 32767,
    decreases t.len(),
{
    if t.len() > 0 && t[0].0 != name {
        let td = t.drop_first();
        assert forall|i: int| 0 <= i < td.len() implies (#[trigger] td[i]).1 <= 32767 by {
            assert(td[i] == t[i + 1]);
        }
        lemma_assoc_lookup_le(td, name);
    }
}

/// The name-to-address table, populated by [`make_symbol_table`].
pub struct SymbolTable {
    names: Vec<Vec<char>>,
    addrs: Vec<u16>,
}

impl SymbolTable {
    /// The two columns line up.
    pub closed spec fn wf(&self) -> bool {
        self.names@.len() == self.addrs@.len()
    }

    /// The table's bindings, in insertion order.
    pub closed spec fn entries(&self) -> Seq<(Seq<char>, u16)> {
        Seq::new(self.names@.len(), |i: int| (self.names@[i]@, self.addrs@[i]))
    }

    /// Every address fits the 15-bit range of an address instruction.
    pub open spec fn bounded(&self) -> bool {
        forall|i: int| 0 <= i < self.entries().len() ==> (#[trigger] self.entries()[i]).1 <= 32767
    }

    /// The address bound to `name`, if any.
    pub fn get(&self, name: &Vec<char>) -> (r: Option<u16>)
        requires
            self.wf(),
        ensures
            r == assoc_lookup(self.entries(), name@),
    {
        proof {
            assert(self.entries().skip(0) =~= self.entries());
        }
        let mut i: usize = 0;
        while i < self.names.len()
            invariant
                self.wf(),
                i <= self.names@.len(),
                assoc_lookup(self.entries(), name@) == assoc_lookup(
                    self.entries().skip(i as int),
                    name@,
                ),
            decreases self.names@.len() - i,
        {
            proof {
                assert(self.entries().skip(i as int)[0] == self.entries()[i as int]);
            }
            if chars_eq(&self.names[i], name) {
                return Some(self.addrs[i]);
            }
            proof {
                assert(self.entries().skip(i as int).drop_first() =~= self.entries().skip(i + 1));
            }
            i = i + 1;
        }
        proof {
            assert(self.entries().skip(self.names@.len() as int) =~= Seq::<(
                Seq<char>,
                u16,
            )>::empty());
        }
        None
    }

    /// Whether `name` is bound.
    pub fn contains(&self, name: &Vec<char>) -> (b: bool)
        requires
            self.wf(),
        ensures
            b == assoc_contains(self.entries(), name@),
    {
        self.get(name).is_some()
    }

    fn insert(&mut self, name: Vec<char>, addr: u16)
        requires
            old(self).wf(),
        ensures
            final(self).wf(),
            final(self).entries() == old(self).entries().push((name@, addr)),
    {
        let ghost nv = name@;
        self.names.push(name);
        self.addrs.push(addr);
        proof {
            assert(self.entries() =~= old(self).entries().push((nv, addr)));
        }
    }
}

/// Character-for-character equality of two names.
pub fn chars_eq(a: &Vec<char>, b: &Vec<char>) -> (r: bool)
    ensures
        r == (a@ == b@),
{
    if a.len() != b.len() {
        return false;
    }
    let mut i: usize = 0;
    while i < a.len()
        invariant
            a@.len() == b@.len(),
            i <= a@.len(),
            forall|j: int| 0 <= j < i ==> a@[j] == b@[j],
        decreases a@.len() - i,
    {
        if a[i] != b[i] {
            return false;
        }
        i = i + 1;
    }
    proof {
        assert(a@ =~= b@);
    }
    true
}

/// The entry of the predefined symbol layer at position `i`.
pub open spec fn predefined_entry(i: int) -> (Seq<char>, u16) {
    if i == 0 {
        ("SP"@, 0u16)

    } else if i == 1 {
        ("LCL"@, 1u16)

    } else if i == 2 {
        ("ARG"@, 2u16)

    } else if i == 3 {
        ("THIS"@, 3u16)

    } else if i == 4 {
        ("THAT"@, 4u16)

    } else if i == 5 {
        ("SCREEN"@, 16384u16)

    } else if i == 6 {
        ("KBD"@, 24576u16)

    } else if i == 7 {
        ("R0"@, 0u16)

    } else if i == 8 {
        ("R1"@, 1u16)

    } else if i == 9 {
        ("R2"@, 2u16)

    } else if i == 10 {
        ("R3"@, 3u16)

    } else if i == 11 {
        ("R4"@, 4u16)

    } else if i == 12 {
        ("R5"@, 5u16)

    } else if i == 13 {
        ("R6"@, 6u16)

    } else if i == 14 {
        ("R7"@, 7u16)

    } else if i == 15 {
        ("R8"@, 8u16)

    } else if i == 16 {
        ("R9"@, 9u16)

    } else if i == 17 {
        ("R10"@, 10u16)

    } else if i == 18 {
        ("R11"@, 11u16)

    } else if i == 19 {
        ("R12"@, 12u16)

    } else if i == 20 {
        ("R13"@, 13u16)

    } else if i == 21 {
        ("R14"@, 14u16)

    } else if i == 22 {
        ("R15"@, 15u16)

    } else {
        ("SP"@, 0u16)
    }
}

/// The predefined symbol layer: the named registers of the architecture.
pub open spec fn predefined_table() -> Seq<(Seq<char>, u16)> {
    Seq::new(23, |i: int| predefined_entry(i))
}

/// The label layer: a pass over the normalized lines.  A label is bound,
/// unless its name already is, to the ordinal of the next content
/// instruction once labels are removed.
pub open spec fn add_labels(t: Seq<(Seq<char>, u16)>, rem: Seq<Seq<char>>, count: nat) -> Seq<
    (Seq<char>, u16),
>
    decreases rem.len(),
{
    if rem.len() == 0 {
        t
    } else {
        let l = rem.first();
        let rest = rem.drop_first();
        if is_label_spec(l) {
            let nm = label_name_spec(l);
            let t2 = if assoc_contains(t, nm) {
                t
            } else {
                t.push((nm, count as u16))
            };
            add_labels(t2, rest, count)
        } else {
            add_labels(t, rest, count + 1)
        }
    }
}

/// The variable layer: a pass over the normalized lines.  Each address
/// instruction whose target is a fresh non-numeric name takes the next free
/// address, starting at 16.
pub open spec fn add_vars(t: Seq<(Seq<char>, u16)>, rem: Seq<Seq<char>>, next: nat) -> Seq<
    (Seq<char>, u16),
>
    decreases rem.len(),
{
    if rem.len() == 0 {
        t
    } else {
        let l = rem.first();
        let rest = rem.drop_first();
        if is_variable_spec(l) {
            let nm = l.skip(1);
            if assoc_contains(t, nm) {
                add_vars(t, rest, next)
            } else {
                add_vars(t.push((nm, next as u16)), rest, next + 1)
            }
        } else {
            add_vars(t, rest, next)
        }
    }
}

/// The completed table of a raw program: predefined symbols, then labels,
/// then variables.
pub open spec fn table_spec(lines: Seq<Seq<char>>) -> Seq<(Seq<char>, u16)> {
    let norm = normalize_lines(lines);
    add_vars(add_labels(predefined_table(), norm, 0), norm, 16)
}

/// The program is small enough that every label and every variable gets an
/// address within the architecture's 15-bit address space.
pub open spec fn program_fits(lines: Seq<Seq<char>>) -> bool {
    normalize_lines(lines).len() + 16 <= 32768
}

/// A sufficient size check on the raw line count.
pub fn program_size_ok(program: &Vec<String>) -> (b: bool)
    ensures
        b ==> program_fits(program.deep_view()),
{
    proof {
        lemma_normalize_len_le(program.deep_view());
    }
    program.len() <= 32752
}

/// Builds the completed symbol table of a raw program in two passes.
pub fn make_symbol_table(program: &Vec<String>) -> (t: SymbolTable)
    requires
        program_fits(program.deep_view()),
    ensures
        t.wf(),
        t.bounded(),
        t.entries() == table_spec(program.deep_view()),
{
    let norm = normalize_program(program);
    let ghost nd = norm.deep_view();
    proof {
        assert(nd.len() + 16 <= 32768);
    }
    let mut table = seed_predefined();
    let ghost goal1 = add_labels(predefined_table(), nd, 0);
    proof {
        assert(nd.skip(0) =~= nd);
        assert(nd.take(0) =~= Seq::<Seq<char>>::empty());
    }

    // Pass 1: labels.
    let mut count: u16 = 0;
    let mut i: usize = 0;
    while i < norm.len()
        invariant
            table.wf(),
            table.bounded(),
            i <= norm@.len(),
            nd == norm.deep_view(),
            nd.len() + 16 <= 32768,
            count as nat == content_lines(nd.take(i as int)).len(),
            add_labels(table.entries(), nd.skip(i as int), count as nat) == goal1,
        decreases norm@.len() - i,
    {
        proof {
            lemma_content_len_le(nd.take(i as int));
            assert(nd.take(i as int).len() == i);
            assert(nd.skip(i as int)[0] == nd[i as int]);
            assert(nd.skip(i as int).drop_first() =~= nd.skip(i + 1));
            assert(nd.take(i + 1).drop_last() =~= nd.take(i as int));
            assert(nd.take(i + 1).last() == nd[i as int]);
            assert(nd[i as int] == norm@[i as int]@);
        }
        let line = &norm[i];
        if is_label(line) {
            let nm = label_name(line);
            if !table.contains(&nm) {
                let ghost prev = table.entries();
                table.insert(nm, count);
                proof {
                    lemma_bounded_push(prev, (label_name_spec(nd[i as int]), count));
                }
            }
        } else {
            count = count + 1;
        }
        i = i + 1;
    }
    proof {
        assert(nd.skip(nd.len() as int) =~= Seq::<Seq<char>>::empty());
        assert(table.entries() == goal1);
    }

    // Pass 2: variables.
    let ghost goal2 = add_vars(goal1, nd, 16);
    proof {
        assert(nd.skip(0) =~= nd);
        assert(nd.take(0) =~= Seq::<Seq<char>>::empty());
    }
    let mut next: u16 = 16;
    let mut i: usize = 0;
    while i < norm.len()
        invariant
            table.wf(),
            table.bounded(),
            i <= norm@.len(),
            nd == norm.deep_view(),
            nd.len() + 16 <= 32768,
            next as nat <= 16 + content_lines(nd.take(i as int)).len(),
            add_vars(table.entries(), nd.skip(i as int), next as nat) == goal2,
        decreases norm@.len() - i,
    {
        proof {
            lemma_content_len_le(nd.take(i as int));
            assert(nd.take(i as int).len() == i);
            assert(nd.skip(i as int)[0] == nd[i as int]);
            assert(nd.skip(i as int).drop_first() =~= nd.skip(i + 1));
            assert(nd.take(i + 1).drop_last() =~= nd.take(i as int));
            assert(nd.take(i + 1).last() == nd[i as int]);
            assert(nd[i as int] == norm@[i as int]@);
        }
        let line = &norm[i];
        if is_variable(line) {
            let tok = sub_chars(line, 1, line.len());
            proof {
                assert(tok@ =~= nd[i as int].skip(1));
            }
            if !table.contains(&tok) {
                let ghost prev = table.entries();
                table.insert(tok, next);
                proof {
                    assert(next <= 16 + i);
                    assert(i + 1 <= nd.len());
                    lemma_bounded_push(prev, (nd[i as int].skip(1), next));
                }
                next = next + 1;
            }
        }
        i = i + 1;
    }
    proof {
        assert(nd.skip(nd.len() as int) =~= Seq::<Seq<char>>::empty());
        assert(table.entries() == goal2);
    }
    table
}

/// A push below the address bound keeps the table bounded.
proof fn lemma_bounded_push(t: Seq<(Seq<char>, u16)>, p: (Seq<char>, u16))
    requires
        forall|i: int| 0 <= i < t.len() ==> (#[trigger] t[i]).1 <= 32767,
        p.1 <= 32767,
    ensures
        forall|i: int| 0 <= i < t.push(p).len() ==> (#[trigger] t.push(p)[i]).1 <= 32767,
{
    assert(forall|i: int| 0 <= i < t.len() ==> t.push(p)[i] == #[trigger] t[i]);
    assert(t.push(p)[t.len() as int] == p);
}

fn seed_predefined() -> (t: SymbolTable)
    ensures
        t.wf(),
        t.bounded(),
        t.entries() == predefined_table(),
{
    let mut t = SymbolTable { names: Vec::new(), addrs: Vec::new() };
    proof {
        assert(t.entries() =~= Seq::<(Seq<char>, u16)>::empty());
    }
    t.insert(str_to_chars("SP"), 0);
    t.insert(str_to_chars("LCL"), 1);
    t.insert(str_to_chars("ARG"), 2);
    t.insert(str_to_chars("THIS"), 3);
    t.insert(str_to_chars("THAT"), 4);
    t.insert(str_to_chars("SCREEN"), 16384);
    t.insert(str_to_chars("KBD"), 24576);
    t.insert(str_to_chars("R0"), 0);
    t.insert(str_to_chars("R1"), 1);
    t.insert(str_to_chars("R2"), 2);
    t.insert(str_to_chars("R3"), 3);
    t.insert(str_to_chars("R4"), 4);
    t.insert(str_to_chars("R5"), 5);
    t.insert(str_to_chars("R6"), 6);
    t.insert(str_to_chars("R7"), 7);
    t.insert(str_to_chars("R8"), 8);
    t.insert(str_to_chars("R9"), 9);
    t.insert(str_to_chars("R10"), 10);
    t.insert(str_to_chars("R11"), 11);
    t.insert(str_to_chars("R12"), 12);
    t.insert(str_to_chars("R13"), 13);
    t.insert(str_to_chars("R14"), 14);
    t.insert(str_to_chars("R15"), 15);
    proof {
        assert(t.entries() =~= predefined_table());
    }
    t
}

/// The label pass never changes the address of a name already bound.
pub proof fn lemma_add_labels_preserves(
    t: Seq<(Seq<char>, u16)>,
    rem: Seq<Seq<char>>,
    count: nat,
    name: Seq<char>,
)
    requires
        assoc_contains(t, name),
    ensures
        assoc_lookup(add_labels(t, rem, count), name) == assoc_lookup(t, name),
    decreases rem.len(),
{
    if rem.len() > 0 {
        let l = rem.first();
        let rest = rem.drop_first();
        if is_label_spec(l) {
            let nm = label_name_spec(l);
            if assoc_contains(t, nm) {
                lemma_add_labels_preserves(t, rest, count, name);
            } else {
                let t2 = t.push((nm, count as u16));
                lemma_assoc_push(t, (nm, count as u16), name);
                lemma_add_labels_preserves(t2, rest, count, name);
            }
        } else {
            lemma_add_labels_preserves(t, rest, count + 1, name);
        }
    }
}

/// The variable pass never changes the address of a name already bound.
pub proof fn lemma_add_vars_preserves(
    t: Seq<(Seq<char>, u16)>,
    rem: Seq<Seq<char>>,
    next: nat,
    name: Seq<char>,
)
    requires
        assoc_contains(t, name),
    ensures
        assoc_lookup(add_vars(t, rem, next), name) == assoc_lookup(t, name),
    decreases rem.len(),
{
    if rem.len() > 0 {
        let l = rem.first();
        let rest = rem.drop_first();
        if is_variable_spec(l) && !assoc_contains(t, l.skip(1)) {
            let nm = l.skip(1);
            let t2 = t.push((nm, next as u16));
            lemma_assoc_push(t, (nm, next as u16), name);
            lemma_add_vars_preserves(t2, rest, next + 1, name);
        } else {
            lemma_add_vars_preserves(t, rest, next, name);
        }
    }
}

/// In every completed table the predefined symbols keep their addresses:
/// `SP`, `LCL`, `ARG`, `THIS`, `THAT` are registers 0 through 4, the screen
/// and keyboard maps sit at 16384 and 24576, and `R0` through `R15` name
/// registers 0 through 15.
pub proof fn lemma_predefined_symbols(lines: Seq<Seq<char>>)
    ensures
        assoc_lookup(table_spec(lines), "SP"@) == Some(0u16),
        assoc_lookup(table_spec(lines), "LCL"@) == Some(1u16),
        assoc_lookup(table_spec(lines), "ARG"@) == Some(2u16),
        assoc_lookup(table_spec(lines), "THIS"@) == Some(3u16),
        assoc_lookup(table_spec(lines), "THAT"@) == Some(4u16),
        assoc_lookup(table_spec(lines), "SCREEN"@) == Some(16384u16),
        assoc_lookup(table_spec(lines), "KBD"@) == Some(24576u16),
        assoc_lookup(table_spec(lines), "R0"@) == Some(0u16),
        assoc_lookup(table_spec(lines), "R1"@) == Some(1u16),
        assoc_lookup(table_spec(lines), "R2"@) == Some(2u16),
        assoc_lookup(table_spec(lines), "R3"@) == Some(3u16),
        assoc_lookup(table_spec(lines), "R4"@) == Some(4u16),
        assoc_lookup(table_spec(lines), "R5"@) == Some(5u16),
        assoc_lookup(table_spec(lines), "R6"@) == Some(6u16),
        assoc_lookup(table_spec(lines), "R7"@) == Some(7u16),
        assoc_lookup(table_spec(lines), "R8"@) == Some(8u16),
        assoc_lookup(table_spec(lines), "R9"@) == Some(9u16),
        assoc_lookup(table_spec(lines), "R10"@) == Some(10u16),
        assoc_lookup(table_spec(lines), "R11"@) == Some(11u16),
        assoc_lookup(table_spec(lines), "R12"@) == Some(12u16),
        assoc_lookup(table_spec(lines), "R13"@) == Some(13u16),
        assoc_lookup(table_spec(lines), "R14"@) == Some(14u16),
        assoc_lookup(table_spec(lines), "R15"@) == Some(15u16),
{
    let norm = normalize_lines(lines);
    let labeled = add_labels(predefined_table(), norm, 0);
    lemma_predefined_lookups();
    lemma_add_labels_preserves(predefined_table(), norm, 0, "SP"@);
    lemma_add_vars_preserves(labeled, norm, 16, "SP"@);
    lemma_add_labels_preserves(predefined_table(), norm, 0, "LCL"@);
    lemma_add_vars_preserves(labeled, norm, 16, "LCL"@);
    lemma_add_labels_preserves(predefined_table(), norm, 0, "ARG"@);
    lemma_add_vars_preserves(labeled, norm, 16, "ARG"@);
    lemma_add_labels_preserves(predefined_table(), norm, 0, "THIS"@);
    lemma_add_vars_preserves(labeled, norm, 16, "THIS"@);
    lemma_add_labels_preserves(predefined_table(), norm, 0, "THAT"@);
    lemma_add_vars_preserves(labeled, norm, 16, "THAT"@);
    lemma_add_labels_preserves(predefined_table(), norm, 0, "SCREEN"@);
    lemma_add_vars_preserves(labeled, norm, 16, "SCREEN"@);
    lemma_add_labels_preserves(predefined_table(), norm, 0, "KBD"@);
    lemma_add_vars_preserves(labeled, norm, 16, "KBD"@);
    lemma_add_labels_preserves(predefined_table(), norm, 0, "R0"@);
    lemma_add_vars_preserves(labeled, norm, 16, "R0"@);
    lemma_add_labels_preserves(predefined_table(), norm, 0, "R1"@);
    lemma_add_vars_preserves(labeled, norm, 16, "R1"@);
    lemma_add_labels_preserves(predefined_table(), norm, 0, "R2"@);
    lemma_add_vars_preserves(labeled, norm, 16, "R2"@);
    lemma_add_labels_preserves(predefined_table(), norm, 0, "R3"@);
    lemma_add_vars_preserves(labeled, norm, 16, "R3"@);
    lemma_add_labels_preserves(predefined_table(), norm, 0, "R4"@);
    lemma_add_vars_preserves(labeled, norm, 16, "R4"@);
    lemma_add_labels_preserves(predefined_table(), norm, 0, "R5"@);
    lemma_add_vars_preserves(labeled, norm, 16, "R5"@);
    lemma_add_labels_preserves(predefined_table(), norm, 0, "R6"@);
    lemma_add_vars_preserves(labeled, norm, 16, "R6"@);
    lemma_add_labels_preserves(predefined_table(), norm, 0, "R7"@);
    lemma_add_vars_preserves(labeled, norm, 16, "R7"@);
    lemma_add_labels_preserves(predefined_table(), norm, 0, "R8"@);
    lemma_add_vars_preserves(labeled, norm, 16, "R8"@);
    lemma_add_labels_preserves(predefined_table(), norm, 0, "R9"@);
    lemma_add_vars_preserves(labeled, norm, 16, "R9"@);
    lemma_add_labels_preserves(predefined_table(), norm, 0, "R10"@);
    lemma_add_vars_preserves(labeled, norm, 16, "R10"@);
    lemma_add_labels_preserves(predefined_table(), norm, 0, "R11"@);
    lemma_add_vars_preserves(labeled, norm, 16, "R11"@);
    lemma_add_labels_preserves(predefined_table(), norm, 0, "R12"@);
    lemma_add_vars_preserves(labeled, norm, 16, "R12"@);
    lemma_add_labels_preserves(predefined_table(), norm, 0, "R13"@);
    lemma_add_vars_preserves(labeled, norm, 16, "R13"@);
    lemma_add_labels_preserves(predefined_table(), norm, 0, "R14"@);
    lemma_add_vars_preserves(labeled, norm, 16, "R14"@);
    lemma_add_labels_preserves(predefined_table(), norm, 0, "R15"@);
    lemma_add_vars_preserves(labeled, norm, 16, "R15"@);
}

/// The label pass binds a fresh label to the ordinal of the next content
/// instruction: the number of content lines seen before it.
proof fn lemma_add_labels_finds(t: Seq<(Seq<char>, u16)>, rem: Seq<Seq<char>>, count: nat, i: int)
    requires
        0 <= i < rem.len(),
        is_label_spec(rem[i]),
        !assoc_contains(t, label_name_spec(rem[i])),
        forall|j: int|
            0 <= j < i && is_label_spec(#[trigger] rem[j]) ==> label_name_spec(rem[j])
                != label_name_spec(rem[i]),
        count + content_lines(rem.take(i)).len() <= 65535,
    ensures
        assoc_lookup(add_labels(t, rem, count), label_name_spec(rem[i])) == Some(
            (count + content_lines(rem.take(i)).len()) as u16,
        ),
    decreases rem.len(),
{
    let l = rem.first();
    let rest = rem.drop_first();
    let nm = label_name_spec(rem[i]);
    if i == 0 {
        assert(rem.take(0) =~= Seq::<Seq<char>>::empty());
        let t2 = t.push((nm, count as u16));
        lemma_assoc_push(t, (nm, count as u16), nm);
        lemma_add_labels_preserves(t2, rest, count, nm);
    } else {
        assert(rem.take(i).first() == l);
        assert(rem.take(i).drop_first() =~= rest.take(i - 1));
        lemma_content_front(rem.take(i));
        assert(rest[i - 1] == rem[i]);
        assert forall|j: int|
            0 <= j < i - 1 && is_label_spec(#[trigger] rest[j]) implies label_name_spec(rest[j])
            != nm by {
            assert(rest[j] == rem[j + 1]);
        }
        if is_label_spec(l) {
            let nm0 = label_name_spec(l);
            assert(nm0 != nm);
            if assoc_contains(t, nm0) {
                lemma_add_labels_finds(t, rest, count, i - 1);
            } else {
                let t2 = t.push((nm0, count as u16));
                lemma_assoc_push(t, (nm0, count as u16), nm);
                lemma_add_labels_finds(t2, rest, count, i - 1);
            }
        } else {
            lemma_add_labels_finds(t, rest, count + 1, i - 1);
        }
    }
}

/// For any program: a label not shadowed by the predefined layer or an
/// earlier label resolves to the number of content instructions that
/// precede it in the label-stripped instruction stream.
pub proof fn lemma_label_address(lines: Seq<Seq<char>>, i: int)
    requires
        program_fits(lines),
        0 <= i < normalize_lines(lines).len(),
        is_label_spec(normalize_lines(lines)[i]),
        !assoc_contains(predefined_table(), label_name_spec(normalize_lines(lines)[i])),
        forall|j: int|
            0 <= j < i && is_label_spec(#[trigger] normalize_lines(lines)[j]) ==> label_name_spec(
                normalize_lines(lines)[j],
            ) != label_name_spec(normalize_lines(lines)[i]),
    ensures
        assoc_lookup(table_spec(lines), label_name_spec(normalize_lines(lines)[i])) == Some(
            content_lines(normalize_lines(lines).take(i)).len() as u16,
        ),
{
    let norm = normalize_lines(lines);
    let nm = label_name_spec(norm[i]);
    lemma_content_len_le(norm.take(i));
    lemma_normalize_len_le(lines);
    lemma_add_labels_finds(predefined_table(), norm, 0, i);
    lemma_add_vars_preserves(add_labels(predefined_table(), norm, 0), norm, 16, nm);
}

/// The names the variable pass allocates, in first-occurrence order.
pub open spec fn alloc_seq(t: Seq<(Seq<char>, u16)>, rem: Seq<Seq<char>>, next: nat) -> Seq<
    Seq<char>,
>
    decreases rem.len(),
{
    if rem.len() == 0 {
        Seq::empty()
    } else {
        let l = rem.first();
        let rest = rem.drop_first();
        if is_variable_spec(l) && !assoc_contains(t, l.skip(1)) {
            seq![l.skip(1)] + alloc_seq(t.push((l.skip(1), next as u16)), rest, next + 1)
        } else {
            alloc_seq(t, rest, next)
        }
    }
}

/// No pass allocates more variables than it sees lines.
proof fn lemma_alloc_len(t: Seq<(Seq<char>, u16)>, rem: Seq<Seq<char>>, next: nat)
    ensures
        alloc_seq(t, rem, next).len() <= rem.len(),
    decreases rem.len(),
{
    if rem.len() > 0 {
        let l = rem.first();
        let rest = rem.drop_first();
        if is_variable_spec(l) && !assoc_contains(t, l.skip(1)) {
            lemma_alloc_len(t.push((l.skip(1), next as u16)), rest, next + 1);
        } else {
            lemma_alloc_len(t, rest, next);
        }
    }
}

/// The k-th variable the pass allocates ends bound to `next + k`.
proof fn lemma_add_vars_alloc(t: Seq<(Seq<char>, u16)>, rem: Seq<Seq<char>>, next: nat, k: int)
    requires
        0 <= k < alloc_seq(t, rem, next).len(),
        next + k <= 65535,
    ensures
        assoc_lookup(add_vars(t, rem, next), alloc_seq(t, rem, next)[k]) == Some(
            (next + k) as u16,
        ),
    decreases rem.len(),
{
    let l = rem.first();
    let rest = rem.drop_first();
    let a = alloc_seq(t, rem, next);
    if is_variable_spec(l) && !assoc_contains(t, l.skip(1)) {
        let nm = l.skip(1);
        let t2 = t.push((nm, next as u16));
        lemma_assoc_push(t, (nm, next as u16), nm);
        if k == 0 {
            assert(a[0] == nm);
            lemma_add_vars_preserves(t2, rest, next + 1, nm);
        } else {
            assert(a[k] == alloc_seq(t2, rest, next + 1)[k - 1]);
            lemma_add_vars_alloc(t2, rest, next + 1, k - 1);
        }
    } else {
        lemma_add_vars_alloc(t, rest, next, k);
    }
}

/// The variables a whole program allocates, in first-occurrence order.
pub open spec fn allocated_vars(lines: Seq<Seq<char>>) -> Seq<Seq<char>> {
    let norm = normalize_lines(lines);
    alloc_seq(add_labels(predefined_table(), norm, 0), norm, 16)
}

/// Variable addresses are assigned in strictly increasing order starting
/// at 16, in first-occurrence order: the k-th freshly referenced variable
/// of any program resolves to address 16 + k.
pub proof fn lemma_variable_allocation(lines: Seq<Seq<char>>, k: int)
    requires
        program_fits(lines),
        0 <= k < allocated_vars(lines).len(),
    ensures
        assoc_lookup(table_spec(lines), allocated_vars(lines)[k]) == Some((16 + k) as u16),
{
    let norm = normalize_lines(lines);
    let labeled = add_labels(predefined_table(), norm, 0);
    lemma_alloc_len(labeled, norm, 16);
    lemma_normalize_len_le(lines);
    lemma_add_vars_alloc(labeled, norm, 16, k);
}

/// After the variable pass, every variable reference in the lines it
/// scanned is bound.
pub proof fn lemma_add_vars_covers(
    t: Seq<(Seq<char>, u16)>,
    rem: Seq<Seq<char>>,
    next: nat,
    i: int,
)
    requires
        0 <= i < rem.len(),
        is_variable_spec(rem[i]),
    ensures
        assoc_contains(add_vars(t, rem, next), rem[i].skip(1)),
    decreases rem.len(),
{
    let l = rem.first();
    let rest = rem.drop_first();
    if i == 0 {
        let nm = l.skip(1);
        if assoc_contains(t, nm) {
            lemma_add_vars_preserves(t, rest, next, nm);
        } else {
            let t2 = t.push((nm, next as u16));
            lemma_assoc_push(t, (nm, next as u16), nm);
            lemma_add_vars_preserves(t2, rest, next + 1, nm);
        }
    } else {
        assert(rest[i - 1] == rem[i]);
        if is_variable_spec(l) && !assoc_contains(t, l.skip(1)) {
            lemma_add_vars_covers(t.push((l.skip(1), next as u16)), rest, next + 1, i - 1);
        } else {
            lemma_add_vars_covers(t, rest, next, i - 1);
        }
    }
}

/// Every content line comes from the normalized stream.
pub proof fn lemma_content_member(norm: Seq<Seq<char>>, i: int)
    requires
        0 <= i < content_lines(norm).len(),
    ensures
        exists|j: int| 0 <= j < norm.len() && content_lines(norm)[i] == norm[j],
    decreases norm.len(),
{
    if norm.len() > 0 {
        let rest = content_lines(norm.drop_last());
        if is_label_spec(norm.last()) {
            lemma_content_member(norm.drop_last(), i);
            let j = choose|j: int|
                0 <= j < norm.drop_last().len() && content_lines(norm.drop_last())[i]
                    == norm.drop_last()[j];
            assert(0 <= j < norm.len() && content_lines(norm)[i] == norm[j]);
        } else {
            if i < rest.len() {
                lemma_content_member(norm.drop_last(), i);
                let j = choose|j: int|
                    0 <= j < norm.drop_last().len() && content_lines(norm.drop_last())[i]
                        == norm.drop_last()[j];
                assert(0 <= j < norm.len() && content_lines(norm)[i] == norm[j]);
            } else {
                assert(content_lines(norm)[i] == norm[norm.len() - 1]);
            }
        }
    }
}

/// The concrete lookups in the predefined layer.
proof fn lemma_predefined_lookups()
    ensures
        assoc_lookup(predefined_table(), "SP"@) == Some(0u16),
        assoc_lookup(predefined_table(), "LCL"@) == Some(1u16),
        assoc_lookup(predefined_table(), "ARG"@) == Some(2u16),
        assoc_lookup(predefined_table(), "THIS"@) == Some(3u16),
        assoc_lookup(predefined_table(), "THAT"@) == Some(4u16),
        assoc_lookup(predefined_table(), "SCREEN"@) == Some(16384u16),
        assoc_lookup(predefined_table(), "KBD"@) == Some(24576u16),
        assoc_lookup(predefined_table(), "R0"@) == Some(0u16),
        assoc_lookup(predefined_table(), "R1"@) == Some(1u16),
        assoc_lookup(predefined_table(), "R2"@) == Some(2u16),
        assoc_lookup(predefined_table(), "R3"@) == Some(3u16),
        assoc_lookup(predefined_table(), "R4"@) == Some(4u16),
        assoc_lookup(predefined_table(), "R5"@) == Some(5u16),
        assoc_lookup(predefined_table(), "R6"@) == Some(6u16),
        assoc_lookup(predefined_table(), "R7"@) == Some(7u16),
        assoc_lookup(predefined_table(), "R8"@) == Some(8u16),
        assoc_lookup(predefined_table(), "R9"@) == Some(9u16),
        assoc_lookup(predefined_table(), "R10"@) == Some(10u16),
        assoc_lookup(predefined_table(), "R11"@) == Some(11u16),
        assoc_lookup(predefined_table(), "R12"@) == Some(12u16),
        assoc_lookup(predefined_table(), "R13"@) == Some(13u16),
        assoc_lookup(predefined_table(), "R14"@) == Some(14u16),
        assoc_lookup(predefined_table(), "R15"@) == Some(15u16),
{
    lemma_pred_lookup_0();
    lemma_pred_lookup_1();
    lemma_pred_lookup_2();
    lemma_pred_lookup_3();
    lemma_pred_lookup_4();
    lemma_pred_lookup_5();
    lemma_pred_lookup_6();
    lemma_pred_lookup_7();
    lemma_pred_lookup_8();
    lemma_pred_lookup_9();
    lemma_pred_lookup_10();
    lemma_pred_lookup_11();
    lemma_pred_lookup_12();
    lemma_pred_lookup_13();
    lemma_pred_lookup_14();
    lemma_pred_lookup_15();
    lemma_pred_lookup_16();
    lemma_pred_lookup_17();
    lemma_pred_lookup_18();
    lemma_pred_lookup_19();
    lemma_pred_lookup_20();
    lemma_pred_lookup_21();
    lemma_pred_lookup_22();
}

/// The lengths and characters of the predefined names.
proof fn lemma_predefined_char_facts()
    ensures
        "SP"@.len() == 2,
        "SP"@[0] == 'S',
        "SP"@[1] == 'P',
        "LCL"@.len() == 3,
        "LCL"@[0] == 'L',
        "LCL"@[1] == 'C',
        "LCL"@[2] == 'L',
        "ARG"@.len() == 3,
        "ARG"@[0] == 'A',
        "ARG"@[1] == 'R',
        "ARG"@[2] == 'G',
        "THIS"@.len() == 4,
        "THIS"@[0] == 'T',
        "THIS"@[1] == 'H',
        "THIS"@[2] == 'I',
        "THIS"@[3] == 'S',
        "THAT"@.len() == 4,
        "THAT"@[0] == 'T',
        "THAT"@[1] == 'H',
        "THAT"@[2] == 'A',
        "THAT"@[3] == 'T',
        "SCREEN"@.len() == 6,
        "SCREEN"@[0] == 'S',
        "SCREEN"@[1] == 'C',
        "SCREEN"@[2] == 'R',
        "SCREEN"@[3] == 'E',
        "SCREEN"@[4] == 'E',
        "SCREEN"@[5] == 'N',
        "KBD"@.len() == 3,
        "KBD"@[0] == 'K',
        "KBD"@[1] == 'B',
        "KBD"@[2] == 'D',
        "R0"@.len() == 2,
        "R0"@[0] == 'R',
        "R0"@[1] == '0',
        "R1"@.len() == 2,
        "R1"@[0] == 'R',
        "R1"@[1] == '1',
        "R2"@.len() == 2,
        "R2"@[0] == 'R',
        "R2"@[1] == '2',
        "R3"@.len() == 2,
        "R3"@[0] == 'R',
        "R3"@[1] == '3',
        "R4"@.len() == 2,
        "R4"@[0] == 'R',
        "R4"@[1] == '4',
        "R5"@.len() == 2,
        "R5"@[0] == 'R',
        "R5"@[1] == '5',
        "R6"@.len() == 2,
        "R6"@[0] == 'R',
        "R6"@[1] == '6',
        "R7"@.len() == 2,
        "R7"@[0] == 'R',
        "R7"@[1] == '7',
        "R8"@.len() == 2,
        "R8"@[0] == 'R',
        "R8"@[1] == '8',
        "R9"@.len() == 2,
        "R9"@[0] == 'R',
        "R9"@[1] == '9',
        "R10"@.len() == 3,
        "R10"@[0] == 'R',
        "R10"@[1] == '1',
        "R10"@[2] == '0',
        "R11"@.len() == 3,
        "R11"@[0] == 'R',
        "R11"@[1] == '1',
        "R11"@[2] == '1',
        "R12"@.len() == 3,
        "R12"@[0] == 'R',
        "R12"@[1] == '1',
        "R12"@[2] == '2',
        "R13"@.len() == 3,
        "R13"@[0] == 'R',
        "R13"@[1] == '1',
        "R13"@[2] == '3',
        "R14"@.len() == 3,
        "R14"@[0] == 'R',
        "R14"@[1] == '1',
        "R14"@[2] == '4',
        "R15"@.len() == 3,
        "R15"@[0] == 'R',
        "R15"@[1] == '1',
        "R15"@[2] == '5',
{
    reveal_strlit("SP");
    reveal_strlit("LCL");
    reveal_strlit("ARG");
    reveal_strlit("THIS");
    reveal_strlit("THAT");
    reveal_strlit("SCREEN");
    reveal_strlit("KBD");
    reveal_strlit("R0");
    reveal_strlit("R1");
    reveal_strlit("R2");
    reveal_strlit("R3");
    reveal_strlit("R4");
    reveal_strlit("R5");
    reveal_strlit("R6");
    reveal_strlit("R7");
    reveal_strlit("R8");
    reveal_strlit("R9");
    reveal_strlit("R10");
    reveal_strlit("R11");
    reveal_strlit("R12");
    reveal_strlit("R13");
    reveal_strlit("R14");
    reveal_strlit("R15");
}

proof fn lemma_pred_lookup_0()
    ensures
        assoc_lookup(predefined_table(), "SP"@) == Some(0u16),
{
    lemma_predefined_char_facts();
    let t = predefined_table();
    lemma_assoc_lookup_at(t, 0);
    assert(t[0] == ("SP"@, 0u16));
}

proof fn lemma_pred_lookup_1()
    ensures
        assoc_lookup(predefined_table(), "LCL"@) == Some(1u16),
{
    lemma_predefined_char_facts();
    let t = predefined_table();
    assert forall|j: int| 0 <= j < 1 implies (#[trigger] t[j]).0 != t[1].0 by {
        if j == 0 {
            assert(t[0].0 == "SP"@);
        }
    }
    lemma_assoc_lookup_at(t, 1);
    assert(t[1] == ("LCL"@, 1u16));
}

proof fn lemma_pred_lookup_2()
    ensures
        assoc_lookup(predefined_table(), "ARG"@) == Some(2u16),
{
    lemma_predefined_char_facts();
    let t = predefined_table();
    assert forall|j: int| 0 <= j < 2 implies (#[trigger] t[j]).0 != t[2].0 by {
        if j == 0 {
            assert(t[0].0 == "SP"@);
        } else if j == 1 {
            assert(t[1].0 == "LCL"@);
        }
    }
    lemma_assoc_lookup_at(t, 2);
    assert(t[2] == ("ARG"@, 2u16));
}

proof fn lemma_pred_lookup_3()
    ensures
        assoc_lookup(predefined_table(), "THIS"@) == Some(3u16),
{
    lemma_predefined_char_facts();
    let t = predefined_table();
    assert forall|j: int| 0 <= j < 3 implies (#[trigger] t[j]).0 != t[3].0 by {
        if j == 0 {
            assert(t[0].0 == "SP"@);
        } else if j == 1 {
            assert(t[1].0 == "LCL"@);
        } else if j == 2 {
            assert(t[2].0 == "ARG"@);
        }
    }
    lemma_assoc_lookup_at(t, 3);
    assert(t[3] == ("THIS"@, 3u16));
}

proof fn lemma_pred_lookup_4()
    ensures
        assoc_lookup(predefined_table(), "THAT"@) == Some(4u16),
{
    lemma_predefined_char_facts();
    let t = predefined_table();
    assert forall|j: int| 0 <= j < 4 implies (#[trigger] t[j]).0 != t[4].0 by {
        if j == 0 {
            assert(t[0].0 == "SP"@);
        } else if j == 1 {
            assert(t[1].0 == "LCL"@);
        } else if j == 2 {
            assert(t[2].0 == "ARG"@);
        } else if j == 3 {
            assert(t[3].0 == "THIS"@);
        }
    }
    lemma_assoc_lookup_at(t, 4);
    assert(t[4] == ("THAT"@, 4u16));
}

proof fn lemma_pred_lookup_5()
    ensures
        assoc_lookup(predefined_table(), "SCREEN"@) == Some(16384u16),
{
    lemma_predefined_char_facts();
    let t = predefined_table();
    assert forall|j: int| 0 <= j < 5 implies (#[trigger] t[j]).0 != t[5].0 by {
        if j == 0 {
            assert(t[0].0 == "SP"@);
        } else if j == 1 {
            assert(t[1].0 == "LCL"@);
        } else if j == 2 {
            assert(t[2].0 == "ARG"@);
        } else if j == 3 {
            assert(t[3].0 == "THIS"@);
        } else if j == 4 {
            assert(t[4].0 == "THAT"@);
        }
    }
    lemma_assoc_lookup_at(t, 5);
    assert(t[5] == ("SCREEN"@, 16384u16));
}

proof fn lemma_pred_lookup_6()
    ensures
        assoc_lookup(predefined_table(), "KBD"@) == Some(24576u16),
{
    lemma_predefined_char_facts();
    let t = predefined_table();
    assert forall|j: int| 0 <= j < 6 implies (#[trigger] t[j]).0 != t[6].0 by {
        if j == 0 {
            assert(t[0].0 == "SP"@);
        } else if j == 1 {
            assert(t[1].0 == "LCL"@);
        } else if j == 2 {
            assert(t[2].0 == "ARG"@);
        } else if j == 3 {
            assert(t[3].0 == "THIS"@);
        } else if j == 4 {
            assert(t[4].0 == "THAT"@);
        } else if j == 5 {
            assert(t[5].0 == "SCREEN"@);
        }
    }
    lemma_assoc_lookup_at(t, 6);
    assert(t[6] == ("KBD"@, 24576u16));
}

proof fn lemma_pred_lookup_7()
    ensures
        assoc_lookup(predefined_table(), "R0"@) == Some(0u16),
{
    lemma_predefined_char_facts();
    let t = predefined_table();
    assert forall|j: int| 0 <= j < 7 implies (#[trigger] t[j]).0 != t[7].0 by {
        if j == 0 {
            assert(t[0].0 == "SP"@);
        } else if j == 1 {
            assert(t[1].0 == "LCL"@);
        } else if j == 2 {
            assert(t[2].0 == "ARG"@);
        } else if j == 3 {
            assert(t[3].0 == "THIS"@);
        } else if j == 4 {
            assert(t[4].0 == "THAT"@);
        } else if j == 5 {
            assert(t[5].0 == "SCREEN"@);
        } else if j == 6 {
            assert(t[6].0 == "KBD"@);
        }
    }
    lemma_assoc_lookup_at(t, 7);
    assert(t[7] == ("R0"@, 0u16));
}

proof fn lemma_pred_lookup_8()
    ensures
        assoc_lookup(predefined_table(), "R1"@) == Some(1u16),
{
    lemma_predefined_char_facts();
    let t = predefined_table();
    assert forall|j: int| 0 <= j < 8 implies (#[trigger] t[j]).0 != t[8].0 by {
        if j == 0 {
            assert(t[0].0 == "SP"@);
        } else if j == 1 {
            assert(t[1].0 == "LCL"@);
        } else if j == 2 {
            assert(t[2].0 == "ARG"@);
        } else if j == 3 {
            assert(t[3].0 == "THIS"@);
        } else if j == 4 {
            assert(t[4].0 == "THAT"@);
        } else if j == 5 {
            assert(t[5].0 == "SCREEN"@);
        } else if j == 6 {
            assert(t[6].0 == "KBD"@);
        } else if j == 7 {
            assert(t[7].0 == "R0"@);
        }
    }
    lemma_assoc_lookup_at(t, 8);
    assert(t[8] == ("R1"@, 1u16));
}

proof fn lemma_pred_lookup_9()
    ensures
        assoc_lookup(predefined_table(), "R2"@) == Some(2u16),
{
    lemma_predefined_char_facts();
    let t = predefined_table();
    assert forall|j: int| 0 <= j < 9 implies (#[trigger] t[j]).0 != t[9].0 by {
        if j == 0 {
            assert(t[0].0 == "SP"@);
        } else if j == 1 {
            assert(t[1].0 == "LCL"@);
        } else if j == 2 {
            assert(t[2].0 == "ARG"@);
        } else if j == 3 {
            assert(t[3].0 == "THIS"@);
        } else if j == 4 {
            assert(t[4].0 == "THAT"@);
        } else if j == 5 {
            assert(t[5].0 == "SCREEN"@);
        } else if j == 6 {
            assert(t[6].0 == "KBD"@);
        } else if j == 7 {
            assert(t[7].0 == "R0"@);
        } else if j == 8 {
            assert(t[8].0 == "R1"@);
        }
    }
    lemma_assoc_lookup_at(t, 9);
    assert(t[9] == ("R2"@, 2u16));
}

proof fn lemma_pred_lookup_10()
    ensures
        assoc_lookup(predefined_table(), "R3"@) == Some(3u16),
{
    lemma_predefined_char_facts();
    let t = predefined_table();
    assert forall|j: int| 0 <= j < 10 implies (#[trigger] t[j]).0 != t[10].0 by {
        if j == 0 {
            assert(t[0].0 == "SP"@);
        } else if j == 1 {
            assert(t[1].0 == "LCL"@);
        } else if j == 2 {
            assert(t[2].0 == "ARG"@);
        } else if j == 3 {
            assert(t[3].0 == "THIS"@);
        } else if j == 4 {
            assert(t[4].0 == "THAT"@);
        } else if j == 5 {
            assert(t[5].0 == "SCREEN"@);
        } else if j == 6 {
            assert(t[6].0 == "KBD"@);
        } else if j == 7 {
            assert(t[7].0 == "R0"@);
        } else if j == 8 {
            assert(t[8].0 == "R1"@);
        } else if j == 9 {
            assert(t[9].0 == "R2"@);
        }
    }
    lemma_assoc_lookup_at(t, 10);
    assert(t[10] == ("R3"@, 3u16));
}

proof fn lemma_pred_lookup_11()
    ensures
        assoc_lookup(predefined_table(), "R4"@) == Some(4u16),
{
    lemma_predefined_char_facts();
    let t = predefined_table();
    assert forall|j: int| 0 <= j < 11 implies (#[trigger] t[j]).0 != t[11].0 by {
        if j == 0 {
            assert(t[0].0 == "SP"@);
        } else if j == 1 {
            assert(t[1].0 == "LCL"@);
        } else if j == 2 {
            assert(t[2].0 == "ARG"@);
        } else if j == 3 {
            assert(t[3].0 == "THIS"@);
        } else if j == 4 {
            assert(t[4].0 == "THAT"@);
        } else if j == 5 {
            assert(t[5].0 == "SCREEN"@);
        } else if j == 6 {
            assert(t[6].0 == "KBD"@);
        } else if j == 7 {
            assert(t[7].0 == "R0"@);
        } else if j == 8 {
            assert(t[8].0 == "R1"@);
        } else if j == 9 {
            assert(t[9].0 == "R2"@);
        } else if j == 10 {
            assert(t[10].0 == "R3"@);
        }
    }
    lemma_assoc_lookup_at(t, 11);
    assert(t[11] == ("R4"@, 4u16));
}

proof fn lemma_pred_lookup_12()
    ensures
        assoc_lookup(predefined_table(), "R5"@) == Some(5u16),
{
    lemma_predefined_char_facts();
    let t = predefined_table();
    assert forall|j: int| 0 <= j < 12 implies (#[trigger] t[j]).0 != t[12].0 by {
        if j == 0 {
            assert(t[0].0 == "SP"@);
        } else if j == 1 {
            assert(t[1].0 == "LCL"@);
        } else if j == 2 {
            assert(t[2].0 == "ARG"@);
        } else if j == 3 {
            assert(t[3].0 == "THIS"@);
        } else if j == 4 {
            assert(t[4].0 == "THAT"@);
        } else if j == 5 {
            assert(t[5].0 == "SCREEN"@);
        } else if j == 6 {
            assert(t[6].0 == "KBD"@);
        } else if j == 7 {
            assert(t[7].0 == "R0"@);
        } else if j == 8 {
            assert(t[8].0 == "R1"@);
        } else if j == 9 {
            assert(t[9].0 == "R2"@);
        } else if j == 10 {
            assert(t[10].0 == "R3"@);
        } else if j == 11 {
            assert(t[11].0 == "R4"@);
        }
    }
    lemma_assoc_lookup_at(t, 12);
    assert(t[12] == ("R5"@, 5u16));
}

proof fn lemma_pred_lookup_13()
    ensures
        assoc_lookup(predefined_table(), "R6"@) == Some(6u16),
{
    lemma_predefined_char_facts();
    let t = predefined_table();
    assert forall|j: int| 0 <= j < 13 implies (#[trigger] t[j]).0 != t[13].0 by {
        if j == 0 {
            assert(t[0].0 == "SP"@);
        } else if j == 1 {
            assert(t[1].0 == "LCL"@);
        } else if j == 2 {
            assert(t[2].0 == "ARG"@);
        } else if j == 3 {
            assert(t[3].0 == "THIS"@);
        } else if j == 4 {
            assert(t[4].0 == "THAT"@);
        } else if j == 5 {
            assert(t[5].0 == "SCREEN"@);
        } else if j == 6 {
            assert(t[6].0 == "KBD"@);
        } else if j == 7 {
            assert(t[7].0 == "R0"@);
        } else if j == 8 {
            assert(t[8].0 == "R1"@);
        } else if j == 9 {
            assert(t[9].0 == "R2"@);
        } else if j == 10 {
            assert(t[10].0 == "R3"@);
        } else if j == 11 {
            assert(t[11].0 == "R4"@);
        } else if j == 12 {
            assert(t[12].0 == "R5"@);
        }
    }
    lemma_assoc_lookup_at(t, 13);
    assert(t[13] == ("R6"@, 6u16));
}

proof fn lemma_pred_lookup_14()
    ensures
        assoc_lookup(predefined_table(), "R7"@) == Some(7u16),
{
    lemma_predefined_char_facts();
    let t = predefined_table();
    assert forall|j: int| 0 <= j < 14 implies (#[trigger] t[j]).0 != t[14].0 by {
        if j == 0 {
            assert(t[0].0 == "SP"@);
        } else if j == 1 {
            assert(t[1].0 == "LCL"@);
        } else if j == 2 {
            assert(t[2].0 == "ARG"@);
        } else if j == 3 {
            assert(t[3].0 == "THIS"@);
        } else if j == 4 {
            assert(t[4].0 == "THAT"@);
        } else if j == 5 {
            assert(t[5].0 == "SCREEN"@);
        } else if j == 6 {
            assert(t[6].0 == "KBD"@);
        } else if j == 7 {
            assert(t[7].0 == "R0"@);
        } else if j == 8 {
            assert(t[8].0 == "R1"@);
        } else if j == 9 {
            assert(t[9].0 == "R2"@);
        } else if j == 10 {
            assert(t[10].0 == "R3"@);
        } else if j == 11 {
            assert(t[11].0 == "R4"@);
        } else if j == 12 {
            assert(t[12].0 == "R5"@);
        } else if j == 13 {
            assert(t[13].0 == "R6"@);
        }
    }
    lemma_assoc_lookup_at(t, 14);
    assert(t[14] == ("R7"@, 7u16));
}

proof fn lemma_pred_lookup_15()
    ensures
        assoc_lookup(predefined_table(), "R8"@) == Some(8u16),
{
    lemma_predefined_char_facts();
    let t = predefined_table();
    assert forall|j: int| 0 <= j < 15 implies (#[trigger] t[j]).0 != t[15].0 by {
        if j == 0 {
            assert(t[0].0 == "SP"@);
        } else if j == 1 {
            assert(t[1].0 == "LCL"@);
        } else if j == 2 {
            assert(t[2].0 == "ARG"@);
        } else if j == 3 {
            assert(t[3].0 == "THIS"@);
        } else if j == 4 {
            assert(t[4].0 == "THAT"@);
        } else if j == 5 {
            assert(t[5].0 == "SCREEN"@);
        } else if j == 6 {
            assert(t[6].0 == "KBD"@);
        } else if j == 7 {
            assert(t[7].0 == "R0"@);
        } else if j == 8 {
            assert(t[8].0 == "R1"@);
        } else if j == 9 {
            assert(t[9].0 == "R2"@);
        } else if j == 10 {
            assert(t[10].0 == "R3"@);
        } else if j == 11 {
            assert(t[11].0 == "R4"@);
        } else if j == 12 {
            assert(t[12].0 == "R5"@);
        } else if j == 13 {
            assert(t[13].0 == "R6"@);
        } else if j == 14 {
            assert(t[14].0 == "R7"@);
        }
    }
    lemma_assoc_lookup_at(t, 15);
    assert(t[15] == ("R8"@, 8u16));
}

proof fn lemma_pred_lookup_16()
    ensures
        assoc_lookup(predefined_table(), "R9"@) == Some(9u16),
{
    lemma_predefined_char_facts();
    let t = predefined_table();
    assert forall|j: int| 0 <= j < 16 implies (#[trigger] t[j]).0 != t[16].0 by {
        if j == 0 {
            assert(t[0].0 == "SP"@);
        } else if j == 1 {
            assert(t[1].0 == "LCL"@);
        } else if j == 2 {
            assert(t[2].0 == "ARG"@);
        } else if j == 3 {
            assert(t[3].0 == "THIS"@);
        } else if j == 4 {
            assert(t[4].0 == "THAT"@);
        } else if j == 5 {
            assert(t[5].0 == "SCREEN"@);
        } else if j == 6 {
            assert(t[6].0 == "KBD"@);
        } else if j == 7 {
            assert(t[7].0 == "R0"@);
        } else if j == 8 {
            assert(t[8].0 == "R1"@);
        } else if j == 9 {
            assert(t[9].0 == "R2"@);
        } else if j == 10 {
            assert(t[10].0 == "R3"@);
        } else if j == 11 {
            assert(t[11].0 == "R4"@);
        } else if j == 12 {
            assert(t[12].0 == "R5"@);
        } else if j == 13 {
            assert(t[13].0 == "R6"@);
        } else if j == 14 {
            assert(t[14].0 == "R7"@);
        } else if j == 15 {
            assert(t[15].0 == "R8"@);
        }
    }
    lemma_assoc_lookup_at(t, 16);
    assert(t[16] == ("R9"@, 9u16));
}

proof fn lemma_pred_lookup_17()
    ensures
        assoc_lookup(predefined_table(), "R10"@) == Some(10u16),
{
    lemma_predefined_char_facts();
    let t = predefined_table();
    assert forall|j: int| 0 <= j < 17 implies (#[trigger] t[j]).0 != t[17].0 by {
        if j == 0 {
            assert(t[0].0 == "SP"@);
        } else if j == 1 {
            assert(t[1].0 == "LCL"@);
        } else if j == 2 {
            assert(t[2].0 == "ARG"@);
        } else if j == 3 {
            assert(t[3].0 == "THIS"@);
        } else if j == 4 {
            assert(t[4].0 == "THAT"@);
        } else if j == 5 {
            assert(t[5].0 == "SCREEN"@);
        } else if j == 6 {
            assert(t[6].0 == "KBD"@);
        } else if j == 7 {
            assert(t[7].0 == "R0"@);
        } else if j == 8 {
            assert(t[8].0 == "R1"@);
        } else if j == 9 {
            assert(t[9].0 == "R2"@);
        } else if j == 10 {
            assert(t[10].0 == "R3"@);
        } else if j == 11 {
            assert(t[11].0 == "R4"@);
        } else if j == 12 {
            assert(t[12].0 == "R5"@);
        } else if j == 13 {
            assert(t[13].0 == "R6"@);
        } else if j == 14 {
            assert(t[14].0 == "R7"@);
        } else if j == 15 {
            assert(t[15].0 == "R8"@);
        } else if j == 16 {
            assert(t[16].0 == "R9"@);
        }
    }
    lemma_assoc_lookup_at(t, 17);
    assert(t[17] == ("R10"@, 10u16));
}

proof fn lemma_pred_lookup_18()
    ensures
        assoc_lookup(predefined_table(), "R11"@) == Some(11u16),
{
    lemma_predefined_char_facts();
    let t = predefined_table();
    assert forall|j: int| 0 <= j < 18 implies (#[trigger] t[j]).0 != t[18].0 by {
        if j == 0 {
            assert(t[0].0 == "SP"@);
        } else if j == 1 {
            assert(t[1].0 == "LCL"@);
        } else if j == 2 {
            assert(t[2].0 == "ARG"@);
        } else if j == 3 {
            assert(t[3].0 == "THIS"@);
        } else if j == 4 {
            assert(t[4].0 == "THAT"@);
        } else if j == 5 {
            assert(t[5].0 == "SCREEN"@);
        } else if j == 6 {
            assert(t[6].0 == "KBD"@);
        } else if j == 7 {
            assert(t[7].0 == "R0"@);
        } else if j == 8 {
            assert(t[8].0 == "R1"@);
        } else if j == 9 {
            assert(t[9].0 == "R2"@);
        } else if j == 10 {
            assert(t[10].0 == "R3"@);
        } else if j == 11 {
            assert(t[11].0 == "R4"@);
        } else if j == 12 {
            assert(t[12].0 == "R5"@);
        } else if j == 13 {
            assert(t[13].0 == "R6"@);
        } else if j == 14 {
            assert(t[14].0 == "R7"@);
        } else if j == 15 {
            assert(t[15].0 == "R8"@);
        } else if j == 16 {
            assert(t[16].0 == "R9"@);
        } else if j == 17 {
            assert(t[17].0 == "R10"@);
        }
    }
    lemma_assoc_lookup_at(t, 18);
    assert(t[18] == ("R11"@, 11u16));
}

proof fn lemma_pred_lookup_19()
    ensures
        assoc_lookup(predefined_table(), "R12"@) == Some(12u16),
{
    lemma_predefined_char_facts();
    let t = predefined_table();
    assert forall|j: int| 0 <= j < 19 implies (#[trigger] t[j]).0 != t[19].0 by {
        if j == 0 {
            assert(t[0].0 == "SP"@);
        } else if j == 1 {
            assert(t[1].0 == "LCL"@);
        } else if j == 2 {
            assert(t[2].0 == "ARG"@);
        } else if j == 3 {
            assert(t[3].0 == "THIS"@);
        } else if j == 4 {
            assert(t[4].0 == "THAT"@);
        } else if j == 5 {
            assert(t[5].0 == "SCREEN"@);
        } else if j == 6 {
            assert(t[6].0 == "KBD"@);
        } else if j == 7 {
            assert(t[7].0 == "R0"@);
        } else if j == 8 {
            assert(t[8].0 == "R1"@);
        } else if j == 9 {
            assert(t[9].0 == "R2"@);
        } else if j == 10 {
            assert(t[10].0 == "R3"@);
        } else if j == 11 {
            assert(t[11].0 == "R4"@);
        } else if j == 12 {
            assert(t[12].0 == "R5"@);
        } else if j == 13 {
            assert(t[13].0 == "R6"@);
        } else if j == 14 {
            assert(t[14].0 == "R7"@);
        } else if j == 15 {
            assert(t[15].0 == "R8"@);
        } else if j == 16 {
            assert(t[16].0 == "R9"@);
        } else if j == 17 {
            assert(t[17].0 == "R10"@);
        } else if j == 18 {
            assert(t[18].0 == "R11"@);
        }
    }
    lemma_assoc_lookup_at(t, 19);
    assert(t[19] == ("R12"@, 12u16));
}

proof fn lemma_pred_lookup_20()
    ensures
        assoc_lookup(predefined_table(), "R13"@) == Some(13u16),
{
    lemma_predefined_char_facts();
    let t = predefined_table();
    assert forall|j: int| 0 <= j < 20 implies (#[trigger] t[j]).0 != t[20].0 by {
        if j == 0 {
            assert(t[0].0 == "SP"@);
        } else if j == 1 {
            assert(t[1].0 == "LCL"@);
        } else if j == 2 {
            assert(t[2].0 == "ARG"@);
        } else if j == 3 {
            assert(t[3].0 == "THIS"@);
        } else if j == 4 {
            assert(t[4].0 == "THAT"@);
        } else if j == 5 {
            assert(t[5].0 == "SCREEN"@);
        } else if j == 6 {
            assert(t[6].0 == "KBD"@);
        } else if j == 7 {
            assert(t[7].0 == "R0"@);
        } else if j == 8 {
            assert(t[8].0 == "R1"@);
        } else if j == 9 {
            assert(t[9].0 == "R2"@);
        } else if j == 10 {
            assert(t[10].0 == "R3"@);
        } else if j == 11 {
            assert(t[11].0 == "R4"@);
        } else if j == 12 {
            assert(t[12].0 == "R5"@);
        } else if j == 13 {
            assert(t[13].0 == "R6"@);
        } else if j == 14 {
            assert(t[14].0 == "R7"@);
        } else if j == 15 {
            assert(t[15].0 == "R8"@);
        } else if j == 16 {
            assert(t[16].0 == "R9"@);
        } else if j == 17 {
            assert(t[17].0 == "R10"@);
        } else if j == 18 {
            assert(t[18].0 == "R11"@);
        } else if j == 19 {
            assert(t[19].0 == "R12"@);
        }
    }
    lemma_assoc_lookup_at(t, 20);
    assert(t[20] == ("R13"@, 13u16));
}

proof fn lemma_pred_lookup_21()
    ensures
        assoc_lookup(predefined_table(), "R14"@) == Some(14u16),
{
    lemma_predefined_char_facts();
    let t = predefined_table();
    assert forall|j: int| 0 <= j < 21 implies (#[trigger] t[j]).0 != t[21].0 by {
        if j == 0 {
            assert(t[0].0 == "SP"@);
        } else if j == 1 {
            assert(t[1].0 == "LCL"@);
        } else if j == 2 {
            assert(t[2].0 == "ARG"@);
        } else if j == 3 {
            assert(t[3].0 == "THIS"@);
        } else if j == 4 {
            assert(t[4].0 == "THAT"@);
        } else if j == 5 {
            assert(t[5].0 == "SCREEN"@);
        } else if j == 6 {
            assert(t[6].0 == "KBD"@);
        } else if j == 7 {
            assert(t[7].0 == "R0"@);
        } else if j == 8 {
            assert(t[8].0 == "R1"@);
        } else if j == 9 {
            assert(t[9].0 == "R2"@);
        } else if j == 10 {
            assert(t[10].0 == "R3"@);
        } else if j == 11 {
            assert(t[11].0 == "R4"@);
        } else if j == 12 {
            assert(t[12].0 == "R5"@);
        } else if j == 13 {
            assert(t[13].0 == "R6"@);
        } else if j == 14 {
            assert(t[14].0 == "R7"@);
        } else if j == 15 {
            assert(t[15].0 == "R8"@);
        } else if j == 16 {
            assert(t[16].0 == "R9"@);
        } else if j == 17 {
            assert(t[17].0 == "R10"@);
        } else if j == 18 {
            assert(t[18].0 == "R11"@);
        } else if j == 19 {
            assert(t[19].0 == "R12"@);
        } else if j == 20 {
            assert(t[20].0 == "R13"@);
        }
    }
    lemma_assoc_lookup_at(t, 21);
    assert(t[21] == ("R14"@, 14u16));
}

proof fn lemma_pred_lookup_22()
    ensures
        assoc_lookup(predefined_table(), "R15"@) == Some(15u16),
{
    lemma_predefined_char_facts();
    let t = predefined_table();
    assert forall|j: int| 0 <= j < 22 implies (#[trigger] t[j]).0 != t[22].0 by {
        if j == 0 {
            assert(t[0].0 == "SP"@);
        } else if j == 1 {
            assert(t[1].0 == "LCL"@);
        } else if j == 2 {
            assert(t[2].0 == "ARG"@);
        } else if j == 3 {
            assert(t[3].0 == "THIS"@);
        } else if j == 4 {
            assert(t[4].0 == "THAT"@);
        } else if j == 5 {
            assert(t[5].0 == "SCREEN"@);
        } else if j == 6 {
            assert(t[6].0 == "KBD"@);
        } else if j == 7 {
            assert(t[7].0 == "R0"@);
        } else if j == 8 {
            assert(t[8].0 == "R1"@);
        } else if j == 9 {
            assert(t[9].0 == "R2"@);
        } else if j == 10 {
            assert(t[10].0 == "R3"@);
        } else if j == 11 {
            assert(t[11].0 == "R4"@);
        } else if j == 12 {
            assert(t[12].0 == "R5"@);
        } else if j == 13 {
            assert(t[13].0 == "R6"@);
        } else if j == 14 {
            assert(t[14].0 == "R7"@);
        } else if j == 15 {
            assert(t[15].0 == "R8"@);
        } else if j == 16 {
            assert(t[16].0 == "R9"@);
        } else if j == 17 {
            assert(t[17].0 == "R10"@);
        } else if j == 18 {
            assert(t[18].0 == "R11"@);
        } else if j == 19 {
            assert(t[19].0 == "R12"@);
        } else if j == 20 {
            assert(t[20].0 == "R13"@);
        } else if j == 21 {
            assert(t[21].0 == "R14"@);
        }
    }
    lemma_assoc_lookup_at(t, 22);
    assert(t[22] == ("R15"@, 15u16));
}

/// First-match lookup finds an entry whose name no earlier entry shares.
proof fn lemma_assoc_lookup_at(t: Seq<(Seq<char>, u16)>, k: int)
    requires
        0 <= k < t.len(),
        forall|j: int| 0 <= j < k ==> (#[trigger] t[j]).0 != t[k].0,
    ensures
        assoc_lookup(t, t[k].0) == Some(t[k].1),
    decreases k,
{
    if k > 0 {
        let td = t.drop_first();
        assert(t[0].0 != t[k].0);
        assert(td[k - 1] == t[k]);
        assert forall|j: int| 0 <= j < k - 1 implies (#[trigger] td[j]).0 != td[k - 1].0 by {
            assert(td[j] == t[j + 1]);
        }
        lemma_assoc_lookup_at(td, k - 1);
    }
}

} // verus!
