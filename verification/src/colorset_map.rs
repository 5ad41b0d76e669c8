//! The table of canonical colour pairs: every distinct pair once, in the
//! order in which it was first registered.

use crate::color::Color;
use crate::data::{Declaration, DeclarationValue, DeclarationView};
use std::collections::HashMap;
use vstd::pervasive::unreached;
use vstd::prelude::*;
use vstd::std_specs::convert::FromSpecImpl;

verus! {

broadcast use vstd::std_specs::hash::group_hash_axioms;

/// The canonical form of a declaration's value: the light colour and, where
/// the declaration has one, the dark colour. Two declarations share a table
/// entry exactly when their canonical pairs are equal.
#[derive(Clone, Copy, PartialEq, Eq, Hash, Debug)]
pub struct CompatColorSet {
    pub light: Color,
    pub dark: Option<Color>,
}

/// The canonical pair of a declaration. The identifier plays no part.
pub open spec fn canonical_pair(declaration: DeclarationView) -> CompatColorSet {
    match declaration.value {
        DeclarationValue::Color(color) => CompatColorSet { light: color, dark: None },
        DeclarationValue::ColorSet(colorset) => CompatColorSet {
            light: colorset.light,
            dark: Some(colorset.dark),
        },
    }
}

impl<'a> From<&'a Declaration> for CompatColorSet {
    fn from(decl: &'a Declaration) -> (pair: CompatColorSet) {
        match &decl.value {
            DeclarationValue::Color(color) => CompatColorSet { light: *color, dark: None },
            DeclarationValue::ColorSet(colorset) => CompatColorSet {
                light: colorset.light,
                dark: Some(colorset.dark),
            },
        }
    }
}

impl<'a> FromSpecImpl<&'a Declaration> for CompatColorSet {
    open spec fn obeys_from_spec() -> bool {
        true
    }

    open spec fn from_spec(decl: &'a Declaration) -> CompatColorSet {
        canonical_pair(decl@)
    }
}

/// The table after `pair` is registered in `entries`: unchanged where the
/// pair is already there, else with the pair appended.
pub open spec fn registered(entries: Seq<CompatColorSet>, pair: CompatColorSet) -> Seq<
    CompatColorSet,
> {
    if entries.contains(pair) {
        entries
    } else {
        entries.push(pair)
    }
}

/// The table after each of `pairs` is registered in `entries`, from first
/// to last.
pub open spec fn registered_all(entries: Seq<CompatColorSet>, pairs: Seq<CompatColorSet>) -> Seq<
    CompatColorSet,
>
    decreases pairs.len(),
{
    if pairs.len() == 0 {
        entries
    } else {
        registered(registered_all(entries, pairs.drop_last()), pairs.last())
    }
}

/// A colour as one number: the four fields side by side.
spec fn color_code(color: Color) -> nat {
    (color.r as nat) + 0x100 * (color.g as nat) + 0x1_0000 * (color.b as nat) + 0x100_0000 * (
    color.a as nat)
}

/// A pair as one number: the light colour's code below, and above it zero
/// where there is no dark colour, else one more than the dark colour's code.
spec fn pair_code(pair: CompatColorSet) -> nat {
    color_code(pair.light) + 0x100_0000_0000_0000 * match pair.dark {
        None => 0nat,
        Some(dark) => 1 + color_code(dark),
    }
}

proof fn lemma_color_code_injective(a: Color, b: Color)
    requires
        color_code(a) == color_code(b),
    ensures
        a == b,
{
}

proof fn lemma_pair_code_injective(a: CompatColorSet, b: CompatColorSet)
    requires
        pair_code(a) == pair_code(b),
    ensures
        a == b,
{
    let high_a = match a.dark {
        None => 0nat,
        Some(dark) => 1 + color_code(dark),
    };
    let high_b = match b.dark {
        None => 0nat,
        Some(dark) => 1 + color_code(dark),
    };
    assert(color_code(a.light) < 0x100_0000_0000_0000);
    assert(color_code(b.light) < 0x100_0000_0000_0000);
    assert(high_a == high_b);
    lemma_color_code_injective(a.light, b.light);
    if a.dark is Some {
        lemma_color_code_injective(a.dark->0, b.dark->0);
    }
}

fn color_key(color: &Color) -> (key: u64)
    ensures
        key == color_code(*color),
{
    (color.r as u64) + 0x100 * (color.g as u64) + 0x1_0000 * (color.b as u64) + 0x100_0000 * (
    color.a as u64)
}

fn pair_key(pair: &CompatColorSet) -> (key: u128)
    ensures
        key == pair_code(*pair),
{
    let high: u128 = match pair.dark {
        None => 0,
        Some(dark) => 1 + (color_key(&dark) as u128),
    };
    (color_key(&pair.light) as u128) + 0x100_0000_0000_0000 * high
}

/// The table of canonical pairs, with an index from each pair to its place.
pub struct ColorSetMap {
    map: HashMap<u128, usize>,
    colorsets: Vec<CompatColorSet>,
}

impl View for ColorSetMap {
    type V = Seq<CompatColorSet>;

    /// The entries of the table, in the order in which they were registered.
    closed spec fn view(&self) -> Seq<CompatColorSet> {
        self.colorsets@
    }
}

impl ColorSetMap {
    /// The index and the entries agree: the index maps the code of each
    /// entry to the entry's place, and nothing else.
    pub closed spec fn wf(&self) -> bool {
        &&& forall|i: int|
            0 <= i < self.colorsets@.len() ==> {
                &&& self.map@.contains_key(pair_code(#[trigger] self.colorsets@[i]) as u128)
                &&& self.map@[pair_code(self.colorsets@[i]) as u128] == i
            }
        &&& forall|key: u128| #[trigger]
            self.map@.contains_key(key) ==> {
                &&& self.map@[key] < self.colorsets@.len()
                &&& pair_code(self.colorsets@[self.map@[key] as int]) == key
            }
    }

    /// No pair occurs twice in a well-formed table.
    pub proof fn lemma_no_duplicates(&self)
        requires
            self.wf(),
        ensures
            self@.no_duplicates(),
    {
        assert forall|i: int, j: int|
            0 <= i < self@.len() && 0 <= j < self@.len() && i != j implies self@[i] != self@[j] by {
            if self@[i] == self@[j] {
                assert(self.map@[pair_code(self.colorsets@[i]) as u128] == i);
                assert(self.map@[pair_code(self.colorsets@[j]) as u128] == j);
            }
        }
    }

    /// An empty table.
    pub fn new() -> (table: ColorSetMap)
        ensures
            table.wf(),
            table@ == Seq::<CompatColorSet>::empty(),
    {
        ColorSetMap { map: HashMap::new(), colorsets: Vec::new() }
    }

    /// The entries, in the order in which they were registered.
    pub fn colorsets(&self) -> (entries: &Vec<CompatColorSet>)
        ensures
            entries@ == self@,
    {
        &self.colorsets
    }

    /// The place of `pair` in the table, if it is registered.
    pub fn lookup(&self, pair: &CompatColorSet) -> (found: Option<usize>)
        requires
            self.wf(),
        ensures
            match found {
                Some(index) => index < self@.len() && self@[index as int] == *pair && index
                    == self@.index_of(*pair),
                None => !self@.contains(*pair),
            },
    {
        let key: u128 = pair_key(pair);
        match self.map.get(&key) {
            Some(index) => {
                proof {
                    lemma_pair_code_injective(self.colorsets@[*index as int], *pair);
                    self.lemma_no_duplicates();
                }
                Some(*index)
            },
            None => {
                proof {
                    if self@.contains(*pair) {
                        let i = choose|i: int| 0 <= i < self@.len() && self@[i] == *pair;
                        assert(self.map@.contains_key(pair_code(self.colorsets@[i]) as u128));
                    }
                }
                None
            },
        }
    }

    /// Registers `pair`: appends it, unless an equal pair is already there.
    pub fn register(&mut self, pair: CompatColorSet)
        requires
            old(self).wf(),
        ensures
            final(self).wf(),
            final(self)@ == registered(old(self)@, pair),
    {
        if self.lookup(&pair).is_some() {
            return ;
        }
        let key: u128 = pair_key(&pair);
        let idx: usize = self.colorsets.len();
        self.colorsets.push(pair);
        self.map.insert(key, idx);
        proof {
            assert forall|i: int| 0 <= i < self.colorsets@.len() implies {
                &&& self.map@.contains_key(pair_code(#[trigger] self.colorsets@[i]) as u128)
                &&& self.map@[pair_code(self.colorsets@[i]) as u128] == i
            } by {
                if i < idx {
                    assert(self.colorsets@[i] == old(self).colorsets@[i]);
                    if pair_code(self.colorsets@[i]) == pair_code(pair) {
                        lemma_pair_code_injective(self.colorsets@[i], pair);
                    }
                }
            }
            assert forall|k: u128| #[trigger] self.map@.contains_key(k) implies {
                &&& self.map@[k] < self.colorsets@.len()
                &&& pair_code(self.colorsets@[self.map@[k] as int]) == k
            } by {
                if k != key {
                    assert(old(self).map@.contains_key(k));
                    let at = self.map@[k] as int;
                    assert(self.colorsets@[at] == old(self).colorsets@[at]);
                }
            }
        }
    }

    /// Registers the canonical pair of `decl`.
    pub fn register_declaration(&mut self, decl: &Declaration)
        requires
            old(self).wf(),
        ensures
            final(self).wf(),
            final(self)@ == registered(old(self)@, canonical_pair(decl@)),
    {
        let colorset = CompatColorSet::from(decl);
        self.register(colorset);
    }

    /// The place of the canonical pair of `decl`, which must be registered.
    pub fn index_for_declaration(&self, decl: &Declaration) -> (index: usize)
        requires
            self.wf(),
            self@.contains(canonical_pair(decl@)),
        ensures
            index < self@.len(),
            self@[index as int] == canonical_pair(decl@),
            index == self@.index_of(canonical_pair(decl@)),
    {
        let colorset = CompatColorSet::from(decl);
        match self.lookup(&colorset) {
            Some(index) => index,
            None => unreached(),
        }
    }
}

} // verus!
