//! What holds of every tree: theorems about the table and the rendered
//! text, proved from the definitions the contracts are written in.

use crate::color::Color;
use crate::colorset_map::{canonical_pair, registered, registered_all, CompatColorSet};
use crate::config::{RendererConfig, RendererConfigView};
use crate::data::{declarations, DeclarationValue, DeclarationView, RuleSet, RuleSetItemView, RuleSetView};
use crate::renderer::{
    closing_text, declaration_text, declared_pairs, item_text, items_text, lemma_table_covers, opening_text,
    rendered_text, ruleset_text, table_of,
};
use vstd::prelude::*;

verus! {

/// Rendering is determined by the tree and the configuration: two renderings
/// appended to the same text, of trees with the same view under
/// configurations with the same view, are the same text.
pub proof fn theorem_rendering_is_deterministic(
    first: RuleSet,
    second: RuleSet,
    first_config: RendererConfig,
    second_config: RendererConfig,
    before: Seq<char>,
    first_output: Seq<char>,
    second_output: Seq<char>,
)
    requires
        first@ == second@,
        first_config@ == second_config@,
        first_output == before + rendered_text(first@, first_config@),
        second_output == before + rendered_text(second@, second_config@),
    ensures
        first_output == second_output,
{
}

/// Two declarations of a tree read the same table entry exactly when their
/// canonical pairs are equal, wherever in the tree they stand. Both pairs
/// are in the table, each at the index its constant names.
pub proof fn theorem_equal_pairs_share_an_index(ruleset: RuleSetView, i: int, j: int)
    requires
        0 <= i < declarations(ruleset).len(),
        0 <= j < declarations(ruleset).len(),
    ensures
        ({
            let table = table_of(ruleset);
            let first = canonical_pair(declarations(ruleset)[i]);
            let second = canonical_pair(declarations(ruleset)[j]);
            &&& 0 <= table.index_of(first) < table.len()
            &&& 0 <= table.index_of(second) < table.len()
            &&& table[table.index_of(first)] == first
            &&& table[table.index_of(second)] == second
            &&& first == second <==> table.index_of(first) == table.index_of(second)
        }),
{
    lemma_table_covers(ruleset);
    let table = table_of(ruleset);
    assert(table.contains(canonical_pair(declarations(ruleset)[i])));
    assert(table.contains(canonical_pair(declarations(ruleset)[j])));
}

/// `pair` stands at `position` in `pairs` and nowhere before it.
pub open spec fn first_met_at(pairs: Seq<CompatColorSet>, pair: CompatColorSet, position: int) -> bool {
    &&& 0 <= position < pairs.len()
    &&& pairs[position] == pair
    &&& forall|earlier: int| 0 <= earlier < position ==> pairs[earlier] != pair
}

/// The position at which `pair` first stands in `pairs`.
pub open spec fn first_position(pairs: Seq<CompatColorSet>, pair: CompatColorSet) -> int {
    choose|position: int| first_met_at(pairs, pair, position)
}

/// A pair that occurs in a run has a first position there.
pub proof fn lemma_first_position(pairs: Seq<CompatColorSet>, pair: CompatColorSet)
    requires
        pairs.contains(pair),
    ensures
        first_met_at(pairs, pair, first_position(pairs, pair)),
    decreases pairs.len(),
{
    let shorter = pairs.drop_last();
    if shorter.contains(pair) {
        lemma_first_position(shorter, pair);
        let position = first_position(shorter, pair);
        assert(first_met_at(pairs, pair, position)) by {
            assert(pairs[position] == shorter[position]);
            assert forall|earlier: int| 0 <= earlier < position implies pairs[earlier] != pair by {
                assert(pairs[earlier] == shorter[earlier]);
            }
        }
    } else {
        let at = choose|at: int| 0 <= at < pairs.len() && pairs[at] == pair;
        if at < pairs.len() - 1 {
            assert(shorter[at] == pair);
        }
        assert(first_met_at(pairs, pair, pairs.len() - 1)) by {
            assert forall|earlier: int| 0 <= earlier < pairs.len() - 1 implies pairs[earlier]
                != pair by {
                assert(shorter[earlier] == pairs[earlier]);
            }
        }
    }
}

/// Registering a run of pairs in an empty table gives each distinct pair of
/// the run once, ordered by where each first stands in the run.
pub proof fn lemma_registered_in_order_of_first_meeting(pairs: Seq<CompatColorSet>)
    ensures
        ({
            let table = registered_all(Seq::empty(), pairs);
            &&& table.no_duplicates()
            &&& forall|pair: CompatColorSet| #[trigger] table.contains(pair) <==> pairs.contains(pair)
            &&& forall|i: int, j: int|
                0 <= i < j < table.len() ==> first_position(pairs, #[trigger] table[i])
                    < first_position(pairs, #[trigger] table[j])
        }),
    decreases pairs.len(),
{
    let table = registered_all(Seq::empty(), pairs);
    if pairs.len() == 0 {
        assert forall|pair: CompatColorSet| #[trigger] table.contains(pair) <==> pairs.contains(pair) by {}
    } else {
        let shorter = pairs.drop_last();
        let last = pairs.last();
        let before = registered_all(Seq::empty(), shorter);
        lemma_registered_in_order_of_first_meeting(shorter);
        assert(table == registered(before, last));
        assert forall|pair: CompatColorSet| #[trigger] table.contains(pair) <==> pairs.contains(pair) by {
            if table.contains(pair) {
                let k = choose|k: int| 0 <= k < table.len() && table[k] == pair;
                if k < before.len() {
                    assert(before[k] == pair);
                    assert(before.contains(pair));
                    let m = choose|m: int| 0 <= m < shorter.len() && shorter[m] == pair;
                    assert(pairs[m] == pair);
                } else {
                    assert(pairs[pairs.len() - 1] == pair);
                }
            }
            if pairs.contains(pair) {
                let m = choose|m: int| 0 <= m < pairs.len() && pairs[m] == pair;
                if m < shorter.len() {
                    assert(shorter[m] == pair);
                    assert(before.contains(pair));
                    let k = choose|k: int| 0 <= k < before.len() && before[k] == pair;
                    assert(table[k] == pair);
                } else {
                    assert(pair == last);
                    if before.contains(last) {
                    } else {
                        assert(table[before.len() as int] == last);
                    }
                }
            }
        }
        assert forall|i: int, j: int| 0 <= i < j < table.len() implies first_position(
            pairs,
            #[trigger] table[i],
        ) < first_position(pairs, #[trigger] table[j]) by {
            assert(before[i] == table[i]);
            assert(before.contains(table[i]));
            assert(shorter.contains(table[i]));
            lemma_first_position(shorter, table[i]);
            lemma_first_position_in_longer(pairs, table[i]);
            if j < before.len() {
                assert(before[j] == table[j]);
                assert(before.contains(table[j]));
                assert(shorter.contains(table[j]));
                lemma_first_position(shorter, table[j]);
                lemma_first_position_in_longer(pairs, table[j]);
            } else {
                assert(table[j] == last);
                assert(!shorter.contains(last));
                assert(pairs[pairs.len() - 1] == last);
                assert(pairs.contains(last));
                lemma_first_position(pairs, last);
                let position = first_position(pairs, last);
                if position < pairs.len() - 1 {
                    assert(shorter[position] == last);
                }
            }
        }
    }
}

/// Where a pair occurs in a run without its last member, its first position
/// in the whole run is its first position there.
pub proof fn lemma_first_position_in_longer(pairs: Seq<CompatColorSet>, pair: CompatColorSet)
    requires
        pairs.len() > 0,
        pairs.drop_last().contains(pair),
    ensures
        first_position(pairs, pair) == first_position(pairs.drop_last(), pair),
{
    let shorter = pairs.drop_last();
    lemma_first_position(shorter, pair);
    let inner = first_position(shorter, pair);
    assert(pairs[inner] == shorter[inner]);
    assert(pairs.contains(pair));
    lemma_first_position(pairs, pair);
    let outer = first_position(pairs, pair);
    if outer < inner {
        assert(shorter[outer] == pairs[outer]);
    } else if inner < outer {
    }
}

/// The table of a tree holds each pair that the tree declares once, and
/// nothing else, in the order in which a depth-first walk that takes the
/// items of each ruleset from first to last first meets each pair.
pub proof fn theorem_table_keeps_order_of_first_meeting(ruleset: RuleSetView)
    ensures
        table_of(ruleset).no_duplicates(),
        forall|pair: CompatColorSet| #[trigger]
            table_of(ruleset).contains(pair) <==> declared_pairs(ruleset).contains(pair),
        forall|i: int, j: int|
            0 <= i < j < table_of(ruleset).len() ==> first_position(
                declared_pairs(ruleset),
                #[trigger] table_of(ruleset)[i],
            ) < first_position(declared_pairs(ruleset), #[trigger] table_of(ruleset)[j]),
{
    lemma_registered_in_order_of_first_meeting(declared_pairs(ruleset));
}

/// What two runs of siblings render to, one after the other, is what the
/// joined run renders to.
pub proof fn lemma_items_text_append(
    first: Seq<RuleSetItemView>,
    second: Seq<RuleSetItemView>,
    entries: Seq<CompatColorSet>,
    config: RendererConfigView,
)
    ensures
        items_text(first + second, entries, config) == items_text(first, entries, config)
            + items_text(second, entries, config),
    decreases second.len(),
{
    if second.len() == 0 {
        assert(first + second =~= first);
    } else {
        assert((first + second).drop_last() =~= first + second.drop_last());
        assert((first + second).last() == second.last());
        lemma_items_text_append(first, second.drop_last(), entries, config);
    }
}

/// The rendered namespace mirrors the tree: between the opening and the
/// closing line of a ruleset stands, for each of its items, what that item
/// renders to, after what the items before it render to and before what the
/// items after it render to. A declaration renders to its one line; a
/// nested ruleset renders to a namespace of its own, built in the same way
/// from its own items and indented by its own depth.
pub proof fn theorem_namespace_mirrors_tree(
    ruleset: RuleSetView,
    entries: Seq<CompatColorSet>,
    config: RendererConfigView,
    k: int,
)
    requires
        0 <= k < ruleset.items.len(),
    ensures
        ruleset_text(ruleset, entries, config) == opening_text(ruleset, config) + items_text(
            ruleset.items.take(k),
            entries,
            config,
        ) + item_text(ruleset.items[k], entries, config) + items_text(
            ruleset.items.skip(k + 1),
            entries,
            config,
        ) + closing_text(ruleset, config),
        match ruleset.items[k] {
            RuleSetItemView::Declaration(declaration) => item_text(
                ruleset.items[k],
                entries,
                config,
            ) == declaration_text(declaration, entries, config),
            RuleSetItemView::RuleSet(inner) => item_text(ruleset.items[k], entries, config)
                == opening_text(inner, config) + items_text(inner.items, entries, config)
                + closing_text(inner, config),
        },
{
    let items = ruleset.items;
    let one = seq![items[k]];
    assert(items =~= items.take(k) + one + items.skip(k + 1));
    lemma_items_text_append(items.take(k) + one, items.skip(k + 1), entries, config);
    lemma_items_text_append(items.take(k), one, entries, config);
    assert(one.drop_last() =~= Seq::<RuleSetItemView>::empty());
    assert(items_text(one, entries, config) == items_text(one.drop_last(), entries, config)
        + item_text(one.last(), entries, config));
    assert(items_text(one, entries, config) =~= item_text(items[k], entries, config));
}

/// A declaration of one colour has the canonical pair of that colour with
/// no dark colour, whatever its identifier: registering that pair where
/// the declaration's pair is registered adds no entry.
pub proof fn theorem_solid_color_is_canonical(
    declaration: DeclarationView,
    color: Color,
    entries: Seq<CompatColorSet>,
)
    requires
        declaration.value == DeclarationValue::Color(color),
    ensures
        canonical_pair(declaration) == (CompatColorSet { light: color, dark: None }),
        registered(
            registered(entries, canonical_pair(declaration)),
            CompatColorSet { light: color, dark: None },
        ) == registered(entries, canonical_pair(declaration)),
{
    let pair = canonical_pair(declaration);
    let table = registered(entries, pair);
    if entries.contains(pair) {
    } else {
        assert(table[entries.len() as int] == pair);
    }
    assert(table.contains(pair));
}

} // verus!
