//! The renderer: one walk of the tree to collect the distinct colour pairs,
//! then the table of pairs and a second walk that writes the nested
//! namespaces, each constant naming its pair by its place in the table.

use crate::color::color_text;
use crate::colorset_map::{canonical_pair, registered, registered_all, ColorSetMap, CompatColorSet};
use crate::config::{indent_text, RendererConfig, RendererConfigView};
use crate::data::{
    declarations, declarations_of_item, declarations_of_items, Declaration, DeclarationView,
    RuleSet, RuleSetItem, RuleSetItemView, RuleSetView,
};
use crate::text::{decimal, push_decimal};
use vstd::prelude::*;

verus! {

/// The fixed head of every rendered file: the import, the shape of a table
/// entry, and the accessor that picks the dark colour in dark mode where
/// there is one and the light colour otherwise.
pub const PREAMBLE: &'static str = "// This file is automatically generated. Do not edit, your changes will be erased.

import UIKit

fileprivate struct ColorSet {
  var light: UIColor
  var dark: UIColor?

  init(_ light: UIColor, _ dark: UIColor?) {
    self.light = light
    self.dark = dark
  }
}

fileprivate func dynamicColor(_ colorSet: ColorSet) -> UIColor {
  if #available(iOS 13.0, *) {
    return UIColor { traits -> UIColor in
      switch traits.userInterfaceStyle {
        case .dark:
          return colorSet.dark ?? colorSet.light
        case .light, .unspecified:
          fallthrough
        @unknown default:
          return colorSet.light
      }
    }
  } else {
    return colorSet.light
  }
}
";

/// The canonical pairs of a run of declarations, in the same order.
pub open spec fn canonical_pairs(declarations: Seq<DeclarationView>) -> Seq<CompatColorSet> {
    declarations.map_values(|declaration: DeclarationView| canonical_pair(declaration))
}

/// The canonical pairs that a tree declares, in walk order, repeats included.
pub open spec fn declared_pairs(ruleset: RuleSetView) -> Seq<CompatColorSet> {
    canonical_pairs(declarations(ruleset))
}

/// The table for a tree: each distinct pair once, in the order in which the
/// walk first meets it.
pub open spec fn table_of(ruleset: RuleSetView) -> Seq<CompatColorSet> {
    registered_all(Seq::empty(), declared_pairs(ruleset))
}

/// Every pair that the tree declares is in `entries`.
pub open spec fn covers(entries: Seq<CompatColorSet>, ruleset: RuleSetView) -> bool {
    forall|i: int|
        0 <= i < declarations(ruleset).len() ==> entries.contains(
            canonical_pair(#[trigger] declarations(ruleset)[i]),
        )
}

/// The line of one table entry.
pub open spec fn entry_text(entry: CompatColorSet, config: RendererConfigView) -> Seq<char> {
    indent_text(config, 1) + "ColorSet("@ + color_text(entry.light) + ", "@ + (match entry.dark {
        Some(dark) => color_text(dark),
        None => "nil"@,
    }) + "),\n"@
}

/// The lines of the table entries, in table order.
pub open spec fn table_text(entries: Seq<CompatColorSet>, config: RendererConfigView) -> Seq<char>
    decreases entries.len(),
{
    if entries.len() == 0 {
        Seq::empty()
    } else {
        table_text(entries.drop_last(), config) + entry_text(entries.last(), config)
    }
}

/// The line of one declaration: a constant bound to the accessor applied to
/// the table entry at the place of the declaration's canonical pair.
pub open spec fn declaration_text(
    declaration: DeclarationView,
    entries: Seq<CompatColorSet>,
    config: RendererConfigView,
) -> Seq<char> {
    indent_text(config, declaration.identifier.depth) + "static let "@
        + declaration.identifier.short + " = dynamicColor(ColorSets["@ + decimal(
        entries.index_of(canonical_pair(declaration)) as nat,
    ) + "])\n"@
}

/// The line that opens the namespace of a ruleset.
pub open spec fn opening_text(ruleset: RuleSetView, config: RendererConfigView) -> Seq<char> {
    indent_text(config, ruleset.identifier.depth) + "enum "@ + ruleset.identifier.short + " {\n"@
}

/// The line that closes the namespace of a ruleset.
pub open spec fn closing_text(ruleset: RuleSetView, config: RendererConfigView) -> Seq<char> {
    indent_text(config, ruleset.identifier.depth) + "}\n"@
}

/// The namespace of a ruleset: its opening line, what its items render to,
/// in order, and its closing line.
pub open spec fn ruleset_text(
    ruleset: RuleSetView,
    entries: Seq<CompatColorSet>,
    config: RendererConfigView,
) -> Seq<char>
    decreases ruleset,
{
    opening_text(ruleset, config) + items_text(ruleset.items, entries, config) + closing_text(
        ruleset,
        config,
    )
}

/// What a run of sibling items renders to: each item's text, in order.
pub open spec fn items_text(
    items: Seq<RuleSetItemView>,
    entries: Seq<CompatColorSet>,
    config: RendererConfigView,
) -> Seq<char>
    decreases items,
{
    if items.len() == 0 {
        Seq::empty()
    } else {
        items_text(items.drop_last(), entries, config) + item_text(items.last(), entries, config)
    }
}

/// What one item renders to: a constant line or a nested namespace.
pub open spec fn item_text(
    item: RuleSetItemView,
    entries: Seq<CompatColorSet>,
    config: RendererConfigView,
) -> Seq<char>
    decreases item,
{
    match item {
        RuleSetItemView::Declaration(declaration) => declaration_text(declaration, entries, config),
        RuleSetItemView::RuleSet(ruleset) => ruleset_text(ruleset, entries, config),
    }
}

/// The whole rendered file for a tree.
pub open spec fn rendered_text(ruleset: RuleSetView, config: RendererConfigView) -> Seq<char> {
    PREAMBLE@ + "\n"@ + "fileprivate let ColorSets: [ColorSet] = [\n"@ + table_text(
        table_of(ruleset),
        config,
    ) + "]\n"@ + "\n"@ + "extension UIColor {\n"@ + ruleset_text(
        ruleset,
        table_of(ruleset),
        config,
    ) + "}\n"@
}

/// Registering a run of pairs and then another is registering the two runs
/// joined.
pub proof fn lemma_registered_all_append(
    entries: Seq<CompatColorSet>,
    first: Seq<CompatColorSet>,
    second: Seq<CompatColorSet>,
)
    ensures
        registered_all(entries, first + second) == registered_all(
            registered_all(entries, first),
            second,
        ),
    decreases second.len(),
{
    if second.len() == 0 {
        assert(first + second =~= first);
    } else {
        assert((first + second).drop_last() =~= first + second.drop_last());
        assert((first + second).last() == second.last());
        lemma_registered_all_append(entries, first, second.drop_last());
    }
}

/// Registering keeps what is in the table, and puts every registered pair
/// into it.
pub proof fn lemma_registered_all_contains(
    entries: Seq<CompatColorSet>,
    pairs: Seq<CompatColorSet>,
)
    ensures
        forall|pair: CompatColorSet| #[trigger]
            entries.contains(pair) ==> registered_all(entries, pairs).contains(pair),
        forall|i: int|
            0 <= i < pairs.len() ==> registered_all(entries, pairs).contains(#[trigger] pairs[i]),
    decreases pairs.len(),
{
    if pairs.len() > 0 {
        let shorter = pairs.drop_last();
        let before = registered_all(entries, shorter);
        let after = registered_all(entries, pairs);
        lemma_registered_all_contains(entries, shorter);
        assert forall|pair: CompatColorSet| #[trigger] before.contains(pair) implies after.contains(
            pair,
        ) by {
            let k = choose|k: int| 0 <= k < before.len() && before[k] == pair;
            assert(after[k] == pair);
        }
        assert(after.contains(pairs.last())) by {
            if !before.contains(pairs.last()) {
                assert(after[before.len() as int] == pairs.last());
            }
        }
        assert forall|i: int| 0 <= i < pairs.len() implies after.contains(#[trigger] pairs[i]) by {
            if i < shorter.len() {
                assert(shorter[i] == pairs[i]);
            }
        }
    }
}

/// What the first `i + 1` siblings declare is what the first `i` declare,
/// followed by what sibling `i` declares.
pub proof fn lemma_declarations_step(items: Seq<RuleSetItemView>, i: int)
    requires
        0 <= i < items.len(),
    ensures
        declarations_of_items(items.take(i + 1)) == declarations_of_items(items.take(i))
            + declarations_of_item(items[i]),
{
    assert(items.take(i + 1).drop_last() =~= items.take(i));
    assert(items.take(i + 1).last() == items[i]);
}

/// What the first `i + 1` siblings render to is what the first `i` render
/// to, followed by the text of sibling `i`.
pub proof fn lemma_items_text_step(
    items: Seq<RuleSetItemView>,
    i: int,
    entries: Seq<CompatColorSet>,
    config: RendererConfigView,
)
    requires
        0 <= i < items.len(),
    ensures
        items_text(items.take(i + 1), entries, config) == items_text(items.take(i), entries, config)
            + item_text(items[i], entries, config),
{
    assert(items.take(i + 1).drop_last() =~= items.take(i));
    assert(items.take(i + 1).last() == items[i]);
}

/// What an item declares is among what its run of siblings declares.
pub proof fn lemma_declarations_of_member(items: Seq<RuleSetItemView>, i: int, k: int)
    requires
        0 <= i < items.len(),
        0 <= k < declarations_of_item(items[i]).len(),
    ensures
        declarations_of_items(items).contains(declarations_of_item(items[i])[k]),
    decreases items.len(),
{
    let front = declarations_of_items(items.drop_last());
    let back = declarations_of_item(items.last());
    let wanted = declarations_of_item(items[i])[k];
    if i == items.len() - 1 {
        assert((front + back)[front.len() + k] == wanted);
    } else {
        lemma_declarations_of_member(items.drop_last(), i, k);
        let at = choose|at: int| 0 <= at < front.len() && front[at] == wanted;
        assert((front + back)[at] == wanted);
    }
}

/// A table that covers a ruleset covers each ruleset nested directly in it,
/// and holds the pair of each declaration directly in it.
pub proof fn lemma_covers_item(entries: Seq<CompatColorSet>, ruleset: RuleSetView, i: int)
    requires
        covers(entries, ruleset),
        0 <= i < ruleset.items.len(),
    ensures
        match ruleset.items[i] {
            RuleSetItemView::Declaration(declaration) => entries.contains(
                canonical_pair(declaration),
            ),
            RuleSetItemView::RuleSet(inner) => covers(entries, inner),
        },
{
    let all = declarations(ruleset);
    assert forall|k: int| 0 <= k < declarations_of_item(ruleset.items[i]).len() implies entries.contains(
        canonical_pair(#[trigger] declarations_of_item(ruleset.items[i])[k]),
    ) by {
        lemma_declarations_of_member(ruleset.items, i, k);
        let wanted = declarations_of_item(ruleset.items[i])[k];
        let at = choose|at: int| 0 <= at < all.len() && all[at] == wanted;
        assert(entries.contains(canonical_pair(all[at])));
    }
    match ruleset.items[i] {
        RuleSetItemView::Declaration(declaration) => {
            assert(declarations_of_item(ruleset.items[i])[0] == declaration);
        },
        RuleSetItemView::RuleSet(inner) => {},
    }
}

/// The table of a tree covers the tree.
pub proof fn lemma_table_covers(ruleset: RuleSetView)
    ensures
        covers(table_of(ruleset), ruleset),
{
    lemma_registered_all_contains(Seq::empty(), declared_pairs(ruleset));
    assert forall|i: int| 0 <= i < declarations(ruleset).len() implies table_of(ruleset).contains(
        canonical_pair(#[trigger] declarations(ruleset)[i]),
    ) by {
        assert(declared_pairs(ruleset)[i] == canonical_pair(declarations(ruleset)[i]));
    }
}

fn push_entry(d: &mut String, entry: &CompatColorSet, config: &RendererConfig)
    ensures
        final(d)@ == old(d)@ + entry_text(*entry, config@),
{
    d.push_str(config.indent(1).as_str());
    d.push_str("ColorSet(");
    d.push_str(entry.light.ui_color_string().as_str());
    d.push_str(", ");
    match entry.dark {
        Some(dark) => d.push_str(dark.ui_color_string().as_str()),
        None => d.push_str("nil"),
    }
    d.push_str("),\n");
}

/// Renders a tree of colour declarations as Swift source: a table of the
/// distinct colour pairs, and nested namespaces whose constants read the
/// table by index.
pub struct DynamicColorRenderer {}

impl DynamicColorRenderer {
    /// Appends the rendered file for `ruleset` to `d`.
    pub fn render_into(&self, ruleset: &RuleSet, d: &mut String, config: &RendererConfig)
        ensures
            final(d)@ == old(d)@ + rendered_text(ruleset@, config@),
    {
        let mut colorset_map = ColorSetMap::new();
        Self::populate_colorset_map(ruleset, &mut colorset_map);
        proof {
            lemma_table_covers(ruleset@);
        }

        d.push_str(PREAMBLE);
        d.push_str("\n");
        d.push_str("fileprivate let ColorSets: [ColorSet] = [\n");

        let ghost start = d@;
        let colorsets = colorset_map.colorsets();
        let mut i: usize = 0;
        while i < colorsets.len()
            invariant
                i <= colorsets.len(),
                d@ == start + table_text(colorsets@.take(i as int), config@),
            decreases colorsets.len() - i,
        {
            proof {
                assert(colorsets@.take(i + 1).drop_last() =~= colorsets@.take(i as int));
                assert(colorsets@.take(i + 1).last() == colorsets@[i as int]);
            }
            push_entry(d, &colorsets[i], config);
            i = i + 1;
        }
        proof {
            assert(colorsets@.take(i as int) =~= colorsets@);
        }

        d.push_str("]\n");
        d.push_str("\n");
        d.push_str("extension UIColor {\n");
        self.render_ruleset_into(ruleset, d, &colorset_map, config);
        d.push_str("}\n");
    }

    /// Registers the canonical pair of every declaration of the tree, in
    /// the order of a depth-first walk that takes the items of each ruleset
    /// from first to last.
    pub fn populate_colorset_map(ruleset: &RuleSet, map: &mut ColorSetMap)
        requires
            old(map).wf(),
        ensures
            final(map).wf(),
            final(map)@ == registered_all(old(map)@, declared_pairs(ruleset@)),
        decreases ruleset,
    {
        let mut i: usize = 0;
        while i < ruleset.items.len()
            invariant
                i <= ruleset.items.len(),
                map.wf(),
                map@ == registered_all(
                    old(map)@,
                    canonical_pairs(declarations_of_items(ruleset@.items.take(i as int))),
                ),
            decreases ruleset.items.len() - i,
        {
            let ghost seen = declarations_of_items(ruleset@.items.take(i as int));
            let ghost next = declarations_of_item(ruleset@.items[i as int]);
            proof {
                lemma_declarations_step(ruleset@.items, i as int);
                assert(canonical_pairs(seen + next) =~= canonical_pairs(seen) + canonical_pairs(
                    next,
                ));
                lemma_registered_all_append(old(map)@, canonical_pairs(seen), canonical_pairs(next));
            }
            match &ruleset.items[i] {
                RuleSetItem::Declaration(decl) => {
                    proof {
                        let pair = canonical_pair(decl@);
                        assert(canonical_pairs(next) =~= seq![pair]);
                        assert(seq![pair].drop_last() =~= Seq::<CompatColorSet>::empty());
                        assert(registered_all(map@, seq![pair]) == registered(
                            registered_all(map@, seq![pair].drop_last()),
                            pair,
                        ));
                    }
                    map.register_declaration(decl);
                },
                RuleSetItem::RuleSet(inner) => {
                    Self::populate_colorset_map(inner, map);
                },
            }
            i = i + 1;
        }
        proof {
            assert(ruleset@.items.take(i as int) =~= ruleset@.items);
        }
    }

    /// Appends the namespace of `ruleset`: the opening line, a constant for
    /// each declaration and a nested namespace for each nested ruleset, in
    /// order, and the closing line.
    pub fn render_ruleset_into(
        &self,
        ruleset: &RuleSet,
        d: &mut String,
        map: &ColorSetMap,
        config: &RendererConfig,
    )
        requires
            map.wf(),
            covers(map@, ruleset@),
        ensures
            final(d)@ == old(d)@ + ruleset_text(ruleset@, map@, config@),
        decreases ruleset,
    {
        d.push_str(config.indent(ruleset.identifier.depth).as_str());
        d.push_str("enum ");
        d.push_str(ruleset.identifier.short.as_str());
        d.push_str(" {\n");

        let ghost start = d@;
        let mut i: usize = 0;
        while i < ruleset.items.len()
            invariant
                i <= ruleset.items.len(),
                map.wf(),
                covers(map@, ruleset@),
                d@ == start + items_text(ruleset@.items.take(i as int), map@, config@),
            decreases ruleset.items.len() - i,
        {
            proof {
                lemma_items_text_step(ruleset@.items, i as int, map@, config@);
                lemma_covers_item(map@, ruleset@, i as int);
            }
            match &ruleset.items[i] {
                RuleSetItem::Declaration(decl) => self.render_declaration_into(
                    decl,
                    d,
                    map,
                    config,
                ),
                RuleSetItem::RuleSet(inner) => self.render_ruleset_into(inner, d, map, config),
            }
            i = i + 1;
        }
        proof {
            assert(ruleset@.items.take(i as int) =~= ruleset@.items);
        }

        d.push_str(config.indent(ruleset.identifier.depth).as_str());
        d.push_str("}\n");
    }

    /// Appends the line of one declaration, whose canonical pair must be in
    /// the table.
    pub fn render_declaration_into(
        &self,
        declaration: &Declaration,
        d: &mut String,
        map: &ColorSetMap,
        config: &RendererConfig,
    )
        requires
            map.wf(),
            map@.contains(canonical_pair(declaration@)),
        ensures
            final(d)@ == old(d)@ + declaration_text(declaration@, map@, config@),
    {
        let index: usize = map.index_for_declaration(declaration);
        d.push_str(config.indent(declaration.identifier.depth).as_str());
        d.push_str("static let ");
        d.push_str(declaration.identifier.short.as_str());
        d.push_str(" = dynamicColor(ColorSets[");
        push_decimal(d, index as u128);
        d.push_str("])\n");
    }
}

} // verus!
