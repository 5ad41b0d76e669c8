//! The tree of rulesets and colour declarations, and its mathematical view.

use crate::color::Color;
use vstd::prelude::*;

verus! {

/// A light colour and the dark colour that replaces it in dark mode.
#[derive(Clone, Copy, PartialEq, Eq, Structural, Hash, Debug)]
pub struct ColorSet {
    pub light: Color,
    pub dark: Color,
}

/// What a declaration binds its name to: one colour for every appearance,
/// or a colour for each.
#[derive(Clone, Copy, PartialEq, Eq, Structural, Hash, Debug)]
pub enum DeclarationValue {
    Color(Color),
    ColorSet(ColorSet),
}

/// The name of a node and its nesting level. The level decides the
/// indentation of what is written for the node and nothing else.
#[derive(Debug)]
pub struct Identifier {
    pub short: String,
    pub depth: usize,
}

/// A named colour value: a leaf of the tree.
#[derive(Debug)]
pub struct Declaration {
    pub identifier: Identifier,
    pub value: DeclarationValue,
}

/// A member of a ruleset.
#[derive(Debug)]
pub enum RuleSetItem {
    Declaration(Declaration),
    RuleSet(RuleSet),
}

/// A named group of declarations and nested rulesets, in order.
#[derive(Debug)]
pub struct RuleSet {
    pub identifier: Identifier,
    pub items: Vec<RuleSetItem>,
}

/// The view of an [`Identifier`].
pub struct IdentifierView {
    pub short: Seq<char>,
    pub depth: nat,
}

/// The view of a [`Declaration`].
pub struct DeclarationView {
    pub identifier: IdentifierView,
    pub value: DeclarationValue,
}

/// The view of a [`RuleSetItem`].
pub enum RuleSetItemView {
    Declaration(DeclarationView),
    RuleSet(RuleSetView),
}

/// The view of a [`RuleSet`]: the whole tree below it.
pub struct RuleSetView {
    pub identifier: IdentifierView,
    pub items: Seq<RuleSetItemView>,
}

impl View for Identifier {
    type V = IdentifierView;

    open spec fn view(&self) -> IdentifierView {
        IdentifierView { short: self.short@, depth: self.depth as nat }
    }
}

impl View for Declaration {
    type V = DeclarationView;

    open spec fn view(&self) -> DeclarationView {
        DeclarationView { identifier: self.identifier@, value: self.value }
    }
}

/// The view of a ruleset: its identifier's view and the views of its items,
/// in order.
pub open spec fn ruleset_view(ruleset: RuleSet) -> RuleSetView
    decreases ruleset,
{
    RuleSetView {
        identifier: ruleset.identifier@,
        items: Seq::new(
            ruleset.items@.len(),
            |i: int|
                if 0 <= i < ruleset.items@.len() {
                    item_view(ruleset.items@[i])
                } else {
                    arbitrary()
                },
        ),
    }
}

/// The view of an item.
pub open spec fn item_view(item: RuleSetItem) -> RuleSetItemView
    decreases item,
{
    match item {
        RuleSetItem::Declaration(declaration) => RuleSetItemView::Declaration(declaration@),
        RuleSetItem::RuleSet(ruleset) => RuleSetItemView::RuleSet(ruleset_view(ruleset)),
    }
}

impl View for RuleSetItem {
    type V = RuleSetItemView;

    open spec fn view(&self) -> RuleSetItemView {
        item_view(*self)
    }
}

impl View for RuleSet {
    type V = RuleSetView;

    open spec fn view(&self) -> RuleSetView {
        ruleset_view(*self)
    }
}

/// The declarations of a tree in the order of a depth-first walk that
/// visits the items of each ruleset from first to last.
pub open spec fn declarations(ruleset: RuleSetView) -> Seq<DeclarationView>
    decreases ruleset,
{
    declarations_of_items(ruleset.items)
}

/// The declarations below a run of sibling items, in walk order.
pub open spec fn declarations_of_items(items: Seq<RuleSetItemView>) -> Seq<DeclarationView>
    decreases items,
{
    if items.len() == 0 {
        Seq::empty()
    } else {
        declarations_of_items(items.drop_last()) + declarations_of_item(items.last())
    }
}

/// The declarations at or below one item, in walk order.
pub open spec fn declarations_of_item(item: RuleSetItemView) -> Seq<DeclarationView>
    decreases item,
{
    match item {
        RuleSetItemView::Declaration(declaration) => seq![declaration],
        RuleSetItemView::RuleSet(ruleset) => declarations(ruleset),
    }
}

} // verus!
