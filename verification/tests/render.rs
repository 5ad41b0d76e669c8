use swift_gen::color::Color;
use swift_gen::colorset_map::{ColorSetMap, CompatColorSet};
use swift_gen::config::RendererConfig;
use swift_gen::data::{
    ColorSet, Declaration, DeclarationValue, Identifier, RuleSet, RuleSetItem,
};
use swift_gen::renderer::{DynamicColorRenderer, PREAMBLE};

const HEAD: &str = "// This file is automatically generated. Do not edit, your changes will be erased.\n\
\n\
import UIKit\n\
\n\
fileprivate struct ColorSet {\n\
\x20 var light: UIColor\n\
\x20 var dark: UIColor?\n\
\n\
\x20 init(_ light: UIColor, _ dark: UIColor?) {\n\
\x20   self.light = light\n\
\x20   self.dark = dark\n\
\x20 }\n\
}\n\
\n\
fileprivate func dynamicColor(_ colorSet: ColorSet) -> UIColor {\n\
\x20 if #available(iOS 13.0, *) {\n\
\x20   return UIColor { traits -> UIColor in\n\
\x20     switch traits.userInterfaceStyle {\n\
\x20       case .dark:\n\
\x20         return colorSet.dark ?? colorSet.light\n\
\x20       case .light, .unspecified:\n\
\x20         fallthrough\n\
\x20       @unknown default:\n\
\x20         return colorSet.light\n\
\x20     }\n\
\x20   }\n\
\x20 } else {\n\
\x20   return colorSet.light\n\
\x20 }\n\
}\n\
\n\
fileprivate let ColorSets: [ColorSet] = [\n";

fn rgb(r: u8, g: u8, b: u8) -> Color {
    Color { r, g, b, a: 1.0f32.to_bits() }
}

fn solid(name: &str, depth: usize, color: Color) -> RuleSetItem {
    RuleSetItem::Declaration(Declaration {
        identifier: Identifier { short: name.to_string(), depth },
        value: DeclarationValue::Color(color),
    })
}

fn adaptive(name: &str, depth: usize, light: Color, dark: Color) -> RuleSetItem {
    RuleSetItem::Declaration(Declaration {
        identifier: Identifier { short: name.to_string(), depth },
        value: DeclarationValue::ColorSet(ColorSet { light, dark }),
    })
}

fn ruleset(name: &str, depth: usize, items: Vec<RuleSetItem>) -> RuleSet {
    RuleSet { identifier: Identifier { short: name.to_string(), depth }, items }
}

fn render(tree: &RuleSet, tab_size: usize) -> String {
    let mut out = String::new();
    DynamicColorRenderer {}.render_into(tree, &mut out, &RendererConfig { tab_size });
    out
}

fn populated(tree: &RuleSet) -> ColorSetMap {
    let mut table = ColorSetMap::new();
    DynamicColorRenderer::populate_colorset_map(tree, &mut table);
    table
}

fn brand() -> RuleSet {
    ruleset(
        "Brand",
        1,
        vec![
            solid("primary", 2, rgb(255, 0, 0)),
            solid("primaryAgain", 2, rgb(255, 0, 0)),
            RuleSetItem::RuleSet(ruleset(
                "Dark",
                2,
                vec![adaptive("accent", 3, rgb(255, 0, 0), rgb(128, 0, 0))],
            )),
        ],
    )
}

#[test]
fn preamble_is_the_fixed_head() {
    assert_eq!(format!("{}\nfileprivate let ColorSets: [ColorSet] = [\n", PREAMBLE), HEAD);
}

#[test]
fn brand_tree_has_two_table_entries() {
    let table = populated(&brand());
    assert_eq!(
        table.colorsets(),
        &vec![
            CompatColorSet { light: rgb(255, 0, 0), dark: None },
            CompatColorSet { light: rgb(255, 0, 0), dark: Some(rgb(128, 0, 0)) },
        ]
    );
}

#[test]
fn brand_tree_renders_to_the_expected_file() {
    let expected = format!(
        "{}{}",
        HEAD,
        "  ColorSet(UIColor(red: 1.000, green: 0.000, blue: 0.000, alpha: 1.00), nil),\n\
\x20 ColorSet(UIColor(red: 1.000, green: 0.000, blue: 0.000, alpha: 1.00), UIColor(red: 0.502, green: 0.000, blue: 0.000, alpha: 1.00)),\n\
]\n\
\n\
extension UIColor {\n\
\x20 enum Brand {\n\
\x20   static let primary = dynamicColor(ColorSets[0])\n\
\x20   static let primaryAgain = dynamicColor(ColorSets[0])\n\
\x20   enum Dark {\n\
\x20     static let accent = dynamicColor(ColorSets[1])\n\
\x20   }\n\
\x20 }\n\
}\n"
    );
    assert_eq!(render(&brand(), 2), expected);
}

#[test]
fn brand_tree_has_one_block_per_ruleset_and_one_line_per_declaration() {
    let text = render(&brand(), 2);
    assert_eq!(text.matches("enum Brand {").count(), 1);
    assert_eq!(text.matches("enum Dark {").count(), 1);
    assert_eq!(text.matches("static let ").count(), 3);
    assert_eq!(text.matches("dynamicColor(ColorSets[0])").count(), 2);
    assert_eq!(text.matches("dynamicColor(ColorSets[1])").count(), 1);
    assert_eq!(text.matches("  ColorSet(UIColor(").count(), 2);
}

#[test]
fn empty_ruleset_renders_an_empty_block_and_an_empty_table() {
    let tree = ruleset("Empty", 1, vec![]);
    let expected = format!("{}{}", HEAD, "]\n\nextension UIColor {\n  enum Empty {\n  }\n}\n");
    assert_eq!(render(&tree, 2), expected);
    assert!(populated(&tree).colorsets().is_empty());
}

#[test]
fn rendering_appends_to_what_is_there() {
    let mut out = String::from("// kept\n");
    DynamicColorRenderer {}.render_into(&brand(), &mut out, &RendererConfig { tab_size: 2 });
    assert_eq!(out, format!("// kept\n{}", render(&brand(), 2)));
}

#[test]
fn rendering_twice_gives_the_same_text() {
    let first = render(&brand(), 4);
    let second = render(&brand(), 4);
    assert_eq!(first, second);
    let tree = brand();
    assert_eq!(render(&tree, 4), render(&tree, 4));
}

#[test]
fn equal_pairs_in_unrelated_branches_share_an_index() {
    let tree = ruleset(
        "Root",
        0,
        vec![
            RuleSetItem::RuleSet(ruleset(
                "Left",
                1,
                vec![
                    solid("a", 2, rgb(1, 2, 3)),
                    adaptive("b", 2, rgb(1, 2, 3), rgb(3, 2, 1)),
                ],
            )),
            RuleSetItem::RuleSet(ruleset(
                "Right",
                1,
                vec![
                    RuleSetItem::RuleSet(ruleset(
                        "Deep",
                        2,
                        vec![adaptive("c", 3, rgb(1, 2, 3), rgb(3, 2, 1))],
                    )),
                    solid("d", 2, rgb(1, 2, 3)),
                    solid("e", 2, rgb(3, 2, 1)),
                ],
            )),
        ],
    );
    let table = populated(&tree);
    assert_eq!(
        table.colorsets(),
        &vec![
            CompatColorSet { light: rgb(1, 2, 3), dark: None },
            CompatColorSet { light: rgb(1, 2, 3), dark: Some(rgb(3, 2, 1)) },
            CompatColorSet { light: rgb(3, 2, 1), dark: None },
        ]
    );
    let mut body = String::new();
    DynamicColorRenderer {}.render_ruleset_into(
        &tree,
        &mut body,
        &table,
        &RendererConfig { tab_size: 1 },
    );
    assert_eq!(
        body,
        "enum Root {\n\
\x20enum Left {\n\
\x20 static let a = dynamicColor(ColorSets[0])\n\
\x20 static let b = dynamicColor(ColorSets[1])\n\
\x20}\n\
\x20enum Right {\n\
\x20 enum Deep {\n\
\x20  static let c = dynamicColor(ColorSets[1])\n\
\x20 }\n\
\x20 static let d = dynamicColor(ColorSets[0])\n\
\x20 static let e = dynamicColor(ColorSets[2])\n\
\x20}\n\
}\n"
    );
}

#[test]
fn table_order_is_the_order_of_first_encounter() {
    let colors = [rgb(5, 0, 0), rgb(4, 0, 0), rgb(3, 0, 0), rgb(2, 0, 0), rgb(1, 0, 0)];
    let tree = ruleset(
        "Root",
        0,
        vec![
            solid("a", 1, colors[0]),
            RuleSetItem::RuleSet(ruleset(
                "Inner",
                1,
                vec![
                    solid("b", 2, colors[1]),
                    solid("c", 2, colors[0]),
                    RuleSetItem::RuleSet(ruleset("Innermost", 2, vec![solid("d", 3, colors[2])])),
                    solid("e", 2, colors[3]),
                ],
            )),
            solid("f", 1, colors[4]),
            solid("g", 1, colors[1]),
        ],
    );
    let expected: Vec<CompatColorSet> =
        colors.iter().map(|color| CompatColorSet { light: *color, dark: None }).collect();
    assert_eq!(populated(&tree).colorsets(), &expected);
}

#[test]
fn populating_twice_adds_nothing() {
    let tree = brand();
    let mut table = ColorSetMap::new();
    DynamicColorRenderer::populate_colorset_map(&tree, &mut table);
    let once = table.colorsets().clone();
    DynamicColorRenderer::populate_colorset_map(&tree, &mut table);
    assert_eq!(table.colorsets(), &once);
}

#[test]
fn populating_keeps_earlier_entries_first() {
    let mut table = ColorSetMap::new();
    let earlier = CompatColorSet { light: rgb(9, 9, 9), dark: None };
    table.register(earlier);
    DynamicColorRenderer::populate_colorset_map(&brand(), &mut table);
    assert_eq!(
        table.colorsets(),
        &vec![
            earlier,
            CompatColorSet { light: rgb(255, 0, 0), dark: None },
            CompatColorSet { light: rgb(255, 0, 0), dark: Some(rgb(128, 0, 0)) },
        ]
    );
}

#[test]
fn declaration_line_names_the_index_in_decimal() {
    let mut table = ColorSetMap::new();
    for value in 0..=11u8 {
        table.register(CompatColorSet { light: rgb(value, 0, 0), dark: None });
    }
    let declaration = Declaration {
        identifier: Identifier { short: "twelfth".to_string(), depth: 2 },
        value: DeclarationValue::Color(rgb(11, 0, 0)),
    };
    let mut line = String::new();
    DynamicColorRenderer {}.render_declaration_into(
        &declaration,
        &mut line,
        &table,
        &RendererConfig { tab_size: 3 },
    );
    assert_eq!(line, "      static let twelfth = dynamicColor(ColorSets[11])\n");
}

#[test]
fn indentation_follows_depth_not_nesting() {
    let tree = ruleset(
        "Outer",
        3,
        vec![solid("flat", 0, rgb(0, 0, 0)), RuleSetItem::RuleSet(ruleset("In", 1, vec![]))],
    );
    let table = populated(&tree);
    let mut body = String::new();
    DynamicColorRenderer {}.render_ruleset_into(
        &tree,
        &mut body,
        &table,
        &RendererConfig { tab_size: 2 },
    );
    assert_eq!(
        body,
        "      enum Outer {\n\
static let flat = dynamicColor(ColorSets[0])\n\
\x20 enum In {\n\
\x20 }\n\
\x20     }\n"
    );
}

#[test]
fn table_literal_writes_nil_for_a_missing_dark_color() {
    let tree = ruleset(
        "T",
        0,
        vec![
            adaptive("a", 1, rgb(0, 0, 0), rgb(255, 255, 255)),
            solid("b", 1, Color { r: 51, g: 102, b: 153, a: 0.5f32.to_bits() }),
        ],
    );
    let text = render(&tree, 4);
    let expected = format!(
        "{}{}",
        HEAD,
        "    ColorSet(UIColor(red: 0.000, green: 0.000, blue: 0.000, alpha: 1.00), UIColor(red: 1.000, green: 1.000, blue: 1.000, alpha: 1.00)),\n\
\x20   ColorSet(UIColor(red: 0.200, green: 0.400, blue: 0.600, alpha: 0.50), nil),\n\
]\n\
\n\
extension UIColor {\n\
enum T {\n\
\x20   static let a = dynamicColor(ColorSets[0])\n\
\x20   static let b = dynamicColor(ColorSets[1])\n\
}\n\
}\n"
    );
    assert_eq!(text, expected);
}
