# devup_css

Styles for zero-runtime CSS-in-JS, verified with Verus.

- `src/` is the verified library: class-name generation against explicit
  naming state (`CssState`, `CssContext`, `ExtractionContext`), selectors and
  at-rules, CSS text read into styles (`css_to_style`, template literals in
  `css_literal`), value normalization (`optimize_value`, `zero_percent`,
  `ratio`), the `className` and `style` props of an element (`gen_class_name`,
  `class_expr`, `gen_style`), StyleX helpers and import rewriting. Its
  contracts are stated over `Seq`/`Map` models; the calls into `bimap`,
  `regex_lite` and std's hashing and Unicode tables go through a few trusted
  wrappers whose contracts name what those calls return.
- `app/` holds what the library does not state: the `rgba()` alpha step and
  length parsing (floating point), and entry points that run the whole value
  normalization before naming a style.
- `tests/` runs the library on concrete values.

## Collections

Maps keyed by strings (the class map, the keyframes of a `@keyframes` block,
the variable groups of the `style` prop) are association lists (`StrMap`,
`ClassMap`, `Vec` of pairs) with the invariant that no key occurs twice, so
that their contracts can be proved over `Seq` models. Where iteration order
shows, it is the order the program relies on: keyframes are kept in key
order, as a sorted map would give them, and the entries of the `style` prop
are sorted by key. The file map
stays a `bimap::BiHashMap` behind trusted wrappers.

## What is not here

The extractor's reading of styles out of syntax-tree expressions
(`extract_style_from_expression`, `extract_style_from_member_expression`),
out of StyleX namespace objects (`extract_stylex_namespace_styles`), and its
building of styled components (`create_styled_component`) are not in this
crate. Each of them decides through helpers of the extractor's `utils`
module (the string and number value of a literal, the printed code of an
expression, expression comparison, the special-property test, array and
object merging) and the `css` crate's `is_special_property`, and the source
of those helpers is not part of this project, so what these functions return
cannot be stated. What they hand on is here: the model of extracted style
props (`StyleProp`) that `gen_class_name` and `gen_style` walk, the style
constructors, and CSS text read into styles.

Of the kinds of extracted style value, `Css` is not modelled: its
definition is not part of this project. An `Import` (a stylesheet URL and
the file that imports it) is, and puts nothing on its element.

The value conversion that precedes `optimize_value` for non-maintained
properties (unit and theme-token conversion) is not here either: style
constructors take the value as that conversion and `optimize_value` leave it.
