//! Styles for zero-runtime CSS-in-JS: class names generated from style
//! keys (property, level, value, selector, order, file) against explicit
//! naming state; CSS text read into styles; selectors, at-rules and values
//! normalized; and the rules that rewrite imports of other styling
//! libraries.
pub mod text;
pub mod num_to_nm_base;
pub mod utils;
pub mod style_selector;
pub mod at_rule;
pub mod class_map;
pub mod str_map;
pub mod state;
pub mod debug;
pub mod atom_hoist;
pub mod file_map;
pub mod file_routes;
pub mod theme_tokens;
pub mod naming;
pub mod property_type;
pub mod optimize_multi_css_value;
pub mod regex_match;
pub mod optimize_value;
pub mod zero_percent;
pub mod ratio;
pub mod class_expr;
pub mod gen_class_name;
pub mod gen_style;
pub mod rm_css_comment;
pub mod extract_style;
pub mod component;
pub mod css_type;
pub mod stylex;
pub mod css_utils;
pub mod options;
pub mod import_alias;
pub mod class_names;
pub mod context_ops;
pub mod extraction_context;
pub mod selector_order;
pub mod css_to_style;
pub mod css_literal;
