use devup_css::at_rule::query_order;
use devup_css::property_type::{disassemble_property, PropertyType};
use devup_css::style_selector::AtRuleKind;
use devup_css::at_rule::{combine_media_queries, normalize_query, MediaCombination};
use devup_css::file_map::{get_file_num_by_filename, get_filename_by_file_num, reset_file_map};
use devup_css::state::CssState;
use devup_css::utils::{to_camel_case, to_kebab_case};

#[test]
fn normalized_query_is_a_fixed_point() {
    for q in [
        "  screen   and  ( min-width : 768px )  ",
        "not(color)",
        "(width >= 600px) and (width <= 900px)",
        "screen and (min-width: calc( 100px + 2em ))",
        "print , screen",
        "supports( display : grid )",
        "'a  b' and \"c  d",
    ] {
        let once = normalize_query(q);
        assert_eq!(normalize_query(&once), once, "query {q:?}");
    }
    assert_eq!(normalize_query("  screen   and  ( min-width : 768px )  "), "screen and (min-width:768px)");
}

#[test]
fn negated_media_types_fold_as_their_complement() {
    for outer in ["(min-width:768px)", "screen", "print", "all and (color)", "screen,(hover:hover)"] {
        assert_eq!(combine_media_queries(outer, "not print"), combine_media_queries(outer, "screen"));
        assert_eq!(combine_media_queries(outer, "not screen"), combine_media_queries(outer, "print"));
    }
    assert_eq!(
        combine_media_queries("(min-width:768px)", "not print"),
        MediaCombination::Merged("screen and (min-width:768px)".to_string())
    );
    assert_eq!(combine_media_queries("screen", "not screen"), MediaCombination::Never);
}

#[test]
fn camel_case_undoes_kebab_case() {
    for s in ["maxHeight", "backgroundColor", "color", "", "zIndex", "webkitLineClamp", "a1B2"] {
        assert_eq!(to_camel_case(&to_kebab_case(s)), s);
    }
    assert_eq!(to_kebab_case("maxHeight"), "max-height");
    assert_eq!(to_camel_case("background-color"), "backgroundColor");
    assert_eq!(to_camel_case(&to_kebab_case("MaxHeight")), "maxHeight");
}

#[test]
fn file_numbers_stay_dense() {
    let mut st = CssState::new();
    reset_file_map(&mut st);
    assert_eq!(get_file_num_by_filename(&mut st, "a.tsx"), 0);
    assert_eq!(get_file_num_by_filename(&mut st, "b.tsx"), 1);
    assert_eq!(get_file_num_by_filename(&mut st, "a.tsx"), 0);
    assert_eq!(get_file_num_by_filename(&mut st, "c.tsx"), 2);
    for (n, f) in ["a.tsx", "b.tsx", "c.tsx"].iter().enumerate() {
        assert_eq!(get_filename_by_file_num(&st, n), *f);
    }
}

#[test]
fn media_blocks_cascade_in_order() {
    let q = |s: &str, bound: Option<(bool, i64)>| query_order(AtRuleKind::Media, s, bound);
    let (a, b) = (30000, 76800);
    assert!(q("(min-width:300px)", Some((true, a))) < q("(min-width:768px)", Some((true, b))));
    assert!(q("(min-width:768px)", Some((true, b))) < q("(max-width:768px)", Some((false, b))));
    assert!(q("(max-width:768px)", Some((false, b))) < q("(max-width:300px)", Some((false, a))));
    assert!(q("(max-width:300px)", Some((false, a))) < q("print", None));
    assert!(q("print", None) < q("(orientation:portrait)", None));
    assert!(q("(orientation:portrait)", None) < q("(prefers-reduced-motion:reduce)", None));
}

#[test]
fn disassembled_property_is_its_property_type() {
    for p in ["mx", "bgColor", "minW", "MozUserSelect", "color"] {
        let names = match PropertyType::from_property(p) {
            PropertyType::Single(s) => vec![s],
            PropertyType::Multi(v) => v,
        };
        assert_eq!(disassemble_property(p), names, "{p}");
    }
    assert_eq!(disassemble_property("mx"), vec!["margin-left".to_string(), "margin-right".to_string()]);
    assert_eq!(disassemble_property("MozUserSelect"), vec!["-moz-user-select".to_string()]);
}
