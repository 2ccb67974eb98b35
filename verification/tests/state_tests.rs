use devup_css::atom_hoist::{atom_hoist_threshold, is_atom_hoist, set_atom_hoist};
use devup_css::class_map::{get_class_map, reset_class_map, set_class_map, ClassMap, FileClasses};
use devup_css::debug::{is_debug, set_debug};
use devup_css::file_map::{
    canonical, file_map_from_pairs, get_canonical_map, get_file_map, get_file_num_by_filename, get_filename_by_file_num,
    is_global, reset_canonical_map, reset_file_map, set_canonical_map, set_file_map, GLOBAL_BUCKET,
};
use devup_css::file_routes::{get_file_routes, reset_file_routes, route_count_for_files, set_file_routes};
use devup_css::state::CssState;
use devup_css::str_map::StrMap;
use devup_css::theme_tokens::{
    get_responsive_theme_token, is_responsive_theme_token, set_theme_token_levels,
};

#[test]
fn test_atom_hoist() {
    let mut st = CssState::new();
    set_atom_hoist(&mut st, None);
    assert!(!is_atom_hoist(&st));
    assert_eq!(atom_hoist_threshold(&st), None);
    set_atom_hoist(&mut st, Some(3));
    assert!(is_atom_hoist(&st));
    assert_eq!(atom_hoist_threshold(&st), Some(3));
    set_atom_hoist(&mut st, None);
    assert!(!is_atom_hoist(&st));
}

#[test]
fn atom_hoist_zero_reads_as_disabled() {
    let mut st = CssState::new();
    set_atom_hoist(&mut st, Some(0));
    assert!(!is_atom_hoist(&st));
    assert_eq!(atom_hoist_threshold(&st), None);
}

#[test]
fn test_set_and_get_class_map() {
    let mut st = CssState::new();
    let mut test_map = ClassMap::new();
    test_map.insert("", FileClasses::new());
    set_class_map(&mut st, test_map);
    let got = get_class_map(&st);
    assert_eq!(got.get(""), Some(&FileClasses::new()));
}

#[test]
fn test_reset_class_map() {
    let mut st = CssState::new();
    let mut test_map = ClassMap::new();
    test_map.insert("", FileClasses::new());
    set_class_map(&mut st, test_map);
    reset_class_map(&mut st);
    let got = get_class_map(&st);
    assert!(got.is_empty());
}

#[test]
fn test_set_debug() {
    let mut st = CssState::new();
    set_debug(&mut st, true);
    assert!(is_debug(&st));
    set_debug(&mut st, false);
    assert!(!is_debug(&st));
}

#[test]
fn test_set_and_get_file_map() {
    let mut st = CssState::new();
    let mut test_map = bimap::BiHashMap::new();
    test_map.insert("test-key".to_string(), 42usize);
    set_file_map(&mut st, test_map.clone());
    let got = get_file_map(&st);
    assert_eq!(got.get_by_left("test-key"), Some(&42));
    assert_eq!(got.get_by_right(&42), Some(&"test-key".to_string()));
    assert_eq!(get_file_num_by_filename(&mut st, "test-key"), 42);
    assert_eq!(get_filename_by_file_num(&st, 42), "test-key");
}

#[test]
fn test_reset_file_map() {
    let mut st = CssState::new();
    let mut test_map = bimap::BiHashMap::new();
    test_map.insert("reset-key".to_string(), 1usize);
    set_file_map(&mut st, test_map);
    reset_file_map(&mut st);
    let got = get_file_map(&st);
    assert!(got.is_empty());
}

#[test]
fn file_numbers_count_up_and_name_back() {
    let mut st = CssState::new();
    assert_eq!(get_file_num_by_filename(&mut st, "a.tsx"), 0);
    assert_eq!(get_file_num_by_filename(&mut st, "b.tsx"), 1);
    assert_eq!(get_file_num_by_filename(&mut st, "a.tsx"), 0);
    assert_eq!(get_filename_by_file_num(&st, 1), "b.tsx");
    assert_eq!(get_filename_by_file_num(&st, 7), "");
}

#[test]
fn numbering_a_file_drops_the_pair_holding_its_number() {
    let mut st = CssState::new();
    let mut m = bimap::BiHashMap::new();
    m.insert("old.tsx".to_string(), 1usize);
    set_file_map(&mut st, m);
    assert_eq!(get_file_num_by_filename(&mut st, "new.tsx"), 1);
    assert_eq!(get_filename_by_file_num(&st, 1), "new.tsx");
    assert_eq!(get_file_map(&st).len(), 1);
}

#[test]
fn test_canonical_identity_when_empty() {
    let mut st = CssState::new();
    reset_canonical_map(&mut st);
    assert_eq!(canonical(&st, "a.tsx"), "a.tsx");
}

#[test]
fn test_canonical_mapped_and_unmapped() {
    let mut st = CssState::new();
    let mut m = StrMap::new();
    m.insert("child.tsx", "parent.tsx".to_string());
    set_canonical_map(&mut st, m);
    assert_eq!(canonical(&st, "child.tsx"), "parent.tsx");
    assert_eq!(canonical(&st, "other.tsx"), "other.tsx");
    reset_canonical_map(&mut st);
}

#[test]
fn test_canonical_map_roundtrip() {
    let mut st = CssState::new();
    let mut m = StrMap::new();
    m.insert("a", "b".to_string());
    set_canonical_map(&mut st, m.clone());
    assert_eq!(get_canonical_map(&st), m);
    reset_canonical_map(&mut st);
    assert!(get_canonical_map(&st).is_empty());
}

#[test]
fn test_is_global() {
    let mut st = CssState::new();
    reset_canonical_map(&mut st);
    assert!(!is_global(&st, "shared.tsx"));
    let mut m = StrMap::new();
    m.insert("shared.tsx", GLOBAL_BUCKET.to_string());
    m.insert("child.tsx", "parent.tsx".to_string());
    set_canonical_map(&mut st, m);
    assert!(is_global(&st, "shared.tsx"));
    assert!(!is_global(&st, "child.tsx"));
    assert!(!is_global(&st, "absent.tsx"));
    reset_canonical_map(&mut st);
}

#[test]
fn test_set_get_reset_file_routes() {
    let mut st = CssState::new();
    let mut m = StrMap::new();
    m.insert("a.tsx", vec![0u32, 1]);
    set_file_routes(&mut st, m.clone());
    assert_eq!(get_file_routes(&st), m);
    reset_file_routes(&mut st);
    assert!(get_file_routes(&st).is_empty());
}

#[test]
fn test_route_count_for_files_union() {
    let mut st = CssState::new();
    let mut m = StrMap::new();
    m.insert("a.tsx", vec![0u32, 1]);
    m.insert("b.tsx", vec![1u32, 2]);
    m.insert("c.tsx", vec![5u32]);
    set_file_routes(&mut st, m);
    assert_eq!(route_count_for_files(&st, &["a.tsx", "b.tsx"]), 3);
    assert_eq!(route_count_for_files(&st, &["c.tsx"]), 1);
    assert_eq!(route_count_for_files(&st, &["a.tsx", "zzz.tsx"]), 2);
    reset_file_routes(&mut st);
}

#[test]
fn route_count_of_no_files_is_zero() {
    let st = CssState::new();
    assert_eq!(route_count_for_files(&st, &[]), 0);
    assert_eq!(route_count_for_files(&st, &["missing.tsx"]), 0);
}

fn token_tables() -> (StrMap<Vec<u8>>, StrMap<Vec<u8>>) {
    let mut length = StrMap::new();
    length.insert("containerX", vec![0u8, 2]);
    length.insert("single", vec![0u8]);
    let mut shadow = StrMap::new();
    shadow.insert("card", vec![0u8, 3]);
    (length, shadow)
}

#[test]
fn test_get_responsive_theme_token() {
    let mut st = CssState::new();
    let mut length = StrMap::new();
    length.insert("containerX", vec![0u8, 2]);
    let mut shadow = StrMap::new();
    shadow.insert("card", vec![0u8, 3]);
    set_theme_token_levels(&mut st, length, shadow);

    assert_eq!(get_responsive_theme_token(&st, "$containerX"), Some(vec![0, 2]));
    assert_eq!(get_responsive_theme_token(&st, "$card"), Some(vec![0, 3]));
    assert_eq!(get_responsive_theme_token(&st, "$unknown"), None);
    assert_eq!(get_responsive_theme_token(&st, "noprefix"), None);
}

#[test]
fn test_is_responsive_theme_token() {
    let mut st = CssState::new();
    let (length, shadow) = token_tables();
    set_theme_token_levels(&mut st, length, shadow);

    assert!(is_responsive_theme_token(&st, "$containerX"));
    assert!(is_responsive_theme_token(&st, "$card"));
    assert!(!is_responsive_theme_token(&st, "$single"));
    assert!(!is_responsive_theme_token(&st, "$unknown"));
    assert!(!is_responsive_theme_token(&st, "noprefix"));
}

#[test]
fn test_is_responsive_theme_token_without_prefix() {
    let st = CssState::new();
    let value = std::hint::black_box("noprefix");
    assert!(!is_responsive_theme_token(&st, value));
}

#[test]
fn single_level_length_token_hides_shadow_token() {
    let mut st = CssState::new();
    let mut length = StrMap::new();
    length.insert("x", vec![0u8]);
    let mut shadow = StrMap::new();
    shadow.insert("x", vec![0u8, 1]);
    set_theme_token_levels(&mut st, length, shadow);
    assert_eq!(get_responsive_theme_token(&st, "$x"), None);
}

#[test]
fn file_map_from_distinct_pairs() {
    let pairs = vec![("a.tsx".to_string(), 0usize), ("b.tsx".to_string(), 1usize)];
    let m = file_map_from_pairs(&pairs).expect("distinct pairs");
    assert_eq!(m.len(), 2);
    assert_eq!(m.get_by_left("b.tsx"), Some(&1));
    let mut st = CssState::new();
    set_file_map(&mut st, m);
    assert_eq!(get_filename_by_file_num(&st, 0), "a.tsx");
    assert_eq!(get_file_num_by_filename(&mut st, "c.tsx"), 2);
}

#[test]
fn file_map_from_clashing_pairs() {
    let same_name = vec![("a.tsx".to_string(), 0usize), ("a.tsx".to_string(), 1usize)];
    assert!(file_map_from_pairs(&same_name).is_none());
    let same_number = vec![("a.tsx".to_string(), 3usize), ("b.tsx".to_string(), 3usize)];
    assert!(file_map_from_pairs(&same_number).is_none());
    assert_eq!(file_map_from_pairs(&Vec::new()).map(|m| m.len()), Some(0));
}
