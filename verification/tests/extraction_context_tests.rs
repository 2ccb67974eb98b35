use bimap::BiHashMap;
use devup_css::class_map::{ClassMap, FileClasses};
use devup_css::extraction_context::ExtractionContext;

#[test]
fn test_new_context() {
    let ctx = ExtractionContext::new();
    assert!(ctx.class_map.is_empty());
    assert!(ctx.file_map.is_empty());
    assert!(ctx.prefix.is_none());
    assert!(!ctx.debug);
}

#[test]
fn test_with_prefix() {
    let ctx = ExtractionContext::with_prefix(Some("app-".to_string()));
    assert_eq!(ctx.get_prefix(), Some("app-"));
}

#[test]
fn test_set_prefix() {
    let mut ctx = ExtractionContext::new();
    ctx.set_prefix(Some("test-".to_string()));
    assert_eq!(ctx.get_prefix(), Some("test-"));
    ctx.set_prefix(None);
    assert_eq!(ctx.get_prefix(), None);
}

#[test]
fn test_debug_mode() {
    let mut ctx = ExtractionContext::new();
    assert!(!ctx.is_debug());
    ctx.set_debug(true);
    assert!(ctx.is_debug());
}

#[test]
fn test_file_num_mapping() {
    let mut ctx = ExtractionContext::new();

    // First file gets 0
    assert_eq!(ctx.get_file_num("file1.tsx"), 0);
    // Same file returns same number
    assert_eq!(ctx.get_file_num("file1.tsx"), 0);
    // Second file gets 1
    assert_eq!(ctx.get_file_num("file2.tsx"), 1);
    // Lookup by number
    assert_eq!(ctx.get_filename(0), Some("file1.tsx"));
    assert_eq!(ctx.get_filename(1), Some("file2.tsx"));
    assert_eq!(ctx.get_filename(99), None);
}

#[test]
fn test_class_num_generation() {
    let mut ctx = ExtractionContext::new();

    // First style in file gets 0
    assert_eq!(ctx.get_or_create_class_num("", "bg-red"), 0);
    // Same style returns same number
    assert_eq!(ctx.get_or_create_class_num("", "bg-red"), 0);
    // Different style gets next number
    assert_eq!(ctx.get_or_create_class_num("", "color-blue"), 1);
    // Different file has its own numbering
    assert_eq!(ctx.get_or_create_class_num("file.tsx", "bg-red"), 0);

    // Lookup without creation
    assert_eq!(ctx.get_class_num("", "bg-red"), Some(0));
    assert_eq!(ctx.get_class_num("", "unknown"), None);
}

#[test]
fn test_reset() {
    let mut ctx = ExtractionContext::new();
    ctx.get_file_num("file.tsx");
    ctx.get_or_create_class_num("", "style");

    ctx.reset();

    assert!(ctx.class_map.is_empty());
    assert!(ctx.file_map.is_empty());
}

#[test]
fn test_set_and_get_maps() {
    let mut ctx = ExtractionContext::new();

    // Set class map
    let mut class_map = ClassMap::new();
    let mut inner = FileClasses::new();
    inner.insert("key", 42);
    class_map.insert("file", inner);
    ctx.set_class_map(class_map.clone());
    assert_eq!(ctx.get_class_map(), class_map);

    // Set file map
    let mut file_map = BiHashMap::new();
    file_map.insert("test.tsx".to_string(), 5);
    ctx.set_file_map(file_map.clone());
    assert_eq!(ctx.get_file_map(), file_map);
}

#[test]
fn resets_keep_the_other_map() {
    let mut ctx = ExtractionContext::new();
    ctx.get_file_num("a.tsx");
    ctx.get_or_create_class_num("a.tsx", "k");
    ctx.reset_class_map();
    assert!(ctx.class_map.is_empty());
    assert_eq!(ctx.get_filename(0), Some("a.tsx"));
    ctx.get_or_create_class_num("a.tsx", "k");
    ctx.reset_file_map();
    assert!(ctx.file_map.is_empty());
    assert_eq!(ctx.get_class_num("a.tsx", "k"), Some(0));
}

#[test]
fn class_number_is_stable_once_given() {
    let mut ctx = ExtractionContext::new();
    let n = ctx.get_or_create_class_num("f", "x");
    assert_eq!(ctx.get_class_num("f", "x"), Some(n));
    assert_eq!(ctx.get_or_create_class_num("f", "x"), n);
}
