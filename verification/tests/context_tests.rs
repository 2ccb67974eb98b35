use devup_css::context_ops::{
    encode_selector, keyframes_to_keyframes_name_with_context, sheet_to_classname_with_context,
    sheet_to_variable_name_with_context, CssContext,
};

#[test]
fn test_sheet_to_classname_basic() {
    let mut ctx = CssContext::new();
    ctx.debug = false;
    assert_eq!(
        sheet_to_classname_with_context(&mut ctx, "background", 0, Some("red"), None, None, None),
        "a"
    );
    assert_eq!(
        sheet_to_classname_with_context(&mut ctx, "color", 0, Some("blue"), None, None, None),
        "b"
    );
    assert_eq!(
        sheet_to_classname_with_context(&mut ctx, "background", 0, Some("red"), None, None, None),
        "a"
    );
}

#[test]
fn test_sheet_to_classname_debug() {
    let mut ctx = CssContext::new();
    ctx.debug = true;
    assert_eq!(
        sheet_to_classname_with_context(&mut ctx, "background", 0, Some("red"), None, None, None),
        "background-0-red--255"
    );
}

#[test]
fn debug_class_name_encodes_the_selector() {
    let mut ctx = CssContext::new();
    ctx.debug = true;
    assert_eq!(
        sheet_to_classname_with_context(&mut ctx, "color", 0, Some("red"), Some("&:hover"), None, None),
        "color-0-red-_a__c_hover-255"
    );
}

#[test]
fn test_sheet_to_classname_with_prefix() {
    let mut ctx = CssContext::new();
    ctx.debug = false;
    ctx.prefix = Some("app-".to_string());
    assert_eq!(
        sheet_to_classname_with_context(&mut ctx, "background", 0, Some("red"), None, None, None),
        "app-a"
    );
}

#[test]
fn test_sheet_to_classname_with_filename() {
    let mut ctx = CssContext::new();
    ctx.debug = false;
    let class1 =
        sheet_to_classname_with_context(&mut ctx, "background", 0, Some("red"), None, None, Some("file1.tsx"));
    let class2 =
        sheet_to_classname_with_context(&mut ctx, "background", 0, Some("red"), None, None, Some("file2.tsx"));
    assert_ne!(class1, class2);
    assert_eq!(class1, "a-a");
    assert_eq!(class2, "b-a");
}

#[test]
fn test_sheet_to_variable_name_basic() {
    let mut ctx = CssContext::new();
    ctx.debug = false;
    assert_eq!(sheet_to_variable_name_with_context(&mut ctx, "background", 0, None), "--a");
    assert_eq!(sheet_to_variable_name_with_context(&mut ctx, "color", 0, None), "--b");
}

#[test]
fn test_sheet_to_variable_name_debug() {
    let mut ctx = CssContext::new();
    ctx.debug = true;
    assert_eq!(sheet_to_variable_name_with_context(&mut ctx, "background", 0, None), "--background-0-");
}

#[test]
fn test_keyframes_basic() {
    let mut ctx = CssContext::new();
    ctx.debug = false;
    assert_eq!(keyframes_to_keyframes_name_with_context(&mut ctx, "spin", None), "a");
    assert_eq!(keyframes_to_keyframes_name_with_context(&mut ctx, "spin", None), "a");
    assert_eq!(keyframes_to_keyframes_name_with_context(&mut ctx, "fade", None), "b");
}

#[test]
fn test_keyframes_debug() {
    let mut ctx = CssContext::new();
    ctx.debug = true;
    assert_eq!(keyframes_to_keyframes_name_with_context(&mut ctx, "spin", None), "k-spin");
}

#[test]
fn test_keyframes_with_filename() {
    let mut ctx = CssContext::new();
    ctx.debug = false;
    let name1 = keyframes_to_keyframes_name_with_context(&mut ctx, "spin", Some("file1.tsx"));
    let name2 = keyframes_to_keyframes_name_with_context(&mut ctx, "spin", Some("file2.tsx"));
    assert_ne!(name1, name2);
}

#[test]
fn context_file_numbers_and_reset() {
    let mut ctx = CssContext::new();
    assert_eq!(ctx.get_file_num("a.tsx"), 0);
    assert_eq!(ctx.get_file_num("b.tsx"), 1);
    assert_eq!(ctx.get_file_num("a.tsx"), 0);
    assert_eq!(ctx.get_filename(1), Some("b.tsx"));
    ctx.reset();
    assert_eq!(ctx.get_filename(1), None);
}

#[test]
fn encodes_selectors() {
    assert_eq!(encode_selector("&:hover"), "_a__c_hover");
    assert_eq!(encode_selector("a-b_c"), "a-b_c");
    assert_eq!(encode_selector("é"), "_u00e9_");
    assert_eq!(encode_selector("😀"), "_u1f600_");
}
