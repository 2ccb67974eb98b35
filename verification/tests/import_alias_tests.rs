use devup_css::import_alias::{
    devup_equivalent, generate_transformed_import, push_redirect, push_specifier, redirect_target, split_target,
    DevupTarget, ImportDeclaration, ImportSpecifier,
};
use devup_css::options::ImportAlias;

const PKG: &str = "@devup-ui/react";

fn decl(source: &str, specifiers: Vec<ImportSpecifier>) -> ImportDeclaration {
    ImportDeclaration { source: source.to_string(), specifiers: Some(specifiers) }
}

fn default(local: &str) -> ImportSpecifier {
    ImportSpecifier::Default(local.to_string())
}

fn named(imported: &str, local: &str) -> ImportSpecifier {
    ImportSpecifier::Named { imported: imported.to_string(), local: local.to_string() }
}

fn styled() -> ImportAlias {
    ImportAlias::DefaultToNamed("styled".to_string())
}

#[test]
fn default_to_named_same_name() {
    let d = decl("@emotion/styled", vec![default("styled")]);
    assert_eq!(generate_transformed_import(&d, &styled(), PKG, false), "import { styled } from '@devup-ui/react';");
}

#[test]
fn default_to_named_different_name() {
    let d = decl("@emotion/styled", vec![default("styledA")]);
    assert_eq!(
        generate_transformed_import(&d, &styled(), PKG, false),
        "import { styled as styledA } from '@devup-ui/react';"
    );
}

#[test]
fn named_to_named_maps_vanilla_extract_names() {
    let d = decl("@vanilla-extract/css", vec![named("style", "style"), named("globalStyle", "globalStyle")]);
    assert_eq!(
        generate_transformed_import(&d, &ImportAlias::NamedToNamed, PKG, false),
        "import { css as style, globalCss as globalStyle } from '@devup-ui/react';"
    );
}

#[test]
fn default_specifier_in_a_vanilla_extract_stylesheet() {
    let d = decl("@vanilla-extract/css", vec![default("veDefault")]);
    assert_eq!(
        generate_transformed_import(&d, &ImportAlias::NamedToNamed, PKG, true),
        "import { default as veDefault } from '@devup-ui/react';"
    );
}

#[test]
fn default_and_named_both_retained_on_source() {
    let d = decl("@vanilla-extract/css", vec![default("veDefault"), named("styleVariants", "styleVariants")]);
    assert_eq!(
        generate_transformed_import(&d, &ImportAlias::NamedToNamed, PKG, false),
        "import veDefault, { styleVariants } from '@vanilla-extract/css';"
    );
}

#[test]
fn default_export_without_equivalent_stays_on_source() {
    let d = decl("some-lib", vec![default("sheet")]);
    let alias = ImportAlias::DefaultToNamed("someUnmappedExport".to_string());
    assert_eq!(generate_transformed_import(&d, &alias, PKG, false), "import sheet from 'some-lib';");
}

#[test]
fn namespace_import_of_a_compat_only_default() {
    let d = decl("some-lib", vec![ImportSpecifier::Namespace("Sheet".to_string())]);
    let alias = ImportAlias::DefaultToNamed("ThemeProvider".to_string());
    assert_eq!(
        generate_transformed_import(&d, &alias, PKG, false),
        "import { ThemeProvider as Sheet } from '@devup-ui/react/compat';"
    );
}

#[test]
fn namespace_of_named_exports_stays_where_names_cannot_be_renamed() {
    let d = decl("@vanilla-extract/css", vec![ImportSpecifier::Namespace("ve".to_string())]);
    assert_eq!(
        generate_transformed_import(&d, &ImportAlias::NamedToNamed, PKG, false),
        "import * as ve from '@vanilla-extract/css';"
    );
    assert_eq!(
        generate_transformed_import(&d, &ImportAlias::NamedToNamed, PKG, true),
        "import * as ve from '@devup-ui/react';"
    );
}

#[test]
fn names_without_devup_export_stay_on_source() {
    let d = decl(
        "@vanilla-extract/css",
        vec![named("style", "style"), named("globalStyle", "globalStyle"), named("styleVariants", "styleVariants")],
    );
    assert_eq!(
        generate_transformed_import(&d, &ImportAlias::NamedToNamed, PKG, false),
        "import { css as style, globalCss as globalStyle } from '@devup-ui/react'; import { styleVariants } from '@vanilla-extract/css';"
    );
}

#[test]
fn compat_names_go_to_the_compat_entry() {
    let d = decl(
        "styled-components",
        vec![
            default("styled"),
            named("css", "css"),
            named("keyframes", "keyframes"),
            named("createGlobalStyle", "createGlobalStyle"),
            named("ThemeProvider", "ThemeProvider"),
        ],
    );
    assert_eq!(
        generate_transformed_import(&d, &styled(), PKG, false),
        "import { styled, css, keyframes } from '@devup-ui/react'; import { createGlobalStyle, ThemeProvider } from '@devup-ui/react/compat';"
    );
}

#[test]
fn side_effect_import() {
    let d = ImportDeclaration { source: "@emotion/styled".to_string(), specifiers: None };
    assert_eq!(generate_transformed_import(&d, &styled(), PKG, false), "import '@devup-ui/react';");
}

#[test]
fn equivalents() {
    assert_eq!(devup_equivalent("@vanilla-extract/css", "style"), Some(DevupTarget::Main("css")));
    assert_eq!(devup_equivalent("x", "style"), None);
    assert_eq!(devup_equivalent("x", "css"), Some(DevupTarget::Main("css")));
    assert_eq!(devup_equivalent("@vanilla-extract/css", "globalStyle"), Some(DevupTarget::Main("globalCss")));
    assert_eq!(devup_equivalent("x", "keyframes"), Some(DevupTarget::Main("keyframes")));
    assert_eq!(devup_equivalent("x", "useTheme"), Some(DevupTarget::Compat("useTheme")));
    assert_eq!(devup_equivalent("x", "useState"), None);
    assert_eq!(redirect_target("x", "anything", true), Some(DevupTarget::Main("anything")));
    assert_eq!(redirect_target("x", "anything", false), None);
}

#[test]
fn specifiers_and_targets() {
    let mut parts = String::new();
    push_specifier(&mut parts, "a", "a");
    push_specifier(&mut parts, "b", "c");
    assert_eq!(parts, "a, b as c");
    assert_eq!(split_target(DevupTarget::Main("css"), PKG), ("css", PKG.to_string()));
    assert_eq!(split_target(DevupTarget::Compat("Global"), PKG), ("Global", "@devup-ui/react/compat".to_string()));
    let mut main = String::new();
    let mut compat = String::new();
    push_redirect(&mut main, &mut compat, DevupTarget::Compat("Global"), "G");
    push_redirect(&mut main, &mut compat, DevupTarget::Main("css"), "css");
    assert_eq!((main.as_str(), compat.as_str()), ("css", "Global as G"));
}
