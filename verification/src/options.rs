//! What an extraction is configured with and what it hands back.
use vstd::prelude::*;
use crate::extract_style::ExtractStyleValue;
use crate::str_map::StrMap;

verus! {

/// How an import from another CSS-in-JS library is redirected to the
/// target package.
#[derive(Debug, Clone, PartialEq)]
pub enum ImportAlias {
    /// A default export becomes this named export (`import styled from
    /// '@emotion/styled'` becomes `import { styled } from '@devup-ui/react'`).
    DefaultToNamed(String),
    /// Named exports map one to one.
    NamedToNamed,
}

/// The result of extracting a file.
#[derive(Debug)]
pub struct ExtractOutput {
    /// The styles the file uses, none twice.
    pub styles: Vec<ExtractStyleValue>,
    /// The rewritten source.
    pub code: String,
    /// Its source map.
    pub map: Option<String>,
    /// The stylesheet the file imports.
    pub css_file: Option<String>,
}

/// The configuration of an extraction.
pub struct ExtractOption {
    pub package: String,
    pub css_dir: String,
    pub single_css: bool,
    pub import_main_css: bool,
    /// Import aliases that redirect other CSS-in-JS libraries to the package.
    pub import_aliases: StrMap<ImportAlias>,
}

impl Default for ExtractOption {
    /// `@devup-ui/react` as package and stylesheet directory, one stylesheet
    /// per file, no main stylesheet import, no aliases.
    fn default() -> (r: Self)
        ensures
            r.package@ == "@devup-ui/react"@,
            r.css_dir@ == "@devup-ui/react"@,
            !r.single_css,
            !r.import_main_css,
            r.import_aliases@.len() == 0,
            r.import_aliases.wf(),
    {
        ExtractOption {
            package: "@devup-ui/react".to_string(),
            css_dir: "@devup-ui/react".to_string(),
            single_css: false,
            import_main_css: false,
            import_aliases: StrMap::new(),
        }
    }
}

} // verus!
