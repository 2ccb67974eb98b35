//! Rewriting imports of aliased packages (`@emotion/styled`,
//! `styled-components`, `@vanilla-extract/css`, ...) into imports of the
//! target package: each imported name that has a counterpart there is
//! redirected to it (compatibility-only names to `<package>/compat`), and the
//! rest stays on its own package.
//!
//! An import declaration is described by [`ImportDeclaration`]: its source
//! and its specifiers, as the parser found them.
use vstd::prelude::*;
use crate::options::ImportAlias;
use crate::text::{push_str, str_eq};

verus! {

/// Where a redirected name lands: a real API of the target package, or one
/// that only exists in its `compat` entry.
#[derive(Debug, Clone, Copy, PartialEq, Eq)]
pub enum DevupTarget<'n> {
    Main(&'n str),
    Compat(&'n str),
}

/// The mathematical value of a [`DevupTarget`].
pub enum TargetView {
    Main(Seq<char>),
    Compat(Seq<char>),
}

impl<'n> View for DevupTarget<'n> {
    type V = TargetView;

    open spec fn view(&self) -> TargetView {
        match self {
            DevupTarget::Main(n) => TargetView::Main(n@),
            DevupTarget::Compat(n) => TargetView::Compat(n@),
        }
    }
}

/// One specifier of an import declaration.
#[derive(Debug, Clone)]
pub enum ImportSpecifier {
    /// `* as local`
    Namespace(String),
    /// `local` (the default export)
    Default(String),
    /// `imported as local` (or just `imported` when both are the same)
    Named { imported: String, local: String },
}

/// An import declaration: the package it imports from, and its specifiers
/// (`None` for a side-effect import such as `import 'pkg'`).
#[derive(Debug, Clone)]
pub struct ImportDeclaration {
    pub source: String,
    pub specifiers: Option<Vec<ImportSpecifier>>,
}

/// The mathematical value of an [`ImportSpecifier`].
pub enum SpecifierView {
    Namespace(Seq<char>),
    Default(Seq<char>),
    Named(Seq<char>, Seq<char>),
}

impl View for ImportSpecifier {
    type V = SpecifierView;

    open spec fn view(&self) -> SpecifierView {
        match self {
            ImportSpecifier::Namespace(l) => SpecifierView::Namespace(l@),
            ImportSpecifier::Default(l) => SpecifierView::Default(l@),
            ImportSpecifier::Named { imported, local } => SpecifierView::Named(imported@, local@),
        }
    }
}

/// The views of a list of specifiers.
pub open spec fn specifiers_view(s: Seq<ImportSpecifier>) -> Seq<SpecifierView> {
    s.map_values(|x: ImportSpecifier| x@)
}

/// The target-package name for `imported` from `source`, if it has one.
pub open spec fn devup_equivalent_spec(source: Seq<char>, imported: Seq<char>) -> Option<TargetView> {
    if (source == "@vanilla-extract/css"@ && imported == "style"@) || imported == "css"@ {
        Some(TargetView::Main("css"@))
    } else if source == "@vanilla-extract/css"@ && imported == "globalStyle"@ {
        Some(TargetView::Main("globalCss"@))
    } else if imported == "keyframes"@ || imported == "styled"@ {
        Some(TargetView::Main(imported))
    } else if imported == "createGlobalStyle"@ || imported == "Global"@ || imported == "ThemeProvider"@
        || imported == "ServerStyleSheet"@ || imported == "StyleSheetManager"@ || imported
        == "isStyledComponent"@ || imported == "withTheme"@ || imported == "useTheme"@ {
        Some(TargetView::Compat(imported))
    } else {
        None
    }
}

/// The target-package counterpart of `imported` from `source`, if any:
/// `css` for vanilla-extract's `style` and for every `css`, `globalCss` for
/// vanilla-extract's `globalStyle`, `keyframes` and `styled` as they are, and
/// the compatibility-only names (`createGlobalStyle`, `Global`,
/// `ThemeProvider`, `ServerStyleSheet`, `StyleSheetManager`,
/// `isStyledComponent`, `withTheme`, `useTheme`) in the `compat` entry.
pub fn devup_equivalent(source: &str, imported: &str) -> (r: Option<DevupTarget<'static>>)
    ensures
        match r {
            Some(t) => devup_equivalent_spec(source@, imported@) == Some(t@),
            None => devup_equivalent_spec(source@, imported@).is_none(),
        },
{
    let ve = str_eq(source, "@vanilla-extract/css");
    if (ve && str_eq(imported, "style")) || str_eq(imported, "css") {
        Some(DevupTarget::Main("css"))
    } else if ve && str_eq(imported, "globalStyle") {
        Some(DevupTarget::Main("globalCss"))
    } else if str_eq(imported, "keyframes") {
        Some(DevupTarget::Main("keyframes"))
    } else if str_eq(imported, "styled") {
        Some(DevupTarget::Main("styled"))
    } else if str_eq(imported, "createGlobalStyle") {
        Some(DevupTarget::Compat("createGlobalStyle"))
    } else if str_eq(imported, "Global") {
        Some(DevupTarget::Compat("Global"))
    } else if str_eq(imported, "ThemeProvider") {
        Some(DevupTarget::Compat("ThemeProvider"))
    } else if str_eq(imported, "ServerStyleSheet") {
        Some(DevupTarget::Compat("ServerStyleSheet"))
    } else if str_eq(imported, "StyleSheetManager") {
        Some(DevupTarget::Compat("StyleSheetManager"))
    } else if str_eq(imported, "isStyledComponent") {
        Some(DevupTarget::Compat("isStyledComponent"))
    } else if str_eq(imported, "withTheme") {
        Some(DevupTarget::Compat("withTheme"))
    } else if str_eq(imported, "useTheme") {
        Some(DevupTarget::Compat("useTheme"))
    } else {
        None
    }
}

/// Where `imported` goes: every name to the target package as it is when
/// `every` (a vanilla-extract stylesheet), else its counterpart.
pub open spec fn redirect_spec(source: Seq<char>, imported: Seq<char>, every: bool) -> Option<TargetView> {
    if every {
        Some(TargetView::Main(imported))
    } else {
        devup_equivalent_spec(source, imported)
    }
}

/// The name a specifier imports from the target package, or `None` to leave
/// it on its own package.
pub fn redirect_target<'n>(source: &str, imported: &'n str, redirect_every_name: bool) -> (r: Option<
    DevupTarget<'n>,
>)
    ensures
        match r {
            Some(t) => redirect_spec(source@, imported@, redirect_every_name) == Some(t@),
            None => redirect_spec(source@, imported@, redirect_every_name).is_none(),
        },
{
    if redirect_every_name {
        Some(DevupTarget::Main(imported))
    } else {
        devup_equivalent(source, imported)
    }
}

/// The entry a target lands in: the package, or its `compat` entry.
pub open spec fn entry_of(t: TargetView, package: Seq<char>) -> Seq<char> {
    match t {
        TargetView::Main(_) => package,
        TargetView::Compat(_) => package + "/compat"@,
    }
}

/// The name of a target.
pub open spec fn name_of(t: TargetView) -> Seq<char> {
    match t {
        TargetView::Main(n) => n,
        TargetView::Compat(n) => n,
    }
}

/// A target's name and the entry it is imported from.
pub fn split_target<'n>(target: DevupTarget<'n>, package: &str) -> (r: (&'n str, String))
    ensures
        r.0@ == name_of(target@),
        r.1@ == entry_of(target@, package@),
{
    match target {
        DevupTarget::Main(name) => {
            let mut entry = String::new();
            push_str(&mut entry, package);
            (name, entry)
        },
        DevupTarget::Compat(name) => {
            let mut entry = String::new();
            push_str(&mut entry, package);
            push_str(&mut entry, "/compat");
            (name, entry)
        },
    }
}

/// A specifier's text: `imported`, or `imported as local` when they differ.
pub open spec fn specifier_text(imported: Seq<char>, local: Seq<char>) -> Seq<char> {
    if imported == local {
        imported
    } else {
        imported + " as "@ + local
    }
}

/// A comma-separated list with one more item.
pub open spec fn listed(parts: Seq<char>, item: Seq<char>) -> Seq<char> {
    if parts.len() == 0 {
        item
    } else {
        parts + ", "@ + item
    }
}

/// Append the specifier `imported as local` to a comma-separated list.
pub fn push_specifier(parts: &mut String, imported: &str, local: &str)
    ensures
        final(parts)@ == listed(old(parts)@, specifier_text(imported@, local@)),
{
    let empty = str_eq(parts.as_str(), "");
    proof {
        reveal_strlit("");
    }
    let ghost start = parts@;
    proof {
        if start.len() == 0 {
            assert(start =~= ""@);
        }
    }
    if !empty {
        push_str(parts, ", ");
    }
    let ghost head = parts@;
    assert(head == (if start.len() == 0 { start } else { start + ", "@ }));
    push_str(parts, imported);
    if !str_eq(imported, local) {
        push_str(parts, " as ");
        push_str(parts, local);
        assert(parts@ =~= head + (imported@ + " as "@ + local@));
    }
    assert(parts@ =~= head + specifier_text(imported@, local@));
    proof {
        if start.len() == 0 {
            assert(head + specifier_text(imported@, local@) =~= specifier_text(imported@, local@));
        } else {
            assert(head + specifier_text(imported@, local@) =~= start + ", "@ + specifier_text(imported@, local@));
        }
    }
}

/// The two lists after sending `local` to target `t`: the package's list or
/// the `compat` list grows.
pub open spec fn redirected(lists: (Seq<char>, Seq<char>), t: TargetView, local: Seq<char>) -> (
    Seq<char>,
    Seq<char>,
) {
    match t {
        TargetView::Main(n) => (listed(lists.0, specifier_text(n, local)), lists.1),
        TargetView::Compat(n) => (lists.0, listed(lists.1, specifier_text(n, local))),
    }
}

/// Append `local`'s specifier to the list of the entry `target` lands in.
pub fn push_redirect(redirected_parts: &mut String, compat: &mut String, target: DevupTarget<'_>, local: &str)
    ensures
        (final(redirected_parts)@, final(compat)@) == redirected(
            (old(redirected_parts)@, old(compat)@),
            target@,
            local@,
        ),
{
    match target {
        DevupTarget::Main(name) => push_specifier(redirected_parts, name, local),
        DevupTarget::Compat(name) => push_specifier(compat, name, local),
    }
}

/// The text of an optional string slice.
pub open spec fn opt_text(o: Option<&str>) -> Option<Seq<char>> {
    match o {
        Some(s) => Some(s@),
        None => None,
    }
}

/// The local name of the first namespace specifier, if any.
pub open spec fn first_namespace(s: Seq<SpecifierView>) -> Option<Seq<char>>
    decreases s.len(),
{
    if s.len() == 0 {
        None
    } else {
        match first_namespace(s.drop_last()) {
            Some(l) => Some(l),
            None => match s.last() {
                SpecifierView::Namespace(l) => Some(l),
                _ => None,
            },
        }
    }
}

/// The local name of the first default specifier, if any.
pub open spec fn first_default(s: Seq<SpecifierView>) -> Option<Seq<char>>
    decreases s.len(),
{
    if s.len() == 0 {
        None
    } else {
        match first_default(s.drop_last()) {
            Some(l) => Some(l),
            None => match s.last() {
                SpecifierView::Default(l) => Some(l),
                _ => None,
            },
        }
    }
}

/// The two redirect lists and the default binding kept on its own package,
/// once the default specifier (local name `d`) is handled.
pub open spec fn default_step(alias: ImportAlias, source: Seq<char>, every: bool, d: Option<Seq<char>>) -> (
    (Seq<char>, Seq<char>),
    Option<Seq<char>>,
) {
    let none = (Seq::<char>::empty(), Seq::<char>::empty());
    match d {
        None => (none, None),
        Some(local) => match alias {
            ImportAlias::DefaultToNamed(named) => match redirect_spec(source, named@, every) {
                Some(t) => (redirected(none, t, local), None),
                None => (none, Some(local)),
            },
            ImportAlias::NamedToNamed => if every {
                (redirected(none, TargetView::Main("default"@), local), None)
            } else {
                (none, Some(local))
            },
        },
    }
}

/// The redirect lists (package, compat) and the list kept on its own
/// package, after the named specifiers of `s`, in order.
pub open spec fn named_fold(s: Seq<SpecifierView>, source: Seq<char>, every: bool, init: (
    Seq<char>,
    Seq<char>,
    Seq<char>,
)) -> (Seq<char>, Seq<char>, Seq<char>)
    decreases s.len(),
{
    if s.len() == 0 {
        init
    } else {
        let prev = named_fold(s.drop_last(), source, every, init);
        match s.last() {
            SpecifierView::Named(imported, local) => match redirect_spec(source, imported, every) {
                Some(t) => {
                    let r = redirected((prev.0, prev.1), t, local);
                    (r.0, r.1, prev.2)
                },
                None => (prev.0, prev.1, listed(prev.2, specifier_text(imported, local))),
            },
            _ => prev,
        }
    }
}

/// `import { parts } from 'entry';`
pub open spec fn import_block(parts: Seq<char>, entry: Seq<char>) -> Seq<char> {
    "import { "@ + parts + " } from '"@ + entry + "';"@
}

/// Statements joined by a space.
pub open spec fn joined(result: Seq<char>, piece: Seq<char>) -> Seq<char> {
    if result.len() == 0 {
        piece
    } else {
        result + " "@ + piece
    }
}

/// The statement importing what stays on `source`: the default binding,
/// then the braced named specifiers.
pub open spec fn retained_import(rd: Option<Seq<char>>, retained: Seq<char>, source: Seq<char>) -> Seq<char> {
    "import "@ + match rd {
        Some(l) => l + if retained.len() > 0 {
            ", "@
        } else {
            Seq::<char>::empty()
        },
        None => Seq::<char>::empty(),
    } + if retained.len() > 0 {
        "{ "@ + retained + " }"@
    } else {
        Seq::<char>::empty()
    } + " from '"@ + source + "';"@
}

/// The statements for the three lists: the package's, the compat entry's,
/// and what stays on the source package.
pub open spec fn assembled(
    lists: (Seq<char>, Seq<char>, Seq<char>),
    rd: Option<Seq<char>>,
    package: Seq<char>,
    source: Seq<char>,
) -> Seq<char> {
    let r0 = if lists.0.len() == 0 {
        Seq::<char>::empty()
    } else {
        import_block(lists.0, package)
    };
    let r1 = if lists.1.len() == 0 {
        r0
    } else {
        joined(r0, import_block(lists.1, package + "/compat"@))
    };
    if rd.is_some() || lists.2.len() > 0 {
        joined(r1, retained_import(rd, lists.2, source))
    } else {
        r1
    }
}

/// The rewritten import declaration.
pub open spec fn transformed_import(
    source: Seq<char>,
    specifiers: Option<Seq<SpecifierView>>,
    alias: ImportAlias,
    package: Seq<char>,
    every: bool,
) -> Seq<char> {
    match specifiers {
        None => "import '"@ + package + "';"@,
        Some(s) => match first_namespace(s) {
            Some(local) => {
                let t = match alias {
                    ImportAlias::DefaultToNamed(named) => redirect_spec(source, named@, every),
                    ImportAlias::NamedToNamed => None,
                };
                match t {
                    Some(t) => import_block(specifier_text(name_of(t), local), entry_of(t, package)),
                    None => "import * as "@ + local + " from '"@ + (if every {
                        package
                    } else {
                        source
                    }) + "';"@,
                }
            },
            None => {
                let d = default_step(alias, source, every, first_default(s));
                let lists = named_fold(s, source, every, (d.0.0, d.0.1, Seq::<char>::empty()));
                assembled(lists, d.1, package, source)
            },
        },
    }
}

/// Append a statement, separated by a space from what is already there.
fn push_joined(result: &mut String, piece: &str)
    ensures
        final(result)@ == joined(old(result)@, piece@),
{
    let empty = str_eq(result.as_str(), "");
    proof {
        reveal_strlit("");
        reveal_strlit(" ");
        if old(result)@.len() == 0 {
            assert(old(result)@ =~= ""@);
        }
    }
    if !empty {
        push_str(result, " ");
    }
    push_str(result, piece);
    proof {
        if old(result)@.len() == 0 {
            assert(old(result)@ + piece@ =~= piece@);
        }
    }
}

/// `import { parts } from 'entry';`
fn import_block_text(parts: &str, entry: &str) -> (r: String)
    ensures
        r@ == import_block(parts@, entry@),
{
    let mut r = String::new();
    push_str(&mut r, "import { ");
    push_str(&mut r, parts);
    push_str(&mut r, " } from '");
    push_str(&mut r, entry);
    push_str(&mut r, "';");
    r
}

/// The import statements replacing `import_decl`, whose package is aliased
/// by `alias`: redirected names come from `package` (compatibility-only
/// names from `<package>/compat`), the others stay on their own package.
/// With `redirect_every_name` (a vanilla-extract stylesheet) every name is
/// redirected as it is.
pub fn generate_transformed_import(
    import_decl: &ImportDeclaration,
    alias: &ImportAlias,
    package: &str,
    redirect_every_name: bool,
) -> (r: String)
    ensures
        r@ == transformed_import(
            import_decl.source@,
            match import_decl.specifiers {
                Some(v) => Some(specifiers_view(v@)),
                None => None,
            },
            *alias,
            package@,
            redirect_every_name,
        ),
{
    let source = import_decl.source.as_str();
    let specifiers = match &import_decl.specifiers {
        Some(specs) => specs,
        None => {
            let mut r = String::new();
            push_str(&mut r, "import '");
            push_str(&mut r, package);
            push_str(&mut r, "';");
            return r;
        },
    };
    let ghost sv = specifiers_view(specifiers@);
    let mut namespace: Option<&str> = None;
    let mut default_spec: Option<&str> = None;
    let mut i: usize = 0;
    while i < specifiers.len()
        invariant
            i <= specifiers@.len(),
            sv == specifiers_view(specifiers@),
            opt_text(namespace) == first_namespace(sv.take(i as int)),
            opt_text(default_spec) == first_default(sv.take(i as int)),
        decreases specifiers@.len() - i,
    {
        assert(sv.take(i + 1).drop_last() == sv.take(i as int));
        match &specifiers[i] {
            ImportSpecifier::Namespace(l) => {
                if namespace.is_none() {
                    namespace = Some(l.as_str());
                }
            },
            ImportSpecifier::Default(l) => {
                if default_spec.is_none() {
                    default_spec = Some(l.as_str());
                }
            },
            ImportSpecifier::Named { .. } => {},
        }
        i = i + 1;
    }
    assert(sv.take(i as int) == sv);
    if let Some(local) = namespace {
        if let ImportAlias::DefaultToNamed(named_export) = alias {
            if let Some(target) = redirect_target(source, named_export.as_str(), redirect_every_name) {
                let (devup_name, entry) = split_target(target, package);
                let mut parts = String::new();
                push_specifier(&mut parts, devup_name, local);
                proof {
                    assert(listed(Seq::<char>::empty(), specifier_text(devup_name@, local@)) == specifier_text(
                        devup_name@,
                        local@,
                    ));
                }
                return import_block_text(parts.as_str(), entry.as_str());
            }
        }
        let mut r = String::new();
        push_str(&mut r, "import * as ");
        push_str(&mut r, local);
        push_str(&mut r, " from '");
        if redirect_every_name {
            push_str(&mut r, package);
        } else {
            push_str(&mut r, source);
        }
        push_str(&mut r, "';");
        return r;
    }
    let mut redirected_parts = String::new();
    let mut compat = String::new();
    let mut retained = String::new();
    let mut retained_default: Option<&str> = None;
    if let Some(local_name) = default_spec {
        match alias {
            ImportAlias::DefaultToNamed(named_export) => {
                match redirect_target(source, named_export.as_str(), redirect_every_name) {
                    Some(target) => push_redirect(&mut redirected_parts, &mut compat, target, local_name),
                    None => retained_default = Some(local_name),
                }
            },
            ImportAlias::NamedToNamed => {
                if redirect_every_name {
                    push_redirect(&mut redirected_parts, &mut compat, DevupTarget::Main("default"), local_name);
                } else {
                    retained_default = Some(local_name);
                }
            },
        }
    }
    let ghost d = default_step(*alias, source@, redirect_every_name, first_default(sv));
    assert(redirected_parts@ == d.0.0 && compat@ == d.0.1 && opt_text(retained_default) == d.1);
    assert(retained@ == Seq::<char>::empty());
    let ghost init = (d.0.0, d.0.1, Seq::<char>::empty());
    let mut k: usize = 0;
    while k < specifiers.len()
        invariant
            k <= specifiers@.len(),
            sv == specifiers_view(specifiers@),
            (redirected_parts@, compat@, retained@) == named_fold(
                sv.take(k as int),
                source@,
                redirect_every_name,
                init,
            ),
        decreases specifiers@.len() - k,
    {
        assert(sv.take(k + 1).drop_last() == sv.take(k as int));
        match &specifiers[k] {
            ImportSpecifier::Named { imported, local } => {
                match redirect_target(source, imported.as_str(), redirect_every_name) {
                    Some(target) => push_redirect(&mut redirected_parts, &mut compat, target, local.as_str()),
                    None => push_specifier(&mut retained, imported.as_str(), local.as_str()),
                }
            },
            _ => {},
        }
        k = k + 1;
    }
    assert(sv.take(k as int) == sv);
    let mut result = String::new();
    if !str_eq(redirected_parts.as_str(), "") {
        let b = import_block_text(redirected_parts.as_str(), package);
        push_joined(&mut result, b.as_str());
    }
    if !str_eq(compat.as_str(), "") {
        let mut entry = String::new();
        push_str(&mut entry, package);
        push_str(&mut entry, "/compat");
        let b = import_block_text(compat.as_str(), entry.as_str());
        push_joined(&mut result, b.as_str());
    }
    let has_retained = !str_eq(retained.as_str(), "");
    proof {
        reveal_strlit("");
        if redirected_parts@.len() == 0 {
            assert(redirected_parts@ =~= ""@);
        }
        if compat@.len() == 0 {
            assert(compat@ =~= ""@);
        }
        if retained@.len() == 0 {
            assert(retained@ =~= ""@);
        }
    }
    if retained_default.is_some() || has_retained {
        let mut piece = String::new();
        push_str(&mut piece, "import ");
        if let Some(local) = retained_default {
            push_str(&mut piece, local);
            if has_retained {
                push_str(&mut piece, ", ");
            }
        }
        if has_retained {
            push_str(&mut piece, "{ ");
            push_str(&mut piece, retained.as_str());
            push_str(&mut piece, " }");
        }
        push_str(&mut piece, " from '");
        push_str(&mut piece, source);
        push_str(&mut piece, "';");
        proof {
            assert(piece@ =~= retained_import(opt_text(retained_default), retained@, source@));
        }
        push_joined(&mut result, piece.as_str());
    }
    proof {
        assert(joined(Seq::<char>::empty(), import_block(redirected_parts@, package@)) == import_block(
            redirected_parts@,
            package@,
        ));
    }
    result
}

} // verus!
