//! What a configuration may hold: the checks run before it is saved or used.
use vstd::prelude::*;
use crate::model::{Config, Layout, Override, Project, Template, leaves, node_id, RATIO_MAX, RATIO_MIN};
use crate::text::{
    all_whitespace, chars_of, contains_any, contains_char, contains_text, has_any,
    is_alphanumeric_byte, is_ascii_alphanumeric_byte, is_control, is_control_char, is_whitespace,
    is_whitespace_char, lemma_trim_empty, push_str, starts_with, starts_with_at, string_from,
    texts_of, trim_start, trim_start_index, trim_str,
};

verus! {

pub const TEXT_SUFFIX: &'static str = " vide ou contenant un caractère interdit (retour à la ligne, point-virgule).";
pub const FIELD_ID: &'static str = "Identifiant";
pub const FIELD_PANE_NAME: &'static str = "Nom du panneau";
pub const FIELD_TEMPLATE_ID: &'static str = "Identifiant du modèle";
pub const FIELD_TEMPLATE_NAME: &'static str = "Nom du modèle";
pub const FIELD_PROJECT_ID: &'static str = "Identifiant du projet";
pub const FIELD_PROJECT_NAME: &'static str = "Nom du projet";
pub const ERR_DEPTH: &'static str = "Layout trop profondément imbriqué.";
pub const ERR_DUPLICATE_PANE: &'static str = "Identifiant de panneau dupliqué.";
pub const ERR_NUL_COMMAND: &'static str = "Commande contenant un caractère nul.";
pub const ERR_RATIO: &'static str = "La proportion doit être comprise entre 10 et 90 %.";
pub const ERR_HOST: &'static str = "Hôte SSH invalide (lettres, chiffres et « . _ - @ : » uniquement).";
pub const ERR_URL_SCHEME: &'static str = "L’URL du projet doit commencer par http:// ou https://.";
pub const ERR_URL: &'static str = "URL du projet invalide (espace, guillemet ou caractère de contrôle).";
pub const ERR_DIRECTORY: &'static str = "Le dossier du panneau doit être relatif à la racine, sans « .. ».";
pub const ERR_VERSION: &'static str = "Version du fichier de configuration non prise en charge.";
pub const ERR_WORKSPACE_ROOT: &'static str = "La racine des workspaces doit être un chemin Linux absolu.";
pub const ERR_DUPLICATE_TEMPLATE: &'static str = "Identifiant de modèle dupliqué.";
pub const ERR_TOO_MANY_PANES: &'static str = "Un layout peut contenir au maximum 16 panneaux.";
pub const ERR_DUPLICATE_PROJECT: &'static str = "Identifiant de projet dupliqué.";
pub const ERR_MISSING_TEMPLATE: &'static str = "Un projet référence un modèle absent.";
pub const ERR_ROOT: &'static str = "La racine doit être un chemin Linux absolu.";
pub const ERR_VSCODE_FOLDER: &'static str = "Dossier VS Code invalide (caractère de contrôle).";
pub const ERR_DISTRIBUTION: &'static str = "Distribution invalide.";
pub const ERR_PROFILE: &'static str = "Profil Windows Terminal invalide.";

/// Deepest nesting a layout may have.
pub const MAX_DEPTH: usize = 20;

/// Most panes a layout may have.
pub const MAX_PANES: usize = 16;

/// The error of a check, `None` when it passed.
pub open spec fn outcome(r: Result<(), String>) -> Option<Seq<char>> {
    match r {
        Ok(_) => None,
        Err(e) => Some(e@),
    }
}

/// The first error of two checks run in turn.
pub open spec fn first_error(a: Option<Seq<char>>, b: Option<Seq<char>>) -> Option<Seq<char>> {
    if a is Some {
        a
    } else {
        b
    }
}

/// Characters a name or an identifier may not hold.
pub open spec fn forbidden_chars() -> Seq<char> {
    seq!['\0', '\r', '\n', ';']
}

/// Not blank, and no line break, semicolon or NUL.
pub open spec fn text_ok(v: Seq<char>) -> bool {
    !all_whitespace(v) && !has_any(v, forbidden_chars())
}

pub open spec fn text_error(v: Seq<char>, field: Seq<char>) -> Option<Seq<char>> {
    if text_ok(v) {
        None
    } else {
        Some(field + TEXT_SUFFIX@)
    }
}

/// `s.starts_with(c)`.
pub open spec fn starts_with_char(s: Seq<char>, c: char) -> bool {
    s.len() > 0 && s[0] == c
}

/// Bytes `ssh` reads as a destination: ASCII letters, digits and `._-@:`.
pub open spec fn host_byte_ok(b: u8) -> bool {
    is_ascii_alphanumeric_byte(b) || b == 0x2e || b == 0x5f || b == 0x2d || b == 0x40 || b == 0x3a
}

pub open spec fn host_ok(v: Seq<char>) -> bool {
    &&& !starts_with_char(v, '-')
    &&& forall|i: int|
        0 <= i < vstd::utf8::encode_utf8(v).len() ==> host_byte_ok(
            #[trigger] vstd::utf8::encode_utf8(v)[i],
        )
}

pub open spec fn https_prefix() -> Seq<char> {
    seq!['h', 't', 't', 'p', 's', ':', '/', '/']
}

pub open spec fn http_prefix() -> Seq<char> {
    seq!['h', 't', 't', 'p', ':', '/', '/']
}

/// Characters a URL may not hold: one could end the argument or be read as
/// a control sequence.
pub open spec fn url_bad_char(c: char) -> bool {
    is_control(c) || is_whitespace(c) || c == '"' || c == '\'' || c == '<' || c == '>' || c == '|'
}

/// Longest URL, in bytes.
pub const MAX_URL: usize = 2000;

pub open spec fn url_error(v: Seq<char>) -> Option<Seq<char>> {
    if v.len() == 0 {
        None
    } else if !starts_with(v, https_prefix()) && !starts_with(v, http_prefix()) {
        Some(ERR_URL_SCHEME@)
    } else {
        let rest = if starts_with(v, https_prefix()) {
            v.skip(8)
        } else {
            v.skip(7)
        };
        if rest.len() == 0 || vstd::utf8::encode_utf8(v).len() > MAX_URL || exists|i: int|
            0 <= i < v.len() && url_bad_char(#[trigger] v[i]) {
            Some(ERR_URL@)
        } else {
            None
        }
    }
}

/// A `..` component of a slash-separated path starts at `i`.
pub open spec fn dotdot_at(v: Seq<char>, i: int) -> bool {
    &&& 0 <= i
    &&& i + 2 <= v.len()
    &&& v[i] == '.'
    &&& v[i + 1] == '.'
    &&& (i == 0 || v[i - 1] == '/')
    &&& (i + 2 == v.len() || v[i + 2] == '/')
}

/// Relative, no NUL, and no `..` component.
pub open spec fn directory_ok(v: Seq<char>) -> bool {
    &&& !starts_with_char(v, '/')
    &&& !v.contains('\0')
    &&& !exists|i: int| #[trigger] dotdot_at(v, i)
}

pub open spec fn directory_error(v: Seq<char>) -> Option<Seq<char>> {
    if directory_ok(v) {
        None
    } else {
        Some(ERR_DIRECTORY@)
    }
}

/// One of the commands holds a NUL.
pub open spec fn has_nul_command(commands: Seq<String>) -> bool {
    exists|i: int| 0 <= i < commands.len() && (#[trigger] commands[i])@.contains('\0')
}

/// Check of a layout node, with the ids already seen and its depth: the ids
/// seen afterwards, or the first error.
pub open spec fn check_layout(l: Layout, ids: Seq<Seq<char>>, depth: nat) -> Result<
    Seq<Seq<char>>,
    Seq<char>,
>
    decreases l,
{
    if depth > MAX_DEPTH {
        Err(ERR_DEPTH@)
    } else if text_error(node_id(l), FIELD_ID@) is Some {
        Err(text_error(node_id(l), FIELD_ID@).unwrap())
    } else if ids.contains(node_id(l)) {
        Err(ERR_DUPLICATE_PANE@)
    } else {
        let seen = ids.push(node_id(l));
        match l {
            Layout::Pane { name, directory, commands, .. } => {
                if text_error(name@, FIELD_PANE_NAME@) is Some {
                    Err(text_error(name@, FIELD_PANE_NAME@).unwrap())
                } else if !directory_ok(directory@) {
                    Err(ERR_DIRECTORY@)
                } else if has_nul_command(commands@) {
                    Err(ERR_NUL_COMMAND@)
                } else {
                    Ok(seen)
                }
            },
            Layout::Split { ratio, first, second, .. } => {
                if !(RATIO_MIN <= ratio <= RATIO_MAX) {
                    Err(ERR_RATIO@)
                } else {
                    match check_layout(*first, seen, depth + 1) {
                        Err(e) => Err(e),
                        Ok(after) => check_layout(*second, after, depth + 1),
                    }
                }
            },
        }
    }
}

/// Error of a whole layout, checked from its root.
pub open spec fn layout_error(l: Layout) -> Option<Seq<char>> {
    match check_layout(l, Seq::empty(), 0) {
        Ok(_) => None,
        Err(e) => Some(e),
    }
}

pub open spec fn template_error(t: Template, prior: Seq<Seq<char>>) -> Option<Seq<char>> {
    first_error(
        text_error(t.id@, FIELD_TEMPLATE_ID@),
        first_error(
            text_error(t.name@, FIELD_TEMPLATE_NAME@),
            if prior.contains(t.id@) {
                Some(ERR_DUPLICATE_TEMPLATE@)
            } else {
                first_error(
                    layout_error(t.layout),
                    if leaves(t.layout).len() > MAX_PANES {
                        Some(ERR_TOO_MANY_PANES@)
                    } else {
                        None
                    },
                )
            },
        ),
    )
}

pub open spec fn template_ids(ts: Seq<Template>) -> Seq<Seq<char>> {
    ts.map_values(|t: Template| t.id@)
}

/// First error of the templates, in order.
pub open spec fn templates_error(ts: Seq<Template>) -> Option<Seq<char>>
    decreases ts.len(),
{
    if ts.len() == 0 {
        None
    } else {
        first_error(
            templates_error(ts.drop_last()),
            template_error(ts.last(), template_ids(ts.drop_last())),
        )
    }
}

pub open spec fn override_error(o: Override) -> Option<Seq<char>> {
    first_error(
        match o.directory {
            Some(d) => directory_error(d@),
            None => None,
        },
        match o.commands {
            Some(c) => if has_nul_command(c@) {
                Some(ERR_NUL_COMMAND@)
            } else {
                None
            },
            None => None,
        },
    )
}

/// First error of the customizations, in key order.
pub open spec fn overrides_error(es: Seq<(Seq<char>, Override)>) -> Option<Seq<char>>
    decreases es.len(),
{
    if es.len() == 0 {
        None
    } else {
        first_error(overrides_error(es.drop_last()), override_error(es.last().1))
    }
}

pub open spec fn root_ok(v: Seq<char>) -> bool {
    starts_with_char(v, '/') && !v.contains('\0')
}

pub open spec fn profile_ok(v: Seq<char>) -> bool {
    !has_any(v, forbidden_chars()) && !starts_with_char(trim_start(v), '-')
}

pub open spec fn project_error(
    p: Project,
    prior: Seq<Seq<char>>,
    templates: Seq<Seq<char>>,
) -> Option<Seq<char>> {
    first_error(
        text_error(p.id@, FIELD_PROJECT_ID@),
        first_error(
            text_error(p.name@, FIELD_PROJECT_NAME@),
            if prior.contains(p.id@) {
                Some(ERR_DUPLICATE_PROJECT@)
            } else if !templates.contains(p.template_id@) {
                Some(ERR_MISSING_TEMPLATE@)
            } else if !root_ok(p.root@) {
                Some(ERR_ROOT@)
            } else if !host_ok(p.host@) {
                Some(ERR_HOST@)
            } else if url_error(p.url@) is Some {
                url_error(p.url@)
            } else if exists|i: int|
                0 <= i < p.vscode_folder@.len() && is_control(#[trigger] p.vscode_folder@[i]) {
                Some(ERR_VSCODE_FOLDER@)
            } else if has_any(p.distribution@, forbidden_chars()) {
                Some(ERR_DISTRIBUTION@)
            } else if !profile_ok(p.terminal_profile@) {
                Some(ERR_PROFILE@)
            } else {
                overrides_error(p.overrides@)
            },
        ),
    )
}

pub open spec fn project_ids(ps: Seq<Project>) -> Seq<Seq<char>> {
    ps.map_values(|p: Project| p.id@)
}

/// First error of the projects, in order.
pub open spec fn projects_error(ps: Seq<Project>, templates: Seq<Seq<char>>) -> Option<Seq<char>>
    decreases ps.len(),
{
    if ps.len() == 0 {
        None
    } else {
        first_error(
            projects_error(ps.drop_last(), templates),
            project_error(ps.last(), project_ids(ps.drop_last()), templates),
        )
    }
}

pub open spec fn workspace_root_ok(v: Seq<char>) -> bool {
    v.len() == 0 || root_ok(v)
}

/// The first error `Config::validate` reports, `None` for a valid configuration.
pub open spec fn config_error(c: Config) -> Option<Seq<char>> {
    if c.schema_version != 1 {
        Some(ERR_VERSION@)
    } else if !workspace_root_ok(c.workspace_root@) {
        Some(ERR_WORKSPACE_ROOT@)
    } else {
        first_error(
            templates_error(c.templates@),
            projects_error(c.projects@, template_ids(c.templates@)),
        )
    }
}

pub fn valid_text(value: &str, field: &str) -> (r: Result<(), String>)
    ensures
        outcome(r) == text_error(value@, field@),
{
    let t = trim_str(value);
    let forbidden = ['\0', '\r', '\n', ';'];
    let bad = contains_any(value, forbidden.as_slice());
    proof {
        lemma_trim_empty(value@);
        assert(forbidden@ =~= forbidden_chars());
    }
    if t.as_str().is_empty() || bad {
        let mut e = string_from(field);
        push_str(&mut e, TEXT_SUFFIX);
        return Err(e);
    }
    Ok(())
}

/// Kept to characters `ssh` reads as a destination and that no shell or
/// Windows Terminal interprets; a leading `-` would be an option.
pub fn valid_host(value: &str) -> (r: Result<(), String>)
    ensures
        outcome(r) == if host_ok(value@) {
            None
        } else {
            Some(ERR_HOST@)
        },
{
    let v = chars_of(value);
    let bytes = value.as_bytes();
    let mut ok = !(v.len() > 0 && v[0] == '-');
    let mut i: usize = 0;
    while i < bytes.len()
        invariant
            i <= bytes.len(),
            bytes@ == vstd::utf8::encode_utf8(value@),
            ok == (!starts_with_char(value@, '-') && forall|j: int|
                0 <= j < i ==> host_byte_ok(#[trigger] bytes@[j])),
        decreases bytes.len() - i,
    {
        let b = bytes[i];
        if !(is_alphanumeric_byte(b) || b == 0x2e || b == 0x5f || b == 0x2d || b == 0x40 || b
            == 0x3a) {
            ok = false;
        }
        i += 1;
    }
    if !ok {
        return Err(string_from(ERR_HOST));
    }
    Ok(())
}

/// Kept to an absolute `http(s)` address, with no character a browser could
/// read as an option and no space, so the URL stays one argument.
pub fn valid_url(value: &str) -> (r: Result<(), String>)
    ensures
        outcome(r) == url_error(value@),
{
    let v = chars_of(value);
    if v.len() == 0 {
        return Ok(());
    }
    let https = vec!['h', 't', 't', 'p', 's', ':', '/', '/'];
    let http = vec!['h', 't', 't', 'p', ':', '/', '/'];
    proof {
        assert(https@ =~= https_prefix());
        assert(http@ =~= http_prefix());
        assert(v@.skip(0) =~= v@);
    }
    let rest_start: usize = if starts_with_at(&v, 0, &https) {
        8
    } else if starts_with_at(&v, 0, &http) {
        7
    } else {
        return Err(string_from(ERR_URL_SCHEME));
    };
    let mut bad = rest_start == v.len() || value.as_bytes().len() > MAX_URL;
    let mut i: usize = 0;
    while i < v.len()
        invariant
            i <= v.len(),
            v@ == value@,
            bad == (rest_start == v.len() || vstd::utf8::encode_utf8(value@).len() > MAX_URL
                || exists|j: int| 0 <= j < i && url_bad_char(#[trigger] v@[j])),
        decreases v.len() - i,
    {
        let c = v[i];
        if is_control_char(c) || is_whitespace_char(c) || c == '"' || c == '\'' || c == '<' || c
            == '>' || c == '|' {
            bad = true;
        }
        i += 1;
    }
    if bad {
        return Err(string_from(ERR_URL));
    }
    Ok(())
}

pub fn valid_directory(value: &str) -> (r: Result<(), String>)
    ensures
        outcome(r) == directory_error(value@),
{
    let v = chars_of(value);
    let mut ok = !(v.len() > 0 && v[0] == '/');
    let mut i: usize = 0;
    while i < v.len()
        invariant
            i <= v.len(),
            v@ == value@,
            ok == (!starts_with_char(value@, '/') && forall|j: int|
                0 <= j < i ==> v@[j] != '\0' && !dotdot_at(v@, j)),
        decreases v.len() - i,
    {
        if v[i] == '\0' {
            ok = false;
        }
        if v.len() - i >= 2 && v[i] == '.' && v[i + 1] == '.' && (i == 0 || v[i - 1] == '/') && (
        i + 2 == v.len() || v[i + 2] == '/') {
            ok = false;
        }
        i += 1;
    }
    proof {
        if ok {
            assert(!value@.contains('\0'));
            assert(!exists|j: int| #[trigger] dotdot_at(value@, j));
        } else {
            if !starts_with_char(value@, '/') {
                let j = choose|j: int| 0 <= j < v.len() && !(v@[j] != '\0' && !dotdot_at(v@, j));
                if v@[j] == '\0' {
                    assert(value@.contains('\0'));
                }
            }
        }
    }
    if !ok {
        return Err(string_from(ERR_DIRECTORY));
    }
    Ok(())
}

/// Whether one of the commands holds a NUL.
fn has_nul(commands: &Vec<String>) -> (b: bool)
    ensures
        b == has_nul_command(commands@),
{
    let mut i: usize = 0;
    while i < commands.len()
        invariant
            i <= commands.len(),
            forall|j: int| 0 <= j < i ==> !(#[trigger] commands@[j])@.contains('\0'),
        decreases commands.len() - i,
    {
        if contains_char(commands[i].as_str(), '\0') {
            return true;
        }
        i += 1;
    }
    false
}

impl Layout {
    /// Checks the node and its children; `ids` collects the ids seen.
    pub fn validate(&self, ids: &mut Vec<String>, depth: usize) -> (r: Result<(), String>)
        ensures
            outcome(r) == match check_layout(*self, texts_of(old(ids)@), depth as nat) {
                Ok(_) => None::<Seq<char>>,
                Err(e) => Some(e),
            },
            r is Ok ==> check_layout(*self, texts_of(old(ids)@), depth as nat) == Ok::<
                Seq<Seq<char>>,
                Seq<char>,
            >(texts_of(final(ids)@)),
        decreases self,
    {
        if depth > MAX_DEPTH {
            return Err(string_from(ERR_DEPTH));
        }
        let id = self.id();
        if let Err(e) = valid_text(id, FIELD_ID) {
            return Err(e);
        }
        if contains_text(ids, id) {
            return Err(string_from(ERR_DUPLICATE_PANE));
        }
        let ghost before = ids@;
        ids.push(string_from(id));
        assert(texts_of(ids@) =~= texts_of(before).push(node_id(*self)));
        match self {
            Layout::Pane { name, directory, commands, .. } => {
                if let Err(e) = valid_text(name.as_str(), FIELD_PANE_NAME) {
                    return Err(e);
                }
                if let Err(e) = valid_directory(directory.as_str()) {
                    return Err(e);
                }
                if has_nul(commands) {
                    return Err(string_from(ERR_NUL_COMMAND));
                }
            },
            Layout::Split { ratio, first, second, .. } => {
                if !(*ratio >= RATIO_MIN && *ratio <= RATIO_MAX) {
                    return Err(string_from(ERR_RATIO));
                }
                let f: &Layout = first;
                let s: &Layout = second;
                if let Err(e) = f.validate(ids, depth + 1) {
                    return Err(e);
                }
                if let Err(e) = s.validate(ids, depth + 1) {
                    return Err(e);
                }
            },
        }
        Ok(())
    }
}


proof fn lemma_templates_error_prefix(s: Seq<Template>, k: int)
    requires
        0 <= k <= s.len(),
        templates_error(s.take(k)) is Some,
    ensures
        templates_error(s) == templates_error(s.take(k)),
    decreases s.len() - k,
{
    if k < s.len() {
        assert(s.take(k + 1).drop_last() =~= s.take(k));
        lemma_templates_error_prefix(s, k + 1);
    } else {
        assert(s.take(k) =~= s);
    }
}

proof fn lemma_projects_error_prefix(s: Seq<Project>, templates: Seq<Seq<char>>, k: int)
    requires
        0 <= k <= s.len(),
        projects_error(s.take(k), templates) is Some,
    ensures
        projects_error(s, templates) == projects_error(s.take(k), templates),
    decreases s.len() - k,
{
    if k < s.len() {
        assert(s.take(k + 1).drop_last() =~= s.take(k));
        lemma_projects_error_prefix(s, templates, k + 1);
    } else {
        assert(s.take(k) =~= s);
    }
}

proof fn lemma_overrides_error_prefix(s: Seq<(Seq<char>, Override)>, k: int)
    requires
        0 <= k <= s.len(),
        overrides_error(s.take(k)) is Some,
    ensures
        overrides_error(s) == overrides_error(s.take(k)),
    decreases s.len() - k,
{
    if k < s.len() {
        assert(s.take(k + 1).drop_last() =~= s.take(k));
        lemma_overrides_error_prefix(s, k + 1);
    } else {
        assert(s.take(k) =~= s);
    }
}

/// First error of one template, given the ids of those before it.
fn check_template(t: &Template, ids: &Vec<String>) -> (r: Result<(), String>)
    ensures
        outcome(r) == template_error(*t, texts_of(ids@)),
{
    if let Err(e) = valid_text(t.id.as_str(), FIELD_TEMPLATE_ID) {
        return Err(e);
    }
    if let Err(e) = valid_text(t.name.as_str(), FIELD_TEMPLATE_NAME) {
        return Err(e);
    }
    if contains_text(ids, t.id.as_str()) {
        return Err(string_from(ERR_DUPLICATE_TEMPLATE));
    }
    let mut seen: Vec<String> = Vec::new();
    assert(texts_of(seen@) =~= Seq::<Seq<char>>::empty());
    if let Err(e) = t.layout.validate(&mut seen, 0) {
        return Err(e);
    }
    if t.layout.panes().len() > MAX_PANES {
        return Err(string_from(ERR_TOO_MANY_PANES));
    }
    Ok(())
}

/// First error of one customization.
fn check_override(o: &Override) -> (r: Result<(), String>)
    ensures
        outcome(r) == override_error(*o),
{
    if let Some(dir) = &o.directory {
        if let Err(e) = valid_directory(dir.as_str()) {
            return Err(e);
        }
    }
    if let Some(commands) = &o.commands {
        if has_nul(commands) {
            return Err(string_from(ERR_NUL_COMMAND));
        }
    }
    Ok(())
}

/// Whether one of the characters of `s` is a control character.
fn has_control(s: &str) -> (b: bool)
    ensures
        b == exists|i: int| 0 <= i < s@.len() && is_control(#[trigger] s@[i]),
{
    let v = chars_of(s);
    let mut i: usize = 0;
    while i < v.len()
        invariant
            i <= v.len(),
            v@ == s@,
            forall|j: int| 0 <= j < i ==> !is_control(#[trigger] v@[j]),
        decreases v.len() - i,
    {
        if is_control_char(v[i]) {
            return true;
        }
        i += 1;
    }
    false
}

/// First error of one project, given the ids of those before it and of the templates.
fn check_project(p: &Project, ids: &Vec<String>, templates: &Vec<String>) -> (r: Result<(), String>)
    ensures
        outcome(r) == project_error(*p, texts_of(ids@), texts_of(templates@)),
{
    if let Err(e) = valid_text(p.id.as_str(), FIELD_PROJECT_ID) {
        return Err(e);
    }
    if let Err(e) = valid_text(p.name.as_str(), FIELD_PROJECT_NAME) {
        return Err(e);
    }
    if contains_text(ids, p.id.as_str()) {
        return Err(string_from(ERR_DUPLICATE_PROJECT));
    }
    if !contains_text(templates, p.template_id.as_str()) {
        return Err(string_from(ERR_MISSING_TEMPLATE));
    }
    let root = chars_of(p.root.as_str());
    if !(root.len() > 0 && root[0] == '/') || contains_char(p.root.as_str(), '\0') {
        return Err(string_from(ERR_ROOT));
    }
    if let Err(e) = valid_host(p.host.as_str()) {
        return Err(e);
    }
    if let Err(e) = valid_url(p.url.as_str()) {
        return Err(e);
    }
    if has_control(p.vscode_folder.as_str()) {
        return Err(string_from(ERR_VSCODE_FOLDER));
    }
    let forbidden = ['\0', '\r', '\n', ';'];
    assert(forbidden@ =~= forbidden_chars());
    if contains_any(p.distribution.as_str(), forbidden.as_slice()) {
        return Err(string_from(ERR_DISTRIBUTION));
    }
    let profile = chars_of(p.terminal_profile.as_str());
    let start = trim_start_index(&profile);
    if contains_any(p.terminal_profile.as_str(), forbidden.as_slice()) || (start < profile.len()
        && profile[start] == '-') {
        return Err(string_from(ERR_PROFILE));
    }
    let n = p.overrides.len();
    let mut i: usize = 0;
    assert(project_error(*p, texts_of(ids@), texts_of(templates@)) == overrides_error(p.overrides@));
    while i < n
        invariant
            i <= n == p.overrides@.len(),
            project_error(*p, texts_of(ids@), texts_of(templates@)) == overrides_error(p.overrides@),
            overrides_error(p.overrides@.take(i as int)) is None,
        decreases n - i,
    {
        let (_, o) = p.overrides.entry(i);
        proof {
            assert(p.overrides@.take(i + 1).drop_last() =~= p.overrides@.take(i as int));
            assert(p.overrides@.take(i + 1).last() == p.overrides@[i as int]);
        }
        if let Err(e) = check_override(o) {
            proof {
                lemma_overrides_error_prefix(p.overrides@, i as int + 1);
            }
            return Err(e);
        }
        i += 1;
    }
    assert(p.overrides@.take(n as int) =~= p.overrides@);
    Ok(())
}

impl Config {
    /// Checks the whole configuration; the first problem found is the error.
    pub fn validate(&self) -> (r: Result<(), String>)
        ensures
            outcome(r) == config_error(*self),
    {
        if self.schema_version != 1 {
            return Err(string_from(ERR_VERSION));
        }
        let ws = chars_of(self.workspace_root.as_str());
        if ws.len() > 0 && (!(ws[0] == '/') || contains_char(self.workspace_root.as_str(), '\0')) {
            return Err(string_from(ERR_WORKSPACE_ROOT));
        }
        let mut ids: Vec<String> = Vec::new();
        let mut i: usize = 0;
        while i < self.templates.len()
            invariant
                i <= self.templates.len(),
                self.schema_version == 1,
                workspace_root_ok(self.workspace_root@),
                templates_error(self.templates@.take(i as int)) is None,
                texts_of(ids@) == template_ids(self.templates@.take(i as int)),
            decreases self.templates.len() - i,
        {
            let t = &self.templates[i];
            proof {
                assert(self.templates@.take(i + 1).drop_last() =~= self.templates@.take(i as int));
                assert(self.templates@.take(i + 1).last() == self.templates@[i as int]);
            }
            if let Err(e) = check_template(t, &ids) {
                proof {
                    lemma_templates_error_prefix(self.templates@, i as int + 1);
                }
                return Err(e);
            }
            let ghost before = ids@;
            ids.push(t.id.clone());
            assert(texts_of(ids@) =~= texts_of(before).push(t.id@));
            assert(template_ids(self.templates@.take(i + 1)) =~= template_ids(
                self.templates@.take(i as int),
            ).push(t.id@));
            i += 1;
        }
        assert(self.templates@.take(i as int) =~= self.templates@);
        assert(config_error(*self) == projects_error(self.projects@, template_ids(self.templates@)));
        let mut projects: Vec<String> = Vec::new();
        let mut j: usize = 0;
        while j < self.projects.len()
            invariant
                j <= self.projects.len(),
                config_error(*self) == projects_error(self.projects@, template_ids(self.templates@)),
                texts_of(ids@) == template_ids(self.templates@),
                projects_error(self.projects@.take(j as int), template_ids(self.templates@)) is None,
                texts_of(projects@) == project_ids(self.projects@.take(j as int)),
            decreases self.projects.len() - j,
        {
            let p = &self.projects[j];
            proof {
                assert(self.projects@.take(j + 1).drop_last() =~= self.projects@.take(j as int));
                assert(self.projects@.take(j + 1).last() == self.projects@[j as int]);
            }
            if let Err(e) = check_project(p, &projects, &ids) {
                proof {
                    lemma_projects_error_prefix(self.projects@, template_ids(self.templates@), j as int + 1);
                }
                return Err(e);
            }
            let ghost before = projects@;
            projects.push(p.id.clone());
            assert(texts_of(projects@) =~= texts_of(before).push(p.id@));
            assert(project_ids(self.projects@.take(j + 1)) =~= project_ids(
                self.projects@.take(j as int),
            ).push(p.id@));
            j += 1;
        }
        assert(self.projects@.take(j as int) =~= self.projects@);
        Ok(())
    }
}

} // verus!
