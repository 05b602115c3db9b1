//! The fixed theme set (palette label and highlight-theme key per entry) and
//! the lookup of the active highlight theme in a loaded syntect theme set.

use vstd::prelude::*;
use vstd::string::StringExecFns;

use crate::editor::{new_file_log, Editor, Error};

verus! {

/// How many themes the fixed in-memory theme list holds.
pub const THEME_COUNT: usize = 3;

/// Declares syntect's `ThemeSet` so the loaded highlight themes can stand
/// in verified signatures; only `theme_keys` is assumed of its contents.
#[verifier::external_type_specification]
#[verifier::external_body]
pub struct ExThemeSet(syntect::highlighting::ThemeSet);

/// Declares syntect's `Theme`, carried opaquely from the lookup to the
/// pane that highlights with it.
#[verifier::external_type_specification]
#[verifier::external_body]
pub struct ExTheme(syntect::highlighting::Theme);

/// The set of theme names that a loaded theme set can resolve.
pub uninterp spec fn theme_keys(ts: syntect::highlighting::ThemeSet) -> Set<Seq<char>>;

/// Relies on syntect's `ThemeSet`: its `themes` field is a `BTreeMap` from
/// theme name to theme, so `get` returns a value exactly when the name is a
/// key of the map; `theme_keys` names that key set.
#[verifier::external_body]
fn lookup_theme(ts: &syntect::highlighting::ThemeSet, key: &str) -> (r: Option<
    syntect::highlighting::Theme,
>)
    ensures
        r is Some <==> theme_keys(*ts).contains(key@),
{
    ts.themes.get(key).cloned()
}

pub open spec fn spec_theme_label(i: int) -> Seq<char> {
    if i == 0 {
        "gruvbox-dark-soft"@
    } else if i == 1 {
        "gruvbox-mocha"@
    } else {
        "solarized-dark"@
    }
}

pub open spec fn spec_theme_key(i: int) -> Seq<char> {
    if i == 0 {
        "gruvbox-dark-soft"@
    } else if i == 1 {
        "base16-mocha.dark"@
    } else {
        "Solarized (dark)"@
    }
}

/// The display label of a theme entry.
pub fn theme_label(index: usize) -> (r: &'static str)
    requires
        index < THEME_COUNT,
    ensures
        r@ == spec_theme_label(index as int),
{
    if index == 0 {
        "gruvbox-dark-soft"
    } else if index == 1 {
        "gruvbox-mocha"
    } else {
        "solarized-dark"
    }
}

/// The name under which a theme entry's highlight theme is looked up.
pub fn theme_key(index: usize) -> (r: &'static str)
    requires
        index < THEME_COUNT,
    ensures
        r@ == spec_theme_key(index as int),
{
    if index == 0 {
        "gruvbox-dark-soft"
    } else if index == 1 {
        "base16-mocha.dark"
    } else {
        "Solarized (dark)"
    }
}

/// The theme index after `k` single cycling steps from `i`.
pub open spec fn spec_theme_after(i: int, k: nat) -> int
    decreases k,
{
    if k == 0 {
        i
    } else {
        let p = spec_theme_after(i, (k - 1) as nat);
        if p + 1 == THEME_COUNT {
            0int
        } else {
            p + 1
        }
    }
}

pub proof fn lemma_theme_cycle_mod(i: int, k: nat)
    requires
        0 <= i < THEME_COUNT,
    ensures
        0 <= spec_theme_after(i, k) < THEME_COUNT,
        spec_theme_after(i, k) == (i + k) % (THEME_COUNT as int),
    decreases k,
{
    if k > 0 {
        lemma_theme_cycle_mod(i, (k - 1) as nat);
    }
}

/// law: cycling the theme exactly as many times as the theme list is long
/// returns to the starting index.
pub proof fn lemma_theme_full_cycle(i: int)
    requires
        0 <= i < THEME_COUNT,
    ensures
        spec_theme_after(i, THEME_COUNT as nat) == i,
{
    lemma_theme_cycle_mod(i, THEME_COUNT as nat);
}

impl Editor {
    /// Begins opening a file. A path that does not exist is a fresh buffer
    /// and logs the new-file notice; then the active entry's highlight theme
    /// is looked up in the loaded theme set, and a set that lacks it is the
    /// named missing-theme error.
    pub fn open_file_prepare(&mut self, path_exists: bool) -> (r: Result<
        syntect::highlighting::Theme,
        Error,
    >)
        requires
            old(self).wf(),
        ensures
            final(self).wf(),
            final(self)@.log == (if !path_exists {
                Some(new_file_log())
            } else {
                old(self)@.log
            }),
            final(self)@.panes == old(self)@.panes,
            final(self)@.focus == old(self)@.focus,
            final(self)@.next_component_id == old(self)@.next_component_id,
            final(self)@.theme_index == old(self)@.theme_index,
            final(self)@.prompt_active == old(self)@.prompt_active,
            final(self).layout == old(self).layout,
            final(self).syntax_theme_set == old(self).syntax_theme_set,
            r is Ok <==> theme_keys(old(self).syntax_theme_set).contains(
                spec_theme_key(old(self)@.theme_index),
            ),
            r matches Err(e) ==> e matches Error::MissingSyntectTheme(s) && s@ == spec_theme_key(
                old(self)@.theme_index,
            ),
    {
        if !path_exists {
            self.prompt.log_error("[New file]".to_owned());
        }
        let key = theme_key(self.theme_index);
        match lookup_theme(&self.syntax_theme_set, key) {
            Some(theme) => Ok(theme),
            None => Err(Error::MissingSyntectTheme(key.to_owned())),
        }
    }
}

} // verus!
