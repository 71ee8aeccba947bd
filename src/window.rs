//! A window, as the rename logic sees it: up to three identity strings.
use vstd::prelude::*;
use crate::text::{contains, has_substring, lower_of, lowercase};

verus! {

/// One application window. Each field may be missing; a window with none of
/// them carries no identity.
#[derive(Debug)]
pub struct Window {
    /// The window's title.
    pub name: Option<String>,
    /// The application identifier (a Wayland app id).
    pub app_id: Option<String>,
    /// The X11 window class.
    pub window_properties_class: Option<String>,
}

/// `field` is present and its lower-cased text holds `pattern`.
pub open spec fn field_matches(field: Option<String>, pattern: Seq<char>) -> bool {
    match field {
        Some(s) => has_substring(lower_of(s@), pattern),
        None => false,
    }
}

impl Window {
    /// At least one identity field is present.
    pub open spec fn identified(&self) -> bool {
        self.name is Some || self.app_id is Some || self.window_properties_class is Some
    }

    /// The lower-cased text of some identity field holds `pattern`.
    pub open spec fn matches_spec(&self, pattern: Seq<char>) -> bool {
        field_matches(self.name, pattern) || field_matches(self.app_id, pattern)
            || field_matches(self.window_properties_class, pattern)
    }

    /// Whether the window carries any identity at all.
    pub fn has_identity(&self) -> (r: bool)
        ensures
            r == self.identified(),
    {
        self.name.is_some() || self.app_id.is_some() || self.window_properties_class.is_some()
    }

    /// A copy of this window, field for field.
    pub fn copied(&self) -> (r: Window)
        ensures
            r == *self,
    {
        Window {
            name: copy_field(&self.name),
            app_id: copy_field(&self.app_id),
            window_properties_class: copy_field(&self.window_properties_class),
        }
    }

    /// Whether `pattern` occurs in the lower-cased title, app id or class.
    /// The pattern itself is taken as it stands.
    pub fn matches(&self, pattern: &str) -> (r: bool)
        ensures
            r == self.matches_spec(pattern@),
    {
        let name = lowered(&self.name);
        let app_id = lowered(&self.app_id);
        let class = lowered(&self.window_properties_class);
        matches_lowered(&name, &app_id, &class, pattern)
    }
}

/// The text of a field, if present.
pub open spec fn text_of(field: Option<String>) -> Option<Seq<char>> {
    match field {
        Some(s) => Some(s@),
        None => None,
    }
}

/// `field` is present and holds `pattern`.
pub open spec fn holds_in(field: Option<Seq<char>>, pattern: Seq<char>) -> bool {
    match field {
        Some(t) => has_substring(t, pattern),
        None => false,
    }
}

/// Whether `pattern` occurs in one of three fields that are already
/// lower-cased (the title, app id and class of a window).
pub fn matches_lowered(
    name: &Option<String>,
    app_id: &Option<String>,
    class: &Option<String>,
    pattern: &str,
) -> (r: bool)
    ensures
        r == (holds_in(text_of(*name), pattern@) || holds_in(text_of(*app_id), pattern@)
            || holds_in(text_of(*class), pattern@)),
{
    field_holds(name, pattern) || field_holds(app_id, pattern) || field_holds(class, pattern)
}

pub(crate) fn copy_field(field: &Option<String>) -> (r: Option<String>)
    ensures
        r == *field,
{
    match field {
        Some(s) => Some(s.clone()),
        None => None,
    }
}

fn field_holds(field: &Option<String>, pattern: &str) -> (r: bool)
    ensures
        r == holds_in(text_of(*field), pattern@),
{
    match field {
        Some(s) => contains(s.as_str(), pattern),
        None => false,
    }
}

fn lowered(field: &Option<String>) -> (r: Option<String>)
    ensures
        text_of(r) == match *field {
            Some(s) => Some(lower_of(s@)),
            None => None::<Seq<char>>,
        },
{
    match field {
        Some(s) => Some(lowercase(s.as_str())),
        None => None,
    }
}

} // verus!
