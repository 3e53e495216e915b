//! What a category row does on a click, and how its arrow looks.

use vstd::prelude::*;

verus! {

/// The kind of a button event.
#[derive(Clone, Copy, Debug, PartialEq, Eq, Structural)]
pub enum ClickKind {
    ButtonPress,
    DoubleButtonPress,
    TripleButtonPress,
    ButtonRelease,
    Other,
}

/// The primary button of the pointer.
pub const PRIMARY_BUTTON: u32 = 1;

/// The secondary button of the pointer.
pub const SECONDARY_BUTTON: u32 = 3;

/// The style class of the arrow of an expanded category.
pub open spec fn expanded_class() -> Seq<char> {
    "forward-arrow-expanded"@
}

/// The style class of the arrow of a collapsed category.
pub open spec fn collapsed_class() -> Seq<char> {
    "forward-arrow-collapsed"@
}

/// The style class that the arrow loses and the one that it gets when
/// the category is shown as expanded, or as collapsed.
pub fn arrow_classes(expanded: bool) -> (classes: (&'static str, &'static str))
    ensures
        classes.0@ == if expanded {
            collapsed_class()
        } else {
            expanded_class()
        },
        classes.1@ == if expanded {
            expanded_class()
        } else {
            collapsed_class()
        },
{
    if expanded {
        ("forward-arrow-collapsed", "forward-arrow-expanded")
    } else {
        ("forward-arrow-expanded", "forward-arrow-collapsed")
    }
}

/// Whether a button event on the arrow toggles the category: a press of
/// the primary button does, and nothing else.
pub fn toggles_arrow(button: u32, kind: ClickKind) -> (toggles: bool)
    ensures
        toggles == (button == PRIMARY_BUTTON && kind == ClickKind::ButtonPress),
{
    button == PRIMARY_BUTTON && match kind {
        ClickKind::ButtonPress => true,
        _ => false,
    }
}

/// Whether a button event on the row opens its menu: an event of the
/// secondary button does, unless it is a release or the second or third
/// press of a multiple click, and never while offline.
pub fn opens_context_menu(button: u32, kind: ClickKind, offline: bool) -> (opens: bool)
    ensures
        opens == (button == SECONDARY_BUTTON && kind != ClickKind::ButtonRelease && kind
            != ClickKind::DoubleButtonPress && kind != ClickKind::TripleButtonPress && !offline),
{
    if button != SECONDARY_BUTTON {
        return false;
    }
    match kind {
        ClickKind::ButtonRelease | ClickKind::DoubleButtonPress | ClickKind::TripleButtonPress => {
            return false;
        },
        _ => {},
    }
    !offline
}

} // verus!
