//! The states and themes of the article view.

use vstd::prelude::*;

verus! {

/// Which of its two views the article view shows, if any. The two views
/// take turns, so that a new article can load behind the one on display.
#[derive(Clone, Copy, Debug, PartialEq, Eq, Structural)]
pub enum InternalState {
    Empty,
    Crash,
    View1,
    View2,
}

impl InternalState {
    /// The state that [`InternalState::switch`] leads to.
    pub open spec fn switched(self) -> InternalState {
        match self {
            InternalState::View1 => InternalState::View2,
            InternalState::View2 => InternalState::View1,
            InternalState::Empty => InternalState::View1,
            InternalState::Crash => InternalState::View1,
        }
    }

    /// The name of the view on display; none while empty or crashed.
    pub fn to_str(&self) -> (name: Option<&str>)
        ensures
            match *self {
                InternalState::Empty => name is None,
                InternalState::Crash => name is None,
                InternalState::View1 => name matches Some(n) && n@ == "view_1"@,
                InternalState::View2 => name matches Some(n) && n@ == "view_2"@,
            },
    {
        match self {
            InternalState::Empty => None,
            InternalState::Crash => None,
            InternalState::View1 => Some("view_1"),
            InternalState::View2 => Some("view_2"),
        }
    }

    /// The state after the next article is shown: the other view, or the
    /// first one where none was on display.
    pub fn switch(&self) -> (next: Self)
        ensures
            next == self.switched(),
            next == InternalState::View1 || next == InternalState::View2,
    {
        match self {
            InternalState::View1 => InternalState::View2,
            InternalState::View2 => InternalState::View1,
            InternalState::Empty => InternalState::View1,
            InternalState::Crash => InternalState::View1,
        }
    }
}

/// Switching twice from a view on display leads back to it.
pub proof fn lemma_switch_twice(state: InternalState)
    requires
        state == InternalState::View1 || state == InternalState::View2,
    ensures
        state.switched().switched() == state,
{
}

/// The theme in which an article is rendered.
#[derive(Clone, Copy, Debug, PartialEq, Eq, Structural)]
pub enum ArticleTheme {
    Default,
    Spring,
    Midnight,
    Parchment,
}

impl ArticleTheme {
    /// The style class of the theme.
    pub fn to_str(&self) -> (name: &str)
        ensures
            name@ == match *self {
                ArticleTheme::Default => "theme default"@,
                ArticleTheme::Spring => "theme spring"@,
                ArticleTheme::Midnight => "theme midnight"@,
                ArticleTheme::Parchment => "theme parchment"@,
            },
    {
        match self {
            ArticleTheme::Default => "theme default",
            ArticleTheme::Spring => "theme spring",
            ArticleTheme::Midnight => "theme midnight",
            ArticleTheme::Parchment => "theme parchment",
        }
    }
}

} // verus!
