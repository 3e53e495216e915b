//! The responsive layout as a state machine: the pending events, and for
//! each of them what the layout does to its widgets.

use vstd::prelude::*;

verus! {

/// A widget that the layout shows or hides.
#[derive(Clone, Copy, Debug, PartialEq, Eq, Structural)]
pub enum LayoutWidget {
    LeftButton,
    SearchButton,
    RightButton,
    ModeSwitchBox,
    ModeSwitchButton,
    MarkAllReadButton,
}

/// A leaflet of the layout.
#[derive(Clone, Copy, Debug, PartialEq, Eq, Structural)]
pub enum LayoutLeaflet {
    Major,
    Minor,
    Header,
}

/// A child that a leaflet can bring to the front.
#[derive(Clone, Copy, Debug, PartialEq, Eq, Structural)]
pub enum LayoutChild {
    MinorLeaflet,
    SidebarBox,
    ArticleListBox,
    ArticleViewBox,
    LeftHeader,
    RightHeader,
}

/// One thing that the layout does to its widgets.
#[derive(Clone, Copy, Debug, PartialEq, Eq, Structural)]
pub enum LayoutAction {
    SetVisible(LayoutWidget, bool),
    SetVisibleChild(LayoutLeaflet, LayoutChild),
}

/// The events that wait to be processed.
#[derive(Clone, Copy, Debug, PartialEq, Eq, Structural)]
pub struct ResponsiveState {
    pub left_button_clicked: bool,
    pub right_button_clicked: bool,
    pub major_leaflet_selected: bool,
    pub major_leaflet_folded: bool,
    pub minor_leaflet_selected: bool,
    pub minor_leaflet_folded: bool,
}

impl ResponsiveState {
    /// The state after one round of processing: the first pending event,
    /// in the order in which they are looked at, is no longer pending.
    pub open spec fn processed(self) -> ResponsiveState {
        if self.major_leaflet_folded {
            ResponsiveState { major_leaflet_folded: false, ..self }
        } else if self.minor_leaflet_folded {
            ResponsiveState { minor_leaflet_folded: false, ..self }
        } else if self.left_button_clicked {
            ResponsiveState { left_button_clicked: false, ..self }
        } else if self.right_button_clicked {
            ResponsiveState { right_button_clicked: false, ..self }
        } else if self.major_leaflet_selected {
            ResponsiveState { major_leaflet_selected: false, ..self }
        } else if self.minor_leaflet_selected {
            ResponsiveState { minor_leaflet_selected: false, ..self }
        } else {
            self
        }
    }

    /// What the layout does for the first pending event, given whether
    /// the major and the minor leaflet are folded right now.
    pub open spec fn actions(self, major_is_folded: bool, minor_is_folded: bool) -> Seq<
        LayoutAction,
    > {
        if self.major_leaflet_folded {
            if !major_is_folded {
                seq![
                    LayoutAction::SetVisible(LayoutWidget::RightButton, false),
                    LayoutAction::SetVisibleChild(LayoutLeaflet::Major, LayoutChild::MinorLeaflet),
                    LayoutAction::SetVisibleChild(LayoutLeaflet::Header, LayoutChild::LeftHeader),
                    LayoutAction::SetVisible(LayoutWidget::ModeSwitchBox, true),
                    LayoutAction::SetVisible(LayoutWidget::ModeSwitchButton, false),
                ]
            } else {
                seq![
                    LayoutAction::SetVisible(LayoutWidget::ModeSwitchBox, false),
                    LayoutAction::SetVisible(LayoutWidget::ModeSwitchButton, true),
                ]
            }
        } else if self.minor_leaflet_folded {
            if !minor_is_folded {
                seq![
                    LayoutAction::SetVisible(LayoutWidget::LeftButton, false),
                    LayoutAction::SetVisible(LayoutWidget::SearchButton, true),
                    LayoutAction::SetVisible(LayoutWidget::ModeSwitchButton, true),
                    LayoutAction::SetVisibleChild(LayoutLeaflet::Minor, LayoutChild::SidebarBox),
                    LayoutAction::SetVisible(LayoutWidget::MarkAllReadButton, true),
                ]
            } else {
                seq![
                    LayoutAction::SetVisible(LayoutWidget::SearchButton, false),
                    LayoutAction::SetVisible(LayoutWidget::ModeSwitchButton, false),
                    LayoutAction::SetVisible(LayoutWidget::MarkAllReadButton, false),
                ]
            }
        } else if self.left_button_clicked {
            seq![
                LayoutAction::SetVisibleChild(LayoutLeaflet::Minor, LayoutChild::SidebarBox),
                LayoutAction::SetVisible(LayoutWidget::LeftButton, false),
                LayoutAction::SetVisible(LayoutWidget::SearchButton, false),
                LayoutAction::SetVisible(LayoutWidget::ModeSwitchButton, false),
                LayoutAction::SetVisible(LayoutWidget::MarkAllReadButton, false),
            ]
        } else if self.right_button_clicked {
            seq![
                LayoutAction::SetVisibleChild(LayoutLeaflet::Major, LayoutChild::MinorLeaflet),
                LayoutAction::SetVisibleChild(LayoutLeaflet::Header, LayoutChild::LeftHeader),
                LayoutAction::SetVisible(LayoutWidget::RightButton, false),
            ]
        } else if self.major_leaflet_selected {
            if major_is_folded {
                seq![
                    LayoutAction::SetVisibleChild(LayoutLeaflet::Major, LayoutChild::ArticleViewBox),
                    LayoutAction::SetVisibleChild(LayoutLeaflet::Header, LayoutChild::RightHeader),
                    LayoutAction::SetVisible(LayoutWidget::RightButton, true),
                ]
            } else {
                Seq::empty()
            }
        } else if self.minor_leaflet_selected {
            if minor_is_folded {
                seq![
                    LayoutAction::SetVisibleChild(LayoutLeaflet::Minor, LayoutChild::ArticleListBox),
                    LayoutAction::SetVisible(LayoutWidget::LeftButton, true),
                    LayoutAction::SetVisible(LayoutWidget::SearchButton, true),
                    LayoutAction::SetVisible(LayoutWidget::ModeSwitchButton, true),
                    LayoutAction::SetVisible(LayoutWidget::MarkAllReadButton, true),
                ]
            } else {
                Seq::empty()
            }
        } else {
            Seq::empty()
        }
    }

    /// Whether any event waits to be processed.
    pub open spec fn pending(self) -> bool {
        self.left_button_clicked || self.right_button_clicked || self.major_leaflet_selected
            || self.major_leaflet_folded || self.minor_leaflet_selected
            || self.minor_leaflet_folded
    }

    /// How many events wait to be processed.
    pub open spec fn pending_count(self) -> nat {
        let one = |b: bool| if b { 1nat } else { 0nat };
        one(self.left_button_clicked) + one(self.right_button_clicked) + one(
            self.major_leaflet_selected,
        ) + one(self.major_leaflet_folded) + one(self.minor_leaflet_selected) + one(
            self.minor_leaflet_folded,
        )
    }

    /// The state in which no event is pending.
    pub fn new() -> (state: Self)
        ensures
            state == (ResponsiveState {
                left_button_clicked: false,
                right_button_clicked: false,
                major_leaflet_selected: false,
                major_leaflet_folded: false,
                minor_leaflet_selected: false,
                minor_leaflet_folded: false,
            }),
            !state.pending(),
    {
        ResponsiveState {
            left_button_clicked: false,
            right_button_clicked: false,
            major_leaflet_selected: false,
            major_leaflet_folded: false,
            minor_leaflet_selected: false,
            minor_leaflet_folded: false,
        }
    }

    /// Processes the first pending event: returns what the layout is to
    /// do, in order, and marks the event as done. `major_is_folded` and
    /// `minor_is_folded` say whether the leaflets are folded right now.
    pub fn process_state_change(&mut self, major_is_folded: bool, minor_is_folded: bool) -> (todo:
        Vec<LayoutAction>)
        ensures
            todo@ == old(self).actions(major_is_folded, minor_is_folded),
            *final(self) == old(self).processed(),
    {
        let mut todo: Vec<LayoutAction> = Vec::new();
        if self.major_leaflet_folded {
            if !major_is_folded {
                todo.push(LayoutAction::SetVisible(LayoutWidget::RightButton, false));
                todo.push(
                    LayoutAction::SetVisibleChild(LayoutLeaflet::Major, LayoutChild::MinorLeaflet),
                );
                todo.push(
                    LayoutAction::SetVisibleChild(LayoutLeaflet::Header, LayoutChild::LeftHeader),
                );
                todo.push(LayoutAction::SetVisible(LayoutWidget::ModeSwitchBox, true));
                todo.push(LayoutAction::SetVisible(LayoutWidget::ModeSwitchButton, false));
            } else {
                todo.push(LayoutAction::SetVisible(LayoutWidget::ModeSwitchBox, false));
                todo.push(LayoutAction::SetVisible(LayoutWidget::ModeSwitchButton, true));
            }
            self.major_leaflet_folded = false;
        } else if self.minor_leaflet_folded {
            if !minor_is_folded {
                todo.push(LayoutAction::SetVisible(LayoutWidget::LeftButton, false));
                todo.push(LayoutAction::SetVisible(LayoutWidget::SearchButton, true));
                todo.push(LayoutAction::SetVisible(LayoutWidget::ModeSwitchButton, true));
                todo.push(
                    LayoutAction::SetVisibleChild(LayoutLeaflet::Minor, LayoutChild::SidebarBox),
                );
                todo.push(LayoutAction::SetVisible(LayoutWidget::MarkAllReadButton, true));
            } else {
                todo.push(LayoutAction::SetVisible(LayoutWidget::SearchButton, false));
                todo.push(LayoutAction::SetVisible(LayoutWidget::ModeSwitchButton, false));
                todo.push(LayoutAction::SetVisible(LayoutWidget::MarkAllReadButton, false));
            }
            self.minor_leaflet_folded = false;
        } else if self.left_button_clicked {
            todo.push(LayoutAction::SetVisibleChild(LayoutLeaflet::Minor, LayoutChild::SidebarBox));
            todo.push(LayoutAction::SetVisible(LayoutWidget::LeftButton, false));
            todo.push(LayoutAction::SetVisible(LayoutWidget::SearchButton, false));
            todo.push(LayoutAction::SetVisible(LayoutWidget::ModeSwitchButton, false));
            todo.push(LayoutAction::SetVisible(LayoutWidget::MarkAllReadButton, false));
            self.left_button_clicked = false;
        } else if self.right_button_clicked {
            todo.push(
                LayoutAction::SetVisibleChild(LayoutLeaflet::Major, LayoutChild::MinorLeaflet),
            );
            todo.push(LayoutAction::SetVisibleChild(LayoutLeaflet::Header, LayoutChild::LeftHeader));
            todo.push(LayoutAction::SetVisible(LayoutWidget::RightButton, false));
            self.right_button_clicked = false;
        } else if self.major_leaflet_selected {
            if major_is_folded {
                todo.push(
                    LayoutAction::SetVisibleChild(LayoutLeaflet::Major, LayoutChild::ArticleViewBox),
                );
                todo.push(
                    LayoutAction::SetVisibleChild(LayoutLeaflet::Header, LayoutChild::RightHeader),
                );
                todo.push(LayoutAction::SetVisible(LayoutWidget::RightButton, true));
            }
            self.major_leaflet_selected = false;
        } else if self.minor_leaflet_selected {
            if minor_is_folded {
                todo.push(
                    LayoutAction::SetVisibleChild(LayoutLeaflet::Minor, LayoutChild::ArticleListBox),
                );
                todo.push(LayoutAction::SetVisible(LayoutWidget::LeftButton, true));
                todo.push(LayoutAction::SetVisible(LayoutWidget::SearchButton, true));
                todo.push(LayoutAction::SetVisible(LayoutWidget::ModeSwitchButton, true));
                todo.push(LayoutAction::SetVisible(LayoutWidget::MarkAllReadButton, true));
            }
            self.minor_leaflet_selected = false;
        }
        assert(todo@ =~= old(self).actions(major_is_folded, minor_is_folded));
        todo
    }
}

/// Each round of processing takes one pending event away, so that after
/// as many rounds as there were events none is pending.
pub proof fn lemma_processing_makes_progress(state: ResponsiveState)
    requires
        state.pending(),
    ensures
        state.processed().pending_count() + 1 == state.pending_count(),
{
}

/// Where no event is pending, processing does nothing.
pub proof fn lemma_nothing_pending(state: ResponsiveState, major: bool, minor: bool)
    requires
        !state.pending(),
    ensures
        state.processed() == state,
        state.actions(major, minor) == Seq::<LayoutAction>::empty(),
{
}

} // verus!
