//! What a key press means, by the part of the screen that has the focus.

use vstd::prelude::*;

verus! {

/// The part of the screen that takes the keys.
#[derive(Clone, Copy, Debug, PartialEq, Eq, Structural)]
pub enum CurrentWidget {
    /// The hierarchy of entries.
    Tree,
    /// The text of the selected entry.
    TextArea,
}

/// A key, as far as the inspector tells keys apart.
#[derive(Clone, Copy, Debug, PartialEq, Eq, Structural)]
pub enum Key {
    /// A key that stands for a character.
    Char(char),
    /// The arrow down.
    Down,
    /// The arrow up.
    Up,
    /// The enter key.
    Enter,
    /// Any other key.
    Other,
}

/// What the inspector does about a key.
#[derive(Clone, Copy, Debug, PartialEq, Eq, Structural)]
pub enum Action {
    /// Leave the inspector.
    Quit,
    /// Give the focus to a part of the screen.
    Focus(CurrentWidget),
    /// Select the entry below the selected one.
    SelectNext,
    /// Select the entry above the selected one.
    SelectPrevious,
    /// Open or close the selected entry.
    Toggle,
    /// Hand the key to the text.
    Edit,
    /// Nothing.
    Ignore,
}

/// What a key means. A released key means nothing. `q` leaves, `2` and `3`
/// move the focus, whatever has it. Every other key goes to what has the
/// focus: the hierarchy moves its selection on the arrows and on `j` and
/// `k`, and opens or closes an entry on enter; the text takes the key.
pub open spec fn meaning(focus: CurrentWidget, key: Key, released: bool) -> Action {
    if released {
        Action::Ignore
    } else if key == Key::Char('q') {
        Action::Quit
    } else if key == Key::Char('2') {
        Action::Focus(CurrentWidget::Tree)
    } else if key == Key::Char('3') {
        Action::Focus(CurrentWidget::TextArea)
    } else if focus == CurrentWidget::TextArea {
        Action::Edit
    } else if key == Key::Down || key == Key::Char('j') {
        Action::SelectNext
    } else if key == Key::Up || key == Key::Char('k') {
        Action::SelectPrevious
    } else if key == Key::Enter {
        Action::Toggle
    } else {
        Action::Ignore
    }
}

/// The part of the screen that has the focus after an action.
pub open spec fn focus_after(focus: CurrentWidget, action: Action) -> CurrentWidget {
    match action {
        Action::Focus(widget) => widget,
        _ => focus,
    }
}

/// Decides what to do about a key, and who has the focus afterwards.
pub fn on_key(focus: CurrentWidget, key: Key, released: bool) -> (step: (CurrentWidget, Action))
    ensures
        step.1 == meaning(focus, key, released),
        step.0 == focus_after(focus, step.1),
{
    if released {
        return (focus, Action::Ignore);
    }
    match key {
        Key::Char('q') => (focus, Action::Quit),
        Key::Char('2') => (CurrentWidget::Tree, Action::Focus(CurrentWidget::Tree)),
        Key::Char('3') => (CurrentWidget::TextArea, Action::Focus(CurrentWidget::TextArea)),
        _ => match focus {
            CurrentWidget::Tree => match key {
                Key::Down | Key::Char('j') => (focus, Action::SelectNext),
                Key::Up | Key::Char('k') => (focus, Action::SelectPrevious),
                Key::Enter => (focus, Action::Toggle),
                _ => (focus, Action::Ignore),
            },
            CurrentWidget::TextArea => (focus, Action::Edit),
        },
    }
}

} // verus!
