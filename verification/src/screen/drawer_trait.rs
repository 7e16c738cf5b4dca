use vstd::prelude::*;

verus! {

/// How the user is interacting with a widget of the interface.
#[derive(Eq, PartialEq, Copy, Clone, Debug, Structural)]
pub enum Interaction {
    Pressing,
    Clicked,
    Hovered,
    NoInteraction,
}

impl Interaction {
    pub fn is_clicked(&self) -> (result: bool)
        ensures
            result == (*self == Interaction::Clicked),
    {
        *self == Interaction::Clicked
    }

    pub fn is_hovered(&self) -> (result: bool)
        ensures
            result == (*self == Interaction::Hovered),
    {
        *self == Interaction::Hovered
    }

    pub fn is_hovered_or_clicked(&self) -> (result: bool)
        ensures
            result == (*self == Interaction::Hovered || *self == Interaction::Clicked),
    {
        *self == Interaction::Hovered || *self == Interaction::Clicked
    }
}

} // verus!
