use vstd::prelude::*;

verus! {

/// The pages of the menu.
#[derive(Clone, Copy, Debug, PartialEq, Eq, Structural)]
pub enum CurrentPage {
    ALWAYS,
    MENU,
    CREATEWORLD,
    LOADWORLD,
    SETTINGS,
}

/// The page that a piece of the interface belongs to.
#[derive(Clone, Copy, Debug, PartialEq, Eq, Structural)]
pub struct Page(pub CurrentPage);

impl Page {
    /// A piece of the interface shows while its own page is the current one.
    pub fn is_visible(&self, current: &CurrentPage) -> (r: bool)
        ensures
            r == (*current == self.0),
    {
        *current == self.0
    }
}

} // verus!
