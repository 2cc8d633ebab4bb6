//! The console's view of the selected subscription user.

use vstd::prelude::*;

verus! {

/// The subscription user open in the editor.
#[derive(Clone, Debug, PartialEq)]
pub struct UserSummary {
    pub selected_username: String,
}

impl UserSummary {
    /// The summary for a selection, if there is one.
    pub fn build(selected_username: Option<String>) -> (r: Option<UserSummary>)
        ensures
            match selected_username {
                Some(u) => r matches Some(s) && s.selected_username == u,
                None => r is None,
            },
    {
        match selected_username {
            Some(selected_username) => Some(UserSummary { selected_username }),
            None => None,
        }
    }
}

} // verus!
