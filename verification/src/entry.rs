//! The structured digest entry: the atomic unit of the summary that the
//! generation backend returns and the delivery mechanisms fan out.

use vstd::prelude::*;

verus! {

/// One summarized line item: a short description, the address of the
/// originating request, and a human-facing category label.
#[derive(Debug)]
pub struct DebriefResponse {
    pub description: String,
    pub url: String,
    pub type_of_change: String,
}

/// The mathematical content of a [`DebriefResponse`].
#[verifier::ext_equal]
pub ghost struct EntryModel {
    pub description: Seq<char>,
    pub url: Seq<char>,
    pub type_of_change: Seq<char>,
}

impl View for DebriefResponse {
    type V = EntryModel;

    open spec fn view(&self) -> EntryModel {
        EntryModel {
            description: self.description@,
            url: self.url@,
            type_of_change: self.type_of_change@,
        }
    }
}

impl DeepView for DebriefResponse {
    type V = EntryModel;

    open spec fn deep_view(&self) -> EntryModel {
        self.view()
    }
}

impl Clone for DebriefResponse {
    fn clone(&self) -> (r: Self)
        ensures
            r@ == self@,
    {
        DebriefResponse {
            description: self.description.clone(),
            url: self.url.clone(),
            type_of_change: self.type_of_change.clone(),
        }
    }
}

} // verus!
