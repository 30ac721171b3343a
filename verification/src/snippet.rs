use vstd::prelude::*;
use candid::Principal;
use crate::key::{encode, SnippetKey};

verus! {

/// A stored record: a text, its composite key, its owner and the time it was written.
pub struct Snippet {
    pub content: String,
    pub owner: Principal,
    pub id: String,
    pub timestamp: u64,
}

/// What a snippet holds, as plain values.
pub struct SnippetView {
    pub content: Seq<char>,
    pub owner: Principal,
    pub id: Seq<char>,
    pub timestamp: u64,
}

impl View for Snippet {
    type V = SnippetView;

    open spec fn view(&self) -> SnippetView {
        SnippetView {
            content: self.content@,
            owner: self.owner,
            id: self.id@,
            timestamp: self.timestamp,
        }
    }
}

impl Clone for Snippet {
    fn clone(&self) -> (copy: Self)
        ensures
            copy@ == self@,
    {
        Snippet {
            content: self.content.clone(),
            owner: self.owner,
            id: self.id.clone(),
            timestamp: self.timestamp,
        }
    }
}

/// A request to store a text under a client-chosen id.
pub struct SnippetInput {
    pub content: String,
    pub id: String,
}

/// The snippet that a request becomes on the page `page_id`, for `owner`, at `timestamp`.
pub open spec fn stamped(
    content: Seq<char>,
    id: Seq<char>,
    owner: Principal,
    page_id: Seq<char>,
    timestamp: u64,
) -> SnippetView {
    SnippetView { content, owner, id: encode(id, page_id), timestamp }
}

impl Clone for SnippetInput {
    fn clone(&self) -> (copy: Self)
        ensures
            copy.content@ == self.content@,
            copy.id@ == self.id@,
    {
        SnippetInput { content: self.content.clone(), id: self.id.clone() }
    }
}

impl SnippetInput {
    /// The snippet of this request on the page `page_id`, for `owner`, written at
    /// `timestamp`, which the caller has read from the platform's clock.
    pub fn to_snippet(self, owner: Principal, page_id: String, timestamp: u64) -> (snippet:
        Snippet)
        ensures
            snippet@ == stamped(self.content@, self.id@, owner, page_id@, timestamp),
    {
        let key = SnippetKey::new(self.id, page_id);
        Snippet { content: self.content, id: key.value, owner, timestamp }
    }
}

} // verus!
