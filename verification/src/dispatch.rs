use vstd::prelude::*;
use vstd::string::*;
use candid::Principal;
use crate::key::{is_composite, leading_segment, trailing_segment, SnippetKey};
use crate::page::{ref_views, text, views, AddSnippetResult, Page, UpdateError};
use crate::snippet::{Snippet, SnippetInput};

verus! {

/// What the node directory answers on a lookup that creates the page where it is
/// missing: the outcome of the work done on the page here, the node that owns it, or
/// that it can name neither a page nor a node for the id.
pub enum Upsert<T> {
    Local(T),
    Remote(Principal),
    Absent,
}

/// What the node directory answers on a lookup that creates nothing: the outcome of the
/// work done on the page here, the node that owns it, or that no page has the id.
pub enum Probe<T> {
    Local(T),
    Remote(Principal),
    Absent,
}

/// The answer to a write that was carried out: the key written and the node it is on.
pub struct UpdateResult {
    pub snippet_id: Option<String>,
    pub canister_id: Principal,
}

/// The answer to a write.
pub enum UpdateResponse {
    Success(UpdateResult),
    Failure(String),
}

/// Where a neighbour of a page is found: its id and the node that hosts it.
pub struct Pagination {
    pub page: String,
    pub canister_id: Principal,
}

/// The contents of a page with the places of its neighbours.
pub struct ListSnippets {
    pub next: Option<Pagination>,
    pub prev: Option<Pagination>,
    pub canister_id: Principal,
    pub snippets: Vec<Snippet>,
}

/// The answer to a listing.
pub enum ListSnippetsResponse {
    Success(ListSnippetsResult),
    Failure(String),
}

/// A listing served here, or the node to ask instead.
pub enum ListSnippetsResult {
    Snippets(Option<ListSnippets>),
    CanisterId(Principal),
}

/// The answer to a read.
pub enum GetSnippetResponse {
    Success(GetSnippetResult),
    Failure(String),
}

/// A read served here, or the node to ask instead.
pub enum GetSnippetResult {
    Snippet(Option<Snippet>),
    CanisterId(Principal),
}

/// What a node does next with a write.
pub enum Step {
    /// Answer the caller.
    Respond(UpdateResponse),
    /// Hand the request to the node that owns the page, once, and answer with its reply.
    Forward(Principal),
}

/// What a node does next with a request to add.
pub enum AddStep {
    /// Answer the caller.
    Respond(UpdateResponse),
    /// Hand the request to the node that owns the page, once, and answer with its reply.
    Forward(Principal),
    /// Store the page that was split off under its id, then go on with
    /// `persist_overflow`; the string is the key of the snippet on that page.
    Persist(Page, String),
}

/// The message for a key that does not decode.
pub open spec fn invalid_key_message() -> Seq<char> {
    "Snippet key not found or invalid"@
}

/// The message for an update of a snippet that the page does not hold.
pub open spec fn not_found_message() -> Seq<char> {
    "Could not find snippet"@
}

/// The message for an update by a caller who does not own the snippet.
pub open spec fn auth_error_message() -> Seq<char> {
    "Auth Error"@
}

/// The message for a write whose page the directory can place on no node.
pub open spec fn unresolved_message() -> Seq<char> {
    "Canister not found"@
}

/// The node that hosts a neighbour: the one the directory names, else this node.
pub open spec fn host_of(found: Probe<()>, this_node: Principal) -> Principal {
    match found {
        Probe::Remote(node) => node,
        _ => this_node,
    }
}

/// The place of a neighbour, if the page has that neighbour.
pub open spec fn locator_of(
    locator: Option<Pagination>,
    neighbour: Option<Seq<char>>,
    found: Probe<()>,
    this_node: Principal,
) -> bool {
    match neighbour {
        Some(id) => locator matches Some(place) && place.page@ == id && place.canister_id
            == host_of(found, this_node),
        None => locator is None,
    }
}

/// Decides on a request to add, once the directory has resolved the current page and,
/// where it is here, the page has taken the request. A page elsewhere has the request
/// forwarded; a snippet stored here is answered with its key and this node; a split
/// has the new page stored first. Where the directory could place the page on no node,
/// no page was touched and the caller is answered with an error.
pub fn add_snippet(home: Upsert<AddSnippetResult>, this_node: Principal) -> (step: AddStep)
    ensures
        match home {
            Upsert::Remote(node) => step == AddStep::Forward(node),
            Upsert::Local(AddSnippetResult::Added(key)) => step == AddStep::Respond(
                UpdateResponse::Success(UpdateResult { snippet_id: Some(key), canister_id: this_node }),
            ),
            Upsert::Local(AddSnippetResult::Overflow((page, key))) => step == AddStep::Persist(
                page,
                key,
            ),
            Upsert::Absent => step matches AddStep::Respond(UpdateResponse::Failure(message))
                && message@ == unresolved_message(),
        },
{
    match home {
        Upsert::Remote(node) => AddStep::Forward(node),
        Upsert::Local(AddSnippetResult::Added(key)) => AddStep::Respond(
            UpdateResponse::Success(UpdateResult { snippet_id: Some(key), canister_id: this_node }),
        ),
        Upsert::Local(AddSnippetResult::Overflow((page, key))) => AddStep::Persist(page, key),
        Upsert::Absent => AddStep::Respond(
            UpdateResponse::Failure(String::from_str("Canister not found")),
        ),
    }
}

/// Decides on a request to add after a split, once the directory has resolved the id of
/// the new page and, where it is here, stored it and handed back the snippet's key. The
/// request is then fulfilled; where the new page belongs elsewhere, the request is
/// forwarded to that node; where the directory could place it on no node, the caller is
/// answered with an error.
pub fn persist_overflow(spill: Upsert<String>, this_node: Principal) -> (step: Step)
    ensures
        match spill {
            Upsert::Remote(node) => step == Step::Forward(node),
            Upsert::Local(key) => step == Step::Respond(
                UpdateResponse::Success(UpdateResult { snippet_id: Some(key), canister_id: this_node }),
            ),
            Upsert::Absent => step matches Step::Respond(UpdateResponse::Failure(message))
                && message@ == unresolved_message(),
        },
{
    match spill {
        Upsert::Remote(node) => Step::Forward(node),
        Upsert::Local(key) => Step::Respond(
            UpdateResponse::Success(UpdateResult { snippet_id: Some(key), canister_id: this_node }),
        ),
        Upsert::Absent => Step::Respond(
            UpdateResponse::Failure(String::from_str("Canister not found")),
        ),
    }
}

/// The answer to a forwarded write: the other node's reply as it came, or the
/// transport's failure as an error.
pub fn forwarded(reply: Result<UpdateResponse, String>) -> (response: UpdateResponse)
    ensures
        response == match reply {
            Ok(answer) => answer,
            Err(message) => UpdateResponse::Failure(message),
        },
{
    match reply {
        Ok(answer) => answer,
        Err(message) => UpdateResponse::Failure(message),
    }
}

/// Splits the composite key of a request to update or read. A string that is no
/// composite key is refused before any page is touched.
pub fn target(id: String) -> (r: Result<SnippetKey, String>)
    ensures
        match r {
            Ok(key) => is_composite(id@) && key@ == id@,
            Err(message) => !is_composite(id@) && message@ == invalid_key_message(),
        },
{
    match SnippetKey::from_string(id) {
        Ok(key) => Ok(key),
        Err(_) => Err(String::from_str("Snippet key not found or invalid")),
    }
}

/// The request that a page takes for an update of `key`: the new text under the
/// client's id, which is the key without the page's id.
pub fn page_request(content: String, key: &SnippetKey) -> (input: SnippetInput)
    ensures
        input.content == content,
        input.id@ == leading_segment(key@),
{
    SnippetInput { content, id: key.snippet_id() }
}

/// Decides on a request to update `key`, once the directory has resolved its page and,
/// where it is here, the page has taken the update. A page elsewhere has the request
/// forwarded; an update carried out is answered with the key and this node; one that
/// the page refused is answered with the reason. Where the directory could place the
/// page on no node, no page was touched and the caller is answered with an error.
pub fn update_snippet(
    home: Upsert<Result<Snippet, UpdateError>>,
    key: SnippetKey,
    this_node: Principal,
) -> (step: Step)
    ensures
        match home {
            Upsert::Remote(node) => step == Step::Forward(node),
            Upsert::Local(Ok(_)) => step == Step::Respond(
                UpdateResponse::Success(
                    UpdateResult { snippet_id: Some(key.value), canister_id: this_node },
                ),
            ),
            Upsert::Local(Err(UpdateError::NotFound)) => step matches Step::Respond(
                UpdateResponse::Failure(message),
            ) && message@ == not_found_message(),
            Upsert::Local(Err(UpdateError::AuthError)) => step matches Step::Respond(
                UpdateResponse::Failure(message),
            ) && message@ == auth_error_message(),
            Upsert::Absent => step matches Step::Respond(UpdateResponse::Failure(message))
                && message@ == unresolved_message(),
        },
{
    match home {
        Upsert::Remote(node) => Step::Forward(node),
        Upsert::Local(Ok(_)) => Step::Respond(
            UpdateResponse::Success(UpdateResult { snippet_id: Some(key.value), canister_id: this_node }),
        ),
        Upsert::Local(Err(UpdateError::NotFound)) => Step::Respond(
            UpdateResponse::Failure(String::from_str("Could not find snippet")),
        ),
        Upsert::Local(Err(UpdateError::AuthError)) => Step::Respond(
            UpdateResponse::Failure(String::from_str("Auth Error")),
        ),
        Upsert::Absent => Step::Respond(
            UpdateResponse::Failure(String::from_str("Canister not found")),
        ),
    }
}

/// Answers a read, once the directory has probed the page of the key and, where it is
/// here, the page was asked. A page elsewhere is answered with its node, for the caller
/// to ask there; a page that does not exist holds no snippet.
pub fn get_snippet(found: Probe<Option<Snippet>>) -> (response: GetSnippetResponse)
    ensures
        response == GetSnippetResponse::Success(
            match found {
                Probe::Local(snippet) => GetSnippetResult::Snippet(snippet),
                Probe::Remote(node) => GetSnippetResult::CanisterId(node),
                Probe::Absent => GetSnippetResult::Snippet(None),
            },
        ),
{
    GetSnippetResponse::Success(
        match found {
            Probe::Local(snippet) => GetSnippetResult::Snippet(snippet),
            Probe::Remote(node) => GetSnippetResult::CanisterId(node),
            Probe::Absent => GetSnippetResult::Snippet(None),
        },
    )
}

/// The listing of a page that is here: its snippets in key order and, for each
/// neighbour it has, the neighbour's id with the node that the directory's probe
/// named for it, which is this node where the probe named none.
pub fn list_page(page: &Page, next_host: Probe<()>, prev_host: Probe<()>, this_node: Principal) -> (r:
    ListSnippets)
    ensures
        views(r.snippets@) == page@.listing(),
        r.canister_id == this_node,
        locator_of(r.next, page@.next_page, next_host, this_node),
        locator_of(r.prev, page@.prev_page, prev_host, this_node),
{
    let found = page.get_snippets();
    let mut snippets: Vec<Snippet> = Vec::new();
    let mut i: usize = 0;
    while i < found.len()
        invariant
            i <= found.len(),
            views(snippets@) == ref_views(found@).take(i as int),
        decreases found.len() - i,
    {
        let ghost before = views(snippets@);
        snippets.push(found[i].clone());
        proof {
            assert(views(snippets@) =~= before.push(ref_views(found@)[i as int]));
            assert(before.push(ref_views(found@)[i as int]) =~= ref_views(found@).take(
                i as int + 1,
            ));
        }
        i = i + 1;
    }
    proof {
        assert(ref_views(found@).take(i as int) =~= ref_views(found@));
    }
    let next = match page.next_page() {
        Some(id) => Some(Pagination { page: id.clone(), canister_id: host(next_host, this_node) }),
        None => None,
    };
    let prev = match page.prev_page() {
        Some(id) => Some(Pagination { page: id.clone(), canister_id: host(prev_host, this_node) }),
        None => None,
    };
    ListSnippets { next, prev, canister_id: this_node, snippets }
}

/// The node that hosts a neighbour.
fn host(found: Probe<()>, this_node: Principal) -> (node: Principal)
    ensures
        node == host_of(found, this_node),
{
    match found {
        Probe::Remote(node) => node,
        _ => this_node,
    }
}

/// Answers a listing, once the directory has probed the page and, where it is here,
/// the page was listed. A page elsewhere is answered with its node, for the caller to
/// ask there; a page that does not exist is answered with no listing, and no error.
pub fn list_snippets(found: Probe<ListSnippets>) -> (response: ListSnippetsResponse)
    ensures
        response == ListSnippetsResponse::Success(
            match found {
                Probe::Local(listing) => ListSnippetsResult::Snippets(Some(listing)),
                Probe::Remote(node) => ListSnippetsResult::CanisterId(node),
                Probe::Absent => ListSnippetsResult::Snippets(None),
            },
        ),
{
    ListSnippetsResponse::Success(
        match found {
            Probe::Local(listing) => ListSnippetsResult::Snippets(Some(listing)),
            Probe::Remote(node) => ListSnippetsResult::CanisterId(node),
            Probe::Absent => ListSnippetsResult::Snippets(None),
        },
    )
}

} // verus!
