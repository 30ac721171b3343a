use vstd::prelude::*;
use candid::Principal;
use crate::entries::{entries_of, lemma_in_order};
use crate::key::{encode, lemma_encode_injective};
use crate::page::PageView;
use crate::snippet::{stamped, SnippetView};

verus! {

/// A request to add, as plain values, with its owner and the time it is made.
pub struct Request {
    pub content: Seq<char>,
    pub id: Seq<char>,
    pub owner: Principal,
    pub timestamp: u64,
}

impl Request {
    /// The snippet that the request becomes on the page `page_id`.
    pub open spec fn snippet(self, page_id: Seq<char>) -> SnippetView {
        stamped(self.content, self.id, self.owner, page_id, self.timestamp)
    }
}

/// The page after the requests were added to it one after the other.
pub open spec fn add_all(page: PageView, requests: Seq<Request>) -> PageView
    decreases requests.len(),
{
    if requests.len() == 0 {
        page
    } else {
        let last = requests.last();
        add_all(page, requests.drop_last()).add(last.content, last.id, last.owner, last.timestamp)
    }
}

/// No two of the requests have the same id.
pub open spec fn distinct_ids(requests: Seq<Request>) -> bool {
    forall|i: int, j: int|
        #![trigger requests[i], requests[j]]
        0 <= i < j < requests.len() ==> requests[i].id != requests[j].id
}

/// Requests with different ids, no more of them than the capacity, all find room on
/// an empty page: none splits it, the page then holds as many entries as there were
/// requests, and each request's snippet stands unchanged under its key. The page is
/// full exactly when the requests were as many as the capacity.
pub proof fn lemma_adds_within_capacity(max_size: usize, id: Seq<char>, requests: Seq<Request>)
    requires
        requests.len() <= max_size,
        distinct_ids(requests),
    ensures
        ({
            let after = add_all(PageView::fresh(max_size, id), requests);
            &&& after.wf()
            &&& after == PageView { entries: after.entries, ..PageView::fresh(max_size, id) }
            &&& after.entries.dom().len() == requests.len()
            &&& after.is_full() <==> requests.len() == max_size
            &&& forall|k: Seq<char>|
                after.entries.dom().contains(k) <==> exists|i: int|
                    #![trigger requests[i]]
                    0 <= i < requests.len() && k == encode(requests[i].id, id)
            &&& forall|i: int|
                #![trigger requests[i]]
                0 <= i < requests.len() ==> after.entries[encode(requests[i].id, id)]
                    == requests[i].snippet(id)
        }),
    decreases requests.len(),
{
    let fresh = PageView::fresh(max_size, id);
    if requests.len() > 0 {
        let init = requests.drop_last();
        let last = requests.last();
        assert(distinct_ids(init)) by {
            assert forall|i: int, j: int| #![trigger init[i], init[j]] 0 <= i < j < init.len() implies init[i].id
                != init[j].id by {
                assert(init[i] == requests[i] && init[j] == requests[j]);
            }
        }
        lemma_adds_within_capacity(max_size, id, init);
        let before = add_all(fresh, init);
        let after = add_all(fresh, requests);
        let key = encode(last.id, id);
        assert(!before.is_full());
        assert(after == before.put(last.content, last.id, last.owner, last.timestamp));
        assert(!before.entries.dom().contains(key)) by {
            if before.entries.dom().contains(key) {
                let i = choose|i: int| #![trigger init[i]] 0 <= i < init.len() && key == encode(init[i].id, id);
                assert(init[i] == requests[i]);
                lemma_encode_injective(requests[i].id, last.id, id);
                assert(requests[requests.len() - 1] == last);
            }
        }
        assert forall|k: Seq<char>| after.entries.dom().contains(k) <==> exists|i: int|
            #![trigger requests[i]]
            0 <= i < requests.len() && k == encode(requests[i].id, id) by {
            if after.entries.dom().contains(k) {
                if k == key {
                    assert(requests[requests.len() - 1] == last);
                } else {
                    let i = choose|i: int| #![trigger init[i]] 0 <= i < init.len() && k == encode(init[i].id, id);
                    assert(init[i] == requests[i]);
                }
            }
            if exists|i: int| #![trigger requests[i]] 0 <= i < requests.len() && k == encode(requests[i].id, id) {
                let i = choose|i: int| #![trigger requests[i]] 0 <= i < requests.len() && k == encode(requests[i].id, id);
                if i < init.len() {
                    assert(init[i] == requests[i]);
                }
            }
        }
        assert forall|i: int| #![trigger requests[i]] 0 <= i < requests.len() implies after.entries[encode(
            requests[i].id,
            id,
        )] == requests[i].snippet(id) by {
            if i < init.len() {
                assert(init[i] == requests[i]);
            }
        }
    }
}

/// A request to a full page never changes what the page holds: the page only learns
/// of its successor, and the page split off holds the request's snippet, alone, under
/// its key there. The two pages point at each other.
pub proof fn lemma_add_to_full_page(page: PageView, request: Request)
    requires
        page.wf(),
        page.is_full(),
        page.max_size > 0,
    ensures
        ({
            let after = page.add(request.content, request.id, request.owner, request.timestamp);
            let split = page.overflow_page(
                request.content,
                request.id,
                request.owner,
                request.timestamp,
            );
            let key = encode(request.id, request.id);
            &&& after == PageView { next_page: Some(request.id), ..page }
            &&& split.wf()
            &&& split.entries == Map::<Seq<char>, SnippetView>::empty().insert(
                key,
                request.snippet(request.id),
            )
            &&& split.entries.dom().len() == 1
            &&& split.id == request.id
            &&& split.max_size == page.max_size
            &&& split.prev_page == Some(after.id)
            &&& after.next_page == Some(split.id)
            &&& split.next_page is None
        }),
{
}

/// A page that was just made lists no snippet and has no neighbour.
pub proof fn lemma_fresh_page_is_empty(max_size: usize, id: Seq<char>)
    ensures
        PageView::fresh(max_size, id).wf(),
        PageView::fresh(max_size, id).listing() == Seq::<SnippetView>::empty(),
        PageView::fresh(max_size, id).next_page is None,
        PageView::fresh(max_size, id).prev_page is None,
{
    let none = Seq::<SnippetView>::empty();
    assert(entries_of(none) =~= Map::empty());
    lemma_in_order(none);
}

} // verus!
