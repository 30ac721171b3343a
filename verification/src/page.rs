use vstd::prelude::*;
use vstd::string::*;
use candid::Principal;
use crate::entries::{
    entries_of, has_key, in_order, lemma_adjacent_sorted, lemma_entries_len, lemma_entry_at,
    lemma_in_order, lemma_insert_entries, lemma_remove_entries, lemma_update_entries, place_of,
    sorted,
};
use crate::key::{
    chars_of, chars_precede, encode, lemma_precedes_irreflexive, lemma_precedes_total,
    lemma_precedes_transitive, precedes, SnippetKey,
};
use crate::platform::same_principal;
use crate::snippet::{stamped, Snippet, SnippetInput, SnippetView};

verus! {

/// A bounded collection of snippets, kept in the order of their keys, with the ids of
/// its neighbours in the chain of pages.
pub struct Page {
    snippets: Vec<Snippet>,
    next_page: Option<String>,
    prev_page: Option<String>,
    max_size: usize,
    id: String,
}

/// What a page holds, as plain values.
pub struct PageView {
    pub entries: Map<Seq<char>, SnippetView>,
    pub next_page: Option<Seq<char>>,
    pub prev_page: Option<Seq<char>>,
    pub max_size: usize,
    pub id: Seq<char>,
}

/// The characters of an optional page id.
pub open spec fn text(s: Option<String>) -> Option<Seq<char>> {
    match s {
        Some(t) => Some(t@),
        None => None,
    }
}

impl PageView {
    /// The entries are finitely many, within the capacity, and each stands under the key
    /// that its snippet records.
    pub open spec fn wf(self) -> bool {
        &&& self.entries.dom().finite()
        &&& self.entries.dom().len() <= self.max_size
        &&& forall|k: Seq<char>| #[trigger] self.entries.dom().contains(k) ==> self.entries[k].id == k
    }

    /// The snippets of the page in the order of their keys.
    pub open spec fn listing(self) -> Seq<SnippetView> {
        in_order(self.entries)
    }

    /// The page after a request to add: a full page only learns of its successor.
    pub open spec fn add(
        self,
        content: Seq<char>,
        id: Seq<char>,
        owner: Principal,
        timestamp: u64,
    ) -> PageView {
        if self.is_full() {
            self.linked_to(id)
        } else {
            self.put(content, id, owner, timestamp)
        }
    }

    /// An empty page without neighbours.
    pub open spec fn fresh(max_size: usize, id: Seq<char>) -> PageView {
        PageView { entries: Map::empty(), next_page: None, prev_page: None, max_size, id }
    }

    /// A page that has reached its capacity takes no further snippet.
    pub open spec fn is_full(self) -> bool {
        self.entries.dom().len() >= self.max_size
    }

    /// The key that the page gives to a client's snippet id.
    pub open spec fn key_of(self, id: Seq<char>) -> Seq<char> {
        encode(id, self.id)
    }

    /// The page with the snippet of a request written under its key.
    pub open spec fn put(
        self,
        content: Seq<char>,
        id: Seq<char>,
        owner: Principal,
        timestamp: u64,
    ) -> PageView {
        PageView {
            entries: self.entries.insert(
                self.key_of(id),
                stamped(content, id, owner, self.id, timestamp),
            ),
            ..self
        }
    }

    /// The page that a full page splits off for a request: it is named after the
    /// request's id, holds the request's snippet alone and points back to `self`.
    pub open spec fn overflow_page(
        self,
        content: Seq<char>,
        id: Seq<char>,
        owner: Principal,
        timestamp: u64,
    ) -> PageView {
        PageView {
            prev_page: Some(self.id),
            ..Self::fresh(self.max_size, id).put(content, id, owner, timestamp)
        }
    }

    /// A full page after a split: unchanged but for the id of its new successor.
    pub open spec fn linked_to(self, id: Seq<char>) -> PageView {
        PageView { next_page: Some(id), ..self }
    }
}

impl Clone for Page {
    fn clone(&self) -> (copy: Self)
        ensures
            copy@ == self@,
    {
        proof {
            use_type_invariant(self);
        }
        let mut snippets: Vec<Snippet> = Vec::new();
        let mut i: usize = 0;
        while i < self.snippets.len()
            invariant
                i <= self.snippets.len(),
                views(snippets@) == self.stored().take(i as int),
            decreases self.snippets.len() - i,
        {
            let ghost before = views(snippets@);
            snippets.push(self.snippets[i].clone());
            proof {
                assert(views(snippets@) =~= before.push(self.stored()[i as int]));
                assert(before.push(self.stored()[i as int]) =~= self.stored().take(i as int + 1));
            }
            i = i + 1;
        }
        proof {
            assert(self.stored().take(i as int) =~= self.stored());
        }
        let next_page = match &self.next_page {
            Some(id) => Some(id.clone()),
            None => None,
        };
        let prev_page = match &self.prev_page {
            Some(id) => Some(id.clone()),
            None => None,
        };
        Page { snippets, next_page, prev_page, max_size: self.max_size, id: self.id.clone() }
    }
}

impl Default for Page {
    /// The first page of a node: empty, for ten snippets, under the id `initial`.
    fn default() -> (page: Self)
        ensures
            page@ == PageView::fresh(10, "initial"@),
            page@.wf(),
    {
        Page::new(10, String::from_str("initial"))
    }
}

/// The outcome of adding a snippet: the key it was stored under on this page, or the
/// page that was split off for it together with its key there.
pub enum AddSnippetResult {
    Added(String),
    Overflow((Page, String)),
}

impl View for Page {
    type V = PageView;

    closed spec fn view(&self) -> PageView {
        PageView {
            entries: entries_of(self.stored()),
            next_page: text(self.next_page),
            prev_page: text(self.prev_page),
            max_size: self.max_size,
            id: self.id@,
        }
    }
}

/// Why an update was refused.
#[derive(Debug)]
pub enum UpdateError {
    /// The page holds no snippet under the key of the request.
    NotFound,
    /// The caller is not the owner of the stored snippet.
    AuthError,
}

/// The views of a sequence of borrowed snippets.
pub open spec fn ref_views(s: Seq<&Snippet>) -> Seq<SnippetView> {
    s.map_values(|x: &Snippet| x@)
}

/// The views of a sequence of snippets.
pub open spec fn views(s: Seq<Snippet>) -> Seq<SnippetView> {
    s.map_values(|x: Snippet| x@)
}

impl Page {
    /// The snippets of the page in stored order.
    closed spec fn stored(&self) -> Seq<SnippetView> {
        views(self.snippets@)
    }

    /// The page is in key order and within its capacity.
    #[verifier::type_invariant]
    closed spec fn inv(&self) -> bool {
        &&& sorted(self.stored())
        &&& self.stored().len() <= self.max_size
    }

    /// How adding a request at the time `timestamp` relates the page before and after
    /// to the result: a page below its capacity stores the snippet and answers with its
    /// key; a full page keeps its entries, splits off a page for the snippet, links
    /// the two and answers with the new page and the key there.
    pub open spec fn add_outcome(
        before: PageView,
        content: Seq<char>,
        id: Seq<char>,
        owner: Principal,
        timestamp: u64,
        after: PageView,
        result: AddSnippetResult,
    ) -> bool {
        &&& after == before.add(content, id, owner, timestamp)
        &&& after.wf()
        &&& match result {
            AddSnippetResult::Added(key) => {
                &&& !before.is_full()
                &&& key@ == before.key_of(id)
            },
            AddSnippetResult::Overflow((page, key)) => {
                &&& before.is_full()
                &&& page@ == before.overflow_page(content, id, owner, timestamp)
                &&& page@.wf()
                &&& page@.prev_page == Some(after.id)
                &&& after.next_page == Some(page@.id)
                &&& after.entries == before.entries
                &&& key@ == page@.key_of(id)
            },
        }
    }

    /// How an update at the time `timestamp` relates the page before and after to the
    /// result: the owner's update replaces the snippet and answers with the old one;
    /// any other leaves the page as it was.
    pub open spec fn update_outcome(
        before: Page,
        content: Seq<char>,
        id: Seq<char>,
        caller: Principal,
        timestamp: u64,
        after: Page,
        result: Result<Snippet, UpdateError>,
    ) -> bool {
        let key = before@.key_of(id);
        &&& after@.wf()
        &&& match result {
            Ok(previous) => {
                &&& before@.entries.dom().contains(key)
                &&& before@.entries[key].owner == caller
                &&& previous@ == before@.entries[key]
                &&& after@ == before@.put(content, id, caller, timestamp)
            },
            Err(UpdateError::NotFound) => {
                &&& !before@.entries.dom().contains(key)
                &&& after == before
            },
            Err(UpdateError::AuthError) => {
                &&& before@.entries.dom().contains(key)
                &&& before@.entries[key].owner != caller
                &&& after == before
            },
        }
    }

    /// What the type's invariant means for the view.
    proof fn lemma_view(&self)
        requires
            self.inv(),
        ensures
            self@.wf(),
            self@.entries == entries_of(self.stored()),
            self@.entries.dom().len() == self.stored().len(),
            self@.listing() == self.stored(),
    {
        let l = self.stored();
        lemma_entries_len(l);
        lemma_in_order(l);
        assert forall|k: Seq<char>| #[trigger] self@.entries.dom().contains(k) implies self@.entries[k].id == k by {
            lemma_entry_at(l, place_of(l, k));
        }
    }

    /// An empty page of the given capacity and id.
    pub fn new(max_size: usize, id: String) -> (page: Self)
        ensures
            page@ == PageView::fresh(max_size, id@),
            page@.wf(),
    {
        let page = Self { snippets: Vec::new(), next_page: None, prev_page: None, max_size, id };
        proof {
            assert(page@.entries =~= Map::empty());
            page.lemma_view();
        }
        page
    }

    /// Writes the snippet of a request under its key, over any snippet that has it.
    fn store(&mut self, snippet: SnippetInput, owner: Principal, timestamp: u64) -> (key: String)
        requires
            old(self)@.entries.dom().len() < old(self)@.max_size,
        ensures
            final(self)@ == old(self)@.put(snippet.content@, snippet.id@, owner, timestamp),
            final(self)@.wf(),
            key@ == old(self)@.key_of(snippet.id@),
    {
        proof {
            use_type_invariant(&*self);
            self.lemma_view();
        }
        let record = snippet.to_snippet(owner, self.id.clone(), timestamp);
        let key = record.id.clone();
        let chars = chars_of(key.as_str());
        let mut list: Vec<Snippet> = Vec::new();
        std::mem::swap(&mut list, &mut self.snippets);
        let ghost l = views(list@);
        let ghost v = record@;
        let (p, found) = locate(&list, &chars);
        if found {
            list.remove(p);
            proof {
                lemma_remove_entries(l, p as int);
                assert(views(list@) =~= l.remove(p as int));
            }
        }
        let ghost rest = views(list@);
        list.insert(p, record);
        proof {
            assert(views(list@) =~= rest.insert(p as int, v));
            if found {
                assert(rest.insert(p as int, v) =~= l.update(p as int, v));
                lemma_update_entries(l, p as int, v);
            } else {
                lemma_insert_entries(l, p as int, v);
                lemma_entries_len(l);
            }
        }
        self.snippets = list;
        proof {
            self.lemma_view();
        }
        key
    }

    /// Adds the snippet of a request, written at `timestamp`, which the caller has read
    /// from the platform's clock. A page below its capacity stores it under its key,
    /// over any snippet that has the key. A full page is left with its entries and
    /// splits off a page named after the request's id, which stores the snippet and is
    /// linked to this one in both directions.
    pub fn add_snippet(&mut self, snippet: SnippetInput, owner: Principal, timestamp: u64) -> (r:
        AddSnippetResult)
        requires
            old(self)@.max_size > 0,
        ensures
            Self::add_outcome(
                old(self)@,
                snippet.content@,
                snippet.id@,
                owner,
                timestamp,
                final(self)@,
                r,
            ),
    {
        proof {
            use_type_invariant(&*self);
            self.lemma_view();
        }
        if self.snippets.len() >= self.max_size {
            let mut new_page = Page::new(self.max_size, snippet.id.clone());
            let key = new_page.store(snippet, owner, timestamp);
            proof {
                use_type_invariant(&new_page);
            }
            new_page.prev_page = Some(self.id.clone());
            self.next_page = Some(new_page.id.clone());
            proof {
                new_page.lemma_view();
                self.lemma_view();
            }
            AddSnippetResult::Overflow((new_page, key))
        } else {
            let key = self.store(snippet, owner, timestamp);
            AddSnippetResult::Added(key)
        }
    }

    /// The snippet stored under `id`, if there is one. Anyone may read.
    pub fn get_snippet(&self, id: &SnippetKey) -> (r: Option<&Snippet>)
        ensures
            match r {
                Some(snippet) => self@.entries.dom().contains(id@) && snippet@
                    == self@.entries[id@],
                None => !self@.entries.dom().contains(id@),
            },
    {
        proof {
            use_type_invariant(self);
            self.lemma_view();
        }
        let chars = chars_of(id.value.as_str());
        let (p, found) = locate(&self.snippets, &chars);
        if found {
            proof {
                lemma_entry_at(self.stored(), p as int);
            }
            Some(&self.snippets[p])
        } else {
            None
        }
    }

    /// All snippets of the page, in the order of their keys.
    pub fn get_snippets(&self) -> (r: Vec<&Snippet>)
        ensures
            ref_views(r@) == self@.listing(),
            sorted(ref_views(r@)),
            entries_of(ref_views(r@)) == self@.entries,
    {
        proof {
            use_type_invariant(self);
            self.lemma_view();
        }
        let mut out: Vec<&Snippet> = Vec::new();
        let mut i: usize = 0;
        while i < self.snippets.len()
            invariant
                i <= self.snippets.len(),
                ref_views(out@) == self.stored().take(i as int),
            decreases self.snippets.len() - i,
        {
            let ghost before = ref_views(out@);
            out.push(&self.snippets[i]);
            proof {
                assert(ref_views(out@) =~= before.push(self.stored()[i as int]));
                assert(before.push(self.stored()[i as int]) =~= self.stored().take(i as int + 1));
            }
            i = i + 1;
        }
        proof {
            assert(self.stored().take(i as int) =~= self.stored());
        }
        out
    }

    /// The snippets of the page that `owner` owns, in the order of their keys.
    pub fn get_snippets_by_owner(&self, owner: &Principal) -> (r: Vec<&Snippet>)
        ensures
            ref_views(r@) == self@.listing().filter(|s: SnippetView| s.owner == *owner),
    {
        proof {
            use_type_invariant(self);
            self.lemma_view();
        }
        let ghost owned = |s: SnippetView| s.owner == *owner;
        let mut out: Vec<&Snippet> = Vec::new();
        let mut i: usize = 0;
        proof {
            assert(self.stored().take(0) =~= Seq::empty());
            self.stored().take(0).lemma_filter_len(owned);
            assert(ref_views(out@) =~= self.stored().take(0).filter(owned));
        }
        while i < self.snippets.len()
            invariant
                i <= self.snippets.len(),
                owned == |s: SnippetView| s.owner == *owner,
                ref_views(out@) == self.stored().take(i as int).filter(owned),
            decreases self.snippets.len() - i,
        {
            let ghost before = ref_views(out@);
            proof {
                let head = self.stored().take(i as int);
                let here = self.stored()[i as int];
                assert(self.stored().take(i as int + 1) =~= head.push(here));
                head.lemma_filter_push(here, owned);
            }
            if same_principal(&self.snippets[i].owner, owner) {
                out.push(&self.snippets[i]);
                proof {
                    assert(ref_views(out@) =~= before.push(self.stored()[i as int]));
                }
            }
            i = i + 1;
        }
        proof {
            assert(self.stored().take(i as int) =~= self.stored());
        }
        out
    }

    /// Replaces the snippet of the request's key, for its owner alone, with one written
    /// at `timestamp`, which the caller has read from the platform's clock. The new
    /// snippet belongs to the caller; the one it replaces is returned. Where the key is
    /// absent or the caller is not the owner, the page stays as it is.
    pub fn update_snippet(&mut self, snippet: SnippetInput, caller: Principal, timestamp: u64) -> (r:
        Result<Snippet, UpdateError>)
        ensures
            Self::update_outcome(
                *old(self),
                snippet.content@,
                snippet.id@,
                caller,
                timestamp,
                *final(self),
                r,
            ),
    {
        proof {
            use_type_invariant(&*self);
            self.lemma_view();
        }
        let ghost l = self.stored();
        let record = snippet.to_snippet(caller, self.id.clone(), timestamp);
        let ghost v = record@;
        let chars = chars_of(record.id.as_str());
        let (p, found) = locate(&self.snippets, &chars);
        if !found {
            return Err(UpdateError::NotFound);
        }
        proof {
            lemma_entry_at(l, p as int);
        }
        if !same_principal(&self.snippets[p].owner, &caller) {
            return Err(UpdateError::AuthError);
        }
        let mut list: Vec<Snippet> = Vec::new();
        std::mem::swap(&mut list, &mut self.snippets);
        let previous = list.remove(p);
        list.insert(p, record);
        proof {
            assert(views(list@) =~= l.update(p as int, v));
            lemma_update_entries(l, p as int, v);
        }
        self.snippets = list;
        proof {
            self.lemma_view();
        }
        Ok(previous)
    }

    /// Takes out the snippet that the page holds for the client's id, if there is one.
    pub fn remove_snippet(&mut self, id: &str) -> (r: Option<Snippet>)
        ensures
            final(self)@.wf(),
            final(self)@ == (PageView {
                entries: old(self)@.entries.remove(old(self)@.key_of(id@)),
                ..old(self)@
            }),
            match r {
                Some(snippet) => old(self)@.entries.dom().contains(old(self)@.key_of(id@))
                    && snippet@ == old(self)@.entries[old(self)@.key_of(id@)],
                None => !old(self)@.entries.dom().contains(old(self)@.key_of(id@)),
            },
    {
        proof {
            use_type_invariant(&*self);
            self.lemma_view();
        }
        let ghost l = self.stored();
        let key = SnippetKey::new(String::from_str(id), self.id.clone());
        let chars = chars_of(key.value.as_str());
        let (p, found) = locate(&self.snippets, &chars);
        if !found {
            proof {
                assert(self@.entries.remove(key@) =~= self@.entries);
            }
            return None;
        }
        proof {
            lemma_entry_at(l, p as int);
            lemma_remove_entries(l, p as int);
        }
        let mut list: Vec<Snippet> = Vec::new();
        std::mem::swap(&mut list, &mut self.snippets);
        let taken = list.remove(p);
        proof {
            assert(views(list@) =~= l.remove(p as int));
        }
        self.snippets = list;
        proof {
            self.lemma_view();
        }
        Some(taken)
    }

    /// Rebuilds a page from what was stored of it. The snippets are accepted exactly
    /// when they stand in the order of their keys and are within the capacity.
    pub fn restore(
        snippets: Vec<Snippet>,
        next_page: Option<String>,
        prev_page: Option<String>,
        max_size: usize,
        id: String,
    ) -> (r: Option<Self>)
        ensures
            r is Some <==> sorted(views(snippets@)) && snippets@.len() <= max_size,
            r matches Some(page) ==> page@.wf() && page@ == (PageView {
                entries: entries_of(views(snippets@)),
                next_page: text(next_page),
                prev_page: text(prev_page),
                max_size,
                id: id@,
            }),
    {
        let ghost l = views(snippets@);
        if snippets.len() > max_size {
            return None;
        }
        let mut i: usize = 1;
        while i < snippets.len()
            invariant
                1 <= i,
                l == views(snippets@),
                forall|k: int| #![trigger l[k]] 0 < k < i && k < l.len() ==> precedes(l[k - 1].id, l[k].id),
            decreases snippets.len() - i,
        {
            let left = chars_of(snippets[i - 1].id.as_str());
            let right = chars_of(snippets[i].id.as_str());
            if !chars_precede(&left, &right) {
                proof {
                    assert(!precedes(l[i as int - 1].id, l[i as int].id));
                }
                return None;
            }
            i = i + 1;
        }
        proof {
            lemma_adjacent_sorted(l);
        }
        let page = Self { snippets, next_page, prev_page, max_size, id };
        proof {
            page.lemma_view();
        }
        Some(page)
    }

    /// The id of the page.
    pub fn id(&self) -> (id: &String)
        ensures
            id@ == self@.id,
    {
        &self.id
    }

    /// The capacity of the page.
    pub fn max_size(&self) -> (n: usize)
        ensures
            n == self@.max_size,
    {
        self.max_size
    }

    /// The id of the page that was split off from this one, if any.
    pub fn next_page(&self) -> (id: &Option<String>)
        ensures
            text(*id) == self@.next_page,
    {
        &self.next_page
    }

    /// The id of the page that this one was split off from, if any.
    pub fn prev_page(&self) -> (id: &Option<String>)
        ensures
            text(*id) == self@.prev_page,
    {
        &self.prev_page
    }
}

/// The place of `key` in the order of the page, and whether a snippet has that key.
fn locate(list: &Vec<Snippet>, key: &Vec<char>) -> (r: (usize, bool))
    requires
        sorted(views(list@)),
    ensures
        r.0 <= views(list@).len(),
        forall|i: int| #![trigger views(list@)[i]] 0 <= i < r.0 ==> precedes(views(list@)[i].id, key@),
        r.1 ==> r.0 < views(list@).len() && views(list@)[r.0 as int].id == key@,
        !r.1 ==> forall|i: int| #![trigger views(list@)[i]] r.0 <= i < views(list@).len() ==> precedes(key@, views(list@)[i].id),
        r.1 <==> has_key(views(list@), key@),
{
    let ghost l = views(list@);
    let mut lo: usize = 0;
    let mut hi: usize = list.len();
    while lo < hi
        invariant
            l == views(list@),
            sorted(l),
            lo <= hi <= l.len(),
            l.len() == list.len(),
            forall|i: int| #![trigger l[i]] 0 <= i < lo ==> precedes(l[i].id, key@),
            forall|i: int| #![trigger l[i]] hi <= i < l.len() ==> !precedes(l[i].id, key@),
        decreases hi - lo,
    {
        let mid: usize = lo + (hi - lo) / 2;
        let here = chars_of(list[mid].id.as_str());
        assert(here@ == l[mid as int].id);
        if chars_precede(&here, key) {
            assert forall|i: int| #![trigger l[i]] 0 <= i < mid + 1 implies precedes(l[i].id, key@) by {
                if i < mid {
                    lemma_precedes_transitive(l[i].id, l[mid as int].id, key@);
                }
            }
            lo = mid + 1;
        } else {
            assert forall|i: int| #![trigger l[i]] mid <= i < l.len() implies !precedes(l[i].id, key@) by {
                if i > mid && precedes(l[i].id, key@) {
                    lemma_precedes_transitive(l[mid as int].id, l[i].id, key@);
                }
            }
            hi = mid;
        }
    }
    let mut found = false;
    if lo < list.len() {
        let here = chars_of(list[lo].id.as_str());
        assert(here@ == l[lo as int].id);
        found = !chars_precede(key, &here);
        proof {
            if found {
                lemma_precedes_total(key@, l[lo as int].id);
            } else {
                assert forall|i: int| #![trigger l[i]] lo <= i < l.len() implies precedes(key@, l[i].id) by {
                    if i > lo {
                        lemma_precedes_transitive(key@, l[lo as int].id, l[i].id);
                    }
                }
            }
        }
    }
    proof {
        if has_key(l, key@) {
            let i = place_of(l, key@);
            lemma_precedes_irreflexive(key@);
            if i > lo {
                assert(precedes(l[lo as int].id, l[i].id));
            }
        }
    }
    (lo, found)
}

} // verus!
