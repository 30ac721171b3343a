use candid::Principal;
use ic_snippets::key::SnippetKey;
use ic_snippets::page::{AddSnippetResult, Page, UpdateError};
use ic_snippets::snippet::{Snippet, SnippetInput};

fn alice() -> Principal {
    Principal::from_slice(&[1, 2, 3])
}

fn bob() -> Principal {
    Principal::from_slice(&[1, 2, 4])
}

fn input(id: &str, content: &str) -> SnippetInput {
    SnippetInput { content: content.to_string(), id: id.to_string() }
}

fn key(value: &str) -> SnippetKey {
    SnippetKey { value: value.to_string() }
}

fn added(result: AddSnippetResult) -> String {
    match result {
        AddSnippetResult::Added(key) => key,
        AddSnippetResult::Overflow(_) => panic!("the page split"),
    }
}

fn split(result: AddSnippetResult) -> (Page, String) {
    match result {
        AddSnippetResult::Added(_) => panic!("the page did not split"),
        AddSnippetResult::Overflow(pair) => pair,
    }
}

fn ids(page: &Page) -> Vec<String> {
    page.get_snippets().iter().map(|s| s.id.clone()).collect()
}

fn same(a: &Snippet, content: &str, id: &str, owner: Principal, timestamp: u64) -> bool {
    a.content == content && a.id == id && a.owner == owner && a.timestamp == timestamp
}

#[test]
fn new_page_is_empty() {
    let page = Page::new(4, "initial".to_string());
    assert_eq!(page.id(), "initial");
    assert_eq!(page.max_size(), 4);
    assert!(page.next_page().is_none());
    assert!(page.prev_page().is_none());
    assert!(page.get_snippets().is_empty());
    assert!(page.get_snippet(&key("a_initial")).is_none());
}

#[test]
fn default_page_is_the_initial_page() {
    let page = Page::default();
    assert_eq!(page.id(), "initial");
    assert_eq!(page.max_size(), 10);
    assert!(page.next_page().is_none());
    assert!(page.prev_page().is_none());
    assert!(page.get_snippets().is_empty());
}

#[test]
fn capacity_two_scenario() {
    let mut page = Page::new(2, "initial".to_string());
    assert_eq!(added(page.add_snippet(input("a", "hello"), alice(), 1)), "a_initial");
    assert_eq!(added(page.add_snippet(input("b", "world"), alice(), 2)), "b_initial");
    let (new_page, new_key) = split(page.add_snippet(input("c", "!"), alice(), 3));
    assert_eq!(ids(&page), vec!["a_initial", "b_initial"]);
    assert_eq!(new_key, "c_c");
    assert_eq!(new_page.id(), "c");
    let found = new_page.get_snippet(&key(&new_key)).unwrap();
    assert!(same(found, "!", "c_c", alice(), 3));
    assert_eq!(new_page.get_snippets().len(), 1);
}

#[test]
fn a_page_takes_as_many_snippets_as_its_capacity() {
    let capacity = 5;
    let mut page = Page::new(capacity, "p".to_string());
    for i in 0..capacity {
        let id = format!("s{}", i);
        let got = added(page.add_snippet(input(&id, &format!("text {}", i)), alice(), 10 + i as u64));
        assert_eq!(got, format!("s{}_p", i));
    }
    assert_eq!(page.get_snippets().len(), capacity);
    for i in 0..capacity {
        let id = format!("s{}_p", i);
        let found = page.get_snippet(&key(&id)).unwrap();
        assert!(same(found, &format!("text {}", i), &id, alice(), 10 + i as u64));
    }
    assert!(page.next_page().is_none());
}

#[test]
fn a_full_page_splits_and_keeps_its_snippets() {
    let mut page = Page::new(1, "p".to_string());
    added(page.add_snippet(input("a", "one"), alice(), 7));
    let (new_page, new_key) = split(page.add_snippet(input("b", "two"), bob(), 8));
    assert_eq!(page.get_snippets().len(), 1);
    assert!(same(page.get_snippet(&key("a_p")).unwrap(), "one", "a_p", alice(), 7));
    assert!(page.get_snippet(&key("b_p")).is_none());
    assert!(same(new_page.get_snippet(&key(&new_key)).unwrap(), "two", "b_b", bob(), 8));
}

#[test]
fn a_split_links_the_two_pages() {
    let mut page = Page::new(1, "origin".to_string());
    added(page.add_snippet(input("a", "one"), alice(), 1));
    let (new_page, _) = split(page.add_snippet(input("b", "two"), alice(), 2));
    assert_eq!(new_page.prev_page().as_deref(), Some("origin"));
    assert_eq!(page.next_page().as_deref(), Some("b"));
    assert_eq!(new_page.id(), "b");
    assert!(new_page.next_page().is_none());
    assert!(page.prev_page().is_none());
    assert_eq!(new_page.max_size(), 1);
}

#[test]
fn a_full_page_splits_even_for_a_key_it_holds() {
    let mut page = Page::new(1, "p".to_string());
    added(page.add_snippet(input("a", "one"), alice(), 1));
    let (new_page, new_key) = split(page.add_snippet(input("a", "two"), alice(), 2));
    assert_eq!(new_key, "a_a");
    assert!(same(page.get_snippet(&key("a_p")).unwrap(), "one", "a_p", alice(), 1));
    assert_eq!(new_page.get_snippets().len(), 1);
}

#[test]
fn adding_a_key_again_overwrites() {
    let mut page = Page::new(3, "p".to_string());
    added(page.add_snippet(input("a", "one"), alice(), 1));
    added(page.add_snippet(input("a", "two"), bob(), 2));
    assert_eq!(page.get_snippets().len(), 1);
    assert!(same(page.get_snippet(&key("a_p")).unwrap(), "two", "a_p", bob(), 2));
}

#[test]
fn listing_is_in_key_order() {
    let mut page = Page::new(10, "p".to_string());
    for (i, id) in ["m", "b", "z", "a", "ab", "B", "é"].iter().enumerate() {
        added(page.add_snippet(input(id, "x"), alice(), 100 - i as u64));
    }
    assert_eq!(ids(&page), vec!["B_p", "a_p", "ab_p", "b_p", "m_p", "z_p", "é_p"]);
    let mut sorted = ids(&page);
    sorted.sort();
    assert_eq!(ids(&page), sorted);
}

#[test]
fn get_needs_the_whole_key() {
    let mut page = Page::new(3, "p".to_string());
    added(page.add_snippet(input("a", "one"), alice(), 1));
    assert!(page.get_snippet(&key("a_p")).is_some());
    assert!(page.get_snippet(&key("a")).is_none());
    assert!(page.get_snippet(&key("a_q")).is_none());
    assert!(page.get_snippet(&key("")).is_none());
}

#[test]
fn listing_by_owner_keeps_the_order() {
    let mut page = Page::new(10, "p".to_string());
    added(page.add_snippet(input("c", "3"), alice(), 1));
    added(page.add_snippet(input("a", "1"), bob(), 2));
    added(page.add_snippet(input("b", "2"), alice(), 3));
    added(page.add_snippet(input("d", "4"), bob(), 4));
    let of_alice: Vec<String> = page.get_snippets_by_owner(&alice()).iter().map(|s| s.id.clone()).collect();
    let of_bob: Vec<String> = page.get_snippets_by_owner(&bob()).iter().map(|s| s.id.clone()).collect();
    assert_eq!(of_alice, vec!["b_p", "c_p"]);
    assert_eq!(of_bob, vec!["a_p", "d_p"]);
    assert!(page.get_snippets_by_owner(&Principal::anonymous()).is_empty());
}

#[test]
fn the_owner_updates() {
    let mut page = Page::new(2, "p".to_string());
    added(page.add_snippet(input("a", "one"), alice(), 1));
    let previous = page.update_snippet(input("a", "two"), alice(), 5).unwrap();
    assert!(same(&previous, "one", "a_p", alice(), 1));
    assert!(same(page.get_snippet(&key("a_p")).unwrap(), "two", "a_p", alice(), 5));
    assert_eq!(page.get_snippets().len(), 1);
}

#[test]
fn the_owner_updates_on_a_full_page() {
    let mut page = Page::new(1, "p".to_string());
    added(page.add_snippet(input("a", "one"), alice(), 1));
    assert!(page.update_snippet(input("a", "two"), alice(), 5).is_ok());
    assert!(same(page.get_snippet(&key("a_p")).unwrap(), "two", "a_p", alice(), 5));
    assert!(page.next_page().is_none());
}

#[test]
fn another_caller_is_refused() {
    let mut page = Page::new(2, "p".to_string());
    added(page.add_snippet(input("a", "one"), alice(), 1));
    let refused = page.update_snippet(input("a", "two"), bob(), 5);
    assert!(matches!(refused, Err(UpdateError::AuthError)));
    assert!(same(page.get_snippet(&key("a_p")).unwrap(), "one", "a_p", alice(), 1));
    assert_eq!(page.get_snippets().len(), 1);
}

#[test]
fn an_update_of_a_missing_key_is_refused() {
    let mut page = Page::new(2, "p".to_string());
    added(page.add_snippet(input("a", "one"), alice(), 1));
    let refused = page.update_snippet(input("b", "two"), alice(), 5);
    assert!(matches!(refused, Err(UpdateError::NotFound)));
    assert_eq!(ids(&page), vec!["a_p"]);
    assert!(same(page.get_snippet(&key("a_p")).unwrap(), "one", "a_p", alice(), 1));
}

#[test]
fn remove_takes_the_snippet_out() {
    let mut page = Page::new(3, "p".to_string());
    added(page.add_snippet(input("a", "one"), alice(), 1));
    added(page.add_snippet(input("b", "two"), alice(), 2));
    let taken = page.remove_snippet("a").unwrap();
    assert!(same(&taken, "one", "a_p", alice(), 1));
    assert_eq!(ids(&page), vec!["b_p"]);
    assert!(page.remove_snippet("a").is_none());
    assert!(page.remove_snippet("missing").is_none());
    assert_eq!(ids(&page), vec!["b_p"]);
}

#[test]
fn a_page_has_room_again_after_a_removal() {
    let mut page = Page::new(1, "p".to_string());
    added(page.add_snippet(input("a", "one"), alice(), 1));
    page.remove_snippet("a").unwrap();
    assert_eq!(added(page.add_snippet(input("b", "two"), alice(), 2)), "b_p");
}

#[test]
fn restore_accepts_what_a_page_listed() {
    let mut page = Page::new(3, "p".to_string());
    added(page.add_snippet(input("b", "two"), alice(), 2));
    added(page.add_snippet(input("a", "one"), bob(), 1));
    let stored: Vec<Snippet> = page.get_snippets().into_iter().cloned().collect();
    let back = Page::restore(stored, Some("n".to_string()), None, 3, "p".to_string()).unwrap();
    assert_eq!(ids(&back), vec!["a_p", "b_p"]);
    assert_eq!(back.next_page().as_deref(), Some("n"));
    assert!(back.prev_page().is_none());
    assert_eq!(back.max_size(), 3);
    assert!(same(back.get_snippet(&key("a_p")).unwrap(), "one", "a_p", bob(), 1));
}

#[test]
fn restore_refuses_disorder_and_excess() {
    let snippet = |id: &str| Snippet { content: String::new(), owner: alice(), id: id.to_string(), timestamp: 0 };
    assert!(Page::restore(vec![snippet("b"), snippet("a")], None, None, 5, "p".to_string()).is_none());
    assert!(Page::restore(vec![snippet("a"), snippet("a")], None, None, 5, "p".to_string()).is_none());
    assert!(Page::restore(vec![snippet("a"), snippet("b")], None, None, 1, "p".to_string()).is_none());
    assert!(Page::restore(vec![snippet("a"), snippet("b")], None, None, 2, "p".to_string()).is_some());
    assert!(Page::restore(Vec::new(), None, None, 0, "p".to_string()).is_some());
}

#[test]
fn to_snippet_builds_the_record() {
    let made = input("a", "text").to_snippet(alice(), "p".to_string(), 42);
    assert!(same(&made, "text", "a_p", alice(), 42));
}

#[test]
fn a_snippet_is_cloned_field_by_field() {
    let made = input("a", "text").to_snippet(alice(), "p".to_string(), 42);
    let copy = made.clone();
    assert!(same(&copy, "text", "a_p", alice(), 42));
}

#[test]
fn a_page_is_cloned_with_all_it_holds() {
    let mut page = Page::new(1, "origin".to_string());
    added(page.add_snippet(input("a", "one"), alice(), 1));
    let (new_page, _) = split(page.add_snippet(input("b", "two"), bob(), 2));
    let copy = page.clone();
    assert_eq!(copy.id(), "origin");
    assert_eq!(copy.max_size(), 1);
    assert_eq!(copy.next_page().as_deref(), Some("b"));
    assert!(copy.prev_page().is_none());
    assert_eq!(ids(&copy), vec!["a_origin"]);
    assert!(same(copy.get_snippet(&key("a_origin")).unwrap(), "one", "a_origin", alice(), 1));
    let other = new_page.clone();
    assert_eq!(other.prev_page().as_deref(), Some("origin"));
    assert!(same(other.get_snippet(&key("b_b")).unwrap(), "two", "b_b", bob(), 2));
}

#[test]
fn a_clone_is_a_page_of_its_own() {
    let mut page = Page::new(2, "p".to_string());
    added(page.add_snippet(input("a", "one"), alice(), 1));
    let mut copy = page.clone();
    added(copy.add_snippet(input("b", "two"), alice(), 2));
    assert_eq!(ids(&page), vec!["a_p"]);
    assert_eq!(ids(&copy), vec!["a_p", "b_p"]);
}

#[test]
fn the_timestamp_handed_in_is_the_one_stored() {
    let mut page = Page::new(2, "p".to_string());
    added(page.add_snippet(input("a", "one"), alice(), u64::MAX));
    assert_eq!(page.get_snippet(&key("a_p")).unwrap().timestamp, u64::MAX);
    page.update_snippet(input("a", "two"), alice(), 0).unwrap();
    assert_eq!(page.get_snippet(&key("a_p")).unwrap().timestamp, 0);
}
