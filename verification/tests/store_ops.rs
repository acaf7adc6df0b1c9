use attribution_metadata::attribution::{AttributionEntry, AttributionType};
use attribution_metadata::codec::{encode_all, ItemValue};
use attribution_metadata::service::{
    delete_page_attribution, get_page_attribution, get_site_attribution, update_page_attribution,
};
use attribution_metadata::store::AttributionStore;

fn one_entry(user_name: &str) -> Vec<AttributionEntry> {
    vec![AttributionEntry {
        attribution_type: AttributionType::Author,
        user_name: user_name.to_string(),
        user_id: None,
        date: None,
    }]
}

fn put_page(store: &mut AttributionStore, site: &str, page: &str, user_name: &str) {
    let items = encode_all(&one_entry(user_name)).unwrap();
    update_page_attribution(store, site.to_string(), page.to_string(), items);
}

#[test]
fn get_absent_page_is_none() {
    let store = AttributionStore::new();
    assert_eq!(get_page_attribution(&store, "site", "page"), Ok(None));
}

#[test]
fn put_then_get_round_trips() {
    let mut store = AttributionStore::new();
    put_page(&mut store, "wiki", "scp-001", "Alice");
    let got = get_page_attribution(&store, "wiki", "scp-001").unwrap().unwrap();
    assert_eq!(got.0.len(), 1);
    assert_eq!(got.0[0].user_name, "Alice");
    assert_eq!(get_page_attribution(&store, "wiki", "other"), Ok(None));
    assert_eq!(get_page_attribution(&store, "elsewhere", "scp-001"), Ok(None));
}

#[test]
fn put_replaces_whole_record() {
    let mut store = AttributionStore::new();
    put_page(&mut store, "wiki", "scp-001", "Alice");
    put_page(&mut store, "wiki", "scp-001", "Bob");
    let got = get_page_attribution(&store, "wiki", "scp-001").unwrap().unwrap();
    assert_eq!(got.0.len(), 1);
    assert_eq!(got.0[0].user_name, "Bob");
}

#[test]
fn delete_removes_and_is_idempotent() {
    let mut store = AttributionStore::new();
    put_page(&mut store, "wiki", "scp-001", "Alice");
    delete_page_attribution(&mut store, "wiki", "scp-001");
    assert_eq!(get_page_attribution(&store, "wiki", "scp-001"), Ok(None));
    // deleting a key that is already gone is not an error
    delete_page_attribution(&mut store, "wiki", "scp-001");
    assert_eq!(get_page_attribution(&store, "wiki", "scp-001"), Ok(None));
}

#[test]
fn corrupted_record_is_an_integrity_error() {
    let mut store = AttributionStore::new();
    put_page(&mut store, "wiki", "scp-001", "Alice");
    // a foreign writer stored a number where the user name belongs
    store.records[0].attribution[0].user_name = ItemValue::Num("7".to_string());
    assert!(get_page_attribution(&store, "wiki", "scp-001").is_err());
    assert!(get_site_attribution(&store, "wiki").is_err());
}

#[test]
fn list_empty_site_is_empty() {
    let store = AttributionStore::new();
    assert_eq!(get_site_attribution(&store, "wiki").unwrap().len(), 0);
}

#[test]
fn list_site_skips_other_sites() {
    let mut store = AttributionStore::new();
    put_page(&mut store, "wiki", "a", "Alice");
    put_page(&mut store, "other", "b", "Bob");
    put_page(&mut store, "wiki", "c", "Carol");
    let listing = get_site_attribution(&store, "wiki").unwrap();
    let slugs: Vec<String> = listing.iter().map(|f| f.page_slug.clone()).collect();
    assert_eq!(slugs, vec!["a", "c"]);
}

#[test]
fn list_site_crosses_scan_pages() {
    // 2500 pages force at least three backend scans at the cap of 1000
    let mut store = AttributionStore::new();
    let mut expected: Vec<String> = Vec::new();
    for i in 0..2500u32 {
        let page = format!("page-{i:04}");
        put_page(&mut store, "big", &page, "Author");
        expected.push(page);
    }
    // and a record of another site interleaved at the end
    put_page(&mut store, "small", "lonely", "Bob");

    let listing = get_site_attribution(&store, "big").unwrap();
    assert_eq!(listing.len(), 2500);

    let mut slugs: Vec<String> = listing.iter().map(|f| f.page_slug.clone()).collect();
    // store order equals insertion order here, so no reordering is expected
    assert_eq!(slugs, expected);
    // and there are no duplicates and no omissions
    slugs.sort();
    slugs.dedup();
    assert_eq!(slugs.len(), 2500);
}

#[test]
fn query_page_paginates_with_tokens() {
    let mut store = AttributionStore::new();
    for i in 0..5u32 {
        put_page(&mut store, "wiki", &format!("p{i}"), "Alice");
    }
    let (batch, next) = store.query_page("wiki", 0, 2);
    assert_eq!(batch.len(), 2);
    let next = next.expect("a continuation token after a capped scan");
    let (batch2, next2) = store.query_page("wiki", next, 2);
    assert_eq!(batch2.len(), 2);
    let next2 = next2.expect("a continuation token after a capped scan");
    let (batch3, next3) = store.query_page("wiki", next2, 2);
    assert_eq!(batch3.len(), 1);
    assert_eq!(next3, None);
}
