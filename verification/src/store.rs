//! An in-memory model of the durable key-value collaborator for page
//! attribution records: items addressed by the composite key
//! `(site_slug, page_slug)`, with point get, full replace, idempotent
//! delete, and a bounded scan continued by an opaque token.

use vstd::prelude::*;
use crate::codec::{items_view, EntryItem, EntryItemView, ItemValue};
use crate::text::str_eq;

verus! {

/// One stored page record: the composite key and the attribution
/// attribute, a list of schema-less entry items.
#[derive(Debug, Clone, PartialEq)]
pub struct PageRecord {
    pub site_slug: String,
    pub page_slug: String,
    pub attribution: Vec<EntryItem>,
}

/// The mathematical value of one stored page record.
pub struct PageRecordView {
    pub site_slug: Seq<char>,
    pub page_slug: Seq<char>,
    pub attribution: Seq<EntryItemView>,
}

impl View for PageRecord {
    type V = PageRecordView;

    open spec fn view(&self) -> PageRecordView {
        PageRecordView {
            site_slug: self.site_slug@,
            page_slug: self.page_slug@,
            attribution: items_view(self.attribution@),
        }
    }
}

/// The view of a sequence of page records.
pub open spec fn records_view(s: Seq<PageRecord>) -> Seq<PageRecordView> {
    s.map_values(|r: PageRecord| r@)
}

/// Whether a record carries the given composite key.
pub open spec fn has_key(r: PageRecordView, site: Seq<char>, page: Seq<char>) -> bool {
    r.site_slug == site && r.page_slug == page
}

/// The attribution attribute stored under a composite key, if any.
pub open spec fn spec_lookup(
    s: Seq<PageRecordView>,
    site: Seq<char>,
    page: Seq<char>,
) -> Option<Seq<EntryItemView>>
    decreases s.len(),
{
    if s.len() == 0 {
        None
    } else if has_key(s[0], site, page) {
        Some(s[0].attribution)
    } else {
        spec_lookup(s.skip(1), site, page)
    }
}

/// Full-replace write: the first record under the same key is
/// replaced in place; a fresh key is appended at the end.
pub open spec fn spec_put(s: Seq<PageRecordView>, rec: PageRecordView) -> Seq<PageRecordView>
    decreases s.len(),
{
    if s.len() == 0 {
        seq![rec]
    } else if has_key(s[0], rec.site_slug, rec.page_slug) {
        seq![rec] + s.skip(1)
    } else {
        seq![s[0]] + spec_put(s.skip(1), rec)
    }
}

/// Unconditional removal: the first record under the key disappears;
/// a missing key leaves the sequence unchanged.
pub open spec fn spec_delete(
    s: Seq<PageRecordView>,
    site: Seq<char>,
    page: Seq<char>,
) -> Seq<PageRecordView>
    decreases s.len(),
{
    if s.len() == 0 {
        s
    } else if has_key(s[0], site, page) {
        s.skip(1)
    } else {
        seq![s[0]] + spec_delete(s.skip(1), site, page)
    }
}

/// The records of one site, in store order.
pub open spec fn spec_site_records(s: Seq<PageRecordView>, site: Seq<char>) -> Seq<PageRecordView>
    decreases s.len(),
{
    if s.len() == 0 {
        s
    } else {
        let rest = spec_site_records(s.skip(1), site);
        if s[0].site_slug == site {
            seq![s[0]] + rest
        } else {
            rest
        }
    }
}

/// Composite keys are unique: no two records share one.
pub open spec fn unique_keys(s: Seq<PageRecordView>) -> bool {
    forall|i: int, j: int|
        0 <= i < j < s.len() ==> !has_key(#[trigger] s[j], (#[trigger] s[i]).site_slug, s[i].page_slug)
}

/// Reading a key back after a write finds exactly the written value;
/// every other key is untouched.
pub proof fn lemma_lookup_put(
    s: Seq<PageRecordView>,
    rec: PageRecordView,
    site: Seq<char>,
    page: Seq<char>,
)
    ensures
        spec_lookup(spec_put(s, rec), site, page) == (if rec.site_slug == site && rec.page_slug
            == page {
            Some(rec.attribution)
        } else {
            spec_lookup(s, site, page)
        }),
    decreases s.len(),
{
    if s.len() == 0 {
        assert(spec_put(s, rec) =~= seq![rec]);
        assert(spec_put(s, rec).skip(1) =~= s);
    } else if has_key(s[0], rec.site_slug, rec.page_slug) {
        assert(spec_put(s, rec)[0] == rec);
        assert(spec_put(s, rec).skip(1) =~= s.skip(1));
    } else {
        lemma_lookup_put(s.skip(1), rec, site, page);
        assert(spec_put(s, rec)[0] == s[0]);
        assert(spec_put(s, rec).skip(1) =~= spec_put(s.skip(1), rec));
    }
}

/// Reading a key back after its removal finds nothing, when keys are
/// unique; every other key is untouched regardless.
pub proof fn lemma_lookup_delete(
    s: Seq<PageRecordView>,
    site: Seq<char>,
    page: Seq<char>,
    site2: Seq<char>,
    page2: Seq<char>,
)
    ensures
        (site2 == site && page2 == page && unique_keys(s)) ==> spec_lookup(
            spec_delete(s, site, page),
            site2,
            page2,
        ) is None,
        !(site2 == site && page2 == page) ==> spec_lookup(spec_delete(s, site, page), site2, page2)
            == spec_lookup(s, site2, page2),
    decreases s.len(),
{
    if s.len() == 0 {
    } else if has_key(s[0], site, page) {
        if site2 == site && page2 == page && unique_keys(s) {
            lemma_lookup_absent_when_unique(s.skip(1), site, page, s[0]);
        }
    } else {
        if unique_keys(s) {
            assert forall|i: int, j: int|
                0 <= i < j < s.skip(1).len() implies !has_key(
                #[trigger] s.skip(1)[j],
                (#[trigger] s.skip(1)[i]).site_slug,
                s.skip(1)[i].page_slug,
            ) by {
                assert(s.skip(1)[j] == s[j + 1]);
                assert(s.skip(1)[i] == s[i + 1]);
            }
        }
        lemma_lookup_delete(s.skip(1), site, page, site2, page2);
        assert(spec_delete(s, site, page)[0] == s[0]);
        assert(spec_delete(s, site, page).skip(1) =~= spec_delete(s.skip(1), site, page));
    }
}

/// Under unique keys, no record after the first holder of a key holds
/// that key again.
proof fn lemma_lookup_absent_when_unique(
    s: Seq<PageRecordView>,
    site: Seq<char>,
    page: Seq<char>,
    head: PageRecordView,
)
    requires
        has_key(head, site, page),
        unique_keys(seq![head] + s),
    ensures
        spec_lookup(s, site, page) is None,
    decreases s.len(),
{
    let whole = seq![head] + s;
    if s.len() > 0 {
        assert(whole[0] == head);
        assert(whole[1] == s[0]);
        assert(!has_key(s[0], site, page));
        assert forall|i: int, j: int|
            0 <= i < j < (seq![head] + s.skip(1)).len() implies !has_key(
            #[trigger] (seq![head] + s.skip(1))[j],
            (#[trigger] (seq![head] + s.skip(1))[i]).site_slug,
            (seq![head] + s.skip(1))[i].page_slug,
        ) by {
            let t = seq![head] + s.skip(1);
            if i == 0 {
                assert(t[j] == s[j]);
                assert(whole[j + 1] == s[j]);
            } else {
                assert(t[i] == s[i]);
                assert(t[j] == s[j]);
                assert(whole[i + 1] == s[i]);
                assert(whole[j + 1] == s[j]);
            }
        }
        lemma_lookup_absent_when_unique(s.skip(1), site, page, head);
    }
}

/// The attribution store: the collaborator's table of page records.
#[derive(Debug)]
pub struct AttributionStore {
    pub records: Vec<PageRecord>,
}

impl View for AttributionStore {
    type V = Seq<PageRecordView>;

    open spec fn view(&self) -> Seq<PageRecordView> {
        records_view(self.records@)
    }
}

/// Duplicates one stored attribute.
fn clone_item_value(v: &ItemValue) -> (r: ItemValue)
    ensures
        r@ == v@,
{
    match v {
        ItemValue::Str(s) => ItemValue::Str(s.clone()),
        ItemValue::Num(s) => ItemValue::Num(s.clone()),
        ItemValue::Null => ItemValue::Null,
    }
}

/// Duplicates one stored entry item.
fn clone_entry_item(i: &EntryItem) -> (r: EntryItem)
    ensures
        r@ == i@,
{
    EntryItem {
        entry_type: clone_item_value(&i.entry_type),
        user_name: clone_item_value(&i.user_name),
        user_id: clone_item_value(&i.user_id),
        date: clone_item_value(&i.date),
    }
}

/// Duplicates a stored attribute list.
pub fn clone_items(v: &Vec<EntryItem>) -> (r: Vec<EntryItem>)
    ensures
        items_view(r@) == items_view(v@),
{
    let mut out: Vec<EntryItem> = Vec::new();
    let mut i: usize = 0;
    while i < v.len()
        invariant
            0 <= i <= v@.len(),
            out@.len() == i,
            forall|m: int| 0 <= m < i ==> (#[trigger] out@[m])@ == v@[m]@,
        decreases v@.len() - i,
    {
        out.push(clone_entry_item(&v[i]));
        i = i + 1;
    }
    proof {
        assert forall|m: int| 0 <= m < v@.len() implies items_view(out@)[m] == items_view(
            v@,
        )[m] by {
            assert(items_view(out@)[m] == out@[m]@);
            assert(items_view(v@)[m] == v@[m]@);
        }
        assert(items_view(out@) =~= items_view(v@));
    }
    out
}

impl AttributionStore {
    /// An empty table.
    pub fn new() -> (r: AttributionStore)
        ensures
            r@ =~= Seq::<PageRecordView>::empty(),
    {
        AttributionStore { records: Vec::new() }
    }

    /// Point lookup by composite key; absence is a result, not an
    /// error.
    pub fn get_item(&self, site: &str, page: &str) -> (r: Option<&Vec<EntryItem>>)
        ensures
            match r {
                Some(items) => spec_lookup(self@, site@, page@) == Some(items_view(items@)),
                None => spec_lookup(self@, site@, page@) is None,
            },
    {
        let mut k: usize = 0;
        proof {
            assert(self@.skip(0) =~= self@);
        }
        while k < self.records.len()
            invariant
                0 <= k <= self.records@.len(),
                self@.len() == self.records@.len(),
                spec_lookup(self@, site@, page@) == spec_lookup(
                    self@.skip(k as int),
                    site@,
                    page@,
                ),
                forall|m: int| 0 <= m < self.records@.len() ==> self@[m] == (
                #[trigger] self.records@[m])@,
            decreases self.records@.len() - k,
        {
            let rec = &self.records[k];
            if str_eq(rec.site_slug.as_str(), site) && str_eq(rec.page_slug.as_str(), page) {
                proof {
                    assert(self@.skip(k as int)[0] == self@[k as int]);
                    assert(has_key(self@[k as int], site@, page@));
                }
                return Some(&rec.attribution);
            }
            proof {
                assert(self@.skip(k as int)[0] == self@[k as int]);
                assert(!has_key(self@[k as int], site@, page@));
                assert(self@.skip(k as int).skip(1) =~= self@.skip(k as int + 1));
            }
            k = k + 1;
        }
        proof {
            assert(self@.skip(k as int).len() == 0);
        }
        None
    }

    /// Full-replace write of the attribution attribute under a
    /// composite key; creates the record when the key is fresh.
    pub fn put_item(&mut self, site: String, page: String, attribution: Vec<EntryItem>)
        ensures
            final(self)@ == spec_put(
                old(self)@,
                PageRecordView {
                    site_slug: site@,
                    page_slug: page@,
                    attribution: items_view(attribution@),
                },
            ),
    {
        let ghost rec_v = PageRecordView {
            site_slug: site@,
            page_slug: page@,
            attribution: items_view(attribution@),
        };
        let mut k: usize = 0;
        proof {
            assert(old(self)@.skip(0) =~= old(self)@);
        }
        while k < self.records.len()
            invariant
                0 <= k <= self.records@.len(),
                self@ == old(self)@,
                self@.len() == self.records@.len(),
                rec_v == (PageRecordView {
                    site_slug: site@,
                    page_slug: page@,
                    attribution: items_view(attribution@),
                }),
                forall|m: int| 0 <= m < k ==> !has_key(#[trigger] self@[m], site@, page@),
                forall|m: int| 0 <= m < self.records@.len() ==> self@[m] == (
                #[trigger] self.records@[m])@,
            decreases self.records@.len() - k,
        {
            let matches_key = {
                let rec = &self.records[k];
                str_eq(rec.site_slug.as_str(), site.as_str()) && str_eq(
                    rec.page_slug.as_str(),
                    page.as_str(),
                )
            };
            if matches_key {
                let ghost pre = self.records@;
                self.records[k] = PageRecord { site_slug: site, page_slug: page, attribution };
                proof {
                    assert forall|m: int|
                        0 <= m < self@.len() implies self@[m] == old(self)@.update(
                        k as int,
                        rec_v,
                    )[m] by {
                        assert(self@[m] == self.records@[m]@);
                        if m != k {
                            assert(self.records@[m] == pre[m]);
                        }
                    }
                    assert(self@ =~= old(self)@.update(k as int, rec_v));
                    lemma_put_update(old(self)@, rec_v, k as int);
                }
                return ;
            }
            proof {
                assert(!has_key(self@[k as int], site@, page@));
            }
            k = k + 1;
        }
        let ghost pre = self.records@;
        self.records.push(PageRecord { site_slug: site, page_slug: page, attribution });
        proof {
            assert forall|m: int|
                0 <= m < self@.len() implies self@[m] == old(self)@.push(rec_v)[m] by {
                assert(self@[m] == self.records@[m]@);
                if m < pre.len() {
                    assert(self.records@[m] == pre[m]);
                }
            }
            assert(self@ =~= old(self)@.push(rec_v));
            lemma_put_append(old(self)@, rec_v);
        }
    }

    /// Unconditional removal of a composite key; removing a missing
    /// key changes nothing.
    pub fn delete_item(&mut self, site: &str, page: &str)
        ensures
            final(self)@ == spec_delete(old(self)@, site@, page@),
    {
        let mut k: usize = 0;
        while k < self.records.len()
            invariant
                0 <= k <= self.records@.len(),
                self@ == old(self)@,
                self@.len() == self.records@.len(),
                forall|m: int| 0 <= m < k ==> !has_key(#[trigger] self@[m], site@, page@),
                forall|m: int| 0 <= m < self.records@.len() ==> self@[m] == (
                #[trigger] self.records@[m])@,
            decreases self.records@.len() - k,
        {
            let matches_key = {
                let rec = &self.records[k];
                str_eq(rec.site_slug.as_str(), site) && str_eq(rec.page_slug.as_str(), page)
            };
            if matches_key {
                let ghost pre = self.records@;
                self.records.remove(k);
                proof {
                    pre.remove_ensures(k as int);
                    assert forall|m: int|
                        0 <= m < self@.len() implies self@[m] == old(self)@.remove(k as int)[m] by {
                        assert(self@[m] == self.records@[m]@);
                        old(self)@.remove_ensures(k as int);
                        if m < k {
                            assert(self.records@[m] == pre[m]);
                        } else {
                            assert(self.records@[m] == pre[m + 1]);
                        }
                    }
                    assert(self@ =~= old(self)@.remove(k as int));
                    lemma_delete_remove(old(self)@, site@, page@, k as int);
                }
                return ;
            }
            proof {
                assert(!has_key(self@[k as int], site@, page@));
            }
            k = k + 1;
        }
        proof {
            lemma_delete_missing(old(self)@, site@, page@);
        }
    }
}

/// Every record of a written table is the written record or a record
/// of the table before.
proof fn lemma_put_members(s: Seq<PageRecordView>, rec: PageRecordView)
    ensures
        forall|x: PageRecordView|
            #[trigger] spec_put(s, rec).contains(x) ==> x == rec || s.contains(x),
    decreases s.len(),
{
    let r = spec_put(s, rec);
    if s.len() == 0 {
        assert forall|x: PageRecordView| #[trigger] r.contains(x) implies x == rec || s.contains(
            x,
        ) by {
            assert(r[0] == rec);
        }
    } else if has_key(s[0], rec.site_slug, rec.page_slug) {
        assert forall|x: PageRecordView| #[trigger] r.contains(x) implies x == rec || s.contains(
            x,
        ) by {
            let w = choose|w: int| 0 <= w < r.len() && r[w] == x;
            if w > 0 {
                assert(s[w] == x);
            }
        }
    } else {
        lemma_put_members(s.skip(1), rec);
        assert forall|x: PageRecordView| #[trigger] r.contains(x) implies x == rec || s.contains(
            x,
        ) by {
            let w = choose|w: int| 0 <= w < r.len() && r[w] == x;
            if w == 0 {
                assert(s[0] == x);
            } else {
                assert(spec_put(s.skip(1), rec).contains(x));
                if s.skip(1).contains(x) {
                    let v = choose|v: int| 0 <= v < s.skip(1).len() && s.skip(1)[v] == x;
                    assert(s[v + 1] == x);
                }
            }
        }
    }
}

/// A write keeps composite keys unique, replacing in place where the
/// key exists and appending only a fresh key.
pub proof fn lemma_put_preserves_unique_keys(s: Seq<PageRecordView>, rec: PageRecordView)
    requires
        unique_keys(s),
    ensures
        unique_keys(spec_put(s, rec)),
    decreases s.len(),
{
    let r = spec_put(s, rec);
    if s.len() == 0 {
        assert(unique_keys(r));
    } else if has_key(s[0], rec.site_slug, rec.page_slug) {
        assert forall|i: int, j: int|
            0 <= i < j < r.len() implies !has_key(
            #[trigger] r[j],
            (#[trigger] r[i]).site_slug,
            r[i].page_slug,
        ) by {
            assert(r[j] == s[j]);
            if i == 0 {
                assert(!has_key(s[j], s[0].site_slug, s[0].page_slug));
            } else {
                assert(r[i] == s[i]);
            }
        }
    } else {
        assert forall|i: int, j: int|
            0 <= i < j < s.skip(1).len() implies !has_key(
            #[trigger] s.skip(1)[j],
            (#[trigger] s.skip(1)[i]).site_slug,
            s.skip(1)[i].page_slug,
        ) by {
            assert(s.skip(1)[j] == s[j + 1]);
            assert(s.skip(1)[i] == s[i + 1]);
        }
        lemma_put_preserves_unique_keys(s.skip(1), rec);
        lemma_put_members(s.skip(1), rec);
        let t = spec_put(s.skip(1), rec);
        assert forall|i: int, j: int|
            0 <= i < j < r.len() implies !has_key(
            #[trigger] r[j],
            (#[trigger] r[i]).site_slug,
            r[i].page_slug,
        ) by {
            if i == 0 {
                assert(r[0] == s[0]);
                assert(r[j] == t[j - 1]);
                assert(t.contains(t[j - 1]));
                if s.skip(1).contains(t[j - 1]) {
                    let v = choose|v: int| 0 <= v < s.skip(1).len() && s.skip(1)[v] == t[j - 1];
                    assert(s[v + 1] == t[j - 1]);
                    assert(!has_key(s[v + 1], s[0].site_slug, s[0].page_slug));
                } else {
                    assert(t[j - 1] == rec);
                }
            } else {
                assert(r[i] == t[i - 1]);
                assert(r[j] == t[j - 1]);
            }
        }
    }
}

/// A removal keeps composite keys unique: what remains is a
/// subsequence of the table before.
pub proof fn lemma_delete_preserves_unique_keys(
    s: Seq<PageRecordView>,
    site: Seq<char>,
    page: Seq<char>,
)
    requires
        unique_keys(s),
    ensures
        unique_keys(spec_delete(s, site, page)),
    decreases s.len(),
{
    let r = spec_delete(s, site, page);
    if s.len() == 0 {
    } else if has_key(s[0], site, page) {
        assert forall|i: int, j: int|
            0 <= i < j < r.len() implies !has_key(
            #[trigger] r[j],
            (#[trigger] r[i]).site_slug,
            r[i].page_slug,
        ) by {
            assert(r[i] == s[i + 1]);
            assert(r[j] == s[j + 1]);
        }
    } else {
        assert forall|i: int, j: int|
            0 <= i < j < s.skip(1).len() implies !has_key(
            #[trigger] s.skip(1)[j],
            (#[trigger] s.skip(1)[i]).site_slug,
            s.skip(1)[i].page_slug,
        ) by {
            assert(s.skip(1)[j] == s[j + 1]);
            assert(s.skip(1)[i] == s[i + 1]);
        }
        lemma_delete_preserves_unique_keys(s.skip(1), site, page);
        lemma_delete_members(s.skip(1), site, page);
        let t = spec_delete(s.skip(1), site, page);
        assert forall|i: int, j: int|
            0 <= i < j < r.len() implies !has_key(
            #[trigger] r[j],
            (#[trigger] r[i]).site_slug,
            r[i].page_slug,
        ) by {
            if i == 0 {
                assert(r[0] == s[0]);
                assert(r[j] == t[j - 1]);
                assert(t.contains(t[j - 1]));
                assert(s.skip(1).contains(t[j - 1]));
                let v = choose|v: int| 0 <= v < s.skip(1).len() && s.skip(1)[v] == t[j - 1];
                assert(s[v + 1] == t[j - 1]);
                assert(!has_key(s[v + 1], s[0].site_slug, s[0].page_slug));
            } else {
                assert(r[i] == t[i - 1]);
                assert(r[j] == t[j - 1]);
            }
        }
    }
}

/// Every record remaining after a removal is a record of the table
/// before.
proof fn lemma_delete_members(s: Seq<PageRecordView>, site: Seq<char>, page: Seq<char>)
    ensures
        forall|x: PageRecordView|
            #[trigger] spec_delete(s, site, page).contains(x) ==> s.contains(x),
    decreases s.len(),
{
    let r = spec_delete(s, site, page);
    if s.len() == 0 {
    } else if has_key(s[0], site, page) {
        assert forall|x: PageRecordView| #[trigger] r.contains(x) implies s.contains(x) by {
            let w = choose|w: int| 0 <= w < r.len() && r[w] == x;
            assert(s[w + 1] == x);
        }
    } else {
        lemma_delete_members(s.skip(1), site, page);
        assert forall|x: PageRecordView| #[trigger] r.contains(x) implies s.contains(x) by {
            let w = choose|w: int| 0 <= w < r.len() && r[w] == x;
            if w == 0 {
                assert(s[0] == x);
            } else {
                assert(spec_delete(s.skip(1), site, page).contains(x));
                let v = choose|v: int|
                    0 <= v < s.skip(1).len() && s.skip(1)[v] == x;
                assert(s[v + 1] == x);
            }
        }
    }
}

/// Appending a record extends its site's scan by that record and
/// leaves other sites' scans unchanged.
pub proof fn lemma_site_records_push(s: Seq<PageRecordView>, r: PageRecordView, site: Seq<char>)
    ensures
        spec_site_records(s.push(r), site) == (if r.site_slug == site {
            spec_site_records(s, site).push(r)
        } else {
            spec_site_records(s, site)
        }),
    decreases s.len(),
{
    if s.len() == 0 {
        assert(s.push(r)[0] == r);
        assert(s.push(r).skip(1) =~= s);
        if r.site_slug == site {
            assert(seq![r] + spec_site_records(s, site) =~= spec_site_records(s, site).push(r));
        }
    } else {
        assert(s.push(r)[0] == s[0]);
        assert(s.push(r).skip(1) =~= s.skip(1).push(r));
        lemma_site_records_push(s.skip(1), r, site);
        if r.site_slug == site {
            if s[0].site_slug == site {
                assert(seq![s[0]] + spec_site_records(s.skip(1), site).push(r)
                    =~= (seq![s[0]] + spec_site_records(s.skip(1), site)).push(r));
            }
        }
    }
}

/// A scan of two stretches of the table, one after the other, sees
/// the same site records as one scan of the whole.
pub proof fn lemma_site_records_concat(
    a: Seq<PageRecordView>,
    b: Seq<PageRecordView>,
    site: Seq<char>,
)
    ensures
        spec_site_records(a + b, site) == spec_site_records(a, site) + spec_site_records(b, site),
    decreases a.len(),
{
    if a.len() == 0 {
        assert(a + b =~= b);
        assert(spec_site_records(a, site) + spec_site_records(b, site) =~= spec_site_records(
            b,
            site,
        ));
    } else {
        assert((a + b)[0] == a[0]);
        assert((a + b).skip(1) =~= a.skip(1) + b);
        lemma_site_records_concat(a.skip(1), b, site);
        if a[0].site_slug == site {
            assert(seq![a[0]] + (spec_site_records(a.skip(1), site) + spec_site_records(b, site))
                =~= (seq![a[0]] + spec_site_records(a.skip(1), site)) + spec_site_records(
                b,
                site,
            ));
        }
    }
}

/// Duplicates one stored page record.
fn clone_page_record(r: &PageRecord) -> (out: PageRecord)
    ensures
        out@ == r@,
{
    PageRecord {
        site_slug: r.site_slug.clone(),
        page_slug: r.page_slug.clone(),
        attribution: clone_items(&r.attribution),
    }
}

impl AttributionStore {
    /// One bounded round trip of the site scan: at most `limit`
    /// matching records starting at the continuation position, and
    /// the next continuation token when the cap stopped the scan
    /// before the end of the table.
    pub fn query_page(&self, site: &str, start: usize, limit: usize) -> (r: (
        Vec<PageRecord>,
        Option<usize>,
    ))
        requires
            start <= self@.len(),
            limit >= 1,
        ensures
            match r.1 {
                Some(p) => start < p <= self@.len() && records_view(r.0@) == spec_site_records(
                    self@.subrange(start as int, p as int),
                    site@,
                ) && r.0@.len() == limit,
                None => records_view(r.0@) == spec_site_records(
                    self@.subrange(start as int, self@.len() as int),
                    site@,
                ),
            },
    {
        let mut out: Vec<PageRecord> = Vec::new();
        let mut p: usize = start;
        proof {
            assert(self@.subrange(start as int, start as int) =~= Seq::<PageRecordView>::empty());
        }
        while p < self.records.len() && out.len() < limit
            invariant
                start <= p <= self.records@.len(),
                self@.len() == self.records@.len(),
                limit >= 1,
                out@.len() <= limit,
                records_view(out@) == spec_site_records(
                    self@.subrange(start as int, p as int),
                    site@,
                ),
                forall|m: int| 0 <= m < self.records@.len() ==> self@[m] == (
                #[trigger] self.records@[m])@,
            decreases self.records@.len() - p,
        {
            let ghost scanned = self@.subrange(start as int, p as int);
            let rec = &self.records[p];
            proof {
                assert(self@.subrange(start as int, p as int + 1) =~= scanned.push(
                    self@[p as int],
                ));
                lemma_site_records_push(scanned, self@[p as int], site@);
            }
            if str_eq(rec.site_slug.as_str(), site) {
                let ghost out_pre = out@;
                out.push(clone_page_record(rec));
                proof {
                    assert forall|m: int|
                        0 <= m < out@.len() implies records_view(out@)[m] == records_view(
                        out_pre,
                    ).push(self@[p as int])[m] by {
                        assert(records_view(out@)[m] == out@[m]@);
                        if m < out_pre.len() {
                            assert(out@[m] == out_pre[m]);
                            assert(records_view(out_pre)[m] == out_pre[m]@);
                        }
                    }
                    assert(records_view(out@) =~= records_view(out_pre).push(self@[p as int]));
                }
            }
            p = p + 1;
        }
        if p < self.records.len() {
            proof {
                if p == start {
                    assert(self@.subrange(start as int, start as int)
                        =~= Seq::<PageRecordView>::empty());
                    assert(records_view(out@).len() == 0);
                    assert(out@.len() == 0);
                }
            }
            (out, Some(p))
        } else {
            (out, None)
        }
    }
}

/// When the first key match is at position `k`, the write is an
/// in-place update there.
proof fn lemma_put_update(s: Seq<PageRecordView>, rec: PageRecordView, k: int)
    requires
        0 <= k < s.len(),
        has_key(s[k], rec.site_slug, rec.page_slug),
        forall|m: int| 0 <= m < k ==> !has_key(#[trigger] s[m], rec.site_slug, rec.page_slug),
    ensures
        spec_put(s, rec) == s.update(k, rec),
    decreases k,
{
    if k == 0 {
        assert(spec_put(s, rec) == seq![rec] + s.skip(1));
        assert(seq![rec] + s.skip(1) =~= s.update(0, rec));
    } else {
        assert(!has_key(s[0], rec.site_slug, rec.page_slug));
        assert forall|m: int|
            0 <= m < k - 1 implies !has_key(
            #[trigger] s.skip(1)[m],
            rec.site_slug,
            rec.page_slug,
        ) by {
            assert(s.skip(1)[m] == s[m + 1]);
        }
        assert(s.skip(1)[k - 1] == s[k]);
        lemma_put_update(s.skip(1), rec, k - 1);
        assert(seq![s[0]] + s.skip(1).update(k - 1, rec) =~= s.update(k, rec));
    }
}

/// When no key matches, the write appends at the end.
proof fn lemma_put_append(s: Seq<PageRecordView>, rec: PageRecordView)
    requires
        forall|m: int| 0 <= m < s.len() ==> !has_key(#[trigger] s[m], rec.site_slug, rec.page_slug),
    ensures
        spec_put(s, rec) == s.push(rec),
    decreases s.len(),
{
    if s.len() == 0 {
        assert(spec_put(s, rec) =~= s.push(rec));
    } else {
        assert forall|m: int|
            0 <= m < s.skip(1).len() implies !has_key(
            #[trigger] s.skip(1)[m],
            rec.site_slug,
            rec.page_slug,
        ) by {
            assert(s.skip(1)[m] == s[m + 1]);
        }
        lemma_put_append(s.skip(1), rec);
        assert(seq![s[0]] + s.skip(1).push(rec) =~= s.push(rec));
    }
}

/// When the first key match is at position `k`, the removal takes out
/// exactly that record.
proof fn lemma_delete_remove(s: Seq<PageRecordView>, site: Seq<char>, page: Seq<char>, k: int)
    requires
        0 <= k < s.len(),
        has_key(s[k], site, page),
        forall|m: int| 0 <= m < k ==> !has_key(#[trigger] s[m], site, page),
    ensures
        spec_delete(s, site, page) == s.remove(k),
    decreases k,
{
    if k == 0 {
        assert(s.skip(1) =~= s.remove(0));
    } else {
        assert(!has_key(s[0], site, page));
        assert forall|m: int|
            0 <= m < k - 1 implies !has_key(#[trigger] s.skip(1)[m], site, page) by {
            assert(s.skip(1)[m] == s[m + 1]);
        }
        assert(s.skip(1)[k - 1] == s[k]);
        lemma_delete_remove(s.skip(1), site, page, k - 1);
        s.remove_ensures(k);
        s.skip(1).remove_ensures(k - 1);
        assert(seq![s[0]] + s.skip(1).remove(k - 1) =~= s.remove(k));
    }
}

/// Removing a key that is not present changes nothing.
proof fn lemma_delete_missing(s: Seq<PageRecordView>, site: Seq<char>, page: Seq<char>)
    requires
        forall|m: int| 0 <= m < s.len() ==> !has_key(#[trigger] s[m], site, page),
    ensures
        spec_delete(s, site, page) == s,
    decreases s.len(),
{
    if s.len() > 0 {
        assert forall|m: int|
            0 <= m < s.skip(1).len() implies !has_key(#[trigger] s.skip(1)[m], site, page) by {
            assert(s.skip(1)[m] == s[m + 1]);
        }
        lemma_delete_missing(s.skip(1), site, page);
        assert(seq![s[0]] + s.skip(1) =~= s);
    }
}

} // verus!
