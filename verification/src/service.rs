//! The page attribution operations against the store: point read,
//! full replace, idempotent delete, and the paginated full-site
//! aggregation.

use vstd::prelude::*;
use crate::attribution::{
    full_attributions_view, Attribution, AttributionEntryView, FullAttribution,
    FullAttributionView,
};
use crate::codec::{decode_all, spec_decode_all, EntryItem, IntegrityError};
use crate::store::{
    lemma_site_records_concat, records_view, spec_delete, spec_lookup, spec_put,
    spec_site_records, AttributionStore, PageRecord, PageRecordView,
};

verus! {

/// The page-count cap of one backend scan round trip.
pub const SCAN_LIMIT: usize = 1000;

/// What decoding a run of site records produces: one full attribution
/// per record, in scan order, or the first integrity violation.
pub open spec fn spec_decode_site(rs: Seq<PageRecordView>) -> Result<
    Seq<FullAttributionView>,
    IntegrityError,
>
    decreases rs.len(),
{
    if rs.len() == 0 {
        Ok(Seq::empty())
    } else {
        match spec_decode_all(rs[0].attribution) {
            Err(e) => Err(e),
            Ok(entries) => match spec_decode_site(rs.skip(1)) {
                Err(e) => Err(e),
                Ok(rest) => Ok(
                    seq![
                        FullAttributionView { page_slug: rs[0].page_slug, attribution: entries },
                    ] + rest,
                ),
            },
        }
    }
}

/// When every record decodes, the run decodes to one full attribution
/// per record: complete, in order, with no duplicates and no
/// omissions.
pub proof fn lemma_decode_site_ok(rs: Seq<PageRecordView>)
    requires
        forall|m: int| 0 <= m < rs.len() ==> spec_decode_all((#[trigger] rs[m]).attribution) is Ok,
    ensures
        spec_decode_site(rs) == Ok::<_, IntegrityError>(
            Seq::new(
                rs.len(),
                |m: int|
                    FullAttributionView {
                        page_slug: rs[m].page_slug,
                        attribution: spec_decode_all(rs[m].attribution)->Ok_0,
                    },
            ),
        ),
    decreases rs.len(),
{
    if rs.len() > 0 {
        assert forall|m: int| 0 <= m < rs.skip(1).len() implies spec_decode_all(
            (#[trigger] rs.skip(1)[m]).attribution,
        ) is Ok by {
            assert(rs.skip(1)[m] == rs[m + 1]);
        }
        lemma_decode_site_ok(rs.skip(1));
        assert(seq![
            FullAttributionView {
                page_slug: rs[0].page_slug,
                attribution: spec_decode_all(rs[0].attribution)->Ok_0,
            },
        ] + Seq::new(
            rs.skip(1).len(),
            |m: int|
                FullAttributionView {
                    page_slug: rs.skip(1)[m].page_slug,
                    attribution: spec_decode_all(rs.skip(1)[m].attribution)->Ok_0,
                },
        ) =~= Seq::new(
            rs.len(),
            |m: int|
                FullAttributionView {
                    page_slug: rs[m].page_slug,
                    attribution: spec_decode_all(rs[m].attribution)->Ok_0,
                },
        ));
    } else {
        assert(Seq::new(
            rs.len(),
            |m: int|
                FullAttributionView {
                    page_slug: rs[m].page_slug,
                    attribution: spec_decode_all(rs[m].attribution)->Ok_0,
                },
        ) =~= Seq::empty());
    }
}

/// The first record that violates its shape decides the aggregation
/// error.
proof fn lemma_decode_site_err(rs: Seq<PageRecordView>, i: int)
    requires
        0 <= i < rs.len(),
        forall|m: int| 0 <= m < i ==> spec_decode_all((#[trigger] rs[m]).attribution) is Ok,
        spec_decode_all(rs[i].attribution) is Err,
    ensures
        spec_decode_site(rs) == Err::<Seq<FullAttributionView>, _>(
            spec_decode_all(rs[i].attribution)->Err_0,
        ),
    decreases i,
{
    if i > 0 {
        assert forall|m: int| 0 <= m < i - 1 implies spec_decode_all(
            (#[trigger] rs.skip(1)[m]).attribution,
        ) is Ok by {
            assert(rs.skip(1)[m] == rs[m + 1]);
        }
        assert(rs.skip(1)[i - 1] == rs[i]);
        lemma_decode_site_err(rs.skip(1), i - 1);
    }
}

/// Decoding a run that starts with a fully-decodable stretch reduces
/// to decoding the rest.
proof fn lemma_decode_site_ok_concat(a: Seq<PageRecordView>, b: Seq<PageRecordView>)
    requires
        spec_decode_site(a) is Ok,
    ensures
        spec_decode_site(a + b) == (match spec_decode_site(b) {
            Ok(vb) => Ok::<_, IntegrityError>(spec_decode_site(a)->Ok_0 + vb),
            Err(e) => Err(e),
        }),
    decreases a.len(),
{
    if a.len() == 0 {
        assert(a + b =~= b);
        match spec_decode_site(b) {
            Ok(vb) => {
                assert(spec_decode_site(a)->Ok_0 + vb =~= vb);
            },
            Err(_) => {},
        }
    } else {
        assert((a + b)[0] == a[0]);
        assert((a + b).skip(1) =~= a.skip(1) + b);
        lemma_decode_site_ok_concat(a.skip(1), b);
        match spec_decode_site(b) {
            Ok(vb) => {
                let f0 = FullAttributionView {
                    page_slug: a[0].page_slug,
                    attribution: spec_decode_all(a[0].attribution)->Ok_0,
                };
                assert(seq![f0] + (spec_decode_site(a.skip(1))->Ok_0 + vb) =~= (seq![f0]
                    + spec_decode_site(a.skip(1))->Ok_0) + vb);
            },
            Err(_) => {},
        }
    }
}

/// Point read of one page's attribution record: absence is a result,
/// a malformed stored record is an integrity error.
pub fn get_page_attribution(store: &AttributionStore, site_slug: &str, page_slug: &str) -> (r:
    Result<Option<Attribution>, IntegrityError>)
    ensures
        spec_lookup(store@, site_slug@, page_slug@) is None ==> r == Ok::<
            Option<Attribution>,
            IntegrityError,
        >(None),
        spec_lookup(store@, site_slug@, page_slug@) matches Some(items) ==> match spec_decode_all(
            items,
        ) {
            Ok(es) => r matches Ok(Some(a)) && a@ == es,
            Err(e) => r == Err::<Option<Attribution>, IntegrityError>(e),
        },
{
    match store.get_item(site_slug, page_slug) {
        None => Ok(None),
        Some(items) => match decode_all(items) {
            Ok(entries) => Ok(Some(Attribution(entries))),
            Err(e) => Err(e),
        },
    }
}

/// Full replace of one page's attribution attribute; creates the
/// record when the key is fresh.
pub fn update_page_attribution(
    store: &mut AttributionStore,
    site_slug: String,
    page_slug: String,
    attributions: Vec<EntryItem>,
)
    ensures
        final(store)@ == spec_put(
            old(store)@,
            PageRecordView {
                site_slug: site_slug@,
                page_slug: page_slug@,
                attribution: crate::codec::items_view(attributions@),
            },
        ),
{
    store.put_item(site_slug, page_slug, attributions);
}

/// Unconditional removal of one page's record; deleting a missing key
/// is not an error.
pub fn delete_page_attribution(store: &mut AttributionStore, site_slug: &str, page_slug: &str)
    ensures
        final(store)@ == spec_delete(old(store)@, site_slug@, page_slug@),
{
    store.delete_item(site_slug, page_slug);
}

/// Decodes one scan batch onto the accumulator; the first malformed
/// record aborts with its integrity error.
fn decode_batch_into(out: &mut Vec<FullAttribution>, batch: &Vec<PageRecord>) -> (r: Result<
    (),
    IntegrityError,
>)
    ensures
        match spec_decode_site(records_view(batch@)) {
            Ok(v) => r is Ok && full_attributions_view(final(out)@) == full_attributions_view(
                old(out)@,
            ) + v,
            Err(e) => r == Err::<(), IntegrityError>(e),
        },
{
    proof {
        assert(Seq::new(
            0,
            |m: int|
                FullAttributionView {
                    page_slug: records_view(batch@)[m].page_slug,
                    attribution: spec_decode_all(records_view(batch@)[m].attribution)->Ok_0,
                },
        ) =~= Seq::<FullAttributionView>::empty());
        assert(full_attributions_view(old(out)@) + Seq::<FullAttributionView>::empty()
            =~= full_attributions_view(old(out)@));
    }
    let mut bi: usize = 0;
    while bi < batch.len()
        invariant
            0 <= bi <= batch@.len(),
            forall|m: int|
                0 <= m < bi ==> spec_decode_all(
                    (#[trigger] records_view(batch@)[m]).attribution,
                ) is Ok,
            full_attributions_view(out@) == full_attributions_view(old(out)@) + Seq::new(
                bi as nat,
                |m: int|
                    FullAttributionView {
                        page_slug: records_view(batch@)[m].page_slug,
                        attribution: spec_decode_all(records_view(batch@)[m].attribution)->Ok_0,
                    },
            ),
        decreases batch@.len() - bi,
    {
        let rec = &batch[bi];
        proof {
            assert(records_view(batch@)[bi as int] == batch@[bi as int]@);
        }
        match decode_all(&rec.attribution) {
            Ok(entries) => {
                let ghost out_pre = out@;
                let ghost fv = FullAttributionView {
                    page_slug: records_view(batch@)[bi as int].page_slug,
                    attribution: spec_decode_all(
                        records_view(batch@)[bi as int].attribution,
                    )->Ok_0,
                };
                out.push(
                    FullAttribution {
                        page_slug: rec.page_slug.clone(),
                        attribution: Attribution(entries),
                    },
                );
                proof {
                    assert forall|m: int|
                        0 <= m < out@.len() implies full_attributions_view(out@)[m]
                        == full_attributions_view(out_pre).push(fv)[m] by {
                        assert(full_attributions_view(out@)[m] == out@[m]@);
                        if m < out_pre.len() {
                            assert(out@[m] == out_pre[m]);
                            assert(full_attributions_view(out_pre)[m] == out_pre[m]@);
                        }
                    }
                    assert(full_attributions_view(out@) =~= full_attributions_view(out_pre).push(
                        fv,
                    ));
                    assert(full_attributions_view(old(out)@) + Seq::new(
                        (bi + 1) as nat,
                        |m: int|
                            FullAttributionView {
                                page_slug: records_view(batch@)[m].page_slug,
                                attribution: spec_decode_all(
                                    records_view(batch@)[m].attribution,
                                )->Ok_0,
                            },
                    ) =~= (full_attributions_view(old(out)@) + Seq::new(
                        bi as nat,
                        |m: int|
                            FullAttributionView {
                                page_slug: records_view(batch@)[m].page_slug,
                                attribution: spec_decode_all(
                                    records_view(batch@)[m].attribution,
                                )->Ok_0,
                            },
                    )).push(fv));
                }
            },
            Err(e) => {
                proof {
                    lemma_decode_site_err(records_view(batch@), bi as int);
                }
                return Err(e);
            },
        }
        bi = bi + 1;
    }
    proof {
        lemma_decode_site_ok(records_view(batch@));
    }
    Ok(())
}

/// Lists every page's attribution record under a site by repeated
/// bounded scans, following the continuation token until the store
/// reports none: complete even when the backend caps each round trip.
///
/// A site with no pages yields an empty sequence; any malformed stored
/// record aborts the whole aggregation.
pub fn get_site_attribution(store: &AttributionStore, site_slug: &str) -> (r: Result<
    Vec<FullAttribution>,
    IntegrityError,
>)
    ensures
        match spec_decode_site(spec_site_records(store@, site_slug@)) {
            Ok(v) => r matches Ok(out) && full_attributions_view(out@) == v,
            Err(e) => r == Err::<Vec<FullAttribution>, IntegrityError>(e),
        },
{
    let mut out: Vec<FullAttribution> = Vec::new();
    let mut cursor: usize = 0;
    proof {
        assert(store@.subrange(0, 0) =~= Seq::<PageRecordView>::empty());
        assert(full_attributions_view(out@) =~= Seq::<FullAttributionView>::empty());
    }
    while cursor < store.records.len()
        invariant
            0 <= cursor <= store@.len(),
            store@.len() == store.records@.len(),
            spec_decode_site(spec_site_records(store@.subrange(0, cursor as int), site_slug@))
                is Ok,
            full_attributions_view(out@) == spec_decode_site(
                spec_site_records(store@.subrange(0, cursor as int), site_slug@),
            )->Ok_0,
        decreases store@.len() - cursor,
    {
        let (batch, next) = store.query_page(site_slug, cursor, SCAN_LIMIT);
        let end: usize = match next {
            Some(p) => p,
            None => store.records.len(),
        };
        proof {
            if next is None {
                assert(store@.subrange(cursor as int, store@.len() as int) =~= store@.subrange(
                    cursor as int,
                    end as int,
                ));
            }
            assert(records_view(batch@) == spec_site_records(
                store@.subrange(cursor as int, end as int),
                site_slug@,
            ));
        }
        let ghost prefix = spec_site_records(store@.subrange(0, cursor as int), site_slug@);
        let ghost batch_recs = records_view(batch@);
        match decode_batch_into(&mut out, &batch) {
            Ok(_) => {},
            Err(e) => {
                proof {
                    let tail = spec_site_records(
                        store@.subrange(end as int, store@.len() as int),
                        site_slug@,
                    );
                    lemma_site_records_concat(
                        store@.subrange(cursor as int, end as int),
                        store@.subrange(end as int, store@.len() as int),
                        site_slug@,
                    );
                    assert(store@.subrange(cursor as int, end as int) + store@.subrange(
                        end as int,
                        store@.len() as int,
                    ) =~= store@.subrange(cursor as int, store@.len() as int));
                    lemma_site_records_concat(
                        store@.subrange(0, cursor as int),
                        store@.subrange(cursor as int, store@.len() as int),
                        site_slug@,
                    );
                    assert(store@.subrange(0, cursor as int) + store@.subrange(
                        cursor as int,
                        store@.len() as int,
                    ) =~= store@);
                    let b = batch_recs + tail;
                    assert(spec_site_records(store@, site_slug@) =~= prefix + b);
                    assert(spec_decode_site(batch_recs) == Err::<Seq<FullAttributionView>, _>(e));
                    let bad = lemma_decode_site_first_err(batch_recs);
                    assert(b[bad] == batch_recs[bad]);
                    assert forall|m: int| 0 <= m < bad implies spec_decode_all(
                        (#[trigger] b[m]).attribution,
                    ) is Ok by {
                        assert(b[m] == batch_recs[m]);
                    }
                    lemma_decode_site_err(b, bad);
                    assert(spec_decode_all(batch_recs[bad].attribution)->Err_0 == e);
                    lemma_decode_site_ok_concat(prefix, b);
                }
                return Err(e);
            },
        }
        proof {
            lemma_site_records_concat(
                store@.subrange(0, cursor as int),
                store@.subrange(cursor as int, end as int),
                site_slug@,
            );
            assert(store@.subrange(0, cursor as int) + store@.subrange(cursor as int, end as int)
                =~= store@.subrange(0, end as int));
            lemma_decode_site_ok_concat(prefix, batch_recs);
        }
        cursor = end;
    }
    proof {
        assert(store@.subrange(0, store@.len() as int) =~= store@);
    }
    Ok(out)
}

/// In a run whose decode fails, finds the first record that fails:
/// its error is the run's error.
proof fn lemma_decode_site_first_err(rs: Seq<PageRecordView>) -> (i: int)
    requires
        spec_decode_site(rs) is Err,
    ensures
        0 <= i < rs.len(),
        forall|m: int| 0 <= m < i ==> spec_decode_all((#[trigger] rs[m]).attribution) is Ok,
        spec_decode_all(rs[i].attribution) is Err,
        spec_decode_site(rs) == Err::<Seq<FullAttributionView>, _>(
            spec_decode_all(rs[i].attribution)->Err_0,
        ),
    decreases rs.len(),
{
    if spec_decode_all(rs[0].attribution) is Err {
        0
    } else {
        let j = lemma_decode_site_first_err(rs.skip(1));
        assert(rs.skip(1)[j] == rs[j + 1]);
        assert forall|m: int| 0 <= m < j + 1 implies spec_decode_all(
            (#[trigger] rs[m]).attribution,
        ) is Ok by {
            if m > 0 {
                assert(rs.skip(1)[m - 1] == rs[m]);
            }
        }
        j + 1
    }
}

} // verus!
