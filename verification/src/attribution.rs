//! The attribution data model: the closed set of contribution kinds and
//! the entries that make up one page's attribution record.

use vstd::prelude::*;
use crate::text::{lemma_lex_le_total, lemma_lex_le_trans, lex_le, spec_trim, str_lex_le};

verus! {

/// Kind of contribution a user made to a page.
///
/// Serializes to its lowercase field name; the mapping round-trips
/// bijectively and unknown names are a conversion error, not a default.
#[derive(Debug, Copy, Clone, PartialEq, Eq, Hash, Structural)]
pub enum AttributionType {
    Author,
    Rewrite,
    Translator,
    Maintainer,
}

/// The lowercase field name an [`AttributionType`] serializes to.
pub open spec fn spec_field_name(t: AttributionType) -> Seq<char> {
    match t {
        AttributionType::Author => "author"@,
        AttributionType::Rewrite => "rewrite"@,
        AttributionType::Translator => "translator"@,
        AttributionType::Maintainer => "maintainer"@,
    }
}

/// The inverse of [`spec_field_name`]: the attribution type a name
/// stands for, or `None` for an unknown name.
pub open spec fn spec_type_of_name(s: Seq<char>) -> Option<AttributionType> {
    if s == "author"@ {
        Some(AttributionType::Author)
    } else if s == "rewrite"@ {
        Some(AttributionType::Rewrite)
    } else if s == "translator"@ {
        Some(AttributionType::Translator)
    } else if s == "maintainer"@ {
        Some(AttributionType::Maintainer)
    } else {
        None
    }
}

/// The name-to-type mapping is a left inverse of the type-to-name
/// mapping, so the enumeration round-trips bijectively through its
/// field name.
pub proof fn lemma_field_name_bijective(t: AttributionType)
    ensures
        spec_type_of_name(spec_field_name(t)) == Some(t),
{
    reveal_strlit("author");
    reveal_strlit("rewrite");
    reveal_strlit("translator");
    reveal_strlit("maintainer");
    match t {
        AttributionType::Author => {
            assert(spec_field_name(t) == "author"@);
        }
        AttributionType::Rewrite => {
            assert(spec_field_name(t) == "rewrite"@);
            assert("rewrite"@.len() != "author"@.len());
        }
        AttributionType::Translator => {
            assert(spec_field_name(t) == "translator"@);
            assert("translator"@.len() != "author"@.len());
            assert("translator"@.len() != "rewrite"@.len());
        }
        AttributionType::Maintainer => {
            assert(spec_field_name(t) == "maintainer"@);
            assert("maintainer"@.len() != "author"@.len());
            assert("maintainer"@.len() != "rewrite"@.len());
            assert("maintainer"@[0] != "translator"@[0]);
            assert("maintainer"@ != "translator"@);
        }
    }
}

impl AttributionType {
    /// The lowercase name this attribution type is stored under.
    pub fn field_name(self) -> (r: &'static str)
        ensures
            r@ == spec_field_name(self),
    {
        match self {
            AttributionType::Author => "author",
            AttributionType::Rewrite => "rewrite",
            AttributionType::Translator => "translator",
            AttributionType::Maintainer => "maintainer",
        }
    }
}

/// Error for a name that stands for no [`AttributionType`].
#[derive(Debug, Clone, Copy, PartialEq, Eq, Structural)]
pub struct AttributionTypeConversionError;

impl AttributionType {
    /// The attribution type a lowercase name stands for; an unknown
    /// name is a conversion error, never a default.
    pub fn from_name(value: &str) -> (r: Result<AttributionType, AttributionTypeConversionError>)
        ensures
            match r {
                Ok(t) => spec_type_of_name(value@) == Some(t),
                Err(_) => spec_type_of_name(value@) is None,
            },
    {
        if crate::text::str_eq(value, "author") {
            Ok(AttributionType::Author)
        } else if crate::text::str_eq(value, "rewrite") {
            Ok(AttributionType::Rewrite)
        } else if crate::text::str_eq(value, "translator") {
            Ok(AttributionType::Translator)
        } else if crate::text::str_eq(value, "maintainer") {
            Ok(AttributionType::Maintainer)
        } else {
            Err(AttributionTypeConversionError)
        }
    }
}

/// The mathematical value of one contribution record.
pub struct AttributionEntryView {
    pub attribution_type: AttributionType,
    pub user_name: Seq<char>,
    pub user_id: Option<u32>,
    pub date: Option<Seq<char>>,
}

impl AttributionEntryView {
    /// A user identifier, when present, is strictly positive.
    pub open spec fn wf(self) -> bool {
        self.user_id matches Some(n) ==> n > 0
    }

    /// The entry as it is stored: the user name trimmed of leading and
    /// trailing whitespace, everything else unchanged.
    pub open spec fn normalize(self) -> AttributionEntryView {
        AttributionEntryView { user_name: spec_trim(self.user_name), ..self }
    }
}

/// One contribution record: who is credited for a page and how.
///
/// A persisted entry always has a non-empty trimmed `user_name` and,
/// when present, a format-valid `date`; encoding enforces both.
#[derive(Debug, Clone, PartialEq)]
pub struct AttributionEntry {
    pub attribution_type: AttributionType,
    pub user_name: String,
    /// A strictly positive numeric identifier, or absent.
    pub user_id: Option<u32>,
    /// A date in `YYYY-MM-DD` format, or absent.
    pub date: Option<String>,
}

impl View for AttributionEntry {
    type V = AttributionEntryView;

    open spec fn view(&self) -> AttributionEntryView {
        AttributionEntryView {
            attribution_type: self.attribution_type,
            user_name: self.user_name@,
            user_id: self.user_id,
            date: match self.date {
                Some(d) => Some(d@),
                None => None,
            },
        }
    }
}

/// The view of a sequence of entries.
pub open spec fn entries_view(s: Seq<AttributionEntry>) -> Seq<AttributionEntryView> {
    s.map_values(|e: AttributionEntry| e@)
}

/// An ordered collection of entries: one page's attribution record.
///
/// An empty collection is a sentinel for "delete this page's record",
/// not a record holding an empty list.
#[derive(Debug, Clone, PartialEq)]
pub struct Attribution(pub Vec<AttributionEntry>);

impl View for Attribution {
    type V = Seq<AttributionEntryView>;

    open spec fn view(&self) -> Seq<AttributionEntryView> {
        entries_view(self.0@)
    }
}

/// One page's attribution record together with the page it belongs to,
/// as returned when listing an entire site.
#[derive(Debug, Clone, PartialEq)]
pub struct FullAttribution {
    pub page_slug: String,
    pub attribution: Attribution,
}

/// A parsed request to set one page's attribution record.
#[derive(Debug, Clone, PartialEq)]
pub struct UpdatePageAttributionInput {
    pub site_slug: String,
    pub page_slug: String,
    pub password: String,
    pub attributions: Attribution,
}

/// The mathematical value of a full attribution.
pub struct FullAttributionView {
    pub page_slug: Seq<char>,
    pub attribution: Seq<AttributionEntryView>,
}

impl View for FullAttribution {
    type V = FullAttributionView;

    open spec fn view(&self) -> FullAttributionView {
        FullAttributionView { page_slug: self.page_slug@, attribution: self.attribution@ }
    }
}

/// The view of a sequence of full attributions.
pub open spec fn full_attributions_view(s: Seq<FullAttribution>) -> Seq<FullAttributionView> {
    s.map_values(|f: FullAttribution| f@)
}

/// The sort key of an entry: its date, an absent date reading as the
/// empty string so undated entries order before all dated ones.
pub open spec fn spec_sort_key(e: AttributionEntryView) -> Seq<char> {
    match e.date {
        Some(d) => d,
        None => Seq::empty(),
    }
}

/// Display order of two entries: ascending by sort key.
pub open spec fn key_le(a: AttributionEntryView, b: AttributionEntryView) -> bool {
    lex_le(spec_sort_key(a), spec_sort_key(b))
}

/// Whether a sequence of entries is in display order.
pub open spec fn sorted_by_date(s: Seq<AttributionEntryView>) -> bool {
    forall|i: int, j: int| 0 <= i < j < s.len() ==> key_le(#[trigger] s[i], #[trigger] s[j])
}

/// Stable insertion: places `e` after every element whose key is at or
/// below its own, so an element arriving later never overtakes an
/// equal-keyed earlier one.
pub open spec fn spec_insert_sorted(
    s: Seq<AttributionEntryView>,
    e: AttributionEntryView,
) -> Seq<AttributionEntryView>
    decreases s.len(),
{
    if s.len() == 0 {
        seq![e]
    } else if key_le(s.last(), e) {
        s.push(e)
    } else {
        spec_insert_sorted(s.drop_last(), e).push(s.last())
    }
}

/// The stable sort of a sequence of entries, built by inserting each
/// element, in input order, into the sorted run of its predecessors.
pub open spec fn spec_sort_entries(s: Seq<AttributionEntryView>) -> Seq<AttributionEntryView>
    decreases s.len(),
{
    if s.len() == 0 {
        s
    } else {
        spec_insert_sorted(spec_sort_entries(s.drop_last()), s.last())
    }
}

/// Where the found position has only strictly-greater keys behind it
/// and an at-or-below key just before it, stable insertion is exactly
/// insertion at that position.
proof fn lemma_insert_sorted_at(s: Seq<AttributionEntryView>, e: AttributionEntryView, j: int)
    requires
        0 <= j <= s.len(),
        forall|i: int| j <= i < s.len() ==> !key_le(#[trigger] s[i], e),
        j > 0 ==> key_le(s[j - 1], e),
    ensures
        spec_insert_sorted(s, e) == s.insert(j, e),
    decreases s.len(),
{
    if s.len() == 0 {
        assert(s.insert(0, e) =~= seq![e]);
    } else if j == s.len() {
        assert(key_le(s.last(), e));
        assert(s.insert(j, e) =~= s.push(e));
    } else {
        assert(!key_le(s.last(), e));
        lemma_insert_sorted_at(s.drop_last(), e, j);
        assert(spec_insert_sorted(s.drop_last(), e).push(s.last()) =~= s.insert(j, e));
    }
}

/// Inserting into a sorted sequence keeps it sorted.
proof fn lemma_insert_sorted_sorted(s: Seq<AttributionEntryView>, e: AttributionEntryView)
    requires
        sorted_by_date(s),
    ensures
        sorted_by_date(spec_insert_sorted(s, e)),
    decreases s.len(),
{
    let r = spec_insert_sorted(s, e);
    if s.len() == 0 {
        assert(sorted_by_date(r));
    } else if key_le(s.last(), e) {
        assert forall|i: int, j: int| 0 <= i < j < r.len() implies key_le(r[i], r[j]) by {
            if j == r.len() - 1 {
                if i < s.len() - 1 {
                    assert(key_le(s[i], s[s.len() - 1]));
                    lemma_lex_le_trans(
                        spec_sort_key(s[i]),
                        spec_sort_key(s[s.len() - 1]),
                        spec_sort_key(e),
                    );
                }
            }
        }
    } else {
        assert(forall|i: int, j: int|
            0 <= i < j < s.drop_last().len() ==> key_le(
                #[trigger] s.drop_last()[i],
                #[trigger] s.drop_last()[j],
            ));
        lemma_insert_sorted_sorted(s.drop_last(), e);
        let t = spec_insert_sorted(s.drop_last(), e);
        lemma_insert_sorted_members(s.drop_last(), e);
        assert forall|i: int, j: int| 0 <= i < j < r.len() implies key_le(r[i], r[j]) by {
            if j == r.len() - 1 {
                lemma_lex_le_total(spec_sort_key(s.last()), spec_sort_key(e));
                assert(key_le(e, s.last()));
                if i < t.len() {
                    assert(t.contains(t[i]));
                    if s.drop_last().contains(t[i]) {
                        let w = choose|w: int|
                            0 <= w < s.drop_last().len() && s.drop_last()[w] == t[i];
                        assert(key_le(s[w], s[s.len() - 1]));
                    } else {
                        assert(t[i] == e);
                    }
                }
            }
        }
    }
}

/// Every member of a stable insertion is the new element or a member
/// of the original sequence.
proof fn lemma_insert_sorted_members(s: Seq<AttributionEntryView>, e: AttributionEntryView)
    ensures
        forall|x: AttributionEntryView|
            #[trigger] spec_insert_sorted(s, e).contains(x) ==> x == e || s.contains(x),
        spec_insert_sorted(s, e).len() == s.len() + 1,
    decreases s.len(),
{
    let r = spec_insert_sorted(s, e);
    if s.len() == 0 {
        assert forall|x: AttributionEntryView| #[trigger] r.contains(x) implies x == e
            || s.contains(x) by {
            assert(r[0] == e);
        }
    } else if key_le(s.last(), e) {
        assert forall|x: AttributionEntryView| #[trigger] r.contains(x) implies x == e
            || s.contains(x) by {
            let w = choose|w: int| 0 <= w < r.len() && r[w] == x;
            if w < s.len() {
                assert(s[w] == x);
            }
        }
    } else {
        lemma_insert_sorted_members(s.drop_last(), e);
        let t = spec_insert_sorted(s.drop_last(), e);
        assert forall|x: AttributionEntryView| #[trigger] r.contains(x) implies x == e
            || s.contains(x) by {
            let w = choose|w: int| 0 <= w < r.len() && r[w] == x;
            if w < t.len() {
                assert(t.contains(t[w]));
                if s.drop_last().contains(x) {
                    let v = choose|v: int| 0 <= v < s.drop_last().len() && s.drop_last()[v] == x;
                    assert(s[v] == x);
                }
            } else {
                assert(x == s.last());
                assert(s[s.len() - 1] == x);
            }
        }
    }
}

/// The sorted sequence is in display order.
pub proof fn lemma_sort_entries_sorted(s: Seq<AttributionEntryView>)
    ensures
        sorted_by_date(spec_sort_entries(s)),
    decreases s.len(),
{
    if s.len() > 0 {
        lemma_sort_entries_sorted(s.drop_last());
        lemma_insert_sorted_sorted(spec_sort_entries(s.drop_last()), s.last());
    }
}

/// Sorting permutes the input: the same entries, with the same
/// multiplicities, and nothing else.
pub proof fn lemma_sort_entries_permutes(s: Seq<AttributionEntryView>)
    ensures
        spec_sort_entries(s).to_multiset() == s.to_multiset(),
        spec_sort_entries(s).len() == s.len(),
    decreases s.len(),
{
    broadcast use vstd::seq_lib::group_to_multiset_ensures;

    if s.len() > 0 {
        lemma_sort_entries_permutes(s.drop_last());
        lemma_insert_sorted_multiset(spec_sort_entries(s.drop_last()), s.last());
        assert(s =~= s.drop_last().push(s.last()));
        assert(s.to_multiset() =~= s.drop_last().push(s.last()).to_multiset());
    }
}

/// Stable insertion adds exactly the new element to the multiset.
proof fn lemma_insert_sorted_multiset(s: Seq<AttributionEntryView>, e: AttributionEntryView)
    ensures
        spec_insert_sorted(s, e).to_multiset() == s.push(e).to_multiset(),
        spec_insert_sorted(s, e).len() == s.len() + 1,
    decreases s.len(),
{
    broadcast use vstd::seq_lib::group_to_multiset_ensures;

    if s.len() == 0 {
        assert(spec_insert_sorted(s, e) =~= s.push(e));
    } else if key_le(s.last(), e) {
    } else {
        lemma_insert_sorted_multiset(s.drop_last(), e);
        assert(spec_insert_sorted(s.drop_last(), e).push(s.last()).to_multiset()
            =~= s.drop_last().push(e).push(s.last()).to_multiset());
        assert(s.drop_last().push(e).push(s.last()).to_multiset() =~= s.drop_last().push(
            s.last(),
        ).push(e).to_multiset());
        assert(s.drop_last().push(s.last()) =~= s);
    }
}

/// Whether a predicate selects one key class: any two entries it
/// accepts carry the same sort key.
pub open spec fn is_key_class(pred: spec_fn(AttributionEntryView) -> bool) -> bool {
    forall|a: AttributionEntryView, b: AttributionEntryView|
        #[trigger] pred(a) && #[trigger] pred(b) ==> spec_sort_key(a) == spec_sort_key(b)
}

/// Stability: for every key class, sorting preserves the relative
/// order of the entries in that class.
pub proof fn lemma_sort_entries_stable(
    s: Seq<AttributionEntryView>,
    pred: spec_fn(AttributionEntryView) -> bool,
)
    requires
        is_key_class(pred),
    ensures
        spec_sort_entries(s).filter(pred) == s.filter(pred),
    decreases s.len(),
{
    reveal(Seq::filter);
    if s.len() > 0 {
        lemma_sort_entries_stable(s.drop_last(), pred);
        lemma_insert_sorted_filter(spec_sort_entries(s.drop_last()), s.last(), pred);
    }
}

/// Stable insertion appends the new element to its key class and
/// leaves every other key class unchanged.
proof fn lemma_insert_sorted_filter(
    s: Seq<AttributionEntryView>,
    e: AttributionEntryView,
    pred: spec_fn(AttributionEntryView) -> bool,
)
    requires
        is_key_class(pred),
    ensures
        spec_insert_sorted(s, e).filter(pred) == (if pred(e) {
            s.filter(pred).push(e)
        } else {
            s.filter(pred)
        }),
    decreases s.len(),
{
    reveal(Seq::filter);
    let r = spec_insert_sorted(s, e);
    if s.len() == 0 {
        assert(r =~= seq![e]);
        assert(r.drop_last() =~= Seq::<AttributionEntryView>::empty());
        assert(Seq::<AttributionEntryView>::empty().filter(pred)
            =~= Seq::<AttributionEntryView>::empty());
    } else if key_le(s.last(), e) {
        assert(r =~= s.push(e));
        assert(r.drop_last() =~= s);
        assert(r.last() == e);
    } else {
        lemma_insert_sorted_filter(s.drop_last(), e, pred);
        let t = spec_insert_sorted(s.drop_last(), e);
        assert(r == t.push(s.last()));
        assert(r.drop_last() =~= t);
        assert(r.last() == s.last());
        if pred(e) {
            // the displaced last element has a strictly greater key,
            // so it is not in this key class
            lemma_lex_le_total(spec_sort_key(s.last()), spec_sort_key(e));
            assert(key_le(e, s.last()));
            if pred(s.last()) {
                assert(spec_sort_key(s.last()) == spec_sort_key(e));
                assert(key_le(s.last(), e));
                assert(false);
            }
            assert(s.filter(pred) == s.drop_last().filter(pred));
        }
    }
}

/// An absent date sorts before every dated entry: whatever stands
/// before an undated entry in the sorted order carries the empty sort
/// key itself.
pub proof fn lemma_sort_entries_undated_first(s: Seq<AttributionEntryView>)
    ensures
        forall|i: int, j: int|
            0 <= i < j < spec_sort_entries(s).len() && (#[trigger] spec_sort_entries(s)[j]).date
                is None ==> spec_sort_key(#[trigger] spec_sort_entries(s)[i])
                == Seq::<char>::empty(),
{
    lemma_sort_entries_sorted(s);
    let r = spec_sort_entries(s);
    assert forall|i: int, j: int|
        0 <= i < j < r.len() && (#[trigger] r[j]).date is None implies spec_sort_key(
        #[trigger] r[i],
    ) == Seq::<char>::empty() by {
        assert(key_le(r[i], r[j]));
        assert(spec_sort_key(r[j]).len() == 0);
        assert(spec_sort_key(r[i]).len() == 0);
        assert(spec_sort_key(r[i]) =~= Seq::<char>::empty());
    }
}

/// Every entry of the sorted sequence comes from the input.
pub proof fn lemma_sort_entries_contains(s: Seq<AttributionEntryView>)
    ensures
        forall|x: AttributionEntryView| #[trigger] spec_sort_entries(s).contains(x) ==> s.contains(
            x,
        ),
{
    broadcast use vstd::seq_lib::group_to_multiset_ensures;

    lemma_sort_entries_permutes(s);
    assert forall|x: AttributionEntryView| #[trigger] spec_sort_entries(s).contains(
        x,
    ) implies s.contains(x) by {
        assert(spec_sort_entries(s).to_multiset().count(x) > 0);
    }
}

/// A sequence already in display order is unchanged by sorting, so
/// sorting is idempotent.
pub proof fn lemma_sort_entries_idempotent(s: Seq<AttributionEntryView>)
    ensures
        sorted_by_date(s) ==> spec_sort_entries(s) == s,
        spec_sort_entries(spec_sort_entries(s)) == spec_sort_entries(s),
    decreases s.len(),
{
    if sorted_by_date(s) && s.len() > 0 {
        assert(forall|i: int, j: int|
            0 <= i < j < s.drop_last().len() ==> key_le(
                #[trigger] s.drop_last()[i],
                #[trigger] s.drop_last()[j],
            ));
        lemma_sort_entries_idempotent(s.drop_last());
        if s.len() >= 2 {
            assert(key_le(s[s.len() - 2], s[s.len() - 1]));
            assert(spec_sort_entries(s.drop_last()).last() == s[s.len() - 2]);
        }
        assert(spec_insert_sorted(s.drop_last(), s.last()) =~= s);
    }
    if !sorted_by_date(s) {
        lemma_sort_entries_sorted(s);
        lemma_sort_entries_idempotent_aux(spec_sort_entries(s));
    }
}

/// Helper: a sorted sequence is a fixed point of the sort.
proof fn lemma_sort_entries_idempotent_aux(s: Seq<AttributionEntryView>)
    requires
        sorted_by_date(s),
    ensures
        spec_sort_entries(s) == s,
    decreases s.len(),
{
    if s.len() > 0 {
        assert(forall|i: int, j: int|
            0 <= i < j < s.drop_last().len() ==> key_le(
                #[trigger] s.drop_last()[i],
                #[trigger] s.drop_last()[j],
            ));
        lemma_sort_entries_idempotent_aux(s.drop_last());
        if s.len() >= 2 {
            assert(key_le(s[s.len() - 2], s[s.len() - 1]));
        }
        assert(spec_insert_sorted(s.drop_last(), s.last()) =~= s);
    }
}

/// Display order of two concrete entries.
fn entry_key_le(a: &AttributionEntry, b: &AttributionEntry) -> (r: bool)
    ensures
        r == key_le(a@, b@),
{
    let ka: &str = match &a.date {
        Some(d) => d.as_str(),
        None => "",
    };
    let kb: &str = match &b.date {
        Some(d) => d.as_str(),
        None => "",
    };
    proof {
        reveal_strlit("");
        assert(""@ =~= Seq::<char>::empty());
    }
    str_lex_le(ka, kb)
}

impl Attribution {
    /// Sorts the entries into display order: ascending by date, an
    /// absent date first, entries with equal dates keeping their
    /// relative input order.
    ///
    /// Applied before persistence so read order is deterministic
    /// regardless of write order; sorting an already sorted record is
    /// a no-op.
    pub fn sort(&mut self)
        ensures
            final(self)@ == spec_sort_entries(old(self)@),
    {
        let ghost orig = entries_view(old(self).0@);
        let mut out: Vec<AttributionEntry> = Vec::new();
        proof {
            assert(orig.take(0) =~= Seq::<AttributionEntryView>::empty());
        }
        let mut taken: usize = 0;
        while self.0.len() > 0
            invariant
                orig == entries_view(old(self).0@),
                taken + self.0.len() == old(self).0.len(),
                entries_view(self.0@) == orig.skip(taken as int),
                entries_view(out@) == spec_sort_entries(orig.take(taken as int)),
            decreases self.0.len(),
        {
            let ghost prev = self.0@;
            let e = self.0.remove(0);
            proof {
                prev.remove_ensures(0);
                assert(entries_view(prev)[0] == prev[0]@);
                assert(orig.skip(taken as int)[0] == orig[taken as int]);
                assert(e@ == orig[taken as int]);
                assert forall|jj: int|
                    0 <= jj < self.0@.len() implies entries_view(self.0@)[jj] == orig.skip(
                    taken as int + 1,
                )[jj] by {
                    assert(self.0@[jj] == prev[jj + 1]);
                    assert(entries_view(self.0@)[jj] == self.0@[jj]@);
                    assert(entries_view(prev)[jj + 1] == prev[jj + 1]@);
                    assert(orig.skip(taken as int)[jj + 1] == orig[taken as int + 1 + jj]);
                    assert(orig.skip(taken as int + 1)[jj] == orig[taken as int + 1 + jj]);
                }
                assert(entries_view(self.0@) =~= orig.skip(taken as int + 1));
            }
            let mut j: usize = out.len();
            while j > 0 && !entry_key_le(&out[j - 1], &e)
                invariant
                    0 <= j <= out.len(),
                    forall|i: int|
                        j <= i < out@.len() ==> !key_le(#[trigger] out@[i]@, e@),
                decreases j,
            {
                proof {
                    assert(out@[j - 1]@ == out@[j as int - 1]@);
                }
                j = j - 1;
            }
            let ghost out_before = entries_view(out@);
            let ghost pre_vec = out@;
            proof {
                assert forall|i: int|
                    j <= i < out_before.len() implies !key_le(#[trigger] out_before[i], e@) by {
                    assert(out_before[i] == pre_vec[i]@);
                }
                if j > 0 {
                    assert(out_before[j - 1] == pre_vec[j - 1]@);
                }
                lemma_insert_sorted_at(out_before, e@, j as int);
            }
            out.insert(j, e);
            proof {
                pre_vec.insert_ensures(j as int, e);
                out_before.insert_ensures(j as int, e@);
                assert forall|ii: int|
                    0 <= ii < out@.len() implies entries_view(out@)[ii] == out_before.insert(
                    j as int,
                    e@,
                )[ii] by {
                    assert(entries_view(out@)[ii] == out@[ii]@);
                    if ii < j {
                        assert(out@[ii] == pre_vec[ii]);
                        assert(out_before[ii] == pre_vec[ii]@);
                    } else if ii == j {
                        assert(out@[ii] == e);
                    } else {
                        assert(out@[ii] == pre_vec[ii - 1]);
                        assert(out_before[ii - 1] == pre_vec[ii - 1]@);
                    }
                }
                assert(entries_view(out@) =~= out_before.insert(j as int, e@));
                assert(orig.take(taken as int + 1).drop_last() =~= orig.take(taken as int));
                assert(orig.take(taken as int + 1).last() == orig[taken as int]);
            }
            taken = taken + 1;
        }
        proof {
            assert(orig.take(taken as int) =~= orig);
        }
        self.0 = out;
    }
}

} // verus!
