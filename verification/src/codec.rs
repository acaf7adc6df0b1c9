//! Conversion between a structured attribution entry and the
//! schema-less key-value item the store persists, and the validation
//! that guards it.

use vstd::prelude::*;
use crate::attribution::{
    spec_field_name, spec_type_of_name, AttributionEntry, AttributionEntryView, AttributionType,
};
use crate::text::{
    dec_digits, is_digit, lemma_parse_of_dec, parse_u32, spec_parse_u32, spec_trim, str_eq, trim,
    u32_to_dec,
};

verus! {

/// One attribute of a schema-less store item: the wire shapes a stored
/// field can take.
#[derive(Debug, Clone, PartialEq)]
pub enum ItemValue {
    /// A string attribute.
    Str(String),
    /// A numeric attribute, carried on the wire as decimal text.
    Num(String),
    /// An explicit null attribute.
    Null,
}

/// The mathematical value of one stored attribute.
pub enum ItemValueView {
    Str(Seq<char>),
    Num(Seq<char>),
    Null,
}

impl View for ItemValue {
    type V = ItemValueView;

    open spec fn view(&self) -> ItemValueView {
        match self {
            ItemValue::Str(s) => ItemValueView::Str(s@),
            ItemValue::Num(s) => ItemValueView::Num(s@),
            ItemValue::Null => ItemValueView::Null,
        }
    }
}

/// The persisted form of one entry: a map with the fixed keys `type`,
/// `user_name`, `user_id` and `date`, each holding one attribute.
#[derive(Debug, Clone, PartialEq)]
pub struct EntryItem {
    pub entry_type: ItemValue,
    pub user_name: ItemValue,
    pub user_id: ItemValue,
    pub date: ItemValue,
}

/// The mathematical value of one persisted entry.
pub struct EntryItemView {
    pub entry_type: ItemValueView,
    pub user_name: ItemValueView,
    pub user_id: ItemValueView,
    pub date: ItemValueView,
}

impl View for EntryItem {
    type V = EntryItemView;

    open spec fn view(&self) -> EntryItemView {
        EntryItemView {
            entry_type: self.entry_type@,
            user_name: self.user_name@,
            user_id: self.user_id@,
            date: self.date@,
        }
    }
}

/// The view of a sequence of persisted entries.
pub open spec fn items_view(s: Seq<EntryItem>) -> Seq<EntryItemView> {
    s.map_values(|i: EntryItem| i@)
}

/// A user-correctable fault in an entry handed in for storage.
#[derive(Debug, Clone, PartialEq)]
pub enum ValidationError {
    /// The user name is empty, or only whitespace.
    EmptyUserName,
    /// The date does not match `YYYY-MM-DD`; carries the offending
    /// value.
    InvalidDateFormat(String),
}

/// The mathematical value of a validation error.
pub enum ValidationErrorView {
    EmptyUserName,
    InvalidDateFormat(Seq<char>),
}

impl View for ValidationError {
    type V = ValidationErrorView;

    open spec fn view(&self) -> ValidationErrorView {
        match self {
            ValidationError::EmptyUserName => ValidationErrorView::EmptyUserName,
            ValidationError::InvalidDateFormat(d) => ValidationErrorView::InvalidDateFormat(d@),
        }
    }
}

/// A stored item whose shape is not what this library writes: an
/// integrity violation of the store, not a recoverable input error.
#[derive(Debug, Clone, Copy, PartialEq, Eq, Structural)]
pub enum IntegrityError {
    /// The `type` attribute is not a string.
    TypeNotString,
    /// The `type` attribute names no known attribution type.
    UnknownType,
    /// The `user_name` attribute is not a string.
    UserNameNotString,
    /// The `user_id` attribute is neither numeric nor null.
    UserIdNotNumeric,
    /// The `user_id` attribute does not read as a positive integer.
    UserIdInvalid,
    /// The `date` attribute is neither a string nor null.
    DateNotString,
}

/// The user-facing message of a validation fault.
pub open spec fn spec_validation_message(v: ValidationErrorView) -> Seq<char> {
    match v {
        ValidationErrorView::EmptyUserName => {
            "Username cannot be an empty string or only whitespace"@
        },
        ValidationErrorView::InvalidDateFormat(d) => {
            "Date value '"@ + d + "' is invalid (must be YYYY-MM-DD)"@
        },
    }
}

impl ValidationError {
    /// The descriptive message this fault surfaces with.
    pub fn message(&self) -> (r: String)
        ensures
            r@ == spec_validation_message(self@),
    {
        match self {
            ValidationError::EmptyUserName => {
                String::from_str("Username cannot be an empty string or only whitespace")
            },
            ValidationError::InvalidDateFormat(d) => {
                let mut m = String::from_str("Date value '");
                m.append(d.as_str());
                m.append("' is invalid (must be YYYY-MM-DD)");
                proof {
                    assert(m@ =~= spec_validation_message(self@));
                }
                m
            },
        }
    }
}

/// The diagnostic message of an integrity violation.
pub open spec fn spec_integrity_message(e: IntegrityError) -> Seq<char> {
    match e {
        IntegrityError::TypeNotString => "Field 'type' not string"@,
        IntegrityError::UnknownType => "Field 'type' not a valid attribution type name"@,
        IntegrityError::UserNameNotString => "Field 'user_name' not string"@,
        IntegrityError::UserIdNotNumeric => "Field 'user_id' not number or null"@,
        IntegrityError::UserIdInvalid => "Field 'user_id' not valid integer value"@,
        IntegrityError::DateNotString => "Field 'date' not string or null"@,
    }
}

impl IntegrityError {
    /// The diagnostic message this violation surfaces with.
    pub fn message(self) -> (r: &'static str)
        ensures
            r@ == spec_integrity_message(self),
    {
        match self {
            IntegrityError::TypeNotString => "Field 'type' not string",
            IntegrityError::UnknownType => "Field 'type' not a valid attribution type name",
            IntegrityError::UserNameNotString => "Field 'user_name' not string",
            IntegrityError::UserIdNotNumeric => "Field 'user_id' not number or null",
            IntegrityError::UserIdInvalid => "Field 'user_id' not valid integer value",
            IntegrityError::DateNotString => "Field 'date' not string or null",
        }
    }
}

/// Whether a sequence matches `YYYY-MM-DD` exactly: four digits, a
/// dash, two digits, a dash, two digits. No calendar check is made.
pub open spec fn is_date_format(s: Seq<char>) -> bool {
    &&& s.len() == 10
    &&& is_digit(s[0])
    &&& is_digit(s[1])
    &&& is_digit(s[2])
    &&& is_digit(s[3])
    &&& s[4] == '-'
    &&& is_digit(s[5])
    &&& is_digit(s[6])
    &&& s[7] == '-'
    &&& is_digit(s[8])
    &&& is_digit(s[9])
}

/// Checks a date against the `YYYY-MM-DD` pattern.
pub fn date_format_ok(s: &str) -> (r: bool)
    ensures
        r == is_date_format(s@),
{
    let len = s.unicode_len();
    if len != 10 {
        return false;
    }
    let mut i: usize = 0;
    while i < 10
        invariant
            s@.len() == 10,
            0 <= i <= 10,
            forall|j: int|
                0 <= j < i ==> if j == 4 || j == 7 {
                    s@[j] == '-'
                } else {
                    is_digit(#[trigger] s@[j])
                },
        decreases 10 - i,
    {
        let c = s.get_char(i);
        if i == 4 || i == 7 {
            if c != '-' {
                return false;
            }
        } else {
            if c < '0' || c > '9' {
                return false;
            }
        }
        i = i + 1;
    }
    true
}

/// What encoding an entry produces: the validated, trimmed persisted
/// form, or the first validation fault.
pub open spec fn spec_encode(e: AttributionEntryView) -> Result<EntryItemView, ValidationErrorView> {
    if spec_trim(e.user_name).len() == 0 {
        Err(ValidationErrorView::EmptyUserName)
    } else if e.date matches Some(d) && !is_date_format(d) {
        Err(ValidationErrorView::InvalidDateFormat(e.date->Some_0))
    } else {
        Ok(
            EntryItemView {
                entry_type: ItemValueView::Str(spec_field_name(e.attribution_type)),
                user_name: ItemValueView::Str(spec_trim(e.user_name)),
                user_id: match e.user_id {
                    Some(n) => ItemValueView::Num(dec_digits(n as int)),
                    None => ItemValueView::Null,
                },
                date: match e.date {
                    Some(d) => ItemValueView::Str(d),
                    None => ItemValueView::Null,
                },
            },
        )
    }
}

/// What decoding a stored item produces: the entry it denotes, or the
/// first shape violation found.
pub open spec fn spec_decode(i: EntryItemView) -> Result<AttributionEntryView, IntegrityError> {
    match i.entry_type {
        ItemValueView::Str(name) => match spec_type_of_name(name) {
            Some(t) => match i.user_name {
                ItemValueView::Str(un) => {
                    let user_id = match i.user_id {
                        ItemValueView::Null => Ok(None),
                        ItemValueView::Num(ns) => match spec_parse_u32(ns) {
                            Some(n) => if n > 0 {
                                Ok(Some(n))
                            } else {
                                Err(IntegrityError::UserIdInvalid)
                            },
                            None => Err(IntegrityError::UserIdInvalid),
                        },
                        _ => Err(IntegrityError::UserIdNotNumeric),
                    };
                    match user_id {
                        Ok(uid) => match i.date {
                            ItemValueView::Null => Ok(
                                AttributionEntryView {
                                    attribution_type: t,
                                    user_name: un,
                                    user_id: uid,
                                    date: None,
                                },
                            ),
                            ItemValueView::Str(d) => Ok(
                                AttributionEntryView {
                                    attribution_type: t,
                                    user_name: un,
                                    user_id: uid,
                                    date: Some(d),
                                },
                            ),
                            _ => Err(IntegrityError::DateNotString),
                        },
                        Err(er) => Err(er),
                    }
                },
                _ => Err(IntegrityError::UserNameNotString),
            },
            None => Err(IntegrityError::UnknownType),
        },
        _ => Err(IntegrityError::TypeNotString),
    }
}

/// Converts one entry to its persisted form: trims the user name,
/// rejects an empty trimmed name and a malformed date, and lays the
/// four attributes out under their fixed keys.
pub fn encode_entry(e: &AttributionEntry) -> (r: Result<EntryItem, ValidationError>)
    requires
        e@.wf(),
    ensures
        r is Ok <==> spec_encode(e@) is Ok,
        r matches Ok(item) ==> item@ == spec_encode(e@)->Ok_0,
        r matches Err(err) ==> spec_encode(e@) matches Err(ev) && err@ == ev,
{
    let user_name = trim(e.user_name.as_str());
    if user_name.as_str().is_empty() {
        return Err(ValidationError::EmptyUserName);
    }
    if let Some(date) = &e.date {
        if !date_format_ok(date.as_str()) {
            return Err(ValidationError::InvalidDateFormat(date.clone()));
        }
    }
    let user_id = match e.user_id {
        Some(n) => ItemValue::Num(u32_to_dec(n)),
        None => ItemValue::Null,
    };
    let date = match &e.date {
        Some(d) => ItemValue::Str(d.clone()),
        None => ItemValue::Null,
    };
    Ok(
        EntryItem {
            entry_type: ItemValue::Str(String::from_str(e.attribution_type.field_name())),
            user_name: ItemValue::Str(user_name),
            user_id,
            date,
        },
    )
}

/// Reads one persisted item back into an entry; any shape other than
/// what [`encode_entry`] writes is an integrity error.
pub fn decode_entry(i: &EntryItem) -> (r: Result<AttributionEntry, IntegrityError>)
    ensures
        r is Ok <==> spec_decode(i@) is Ok,
        r matches Ok(e) ==> e@ == spec_decode(i@)->Ok_0,
        r matches Err(er) ==> spec_decode(i@) matches Err(ev) && er == ev,
{
    let name = match &i.entry_type {
        ItemValue::Str(s) => s,
        _ => {
            return Err(IntegrityError::TypeNotString);
        },
    };
    let attribution_type = match AttributionType::from_name(name.as_str()) {
        Ok(t) => t,
        Err(_) => {
            return Err(IntegrityError::UnknownType);
        },
    };
    let user_name = match &i.user_name {
        ItemValue::Str(s) => s.clone(),
        _ => {
            return Err(IntegrityError::UserNameNotString);
        },
    };
    let user_id = match &i.user_id {
        ItemValue::Null => None,
        ItemValue::Num(ns) => match parse_u32(ns.as_str()) {
            Some(n) => if n > 0 {
                Some(n)
            } else {
                return Err(IntegrityError::UserIdInvalid);
            },
            None => {
                return Err(IntegrityError::UserIdInvalid);
            },
        },
        _ => {
            return Err(IntegrityError::UserIdNotNumeric);
        },
    };
    let date = match &i.date {
        ItemValue::Null => None,
        ItemValue::Str(d) => Some(d.clone()),
        _ => {
            return Err(IntegrityError::DateNotString);
        },
    };
    Ok(AttributionEntry { attribution_type, user_name, user_id, date })
}

/// A decoded entry of a well-shaped item is well formed: its user
/// identifier, when present, is strictly positive.
pub proof fn lemma_decode_wf(i: EntryItemView)
    ensures
        spec_decode(i) matches Ok(e) ==> e.wf(),
{
}

/// Round trip: decoding what encoding produced gives back the entry,
/// normalized by the user-name trim.
pub proof fn lemma_encode_decode_round_trip(e: AttributionEntryView)
    requires
        e.wf(),
        spec_encode(e) is Ok,
    ensures
        spec_decode(spec_encode(e)->Ok_0) == Ok::<AttributionEntryView, IntegrityError>(
            e.normalize(),
        ),
{
    crate::attribution::lemma_field_name_bijective(e.attribution_type);
    match e.user_id {
        Some(n) => lemma_parse_of_dec(n),
        None => (),
    }
}

/// Normalization is idempotent: trimming a trimmed user name changes
/// nothing, so the round trip settles after one encode.
pub proof fn lemma_normalize_idempotent(e: AttributionEntryView)
    ensures
        e.normalize().normalize() == e.normalize(),
{
    crate::text::lemma_trim_idempotent(e.user_name);
}

/// What encoding a whole record produces: every entry encoded in
/// order, or the first validation fault, which aborts the batch.
pub open spec fn spec_encode_all(s: Seq<AttributionEntryView>) -> Result<
    Seq<EntryItemView>,
    ValidationErrorView,
>
    decreases s.len(),
{
    if s.len() == 0 {
        Ok(Seq::empty())
    } else {
        match spec_encode(s[0]) {
            Err(e) => Err(e),
            Ok(i) => match spec_encode_all(s.skip(1)) {
                Err(e) => Err(e),
                Ok(rest) => Ok(seq![i] + rest),
            },
        }
    }
}

/// What decoding a stored record produces: every item decoded in store
/// order, or the first integrity violation.
pub open spec fn spec_decode_all(s: Seq<EntryItemView>) -> Result<
    Seq<AttributionEntryView>,
    IntegrityError,
>
    decreases s.len(),
{
    if s.len() == 0 {
        Ok(Seq::empty())
    } else {
        match spec_decode(s[0]) {
            Err(e) => Err(e),
            Ok(entry) => match spec_decode_all(s.skip(1)) {
                Err(e) => Err(e),
                Ok(rest) => Ok(seq![entry] + rest),
            },
        }
    }
}

/// When every entry encodes, the whole record encodes to the entries
/// in order.
proof fn lemma_encode_all_ok(s: Seq<AttributionEntryView>)
    requires
        forall|m: int| 0 <= m < s.len() ==> spec_encode(#[trigger] s[m]) is Ok,
    ensures
        spec_encode_all(s) == Ok::<_, ValidationErrorView>(
            Seq::new(s.len(), |m: int| spec_encode(s[m])->Ok_0),
        ),
    decreases s.len(),
{
    if s.len() > 0 {
        assert forall|m: int| 0 <= m < s.skip(1).len() implies spec_encode(
            #[trigger] s.skip(1)[m],
        ) is Ok by {
            assert(s.skip(1)[m] == s[m + 1]);
        }
        lemma_encode_all_ok(s.skip(1));
        assert(seq![spec_encode(s[0])->Ok_0] + Seq::new(
            s.skip(1).len(),
            |m: int| spec_encode(s.skip(1)[m])->Ok_0,
        ) =~= Seq::new(s.len(), |m: int| spec_encode(s[m])->Ok_0));
    } else {
        assert(Seq::new(s.len(), |m: int| spec_encode(s[m])->Ok_0) =~= Seq::empty());
    }
}

/// The first entry that fails validation decides the batch error.
proof fn lemma_encode_all_err(s: Seq<AttributionEntryView>, i: int)
    requires
        0 <= i < s.len(),
        forall|m: int| 0 <= m < i ==> spec_encode(#[trigger] s[m]) is Ok,
        spec_encode(s[i]) is Err,
    ensures
        spec_encode_all(s) == Err::<Seq<EntryItemView>, _>(spec_encode(s[i])->Err_0),
    decreases i,
{
    if i > 0 {
        assert forall|m: int| 0 <= m < i - 1 implies spec_encode(#[trigger] s.skip(1)[m]) is Ok by {
            assert(s.skip(1)[m] == s[m + 1]);
        }
        assert(s.skip(1)[i - 1] == s[i]);
        lemma_encode_all_err(s.skip(1), i - 1);
    }
}

/// When every item decodes, the whole record decodes to the entries in
/// store order.
proof fn lemma_decode_all_ok(s: Seq<EntryItemView>)
    requires
        forall|m: int| 0 <= m < s.len() ==> spec_decode(#[trigger] s[m]) is Ok,
    ensures
        spec_decode_all(s) == Ok::<_, IntegrityError>(
            Seq::new(s.len(), |m: int| spec_decode(s[m])->Ok_0),
        ),
    decreases s.len(),
{
    if s.len() > 0 {
        assert forall|m: int| 0 <= m < s.skip(1).len() implies spec_decode(
            #[trigger] s.skip(1)[m],
        ) is Ok by {
            assert(s.skip(1)[m] == s[m + 1]);
        }
        lemma_decode_all_ok(s.skip(1));
        assert(seq![spec_decode(s[0])->Ok_0] + Seq::new(
            s.skip(1).len(),
            |m: int| spec_decode(s.skip(1)[m])->Ok_0,
        ) =~= Seq::new(s.len(), |m: int| spec_decode(s[m])->Ok_0));
    } else {
        assert(Seq::new(s.len(), |m: int| spec_decode(s[m])->Ok_0) =~= Seq::empty());
    }
}

/// The first item that violates the expected shape decides the batch
/// error.
proof fn lemma_decode_all_err(s: Seq<EntryItemView>, i: int)
    requires
        0 <= i < s.len(),
        forall|m: int| 0 <= m < i ==> spec_decode(#[trigger] s[m]) is Ok,
        spec_decode(s[i]) is Err,
    ensures
        spec_decode_all(s) == Err::<Seq<AttributionEntryView>, _>(spec_decode(s[i])->Err_0),
    decreases i,
{
    if i > 0 {
        assert forall|m: int| 0 <= m < i - 1 implies spec_decode(#[trigger] s.skip(1)[m]) is Ok by {
            assert(s.skip(1)[m] == s[m + 1]);
        }
        assert(s.skip(1)[i - 1] == s[i]);
        lemma_decode_all_err(s.skip(1), i - 1);
    }
}

/// Encodes a whole record, in order, stopping at the first entry that
/// fails validation: the page record is written atomically or not at
/// all.
pub fn encode_all(entries: &Vec<AttributionEntry>) -> (r: Result<Vec<EntryItem>, ValidationError>)
    requires
        forall|m: int|
            0 <= m < entries@.len() ==> (#[trigger] entries@[m])@.wf(),
    ensures
        r is Ok <==> spec_encode_all(crate::attribution::entries_view(entries@)) is Ok,
        r matches Ok(items) ==> items_view(items@) == spec_encode_all(
            crate::attribution::entries_view(entries@),
        )->Ok_0,
        r matches Err(err) ==> spec_encode_all(crate::attribution::entries_view(entries@))
            matches Err(ev) && err@ == ev,
{
    let ghost s = crate::attribution::entries_view(entries@);
    let mut out: Vec<EntryItem> = Vec::new();
    let mut i: usize = 0;
    while i < entries.len()
        invariant
            s == crate::attribution::entries_view(entries@),
            forall|m: int| 0 <= m < entries@.len() ==> (#[trigger] entries@[m])@.wf(),
            0 <= i <= entries@.len(),
            s.len() == entries@.len(),
            forall|m: int| 0 <= m < i ==> spec_encode(#[trigger] s[m]) is Ok,
            out@.len() == i,
            forall|m: int| 0 <= m < i ==> (#[trigger] out@[m])@ == spec_encode(s[m])->Ok_0,
        decreases entries@.len() - i,
    {
        proof {
            assert(s[i as int] == entries@[i as int]@);
        }
        match encode_entry(&entries[i]) {
            Ok(item) => {
                out.push(item);
            },
            Err(err) => {
                proof {
                    lemma_encode_all_err(s, i as int);
                }
                return Err(err);
            },
        }
        i = i + 1;
    }
    proof {
        lemma_encode_all_ok(s);
        assert forall|m: int| 0 <= m < out@.len() implies items_view(out@)[m] == spec_encode_all(
            s,
        )->Ok_0[m] by {
            assert(items_view(out@)[m] == out@[m]@);
        }
        assert(items_view(out@) =~= spec_encode_all(s)->Ok_0);
    }
    Ok(out)
}

/// Decodes a whole stored record, in store order, stopping at the
/// first item whose shape is violated.
pub fn decode_all(items: &Vec<EntryItem>) -> (r: Result<Vec<AttributionEntry>, IntegrityError>)
    ensures
        r is Ok <==> spec_decode_all(items_view(items@)) is Ok,
        r matches Ok(entries) ==> crate::attribution::entries_view(entries@) == spec_decode_all(
            items_view(items@),
        )->Ok_0,
        r matches Err(er) ==> spec_decode_all(items_view(items@)) matches Err(ev) && er == ev,
{
    let ghost s = items_view(items@);
    let mut out: Vec<AttributionEntry> = Vec::new();
    let mut i: usize = 0;
    while i < items.len()
        invariant
            s == items_view(items@),
            0 <= i <= items@.len(),
            s.len() == items@.len(),
            forall|m: int| 0 <= m < i ==> spec_decode(#[trigger] s[m]) is Ok,
            out@.len() == i,
            forall|m: int| 0 <= m < i ==> (#[trigger] out@[m])@ == spec_decode(s[m])->Ok_0,
        decreases items@.len() - i,
    {
        proof {
            assert(s[i as int] == items@[i as int]@);
        }
        match decode_entry(&items[i]) {
            Ok(entry) => {
                out.push(entry);
            },
            Err(er) => {
                proof {
                    lemma_decode_all_err(s, i as int);
                }
                return Err(er);
            },
        }
        i = i + 1;
    }
    proof {
        lemma_decode_all_ok(s);
        assert forall|m: int| 0 <= m < out@.len() implies crate::attribution::entries_view(
            out@,
        )[m] == spec_decode_all(s)->Ok_0[m] by {
            assert(crate::attribution::entries_view(out@)[m] == out@[m]@);
        }
        assert(crate::attribution::entries_view(out@) =~= spec_decode_all(s)->Ok_0);
    }
    Ok(out)
}

} // verus!
