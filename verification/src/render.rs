//! Rendering of values onto the JSON wire: string escaping, the
//! uniform result envelope, and the entry and listing encodings.

use vstd::prelude::*;
use crate::attribution::{
    spec_field_name, Attribution, AttributionEntry, AttributionEntryView, FullAttribution,
    FullAttributionView,
};
use crate::text::{dec_digits, u32_to_dec};

verus! {

/// The hexadecimal digit character for a value below sixteen.
pub open spec fn hex_char(d: int) -> char {
    if d < 10 {
        ((d + 48) as u8) as char
    } else {
        ((d + 87) as u8) as char
    }
}

/// How one character appears inside a JSON string: quote, backslash
/// and control characters are escaped, everything else stands as is.
pub open spec fn esc_char(c: char) -> Seq<char> {
    if c == '"' {
        "\\\""@
    } else if c == '\\' {
        "\\\\"@
    } else if c == '\u{8}' {
        "\\b"@
    } else if c == '\u{c}' {
        "\\f"@
    } else if c == '\n' {
        "\\n"@
    } else if c == '\r' {
        "\\r"@
    } else if c == '\t' {
        "\\t"@
    } else if (c as int) < 32 {
        "\\u00"@ + seq![hex_char(c as int / 16), hex_char(c as int % 16)]
    } else {
        seq![c]
    }
}

/// A sequence of characters escaped for a JSON string body.
pub open spec fn json_escaped(s: Seq<char>) -> Seq<char>
    decreases s.len(),
{
    if s.len() == 0 {
        Seq::empty()
    } else {
        json_escaped(s.drop_last()) + esc_char(s.last())
    }
}

/// A JSON string: the escaped body between double quotes.
pub open spec fn json_string(s: Seq<char>) -> Seq<char> {
    seq!['"'] + json_escaped(s) + seq!['"']
}

/// The hexadecimal digit string for a value below sixteen.
fn hex_str(d: u32) -> (r: &'static str)
    requires
        d < 16,
    ensures
        r@ == seq![hex_char(d as int)],
{
    let r: &'static str = match d {
        0 => "0",
        1 => "1",
        2 => "2",
        3 => "3",
        4 => "4",
        5 => "5",
        6 => "6",
        7 => "7",
        8 => "8",
        9 => "9",
        10 => "a",
        11 => "b",
        12 => "c",
        13 => "d",
        14 => "e",
        _ => "f",
    };
    proof {
        reveal_strlit("0");
        reveal_strlit("1");
        reveal_strlit("2");
        reveal_strlit("3");
        reveal_strlit("4");
        reveal_strlit("5");
        reveal_strlit("6");
        reveal_strlit("7");
        reveal_strlit("8");
        reveal_strlit("9");
        reveal_strlit("a");
        reveal_strlit("b");
        reveal_strlit("c");
        reveal_strlit("d");
        reveal_strlit("e");
        reveal_strlit("f");
        assert(r@ =~= seq![hex_char(d as int)]);
    }
    r
}

/// Writes one escaped character onto the output.
fn append_esc_char(out: &mut String, s: &str, i: usize)
    requires
        i < s@.len(),
        s@.len() <= usize::MAX,
    ensures
        final(out)@ == old(out)@ + esc_char(s@[i as int]),
{
    let c = s.get_char(i);
    if c == '"' {
        out.append("\\\"");
    } else if c == '\\' {
        out.append("\\\\");
    } else if c == '\u{8}' {
        out.append("\\b");
    } else if c == '\u{c}' {
        out.append("\\f");
    } else if c == '\n' {
        out.append("\\n");
    } else if c == '\r' {
        out.append("\\r");
    } else if c == '\t' {
        out.append("\\t");
    } else if (c as u32) < 32 {
        out.append("\\u00");
        out.append(hex_str((c as u32) / 16));
        out.append(hex_str((c as u32) % 16));
        proof {
            assert(out@ =~= old(out)@ + esc_char(s@[i as int]));
        }
    } else {
        let piece = s.substring_char(i, i + 1);
        proof {
            assert(piece@ =~= seq![s@[i as int]]);
        }
        out.append(piece);
    }
}

/// Writes the escaped body of a string onto the output.
fn append_escaped(out: &mut String, s: &str)
    ensures
        final(out)@ == old(out)@ + json_escaped(s@),
{
    let len = s.unicode_len();
    let mut i: usize = 0;
    proof {
        assert(json_escaped(s@.take(0)) =~= Seq::<char>::empty());
        assert(old(out)@ + Seq::<char>::empty() =~= old(out)@);
    }
    while i < len
        invariant
            len == s@.len(),
            0 <= i <= len,
            out@ == old(out)@ + json_escaped(s@.take(i as int)),
        decreases len - i,
    {
        proof {
            assert(s@.take(i as int + 1).drop_last() =~= s@.take(i as int));
            assert(s@.take(i as int + 1).last() == s@[i as int]);
        }
        append_esc_char(out, s, i);
        proof {
            assert(out@ =~= old(out)@ + json_escaped(s@.take(i as int + 1)));
        }
        i = i + 1;
    }
    proof {
        assert(s@.take(len as int) =~= s@);
    }
}

/// Writes a whole JSON string, quotes included, onto the output.
pub fn append_json_string(out: &mut String, s: &str)
    ensures
        final(out)@ == old(out)@ + json_string(s@),
{
    out.append("\"");
    append_escaped(out, s);
    out.append("\"");
    proof {
        reveal_strlit("\"");
        assert("\""@ =~= seq!['"']);
        assert(out@ =~= old(out)@ + json_string(s@));
    }
}

/// The view of a sequence of owned strings.
pub open spec fn strings_view(s: Seq<String>) -> Seq<Seq<char>> {
    s.map_values(|x: String| x@)
}

/// The comma-joined bodies of a string array.
pub open spec fn spec_strings_joined(s: Seq<Seq<char>>) -> Seq<char>
    decreases s.len(),
{
    if s.len() == 0 {
        Seq::empty()
    } else if s.len() == 1 {
        json_string(s[0])
    } else {
        spec_strings_joined(s.drop_last()) + ","@ + json_string(s.last())
    }
}

/// An array of strings on the JSON wire.
pub open spec fn spec_string_array_json(s: Seq<Seq<char>>) -> Seq<char> {
    "["@ + spec_strings_joined(s) + "]"@
}

/// Writes an array of strings onto the output.
pub fn append_string_array(out: &mut String, items: &Vec<String>)
    ensures
        final(out)@ == old(out)@ + spec_string_array_json(strings_view(items@)),
{
    let ghost s = strings_view(items@);
    out.append("[");
    let mut i: usize = 0;
    proof {
        assert(spec_strings_joined(s.take(0)) =~= Seq::<char>::empty());
        assert(out@ =~= old(out)@ + "["@ + spec_strings_joined(s.take(0)));
    }
    while i < items.len()
        invariant
            s == strings_view(items@),
            s.len() == items@.len(),
            0 <= i <= items@.len(),
            out@ == old(out)@ + "["@ + spec_strings_joined(s.take(i as int)),
        decreases items@.len() - i,
    {
        if i > 0 {
            out.append(",");
        }
        proof {
            assert(s[i as int] == items@[i as int]@);
            assert(s.take(i as int + 1).drop_last() =~= s.take(i as int));
            assert(s.take(i as int + 1).last() == s[i as int]);
            if i == 0 {
                assert(s.take(1).len() == 1);
            }
        }
        append_json_string(out, items[i].as_str());
        proof {
            assert(out@ =~= old(out)@ + "["@ + spec_strings_joined(s.take(i as int + 1)));
        }
        i = i + 1;
    }
    out.append("]");
    proof {
        assert(s.take(s.len() as int) =~= s);
        assert(out@ =~= old(out)@ + spec_string_array_json(s));
    }
}

/// The success envelope around a string datum.
pub open spec fn spec_success_json(data: Seq<char>) -> Seq<char> {
    "{\"error\":null,\"data\":\""@ + json_escaped(data) + "\"}"@
}

/// The error envelope: an error code and a descriptive message.
pub open spec fn spec_error_json(error: Seq<char>, message: Seq<char>) -> Seq<char> {
    "{\"error\":\""@ + json_escaped(error) + "\",\"message\":\""@ + json_escaped(message) + "\"}"@
}

/// Renders the success envelope around a string datum.
pub fn render_success_str(data: &str) -> (r: String)
    ensures
        r@ == spec_success_json(data@),
{
    let mut out = String::new();
    out.append("{\"error\":null,\"data\":\"");
    append_escaped(&mut out, data);
    out.append("\"}");
    proof {
        assert(out@ =~= spec_success_json(data@));
    }
    out
}

/// One entry on the JSON wire: its type name, user name, optional
/// numeric user identifier and optional date, under their fixed keys.
pub open spec fn spec_entry_json(e: AttributionEntryView) -> Seq<char> {
    "{\"type\":"@ + json_string(spec_field_name(e.attribution_type)) + ",\"user_name\":"@
        + json_string(e.user_name) + ",\"user_id\":"@ + (match e.user_id {
        Some(n) => dec_digits(n as int),
        None => "null"@,
    }) + ",\"date\":"@ + (match e.date {
        Some(d) => json_string(d),
        None => "null"@,
    }) + "}"@
}

/// The comma-joined bodies of an entry array.
pub open spec fn spec_entries_joined(s: Seq<AttributionEntryView>) -> Seq<char>
    decreases s.len(),
{
    if s.len() == 0 {
        Seq::empty()
    } else if s.len() == 1 {
        spec_entry_json(s[0])
    } else {
        spec_entries_joined(s.drop_last()) + ","@ + spec_entry_json(s.last())
    }
}

/// An attribution record on the JSON wire: the array of its entries.
pub open spec fn spec_attribution_json(s: Seq<AttributionEntryView>) -> Seq<char> {
    "["@ + spec_entries_joined(s) + "]"@
}

/// Writes one entry onto the output.
pub fn append_entry_json(out: &mut String, e: &AttributionEntry)
    ensures
        final(out)@ == old(out)@ + spec_entry_json(e@),
{
    out.append("{\"type\":");
    append_json_string(out, e.attribution_type.field_name());
    out.append(",\"user_name\":");
    append_json_string(out, e.user_name.as_str());
    out.append(",\"user_id\":");
    match e.user_id {
        Some(n) => {
            let ds = u32_to_dec(n);
            out.append(ds.as_str());
        },
        None => {
            out.append("null");
        },
    }
    out.append(",\"date\":");
    match &e.date {
        Some(d) => {
            append_json_string(out, d.as_str());
        },
        None => {
            out.append("null");
        },
    }
    out.append("}");
    proof {
        assert(out@ =~= old(out)@ + spec_entry_json(e@));
    }
}

/// Writes an attribution record, as the array of its entries, onto
/// the output.
pub fn append_attribution_json(out: &mut String, entries: &Vec<AttributionEntry>)
    ensures
        final(out)@ == old(out)@ + spec_attribution_json(
            crate::attribution::entries_view(entries@),
        ),
{
    let ghost s = crate::attribution::entries_view(entries@);
    out.append("[");
    let mut i: usize = 0;
    proof {
        assert(spec_entries_joined(s.take(0)) =~= Seq::<char>::empty());
        assert(out@ =~= old(out)@ + "["@ + spec_entries_joined(s.take(0)));
    }
    while i < entries.len()
        invariant
            s == crate::attribution::entries_view(entries@),
            s.len() == entries@.len(),
            0 <= i <= entries@.len(),
            out@ == old(out)@ + "["@ + spec_entries_joined(s.take(i as int)),
        decreases entries@.len() - i,
    {
        if i > 0 {
            out.append(",");
        }
        proof {
            assert(s[i as int] == entries@[i as int]@);
            assert(s.take(i as int + 1).drop_last() =~= s.take(i as int));
            assert(s.take(i as int + 1).last() == s[i as int]);
            if i == 0 {
                assert(s.take(1).len() == 1);
            }
        }
        append_entry_json(out, &entries[i]);
        proof {
            assert(out@ =~= old(out)@ + "["@ + spec_entries_joined(s.take(i as int + 1)));
        }
        i = i + 1;
    }
    out.append("]");
    proof {
        assert(s.take(s.len() as int) =~= s);
        assert(out@ =~= old(out)@ + spec_attribution_json(s));
    }
}

/// An optional attribution record on the JSON wire: `null` when the
/// page has none.
pub open spec fn spec_option_attribution_json(o: Option<Seq<AttributionEntryView>>) -> Seq<char> {
    match o {
        None => "null"@,
        Some(s) => spec_attribution_json(s),
    }
}

/// One page's listing element on the JSON wire: its slug and its
/// attribution record.
pub open spec fn spec_full_attribution_json(f: FullAttributionView) -> Seq<char> {
    "{\"page_slug\":"@ + json_string(f.page_slug) + ",\"attribution\":"@ + spec_attribution_json(
        f.attribution,
    ) + "}"@
}

/// The comma-joined bodies of a site listing.
pub open spec fn spec_listing_joined(s: Seq<FullAttributionView>) -> Seq<char>
    decreases s.len(),
{
    if s.len() == 0 {
        Seq::empty()
    } else if s.len() == 1 {
        spec_full_attribution_json(s[0])
    } else {
        spec_listing_joined(s.drop_last()) + ","@ + spec_full_attribution_json(s.last())
    }
}

/// A whole site listing on the JSON wire: the array of its pages'
/// listing elements.
pub open spec fn spec_site_listing_json(s: Seq<FullAttributionView>) -> Seq<char> {
    "["@ + spec_listing_joined(s) + "]"@
}

/// Writes one site listing element onto the output.
fn append_full_attribution_json(out: &mut String, f: &FullAttribution)
    ensures
        final(out)@ == old(out)@ + spec_full_attribution_json(f@),
{
    out.append("{\"page_slug\":");
    append_json_string(out, f.page_slug.as_str());
    out.append(",\"attribution\":");
    append_attribution_json(out, &f.attribution.0);
    out.append("}");
    proof {
        assert(out@ =~= old(out)@ + spec_full_attribution_json(f@));
    }
}

/// Renders a whole site listing.
pub fn render_site_listing(listing: &Vec<FullAttribution>) -> (r: String)
    ensures
        r@ == spec_site_listing_json(crate::attribution::full_attributions_view(listing@)),
{
    let ghost s = crate::attribution::full_attributions_view(listing@);
    let mut out = String::new();
    out.append("[");
    let mut i: usize = 0;
    proof {
        assert(spec_listing_joined(s.take(0)) =~= Seq::<char>::empty());
        assert(out@ =~= "["@ + spec_listing_joined(s.take(0)));
    }
    while i < listing.len()
        invariant
            s == crate::attribution::full_attributions_view(listing@),
            s.len() == listing@.len(),
            0 <= i <= listing@.len(),
            out@ == "["@ + spec_listing_joined(s.take(i as int)),
        decreases listing@.len() - i,
    {
        if i > 0 {
            out.append(",");
        }
        proof {
            assert(s[i as int] == listing@[i as int]@);
            assert(s.take(i as int + 1).drop_last() =~= s.take(i as int));
            assert(s.take(i as int + 1).last() == s[i as int]);
            if i == 0 {
                assert(s.take(1).len() == 1);
            }
        }
        append_full_attribution_json(&mut out, &listing[i]);
        proof {
            assert(out@ =~= "["@ + spec_listing_joined(s.take(i as int + 1)));
        }
        i = i + 1;
    }
    out.append("]");
    proof {
        assert(s.take(s.len() as int) =~= s);
        assert(out@ =~= spec_site_listing_json(s));
    }
    out
}

/// Renders an optional attribution record, as a page read returns it.
pub fn render_option_attribution(o: &Option<Attribution>) -> (r: String)
    ensures
        r@ == spec_option_attribution_json(
            match o {
                Some(a) => Some(a@),
                None => None,
            },
        ),
{
    match o {
        None => {
            let mut out = String::new();
            out.append("null");
            out
        },
        Some(a) => {
            let mut out = String::new();
            append_attribution_json(&mut out, &a.0);
            proof {
                assert(out@ =~= spec_attribution_json(a@));
            }
            out
        },
    }
}

/// Renders the error envelope around a code and a message.
pub fn render_error(error: &str, message: &str) -> (r: String)
    ensures
        r@ == spec_error_json(error@, message@),
{
    let mut out = String::new();
    out.append("{\"error\":\"");
    append_escaped(&mut out, error);
    out.append("\",\"message\":\"");
    append_escaped(&mut out, message);
    out.append("\"}");
    proof {
        assert(out@ =~= spec_error_json(error@, message@));
    }
    out
}

} // verus!
