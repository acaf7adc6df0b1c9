//! One operation per use case, each sequencing its required password
//! checks before any mutation and rendering its outcome to a status
//! code and a JSON body.

use vstd::prelude::*;
use crate::attribution::{
    entries_view, lemma_sort_entries_contains, spec_sort_entries, UpdatePageAttributionInput,
};
use crate::codec::{
    encode_all, spec_encode_all, spec_integrity_message, spec_validation_message,
};
use crate::password::{
    check_password, change_password, spec_change, spec_check, ChangePasswordInput,
    CheckPasswordInput, PasswordStore, PasswordType,
};
use crate::render::{
    append_json_string, append_string_array, json_string, render_error,
    render_option_attribution, render_site_listing, spec_attribution_json, spec_error_json,
    spec_site_listing_json, spec_string_array_json, spec_success_json, strings_view,
};
use crate::result::{invalid_password, service_error, spec_invalid_password_message, success};
use crate::service::{
    delete_page_attribution, get_page_attribution, get_site_attribution, spec_decode_site,
    update_page_attribution,
};
use crate::store::{
    spec_delete, spec_lookup, spec_put, spec_site_records, AttributionStore, PageRecordView,
};
use crate::text::dec_digits;

verus! {

/// Serves a page attribution read: the record as a JSON array, `null`
/// when the page has none, or a backend error for a malformed stored
/// record.
pub fn handle_get_page(store: &AttributionStore, site_slug: &str, page_slug: &str) -> (r: (
    u16,
    String,
))
    ensures
        spec_lookup(store@, site_slug@, page_slug@) is None ==> r.0 == 200 && r.1@ == "null"@,
        spec_lookup(store@, site_slug@, page_slug@) matches Some(items)
            ==> match crate::codec::spec_decode_all(items) {
            Ok(es) => r.0 == 200 && r.1@ == spec_attribution_json(es),
            Err(e) => r.0 == 500 && r.1@ == spec_error_json(
                "backend"@,
                spec_integrity_message(e),
            ),
        },
{
    match get_page_attribution(store, site_slug, page_slug) {
        Ok(attribution) => (200, render_option_attribution(&attribution)),
        Err(e) => (500, service_error(e.message())),
    }
}

/// Serves a full-site listing: every page's record, or a backend
/// error when any stored record is malformed.
pub fn handle_get_site(store: &AttributionStore, site_slug: &str) -> (r: (u16, String))
    ensures
        match spec_decode_site(spec_site_records(store@, site_slug@)) {
            Ok(v) => r.0 == 200 && r.1@ == spec_site_listing_json(v),
            Err(e) => r.0 == 500 && r.1@ == spec_error_json(
                "backend"@,
                spec_integrity_message(e),
            ),
        },
{
    match get_site_attribution(store, site_slug) {
        Ok(listing) => (200, render_site_listing(&listing)),
        Err(e) => (500, service_error(e.message())),
    }
}

/// Serves a password check: success when the supplied password
/// matches the stored secret of the requested type, else forbidden.
pub fn handle_password_check(store: &PasswordStore, input: &CheckPasswordInput) -> (r: (
    u16,
    String,
))
    ensures
        spec_check(store@, input.site_slug@, input.password@, input.password_type) ==> r.0 == 200
            && r.1@ == spec_success_json("success"@),
        !spec_check(store@, input.site_slug@, input.password@, input.password_type) ==> r.0 == 403
            && r.1@ == spec_error_json(
            "invalid-password"@,
            spec_invalid_password_message(input.password_type),
        ),
{
    if check_password(store, input.site_slug.as_str(), input.password.as_str(),
        input.password_type) {
        (200, success())
    } else {
        (403, invalid_password(input.password_type))
    }
}

/// Serves a password update. Two checks run in sequence: the admin
/// password against the admin secret, then the old password against
/// the secret being changed; a failure of either forbids the write
/// and leaves the store untouched, and a failed admin check
/// short-circuits before the old password is even considered.
pub fn handle_password_update(store: &mut PasswordStore, input: ChangePasswordInput) -> (r: (
    u16,
    String,
))
    ensures
        !spec_check(old(store)@, input.site_slug@, input.admin_password@, PasswordType::Admin)
            ==> final(store)@ == old(store)@ && r.0 == 403 && r.1@ == spec_error_json(
            "invalid-password"@,
            spec_invalid_password_message(PasswordType::Admin),
        ),
        spec_check(old(store)@, input.site_slug@, input.admin_password@, PasswordType::Admin)
            && !spec_check(
            old(store)@,
            input.site_slug@,
            input.old_password@,
            input.password_type,
        ) ==> final(store)@ == old(store)@ && r.0 == 403 && r.1@ == spec_error_json(
            "invalid-password"@,
            spec_invalid_password_message(input.password_type),
        ),
        spec_check(old(store)@, input.site_slug@, input.admin_password@, PasswordType::Admin)
            && spec_check(
            old(store)@,
            input.site_slug@,
            input.old_password@,
            input.password_type,
        ) ==> final(store)@ == spec_change(
            old(store)@,
            input.site_slug@,
            input.new_password@,
            input.password_type,
        ) && r.0 == 200 && r.1@ == spec_success_json("success"@),
{
    if !check_password(store, input.site_slug.as_str(), input.admin_password.as_str(),
        PasswordType::Admin) {
        return (403, invalid_password(PasswordType::Admin));
    }
    if !check_password(store, input.site_slug.as_str(), input.old_password.as_str(),
        input.password_type) {
        return (403, invalid_password(input.password_type));
    }
    let ChangePasswordInput { site_slug, password_type, new_password, .. } = input;
    change_password(store, site_slug, new_password, password_type);
    (200, success())
}

/// Serves a page attribution update, gated by the regular password.
/// An empty entry list deletes the page's record; otherwise the
/// entries are sorted into display order, validated, encoded and
/// written as a full replace — atomically, or not at all.
pub fn handle_set_page(
    pages: &mut AttributionStore,
    creds: &PasswordStore,
    input: UpdatePageAttributionInput,
) -> (r: (u16, String))
    requires
        forall|m: int|
            0 <= m < input.attributions@.len() ==> (#[trigger] input.attributions@[m]).wf(),
    ensures
        !spec_check(creds@, input.site_slug@, input.password@, PasswordType::Regular)
            ==> final(pages)@ == old(pages)@ && r.0 == 403 && r.1@ == spec_error_json(
            "invalid-password"@,
            spec_invalid_password_message(PasswordType::Regular),
        ),
        spec_check(creds@, input.site_slug@, input.password@, PasswordType::Regular)
            && input.attributions@.len() == 0 ==> final(pages)@ == spec_delete(
            old(pages)@,
            input.site_slug@,
            input.page_slug@,
        ) && r.0 == 200 && r.1@ == spec_success_json("success"@),
        spec_check(creds@, input.site_slug@, input.password@, PasswordType::Regular)
            && input.attributions@.len() > 0 ==> match spec_encode_all(
            spec_sort_entries(input.attributions@),
        ) {
            Ok(items) => final(pages)@ == spec_put(
                old(pages)@,
                PageRecordView {
                    site_slug: input.site_slug@,
                    page_slug: input.page_slug@,
                    attribution: items,
                },
            ) && r.0 == 200 && r.1@ == spec_success_json("success"@),
            Err(ev) => final(pages)@ == old(pages)@ && r.0 == 400 && r.1@
                == spec_validation_message(ev),
        },
{
    if !check_password(creds, input.site_slug.as_str(), input.password.as_str(),
        PasswordType::Regular) {
        return (403, invalid_password(PasswordType::Regular));
    }
    let ghost orig = input.attributions@;
    let UpdatePageAttributionInput { site_slug, page_slug, attributions, .. } = input;
    let mut attributions = attributions;
    if attributions.0.len() == 0 {
        delete_page_attribution(pages, site_slug.as_str(), page_slug.as_str());
        return (200, success());
    }
    attributions.sort();
    proof {
        lemma_sort_entries_contains(orig);
        assert forall|m: int|
            0 <= m < attributions.0@.len() implies (#[trigger] attributions.0@[m])@.wf() by {
            let x = attributions.0@[m]@;
            assert(attributions@[m] == x);
            assert(attributions@.contains(x));
            assert(orig.contains(x));
            let j = choose|j: int| 0 <= j < orig.len() && orig[j] == x;
            assert(orig[j].wf());
        }
    }
    match encode_all(&attributions.0) {
        Err(e) => {
            proof {
                assert(entries_view(attributions.0@) == spec_sort_entries(orig));
            }
            (400, e.message())
        },
        Ok(items) => {
            proof {
                assert(entries_view(attributions.0@) == spec_sort_entries(orig));
            }
            update_page_attribution(pages, site_slug, page_slug, items);
            (200, success())
        },
    }
}

/// Serves the liveness probe.
pub fn handle_ping() -> (r: (u16, String))
    ensures
        r.0 == 200,
        r.1@ == spec_success_json("pong"@),
{
    let body = crate::result::ServiceResult::<String>::success(String::from_str("pong")).to_json();
    (200, body)
}

/// Serves a request for a route that does not exist.
pub fn handle_missing_route(path: &str) -> (r: (u16, String))
    ensures
        r.0 == 400,
        r.1@ == spec_error_json("invalid-route"@, "No handler exists for path '"@ + path@ + "'"@),
{
    let mut message = String::from_str("No handler exists for path '");
    message.append(path);
    message.append("'");
    let body = render_error("invalid-route", message.as_str());
    proof {
        assert(message@ =~= "No handler exists for path '"@ + path@ + "'"@);
    }
    (400, body)
}

/// The build-time facts the info route reports; the embedding
/// program supplies them.
#[derive(Debug, Clone, PartialEq)]
pub struct BuildInfo {
    pub version_major: String,
    pub version_minor: String,
    pub version_patch: String,
    pub target: String,
    pub host: String,
    pub profile: String,
    pub family: String,
    pub endian: String,
    pub pointer_width: String,
    pub rustc: String,
    pub rustdoc: String,
    pub opt_level: String,
    pub num_jobs: u32,
    pub features: Vec<String>,
}

/// The mathematical value of the build-time facts.
pub struct BuildInfoView {
    pub version_major: Seq<char>,
    pub version_minor: Seq<char>,
    pub version_patch: Seq<char>,
    pub target: Seq<char>,
    pub host: Seq<char>,
    pub profile: Seq<char>,
    pub family: Seq<char>,
    pub endian: Seq<char>,
    pub pointer_width: Seq<char>,
    pub rustc: Seq<char>,
    pub rustdoc: Seq<char>,
    pub opt_level: Seq<char>,
    pub num_jobs: u32,
    pub features: Seq<Seq<char>>,
}

impl View for BuildInfo {
    type V = BuildInfoView;

    open spec fn view(&self) -> BuildInfoView {
        BuildInfoView {
            version_major: self.version_major@,
            version_minor: self.version_minor@,
            version_patch: self.version_patch@,
            target: self.target@,
            host: self.host@,
            profile: self.profile@,
            family: self.family@,
            endian: self.endian@,
            pointer_width: self.pointer_width@,
            rustc: self.rustc@,
            rustdoc: self.rustdoc@,
            opt_level: self.opt_level@,
            num_jobs: self.num_jobs,
            features: strings_view(self.features@),
        }
    }
}

/// The build-time facts on the JSON wire, in declaration order.
pub open spec fn spec_build_info_json(b: BuildInfoView) -> Seq<char> {
    "{\"version_major\":"@ + json_string(b.version_major) + ",\"version_minor\":"@ + json_string(
        b.version_minor,
    ) + ",\"version_patch\":"@ + json_string(b.version_patch) + ",\"target\":"@ + json_string(
        b.target,
    ) + ",\"host\":"@ + json_string(b.host) + ",\"profile\":"@ + json_string(b.profile)
        + ",\"family\":"@ + json_string(b.family) + ",\"endian\":"@ + json_string(b.endian)
        + ",\"pointer_width\":"@ + json_string(b.pointer_width) + ",\"rustc\":"@ + json_string(
        b.rustc,
    ) + ",\"rustdoc\":"@ + json_string(b.rustdoc) + ",\"opt_level\":"@ + json_string(b.opt_level)
        + ",\"num_jobs\":"@ + dec_digits(b.num_jobs as int) + ",\"features\":"@
        + spec_string_array_json(b.features) + "}"@
}

/// Serves the build information report.
#[verifier::rlimit(100)]
pub fn handle_info(info: &BuildInfo) -> (r: (u16, String))
    ensures
        r.0 == 200,
        r.1@ == "{\"error\":null,\"data\":"@ + spec_build_info_json(info@) + "}"@,
{
    let mut out = String::new();
    out.append("{\"error\":null,\"data\":");
    out.append("{\"version_major\":");
    append_json_string(&mut out, info.version_major.as_str());
    out.append(",\"version_minor\":");
    append_json_string(&mut out, info.version_minor.as_str());
    out.append(",\"version_patch\":");
    append_json_string(&mut out, info.version_patch.as_str());
    out.append(",\"target\":");
    append_json_string(&mut out, info.target.as_str());
    out.append(",\"host\":");
    append_json_string(&mut out, info.host.as_str());
    out.append(",\"profile\":");
    append_json_string(&mut out, info.profile.as_str());
    out.append(",\"family\":");
    append_json_string(&mut out, info.family.as_str());
    out.append(",\"endian\":");
    append_json_string(&mut out, info.endian.as_str());
    out.append(",\"pointer_width\":");
    append_json_string(&mut out, info.pointer_width.as_str());
    out.append(",\"rustc\":");
    append_json_string(&mut out, info.rustc.as_str());
    out.append(",\"rustdoc\":");
    append_json_string(&mut out, info.rustdoc.as_str());
    out.append(",\"opt_level\":");
    append_json_string(&mut out, info.opt_level.as_str());
    out.append(",\"num_jobs\":");
    let jobs = crate::text::u32_to_dec(info.num_jobs);
    out.append(jobs.as_str());
    out.append(",\"features\":");
    append_string_array(&mut out, &info.features);
    out.append("}");
    out.append("}");
    proof {
        assert(out@ =~= "{\"error\":null,\"data\":"@ + spec_build_info_json(info@) + "}"@);
    }
    (200, out)
}

} // verus!
