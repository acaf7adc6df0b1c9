use attribution_metadata::attribution::{
    Attribution, AttributionEntry, AttributionType, UpdatePageAttributionInput,
};
use attribution_metadata::handlers::{
    handle_get_page, handle_get_site, handle_info, handle_missing_route, handle_password_check,
    handle_password_update, handle_ping, handle_set_page, BuildInfo,
};
use attribution_metadata::password::{
    change_password, check_password, ChangePasswordInput, CheckPasswordInput, PasswordStore,
    PasswordType,
};
use attribution_metadata::result::{input_error, invalid_password, service_error, success, ServiceResult};
use attribution_metadata::service::get_page_attribution;
use attribution_metadata::store::AttributionStore;

fn entry(user_name: &str, date: Option<&str>) -> AttributionEntry {
    AttributionEntry {
        attribution_type: AttributionType::Author,
        user_name: user_name.to_string(),
        user_id: None,
        date: date.map(|d| d.to_string()),
    }
}

fn gated_store(site: &str, regular: &str, admin: &str) -> PasswordStore {
    let mut creds = PasswordStore::new();
    change_password(&mut creds, site.to_string(), regular.to_string(), PasswordType::Regular);
    change_password(&mut creds, site.to_string(), admin.to_string(), PasswordType::Admin);
    creds
}

#[test]
fn check_password_on_missing_site_is_false() {
    let creds = PasswordStore::new();
    assert!(!check_password(&creds, "wiki", "anything", PasswordType::Regular));
    assert!(!check_password(&creds, "wiki", "", PasswordType::Admin));
}

#[test]
fn check_password_on_unset_secret_is_false() {
    let mut creds = PasswordStore::new();
    change_password(&mut creds, "wiki".to_string(), "hunter2".to_string(), PasswordType::Regular);
    assert!(!check_password(&creds, "wiki", "hunter2", PasswordType::Admin));
}

#[test]
fn update_then_check_uses_the_new_value() {
    let mut creds = PasswordStore::new();
    change_password(&mut creds, "wiki".to_string(), "old-pass".to_string(), PasswordType::Regular);
    change_password(&mut creds, "wiki".to_string(), "new-pass".to_string(), PasswordType::Regular);
    assert!(check_password(&creds, "wiki", "new-pass", PasswordType::Regular));
    assert!(!check_password(&creds, "wiki", "old-pass", PasswordType::Regular));
}

#[test]
fn change_keeps_the_other_secret() {
    let mut creds = gated_store("wiki", "reg", "adm");
    change_password(&mut creds, "wiki".to_string(), "reg2".to_string(), PasswordType::Regular);
    assert!(check_password(&creds, "wiki", "adm", PasswordType::Admin));
    assert!(check_password(&creds, "wiki", "reg2", PasswordType::Regular));
}

#[test]
fn password_check_handler_statuses() {
    let creds = gated_store("wiki", "reg", "adm");
    let ok = handle_password_check(
        &creds,
        &CheckPasswordInput {
            site_slug: "wiki".to_string(),
            password_type: PasswordType::Regular,
            password: "reg".to_string(),
        },
    );
    assert_eq!(ok.0, 200);
    assert_eq!(ok.1, "{\"error\":null,\"data\":\"success\"}");

    let bad = handle_password_check(
        &creds,
        &CheckPasswordInput {
            site_slug: "wiki".to_string(),
            password_type: PasswordType::Regular,
            password: "wrong".to_string(),
        },
    );
    assert_eq!(bad.0, 403);
    assert_eq!(
        bad.1,
        "{\"error\":\"invalid-password\",\"message\":\"The passed regular password is invalid\"}"
    );
}

#[test]
fn password_update_requires_admin_then_old() {
    let mut creds = gated_store("wiki", "reg", "adm");
    let before = creds.records.clone();

    // wrong admin password: nothing may be written, even though the
    // old password is correct
    let r = handle_password_update(
        &mut creds,
        ChangePasswordInput {
            site_slug: "wiki".to_string(),
            password_type: PasswordType::Regular,
            old_password: "reg".to_string(),
            new_password: "next".to_string(),
            admin_password: "wrong-admin".to_string(),
        },
    );
    assert_eq!(r.0, 403);
    assert_eq!(
        r.1,
        "{\"error\":\"invalid-password\",\"message\":\"The passed admin password is invalid\"}"
    );
    assert_eq!(creds.records, before);

    // right admin, wrong old password of the target type: still no write
    let r = handle_password_update(
        &mut creds,
        ChangePasswordInput {
            site_slug: "wiki".to_string(),
            password_type: PasswordType::Regular,
            old_password: "wrong-old".to_string(),
            new_password: "next".to_string(),
            admin_password: "adm".to_string(),
        },
    );
    assert_eq!(r.0, 403);
    assert_eq!(
        r.1,
        "{\"error\":\"invalid-password\",\"message\":\"The passed regular password is invalid\"}"
    );
    assert_eq!(creds.records, before);

    // both checks pass: the secret changes
    let r = handle_password_update(
        &mut creds,
        ChangePasswordInput {
            site_slug: "wiki".to_string(),
            password_type: PasswordType::Regular,
            old_password: "reg".to_string(),
            new_password: "next".to_string(),
            admin_password: "adm".to_string(),
        },
    );
    assert_eq!(r.0, 200);
    assert_eq!(r.1, "{\"error\":null,\"data\":\"success\"}");
    assert!(check_password(&creds, "wiki", "next", PasswordType::Regular));
    assert!(!check_password(&creds, "wiki", "reg", PasswordType::Regular));
}

#[test]
fn set_page_requires_regular_password() {
    let creds = gated_store("wiki", "reg", "adm");
    let mut pages = AttributionStore::new();
    let r = handle_set_page(
        &mut pages,
        &creds,
        UpdatePageAttributionInput {
            site_slug: "wiki".to_string(),
            page_slug: "scp-001".to_string(),
            password: "wrong".to_string(),
            attributions: Attribution(vec![entry("Alice", None)]),
        },
    );
    assert_eq!(r.0, 403);
    assert_eq!(pages.records.len(), 0);
}

#[test]
fn set_page_sorts_validates_and_writes() {
    let creds = gated_store("wiki", "reg", "adm");
    let mut pages = AttributionStore::new();
    let r = handle_set_page(
        &mut pages,
        &creds,
        UpdatePageAttributionInput {
            site_slug: "wiki".to_string(),
            page_slug: "scp-001".to_string(),
            password: "reg".to_string(),
            attributions: Attribution(vec![
                entry("Late", Some("2023-05-01")),
                entry("Undated", None),
                entry("Early", Some("2023-01-01")),
            ]),
        },
    );
    assert_eq!(r.0, 200);
    let stored = get_page_attribution(&pages, "wiki", "scp-001").unwrap().unwrap();
    let names: Vec<String> = stored.0.iter().map(|e| e.user_name.clone()).collect();
    assert_eq!(names, vec!["Undated", "Early", "Late"]);
}

#[test]
fn set_page_rejects_invalid_entries_without_writing() {
    let creds = gated_store("wiki", "reg", "adm");
    let mut pages = AttributionStore::new();
    let r = handle_set_page(
        &mut pages,
        &creds,
        UpdatePageAttributionInput {
            site_slug: "wiki".to_string(),
            page_slug: "scp-001".to_string(),
            password: "reg".to_string(),
            attributions: Attribution(vec![entry("Alice", Some("bad-date"))]),
        },
    );
    assert_eq!(r.0, 400);
    assert_eq!(r.1, "Date value 'bad-date' is invalid (must be YYYY-MM-DD)");
    assert_eq!(pages.records.len(), 0);
}

#[test]
fn set_page_with_empty_list_deletes_the_record() {
    let creds = gated_store("wiki", "reg", "adm");
    let mut pages = AttributionStore::new();
    let put = handle_set_page(
        &mut pages,
        &creds,
        UpdatePageAttributionInput {
            site_slug: "wiki".to_string(),
            page_slug: "scp-001".to_string(),
            password: "reg".to_string(),
            attributions: Attribution(vec![entry("Alice", None)]),
        },
    );
    assert_eq!(put.0, 200);
    assert!(get_page_attribution(&pages, "wiki", "scp-001").unwrap().is_some());

    let wipe = handle_set_page(
        &mut pages,
        &creds,
        UpdatePageAttributionInput {
            site_slug: "wiki".to_string(),
            page_slug: "scp-001".to_string(),
            password: "reg".to_string(),
            attributions: Attribution(Vec::new()),
        },
    );
    assert_eq!(wipe.0, 200);
    assert_eq!(get_page_attribution(&pages, "wiki", "scp-001"), Ok(None));
}

#[test]
fn get_page_handler_renders_json() {
    let creds = gated_store("wiki", "reg", "adm");
    let mut pages = AttributionStore::new();
    let r = handle_get_page(&pages, "wiki", "scp-001");
    assert_eq!(r, (200, "null".to_string()));

    handle_set_page(
        &mut pages,
        &creds,
        UpdatePageAttributionInput {
            site_slug: "wiki".to_string(),
            page_slug: "scp-001".to_string(),
            password: "reg".to_string(),
            attributions: Attribution(vec![AttributionEntry {
                attribution_type: AttributionType::Translator,
                user_name: "  Alice \"A\"  ".to_string(),
                user_id: Some(42),
                date: Some("2023-01-01".to_string()),
            }]),
        },
    );
    let r = handle_get_page(&pages, "wiki", "scp-001");
    assert_eq!(r.0, 200);
    assert_eq!(
        r.1,
        "[{\"type\":\"translator\",\"user_name\":\"Alice \\\"A\\\"\",\"user_id\":42,\"date\":\"2023-01-01\"}]"
    );

    // the rendered body is well-formed JSON with the expected fields
    let parsed: serde_json::Value = serde_json::from_str(&r.1).unwrap();
    let first = &parsed.as_array().unwrap()[0];
    assert_eq!(first.get("type").unwrap(), "translator");
    assert_eq!(first.get("user_name").unwrap(), "Alice \"A\"");
    assert_eq!(first.get("user_id").unwrap(), 42);
}

#[test]
fn get_site_handler_renders_listing() {
    let creds = gated_store("wiki", "reg", "adm");
    let mut pages = AttributionStore::new();
    handle_set_page(
        &mut pages,
        &creds,
        UpdatePageAttributionInput {
            site_slug: "wiki".to_string(),
            page_slug: "a".to_string(),
            password: "reg".to_string(),
            attributions: Attribution(vec![entry("Alice", None)]),
        },
    );
    let r = handle_get_site(&pages, "wiki");
    assert_eq!(r.0, 200);
    assert_eq!(
        r.1,
        "[{\"page_slug\":\"a\",\"attribution\":[{\"type\":\"author\",\"user_name\":\"Alice\",\"user_id\":null,\"date\":null}]}]"
    );
}

#[test]
fn ping_and_missing_route_bodies() {
    assert_eq!(handle_ping(), (200, "{\"error\":null,\"data\":\"pong\"}".to_string()));
    let r = handle_missing_route("/nope");
    assert_eq!(r.0, 400);
    assert_eq!(
        r.1,
        "{\"error\":\"invalid-route\",\"message\":\"No handler exists for path '/nope'\"}"
    );
}

#[test]
fn helper_bodies_match_reference_encoder() {
    assert_eq!(success(), "{\"error\":null,\"data\":\"success\"}");
    // escaping parity with the reference JSON encoder, on a message
    // full of characters that need escaping
    let message = "control \u{1f}\t\n and \\ quote \"";
    let mut envelope = serde_json::Map::new();
    envelope.insert(
        "error".to_string(),
        serde_json::Value::String("input-invalid".to_string()),
    );
    envelope.insert(
        "message".to_string(),
        serde_json::Value::String(message.to_string()),
    );
    let expected = serde_json::to_string(&serde_json::Value::Object(envelope)).unwrap();
    assert_eq!(input_error(message), expected);
}

#[test]
fn info_handler_renders_build_report() {
    let info = BuildInfo {
        version_major: "1".to_string(),
        version_minor: "2".to_string(),
        version_patch: "3".to_string(),
        target: "x86_64-unknown-linux-gnu".to_string(),
        host: "x86_64-unknown-linux-gnu".to_string(),
        profile: "release".to_string(),
        family: "unix".to_string(),
        endian: "little".to_string(),
        pointer_width: "64".to_string(),
        rustc: "rustc".to_string(),
        rustdoc: "rustdoc".to_string(),
        opt_level: "3".to_string(),
        num_jobs: 8,
        features: vec!["default".to_string(), "extra".to_string()],
    };
    let r = handle_info(&info);
    assert_eq!(r.0, 200);
    let parsed: serde_json::Value = serde_json::from_str(&r.1).unwrap();
    assert!(parsed.get("error").unwrap().is_null());
    let data = parsed.get("data").unwrap();
    assert_eq!(data.get("version_major").unwrap(), "1");
    assert_eq!(data.get("num_jobs").unwrap(), 8);
    assert_eq!(data.get("features").unwrap().as_array().unwrap().len(), 2);
}

#[test]
fn service_result_envelopes_render() {
    let ok = ServiceResult::<String>::success("pong".to_string());
    assert_eq!(ok.to_json(), "{\"error\":null,\"data\":\"pong\"}");
    let err = ServiceResult::<String>::Error {
        error: "invalid-route",
        message: "No handler exists for path '/x'".to_string(),
    };
    assert_eq!(
        err.to_json(),
        "{\"error\":\"invalid-route\",\"message\":\"No handler exists for path '/x'\"}"
    );
}

#[test]
fn invalid_password_body_names_the_type() {
    assert_eq!(
        invalid_password(PasswordType::Admin),
        "{\"error\":\"invalid-password\",\"message\":\"The passed admin password is invalid\"}"
    );
    assert_eq!(
        service_error("boom"),
        "{\"error\":\"backend\",\"message\":\"boom\"}"
    );
}
