//! The credential gate: per-site regular and admin secrets, plaintext
//! lookup and comparison, and unconditional update.
//!
//! Comparison is not constant-time and secrets are not hashed: an
//! accepted weakness of this service, preserved as such.

use vstd::prelude::*;
use crate::text::str_eq;

verus! {

/// Which of a site's two independent secrets an operation addresses.
#[derive(Debug, Copy, Clone, PartialEq, Eq, Hash, Structural)]
pub enum PasswordType {
    Regular,
    Admin,
}

/// The field name a [`PasswordType`] is stored under.
pub open spec fn spec_password_field_name(t: PasswordType) -> Seq<char> {
    match t {
        PasswordType::Regular => "regular"@,
        PasswordType::Admin => "admin"@,
    }
}

impl PasswordType {
    /// The lowercase name this password type is stored under.
    pub fn field_name(self) -> (r: &'static str)
        ensures
            r@ == spec_password_field_name(self),
    {
        match self {
            PasswordType::Regular => "regular",
            PasswordType::Admin => "admin",
        }
    }
}

/// A password check request: which site, which secret, and the value
/// to compare.
#[derive(Debug, Clone, PartialEq)]
pub struct CheckPasswordInput {
    pub site_slug: String,
    pub password_type: PasswordType,
    pub password: String,
}

/// A password change request: the admin password and the old secret
/// of the target type must both check out before the new value is
/// written.
#[derive(Debug, Clone, PartialEq)]
pub struct ChangePasswordInput {
    pub site_slug: String,
    pub password_type: PasswordType,
    pub old_password: String,
    pub new_password: String,
    pub admin_password: String,
}

/// One site's credential record: two independently set secrets.
#[derive(Debug, Clone, PartialEq)]
pub struct CredentialRecord {
    pub site_slug: String,
    pub regular: Option<String>,
    pub admin: Option<String>,
}

/// The mathematical value of one credential record.
pub struct CredentialRecordView {
    pub site_slug: Seq<char>,
    pub regular: Option<Seq<char>>,
    pub admin: Option<Seq<char>>,
}

impl View for CredentialRecord {
    type V = CredentialRecordView;

    open spec fn view(&self) -> CredentialRecordView {
        CredentialRecordView {
            site_slug: self.site_slug@,
            regular: match self.regular {
                Some(ref s) => Some(s@),
                None => None,
            },
            admin: match self.admin {
                Some(ref s) => Some(s@),
                None => None,
            },
        }
    }
}

/// The view of a sequence of credential records.
pub open spec fn creds_view(s: Seq<CredentialRecord>) -> Seq<CredentialRecordView> {
    s.map_values(|r: CredentialRecord| r@)
}

/// The secret a record stores for one password type, if it was ever
/// set.
pub open spec fn spec_secret(r: CredentialRecordView, t: PasswordType) -> Option<Seq<char>> {
    match t {
        PasswordType::Regular => r.regular,
        PasswordType::Admin => r.admin,
    }
}

/// The credential record of a site, if any.
pub open spec fn spec_cred_lookup(
    s: Seq<CredentialRecordView>,
    site: Seq<char>,
) -> Option<CredentialRecordView>
    decreases s.len(),
{
    if s.len() == 0 {
        None
    } else if s[0].site_slug == site {
        Some(s[0])
    } else {
        spec_cred_lookup(s.skip(1), site)
    }
}

/// What a password check returns: false when the site has no
/// credential record or the secret was never set, else a plain
/// byte-for-byte comparison against the stored value.
pub open spec fn spec_check(
    s: Seq<CredentialRecordView>,
    site: Seq<char>,
    password: Seq<char>,
    t: PasswordType,
) -> bool {
    match spec_cred_lookup(s, site) {
        None => false,
        Some(rec) => match spec_secret(rec, t) {
            None => false,
            Some(stored) => stored == password,
        },
    }
}

/// The record with one secret overwritten, the other kept.
pub open spec fn spec_set_secret(
    r: CredentialRecordView,
    t: PasswordType,
    password: Seq<char>,
) -> CredentialRecordView {
    match t {
        PasswordType::Regular => CredentialRecordView { regular: Some(password), ..r },
        PasswordType::Admin => CredentialRecordView { admin: Some(password), ..r },
    }
}

/// The fresh record a first write to a site creates: only the written
/// secret is set.
pub open spec fn spec_new_record(
    site: Seq<char>,
    t: PasswordType,
    password: Seq<char>,
) -> CredentialRecordView {
    spec_set_secret(
        CredentialRecordView { site_slug: site, regular: None, admin: None },
        t,
        password,
    )
}

/// What a password change does to the table: overwrites the secret in
/// the site's record, creating the record when the site has none.
pub open spec fn spec_change(
    s: Seq<CredentialRecordView>,
    site: Seq<char>,
    password: Seq<char>,
    t: PasswordType,
) -> Seq<CredentialRecordView>
    decreases s.len(),
{
    if s.len() == 0 {
        seq![spec_new_record(site, t, password)]
    } else if s[0].site_slug == site {
        seq![spec_set_secret(s[0], t, password)] + s.skip(1)
    } else {
        seq![s[0]] + spec_change(s.skip(1), site, password, t)
    }
}

/// How a check reads a changed table: the changed secret compares
/// against the new value, and every other site or type reads as
/// before.
pub proof fn lemma_check_after_change(
    s: Seq<CredentialRecordView>,
    site: Seq<char>,
    password: Seq<char>,
    t: PasswordType,
    site2: Seq<char>,
    x: Seq<char>,
    t2: PasswordType,
)
    ensures
        spec_check(spec_change(s, site, password, t), site2, x, t2) == (if site2 == site && t2
            == t {
            x == password
        } else if site2 == site {
            spec_check(s, site2, x, t2)
        } else {
            spec_check(s, site2, x, t2)
        }),
    decreases s.len(),
{
    let c = spec_change(s, site, password, t);
    if s.len() == 0 {
        assert(c[0] == spec_new_record(site, t, password));
        assert(c.skip(1) =~= s);
    } else if s[0].site_slug == site {
        assert(c[0] == spec_set_secret(s[0], t, password));
        assert(c.skip(1) =~= s.skip(1));
    } else {
        assert(c[0] == s[0]);
        assert(c.skip(1) =~= spec_change(s.skip(1), site, password, t));
        lemma_check_after_change(s.skip(1), site, password, t, site2, x, t2);
    }
}

/// Updating a secret and checking the new value at once succeeds, and
/// any other value is rejected.
pub proof fn lemma_update_then_check(
    s: Seq<CredentialRecordView>,
    site: Seq<char>,
    new_password: Seq<char>,
    t: PasswordType,
)
    ensures
        spec_check(spec_change(s, site, new_password, t), site, new_password, t),
        forall|other: Seq<char>|
            other != new_password ==> !spec_check(
                spec_change(s, site, new_password, t),
                site,
                other,
                t,
            ),
{
    lemma_check_after_change(s, site, new_password, t, site, new_password, t);
    assert forall|other: Seq<char>| other != new_password implies !spec_check(
        spec_change(s, site, new_password, t),
        site,
        other,
        t,
    ) by {
        lemma_check_after_change(s, site, new_password, t, site, other, t);
    }
}

/// A site with no credential record fails every check, for every
/// password and type; it never raises an error.
pub proof fn lemma_check_absent(
    s: Seq<CredentialRecordView>,
    site: Seq<char>,
    password: Seq<char>,
    t: PasswordType,
)
    requires
        spec_cred_lookup(s, site) is None,
    ensures
        !spec_check(s, site, password, t),
{
}

/// The credential table: the collaborator's per-site password
/// records.
#[derive(Debug)]
pub struct PasswordStore {
    pub records: Vec<CredentialRecord>,
}

impl View for PasswordStore {
    type V = Seq<CredentialRecordView>;

    open spec fn view(&self) -> Seq<CredentialRecordView> {
        creds_view(self.records@)
    }
}

impl PasswordStore {
    /// An empty credential table.
    pub fn new() -> (r: PasswordStore)
        ensures
            r@ =~= Seq::<CredentialRecordView>::empty(),
    {
        PasswordStore { records: Vec::new() }
    }
}

/// Checks a password against the stored secret of the requested type:
/// false when the site has no record or the secret was never set.
pub fn check_password(
    store: &PasswordStore,
    site_slug: &str,
    password: &str,
    password_type: PasswordType,
) -> (r: bool)
    ensures
        r == spec_check(store@, site_slug@, password@, password_type),
{
    let mut k: usize = 0;
    proof {
        assert(store@.skip(0) =~= store@);
    }
    while k < store.records.len()
        invariant
            0 <= k <= store.records@.len(),
            store@.len() == store.records@.len(),
            spec_cred_lookup(store@, site_slug@) == spec_cred_lookup(
                store@.skip(k as int),
                site_slug@,
            ),
            forall|m: int| 0 <= m < store.records@.len() ==> store@[m] == (
            #[trigger] store.records@[m])@,
        decreases store.records@.len() - k,
    {
        let rec = &store.records[k];
        if str_eq(rec.site_slug.as_str(), site_slug) {
            proof {
                assert(store@.skip(k as int)[0] == store@[k as int]);
            }
            let stored = match password_type {
                PasswordType::Regular => &rec.regular,
                PasswordType::Admin => &rec.admin,
            };
            return match stored {
                None => false,
                Some(secret) => str_eq(secret.as_str(), password),
            };
        }
        proof {
            assert(store@.skip(k as int)[0] == store@[k as int]);
            assert(store@.skip(k as int).skip(1) =~= store@.skip(k as int + 1));
        }
        k = k + 1;
    }
    proof {
        assert(store@.skip(k as int).len() == 0);
    }
    false
}

/// Unconditionally overwrites the stored secret of the requested
/// type, creating the site's credential record when it has none.
pub fn change_password(
    store: &mut PasswordStore,
    site_slug: String,
    password: String,
    password_type: PasswordType,
)
    ensures
        final(store)@ == spec_change(old(store)@, site_slug@, password@, password_type),
{
    let ghost site_v = site_slug@;
    let ghost pw = password@;
    let mut k: usize = 0;
    while k < store.records.len()
        invariant
            0 <= k <= store.records@.len(),
            store@ == old(store)@,
            store@.len() == store.records@.len(),
            site_v == site_slug@,
            pw == password@,
            forall|m: int| 0 <= m < k ==> (#[trigger] store@[m]).site_slug != site_v,
            forall|m: int| 0 <= m < store.records@.len() ==> store@[m] == (
            #[trigger] store.records@[m])@,
        decreases store.records@.len() - k,
    {
        let site_matches = str_eq(store.records[k].site_slug.as_str(), site_slug.as_str());
        if site_matches {
            let old_regular = match &store.records[k].regular {
                Some(s) => Some(s.clone()),
                None => None,
            };
            let old_admin = match &store.records[k].admin {
                Some(s) => Some(s.clone()),
                None => None,
            };
            let new_rec = match password_type {
                PasswordType::Regular => CredentialRecord {
                    site_slug,
                    regular: Some(password),
                    admin: old_admin,
                },
                PasswordType::Admin => CredentialRecord {
                    site_slug,
                    regular: old_regular,
                    admin: Some(password),
                },
            };
            let ghost pre = store.records@;
            store.records[k] = new_rec;
            proof {
                assert forall|m: int|
                    0 <= m < store@.len() implies store@[m] == old(store)@.update(
                    k as int,
                    spec_set_secret(old(store)@[k as int], password_type, pw),
                )[m] by {
                    assert(store@[m] == store.records@[m]@);
                    if m != k {
                        assert(store.records@[m] == pre[m]);
                    }
                }
                assert(store@ =~= old(store)@.update(
                    k as int,
                    spec_set_secret(old(store)@[k as int], password_type, pw),
                ));
                lemma_change_update(old(store)@, site_v, pw, password_type, k as int);
            }
            return ;
        }
        proof {
            assert(store@[k as int].site_slug != site_v);
        }
        k = k + 1;
    }
    let new_rec = match password_type {
        PasswordType::Regular => CredentialRecord {
            site_slug,
            regular: Some(password),
            admin: None,
        },
        PasswordType::Admin => CredentialRecord {
            site_slug,
            regular: None,
            admin: Some(password),
        },
    };
    let ghost pre = store.records@;
    store.records.push(new_rec);
    proof {
        assert forall|m: int|
            0 <= m < store@.len() implies store@[m] == old(store)@.push(
            spec_new_record(site_v, password_type, pw),
        )[m] by {
            assert(store@[m] == store.records@[m]@);
            if m < pre.len() {
                assert(store.records@[m] == pre[m]);
            }
        }
        assert(store@ =~= old(store)@.push(spec_new_record(site_v, password_type, pw)));
        lemma_change_append(old(store)@, site_v, pw, password_type);
    }
}

/// When the first site match is at position `k`, the change is an
/// in-place update there.
proof fn lemma_change_update(
    s: Seq<CredentialRecordView>,
    site: Seq<char>,
    password: Seq<char>,
    t: PasswordType,
    k: int,
)
    requires
        0 <= k < s.len(),
        s[k].site_slug == site,
        forall|m: int| 0 <= m < k ==> (#[trigger] s[m]).site_slug != site,
    ensures
        spec_change(s, site, password, t) == s.update(k, spec_set_secret(s[k], t, password)),
    decreases k,
{
    if k == 0 {
        assert(seq![spec_set_secret(s[0], t, password)] + s.skip(1) =~= s.update(
            0,
            spec_set_secret(s[0], t, password),
        ));
    } else {
        assert(s[0].site_slug != site);
        assert forall|m: int|
            0 <= m < k - 1 implies (#[trigger] s.skip(1)[m]).site_slug != site by {
            assert(s.skip(1)[m] == s[m + 1]);
        }
        assert(s.skip(1)[k - 1] == s[k]);
        lemma_change_update(s.skip(1), site, password, t, k - 1);
        assert(seq![s[0]] + s.skip(1).update(k - 1, spec_set_secret(s[k], t, password)) =~= s
            .update(k, spec_set_secret(s[k], t, password)));
    }
}

/// When no site matches, the change appends a fresh record.
proof fn lemma_change_append(
    s: Seq<CredentialRecordView>,
    site: Seq<char>,
    password: Seq<char>,
    t: PasswordType,
)
    requires
        forall|m: int| 0 <= m < s.len() ==> (#[trigger] s[m]).site_slug != site,
    ensures
        spec_change(s, site, password, t) == s.push(spec_new_record(site, t, password)),
    decreases s.len(),
{
    if s.len() == 0 {
        assert(spec_change(s, site, password, t) =~= s.push(spec_new_record(site, t, password)));
    } else {
        assert forall|m: int|
            0 <= m < s.skip(1).len() implies (#[trigger] s.skip(1)[m]).site_slug != site by {
            assert(s.skip(1)[m] == s[m + 1]);
        }
        lemma_change_append(s.skip(1), site, password, t);
        assert(seq![s[0]] + s.skip(1).push(spec_new_record(site, t, password)) =~= s.push(
            spec_new_record(site, t, password),
        ));
    }
}

} // verus!
