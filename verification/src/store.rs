//! The store: forms with their client keys, submissions, access log and
//! password parameters, plus the TTL key–value store for ephemeral server
//! keys and single-use challenge markers. A form owns its dependent rows,
//! so deleting a form removes them all atomically.

use vstd::prelude::*;
use crate::auth::AccessRole;
use crate::codec::{bytes_eq, write_bytes};
use crate::keys::{PublicSigningKey, WrappedPrivatePrimaryKey, PublicPrimaryKey,
    EphemeralServerKey};
use crate::models::{ClientKeyId, ClientKeys, EncryptedKeyComment, EncryptedSubmissionBody,
    FormData, FormId, FormTemplate, FormUpdate, SecretLinkPasswordParams, ServerKeyId,
    ChallengeId, Submission, SubmissionId};
use crate::text::clone_bytes;
use crate::timefmt::MAX_TIMESTAMP;

verus! {

/// Addition that stops at `u64::MAX`, for TTL expiry times.
pub open spec fn sat_add(a: u64, b: u64) -> u64 {
    if a + b <= u64::MAX {
        (a + b) as u64
    } else {
        u64::MAX
    }
}

fn sat_add_exec(a: u64, b: u64) -> (r: u64)
    ensures
        r == sat_add(a, b),
{
    if a <= u64::MAX - b {
        a + b
    } else {
        u64::MAX
    }
}

// ---------------------------------------------------------------------------
// Rows
// ---------------------------------------------------------------------------

/// One client-keys row as stored.
pub struct KeyRow {
    pub id: u64,
    pub public_signing_key: PublicSigningKey,
    pub wrapped_private_primary_key: Option<WrappedPrivatePrimaryKey>,
    pub encrypted_comment: EncryptedKeyComment,
    pub role: AccessRole,
}

/// One submission row as stored.
pub struct SubmissionRow {
    pub submission_id: SubmissionId,
    pub encrypted_body: EncryptedSubmissionBody,
    pub created_at: u64,
}

/// One access-log row: which key was used, and when.
pub struct AccessLogRow {
    pub key_id: u64,
    pub accessed_at: u64,
}

/// The password-derivation parameters stored for one protected key.
pub struct PasswordRow {
    pub key_id: u64,
    pub params: SecretLinkPasswordParams,
}

/// One form with everything it owns.
pub struct FormRow {
    pub form_id: FormId,
    pub template: FormTemplate,
    pub public_primary_key: PublicPrimaryKey,
    pub expires_at: Option<i64>,
    /// The next key index to allocate; never decreased, so ids are never
    /// recycled within a form.
    pub next_key_id: u64,
    pub keys: Vec<KeyRow>,
    pub submissions: Vec<SubmissionRow>,
    pub access_log: Vec<AccessLogRow>,
    pub passwords: Vec<PasswordRow>,
}

/// One entry of the TTL key–value store.
pub struct TtlEntry {
    pub key: Vec<u8>,
    pub value: Vec<u8>,
    pub expires_at: u64,
}

impl FormRow {
    /// Keys strictly ascending and below the allocation counter, valid
    /// signing keys, submissions sorted by creation time, timestamps
    /// within the formattable range.
    pub open spec fn wf(&self) -> bool {
        &&& forall|i: int, j: int| 0 <= i < j < self.keys@.len()
            ==> self.keys@[i].id < self.keys@[j].id
        &&& forall|i: int| 0 <= i < self.keys@.len()
            ==> (#[trigger] self.keys@[i]).id < self.next_key_id
        &&& forall|i: int| 0 <= i < self.keys@.len()
            ==> (#[trigger] self.keys@[i]).public_signing_key.wf()
        &&& forall|i: int, j: int| 0 <= i <= j < self.submissions@.len()
            ==> self.submissions@[i].created_at <= self.submissions@[j].created_at
        &&& forall|i: int| 0 <= i < self.submissions@.len()
            ==> (#[trigger] self.submissions@[i]).created_at <= MAX_TIMESTAMP
        &&& forall|i: int| 0 <= i < self.access_log@.len()
            ==> (#[trigger] self.access_log@[i]).accessed_at <= MAX_TIMESTAMP
        &&& forall|i: int, j: int| 0 <= i < j < self.passwords@.len()
            ==> self.passwords@[i].key_id != self.passwords@[j].key_id
    }
}

// ---------------------------------------------------------------------------
// Spec-level lookups
// ---------------------------------------------------------------------------

pub open spec fn has_form(forms: Seq<FormRow>, id: Seq<u8>) -> bool {
    exists|i: int| 0 <= i < forms.len() && forms[i].form_id@ == id
}

pub open spec fn form_idx(forms: Seq<FormRow>, id: Seq<u8>) -> int {
    choose|i: int| 0 <= i < forms.len() && forms[i].form_id@ == id
}

/// The form with the given id; meaningful only when `has_form` holds.
pub open spec fn spec_form(forms: Seq<FormRow>, id: Seq<u8>) -> FormRow {
    forms[form_idx(forms, id)]
}

pub open spec fn has_key(keys: Seq<KeyRow>, id: u64) -> bool {
    exists|i: int| 0 <= i < keys.len() && keys[i].id == id
}

pub open spec fn key_idx(keys: Seq<KeyRow>, id: u64) -> int {
    choose|i: int| 0 <= i < keys.len() && keys[i].id == id
}

/// The key row with the given id; meaningful only when `has_key` holds.
pub open spec fn spec_key(keys: Seq<KeyRow>, id: u64) -> KeyRow {
    keys[key_idx(keys, id)]
}

/// Whether a form and a client key with these ids exist.
pub open spec fn has_form_key(forms: Seq<FormRow>, form: Seq<u8>, key: u64) -> bool {
    has_form(forms, form) && has_key(spec_form(forms, form).keys@, key)
}

pub open spec fn kv_has(kv: Seq<TtlEntry>, key: Seq<u8>) -> bool {
    exists|i: int| 0 <= i < kv.len() && kv[i].key@ == key
}

pub open spec fn kv_idx(kv: Seq<TtlEntry>, key: Seq<u8>) -> int {
    choose|i: int| 0 <= i < kv.len() && kv[i].key@ == key
}

/// The stored value and expiry under a key, if any.
pub open spec fn kv_entry(kv: Seq<TtlEntry>, key: Seq<u8>) -> Option<(Seq<u8>, u64)> {
    if kv_has(kv, key) {
        Some((kv[kv_idx(kv, key)].value@, kv[kv_idx(kv, key)].expires_at))
    } else {
        None
    }
}

/// The stored value under a key if its TTL has not elapsed at `now`.
pub open spec fn kv_live(kv: Seq<TtlEntry>, key: Seq<u8>, now: u64) -> Option<Seq<u8>> {
    match kv_entry(kv, key) {
        Some((v, exp)) => if now < exp {
            Some(v)
        } else {
            None
        },
        None => None,
    }
}

/// The most recent access time recorded for a key, if any.
pub open spec fn spec_accessed_at(log: Seq<AccessLogRow>, key_id: u64) -> Option<u64>
    decreases log.len(),
{
    if log.len() == 0 {
        None
    } else {
        let rest = spec_accessed_at(log.drop_last(), key_id);
        if log.last().key_id == key_id {
            match rest {
                Some(m) => if log.last().accessed_at >= m {
                    Some(log.last().accessed_at)
                } else {
                    Some(m)
                },
                None => Some(log.last().accessed_at),
            }
        } else {
            rest
        }
    }
}

/// Whether password parameters are stored for a key.
pub open spec fn spec_protected(pw: Seq<PasswordRow>, key_id: u64) -> bool {
    exists|i: int| 0 <= i < pw.len() && pw[i].key_id == key_id
}

pub open spec fn password_idx(pw: Seq<PasswordRow>, key_id: u64) -> int {
    choose|i: int| 0 <= i < pw.len() && pw[i].key_id == key_id
}

/// The `ClientKeys` record derived from a form for one key row index.
pub open spec fn client_keys_dv(f: FormRow, i: int) -> (u64, Seq<u8>, Option<Seq<char>>,
    Seq<char>, AccessRole, bool, Option<u64>) {
    let row = f.keys@[i];
    (
        row.id,
        row.public_signing_key@,
        match row.wrapped_private_primary_key {
            Some(w) => Some(w@),
            None => None,
        },
        row.encrypted_comment@,
        row.role,
        spec_protected(f.passwords@, row.id),
        spec_accessed_at(f.access_log@, row.id),
    )
}

/// Whether a form is past its expiry at `now`.
pub open spec fn expired(f: FormRow, now: u64) -> bool {
    match f.expires_at {
        Some(e) => e < now as i64,
        None => false,
    }
}

/// The forms that survive an expiry sweep at `now`, in order.
pub open spec fn keep_live(forms: Seq<FormRow>, now: u64) -> Seq<FormRow>
    decreases forms.len(),
{
    if forms.len() == 0 {
        Seq::empty()
    } else {
        let rest = keep_live(forms.drop_last(), now);
        if expired(forms.last(), now) {
            rest
        } else {
            rest.push(forms.last())
        }
    }
}

// ---------------------------------------------------------------------------
// The store and its handle types
// ---------------------------------------------------------------------------

/// The store as a request handler first receives it: reading is free, but
/// the privileged surface is meant to be used only after a bearer token
/// has passed validation.
pub struct UnauthenticatedStore(pub Store);

impl UnauthenticatedStore {
    pub fn new(store: Store) -> (r: Self)
        ensures
            r.0 == store,
    {
        UnauthenticatedStore(store)
    }

    /// Read the store without authenticating; a deliberate, greppable act.
    pub fn without_authenticating(&self) -> (r: &Store)
        ensures
            r == &self.0,
    {
        &self.0
    }
}

/// The in-memory store: every form with its owned rows, and the TTL
/// key–value store.
pub struct Store {
    pub forms: Vec<FormRow>,
    pub kv: Vec<TtlEntry>,
}

impl Store {
    /// Form ids unique, every form internally well-formed, TTL keys unique.
    pub open spec fn wf(&self) -> bool {
        &&& forall|i: int, j: int| 0 <= i < j < self.forms@.len()
            ==> self.forms@[i].form_id@ != self.forms@[j].form_id@
        &&& forall|i: int| 0 <= i < self.forms@.len() ==> (#[trigger] self.forms@[i]).wf()
        &&& forall|i: int, j: int| 0 <= i < j < self.kv@.len()
            ==> self.kv@[i].key@ != self.kv@[j].key@
    }

    pub fn empty() -> (r: Self)
        ensures
            r.wf(),
            r.forms@.len() == 0,
            r.kv@.len() == 0,
    {
        Store { forms: Vec::new(), kv: Vec::new() }
    }

    /// Find the index of a form by id.
    fn find_form(&self, form_id: &FormId) -> (r: Option<usize>)
        requires
            self.wf(),
        ensures
            match r {
                Some(i) => i < self.forms@.len() && self.forms@[i as int].form_id@ == form_id@
                    && has_form(self.forms@, form_id@) && form_idx(self.forms@, form_id@) == i,
                None => !has_form(self.forms@, form_id@),
            },
    {
        let n: usize = self.forms.len();
        for i in 0..n
            invariant
                n == self.forms@.len(),
                self.wf(),
                forall|k: int| 0 <= k < i ==> (#[trigger] self.forms@[k]).form_id@ != form_id@,
        {
            if self.forms[i].form_id.eq_id(form_id) {
                proof {
                    assert(has_form(self.forms@, form_id@));
                    let j = form_idx(self.forms@, form_id@);
                    assert(0 <= j < self.forms@.len() && self.forms@[j].form_id@ == form_id@);
                    if j != i {
                        assert(self.forms@[j].form_id@ != self.forms@[i as int].form_id@);
                    }
                }
                return Some(i);
            }
        }
        proof {
            if has_form(self.forms@, form_id@) {
                let j = form_idx(self.forms@, form_id@);
                assert(self.forms@[j].form_id@ != form_id@);
            }
        }
        None
    }

    /// Find the index of a TTL entry by key.
    fn find_kv(&self, key: &[u8]) -> (r: Option<usize>)
        requires
            self.wf(),
        ensures
            match r {
                Some(i) => i < self.kv@.len() && self.kv@[i as int].key@ == key@
                    && kv_has(self.kv@, key@) && kv_idx(self.kv@, key@) == i,
                None => !kv_has(self.kv@, key@),
            },
    {
        let n: usize = self.kv.len();
        for i in 0..n
            invariant
                n == self.kv@.len(),
                self.wf(),
                forall|k: int| 0 <= k < i ==> (#[trigger] self.kv@[k]).key@ != key@,
        {
            if bytes_eq(self.kv[i].key.as_slice(), key) {
                proof {
                    assert(kv_has(self.kv@, key@));
                    let j = kv_idx(self.kv@, key@);
                    assert(0 <= j < self.kv@.len() && self.kv@[j].key@ == key@);
                    if j != i {
                        assert(self.kv@[j].key@ != self.kv@[i as int].key@);
                    }
                }
                return Some(i);
            }
        }
        proof {
            if kv_has(self.kv@, key@) {
                let j = kv_idx(self.kv@, key@);
                assert(self.kv@[j].key@ != key@);
            }
        }
        None
    }

    /// Store `value` under `key` for `ttl` seconds from `now`, replacing
    /// any earlier entry under the same key.
    fn kv_put(&mut self, key: Vec<u8>, value: Vec<u8>, ttl: u64, now: u64)
        requires
            old(self).wf(),
        ensures
            final(self).wf(),
            final(self).forms@ == old(self).forms@,
            kv_entry(final(self).kv@, key@) == Some((value@, sat_add(now, ttl))),
            forall|k: Seq<u8>| k != key@
                ==> kv_entry(final(self).kv@, k) == kv_entry(old(self).kv@, k),
    {
        let ghost kv0 = self.kv@;
        if let Some(i) = self.find_kv(key.as_slice()) {
            self.kv.remove(i);
            proof {
                lemma_kv_remove(kv0, i as int);
            }
        }
        let ghost kv1 = self.kv@;
        assert(!kv_has(kv1, key@));
        assert(forall|k: Seq<u8>| k != key@ ==> kv_entry(kv1, k) == kv_entry(kv0, k));
        let exp: u64 = sat_add_exec(now, ttl);
        self.kv.push(TtlEntry { key, value, expires_at: exp });
        proof {
            lemma_kv_push(kv1, self.kv@.last());
        }
    }

    /// Delete the entry under `key`, if any.
    fn kv_delete(&mut self, key: &[u8])
        requires
            old(self).wf(),
        ensures
            final(self).wf(),
            final(self).forms@ == old(self).forms@,
            kv_entry(final(self).kv@, key@) is None,
            forall|k: Seq<u8>| k != key@
                ==> kv_entry(final(self).kv@, k) == kv_entry(old(self).kv@, k),
    {
        let ghost kv0 = self.kv@;
        if let Some(i) = self.find_kv(key) {
            self.kv.remove(i);
            proof {
                lemma_kv_remove(kv0, i as int);
            }
        }
    }

    /// Read the live value under `key` at time `now`.
    fn kv_get(&self, key: &[u8], now: u64) -> (r: Option<Vec<u8>>)
        requires
            self.wf(),
        ensures
            match r {
                Some(v) => kv_live(self.kv@, key@, now) == Some(v@),
                None => kv_live(self.kv@, key@, now) is None,
            },
    {
        match self.find_kv(key) {
            Some(i) => {
                let e = &self.kv[i];
                if now < e.expires_at {
                    Some(clone_bytes(&e.value))
                } else {
                    None
                }
            },
            None => None,
        }
    }
}

/// The form stored under an id, if any.
pub open spec fn form_entry(forms: Seq<FormRow>, id: Seq<u8>) -> Option<FormRow> {
    if has_form(forms, id) {
        Some(spec_form(forms, id))
    } else {
        None
    }
}

/// With unique ids, the form under `forms[j].form_id` is `forms[j]` itself.
proof fn lemma_form_entry_at(forms: Seq<FormRow>, j: int)
    requires
        0 <= j < forms.len(),
        forall|a: int, b: int| 0 <= a < b < forms.len()
            ==> forms[a].form_id@ != forms[b].form_id@,
    ensures
        has_form(forms, forms[j].form_id@),
        form_idx(forms, forms[j].form_id@) == j,
        form_entry(forms, forms[j].form_id@) == Some(forms[j]),
{
    assert(has_form(forms, forms[j].form_id@));
    let j2 = form_idx(forms, forms[j].form_id@);
    assert(0 <= j2 < forms.len() && forms[j2].form_id@ == forms[j].form_id@);
    if j2 != j {
        assert(forms[j2].form_id@ != forms[j].form_id@);
    }
}

/// After removing index `i`, the removed form's id is gone and every other
/// id maps to the same form.
proof fn lemma_form_remove(forms: Seq<FormRow>, i: int)
    requires
        0 <= i < forms.len(),
        forall|a: int, b: int| 0 <= a < b < forms.len()
            ==> forms[a].form_id@ != forms[b].form_id@,
    ensures
        forall|a: int, b: int| 0 <= a < b < forms.remove(i).len()
            ==> forms.remove(i)[a].form_id@ != forms.remove(i)[b].form_id@,
        !has_form(forms.remove(i), forms[i].form_id@),
        forall|k: Seq<u8>| k != forms[i].form_id@
            ==> form_entry(forms.remove(i), k) == form_entry(forms, k),
{
    let r = forms.remove(i);
    assert(forall|a: int| 0 <= a < r.len()
        ==> #[trigger] r[a] == (if a < i { forms[a] } else { forms[a + 1] }));
    assert forall|k: Seq<u8>| k != forms[i].form_id@
        implies form_entry(r, k) == form_entry(forms, k) by {
        if has_form(forms, k) {
            let j = form_idx(forms, k);
            assert(0 <= j < forms.len() && forms[j].form_id@ == k);
            assert(j != i);
            let j2: int = if j < i { j } else { j - 1 };
            assert(r[j2] == forms[j]);
            lemma_form_entry_at(r, j2);
            lemma_form_entry_at(forms, j);
        } else {
            if has_form(r, k) {
                let j2 = form_idx(r, k);
                assert(r[j2].form_id@ == k);
                assert(has_form(forms, k));
            }
        }
    }
    if has_form(r, forms[i].form_id@) {
        let j2 = form_idx(r, forms[i].form_id@);
        assert(r[j2].form_id@ == forms[i].form_id@);
        let j: int = if j2 < i { j2 } else { j2 + 1 };
        assert(forms[j].form_id@ == forms[i].form_id@ && j != i);
    }
}

/// Appending a form with a fresh id keeps the other forms and binds its id
/// to it.
proof fn lemma_form_push(forms: Seq<FormRow>, f: FormRow)
    requires
        forall|a: int, b: int| 0 <= a < b < forms.len()
            ==> forms[a].form_id@ != forms[b].form_id@,
        !has_form(forms, f.form_id@),
    ensures
        forall|a: int, b: int| 0 <= a < b < forms.push(f).len()
            ==> forms.push(f)[a].form_id@ != forms.push(f)[b].form_id@,
        form_entry(forms.push(f), f.form_id@) == Some(f),
        forall|k: Seq<u8>| k != f.form_id@
            ==> form_entry(forms.push(f), k) == form_entry(forms, k),
{
    let r = forms.push(f);
    assert forall|a: int, b: int| 0 <= a < b < r.len()
        implies r[a].form_id@ != r[b].form_id@ by {
        if b == forms.len() as int {
            assert(r[a] == forms[a]);
            if r[a].form_id@ == f.form_id@ {
                assert(has_form(forms, f.form_id@));
            }
        }
    }
    lemma_form_entry_at(r, forms.len() as int);
    assert forall|k: Seq<u8>| k != f.form_id@
        implies form_entry(r, k) == form_entry(forms, k) by {
        if has_form(forms, k) {
            let j = form_idx(forms, k);
            assert(r[j] == forms[j]);
            lemma_form_entry_at(r, j);
            lemma_form_entry_at(forms, j);
        } else {
            if has_form(r, k) {
                let j2 = form_idx(r, k);
                assert(r[j2].form_id@ == k);
                assert(j2 < forms.len());
                assert(has_form(forms, k));
            }
        }
    }
}

/// Replacing the form at index `i` by one with the same id keeps the other
/// forms and rebinds that id.
proof fn lemma_form_update(forms: Seq<FormRow>, i: int, f: FormRow)
    requires
        0 <= i < forms.len(),
        f.form_id@ == forms[i].form_id@,
        forall|a: int, b: int| 0 <= a < b < forms.len()
            ==> forms[a].form_id@ != forms[b].form_id@,
    ensures
        forall|a: int, b: int| 0 <= a < b < forms.update(i, f).len()
            ==> forms.update(i, f)[a].form_id@ != forms.update(i, f)[b].form_id@,
        form_entry(forms.update(i, f), f.form_id@) == Some(f),
        forall|k: Seq<u8>| k != f.form_id@
            ==> form_entry(forms.update(i, f), k) == form_entry(forms, k),
{
    let r = forms.update(i, f);
    assert(forall|a: int| 0 <= a < r.len()
        ==> #[trigger] r[a] == (if a == i { f } else { forms[a] }));
    lemma_form_entry_at(r, i);
    assert forall|k: Seq<u8>| k != f.form_id@
        implies form_entry(r, k) == form_entry(forms, k) by {
        if has_form(forms, k) {
            let j = form_idx(forms, k);
            assert(j != i);
            assert(r[j] == forms[j]);
            lemma_form_entry_at(r, j);
            lemma_form_entry_at(forms, j);
        } else {
            if has_form(r, k) {
                let j2 = form_idx(r, k);
                assert(j2 != i);
                assert(has_form(forms, k));
            }
        }
    }
}

impl Store {
    /// Read a form's template, public primary key and expiry.
    pub fn get_form_data(&self, form_id: &FormId) -> (r: Option<FormData>)
        requires
            self.wf(),
        ensures
            r is Some <==> has_form(self.forms@, form_id@),
            r matches Some(d) ==> ({
                let f = spec_form(self.forms@, form_id@);
                &&& d.template.dv() == f.template.dv()
                &&& d.public_primary_key@ == f.public_primary_key@
                &&& d.expires_at == f.expires_at
            }),
    {
        match self.find_form(form_id) {
            Some(i) => {
                let f = &self.forms[i];
                Some(FormData {
                    template: f.template.clone_template(),
                    public_primary_key: f.public_primary_key.clone_key(),
                    expires_at: f.expires_at,
                })
            },
            None => None,
        }
    }

    /// Insert a new form row; refuses a duplicate id. The new form owns no
    /// keys, submissions, log rows or password rows yet.
    pub fn put_form_template(&mut self, form_id: &FormId, template: FormTemplate,
        public_primary_key: PublicPrimaryKey, expires_at: Option<i64>) -> (r: bool)
        requires
            old(self).wf(),
        ensures
            final(self).wf(),
            final(self).kv@ == old(self).kv@,
            r == !has_form(old(self).forms@, form_id@),
            !r ==> *final(self) == *old(self),
            r ==> ({
                let f = spec_form(final(self).forms@, form_id@);
                &&& has_form(final(self).forms@, form_id@)
                &&& f.form_id@ == form_id@
                &&& f.template.dv() == template.dv()
                &&& f.public_primary_key@ == public_primary_key@
                &&& f.expires_at == expires_at
                &&& f.next_key_id == 0
                &&& f.keys@.len() == 0
                &&& f.submissions@.len() == 0
                &&& f.access_log@.len() == 0
                &&& f.passwords@.len() == 0
                &&& forall|k: Seq<u8>| k != form_id@
                    ==> form_entry(final(self).forms@, k) == form_entry(old(self).forms@, k)
            }),
    {
        if self.find_form(form_id).is_some() {
            return false;
        }
        let row = FormRow {
            form_id: form_id.clone_id(),
            template,
            public_primary_key,
            expires_at,
            next_key_id: 0,
            keys: Vec::new(),
            submissions: Vec::new(),
            access_log: Vec::new(),
            passwords: Vec::new(),
        };
        proof {
            assert(row.wf());
            lemma_form_push(self.forms@, row);
        }
        self.forms.push(row);
        proof {
            let f = spec_form(self.forms@, form_id@);
            assert(form_entry(self.forms@, form_id@) == Some(self.forms@.last()));
            assert(f == self.forms@.last());
        }
        true
    }

    /// Replace a form's template and expiry; a missing form is left as a
    /// no-op, as for the underlying UPDATE.
    pub fn edit_form(&mut self, form_id: &FormId, data: FormUpdate)
        requires
            old(self).wf(),
        ensures
            final(self).wf(),
            final(self).kv@ == old(self).kv@,
            !has_form(old(self).forms@, form_id@) ==> *final(self) == *old(self),
            has_form(old(self).forms@, form_id@) ==> ({
                let f0 = spec_form(old(self).forms@, form_id@);
                let f = spec_form(final(self).forms@, form_id@);
                &&& has_form(final(self).forms@, form_id@)
                &&& f.template.dv() == data.template.dv()
                &&& f.expires_at == data.expires_at
                &&& f.form_id@ == form_id@
                &&& f.keys@ == f0.keys@
                &&& f.next_key_id == f0.next_key_id
                &&& f.submissions@ == f0.submissions@
                &&& f.access_log@ == f0.access_log@
                &&& f.passwords@ == f0.passwords@
                &&& f.public_primary_key@ == f0.public_primary_key@
                &&& forall|k: Seq<u8>| k != form_id@
                    ==> form_entry(final(self).forms@, k) == form_entry(old(self).forms@, k)
            }),
    {
        if let Some(i) = self.find_form(form_id) {
            let ghost forms0 = self.forms@;
            let row = &mut self.forms[i];
            row.template = data.template;
            row.expires_at = data.expires_at;
            proof {
                lemma_form_update(forms0, i as int, self.forms@[i as int]);
            }
        }
    }

    /// Delete a form and, with it, everything it owns; idempotent.
    pub fn delete_form(&mut self, form_id: &FormId)
        requires
            old(self).wf(),
        ensures
            final(self).wf(),
            final(self).kv@ == old(self).kv@,
            !has_form(final(self).forms@, form_id@),
            forall|k: Seq<u8>| k != form_id@
                ==> form_entry(final(self).forms@, k) == form_entry(old(self).forms@, k),
            !has_form(old(self).forms@, form_id@) ==> *final(self) == *old(self),
    {
        let ghost forms0 = self.forms@;
        if let Some(i) = self.find_form(form_id) {
            self.forms.remove(i);
            proof {
                lemma_form_remove(forms0, i as int);
            }
        }
    }

    /// Delete every form whose expiry is set and in the past, cascading as
    /// for an explicit deletion.
    pub fn delete_expired_forms(&mut self, now: u64)
        requires
            old(self).wf(),
            now <= MAX_TIMESTAMP,
        ensures
            final(self).wf(),
            final(self).kv@ == old(self).kv@,
            final(self).forms@ == keep_live(old(self).forms@, now),
    {
        let mut tmp: Vec<FormRow> = Vec::new();
        core::mem::swap(&mut self.forms, &mut tmp);
        proof {
            lemma_keep_live_wf(tmp@, now);
        }
        let kept = keep_live_exec(tmp, now);
        self.forms = kept;
    }
}

/// Find a key row by id among keys sorted by id.
fn find_key(keys: &Vec<KeyRow>, id: u64) -> (r: Option<usize>)
    requires
        forall|a: int, b: int| 0 <= a < b < keys@.len() ==> keys@[a].id < keys@[b].id,
    ensures
        match r {
            Some(i) => i < keys@.len() && keys@[i as int].id == id
                && has_key(keys@, id) && key_idx(keys@, id) == i,
            None => !has_key(keys@, id),
        },
{
    let n: usize = keys.len();
    for i in 0..n
        invariant
            n == keys@.len(),
            forall|a: int, b: int| 0 <= a < b < keys@.len() ==> keys@[a].id < keys@[b].id,
            forall|k: int| 0 <= k < i ==> (#[trigger] keys@[k]).id != id,
    {
        if keys[i].id == id {
            proof {
                assert(has_key(keys@, id));
                let j = key_idx(keys@, id);
                assert(0 <= j < keys@.len() && keys@[j].id == id);
                if j < i as int {
                    assert(keys@[j].id != id);
                }
                if j > i as int {
                    assert(keys@[i as int].id < keys@[j].id);
                }
            }
            return Some(i);
        }
    }
    proof {
        if has_key(keys@, id) {
            let j = key_idx(keys@, id);
            assert(keys@[j].id != id);
        }
    }
    None
}

/// Compute the most recent access time recorded for a key.
fn accessed_at_exec(log: &Vec<AccessLogRow>, key_id: u64) -> (r: Option<u64>)
    ensures
        r == spec_accessed_at(log@, key_id),
{
    let mut r: Option<u64> = None;
    let n: usize = log.len();
    for i in 0..n
        invariant
            n == log@.len(),
            r == spec_accessed_at(log@.take(i as int), key_id),
    {
        let e = &log[i];
        proof {
            assert(log@.take(i + 1).drop_last() =~= log@.take(i as int));
            assert(log@.take(i + 1).last() == log@[i as int]);
        }
        if e.key_id == key_id {
            r = match r {
                Some(m) => if e.accessed_at >= m {
                    Some(e.accessed_at)
                } else {
                    Some(m)
                },
                None => Some(e.accessed_at),
            };
        }
    }
    proof {
        assert(log@.take(n as int) =~= log@);
    }
    r
}

/// Whether password parameters are stored for a key.
fn protected_exec(pw: &Vec<PasswordRow>, key_id: u64) -> (r: bool)
    ensures
        r == spec_protected(pw@, key_id),
{
    let n: usize = pw.len();
    for i in 0..n
        invariant
            n == pw@.len(),
            forall|k: int| 0 <= k < i ==> (#[trigger] pw@[k]).key_id != key_id,
    {
        if pw[i].key_id == key_id {
            proof {
                assert(spec_protected(pw@, key_id));
            }
            return true;
        }
    }
    proof {
        if spec_protected(pw@, key_id) {
            let j = password_idx(pw@, key_id);
            assert(pw@[j].key_id != key_id);
        }
    }
    false
}

/// After removing index `i` from keys sorted by id, the removed id is gone
/// and the order is kept.
proof fn lemma_key_remove(keys: Seq<KeyRow>, i: int)
    requires
        0 <= i < keys.len(),
        forall|a: int, b: int| 0 <= a < b < keys.len() ==> keys[a].id < keys[b].id,
    ensures
        forall|a: int, b: int| 0 <= a < b < keys.remove(i).len()
            ==> keys.remove(i)[a].id < keys.remove(i)[b].id,
        !has_key(keys.remove(i), keys[i].id),
    {
    let r = keys.remove(i);
    assert(forall|a: int| 0 <= a < r.len()
        ==> #[trigger] r[a] == (if a < i { keys[a] } else { keys[a + 1] }));
    if has_key(r, keys[i].id) {
        let j2 = key_idx(r, keys[i].id);
        assert(r[j2].id == keys[i].id);
        let j: int = if j2 < i { j2 } else { j2 + 1 };
        assert(keys[j].id == keys[i].id && j != i);
        if j < i {
            assert(keys[j].id < keys[i].id);
        } else {
            assert(keys[i].id < keys[j].id);
        }
    }
}

/// Every recorded access time is within the formattable range, so the
/// derived last-access time is too.
pub proof fn lemma_accessed_at_bound(log: Seq<AccessLogRow>, key_id: u64)
    requires
        forall|i: int| 0 <= i < log.len()
            ==> (#[trigger] log[i]).accessed_at <= MAX_TIMESTAMP,
    ensures
        spec_accessed_at(log, key_id) matches Some(ts) ==> ts <= MAX_TIMESTAMP,
    decreases log.len(),
{
    if log.len() > 0 {
        assert(forall|i: int| 0 <= i < log.drop_last().len()
            ==> (#[trigger] log.drop_last()[i]).accessed_at <= MAX_TIMESTAMP);
        lemma_accessed_at_bound(log.drop_last(), key_id);
    }
}

/// With ids strictly ascending, the key with `keys[j].id` is `keys[j]`.
pub proof fn lemma_key_at(keys: Seq<KeyRow>, j: int)
    requires
        0 <= j < keys.len(),
        forall|a: int, b: int| 0 <= a < b < keys.len() ==> keys[a].id < keys[b].id,
    ensures
        has_key(keys, keys[j].id),
        key_idx(keys, keys[j].id) == j,
        spec_key(keys, keys[j].id) == keys[j],
{
    assert(has_key(keys, keys[j].id));
    let j2 = key_idx(keys, keys[j].id);
    assert(0 <= j2 < keys.len() && keys[j2].id == keys[j].id);
    if j2 < j {
        assert(keys[j2].id < keys[j].id);
    }
    if j2 > j {
        assert(keys[j].id < keys[j2].id);
    }
}

/// The last row of an ascending key sequence is the row of its id.
pub proof fn lemma_key_last(keys: Seq<KeyRow>, id: u64)
    requires
        keys.len() > 0,
        keys.last().id == id,
        forall|a: int, b: int| 0 <= a < b < keys.len() ==> keys[a].id < keys[b].id,
    ensures
        has_key(keys, id),
        spec_key(keys, id) == keys.last(),
{
    lemma_key_at(keys, keys.len() - 1);
}

impl Store {
    /// Read one client-keys record, with its derived `protected` flag and
    /// last-access time.
    pub fn get_client_keys(&self, form_id: &FormId, key_id: ClientKeyId) -> (r: Option<
        ClientKeys>)
        requires
            self.wf(),
        ensures
            r is Some <==> has_form_key(self.forms@, form_id@, key_id.0),
            r matches Some(ck) ==> ({
                let f = spec_form(self.forms@, form_id@);
                ck.dv() == client_keys_dv(f, key_idx(f.keys@, key_id.0))
            }),
    {
        let i = match self.find_form(form_id) {
            Some(i) => i,
            None => {
                return None;
            },
        };
        let f = &self.forms[i];
        let j = match find_key(&f.keys, key_id.0) {
            Some(j) => j,
            None => {
                return None;
            },
        };
        let row = &f.keys[j];
        Some(ClientKeys {
            id: ClientKeyId(row.id),
            public_signing_key: row.public_signing_key.clone_key(),
            wrapped_private_primary_key: match row.wrapped_private_primary_key {
                Some(ref w) => Some(w.clone_key()),
                None => None,
            },
            encrypted_comment: row.encrypted_comment.clone_comment(),
            role: row.role,
            protected: protected_exec(&f.passwords, row.id),
            accessed_at: accessed_at_exec(&f.access_log, row.id),
        })
    }

    /// List a form's client-keys records, ascending by key id; an unknown
    /// form lists as empty.
    pub fn list_client_keys(&self, form_id: &FormId) -> (r: Vec<ClientKeys>)
        requires
            self.wf(),
        ensures
            !has_form(self.forms@, form_id@) ==> r@.len() == 0,
            has_form(self.forms@, form_id@) ==> ({
                let f = spec_form(self.forms@, form_id@);
                r@.len() == f.keys@.len()
                    && forall|i: int| 0 <= i < r@.len()
                        ==> (#[trigger] r@[i]).dv() == client_keys_dv(f, i)
            }),
    {
        let mut out: Vec<ClientKeys> = Vec::new();
        let i = match self.find_form(form_id) {
            Some(i) => i,
            None => {
                return out;
            },
        };
        let f = &self.forms[i];
        let n: usize = f.keys.len();
        for j in 0..n
            invariant
                self.wf(),
                has_form(self.forms@, form_id@),
                0 <= form_idx(self.forms@, form_id@) < self.forms@.len(),
                n == f.keys@.len(),
                f == &self.forms@[form_idx(self.forms@, form_id@)],
                out@.len() == j,
                forall|k: int| 0 <= k < j
                    ==> (#[trigger] out@[k]).dv() == client_keys_dv(*f, k),
        {
            let row = &f.keys[j];
            out.push(ClientKeys {
                id: ClientKeyId(row.id),
                public_signing_key: row.public_signing_key.clone_key(),
                wrapped_private_primary_key: match row.wrapped_private_primary_key {
                    Some(ref w) => Some(w.clone_key()),
                    None => None,
                },
                encrypted_comment: row.encrypted_comment.clone_comment(),
                role: row.role,
                protected: protected_exec(&f.passwords, row.id),
                accessed_at: accessed_at_exec(&f.access_log, row.id),
            });
        }
        out
    }

    /// Insert a new client-keys row, allocating the next key id within the
    /// form. `None` when the form does not exist (or the id counter is
    /// exhausted, a machine limit no real form reaches).
    pub fn store_client_keys(&mut self, form_id: &FormId, public_signing_key: PublicSigningKey,
        wrapped_private_primary_key: Option<WrappedPrivatePrimaryKey>,
        encrypted_comment: EncryptedKeyComment, role: AccessRole) -> (r: Option<ClientKeyId>)
        requires
            old(self).wf(),
            public_signing_key.wf(),
        ensures
            final(self).wf(),
            final(self).kv@ == old(self).kv@,
            r is Some <==> (has_form(old(self).forms@, form_id@)
                && spec_form(old(self).forms@, form_id@).next_key_id < u64::MAX),
            r is None ==> *final(self) == *old(self),
            r matches Some(id) ==> ({
                let f0 = spec_form(old(self).forms@, form_id@);
                let f = spec_form(final(self).forms@, form_id@);
                &&& has_form(final(self).forms@, form_id@)
                &&& id.0 == f0.next_key_id
                &&& f.keys@ == f0.keys@.push(KeyRow {
                    id: id.0,
                    public_signing_key,
                    wrapped_private_primary_key,
                    encrypted_comment,
                    role,
                })
                &&& f.next_key_id == f0.next_key_id + 1
                &&& f.form_id@ == form_id@
                &&& f.template == f0.template
                &&& f.public_primary_key == f0.public_primary_key
                &&& f.expires_at == f0.expires_at
                &&& f.submissions@ == f0.submissions@
                &&& f.access_log@ == f0.access_log@
                &&& f.passwords@ == f0.passwords@
                &&& forall|k: Seq<u8>| k != form_id@
                    ==> form_entry(final(self).forms@, k) == form_entry(old(self).forms@, k)
            }),
    {
        let i = match self.find_form(form_id) {
            Some(i) => i,
            None => {
                return None;
            },
        };
        if self.forms[i].next_key_id == u64::MAX {
            return None;
        }
        let ghost forms0 = self.forms@;
        let row = &mut self.forms[i];
        let id: u64 = row.next_key_id;
        row.keys.push(KeyRow {
            id,
            public_signing_key,
            wrapped_private_primary_key,
            encrypted_comment,
            role,
        });
        row.next_key_id = id + 1;
        proof {
            let f = self.forms@[i as int];
            let f0 = forms0[i as int];
            assert(forall|a: int| 0 <= a < f0.keys@.len()
                ==> #[trigger] f.keys@[a] == f0.keys@[a]);
            assert(f.wf());
            lemma_form_update(forms0, i as int, f);
        }
        Some(ClientKeyId(id))
    }

    /// Replace a key's wrapped primary key and/or encrypted comment;
    /// absent arguments leave the field untouched, a missing row is a
    /// no-op.
    pub fn update_client_keys(&mut self, form_id: &FormId, key_id: ClientKeyId,
        wrapped_private_primary_key: Option<WrappedPrivatePrimaryKey>,
        encrypted_comment: Option<EncryptedKeyComment>)
        requires
            old(self).wf(),
        ensures
            final(self).wf(),
            final(self).kv@ == old(self).kv@,
            !has_form_key(old(self).forms@, form_id@, key_id.0)
                ==> *final(self) == *old(self),
            has_form_key(old(self).forms@, form_id@, key_id.0) ==> ({
                let f0 = spec_form(old(self).forms@, form_id@);
                let j = key_idx(f0.keys@, key_id.0);
                let row0 = f0.keys@[j];
                let f = spec_form(final(self).forms@, form_id@);
                &&& has_form(final(self).forms@, form_id@)
                &&& f.keys@ == f0.keys@.update(j, (KeyRow {
                    wrapped_private_primary_key: match wrapped_private_primary_key {
                        Some(w) => Some(w),
                        None => row0.wrapped_private_primary_key,
                    },
                    encrypted_comment: match encrypted_comment {
                        Some(c) => c,
                        None => row0.encrypted_comment,
                    },
                    ..row0
                }))
                &&& f.form_id@ == form_id@
                &&& f.next_key_id == f0.next_key_id
                &&& f.template == f0.template
                &&& f.public_primary_key == f0.public_primary_key
                &&& f.expires_at == f0.expires_at
                &&& f.submissions@ == f0.submissions@
                &&& f.access_log@ == f0.access_log@
                &&& f.passwords@ == f0.passwords@
                &&& forall|k: Seq<u8>| k != form_id@
                    ==> form_entry(final(self).forms@, k) == form_entry(old(self).forms@, k)
            }),
    {
        let i = match self.find_form(form_id) {
            Some(i) => i,
            None => {
                return;
            },
        };
        let j = match find_key(&self.forms[i].keys, key_id.0) {
            Some(j) => j,
            None => {
                return;
            },
        };
        let ghost forms0 = self.forms@;
        let row = &mut self.forms[i];
        let ghost keys0 = row.keys@;
        let cell = &mut row.keys[j];
        match wrapped_private_primary_key {
            Some(w) => {
                cell.wrapped_private_primary_key = Some(w);
            },
            None => {},
        }
        match encrypted_comment {
            Some(c) => {
                cell.encrypted_comment = c;
            },
            None => {},
        }
        proof {
            let f = self.forms@[i as int];
            assert(forall|a: int| 0 <= a < f.keys@.len()
                ==> (#[trigger] f.keys@[a]).id == keys0[a].id);
            assert(f.keys@ =~= keys0.update(j as int, f.keys@[j as int]));
            assert(f.wf());
            lemma_form_update(forms0, i as int, f);
        }
    }

    /// Delete one client-keys row; idempotent.
    pub fn delete_client_keys(&mut self, form_id: &FormId, key_id: ClientKeyId)
        requires
            old(self).wf(),
        ensures
            final(self).wf(),
            final(self).kv@ == old(self).kv@,
            !has_form_key(old(self).forms@, form_id@, key_id.0)
                ==> *final(self) == *old(self),
            has_form(final(self).forms@, form_id@) == has_form(old(self).forms@, form_id@),
            has_form_key(old(self).forms@, form_id@, key_id.0) ==> ({
                let f0 = spec_form(old(self).forms@, form_id@);
                let f = spec_form(final(self).forms@, form_id@);
                &&& f.keys@ == f0.keys@.remove(key_idx(f0.keys@, key_id.0))
                &&& !has_key(f.keys@, key_id.0)
                &&& f.form_id@ == form_id@
                &&& f.next_key_id == f0.next_key_id
                &&& f.template == f0.template
                &&& f.public_primary_key == f0.public_primary_key
                &&& f.expires_at == f0.expires_at
                &&& f.submissions@ == f0.submissions@
                &&& f.access_log@ == f0.access_log@
                &&& f.passwords@ == f0.passwords@
                &&& forall|k: Seq<u8>| k != form_id@
                    ==> form_entry(final(self).forms@, k) == form_entry(old(self).forms@, k)
            }),
    {
        let i = match self.find_form(form_id) {
            Some(i) => i,
            None => {
                return;
            },
        };
        let j = match find_key(&self.forms[i].keys, key_id.0) {
            Some(j) => j,
            None => {
                return;
            },
        };
        let ghost forms0 = self.forms@;
        let row = &mut self.forms[i];
        let ghost keys0 = row.keys@;
        row.keys.remove(j);
        proof {
            lemma_key_remove(keys0, j as int);
            let f = self.forms@[i as int];
            assert(forall|a: int| 0 <= a < f.keys@.len()
                ==> #[trigger] f.keys@[a] == (if a < j as int { keys0[a] } else { keys0[a + 1] }));
            assert(f.wf());
            lemma_form_update(forms0, i as int, f);
        }
    }

    /// Insert a submission under a form, keeping submissions sorted by
    /// creation time; reports whether a row was inserted, which is false
    /// exactly when the form does not exist.
    pub fn put_submission(&mut self, form_id: &FormId, submission_id: SubmissionId,
        encrypted_submission: EncryptedSubmissionBody, now: u64) -> (r: bool)
        requires
            old(self).wf(),
            now <= MAX_TIMESTAMP,
        ensures
            final(self).wf(),
            final(self).kv@ == old(self).kv@,
            r == has_form(old(self).forms@, form_id@),
            !r ==> *final(self) == *old(self),
            r ==> ({
                let f0 = spec_form(old(self).forms@, form_id@);
                let f = spec_form(final(self).forms@, form_id@);
                &&& has_form(final(self).forms@, form_id@)
                &&& exists|p: int| 0 <= p <= f0.submissions@.len()
                    && f.submissions@ == f0.submissions@.insert(p, (SubmissionRow {
                        submission_id,
                        encrypted_body: encrypted_submission,
                        created_at: now,
                    }))
                &&& f.form_id@ == form_id@
                &&& f.keys@ == f0.keys@
                &&& f.next_key_id == f0.next_key_id
                &&& f.template == f0.template
                &&& f.public_primary_key == f0.public_primary_key
                &&& f.expires_at == f0.expires_at
                &&& f.access_log@ == f0.access_log@
                &&& f.passwords@ == f0.passwords@
                &&& forall|k: Seq<u8>| k != form_id@
                    ==> form_entry(final(self).forms@, k) == form_entry(old(self).forms@, k)
            }),
    {
        let i = match self.find_form(form_id) {
            Some(i) => i,
            None => {
                return false;
            },
        };
        let ghost forms0 = self.forms@;
        let row = &mut self.forms[i];
        let ghost subs0 = row.submissions@;
        let mut pos: usize = row.submissions.len();
        while pos > 0 && row.submissions[pos - 1].created_at > now
            invariant
                pos <= row.submissions@.len(),
                row.submissions@ == subs0,
                forall|k: int| pos <= k < subs0.len()
                    ==> (#[trigger] subs0[k]).created_at > now,
            decreases pos,
        {
            pos = pos - 1;
        }
        row.submissions.insert(pos, SubmissionRow {
            submission_id,
            encrypted_body: encrypted_submission,
            created_at: now,
        });
        proof {
            let f = self.forms@[i as int];
            let f0 = forms0[i as int];
            assert(forall|a: int| 0 <= a < f.submissions@.len()
                ==> #[trigger] f.submissions@[a] == (if a < pos as int {
                    subs0[a]
                } else if a == pos as int {
                    f.submissions@[pos as int]
                } else {
                    subs0[a - 1]
                }));
            assert(forall|a: int, b: int| 0 <= a <= b < f.submissions@.len()
                ==> f.submissions@[a].created_at <= f.submissions@[b].created_at) by {
                assert(forall|a: int| 0 <= a < pos as int
                    ==> (#[trigger] subs0[a]).created_at <= now);
            }
            assert(f.wf());
            lemma_form_update(forms0, i as int, f);
        }
        true
    }

    /// List a form's submissions, newest first; an unknown form lists as
    /// empty.
    pub fn list_submissions(&self, form_id: &FormId) -> (r: Vec<Submission>)
        requires
            self.wf(),
        ensures
            !has_form(self.forms@, form_id@) ==> r@.len() == 0,
            has_form(self.forms@, form_id@) ==> ({
                let subs = spec_form(self.forms@, form_id@).submissions@;
                r@.len() == subs.len()
                    && forall|i: int| 0 <= i < r@.len()
                        ==> (#[trigger] r@[i]).dv() == (subs[subs.len() - 1 - i].encrypted_body@,
                            subs[subs.len() - 1 - i].created_at)
            }),
    {
        let mut out: Vec<Submission> = Vec::new();
        let i = match self.find_form(form_id) {
            Some(i) => i,
            None => {
                return out;
            },
        };
        let f = &self.forms[i];
        let n: usize = f.submissions.len();
        for j in 0..n
            invariant
                self.wf(),
                has_form(self.forms@, form_id@),
                0 <= form_idx(self.forms@, form_id@) < self.forms@.len(),
                n == f.submissions@.len(),
                f == &self.forms@[form_idx(self.forms@, form_id@)],
                out@.len() == j,
                forall|k: int| 0 <= k < j
                    ==> (#[trigger] out@[k]).dv() == (f.submissions@[n - 1 - k].encrypted_body@,
                        f.submissions@[n - 1 - k].created_at),
        {
            let row = &f.submissions[n - 1 - j];
            out.push(Submission {
                encrypted_body: row.encrypted_body.clone_body(),
                created_at: row.created_at,
            });
        }
        out
    }

    /// Record a use of a client key; a missing form or key is a no-op, as
    /// for the underlying INSERT ... SELECT.
    pub fn log_access(&mut self, form_id: &FormId, key_id: ClientKeyId, now: u64)
        requires
            old(self).wf(),
            now <= MAX_TIMESTAMP,
        ensures
            final(self).wf(),
            final(self).kv@ == old(self).kv@,
            !has_form_key(old(self).forms@, form_id@, key_id.0)
                ==> *final(self) == *old(self),
            has_form_key(old(self).forms@, form_id@, key_id.0) ==> ({
                let f0 = spec_form(old(self).forms@, form_id@);
                let f = spec_form(final(self).forms@, form_id@);
                &&& has_form(final(self).forms@, form_id@)
                &&& f.access_log@ == f0.access_log@.push(AccessLogRow {
                    key_id: key_id.0,
                    accessed_at: now,
                })
                &&& f.form_id@ == form_id@
                &&& f.keys@ == f0.keys@
                &&& f.next_key_id == f0.next_key_id
                &&& f.template == f0.template
                &&& f.public_primary_key == f0.public_primary_key
                &&& f.expires_at == f0.expires_at
                &&& f.submissions@ == f0.submissions@
                &&& f.passwords@ == f0.passwords@
                &&& forall|k: Seq<u8>| k != form_id@
                    ==> form_entry(final(self).forms@, k) == form_entry(old(self).forms@, k)
            }),
    {
        let i = match self.find_form(form_id) {
            Some(i) => i,
            None => {
                return;
            },
        };
        if find_key(&self.forms[i].keys, key_id.0).is_none() {
            return;
        }
        let ghost forms0 = self.forms@;
        let row = &mut self.forms[i];
        row.access_log.push(AccessLogRow { key_id: key_id.0, accessed_at: now });
        proof {
            let f = self.forms@[i as int];
            assert(f.wf());
            lemma_form_update(forms0, i as int, f);
        }
    }

    /// Store the password parameters of one protected key; reports whether
    /// a row was inserted, which fails for a missing form or key and for a
    /// key that already has one.
    pub fn store_password_params(&mut self, form_id: &FormId, key_id: ClientKeyId,
        salt: crate::models::SecretLinkPasswordSalt, nonce: crate::models::SecretLinkPasswordNonce)
        -> (r: bool)
        requires
            old(self).wf(),
        ensures
            final(self).wf(),
            final(self).kv@ == old(self).kv@,
            r == (has_form_key(old(self).forms@, form_id@, key_id.0)
                && !spec_protected(spec_form(old(self).forms@, form_id@).passwords@, key_id.0)),
            !r ==> *final(self) == *old(self),
            r ==> ({
                let f0 = spec_form(old(self).forms@, form_id@);
                let f = spec_form(final(self).forms@, form_id@);
                &&& has_form(final(self).forms@, form_id@)
                &&& f.passwords@ == f0.passwords@.push(PasswordRow {
                    key_id: key_id.0,
                    params: (SecretLinkPasswordParams { salt, nonce }),
                })
                &&& f.form_id@ == form_id@
                &&& f.keys@ == f0.keys@
                &&& f.next_key_id == f0.next_key_id
                &&& f.template == f0.template
                &&& f.public_primary_key == f0.public_primary_key
                &&& f.expires_at == f0.expires_at
                &&& f.submissions@ == f0.submissions@
                &&& f.access_log@ == f0.access_log@
                &&& forall|k: Seq<u8>| k != form_id@
                    ==> form_entry(final(self).forms@, k) == form_entry(old(self).forms@, k)
            }),
    {
        let i = match self.find_form(form_id) {
            Some(i) => i,
            None => {
                return false;
            },
        };
        if find_key(&self.forms[i].keys, key_id.0).is_none() {
            return false;
        }
        if protected_exec(&self.forms[i].passwords, key_id.0) {
            return false;
        }
        let ghost forms0 = self.forms@;
        let row = &mut self.forms[i];
        row.passwords.push(PasswordRow {
            key_id: key_id.0,
            params: SecretLinkPasswordParams { salt, nonce },
        });
        proof {
            let f = self.forms@[i as int];
            assert(f.wf());
            lemma_form_update(forms0, i as int, f);
        }
        true
    }

    /// Read the password parameters of one protected key.
    pub fn get_password_params(&self, form_id: &FormId, key_id: ClientKeyId) -> (r: Option<
        SecretLinkPasswordParams>)
        requires
            self.wf(),
        ensures
            r is Some <==> (has_form(self.forms@, form_id@)
                && spec_protected(spec_form(self.forms@, form_id@).passwords@, key_id.0)),
            r matches Some(p) ==> ({
                let f = spec_form(self.forms@, form_id@);
                p.dv() == f.passwords@[password_idx(f.passwords@, key_id.0)].params.dv()
            }),
    {
        let i = match self.find_form(form_id) {
            Some(i) => i,
            None => {
                return None;
            },
        };
        let f = &self.forms[i];
        let n: usize = f.passwords.len();
        for j in 0..n
            invariant
                self.wf(),
                has_form(self.forms@, form_id@),
                0 <= form_idx(self.forms@, form_id@) < self.forms@.len(),
                n == f.passwords@.len(),
                f == &self.forms@[form_idx(self.forms@, form_id@)],
                forall|k: int| 0 <= k < j ==> (#[trigger] f.passwords@[k]).key_id != key_id.0,
        {
            if f.passwords[j].key_id == key_id.0 {
                proof {
                    assert(self.forms@[form_idx(self.forms@, form_id@)].wf());
                    assert(spec_protected(f.passwords@, key_id.0));
                    let j2 = password_idx(f.passwords@, key_id.0);
                    assert(0 <= j2 < f.passwords@.len() && f.passwords@[j2].key_id == key_id.0);
                    if j2 != j as int {
                        assert(f.passwords@[j2].key_id != f.passwords@[j as int].key_id);
                    }
                }
                return Some(f.passwords[j].params.clone_params());
            }
        }
        proof {
            if spec_protected(f.passwords@, key_id.0) {
                let j2 = password_idx(f.passwords@, key_id.0);
                assert(f.passwords@[j2].key_id != key_id.0);
            }
        }
        None
    }
}

// ---------------------------------------------------------------------------
// Ephemeral keys and challenge markers in the TTL store
// ---------------------------------------------------------------------------

/// The namespace prefix of ephemeral server keys: the bytes of `key:`.
pub open spec fn server_key_prefix() -> Seq<u8> {
    seq![107u8, 101u8, 121u8, 58u8]
}

/// The namespace prefix of challenge markers: the bytes of `challenge:`.
pub open spec fn challenge_prefix() -> Seq<u8> {
    seq![99u8, 104u8, 97u8, 108u8, 108u8, 101u8, 110u8, 103u8, 101u8, 58u8]
}

/// The TTL-store key of an ephemeral server key.
pub open spec fn server_kv_key(id: Seq<u8>) -> Seq<u8> {
    server_key_prefix() + id
}

/// The TTL-store key of a challenge marker.
pub open spec fn challenge_kv_key(id: Seq<u8>) -> Seq<u8> {
    challenge_prefix() + id
}

/// The two namespaces never collide: a key entry is never a challenge
/// entry.
pub proof fn lemma_kv_namespaces(a: Seq<u8>, b: Seq<u8>)
    ensures
        server_kv_key(a) != challenge_kv_key(b),
{
    assert(server_kv_key(a)[0] == 107);
    assert(challenge_kv_key(b)[0] == 99);
}

fn server_key_key(id: &ServerKeyId) -> (r: Vec<u8>)
    ensures
        r@ == server_kv_key(id@),
{
    let mut v: Vec<u8> = Vec::new();
    v.push(107);
    v.push(101);
    v.push(121);
    v.push(58);
    write_bytes(&mut v, id.as_bytes());
    proof {
        assert(v@ =~= server_kv_key(id@));
    }
    v
}

fn challenge_key(id: &ChallengeId) -> (r: Vec<u8>)
    ensures
        r@ == challenge_kv_key(id@),
{
    let mut v: Vec<u8> = Vec::new();
    v.push(99);
    v.push(104);
    v.push(97);
    v.push(108);
    v.push(108);
    v.push(101);
    v.push(110);
    v.push(103);
    v.push(101);
    v.push(58);
    write_bytes(&mut v, id.as_bytes());
    proof {
        assert(v@ =~= challenge_kv_key(id@));
    }
    v
}

impl Store {
    /// Store a fresh ephemeral key under its id for `ttl` seconds.
    pub fn store_ephemeral_server_key(&mut self, key_id: &ServerKeyId,
        key: &EphemeralServerKey, ttl: u64, now: u64)
        requires
            old(self).wf(),
        ensures
            final(self).wf(),
            final(self).forms@ == old(self).forms@,
            kv_entry(final(self).kv@, server_kv_key(key_id@))
                == Some((key@, sat_add(now, ttl))),
            forall|k: Seq<u8>| k != server_kv_key(key_id@)
                ==> kv_entry(final(self).kv@, k) == kv_entry(old(self).kv@, k),
    {
        let kv_key = server_key_key(key_id);
        let mut value: Vec<u8> = Vec::new();
        write_bytes(&mut value, key.expose_secret());
        proof {
            assert(value@ =~= key@);
        }
        self.kv_put(kv_key, value, ttl, now);
    }

    /// Fetch the ephemeral key stored under an id, if it is still live.
    pub fn get_ephemeral_server_key(&self, key_id: &ServerKeyId, now: u64) -> (r: Option<
        EphemeralServerKey>)
        requires
            self.wf(),
        ensures
            match r {
                Some(k) => kv_live(self.kv@, server_kv_key(key_id@), now) == Some(k@),
                None => kv_live(self.kv@, server_kv_key(key_id@), now) is None,
            },
    {
        let kv_key = server_key_key(key_id);
        match self.kv_get(kv_key.as_slice(), now) {
            Some(v) => Some(EphemeralServerKey::from_bytes(v)),
            None => None,
        }
    }

    /// Record a freshly issued challenge id for `ttl` seconds; its
    /// presence means "unused".
    pub fn store_challenge_id(&mut self, challenge_id: &ChallengeId, ttl: u64, now: u64)
        requires
            old(self).wf(),
        ensures
            final(self).wf(),
            final(self).forms@ == old(self).forms@,
            kv_entry(final(self).kv@, challenge_kv_key(challenge_id@))
                == Some((Seq::<u8>::empty(), sat_add(now, ttl))),
            forall|k: Seq<u8>| k != challenge_kv_key(challenge_id@)
                ==> kv_entry(final(self).kv@, k) == kv_entry(old(self).kv@, k),
    {
        let kv_key = challenge_key(challenge_id);
        let value: Vec<u8> = Vec::new();
        proof {
            assert(value@ =~= Seq::<u8>::empty());
        }
        self.kv_put(kv_key, value, ttl, now);
    }

    /// Whether a challenge id is still marked unused at `now`.
    pub fn has_challenge_id(&self, challenge_id: &ChallengeId, now: u64) -> (r: bool)
        requires
            self.wf(),
        ensures
            r == (kv_live(self.kv@, challenge_kv_key(challenge_id@), now) is Some),
    {
        let kv_key = challenge_key(challenge_id);
        self.kv_get(kv_key.as_slice(), now).is_some()
    }

    /// Consume a challenge id; once gone, it can never be used again.
    pub fn delete_challenge_id(&mut self, challenge_id: &ChallengeId)
        requires
            old(self).wf(),
        ensures
            final(self).wf(),
            final(self).forms@ == old(self).forms@,
            kv_entry(final(self).kv@, challenge_kv_key(challenge_id@)) is None,
            forall|k: Seq<u8>| k != challenge_kv_key(challenge_id@)
                ==> kv_entry(final(self).kv@, k) == kv_entry(old(self).kv@, k),
    {
        let kv_key = challenge_key(challenge_id);
        self.kv_delete(kv_key.as_slice());
    }
}

fn expired_exec(f: &FormRow, now: u64) -> (r: bool)
    requires
        now <= MAX_TIMESTAMP,
    ensures
        r == expired(*f, now),
{
    match f.expires_at {
        Some(e) => e < now as i64,
        None => false,
    }
}

/// Keep the non-expired forms, in order.
fn keep_live_exec(mut forms: Vec<FormRow>, now: u64) -> (r: Vec<FormRow>)
    requires
        now <= MAX_TIMESTAMP,
    ensures
        r@ == keep_live(forms@, now),
    decreases forms@.len(),
{
    let ghost forms0 = forms@;
    match forms.pop() {
        None => {
            proof {
                assert(keep_live(forms0, now) =~= forms0);
            }
            forms
        },
        Some(last) => {
            proof {
                assert(forms@ == forms0.drop_last());
            }
            let mut rest = keep_live_exec(forms, now);
            if !expired_exec(&last, now) {
                rest.push(last);
            }
            rest
        },
    }
}

/// The expiry sweep keeps well-formedness: the kept forms are among the
/// old ones, their ids stay pairwise distinct, and each is well-formed.
proof fn lemma_keep_live_wf(forms: Seq<FormRow>, now: u64)
    requires
        forall|a: int, b: int| 0 <= a < b < forms.len()
            ==> forms[a].form_id@ != forms[b].form_id@,
        forall|i: int| 0 <= i < forms.len() ==> (#[trigger] forms[i]).wf(),
    ensures
        forall|i: int| 0 <= i < keep_live(forms, now).len()
            ==> exists|j: int| 0 <= j < forms.len()
                && #[trigger] keep_live(forms, now)[i] == forms[j],
        forall|a: int, b: int| 0 <= a < b < keep_live(forms, now).len()
            ==> keep_live(forms, now)[a].form_id@ != keep_live(forms, now)[b].form_id@,
        forall|i: int| 0 <= i < keep_live(forms, now).len()
            ==> (#[trigger] keep_live(forms, now)[i]).wf(),
    decreases forms.len(),
{
    if forms.len() > 0 {
        let pre = forms.drop_last();
        lemma_keep_live_wf(pre, now);
        let r0 = keep_live(pre, now);
        let r = keep_live(forms, now);
        assert forall|i: int| 0 <= i < r0.len()
            implies exists|j: int| 0 <= j < forms.len() && #[trigger] r0[i] == forms[j] by {
            let j = choose|j: int| 0 <= j < pre.len() && r0[i] == pre[j];
            assert(forms[j] == pre[j]);
        }
        if !expired(forms.last(), now) {
            assert(r == r0.push(forms.last()));
            assert forall|a: int, b: int| 0 <= a < b < r.len()
                implies r[a].form_id@ != r[b].form_id@ by {
                if b == r0.len() as int {
                    assert(r[a] == r0[a]);
                    let j = choose|j: int| 0 <= j < pre.len() && r0[a] == pre[j];
                    assert(forms[j] == pre[j]);
                    assert(forms[j].form_id@ != forms.last().form_id@);
                }
            }
            assert(forms.last() == forms[forms.len() - 1]);
        } else {
            assert(r == r0);
        }
    }
}

/// After removing index `i`, the removed entry's key is gone and every
/// other key maps to the same entry.
proof fn lemma_kv_remove(kv: Seq<TtlEntry>, i: int)
    requires
        0 <= i < kv.len(),
        forall|a: int, b: int| 0 <= a < b < kv.len() ==> kv[a].key@ != kv[b].key@,
    ensures
        forall|a: int, b: int| 0 <= a < b < kv.remove(i).len()
            ==> kv.remove(i)[a].key@ != kv.remove(i)[b].key@,
        !kv_has(kv.remove(i), kv[i].key@),
        forall|k: Seq<u8>| k != kv[i].key@
            ==> kv_entry(kv.remove(i), k) == kv_entry(kv, k),
{
    let r = kv.remove(i);
    assert(forall|a: int| 0 <= a < r.len()
        ==> #[trigger] r[a] == (if a < i { kv[a] } else { kv[a + 1] }));
    assert forall|a: int, b: int| 0 <= a < b < r.len()
        implies r[a].key@ != r[b].key@ by {
    }
    assert forall|k: Seq<u8>| k != kv[i].key@
        implies kv_entry(r, k) == kv_entry(kv, k) by {
        if kv_has(kv, k) {
            let j = kv_idx(kv, k);
            assert(0 <= j < kv.len() && kv[j].key@ == k);
            assert(j != i);
            let j2: int = if j < i { j } else { j - 1 };
            assert(r[j2] == kv[j]);
            lemma_kv_entry_at(r, j2);
            lemma_kv_entry_at(kv, j);
        } else {
            if kv_has(r, k) {
                let j2 = kv_idx(r, k);
                assert(r[j2].key@ == k);
                assert(kv_has(kv, k));
            }
        }
    }
    if kv_has(r, kv[i].key@) {
        let j2 = kv_idx(r, kv[i].key@);
        assert(r[j2].key@ == kv[i].key@);
        let j: int = if j2 < i { j2 } else { j2 + 1 };
        assert(kv[j].key@ == kv[i].key@ && j != i);
    }
}

/// With unique keys, the entry under `kv[j].key` is `kv[j]` itself.
proof fn lemma_kv_entry_at(kv: Seq<TtlEntry>, j: int)
    requires
        0 <= j < kv.len(),
        forall|a: int, b: int| 0 <= a < b < kv.len() ==> kv[a].key@ != kv[b].key@,
    ensures
        kv_has(kv, kv[j].key@),
        kv_idx(kv, kv[j].key@) == j,
        kv_entry(kv, kv[j].key@) == Some((kv[j].value@, kv[j].expires_at)),
{
    assert(kv_has(kv, kv[j].key@));
    let j2 = kv_idx(kv, kv[j].key@);
    assert(0 <= j2 < kv.len() && kv[j2].key@ == kv[j].key@);
    if j2 != j {
        assert(kv[j2].key@ != kv[j].key@);
    }
}

/// Appending an entry whose key is absent keeps the other entries and
/// binds its key to it.
proof fn lemma_kv_push(kv: Seq<TtlEntry>, e: TtlEntry)
    requires
        forall|a: int, b: int| 0 <= a < b < kv.len() ==> kv[a].key@ != kv[b].key@,
        !kv_has(kv, e.key@),
    ensures
        forall|a: int, b: int| 0 <= a < b < kv.push(e).len()
            ==> kv.push(e)[a].key@ != kv.push(e)[b].key@,
        kv_entry(kv.push(e), e.key@) == Some((e.value@, e.expires_at)),
        forall|k: Seq<u8>| k != e.key@ ==> kv_entry(kv.push(e), k) == kv_entry(kv, k),
{
    let r = kv.push(e);
    assert forall|a: int, b: int| 0 <= a < b < r.len()
        implies r[a].key@ != r[b].key@ by {
        if b == kv.len() as int {
            assert(r[a] == kv[a]);
            if r[a].key@ == e.key@ {
                assert(kv_has(kv, e.key@));
            }
        }
    }
    lemma_kv_entry_at(r, kv.len() as int);
    assert forall|k: Seq<u8>| k != e.key@
        implies kv_entry(r, k) == kv_entry(kv, k) by {
        if kv_has(kv, k) {
            let j = kv_idx(kv, k);
            assert(r[j] == kv[j]);
            lemma_kv_entry_at(r, j);
            lemma_kv_entry_at(kv, j);
        } else {
            if kv_has(r, k) {
                let j2 = kv_idx(r, k);
                assert(r[j2].key@ == k);
                assert(j2 < kv.len());
                assert(kv_has(kv, k));
            }
        }
    }
}

} // verus!
