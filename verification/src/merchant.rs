//! The merchant payment API's decisions: registration, invoices, webhook
//! configuration, balances, and crediting a received payment.

use vstd::prelude::*;
use crate::state::{AppState, Merchant, Invoice, InvoiceStatus, PaymentRecord, Timestamp, Lsat};
use crate::strmap::{StrMap, assoc_get, assoc_has, assoc_insert, assoc_remove, key_pos, lemma_key_pos};
use crate::text::{owned, str_eq, trim, trim_spec, contains_char, starts_with, has_prefix};
use crate::auth::authenticate_spec;
use crate::crypto::{api_key_spec, key_hash_spec, key_hint_spec};

verus! {

// ── Outside values ───────────────────────────────────────────────────────────

/// Unicode lower-case of a text, as `str::to_lowercase` gives it.
pub uninterp spec fn lowercase_spec(s: Seq<char>) -> Seq<char>;

/// Calls `str::to_lowercase`. Claimed: the result is the value that
/// `lowercase_spec` names for the text.
#[verifier::external_body]
pub(crate) fn to_lowercase(s: &str) -> (r: String)
    ensures
        r@ == lowercase_spec(s@),
{
    s.to_lowercase()
}

/// Calls `uuid::Uuid::new_v4` and formats it hyphenated. Nothing is claimed
/// of the random id.
#[verifier::external_body]
pub(crate) fn new_id() -> (r: String) {
    uuid::Uuid::new_v4().to_string()
}

/// Calls `chrono::Utc::now`, giving its Unix seconds and the nanoseconds
/// within the second. Nothing is claimed of the clock.
#[verifier::external_body]
pub(crate) fn now() -> (r: Timestamp) {
    let t = chrono::Utc::now();
    Timestamp { secs: t.timestamp(), nanos: t.timestamp_subsec_nanos() }
}

// ── Errors ────────────────────────────────────────────────────────────────────

/// Why an API request is refused.
#[derive(Clone, Copy, Debug, PartialEq, Eq, Structural)]
pub enum ApiError {
    /// "name is required"
    NameRequired,
    /// "email is required"
    EmailRequired,
    /// "invalid email"
    InvalidEmail,
    /// "This email is already registered"
    EmailExists,
    /// "amount_sats must be > 0"
    AmountRequired,
    /// "description is required"
    DescriptionRequired,
    /// "URL must start with http:// or https://"
    InvalidWebhookUrl,
    /// "Merchant not found"
    MerchantNotFound,
    /// "Invoice not found"
    InvoiceNotFound,
}

// ── Registration ─────────────────────────────────────────────────────────────

/// Some merchant already uses this e-mail address.
pub open spec fn email_taken(ms: Seq<(Seq<char>, Merchant)>, email: Seq<char>) -> bool {
    exists|i: int| 0 <= i < ms.len() && (#[trigger] ms[i]).1.email@ == email
}

/// The outcome of a registration request.
pub open spec fn register_check(st: &AppState, name: Seq<char>, email: Seq<char>) -> Result<(), ApiError> {
    let n = trim_spec(name);
    let e = lowercase_spec(trim_spec(email));
    if n.len() == 0 {
        Err(ApiError::NameRequired)
    } else if e.len() == 0 {
        Err(ApiError::EmailRequired)
    } else if !e.contains('@') {
        Err(ApiError::InvalidEmail)
    } else if email_taken(st.merchants@, e) {
        Err(ApiError::EmailExists)
    } else {
        Ok(())
    }
}

fn email_in_use(ms: &StrMap<Merchant>, email: &str) -> (r: bool)
    ensures
        r == email_taken(ms@, email@),
{
    let n = ms.len();
    let mut i: usize = 0;
    while i < n
        invariant
            0 <= i <= n,
            n == ms@.len(),
            forall|k: int| 0 <= k < i ==> (#[trigger] ms@[k]).1.email@ != email@,
        decreases n - i,
    {
        if str_eq(ms.value_at(i).email.as_str(), email) {
            return true;
        }
        i = i + 1;
    }
    false
}

/// After a registration: the merchant stored under `id` carries the trimmed
/// name, the trimmed and lower-cased e-mail, the key's hash and hint, zero
/// balances and totals, `now` as its creation time and no webhook; the key
/// index maps the key's hash to `id`; nothing else changed.
pub open spec fn stored_merchant(
    pre: &AppState,
    post: &AppState,
    name: Seq<char>,
    email: Seq<char>,
    raw_key: Seq<char>,
    id: String,
    now: Timestamp,
) -> bool {
    &&& exists|m: Merchant| {
        &&& #[trigger] assoc_get(post.merchants@, id@) == Some(m)
        &&& m.id@ == id@
        &&& m.name@ == trim_spec(name)
        &&& m.email@ == lowercase_spec(trim_spec(email))
        &&& m.api_key_hash@ == key_hash_spec(raw_key)
        &&& m.api_key_hint@ == key_hint_spec(raw_key)
        &&& m.balance_sats == 0
        &&& m.created_at == now
        &&& m.webhook_url is None
        &&& m.webhook_secret is None
        &&& m.total_received_sats == 0
        &&& m.total_withdrawn_sats == 0
        &&& post.merchants@ == assoc_insert(pre.merchants@, id@, m)
    }
    &&& post.key_index@ == assoc_insert(pre.key_index@, key_hash_spec(raw_key), id)
    &&& post.balances@ == pre.balances@
    &&& post.invoices@ == pre.invoices@
    &&& post.payments@ == pre.payments@
    &&& post.pending_invoices@ == pre.pending_invoices@
    &&& post.total_transactions == pre.total_transactions
    &&& post.total_volume_sats == pre.total_volume_sats
}

/// Registers a merchant under the given key and id: the name and e-mail are
/// trimmed (the e-mail lower-cased) and checked, then the merchant is stored
/// with a zero balance and its key hash is indexed. A refused registration
/// leaves the state as it was.
pub fn register_merchant(
    st: &mut AppState,
    name: &str,
    email: &str,
    raw_key: &str,
    id: String,
    now: Timestamp,
) -> (r: Result<(), ApiError>)
    ensures
        r == register_check(old(st), name@, email@),
        r is Ok ==> stored_merchant(old(st), final(st), name@, email@, raw_key@, id, now),
        r is Err ==> *final(st) == *old(st),
{
    let n = trim(name);
    let t = trim(email);
    let e = to_lowercase(t.as_str());
    if n.as_str().is_empty() {
        return Err(ApiError::NameRequired);
    }
    if e.as_str().is_empty() {
        return Err(ApiError::EmailRequired);
    }
    if !contains_char(e.as_str(), '@') {
        return Err(ApiError::InvalidEmail);
    }
    if email_in_use(&st.merchants, e.as_str()) {
        return Err(ApiError::EmailExists);
    }
    let key_hash = crate::crypto::hash_key(raw_key);
    let key_hint = crate::crypto::key_hint(raw_key);
    let m = Merchant {
        id: id.clone(),
        name: n,
        email: e,
        api_key_hash: key_hash.clone(),
        api_key_hint: key_hint,
        balance_sats: 0,
        created_at: now,
        webhook_url: None,
        webhook_secret: None,
        total_received_sats: 0,
        total_withdrawn_sats: 0,
    };
    let ghost mv = m;
    st.merchants.insert(id.clone(), m);
    st.key_index.insert(key_hash, id);
    proof {
        crate::strmap::law_get_insert_same(old(st).merchants@, id@, mv);
    }
    Ok(())
}

/// A registration of `name` and `email` at `now` went through in `pre`,
/// giving `id` and the raw key `key`: the key is a fresh API key, and the
/// merchant is stored as `stored_merchant` says.
pub open spec fn registered(
    pre: &AppState,
    post: &AppState,
    name: Seq<char>,
    email: Seq<char>,
    now: Timestamp,
    id: String,
    key: Seq<char>,
) -> bool {
    &&& register_check(pre, name, email) is Ok
    &&& exists|b: Seq<u8>| b.len() == 16 && key == api_key_spec(b)
    &&& stored_merchant(pre, post, name, email, key, id, now)
}

/// Registers a merchant with a fresh random key and id; gives back the id
/// and the raw key (shown to the merchant once). A refused registration
/// leaves the state as it was.
pub fn register(st: &mut AppState, name: &str, email: &str, now: Timestamp) -> (r: Result<
    (String, String),
    ApiError,
>)
    ensures
        match r {
            Ok((id, key)) => registered(old(st), final(st), name@, email@, now, id, key@),
            Err(e) => register_check(old(st), name@, email@) == Err::<(), ApiError>(e)
                && *final(st) == *old(st),
        },
{
    let raw_key = crate::crypto::generate_key();
    let id = new_id();
    match register_merchant(st, name, email, raw_key.as_str(), id.clone(), now) {
        Ok(()) => Ok((id, raw_key)),
        Err(e) => Err(e),
    }
}

// ── Invoices ──────────────────────────────────────────────────────────────────

/// Checks of an invoice request before the Lightning node is asked.
pub open spec fn invoice_check(amount_sats: u64, description: Seq<char>) -> Result<(), ApiError> {
    if amount_sats == 0 {
        Err(ApiError::AmountRequired)
    } else if trim_spec(description).len() == 0 {
        Err(ApiError::DescriptionRequired)
    } else {
        Ok(())
    }
}

pub fn validate_invoice_request(amount_sats: u64, description: &str) -> (r: Result<(), ApiError>)
    ensures
        r == invoice_check(amount_sats, description@),
{
    if amount_sats == 0 {
        return Err(ApiError::AmountRequired);
    }
    let t = trim(description);
    if t.as_str().is_empty() {
        return Err(ApiError::DescriptionRequired);
    }
    Ok(())
}

/// The expiry of an invoice `expires_in` seconds (as a signed number of
/// seconds, the way `as i64` reads it) after `now`.
pub open spec fn expiry_spec(now: Timestamp, expires_in: u64) -> Timestamp {
    Timestamp { secs: (now.secs + (expires_in as i64)) as i64, nanos: now.nanos }
}

/// `chrono::Duration::seconds` accepts the lifetime, and adding it to `now`
/// stays within `i64` seconds.
pub open spec fn expiry_ok(now: Timestamp, expires_in: u64) -> bool {
    let d = expires_in as i64;
    &&& -(i64::MAX / 1000) <= d <= i64::MAX / 1000
    &&& i64::MIN <= now.secs + d <= i64::MAX
}

pub fn invoice_expiry(now: Timestamp, expires_in: u64) -> (r: Timestamp)
    requires
        expiry_ok(now, expires_in),
    ensures
        r == expiry_spec(now, expires_in),
{
    let d = expires_in as i64;
    Timestamp { secs: now.secs + d, nanos: now.nanos }
}

/// Stores a new pending invoice under its payment hash, and in the legacy
/// pending-invoice table.
pub fn record_invoice(
    st: &mut AppState,
    merchant_id: &String,
    amount_sats: u64,
    description: String,
    bolt11: String,
    payment_hash: &String,
    invoice_id: String,
    now: Timestamp,
    expires_in: u64,
    metadata: Option<String>,
) -> (r: Invoice)
    requires
        expiry_ok(now, expires_in),
    ensures
        r == (Invoice {
            id: invoice_id,
            merchant_id: *merchant_id,
            amount_sats,
            description,
            bolt11,
            payment_hash: *payment_hash,
            status: InvoiceStatus::Pending,
            created_at: now,
            expires_at: expiry_spec(now, expires_in),
            paid_at: None,
            metadata,
        }),
        final(st).invoices@ == assoc_insert(old(st).invoices@, payment_hash@, r),
        final(st).pending_invoices@ == assoc_insert(
            old(st).pending_invoices@,
            payment_hash@,
            *merchant_id,
        ),
        final(st).merchants@ == old(st).merchants@,
        final(st).balances@ == old(st).balances@,
        final(st).payments@ == old(st).payments@,
        final(st).key_index@ == old(st).key_index@,
        final(st).total_transactions == old(st).total_transactions,
{
    let expires_at = invoice_expiry(now, expires_in);
    let inv = Invoice {
        id: invoice_id,
        merchant_id: merchant_id.clone(),
        amount_sats,
        description,
        bolt11,
        payment_hash: payment_hash.clone(),
        status: InvoiceStatus::Pending,
        created_at: now,
        expires_at,
        paid_at: None,
        metadata,
    };
    st.pending_invoices.insert(payment_hash.clone(), merchant_id.clone());
    st.invoices.insert(payment_hash.clone(), copy_invoice(&inv));
    inv
}

/// A copy of an invoice.
pub fn copy_invoice(i: &Invoice) -> (r: Invoice)
    ensures
        r == *i,
{
    Invoice {
        id: i.id.clone(),
        merchant_id: i.merchant_id.clone(),
        amount_sats: i.amount_sats,
        description: i.description.clone(),
        bolt11: i.bolt11.clone(),
        payment_hash: i.payment_hash.clone(),
        status: i.status,
        created_at: i.created_at,
        expires_at: i.expires_at,
        paid_at: i.paid_at,
        metadata: match &i.metadata {
            Some(m) => Some(m.clone()),
            None => None,
        },
    }
}

/// Position of the first stored invoice with this id that belongs to this
/// merchant, or `-1`.
pub open spec fn invoice_pos(s: Seq<(Seq<char>, Invoice)>, mid: Seq<char>, iid: Seq<char>) -> int
    decreases s.len(),
{
    if s.len() == 0 {
        -1
    } else if s[0].1.id@ == iid && s[0].1.merchant_id@ == mid {
        0
    } else {
        let r = invoice_pos(s.drop_first(), mid, iid);
        if r < 0 {
            -1
        } else {
            r + 1
        }
    }
}

proof fn lemma_invoice_pos(s: Seq<(Seq<char>, Invoice)>, mid: Seq<char>, iid: Seq<char>, i: int)
    requires
        0 <= i <= s.len(),
        forall|k: int|
            0 <= k < i ==> !((#[trigger] s[k]).1.id@ == iid && s[k].1.merchant_id@ == mid),
    ensures
        i < s.len() && s[i].1.id@ == iid && s[i].1.merchant_id@ == mid ==> invoice_pos(
            s,
            mid,
            iid,
        ) == i,
        i == s.len() ==> invoice_pos(s, mid, iid) == -1,
    decreases i,
{
    if i > 0 {
        assert forall|k: int|
            0 <= k < i - 1 implies !((#[trigger] s.drop_first()[k]).1.id@ == iid
            && s.drop_first()[k].1.merchant_id@ == mid) by {
            assert(s.drop_first()[k] == s[k + 1]);
        }
        lemma_invoice_pos(s.drop_first(), mid, iid, i - 1);
    }
}

/// A merchant's invoice by its id.
pub fn get_invoice<'a>(st: &'a AppState, merchant_id: &str, invoice_id: &str) -> (r: Result<
    &'a Invoice,
    ApiError,
>)
    ensures
        match r {
            Ok(inv) => invoice_pos(st.invoices@, merchant_id@, invoice_id@) >= 0 && *inv
                == st.invoices@[invoice_pos(st.invoices@, merchant_id@, invoice_id@)].1,
            Err(e) => invoice_pos(st.invoices@, merchant_id@, invoice_id@) < 0 && e
                == ApiError::InvoiceNotFound,
        },
{
    let n = st.invoices.len();
    let mut i: usize = 0;
    while i < n
        invariant
            0 <= i <= n,
            n == st.invoices@.len(),
            forall|k: int|
                0 <= k < i ==> !((#[trigger] st.invoices@[k]).1.id@ == invoice_id@
                    && st.invoices@[k].1.merchant_id@ == merchant_id@),
        decreases n - i,
    {
        let inv = st.invoices.value_at(i);
        if str_eq(inv.id.as_str(), invoice_id) && str_eq(inv.merchant_id.as_str(), merchant_id) {
            proof {
                lemma_invoice_pos(st.invoices@, merchant_id@, invoice_id@, i as int);
            }
            return Ok(inv);
        }
        i = i + 1;
    }
    proof {
        lemma_invoice_pos(st.invoices@, merchant_id@, invoice_id@, i as int);
    }
    Err(ApiError::InvoiceNotFound)
}

// ── Account and webhook configuration ────────────────────────────────────────

/// The account of a merchant.
pub fn get_account<'a>(st: &'a AppState, merchant_id: &str) -> (r: Result<&'a Merchant, ApiError>)
    ensures
        match r {
            Ok(m) => assoc_get(st.merchants@, merchant_id@) == Some(*m),
            Err(e) => assoc_get(st.merchants@, merchant_id@) is None && e
                == ApiError::MerchantNotFound,
        },
{
    match st.merchants.get(merchant_id) {
        Some(m) => Ok(m),
        None => Err(ApiError::MerchantNotFound),
    }
}

/// A webhook URL must be `http://` or `https://`.
pub open spec fn webhook_url_ok(url: Seq<char>) -> bool {
    has_prefix(url, "http://"@) || has_prefix(url, "https://"@)
}

/// Sets a merchant's webhook URL and secret (a merchant that does not exist
/// is left alone).
pub fn set_webhook(st: &mut AppState, merchant_id: &str, url: String, secret: Option<String>) -> (r:
    Result<(), ApiError>)
    ensures
        r is Ok <==> webhook_url_ok(url@),
        r is Err ==> r == Err::<(), ApiError>(ApiError::InvalidWebhookUrl) && final(st).merchants@
            == old(st).merchants@,
        r is Ok ==> final(st).merchants@ == match assoc_get(old(st).merchants@, merchant_id@) {
            Some(m) => assoc_insert(
                old(st).merchants@,
                merchant_id@,
                Merchant { webhook_url: Some(url), webhook_secret: secret, ..m },
            ),
            None => old(st).merchants@,
        },
        final(st).key_index@ == old(st).key_index@,
        final(st).invoices@ == old(st).invoices@,
        final(st).balances@ == old(st).balances@,
{
    proof {
        reveal_strlit("http://");
        reveal_strlit("https://");
    }
    if !starts_with(url.as_str(), "http://") && !starts_with(url.as_str(), "https://") {
        return Err(ApiError::InvalidWebhookUrl);
    }
    match st.merchants.find(merchant_id) {
        Some(i) => {
            proof {
                lemma_key_pos(st.merchants@, merchant_id@);
            }
            let m = st.merchants.value_mut_at(i);
            m.webhook_url = Some(url);
            m.webhook_secret = secret;
        },
        None => {},
    }
    Ok(())
}

/// Clears a merchant's webhook URL and secret.
pub fn delete_webhook(st: &mut AppState, merchant_id: &str)
    ensures
        final(st).merchants@ == match assoc_get(old(st).merchants@, merchant_id@) {
            Some(m) => assoc_insert(
                old(st).merchants@,
                merchant_id@,
                Merchant { webhook_url: None, webhook_secret: None, ..m },
            ),
            None => old(st).merchants@,
        },
        final(st).key_index@ == old(st).key_index@,
        final(st).invoices@ == old(st).invoices@,
        final(st).balances@ == old(st).balances@,
{
    match st.merchants.find(merchant_id) {
        Some(i) => {
            proof {
                lemma_key_pos(st.merchants@, merchant_id@);
            }
            let m = st.merchants.value_mut_at(i);
            m.webhook_url = None;
            m.webhook_secret = None;
        },
        None => {},
    }
}

/// What the balance endpoint reports.
pub enum BalanceAnswer {
    /// The authenticated merchant's balance.
    Merchant { merchant_id: String, balance_sats: u64 },
    /// The legacy per-account balance of the `x-api-key` account (or
    /// `anonymous`).
    Account { account: String, balance_sats: u64 },
}

/// The balance of the authenticated merchant, or (when the merchant is
/// gone) the legacy account balance named by the `x-api-key` header.
pub fn balance_for(st: &AppState, merchant_id: &str, api_key_header: Option<&str>) -> (r:
    BalanceAnswer)
    ensures
        match assoc_get(st.merchants@, merchant_id@) {
            Some(m) => r == (BalanceAnswer::Merchant {
                merchant_id: m.id,
                balance_sats: m.balance_sats,
            }),
            None => {
                let acct = match api_key_header {
                    Some(h) => h@,
                    None => "anonymous"@,
                };
                &&& r matches BalanceAnswer::Account { account, balance_sats }
                &&& account@ == acct
                &&& balance_sats == crate::state::balance_of(st, acct)
            },
        },
{
    match st.merchants.get(merchant_id) {
        Some(m) => BalanceAnswer::Merchant { merchant_id: m.id.clone(), balance_sats: m.balance_sats },
        None => {
            proof {
                reveal_strlit("anonymous");
            }
            let account = match api_key_header {
                Some(h) => owned(h),
                None => owned("anonymous"),
            };
            let b = st.get_balance(account.as_str());
            BalanceAnswer::Account { account, balance_sats: b }
        },
    }
}

/// No two stored merchants share an e-mail.
pub open spec fn emails_distinct(ms: Seq<(Seq<char>, Merchant)>) -> bool {
    forall|i: int, j: int| 0 <= i < ms.len() && 0 <= j < ms.len() && i != j ==> (#[trigger] ms[i]).1.email@
        != (#[trigger] ms[j]).1.email@
}

/// An e-mail that any stored merchant, wherever it stands, already has
/// (after trimming and lower-casing the request's) is refused.
pub proof fn law_stored_email_refused(st: &AppState, name: Seq<char>, email: Seq<char>, i: int)
    requires
        0 <= i < st.merchants@.len(),
        st.merchants@[i].1.email@ == lowercase_spec(trim_spec(email)),
    ensures
        register_check(st, name, email) is Err,
{
    assert(email_taken(st.merchants@, lowercase_spec(trim_spec(email))));
}

/// Registration keeps e-mails unique: where the stored merchants' e-mails
/// are pairwise distinct before a registration that goes through, they are
/// after it, the new merchant's included.
pub proof fn law_registration_keeps_emails_distinct(
    pre: &AppState,
    post: &AppState,
    name: Seq<char>,
    email: Seq<char>,
    now: Timestamp,
    id: String,
    key: Seq<char>,
)
    requires
        registered(pre, post, name, email, now, id, key),
        emails_distinct(pre.merchants@),
    ensures
        emails_distinct(post.merchants@),
        exists|m: Merchant| #[trigger] assoc_get(post.merchants@, id@) == Some(m) && m.email@ == lowercase_spec(
            trim_spec(email),
        ),
{
    let e = lowercase_spec(trim_spec(email));
    let m = choose|m: Merchant| {
        &&& #[trigger] assoc_get(post.merchants@, id@) == Some(m)
        &&& m.id@ == id@
        &&& m.name@ == trim_spec(name)
        &&& m.email@ == lowercase_spec(trim_spec(email))
        &&& m.api_key_hash@ == key_hash_spec(key)
        &&& m.api_key_hint@ == key_hint_spec(key)
        &&& m.balance_sats == 0
        &&& m.created_at == now
        &&& m.webhook_url is None
        &&& m.webhook_secret is None
        &&& m.total_received_sats == 0
        &&& m.total_withdrawn_sats == 0
        &&& post.merchants@ == assoc_insert(pre.merchants@, id@, m)
    };
    let ms = pre.merchants@;
    assert(!email_taken(ms, e));
    assert forall|k: int| 0 <= k < ms.len() implies (#[trigger] ms[k]).1.email@ != e by {
        if ms[k].1.email@ == e {
            assert(email_taken(ms, e));
        }
    }
    lemma_key_pos(ms, id@);
    let ps = post.merchants@;
    assert forall|i: int, j: int| 0 <= i < ps.len() && 0 <= j < ps.len() && i != j implies (
    #[trigger] ps[i]).1.email@ != (#[trigger] ps[j]).1.email@ by {
        let p = key_pos(ms, id@);
        if p >= 0 {
            assert(ps == ms.update(p, (id@, m)));
            if i == p {
                assert(ps[j] == ms[j]);
            } else if j == p {
                assert(ps[i] == ms[i]);
            } else {
                assert(ps[i] == ms[i] && ps[j] == ms[j]);
            }
        } else {
            assert(ps == ms.push((id@, m)));
            if i == ms.len() {
                assert(ps[j] == ms[j]);
            } else if j == ms.len() {
                assert(ps[i] == ms[i]);
            } else {
                assert(ps[i] == ms[i] && ps[j] == ms[j]);
            }
        }
    }
}

/// A merchant authenticates with the key that its registration gave back,
/// in the `X-Api-Key` header or as a `Bearer` token.
pub proof fn law_registered_key_authenticates(
    pre: &AppState,
    post: &AppState,
    name: Seq<char>,
    email: Seq<char>,
    now: Timestamp,
    id: String,
    key: Seq<char>,
)
    requires
        registered(pre, post, name, email, now, id, key),
    ensures
        authenticate_spec(post, None, Some(key)) == Ok::<Seq<char>, crate::auth::AuthError>(id@),
        authenticate_spec(post, Some("Bearer "@ + key), None) == Ok::<Seq<char>, crate::auth::AuthError>(id@),
{
    let b = choose|b: Seq<u8>| b.len() == 16 && key == api_key_spec(b);
    crate::strmap::law_get_insert_same(pre.key_index@, key_hash_spec(key), id);
    lemma_api_key_trimmed(b);
    reveal_strlit("Bearer ");
    assert(("Bearer "@ + key).take(7) =~= "Bearer "@);
    assert(("Bearer "@ + key).skip(7) =~= key);
}

/// An API key has no whitespace at either end.
proof fn lemma_api_key_trimmed(b: Seq<u8>)
    requires
        b.len() == 16,
    ensures
        trim_spec(api_key_spec(b)) == api_key_spec(b),
{
    let k = api_key_spec(b);
    reveal_strlit("lm_live_");
    crate::text::lemma_hex_lower_len(b);
    crate::text::lemma_hex_lower_at(b, 15);
    crate::text::lemma_hex_digit_value((b[15] % 16) as nat);
    assert(k[0] == 'l');
    assert(k.last() == crate::text::hex_lower(b)[31]);
    assert(!crate::text::is_ws(k[0]));
    assert(!crate::text::is_ws(k.last()));
    assert(crate::text::trim_start_spec(k) == k);
}

} // verus!
