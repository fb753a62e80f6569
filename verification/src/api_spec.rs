//! Request specs of the x-hub platform server: the full URL of each route and
//! the field names of its JSON body. The field names are snake_case exactly
//! as the server reads them.
use vstd::prelude::*;
use crate::text::{i64_to_decimal, owned, decimal, strip_trailing, trim_end_char};

verus! {

/// A JSON object body whose values are all strings, in field order.
#[derive(Clone, Debug)]
pub struct JsonBody {
    pub fields: Vec<(String, String)>,
}

/// A request: `(full URL, JSON body)`.
pub type Spec = (String, JsonBody);

/// Views of the body's fields.
pub open spec fn body_view(b: JsonBody) -> Seq<(Seq<char>, Seq<char>)> {
    b.fields@.map_values(|f: (String, String)| (f.0@, f.1@))
}

/// `base` without trailing slashes followed by `path`.
pub open spec fn route(base: Seq<char>, path: Seq<char>) -> Seq<char> {
    strip_trailing(base, '/') + path
}

/// The server base address without trailing slashes.
pub fn base_of(base: &str) -> (r: String)
    ensures
        r@ == strip_trailing(base@, '/'),
{
    trim_end_char(base, '/')
}

fn url(base: &str, path: &str) -> (r: String)
    ensures
        r@ == route(base@, path@),
{
    let mut u = base_of(base);
    u.append(path);
    u
}

fn empty_body() -> (b: JsonBody)
    ensures
        body_view(b) == Seq::<(Seq<char>, Seq<char>)>::empty(),
{
    let b = JsonBody { fields: Vec::new() };
    assert(body_view(b) =~= Seq::<(Seq<char>, Seq<char>)>::empty());
    b
}

fn body1(k: &str, v: &str) -> (b: JsonBody)
    ensures
        body_view(b) == seq![(k@, v@)],
{
    let mut fields: Vec<(String, String)> = Vec::new();
    fields.push((owned(k), owned(v)));
    let b = JsonBody { fields };
    assert(body_view(b) =~= seq![(k@, v@)]);
    b
}

fn body2(k1: &str, v1: &str, k2: &str, v2: &str) -> (b: JsonBody)
    ensures
        body_view(b) == seq![(k1@, v1@), (k2@, v2@)],
{
    let mut fields: Vec<(String, String)> = Vec::new();
    fields.push((owned(k1), owned(v1)));
    fields.push((owned(k2), owned(v2)));
    let b = JsonBody { fields };
    assert(body_view(b) =~= seq![(k1@, v1@), (k2@, v2@)]);
    b
}

// ---------------- sign-in: GitHub device flow ----------------

pub fn github_device_start(base: &str) -> (r: Spec)
    ensures
        r.0@ == route(base@, "/api/v1/auth/github/device/start"@),
        body_view(r.1).len() == 0,
{
    (url(base, "/api/v1/auth/github/device/start"), empty_body())
}

pub fn github_device_poll(base: &str, poll_id: &str) -> (r: Spec)
    ensures
        r.0@ == route(base@, "/api/v1/auth/github/device/poll"@),
        body_view(r.1) == seq![("poll_id"@, poll_id@)],
{
    (url(base, "/api/v1/auth/github/device/poll"), body1("poll_id", poll_id))
}

// ---------------- sign-in: e-mail code ----------------

pub fn email_send(base: &str, email: &str) -> (r: Spec)
    ensures
        r.0@ == route(base@, "/api/v1/auth/email/send"@),
        body_view(r.1) == seq![("email"@, email@)],
{
    (url(base, "/api/v1/auth/email/send"), body1("email", email))
}

pub fn email_verify(base: &str, email: &str, code: &str) -> (r: Spec)
    ensures
        r.0@ == route(base@, "/api/v1/auth/email/verify"@),
        body_view(r.1) == seq![("email"@, email@), ("code"@, code@)],
{
    (url(base, "/api/v1/auth/email/verify"), body2("email", email, "code", code))
}

// ---------------- account ----------------

/// Redeems an invite code.
pub fn redeem_invite(base: &str, code: &str) -> (r: Spec)
    ensures
        r.0@ == route(base@, "/api/v1/me/redeem"@),
        body_view(r.1) == seq![("code"@, code@)],
{
    (url(base, "/api/v1/me/redeem"), body1("code", code))
}

/// Developer application (the reason is shown to the approvers).
pub fn dev_apply(base: &str, reason: &str) -> (r: Spec)
    ensures
        r.0@ == route(base@, "/api/v1/dev/apply"@),
        body_view(r.1) == seq![("reason"@, reason@)],
{
    (url(base, "/api/v1/dev/apply"), body1("reason", reason))
}

/// Developer application status (GET).
pub fn dev_apply_status_path() -> (r: &'static str)
    ensures
        r@ == "/api/v1/dev/apply"@,
{
    "/api/v1/dev/apply"
}

/// Signed-in devices (GET).
pub fn device_tokens_path() -> (r: &'static str)
    ensures
        r@ == "/api/v1/me/device-tokens"@,
{
    "/api/v1/me/device-tokens"
}

/// Revokes one device.
pub fn device_revoke(base: &str, id: i64) -> (r: Spec)
    ensures
        r.0@ == route(base@, "/api/v1/me/device-tokens/"@ + decimal(id as int) + "/revoke"@),
        body_view(r.1).len() == 0,
{
    let mut path = owned("/api/v1/me/device-tokens/");
    let n = i64_to_decimal(id);
    path.append(n.as_str());
    path.append("/revoke");
    (url(base, path.as_str()), empty_body())
}

// ---------------- platform AI quota ----------------

/// Models offered by the platform (GET).
pub fn platform_models_path() -> (r: &'static str)
    ensures
        r@ == "/api/v1/ai/models"@,
{
    "/api/v1/ai/models"
}

// ---------------- extension publishing ----------------

pub fn submit_extension_path() -> (r: &'static str)
    ensures
        r@ == "/api/v1/dev/submissions"@,
{
    "/api/v1/dev/submissions"
}

pub fn my_submissions_path() -> (r: &'static str)
    ensures
        r@ == "/api/v1/dev/submissions"@,
{
    "/api/v1/dev/submissions"
}

pub fn submission_detail_path(id: i64) -> (r: String)
    ensures
        r@ == "/api/v1/dev/submissions/"@ + decimal(id as int),
{
    let mut path = owned("/api/v1/dev/submissions/");
    let n = i64_to_decimal(id);
    path.append(n.as_str());
    path
}

pub fn withdraw_submission(base: &str, id: i64) -> (r: Spec)
    ensures
        r.0@ == route(base@, "/api/v1/dev/submissions/"@ + decimal(id as int) + "/withdraw"@),
        body_view(r.1).len() == 0,
{
    let mut path = submission_detail_path(id);
    path.append("/withdraw");
    (url(base, path.as_str()), empty_body())
}

/// A base address entered with trailing slashes names the same routes as
/// without them.
pub proof fn law_trailing_slash_is_ignored(base: Seq<char>, path: Seq<char>)
    ensures
        route(base.push('/'), path) == route(base, path),
{
    assert(base.push('/').drop_last() =~= base);
}

} // verus!
