//! Binding a gRPC request to the organization its caller authenticated for.
//!
//! A handler must not trust an `org_id` taken from the request body. The auth
//! interceptor checks membership only against the organization *header*, so a
//! user credential for org A could carry a body naming org B and read another
//! tenant's data. User callers are therefore pinned to the header org.

use tonic::metadata::errors::ToStrError;
use tonic::metadata::MetadataMap;
use tonic::Status;
use vstd::prelude::*;

verus! {

/// `tonic::metadata::MetadataMap`, the metadata of a gRPC request.
#[verifier::external_type_specification]
#[verifier::external_body]
pub struct ExMetadataMap(MetadataMap);

/// `tonic::metadata::errors::ToStrError`: a metadata value that is not
/// visible ASCII.
#[verifier::external_type_specification]
#[verifier::external_body]
pub struct ExToStrError(ToStrError);

/// `tonic::Status`, a gRPC error status.
#[verifier::external_type_specification]
#[verifier::external_body]
pub struct ExStatus(Status);

/// The metadata key that marks a user-credential caller.
pub const USER_ID_KEY: &'static str = "user_id";

/// The message of the refusal of a user caller without an org header.
pub const MISSING_ORG_HEADER: &'static str = "missing organization header for user-authenticated request";

/// Why a caller cannot be bound to an organization.
#[derive(Debug, Clone, Copy, PartialEq, Eq)]
pub enum OrgBindingError {
    /// A user caller sent no usable organization header.
    MissingOrgHeader,
}

/// Whether `c` may stand in a metadata value read as text: visible ASCII or a
/// tab.
pub open spec fn is_visible_ascii(c: char) -> bool {
    (' ' <= c && c <= '~') || c == '\t'
}

/// What a metadata map holds, as its text lookups see it: a key is in the
/// domain when `MetadataMap::get` finds a value under it, and maps to the
/// first such value as text, or to `None` when that value is not visible
/// ASCII.
pub uninterp spec fn metadata_text(m: MetadataMap) -> Map<Seq<char>, Option<Seq<char>>>;

/// What the binding rule makes of metadata `text` with org header `key`:
/// `Some(None)` binds to no organization (no `user_id` entry: an
/// internal-token caller), `Some(Some(org))` binds to the text of the org
/// header, and `None` refuses a user caller whose org header is missing or
/// not text.
pub open spec fn authenticated_org_outcome(
    text: Map<Seq<char>, Option<Seq<char>>>,
    key: Seq<char>,
) -> Option<Option<Seq<char>>> {
    if !text.contains_key("user_id"@) {
        Some(None)
    } else if text.contains_key(key) && text[key] is Some {
        Some(Some(text[key]->0))
    } else {
        None
    }
}

/// The org a body's `org_id` holds once bound: the authenticated org when
/// there is one, else what the body said.
pub open spec fn bound_org(body_org: Seq<char>, authenticated: Option<Seq<char>>) -> Seq<char> {
    match authenticated {
        Some(org) => org,
        None => body_org,
    }
}

/// `tonic::metadata::MetadataMap::get` with a text key, and
/// `tonic::metadata::MetadataValue::to_str` on the value found: `None` when
/// nothing is stored under `key`, else the first value as text, which the
/// source yields only when every byte is visible ASCII or a tab. Both are
/// functions of the map and the key, named by `metadata_text`. The two calls
/// share a wrapper because `MetadataValue` cannot be declared here: its bound
/// is a trait that tonic does not export.
#[verifier::external_body]
fn metadata_get_str<'a>(map: &'a MetadataMap, key: &str) -> (v: Option<Result<&'a str, ToStrError>>)
    ensures
        v is None <==> !metadata_text(*map).contains_key(key@),
        v is Some ==> (v->0 is Ok <==> metadata_text(*map)[key@] is Some),
        v is Some && v->0 is Ok ==> v->0->Ok_0@ == metadata_text(*map)[key@]->0,
        v is Some && v->0 is Ok ==> forall|i: int|
            0 <= i < v->0->Ok_0@.len() ==> is_visible_ascii(#[trigger] v->0->Ok_0@[i]),
{
    match map.get(key) {
        Some(value) => Some(value.to_str()),
        None => None,
    }
}

/// The numeric gRPC code of `s`: what `Status::code` returns, as
/// `tonic::Code as i32`.
pub uninterp spec fn status_code(s: Status) -> i32;

/// The text message of `s`: what `Status::message` returns.
pub uninterp spec fn status_message(s: Status) -> Seq<char>;

/// The numeric gRPC code `Unauthenticated` (`tonic::Code::Unauthenticated`).
pub open spec fn code_unauthenticated() -> i32 {
    16
}

/// `tonic::Status::unauthenticated`: `Status::new(Code::Unauthenticated,
/// message)`, a status whose code is `Unauthenticated` and whose message is
/// the one given.
#[verifier::external_body]
fn unauthenticated(message: &str) -> (s: Status)
    ensures
        status_code(s) == code_unauthenticated(),
        status_message(s) == message@,
{
    Status::unauthenticated(message)
}

/// The rule itself: a caller without `user_id` metadata (an internal-token
/// caller) is bound to no organization; a user caller is bound to its org
/// header value, and refused when it has none.
pub fn org_from_metadata(user_id_present: bool, org_header: Option<&str>) -> (r: Result<
    Option<String>,
    OrgBindingError,
>)
    ensures
        !user_id_present ==> r == Ok::<Option<String>, OrgBindingError>(None),
        user_id_present && org_header is Some ==> r is Ok && r->Ok_0 is Some && r->Ok_0->0@
            == org_header->0@,
        user_id_present && org_header is None ==> r == Err::<Option<String>, OrgBindingError>(
            OrgBindingError::MissingOrgHeader,
        ),
{
    if !user_id_present {
        return Ok(None);
    }
    match org_header {
        Some(org) => Ok(Some(org.to_owned())),
        None => Err(OrgBindingError::MissingOrgHeader),
    }
}

/// The organization this caller authenticated for, or `None` if the caller is
/// not a user, read from the request's metadata with the org header key
/// supplied.
///
/// The auth interceptor appends `user_id` metadata only for user-credential
/// callers; internal-token callers leave it absent and legitimately address
/// any org. A `Some` must replace whatever the body said; see [`bind_org`].
/// A user caller whose org header is missing or not visible ASCII is refused
/// with an `Unauthenticated` status.
pub fn authenticated_org_with(metadata: &MetadataMap, org_header_key: &str) -> (r: Result<
    Option<String>,
    Status,
>)
    ensures
        r is Ok <==> authenticated_org_outcome(metadata_text(*metadata), org_header_key@) is Some,
        r is Ok ==> r->Ok_0.deep_view() == authenticated_org_outcome(
            metadata_text(*metadata),
            org_header_key@,
        )->0,
        r is Ok && r->Ok_0 is Some ==> forall|i: int|
            0 <= i < r->Ok_0->0@.len() ==> is_visible_ascii(#[trigger] r->Ok_0->0@[i]),
        !metadata_text(*metadata).contains_key("user_id"@) ==> r is Ok && r->Ok_0 is None,
        metadata_text(*metadata).contains_key("user_id"@) && metadata_text(*metadata).contains_key(
            org_header_key@,
        ) && metadata_text(*metadata)[org_header_key@] is Some ==> r is Ok && r->Ok_0 is Some
            && r->Ok_0->0@ == metadata_text(*metadata)[org_header_key@]->0,
        r is Err ==> metadata_text(*metadata).contains_key("user_id"@),
        r is Err ==> status_code(r->Err_0) == code_unauthenticated(),
        r is Err ==> status_message(r->Err_0) == MISSING_ORG_HEADER@,
{
    let user_id_present = metadata_get_str(metadata, USER_ID_KEY).is_some();
    let org_header = if user_id_present {
        match metadata_get_str(metadata, org_header_key) {
            Some(Ok(org)) => Some(org),
            _ => None,
        }
    } else {
        None
    };
    match org_from_metadata(user_id_present, org_header) {
        Ok(org) => Ok(org),
        Err(OrgBindingError::MissingOrgHeader) => Err(unauthenticated(MISSING_ORG_HEADER)),
    }
}

/// Overwrite `org_id` with the caller's authenticated org, for user callers;
/// leave it as it was for the others.
pub fn bind_org(org_id: &mut String, authenticated: Option<String>)
    ensures
        authenticated is Some ==> final(org_id)@ == authenticated->0@,
        authenticated is None ==> final(org_id)@ == old(org_id)@,
        final(org_id)@ == bound_org(old(org_id)@, authenticated.deep_view()),
{
    if let Some(org) = authenticated {
        *org_id = org;
    }
}


/// Pinning law: once bound with what the rule authenticated, a body's org is
/// the header org for a user caller, whatever the body said, and stays what
/// the body said for an internal-token caller.
pub proof fn lemma_user_callers_pinned_to_header_org(
    text: Map<Seq<char>, Option<Seq<char>>>,
    key: Seq<char>,
    body_org: Seq<char>,
)
    requires
        authenticated_org_outcome(text, key) is Some,
    ensures
        text.contains_key("user_id"@) ==> bound_org(body_org, authenticated_org_outcome(text, key)->0)
            == text[key]->0,
        !text.contains_key("user_id"@) ==> bound_org(body_org, authenticated_org_outcome(text, key)->0)
            == body_org,
{
}


/// Binding law: a caller without `user_id` metadata is never refused and is
/// bound to no organization, whatever the org header holds; a user caller
/// with a text org header is bound to exactly that text; a user caller
/// without one is refused.
pub proof fn lemma_authenticated_org_cases(text: Map<Seq<char>, Option<Seq<char>>>, key: Seq<char>)
    ensures
        !text.contains_key("user_id"@) ==> authenticated_org_outcome(text, key) == Some(
            None::<Seq<char>>,
        ),
        text.contains_key("user_id"@) && text.contains_key(key) && text[key] is Some
            ==> authenticated_org_outcome(text, key) == Some(Some(text[key]->0)),
        text.contains_key("user_id"@) && !(text.contains_key(key) && text[key] is Some)
            ==> authenticated_org_outcome(text, key) is None,
        authenticated_org_outcome(text, key) is None ==> text.contains_key("user_id"@),
{
}

} // verus!
