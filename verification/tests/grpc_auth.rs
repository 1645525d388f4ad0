use common::grpc_auth::{
    authenticated_org_with, bind_org, org_from_metadata, OrgBindingError, MISSING_ORG_HEADER,
};
use tonic::Request;

fn request_with(metadata: &[(&'static str, &str)]) -> Request<()> {
    let mut request = Request::new(());
    for (key, value) in metadata {
        request
            .metadata_mut()
            .insert(*key, value.parse().expect("valid metadata value"));
    }
    request
}

/// No `user_id` means an internal-token caller, which may address any org.
#[test]
fn internal_callers_are_not_rebound() {
    let request = request_with(&[("organization", "other")]);
    assert_eq!(
        authenticated_org_with(request.metadata(), "organization").unwrap(),
        None
    );

    let mut org = "other".to_string();
    bind_org(&mut org, None);
    assert_eq!(org, "other");
}

/// A user caller is pinned to the header org, whatever the body claimed.
#[test]
fn user_callers_are_rebound_to_their_header_org() {
    let request = request_with(&[("user_id", "viewer@example.com"), ("organization", "mine")]);
    let authenticated = authenticated_org_with(request.metadata(), "organization").unwrap();
    assert_eq!(authenticated.as_deref(), Some("mine"));

    let mut org = "victim".to_string();
    bind_org(&mut org, authenticated);
    assert_eq!(org, "mine");
}

/// Fail closed: a user caller without an org header is refused rather than
/// left on the body's value.
#[test]
fn a_user_caller_without_an_org_header_is_refused() {
    let request = request_with(&[("user_id", "viewer@example.com")]);
    let err = authenticated_org_with(request.metadata(), "organization").unwrap_err();
    assert_eq!(err.code(), tonic::Code::Unauthenticated);
}

#[test]
fn the_refusal_carries_its_message() {
    let request = request_with(&[("user_id", "u"), ("other", "x")]);
    let err = authenticated_org_with(request.metadata(), "organization").unwrap_err();
    assert_eq!(err.message(), MISSING_ORG_HEADER);
    assert_eq!(err.code(), tonic::Code::Unauthenticated);
    assert_eq!(err.code() as i32, 16);
}

#[test]
fn the_header_key_is_the_one_supplied() {
    let request = request_with(&[("user_id", "u"), ("x-org", "a"), ("organization", "b")]);
    assert_eq!(
        authenticated_org_with(request.metadata(), "x-org").unwrap().as_deref(),
        Some("a")
    );
    assert_eq!(
        authenticated_org_with(request.metadata(), "organization").unwrap().as_deref(),
        Some("b")
    );
}

#[test]
fn an_org_header_that_is_not_visible_ascii_counts_as_missing() {
    let mut request = Request::new(());
    request.metadata_mut().insert("user_id", "u".parse().unwrap());
    request.metadata_mut().insert(
        "organization",
        tonic::metadata::MetadataValue::try_from(&b"caf\xc3\xa9"[..]).unwrap(),
    );
    let err = authenticated_org_with(request.metadata(), "organization").unwrap_err();
    assert_eq!(err.code(), tonic::Code::Unauthenticated);
}

#[test]
fn the_rule_on_plain_values() {
    assert_eq!(org_from_metadata(false, None), Ok(None));
    assert_eq!(org_from_metadata(false, Some("org")), Ok(None));
    assert_eq!(org_from_metadata(true, Some("org")), Ok(Some("org".to_string())));
    assert_eq!(
        org_from_metadata(true, None),
        Err(OrgBindingError::MissingOrgHeader)
    );
}

#[test]
fn binding_overwrites_only_for_user_callers() {
    let mut org = "body-org".to_string();
    bind_org(&mut org, Some("header-org".to_string()));
    assert_eq!(org, "header-org");
    bind_org(&mut org, Some("header-org".to_string()));
    assert_eq!(org, "header-org");
    bind_org(&mut org, None);
    assert_eq!(org, "header-org");
}

#[test]
fn a_user_caller_is_pinned_to_its_header_org_whatever_the_body_said() {
    for body in ["victim", "mine", ""] {
        let request = request_with(&[("user_id", "u"), ("organization", "mine")]);
        let mut org = body.to_string();
        bind_org(&mut org, authenticated_org_with(request.metadata(), "organization").unwrap());
        assert_eq!(org, "mine");

        let internal = request_with(&[("organization", "mine")]);
        let mut org = body.to_string();
        bind_org(&mut org, authenticated_org_with(internal.metadata(), "organization").unwrap());
        assert_eq!(org, body);
    }
}
