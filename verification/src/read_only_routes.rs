//! What a read-only account (`Viewer`, `SreAgent`) is allowed to do in builds
//! that have no external authorisation service to enforce roles for them.
//!
//! Three things pass: safe HTTP methods, the query-by-POST routes of the
//! route table, and self-service maintenance of the caller's own account.
//! Everything else, ingestion included, is refused.
//!
//! Paths arrive with the `/api/` and base-uri prefix stripped, so segment 0 is
//! `{org_id}`; a `/v2/` prefix is normalised away.
//!
//! The HTTP method is taken by its name, as `http::Method::as_str` spells it
//! (`"GET"`, `"POST"`, ...). The standard methods always carry their upper-case
//! names, so comparing names is comparing methods.

use std::string::FromUtf8Error;
use vstd::prelude::*;
use crate::route_match::{
    self, lemma_strip_prefixes, lemma_stripped_columns_ignore_one_trailing_slash, seg_admits,
    seg_refuses, spec_columns, spec_strip_api_prefixes, str_eq, views_of, Seg,
};

verus! {

/// `std::string::FromUtf8Error`, the error of a percent-decoding whose bytes
/// are not UTF-8.
#[verifier::external_type_specification]
#[verifier::external_body]
pub struct ExFromUtf8Error(FromUtf8Error);

/// The refusal message, shared by the HTTP and gRPC entry points.
pub const READ_ONLY_DENIED: &'static str = "Read only account: this operation is not permitted";

/// A route a read-only account may reach despite its write-ish HTTP method.
struct ReadOnlyRoute {
    /// Segment patterns, starting at `{org_id}` (index 0).
    segments: &'static [Seg],
    /// The HTTP method name this row applies to.
    method: &'static str,
}

/// Write-method routes a read-only account may still call, as
/// (segment patterns, method name). A row belongs here only if it reads with
/// the query in the body, or is self-service maintenance of the caller's own
/// account.
pub open spec fn route_table() -> Seq<(Seq<Seg>, Seq<char>)> {
    seq![
        // ---- Search: query travels in the body, nothing is persisted ----
        (seq![Seg::Param, Seg::Lit("_search")], "POST"@),
        (seq![Seg::Param, Seg::Lit("_search_partition")], "POST"@),
        (seq![Seg::Param, Seg::Lit("_search_stream")], "POST"@),
        (seq![Seg::Param, Seg::Lit("_values_stream")], "POST"@),
        (seq![Seg::Param, Seg::Lit("_search_multi")], "POST"@),
        (seq![Seg::Param, Seg::Lit("_search_multi_stream")], "POST"@),
        (seq![Seg::Param, Seg::Lit("_search_partition_multi")], "POST"@),
        (seq![Seg::Param, Seg::Lit("_search_history")], "POST"@),
        (seq![Seg::Param, Seg::Lit("result_schema")], "POST"@),
        (seq![Seg::Param, Seg::Param, Seg::Lit("_around")], "POST"@),
        // ---- PromQL: POST forms of read endpoints, for long queries ----
        (seq![Seg::Param, Seg::Lit("prometheus"), Seg::Lit("api"), Seg::Lit("v1"), Seg::Lit("query")], "POST"@),
        (seq![Seg::Param, Seg::Lit("prometheus"), Seg::Lit("api"), Seg::Lit("v1"), Seg::Lit("query_range")], "POST"@),
        (seq![Seg::Param, Seg::Lit("prometheus"), Seg::Lit("api"), Seg::Lit("v1"), Seg::Lit("query_exemplars")], "POST"@),
        (seq![Seg::Param, Seg::Lit("prometheus"), Seg::Lit("api"), Seg::Lit("v1"), Seg::Lit("series")], "POST"@),
        (seq![Seg::Param, Seg::Lit("prometheus"), Seg::Lit("api"), Seg::Lit("v1"), Seg::Lit("labels")], "POST"@),
        (seq![Seg::Param, Seg::Lit("prometheus"), Seg::Lit("api"), Seg::Lit("v1"), Seg::Lit("format_query")], "POST"@),
        // ---- Other reads that take a body ----
        (seq![Seg::Param, Seg::Lit("alerts"), Seg::Param, Seg::Lit("export")], "POST"@),
        (seq![Seg::Param, Seg::Lit("sourcemaps"), Seg::Lit("stacktrace")], "POST"@),
        // ---- Self-service: maintaining one's own account ----
        (seq![Seg::Param, Seg::Lit("users"), Seg::Subject], "PUT"@),
        (seq![Seg::Param, Seg::Lit("settings"), Seg::Lit("v2"), Seg::Lit("user"), Seg::Subject], "POST"@),
        (seq![Seg::Param, Seg::Lit("settings"), Seg::Lit("v2"), Seg::Lit("user"), Seg::Subject, Seg::Param], "DELETE"@),
    ]
}

/// The executable route table; row `i` is `route_table()[i]`.
fn read_only_routes() -> (t: Vec<ReadOnlyRoute>)
    ensures
        t@.len() == route_table().len(),
        forall|i: int|
            0 <= i < t@.len() ==> (#[trigger] t@[i]).segments@ == route_table()[i].0
                && t@[i].method@ == route_table()[i].1,
{
    vec![
        // ---- Search: query travels in the body, nothing is persisted ----
        ReadOnlyRoute {
            segments: &[Seg::Param, Seg::Lit("_search")],
            method: "POST",
        },
        ReadOnlyRoute {
            segments: &[Seg::Param, Seg::Lit("_search_partition")],
            method: "POST",
        },
        ReadOnlyRoute {
            segments: &[Seg::Param, Seg::Lit("_search_stream")],
            method: "POST",
        },
        ReadOnlyRoute {
            segments: &[Seg::Param, Seg::Lit("_values_stream")],
            method: "POST",
        },
        ReadOnlyRoute {
            segments: &[Seg::Param, Seg::Lit("_search_multi")],
            method: "POST",
        },
        ReadOnlyRoute {
            segments: &[Seg::Param, Seg::Lit("_search_multi_stream")],
            method: "POST",
        },
        ReadOnlyRoute {
            segments: &[Seg::Param, Seg::Lit("_search_partition_multi")],
            method: "POST",
        },
        ReadOnlyRoute {
            segments: &[Seg::Param, Seg::Lit("_search_history")],
            method: "POST",
        },
        ReadOnlyRoute {
            segments: &[Seg::Param, Seg::Lit("result_schema")],
            method: "POST",
        },
        ReadOnlyRoute {
            segments: &[Seg::Param, Seg::Param, Seg::Lit("_around")],
            method: "POST",
        },
        // ---- PromQL: POST forms of read endpoints, for long queries ----
        ReadOnlyRoute {
            segments: &[Seg::Param, Seg::Lit("prometheus"), Seg::Lit("api"), Seg::Lit("v1"), Seg::Lit("query")],
            method: "POST",
        },
        ReadOnlyRoute {
            segments: &[Seg::Param, Seg::Lit("prometheus"), Seg::Lit("api"), Seg::Lit("v1"), Seg::Lit("query_range")],
            method: "POST",
        },
        ReadOnlyRoute {
            segments: &[Seg::Param, Seg::Lit("prometheus"), Seg::Lit("api"), Seg::Lit("v1"), Seg::Lit("query_exemplars")],
            method: "POST",
        },
        ReadOnlyRoute {
            segments: &[Seg::Param, Seg::Lit("prometheus"), Seg::Lit("api"), Seg::Lit("v1"), Seg::Lit("series")],
            method: "POST",
        },
        ReadOnlyRoute {
            segments: &[Seg::Param, Seg::Lit("prometheus"), Seg::Lit("api"), Seg::Lit("v1"), Seg::Lit("labels")],
            method: "POST",
        },
        ReadOnlyRoute {
            segments: &[Seg::Param, Seg::Lit("prometheus"), Seg::Lit("api"), Seg::Lit("v1"), Seg::Lit("format_query")],
            method: "POST",
        },
        // ---- Other reads that take a body ----
        ReadOnlyRoute {
            segments: &[Seg::Param, Seg::Lit("alerts"), Seg::Param, Seg::Lit("export")],
            method: "POST",
        },
        ReadOnlyRoute {
            segments: &[Seg::Param, Seg::Lit("sourcemaps"), Seg::Lit("stacktrace")],
            method: "POST",
        },
        // ---- Self-service: maintaining one's own account ----
        ReadOnlyRoute {
            segments: &[Seg::Param, Seg::Lit("users"), Seg::Subject],
            method: "PUT",
        },
        ReadOnlyRoute {
            segments: &[Seg::Param, Seg::Lit("settings"), Seg::Lit("v2"), Seg::Lit("user"), Seg::Subject],
            method: "POST",
        },
        ReadOnlyRoute {
            segments: &[Seg::Param, Seg::Lit("settings"), Seg::Lit("v2"), Seg::Lit("user"), Seg::Subject, Seg::Param],
            method: "DELETE",
        },
    ]
}

/// Methods that cannot mutate state: `GET`, `HEAD` and `OPTIONS`.
pub open spec fn is_safe_method_name(method: Seq<char>) -> bool {
    method == "GET"@ || method == "HEAD"@ || method == "OPTIONS"@
}

/// `c` with an ASCII upper-case letter turned lower-case; other characters
/// are left alone.
pub open spec fn ascii_lower(c: char) -> char {
    if 'A' <= c && c <= 'Z' {
        ((c as u32) + 32) as char
    } else {
        c
    }
}

/// `s` with every ASCII upper-case letter turned lower-case.
pub open spec fn ascii_lowercase(s: Seq<char>) -> Seq<char> {
    s.map_values(|c: char| ascii_lower(c))
}

/// `c` with an ASCII lower-case letter turned upper-case; other characters
/// are left alone.
pub open spec fn ascii_upper(c: char) -> char {
    if 'a' <= c && c <= 'z' {
        ((c as u32) - 32) as char
    } else {
        c
    }
}

/// `s` with every ASCII lower-case letter turned upper-case.
pub open spec fn ascii_uppercase(s: Seq<char>) -> Seq<char> {
    s.map_values(|c: char| ascii_upper(c))
}

/// Whether `a` and `b` are equal up to ASCII case.
pub open spec fn eq_ignoring_ascii_case(a: Seq<char>, b: Seq<char>) -> bool {
    ascii_lowercase(a) == ascii_lowercase(b)
}

/// The percent-decoding of `s` read as UTF-8, or `None` when the decoded
/// bytes are not UTF-8.
pub uninterp spec fn percent_decoded(s: Seq<char>) -> Option<Seq<char>>;

/// Whether `segment` names the account `user_email`: neither is empty, and
/// the segment equals the email up to ASCII case, as it stands or once
/// percent-decoded.
pub open spec fn names_self(segment: Seq<char>, user_email: Seq<char>) -> bool {
    &&& segment.len() > 0
    &&& user_email.len() > 0
    &&& {
        ||| eq_ignoring_ascii_case(segment, user_email)
        ||| (percent_decoded(segment) matches Some(d) && eq_ignoring_ascii_case(d, user_email))
    }
}

/// The columns a request path is matched on.
pub open spec fn request_columns(path: Seq<char>) -> Seq<Seq<char>> {
    spec_columns(spec_strip_api_prefixes(path))
}

/// Whether row `row` of the table lets `method` through on `path`.
pub open spec fn row_allows(
    row: (Seq<Seg>, Seq<char>),
    method: Seq<char>,
    path: Seq<char>,
    user_email: Seq<char>,
) -> bool {
    let cols = request_columns(path);
    &&& row.1 == method
    &&& row.0.len() == cols.len()
    &&& forall|k: int|
        0 <= k < cols.len() ==> #[trigger] seg_admits(row.0[k], cols[k], names_self(cols[k], user_email))
}

/// Whether a read-only account `user_email` may send `method` to `path`.
pub open spec fn request_allowed(method: Seq<char>, path: Seq<char>, user_email: Seq<char>) -> bool {
    ||| is_safe_method_name(method)
    ||| exists|i: int|
        0 <= i < route_table().len() && #[trigger] row_allows(
            route_table()[i],
            method,
            path,
            user_email,
        )
}

/// Upper-casing keeps the length and what a string is up to ASCII case.
proof fn lemma_uppercase_keeps_ascii_case_class(s: Seq<char>, other: Seq<char>)
    ensures
        ascii_uppercase(s).len() == s.len(),
        eq_ignoring_ascii_case(ascii_uppercase(s), other) == eq_ignoring_ascii_case(s, other),
        eq_ignoring_ascii_case(s, ascii_uppercase(s)),
{
    assert forall|i: int| 0 <= i < s.len() implies ascii_lower(ascii_upper(s[i])) == ascii_lower(
        s[i],
    ) by {
        let c = s[i];
        if 'a' <= c && c <= 'z' {
            let u = ((c as u32) - 32) as char;
            assert(u as u32 == (c as u32) - 32);
            vstd::utf8::char_u32_cast(c, c as u32);
        }
    }
    assert(ascii_lowercase(ascii_uppercase(s)) =~= ascii_lowercase(s));
}

/// Equality up to ASCII case is transitive.
proof fn lemma_eq_ignoring_ascii_case_transitive(a: Seq<char>, b: Seq<char>, c: Seq<char>)
    requires
        eq_ignoring_ascii_case(a, b),
    ensures
        eq_ignoring_ascii_case(a, c) == eq_ignoring_ascii_case(b, c),
{
}

/// The code of `ascii_lower(c)`.
fn ascii_lower_code(c: char) -> (u: u32)
    ensures
        u == ascii_lower(c) as u32,
{
    if 'A' <= c && c <= 'Z' {
        (c as u32) + 32
    } else {
        c as u32
    }
}

/// Whether `a` and `b` are equal up to ASCII case, compared character by
/// character as `str::eq_ignore_ascii_case` does.
fn eq_ignore_ascii_case(a: &str, b: &str) -> (r: bool)
    ensures
        r == eq_ignoring_ascii_case(a@, b@),
{
    let ca = route_match::chars_of(a);
    let cb = route_match::chars_of(b);
    if ca.len() != cb.len() {
        assert(ascii_lowercase(a@).len() != ascii_lowercase(b@).len());
        return false;
    }
    let n = ca.len();
    for i in 0..n
        invariant
            n == ca@.len(),
            n == cb@.len(),
            ca@ == a@,
            cb@ == b@,
            forall|j: int| 0 <= j < i ==> ascii_lower(ca@[j]) == ascii_lower(cb@[j]),
    {
        if ascii_lower_code(ca[i]) != ascii_lower_code(cb[i]) {
            assert(ascii_lowercase(a@)[i as int] != ascii_lowercase(b@)[i as int]);
            return false;
        }
        proof {
            let x = ascii_lower(ca@[i as int]);
            let y = ascii_lower(cb@[i as int]);
            vstd::utf8::char_u32_cast(x, x as u32);
            vstd::utf8::char_u32_cast(y, y as u32);
        }
    }
    assert(ascii_lowercase(a@) =~= ascii_lowercase(b@));
    true
}

/// `urlencoding::decode`: percent-decodes `s` and reads the bytes as UTF-8.
/// Its result is named `percent_decoded`. The source returns the input
/// unchanged when it holds no `%`. It also ignores ASCII case in what it is
/// given: hex digits are read in either case (`from_hex_digit`), every other
/// byte is copied as it is, and ASCII bytes keep UTF-8 validity as they are;
/// so upper-casing the input changes at most the ASCII case of the decoded
/// text, and never whether it decodes.
#[verifier::external_body]
fn url_decode(s: &str) -> (r: Result<String, FromUtf8Error>)
    ensures
        r is Ok ==> percent_decoded(s@) == Some(r->Ok_0@),
        r is Err ==> percent_decoded(s@) is None,
        !s@.contains('%') ==> r is Ok && r->Ok_0@ == s@,
        r is Ok <==> percent_decoded(ascii_uppercase(s@)) is Some,
        r is Ok ==> eq_ignoring_ascii_case(r->Ok_0@, percent_decoded(ascii_uppercase(s@))->0),
{
    match urlencoding::decode(s) {
        Ok(d) => Ok(d.into_owned()),
        Err(e) => Err(e),
    }
}

/// HTTP methods that cannot mutate state and are therefore always allowed.
fn is_safe_method(method: &str) -> (r: bool)
    ensures
        r == is_safe_method_name(method@),
{
    str_eq(method, "GET") || str_eq(method, "HEAD") || str_eq(method, "OPTIONS")
}

/// Whether a percent-decoded segment (`None` when decoding failed) names
/// the account `user_email`, up to ASCII case.
pub fn decoded_segment_is_email(decoded: Option<&str>, user_email: &str) -> (r: bool)
    ensures
        r == (decoded matches Some(d) && eq_ignoring_ascii_case(d@, user_email@)),
{
    match decoded {
        Some(d) => eq_ignore_ascii_case(d, user_email),
        None => false,
    }
}

/// Does this segment name the caller's own account? Compared case-insensitively
/// and, failing that, percent-decoded: the frontend escapes the `@` on the
/// settings route but not on the users route.
pub fn is_self_email(segment: &str, user_email: &str) -> (r: bool)
    ensures
        r == names_self(segment@, user_email@),
        !segment@.contains('%') ==> r == (segment@.len() > 0 && user_email@.len() > 0
            && eq_ignoring_ascii_case(segment@, user_email@)),
        r == names_self(ascii_uppercase(segment@), user_email@),
{
    proof {
        lemma_uppercase_keeps_ascii_case_class(segment@, user_email@);
    }
    if segment.is_empty() || user_email.is_empty() {
        return false;
    }
    if eq_ignore_ascii_case(segment, user_email) {
        return true;
    }
    let decoded = url_decode(segment);
    proof {
        if decoded is Ok {
            let d = decoded->Ok_0@;
            let du = percent_decoded(ascii_uppercase(segment@))->0;
            lemma_eq_ignoring_ascii_case_transitive(du, d, user_email@);
            lemma_eq_ignoring_ascii_case_transitive(d, du, user_email@);
        }
    }
    match decoded {
        Ok(decoded) => decoded_segment_is_email(Some(decoded.as_str()), user_email),
        Err(_) => decoded_segment_is_email(None, user_email),
    }
}

/// May a read-only account perform this request? `method` is the HTTP
/// method's name, `path` starts at `{org_id}`; `user_email` is the caller, used
/// only by the self-service rows. A `false` becomes a `403`.
pub fn is_request_allowed(method: &str, path: &str, user_email: &str) -> (r: bool)
    ensures
        r == request_allowed(method@, path@, user_email@),
{
    if is_safe_method(method) {
        return true;
    }
    let stripped = route_match::strip_api_prefixes(path);
    let columns = route_match::columns(stripped);
    let routes = read_only_routes();
    let is_self = |col: &str| -> (b: bool)
        ensures
            b == names_self(col@, user_email@),
        { is_self_email(col, user_email) };
    let ghost cols = spec_columns(spec_strip_api_prefixes(path@));
    assert(views_of(columns@) == cols);
    assert(forall|c: &str| call_requires(is_self, (c,)));
    let n = routes.len();
    for i in 0..n
        invariant
            n == routes@.len(),
            routes@.len() == route_table().len(),
            forall|k: int|
                0 <= k < routes@.len() ==> (#[trigger] routes@[k]).segments@ == route_table()[k].0
                    && routes@[k].method@ == route_table()[k].1,
            views_of(columns@) == cols,
            forall|c: &str| call_requires(is_self, (c,)),
            forall|c: &str, b: bool| call_ensures(is_self, (c,), b) ==> b == names_self(c@, user_email@),
            cols == spec_columns(spec_strip_api_prefixes(path@)),
            forall|j: int| 0 <= j < i ==> !#[trigger] row_allows(route_table()[j], method@, path@, user_email@),
    {
        let route = &routes[i];
        if str_eq(route.method, method) {
            let m = route_match::segments_match(route.segments, columns.as_slice(), is_self);
            proof {
                let pats = route.segments@;
                if m {
                    assert forall|k: int| 0 <= k < pats.len() implies #[trigger] seg_admits(
                        pats[k],
                        cols[k],
                        names_self(cols[k], user_email@),
                    ) by {
                        assert(columns@[k]@ == cols[k]);
                        assert(seg_admits(pats[k], columns@[k]@, call_ensures(is_self, (columns@[k],), true)));
                    }
                } else {
                    if pats.len() == cols.len() {
                        let k = choose|k: int|
                            0 <= k < pats.len() && #[trigger] seg_refuses(
                                pats[k],
                                columns@[k]@,
                                call_ensures(is_self, (columns@[k],), false),
                            );
                        assert(columns@[k]@ == cols[k]);
                        assert(!seg_admits(pats[k], cols[k], names_self(cols[k], user_email@)));
                    }
                    assert(!row_allows(route_table()[i as int], method@, path@, user_email@));
                }
            }
            if m {
                assert(row_allows(route_table()[i as int], method@, path@, user_email@));
                return true;
            }
        }
    }
    false
}

/// The method names, spelt out.
proof fn reveal_method_names()
    ensures
        "GET"@ =~= seq!['G', 'E', 'T'],
        "HEAD"@ =~= seq!['H', 'E', 'A', 'D'],
        "OPTIONS"@ =~= seq!['O', 'P', 'T', 'I', 'O', 'N', 'S'],
        "POST"@ =~= seq!['P', 'O', 'S', 'T'],
        "PUT"@ =~= seq!['P', 'U', 'T'],
        "DELETE"@ =~= seq!['D', 'E', 'L', 'E', 'T', 'E'],
{
    reveal_strlit("GET");
    reveal_strlit("HEAD");
    reveal_strlit("OPTIONS");
    reveal_strlit("POST");
    reveal_strlit("PUT");
    reveal_strlit("DELETE");
}

/// Every row of the table is for `POST`, `PUT` or `DELETE`.
proof fn lemma_row_methods(i: int)
    requires
        0 <= i < route_table().len(),
    ensures
        route_table()[i].1 == "POST"@ || route_table()[i].1 == "PUT"@ || route_table()[i].1
            == "DELETE"@,
{
}

/// Safe-method law: `GET`, `HEAD` and `OPTIONS` pass on every path, for
/// every caller.
pub proof fn lemma_safe_methods_always_allowed(method: Seq<char>, path: Seq<char>, user_email: Seq<char>)
    requires
        is_safe_method_name(method),
    ensures
        request_allowed(method, path, user_email),
{
}

/// Refusal law: a method that is neither safe nor `POST`, `PUT` or `DELETE`
/// (`PATCH`, for one) is refused on every path.
pub proof fn lemma_other_methods_refused(method: Seq<char>, path: Seq<char>, user_email: Seq<char>)
    requires
        !is_safe_method_name(method),
        method != "POST"@,
        method != "PUT"@,
        method != "DELETE"@,
    ensures
        !request_allowed(method, path, user_email),
{
    if request_allowed(method, path, user_email) {
        let i = choose|i: int|
            0 <= i < route_table().len() && #[trigger] row_allows(
                route_table()[i],
                method,
                path,
                user_email,
            );
        lemma_row_methods(i);
    }
}

/// Self-service law, users route: a `PUT` passes exactly on
/// `{org}/users/{segment}` where the segment names the caller.
pub proof fn lemma_put_only_for_own_user(path: Seq<char>, user_email: Seq<char>)
    ensures
        request_allowed("PUT"@, path, user_email) <==> {
            let cols = request_columns(path);
            &&& cols.len() == 3
            &&& cols[0].len() > 0
            &&& cols[1] == "users"@
            &&& names_self(cols[2], user_email)
        },
{
    reveal_method_names();
    let cols = request_columns(path);
    let row = route_table()[18];
    if request_allowed("PUT"@, path, user_email) {
        let i = choose|i: int|
            0 <= i < route_table().len() && #[trigger] row_allows(
                route_table()[i],
                "PUT"@,
                path,
                user_email,
            );
        assert(i == 18);
        assert(seg_admits(row.0[0], cols[0], names_self(cols[0], user_email)));
        assert(seg_admits(row.0[1], cols[1], names_self(cols[1], user_email)));
        assert(seg_admits(row.0[2], cols[2], names_self(cols[2], user_email)));
    }
    if cols.len() == 3 && cols[0].len() > 0 && cols[1] == "users"@ && names_self(cols[2], user_email) {
        assert(seg_admits(row.0[0], cols[0], names_self(cols[0], user_email)));
        assert(seg_admits(row.0[1], cols[1], names_self(cols[1], user_email)));
        assert(seg_admits(row.0[2], cols[2], names_self(cols[2], user_email)));
        assert(row_allows(row, "PUT"@, path, user_email));
    }
}

/// The path shape of the self-service settings routes:
/// `{org}/settings/v2/user/{segment}`, then `n_after` more columns.
pub open spec fn is_settings_user_path(cols: Seq<Seq<char>>, n_after: int) -> bool {
    &&& cols.len() == 5 + n_after
    &&& cols[1] == "settings"@
    &&& cols[2] == "v2"@
    &&& cols[3] == "user"@
}

/// Self-service law, settings routes: on `{org}/settings/v2/user/{segment}`
/// a `POST` passes exactly when the org is not empty and the segment names
/// the caller; on `{org}/settings/v2/user/{segment}/{key}` a `DELETE` passes
/// exactly when, besides, the key is not empty.
pub proof fn lemma_settings_only_for_self(path: Seq<char>, user_email: Seq<char>)
    ensures
        is_settings_user_path(request_columns(path), 0) ==> (request_allowed(
            "POST"@,
            path,
            user_email,
        ) <==> request_columns(path)[0].len() > 0 && names_self(
            request_columns(path)[4],
            user_email,
        )),
        is_settings_user_path(request_columns(path), 1) ==> (request_allowed(
            "DELETE"@,
            path,
            user_email,
        ) <==> request_columns(path)[0].len() > 0 && names_self(
            request_columns(path)[4],
            user_email,
        ) && request_columns(path)[5].len() > 0),
{
    reveal_method_names();
    reveal_strlit("prometheus");
    reveal_strlit("settings");
    let cols = request_columns(path);
    let e = user_email;
    if is_settings_user_path(cols, 0) {
        let row = route_table()[19];
        if request_allowed("POST"@, path, e) {
            let i = choose|i: int|
                0 <= i < route_table().len() && #[trigger] row_allows(route_table()[i], "POST"@, path, e);
            if i == 10 {
                assert(seg_admits(route_table()[10].0[1], cols[1], names_self(cols[1], e)));
                assert("prometheus"@.len() != "settings"@.len());
            }
            if i == 11 {
                assert(seg_admits(route_table()[11].0[1], cols[1], names_self(cols[1], e)));
                assert("prometheus"@.len() != "settings"@.len());
            }
            if i == 12 {
                assert(seg_admits(route_table()[12].0[1], cols[1], names_self(cols[1], e)));
                assert("prometheus"@.len() != "settings"@.len());
            }
            if i == 13 {
                assert(seg_admits(route_table()[13].0[1], cols[1], names_self(cols[1], e)));
                assert("prometheus"@.len() != "settings"@.len());
            }
            if i == 14 {
                assert(seg_admits(route_table()[14].0[1], cols[1], names_self(cols[1], e)));
                assert("prometheus"@.len() != "settings"@.len());
            }
            if i == 15 {
                assert(seg_admits(route_table()[15].0[1], cols[1], names_self(cols[1], e)));
                assert("prometheus"@.len() != "settings"@.len());
            }
            assert(i == 19);
            assert(seg_admits(row.0[0], cols[0], names_self(cols[0], e)));
            assert(seg_admits(row.0[4], cols[4], names_self(cols[4], e)));
        }
        if cols[0].len() > 0 && names_self(cols[4], e) {
            assert forall|k: int| 0 <= k < cols.len() implies #[trigger] seg_admits(
                row.0[k],
                cols[k],
                names_self(cols[k], e),
            ) by {}
            assert(row_allows(row, "POST"@, path, e));
        }
    }
    if is_settings_user_path(cols, 1) {
        let row = route_table()[20];
        if request_allowed("DELETE"@, path, e) {
            let i = choose|i: int|
                0 <= i < route_table().len() && #[trigger] row_allows(route_table()[i], "DELETE"@, path, e);
            assert(i == 20);
            assert(seg_admits(row.0[0], cols[0], names_self(cols[0], e)));
            assert(seg_admits(row.0[4], cols[4], names_self(cols[4], e)));
            assert(seg_admits(row.0[5], cols[5], names_self(cols[5], e)));
        }
        if cols[0].len() > 0 && names_self(cols[4], e) && cols[5].len() > 0 {
            assert forall|k: int| 0 <= k < cols.len() implies #[trigger] seg_admits(
                row.0[k],
                cols[k],
                names_self(cols[k], e),
            ) by {}
            assert(row_allows(row, "DELETE"@, path, e));
        }
    }
}

/// A request depends on its path only through the columns it is matched on.
proof fn lemma_same_columns_same_answer(
    method: Seq<char>,
    p1: Seq<char>,
    p2: Seq<char>,
    user_email: Seq<char>,
)
    requires
        request_columns(p1) == request_columns(p2),
    ensures
        request_allowed(method, p1, user_email) == request_allowed(method, p2, user_email),
{
    assert forall|i: int| 0 <= i < route_table().len() implies #[trigger] row_allows(
        route_table()[i],
        method,
        p1,
        user_email,
    ) == row_allows(route_table()[i], method, p2, user_email) by {}
    if request_allowed(method, p1, user_email) && !is_safe_method_name(method) {
        let i = choose|i: int|
            0 <= i < route_table().len() && #[trigger] row_allows(route_table()[i], method, p1, user_email);
        assert(row_allows(route_table()[i], method, p2, user_email));
    }
    if request_allowed(method, p2, user_email) && !is_safe_method_name(method) {
        let i = choose|i: int|
            0 <= i < route_table().len() && #[trigger] row_allows(route_table()[i], method, p2, user_email);
        assert(row_allows(route_table()[i], method, p1, user_email));
    }
}

/// Normalisation law: a leading `/`, a `v2/` prefix, or both, make no
/// difference to the answer.
pub proof fn lemma_prefixes_are_normalised(method: Seq<char>, rest: Seq<char>, user_email: Seq<char>)
    requires
        rest.len() == 0 || rest[0] != '/',
        !(rest.len() >= 3 && rest[0] == 'v' && rest[1] == '2' && rest[2] == '/'),
    ensures
        request_allowed(method, seq!['/'] + rest, user_email) == request_allowed(method, rest, user_email),
        request_allowed(method, seq!['v', '2', '/'] + rest, user_email) == request_allowed(
            method,
            rest,
            user_email,
        ),
        request_allowed(method, seq!['/', 'v', '2', '/'] + rest, user_email) == request_allowed(
            method,
            rest,
            user_email,
        ),
{
    lemma_strip_prefixes(rest);
    lemma_same_columns_same_answer(method, seq!['/'] + rest, rest, user_email);
    lemma_same_columns_same_answer(method, seq!['v', '2', '/'] + rest, rest, user_email);
    lemma_same_columns_same_answer(method, seq!['/', 'v', '2', '/'] + rest, rest, user_email);
}

/// Normalisation law: one trailing `/` makes no difference to the answer,
/// except on the paths `v2` and `/v2`.
pub proof fn lemma_trailing_slash_is_tolerated(method: Seq<char>, path: Seq<char>, user_email: Seq<char>)
    requires
        path.len() == 0 || path.last() != '/',
        path != seq!['v', '2'],
        path != seq!['/', 'v', '2'],
    ensures
        request_allowed(method, path.push('/'), user_email) == request_allowed(method, path, user_email),
{
    lemma_stripped_columns_ignore_one_trailing_slash(path);
    lemma_same_columns_same_answer(method, path.push('/'), path, user_email);
}

/// ASCII lower-casing twice is lower-casing once.
proof fn lemma_ascii_lowercase_idempotent(s: Seq<char>)
    ensures
        ascii_lowercase(ascii_lowercase(s)) == ascii_lowercase(s),
{
    assert(ascii_lowercase(ascii_lowercase(s)) =~= ascii_lowercase(s));
}

/// Self-email law: an empty segment or an empty email names nobody, and the
/// email counts only up to ASCII case.
pub proof fn lemma_names_self_fails_closed_and_ignores_case(segment: Seq<char>, user_email: Seq<char>)
    ensures
        !names_self(Seq::empty(), user_email),
        !names_self(segment, Seq::empty()),
        names_self(segment, user_email) == names_self(segment, ascii_lowercase(user_email)),
{
    lemma_ascii_lowercase_idempotent(user_email);
}

/// POST law: a `POST` passes exactly on the read routes that carry their
/// query in the body, each written out here by its columns, and on the
/// caller's own settings: nothing else, ingestion included.
pub proof fn lemma_post_allowed_exactly(path: Seq<char>, user_email: Seq<char>)
    ensures
        request_allowed("POST"@, path, user_email) <==> {
            let c = request_columns(path);
            ||| (c.len() == 2 && c[0].len() > 0 && c[1] == "_search"@)
            ||| (c.len() == 2 && c[0].len() > 0 && c[1] == "_search_partition"@)
            ||| (c.len() == 2 && c[0].len() > 0 && c[1] == "_search_stream"@)
            ||| (c.len() == 2 && c[0].len() > 0 && c[1] == "_values_stream"@)
            ||| (c.len() == 2 && c[0].len() > 0 && c[1] == "_search_multi"@)
            ||| (c.len() == 2 && c[0].len() > 0 && c[1] == "_search_multi_stream"@)
            ||| (c.len() == 2 && c[0].len() > 0 && c[1] == "_search_partition_multi"@)
            ||| (c.len() == 2 && c[0].len() > 0 && c[1] == "_search_history"@)
            ||| (c.len() == 2 && c[0].len() > 0 && c[1] == "result_schema"@)
            ||| (c.len() == 3 && c[0].len() > 0 && c[1].len() > 0 && c[2] == "_around"@)
            ||| (c.len() == 5 && c[0].len() > 0 && c[1] == "prometheus"@ && c[2] == "api"@ && c[3] == "v1"@ && c[4] == "query"@)
            ||| (c.len() == 5 && c[0].len() > 0 && c[1] == "prometheus"@ && c[2] == "api"@ && c[3] == "v1"@ && c[4] == "query_range"@)
            ||| (c.len() == 5 && c[0].len() > 0 && c[1] == "prometheus"@ && c[2] == "api"@ && c[3] == "v1"@ && c[4] == "query_exemplars"@)
            ||| (c.len() == 5 && c[0].len() > 0 && c[1] == "prometheus"@ && c[2] == "api"@ && c[3] == "v1"@ && c[4] == "series"@)
            ||| (c.len() == 5 && c[0].len() > 0 && c[1] == "prometheus"@ && c[2] == "api"@ && c[3] == "v1"@ && c[4] == "labels"@)
            ||| (c.len() == 5 && c[0].len() > 0 && c[1] == "prometheus"@ && c[2] == "api"@ && c[3] == "v1"@ && c[4] == "format_query"@)
            ||| (c.len() == 4 && c[0].len() > 0 && c[1] == "alerts"@ && c[2].len() > 0 && c[3] == "export"@)
            ||| (c.len() == 3 && c[0].len() > 0 && c[1] == "sourcemaps"@ && c[2] == "stacktrace"@)
            ||| (c.len() == 5 && c[0].len() > 0 && c[1] == "settings"@ && c[2] == "v2"@ && c[3] == "user"@ && names_self(c[4], user_email))
        },
{
    reveal_method_names();
    let c = request_columns(path);
    let e = user_email;
    if request_allowed("POST"@, path, e) {
        let i = choose|i: int|
            0 <= i < route_table().len() && #[trigger] row_allows(route_table()[i], "POST"@, path, e);
        if i == 0 {
            assert(seg_admits(route_table()[0].0[0], c[0], names_self(c[0], e)));
            assert(seg_admits(route_table()[0].0[1], c[1], names_self(c[1], e)));
        }
        if i == 1 {
            assert(seg_admits(route_table()[1].0[0], c[0], names_self(c[0], e)));
            assert(seg_admits(route_table()[1].0[1], c[1], names_self(c[1], e)));
        }
        if i == 2 {
            assert(seg_admits(route_table()[2].0[0], c[0], names_self(c[0], e)));
            assert(seg_admits(route_table()[2].0[1], c[1], names_self(c[1], e)));
        }
        if i == 3 {
            assert(seg_admits(route_table()[3].0[0], c[0], names_self(c[0], e)));
            assert(seg_admits(route_table()[3].0[1], c[1], names_self(c[1], e)));
        }
        if i == 4 {
            assert(seg_admits(route_table()[4].0[0], c[0], names_self(c[0], e)));
            assert(seg_admits(route_table()[4].0[1], c[1], names_self(c[1], e)));
        }
        if i == 5 {
            assert(seg_admits(route_table()[5].0[0], c[0], names_self(c[0], e)));
            assert(seg_admits(route_table()[5].0[1], c[1], names_self(c[1], e)));
        }
        if i == 6 {
            assert(seg_admits(route_table()[6].0[0], c[0], names_self(c[0], e)));
            assert(seg_admits(route_table()[6].0[1], c[1], names_self(c[1], e)));
        }
        if i == 7 {
            assert(seg_admits(route_table()[7].0[0], c[0], names_self(c[0], e)));
            assert(seg_admits(route_table()[7].0[1], c[1], names_self(c[1], e)));
        }
        if i == 8 {
            assert(seg_admits(route_table()[8].0[0], c[0], names_self(c[0], e)));
            assert(seg_admits(route_table()[8].0[1], c[1], names_self(c[1], e)));
        }
        if i == 9 {
            assert(seg_admits(route_table()[9].0[0], c[0], names_self(c[0], e)));
            assert(seg_admits(route_table()[9].0[1], c[1], names_self(c[1], e)));
            assert(seg_admits(route_table()[9].0[2], c[2], names_self(c[2], e)));
        }
        if i == 10 {
            assert(seg_admits(route_table()[10].0[0], c[0], names_self(c[0], e)));
            assert(seg_admits(route_table()[10].0[1], c[1], names_self(c[1], e)));
            assert(seg_admits(route_table()[10].0[2], c[2], names_self(c[2], e)));
            assert(seg_admits(route_table()[10].0[3], c[3], names_self(c[3], e)));
            assert(seg_admits(route_table()[10].0[4], c[4], names_self(c[4], e)));
        }
        if i == 11 {
            assert(seg_admits(route_table()[11].0[0], c[0], names_self(c[0], e)));
            assert(seg_admits(route_table()[11].0[1], c[1], names_self(c[1], e)));
            assert(seg_admits(route_table()[11].0[2], c[2], names_self(c[2], e)));
            assert(seg_admits(route_table()[11].0[3], c[3], names_self(c[3], e)));
            assert(seg_admits(route_table()[11].0[4], c[4], names_self(c[4], e)));
        }
        if i == 12 {
            assert(seg_admits(route_table()[12].0[0], c[0], names_self(c[0], e)));
            assert(seg_admits(route_table()[12].0[1], c[1], names_self(c[1], e)));
            assert(seg_admits(route_table()[12].0[2], c[2], names_self(c[2], e)));
            assert(seg_admits(route_table()[12].0[3], c[3], names_self(c[3], e)));
            assert(seg_admits(route_table()[12].0[4], c[4], names_self(c[4], e)));
        }
        if i == 13 {
            assert(seg_admits(route_table()[13].0[0], c[0], names_self(c[0], e)));
            assert(seg_admits(route_table()[13].0[1], c[1], names_self(c[1], e)));
            assert(seg_admits(route_table()[13].0[2], c[2], names_self(c[2], e)));
            assert(seg_admits(route_table()[13].0[3], c[3], names_self(c[3], e)));
            assert(seg_admits(route_table()[13].0[4], c[4], names_self(c[4], e)));
        }
        if i == 14 {
            assert(seg_admits(route_table()[14].0[0], c[0], names_self(c[0], e)));
            assert(seg_admits(route_table()[14].0[1], c[1], names_self(c[1], e)));
            assert(seg_admits(route_table()[14].0[2], c[2], names_self(c[2], e)));
            assert(seg_admits(route_table()[14].0[3], c[3], names_self(c[3], e)));
            assert(seg_admits(route_table()[14].0[4], c[4], names_self(c[4], e)));
        }
        if i == 15 {
            assert(seg_admits(route_table()[15].0[0], c[0], names_self(c[0], e)));
            assert(seg_admits(route_table()[15].0[1], c[1], names_self(c[1], e)));
            assert(seg_admits(route_table()[15].0[2], c[2], names_self(c[2], e)));
            assert(seg_admits(route_table()[15].0[3], c[3], names_self(c[3], e)));
            assert(seg_admits(route_table()[15].0[4], c[4], names_self(c[4], e)));
        }
        if i == 16 {
            assert(seg_admits(route_table()[16].0[0], c[0], names_self(c[0], e)));
            assert(seg_admits(route_table()[16].0[1], c[1], names_self(c[1], e)));
            assert(seg_admits(route_table()[16].0[2], c[2], names_self(c[2], e)));
            assert(seg_admits(route_table()[16].0[3], c[3], names_self(c[3], e)));
        }
        if i == 17 {
            assert(seg_admits(route_table()[17].0[0], c[0], names_self(c[0], e)));
            assert(seg_admits(route_table()[17].0[1], c[1], names_self(c[1], e)));
            assert(seg_admits(route_table()[17].0[2], c[2], names_self(c[2], e)));
        }
        if i == 19 {
            assert(seg_admits(route_table()[19].0[0], c[0], names_self(c[0], e)));
            assert(seg_admits(route_table()[19].0[1], c[1], names_self(c[1], e)));
            assert(seg_admits(route_table()[19].0[2], c[2], names_self(c[2], e)));
            assert(seg_admits(route_table()[19].0[3], c[3], names_self(c[3], e)));
            assert(seg_admits(route_table()[19].0[4], c[4], names_self(c[4], e)));
        }
    }
    if (c.len() == 2 && c[0].len() > 0 && c[1] == "_search"@) {
        assert forall|k: int| 0 <= k < c.len() implies #[trigger] seg_admits(
            route_table()[0].0[k],
            c[k],
            names_self(c[k], e),
        ) by {
            if k == 0 {}
            if k == 1 {}
        }
        assert(row_allows(route_table()[0], "POST"@, path, e));
    }
    if (c.len() == 2 && c[0].len() > 0 && c[1] == "_search_partition"@) {
        assert forall|k: int| 0 <= k < c.len() implies #[trigger] seg_admits(
            route_table()[1].0[k],
            c[k],
            names_self(c[k], e),
        ) by {
            if k == 0 {}
            if k == 1 {}
        }
        assert(row_allows(route_table()[1], "POST"@, path, e));
    }
    if (c.len() == 2 && c[0].len() > 0 && c[1] == "_search_stream"@) {
        assert forall|k: int| 0 <= k < c.len() implies #[trigger] seg_admits(
            route_table()[2].0[k],
            c[k],
            names_self(c[k], e),
        ) by {
            if k == 0 {}
            if k == 1 {}
        }
        assert(row_allows(route_table()[2], "POST"@, path, e));
    }
    if (c.len() == 2 && c[0].len() > 0 && c[1] == "_values_stream"@) {
        assert forall|k: int| 0 <= k < c.len() implies #[trigger] seg_admits(
            route_table()[3].0[k],
            c[k],
            names_self(c[k], e),
        ) by {
            if k == 0 {}
            if k == 1 {}
        }
        assert(row_allows(route_table()[3], "POST"@, path, e));
    }
    if (c.len() == 2 && c[0].len() > 0 && c[1] == "_search_multi"@) {
        assert forall|k: int| 0 <= k < c.len() implies #[trigger] seg_admits(
            route_table()[4].0[k],
            c[k],
            names_self(c[k], e),
        ) by {
            if k == 0 {}
            if k == 1 {}
        }
        assert(row_allows(route_table()[4], "POST"@, path, e));
    }
    if (c.len() == 2 && c[0].len() > 0 && c[1] == "_search_multi_stream"@) {
        assert forall|k: int| 0 <= k < c.len() implies #[trigger] seg_admits(
            route_table()[5].0[k],
            c[k],
            names_self(c[k], e),
        ) by {
            if k == 0 {}
            if k == 1 {}
        }
        assert(row_allows(route_table()[5], "POST"@, path, e));
    }
    if (c.len() == 2 && c[0].len() > 0 && c[1] == "_search_partition_multi"@) {
        assert forall|k: int| 0 <= k < c.len() implies #[trigger] seg_admits(
            route_table()[6].0[k],
            c[k],
            names_self(c[k], e),
        ) by {
            if k == 0 {}
            if k == 1 {}
        }
        assert(row_allows(route_table()[6], "POST"@, path, e));
    }
    if (c.len() == 2 && c[0].len() > 0 && c[1] == "_search_history"@) {
        assert forall|k: int| 0 <= k < c.len() implies #[trigger] seg_admits(
            route_table()[7].0[k],
            c[k],
            names_self(c[k], e),
        ) by {
            if k == 0 {}
            if k == 1 {}
        }
        assert(row_allows(route_table()[7], "POST"@, path, e));
    }
    if (c.len() == 2 && c[0].len() > 0 && c[1] == "result_schema"@) {
        assert forall|k: int| 0 <= k < c.len() implies #[trigger] seg_admits(
            route_table()[8].0[k],
            c[k],
            names_self(c[k], e),
        ) by {
            if k == 0 {}
            if k == 1 {}
        }
        assert(row_allows(route_table()[8], "POST"@, path, e));
    }
    if (c.len() == 3 && c[0].len() > 0 && c[1].len() > 0 && c[2] == "_around"@) {
        assert forall|k: int| 0 <= k < c.len() implies #[trigger] seg_admits(
            route_table()[9].0[k],
            c[k],
            names_self(c[k], e),
        ) by {
            if k == 0 {}
            if k == 1 {}
            if k == 2 {}
        }
        assert(row_allows(route_table()[9], "POST"@, path, e));
    }
    if (c.len() == 5 && c[0].len() > 0 && c[1] == "prometheus"@ && c[2] == "api"@ && c[3] == "v1"@ && c[4] == "query"@) {
        assert forall|k: int| 0 <= k < c.len() implies #[trigger] seg_admits(
            route_table()[10].0[k],
            c[k],
            names_self(c[k], e),
        ) by {
            if k == 0 {}
            if k == 1 {}
            if k == 2 {}
            if k == 3 {}
            if k == 4 {}
        }
        assert(row_allows(route_table()[10], "POST"@, path, e));
    }
    if (c.len() == 5 && c[0].len() > 0 && c[1] == "prometheus"@ && c[2] == "api"@ && c[3] == "v1"@ && c[4] == "query_range"@) {
        assert forall|k: int| 0 <= k < c.len() implies #[trigger] seg_admits(
            route_table()[11].0[k],
            c[k],
            names_self(c[k], e),
        ) by {
            if k == 0 {}
            if k == 1 {}
            if k == 2 {}
            if k == 3 {}
            if k == 4 {}
        }
        assert(row_allows(route_table()[11], "POST"@, path, e));
    }
    if (c.len() == 5 && c[0].len() > 0 && c[1] == "prometheus"@ && c[2] == "api"@ && c[3] == "v1"@ && c[4] == "query_exemplars"@) {
        assert forall|k: int| 0 <= k < c.len() implies #[trigger] seg_admits(
            route_table()[12].0[k],
            c[k],
            names_self(c[k], e),
        ) by {
            if k == 0 {}
            if k == 1 {}
            if k == 2 {}
            if k == 3 {}
            if k == 4 {}
        }
        assert(row_allows(route_table()[12], "POST"@, path, e));
    }
    if (c.len() == 5 && c[0].len() > 0 && c[1] == "prometheus"@ && c[2] == "api"@ && c[3] == "v1"@ && c[4] == "series"@) {
        assert forall|k: int| 0 <= k < c.len() implies #[trigger] seg_admits(
            route_table()[13].0[k],
            c[k],
            names_self(c[k], e),
        ) by {
            if k == 0 {}
            if k == 1 {}
            if k == 2 {}
            if k == 3 {}
            if k == 4 {}
        }
        assert(row_allows(route_table()[13], "POST"@, path, e));
    }
    if (c.len() == 5 && c[0].len() > 0 && c[1] == "prometheus"@ && c[2] == "api"@ && c[3] == "v1"@ && c[4] == "labels"@) {
        assert forall|k: int| 0 <= k < c.len() implies #[trigger] seg_admits(
            route_table()[14].0[k],
            c[k],
            names_self(c[k], e),
        ) by {
            if k == 0 {}
            if k == 1 {}
            if k == 2 {}
            if k == 3 {}
            if k == 4 {}
        }
        assert(row_allows(route_table()[14], "POST"@, path, e));
    }
    if (c.len() == 5 && c[0].len() > 0 && c[1] == "prometheus"@ && c[2] == "api"@ && c[3] == "v1"@ && c[4] == "format_query"@) {
        assert forall|k: int| 0 <= k < c.len() implies #[trigger] seg_admits(
            route_table()[15].0[k],
            c[k],
            names_self(c[k], e),
        ) by {
            if k == 0 {}
            if k == 1 {}
            if k == 2 {}
            if k == 3 {}
            if k == 4 {}
        }
        assert(row_allows(route_table()[15], "POST"@, path, e));
    }
    if (c.len() == 4 && c[0].len() > 0 && c[1] == "alerts"@ && c[2].len() > 0 && c[3] == "export"@) {
        assert forall|k: int| 0 <= k < c.len() implies #[trigger] seg_admits(
            route_table()[16].0[k],
            c[k],
            names_self(c[k], e),
        ) by {
            if k == 0 {}
            if k == 1 {}
            if k == 2 {}
            if k == 3 {}
        }
        assert(row_allows(route_table()[16], "POST"@, path, e));
    }
    if (c.len() == 3 && c[0].len() > 0 && c[1] == "sourcemaps"@ && c[2] == "stacktrace"@) {
        assert forall|k: int| 0 <= k < c.len() implies #[trigger] seg_admits(
            route_table()[17].0[k],
            c[k],
            names_self(c[k], e),
        ) by {
            if k == 0 {}
            if k == 1 {}
            if k == 2 {}
        }
        assert(row_allows(route_table()[17], "POST"@, path, e));
    }
    if (c.len() == 5 && c[0].len() > 0 && c[1] == "settings"@ && c[2] == "v2"@ && c[3] == "user"@ && names_self(c[4], e)) {
        assert forall|k: int| 0 <= k < c.len() implies #[trigger] seg_admits(
            route_table()[19].0[k],
            c[k],
            names_self(c[k], e),
        ) by {
            if k == 0 {}
            if k == 1 {}
            if k == 2 {}
            if k == 3 {}
            if k == 4 {}
        }
        assert(row_allows(route_table()[19], "POST"@, path, e));
    }
}

/// DELETE law: a `DELETE` passes exactly on
/// `{org}/settings/v2/user/{self}/{key}`, dropping one of the caller's own
/// preferences: no other deletion is open to a read-only account.
pub proof fn lemma_delete_allowed_exactly(path: Seq<char>, user_email: Seq<char>)
    ensures
        request_allowed("DELETE"@, path, user_email) <==> {
            let c = request_columns(path);
            ||| (c.len() == 6 && c[0].len() > 0 && c[1] == "settings"@ && c[2] == "v2"@ && c[3] == "user"@ && names_self(c[4], user_email) && c[5].len() > 0)
        },
{
    reveal_method_names();
    let c = request_columns(path);
    let e = user_email;
    if request_allowed("DELETE"@, path, e) {
        let i = choose|i: int|
            0 <= i < route_table().len() && #[trigger] row_allows(route_table()[i], "DELETE"@, path, e);
        if i == 20 {
            assert(seg_admits(route_table()[20].0[0], c[0], names_self(c[0], e)));
            assert(seg_admits(route_table()[20].0[1], c[1], names_self(c[1], e)));
            assert(seg_admits(route_table()[20].0[2], c[2], names_self(c[2], e)));
            assert(seg_admits(route_table()[20].0[3], c[3], names_self(c[3], e)));
            assert(seg_admits(route_table()[20].0[4], c[4], names_self(c[4], e)));
            assert(seg_admits(route_table()[20].0[5], c[5], names_self(c[5], e)));
        }
    }
    if (c.len() == 6 && c[0].len() > 0 && c[1] == "settings"@ && c[2] == "v2"@ && c[3] == "user"@ && names_self(c[4], e) && c[5].len() > 0) {
        assert forall|k: int| 0 <= k < c.len() implies #[trigger] seg_admits(
            route_table()[20].0[k],
            c[k],
            names_self(c[k], e),
        ) by {
            if k == 0 {}
            if k == 1 {}
            if k == 2 {}
            if k == 3 {}
            if k == 4 {}
            if k == 5 {}
        }
        assert(row_allows(route_table()[20], "DELETE"@, path, e));
    }
}

/// Two characters fold to the same one under ASCII lower-casing exactly when
/// they are equal or are the two cases of one ASCII letter.
proof fn lemma_ascii_lower_same(x: char, y: char)
    ensures
        (ascii_lower(x) == ascii_lower(y)) <==> (x == y || ('A' <= x && x <= 'Z' && y as u32 == x as u32
            + 32) || ('a' <= x && x <= 'z' && x as u32 == y as u32 + 32)),
{
    let lx = ascii_lower(x);
    let ly = ascii_lower(y);
    vstd::utf8::char_u32_cast(x, x as u32);
    vstd::utf8::char_u32_cast(y, y as u32);
    vstd::utf8::char_u32_cast(lx, lx as u32);
    vstd::utf8::char_u32_cast(ly, ly as u32);
}

/// Case law: two strings are equal up to ASCII case exactly when they have
/// the same length and agree at every position, except that an ASCII letter
/// may stand in its other case. Every other character (digits, punctuation,
/// non-ASCII letters) must match as it is.
pub proof fn lemma_eq_ignoring_ascii_case_exactly(a: Seq<char>, b: Seq<char>)
    ensures
        eq_ignoring_ascii_case(a, b) <==> {
            &&& a.len() == b.len()
            &&& forall|i: int|
                0 <= i < a.len() ==> {
                    ||| a[i] == b[i]
                    ||| 'A' <= a[i] && a[i] <= 'Z' && b[i] as u32 == a[i] as u32 + 32
                    ||| 'a' <= a[i] && a[i] <= 'z' && a[i] as u32 == b[i] as u32 + 32
                }
        },
{
    assert forall|i: int| 0 <= i < a.len() && i < b.len() implies (ascii_lower(a[i]) == ascii_lower(
        b[i],
    )) <==> ({
        ||| a[i] == b[i]
        ||| 'A' <= a[i] && a[i] <= 'Z' && b[i] as u32 == a[i] as u32 + 32
        ||| 'a' <= a[i] && a[i] <= 'z' && a[i] as u32 == b[i] as u32 + 32
    }) by {
        lemma_ascii_lower_same(a[i], b[i]);
    }
    if eq_ignoring_ascii_case(a, b) {
        assert(ascii_lowercase(a).len() == ascii_lowercase(b).len());
        assert forall|i: int| 0 <= i < a.len() implies ascii_lower(a[i]) == ascii_lower(b[i]) by {
            assert(ascii_lowercase(a)[i] == ascii_lowercase(b)[i]);
        }
    }
    if a.len() == b.len() && forall|i: int|
        0 <= i < a.len() ==> {
            ||| a[i] == b[i]
            ||| 'A' <= a[i] && a[i] <= 'Z' && b[i] as u32 == a[i] as u32 + 32
            ||| 'a' <= a[i] && a[i] <= 'z' && a[i] as u32 == b[i] as u32 + 32
        } {
        assert(ascii_lowercase(a) =~= ascii_lowercase(b));
    }
}

} // verus!
