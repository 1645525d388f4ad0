# common

Access rules for read-only accounts and the gRPC organisation binding,
verified with Verus.

- `src/route_match.rs`: path normalisation (`strip_api_prefixes`), splitting
  into columns (`columns`) and positional pattern matching (`segments_match`),
  with the laws of splitting and normalising.
- `src/read_only_routes.rs`: the route table and `is_request_allowed`, whose
  contract is the spec function `request_allowed`; laws on safe methods,
  self-service rows and path normalisation.
- `src/grpc_auth.rs`: binding a gRPC caller to its header organisation
  (`org_from_metadata`, `authenticated_org_with` over the request metadata,
  `bind_org`), with the law that a user caller is pinned to its header org.
- `app/lib.rs`: the `axum::http::Method` and `tonic::Request` entry points
  over the library.
