//! Access rules for read-only accounts and the gRPC organisation binding,
//! with the positional route matcher they are built on.

pub mod route_match;
pub mod read_only_routes;
pub mod grpc_auth;
