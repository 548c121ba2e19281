//! Token-based authentication and role-based authorization for stateless
//! service requests: signing and verification of session tokens, bearer
//! header parsing, identity enrichment with resolved permissions, and
//! capability checks that fail closed.

pub mod auth;
pub mod codec;
pub mod crypto;
pub mod error;
pub mod jwt;
pub mod web;
