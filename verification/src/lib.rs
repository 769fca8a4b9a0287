//! The decisions of a Kubernetes webhook token authentication server that
//! relies on an LDAP directory.

pub mod args;
pub mod conns;
pub mod error;
pub mod ldap;
pub mod logging;
pub mod map;
pub mod number;
pub mod reader;
pub mod request;
pub mod search;
pub mod text;
pub mod token;
