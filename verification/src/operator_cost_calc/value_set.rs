//! The item values of both servers, and which one an operator or module
//! is valued by.
use vstd::prelude::*;
use crate::risei_calculator_engine::server::Server;

verus! {

/// The values of the global and the mainland server.
pub struct ValueSet<V> {
    pub global: V,
    pub mainland: V,
}

impl<V> ValueSet<V> {
    /// The values for something mainland-only (the mainland's), else the
    /// global ones.
    pub fn for_cn_only(&self, cn_only: bool) -> (r: &V)
        ensures
            *r == if cn_only {
                self.mainland
            } else {
                self.global
            },
    {
        if cn_only {
            &self.mainland
        } else {
            &self.global
        }
    }

    /// The values of a server.
    pub fn for_server(&self, server: Server) -> (r: &V)
        ensures
            *r == match server {
                Server::Global => self.global,
                Server::Mainland => self.mainland,
            },
    {
        match server {
            Server::Global => &self.global,
            Server::Mainland => &self.mainland,
        }
    }
}

} // verus!
