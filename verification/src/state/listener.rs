//! Where the server listens.

use crate::text::push_decimal;
use vstd::prelude::*;
use vstd::string::StringExecFns;

verus! {

/// The interface and the port to bind.
#[derive(Debug, Clone, PartialEq, Eq)]
pub struct Listener {
    pub port: u32,
    pub bind_addr: String,
}

impl Default for Listener {
    /// Every interface, port 8000.
    fn default() -> (r: Self)
        ensures
            r.port == 8000,
            r.bind_addr@ == "0.0.0.0"@,
    {
        Listener { port: Self::default_port(), bind_addr: Self::default_bind_addr() }
    }
}

impl Listener {
    /// The interface bound when none is configured.
    pub fn default_bind_addr() -> (r: String)
        ensures
            r@ == "0.0.0.0"@,
    {
        String::from_str("0.0.0.0")
    }

    /// The port bound when none is configured.
    pub fn default_port() -> (r: u32)
        ensures
            r == 8000,
    {
        8000
    }

    /// The address to bind, as text: the interface, a colon, the port in decimal.
    pub fn socket_addr(&self) -> (r: String)
        ensures
            r@ == self.bind_addr@ + ":"@ + crate::text::decimal(self.port as int),
    {
        let mut r = self.bind_addr.clone();
        r.append(":");
        push_decimal(&mut r, self.port as i64);
        r
    }
}

} // verus!
