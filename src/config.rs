use crate::bignum::{decimal_of, BigNat};
use vstd::prelude::*;
use vstd::string::*;

verus! {

/// The host used where an address gives none.
pub const DEFAULT_HOST: &'static str = "localhost";

/// The port used where an address gives none.
pub const DEFAULT_PORT: u32 = 8080;

/// A network address whose parts may be left out.
#[derive(Debug, Clone)]
pub struct Address {
    pub ip: Option<String>,
    pub port: Option<u32>,
}

/// The server's configuration.
#[derive(Debug, Clone)]
pub struct Config {
    pub name: String,
    pub address: Address,
    pub second_server: Address,
}

impl Address {
    /// The host part, defaulted.
    pub open spec fn host(&self) -> Seq<char> {
        match self.ip {
            Some(ip) => ip@,
            None => DEFAULT_HOST@,
        }
    }

    /// The port part, defaulted.
    pub open spec fn port_number(&self) -> nat {
        match self.port {
            Some(p) => p as nat,
            None => DEFAULT_PORT as nat,
        }
    }

    /// `host:port`, with `localhost` and `8080` for the parts left out.
    pub fn get(&self) -> (r: String)
        ensures
            r@ == self.host() + ":"@ + decimal_of(self.port_number()),
    {
        let mut out = match &self.ip {
            Some(ip) => ip.clone(),
            None => String::from_str(DEFAULT_HOST),
        };
        out.append(":");
        let port = match self.port {
            Some(p) => p,
            None => DEFAULT_PORT,
        };
        out.append(BigNat::from_u64(port as u64).to_decimal().as_str());
        out
    }
}

impl Config {
    /// The address this server listens on.
    pub fn get_address(&self) -> (r: String)
        ensures
            r@ == self.address.host() + ":"@ + decimal_of(self.address.port_number()),
    {
        self.address.get()
    }
}

} // verus!
