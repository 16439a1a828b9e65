//! Addresses of the services the program talks to.
use vstd::prelude::*;

use crate::text::{decimal, push_decimal, push_str};

verus! {

/// Where one service listens.
#[derive(Debug)]
pub struct ServiceConfig {
    pub host: String,
    pub port: usize,
}

/// The program's configuration: the document store and the HTTP service.
#[derive(Debug)]
pub struct CfConfig {
    pub db: ServiceConfig,
    pub http: ServiceConfig,
}

/// `scheme` followed by `host:port`.
pub open spec fn url_of(scheme: Seq<char>, svc: ServiceConfig) -> Seq<char> {
    scheme + svc.host@ + seq![':'] + decimal(svc.port as nat)
}

fn make_url(scheme: &str, svc: &ServiceConfig) -> (r: String)
    ensures
        r@ == url_of(scheme@, *svc),
{
    let mut r = String::new();
    push_str(&mut r, scheme);
    push_str(&mut r, svc.host.as_str());
    r.push(':');
    push_decimal(&mut r, svc.port);
    r
}

impl ServiceConfig {
    pub fn new(host: String, port: usize) -> (r: Self)
        ensures
            r.host@ == host@,
            r.port == port,
    {
        ServiceConfig { host, port }
    }
}

impl CfConfig {
    pub fn new(db: ServiceConfig, http: ServiceConfig) -> (r: Self)
        ensures
            r == (CfConfig { db, http }),
    {
        CfConfig { db, http }
    }

    /// The connection URL of the document store.
    pub fn db_url(&self) -> (r: String)
        ensures
            r@ == url_of("mongodb://"@, self.db),
    {
        make_url("mongodb://", &self.db)
    }

    /// The URL the HTTP service listens on.
    pub fn service_url(&self) -> (r: String)
        ensures
            r@ == url_of("http://"@, self.http),
    {
        make_url("http://", &self.http)
    }
}

} // verus!
