use vstd::prelude::*;
use vstd::string::StringExecFns;

use crate::text::{decimal, decimal_string, replace_all, replace_all_str};

verus! {

/// The paths that the proxy serves, with `{...}` placeholders.
pub struct Proxy {
    pub index: &'static str,
    pub page: &'static str,
    pub asset: &'static str,
}

impl Proxy {
    pub fn new() -> (r: Self)
        ensures
            r.index@ == "/"@,
            r.page@ == "/{username}/{post}"@,
            r.asset@ == "/asset/medium/{name}"@,
    {
        Proxy { index: "/", page: "/{username}/{post}", asset: "/asset/medium/{name}" }
    }

    /// The path of a post page, from its author and post slug.
    pub fn get_page(&self, username: &str, post: &str) -> (r: String)
        ensures
            r@ == replace_all(replace_all(self.page@, "{username}"@, username@), "{post}"@, post@),
    {
        proof {
            reveal_strlit("{username}");
            reveal_strlit("{post}");
        }
        let with_user = replace_all_str(self.page, "{username}", username);
        replace_all_str(with_user.as_str(), "{post}", post)
    }

    /// The path under which this proxy serves an asset of the blogging platform.
    pub fn get_medium_asset(&self, asset_name: &str) -> (r: String)
        ensures
            r@ == replace_all(self.asset@, "{name}"@, asset_name@),
    {
        proof {
            reveal_strlit("{name}");
        }
        replace_all_str(self.asset, "{name}", asset_name)
    }
}

/// The paths of the service's own metadata.
pub struct Meta {
    pub build_details: &'static str,
    pub health: &'static str,
}

impl Meta {
    pub fn new() -> (r: Self)
        ensures
            r.build_details@ == "/api/v1/meta/build"@,
            r.health@ == "/api/v1/meta/health"@,
    {
        Meta { build_details: "/api/v1/meta/build", health: "/api/v1/meta/health" }
    }
}

/// Every path the service answers on.
pub struct Routes {
    pub meta: Meta,
    pub proxy: Proxy,
}

impl Routes {
    pub fn new() -> (r: Self)
        ensures
            r.meta.build_details@ == "/api/v1/meta/build"@,
            r.meta.health@ == "/api/v1/meta/health"@,
            r.proxy.index@ == "/"@,
            r.proxy.page@ == "/{username}/{post}"@,
            r.proxy.asset@ == "/asset/medium/{name}"@,
    {
        Routes { meta: Meta::new(), proxy: Proxy::new() }
    }
}

/// The version and commit that a build was made from.
#[derive(Clone, Debug)]
pub struct BuildDetails {
    pub version: &'static str,
    pub git_commit_hash: &'static str,
}

#[derive(Clone, Debug)]
pub struct Server {
    pub port: u32,
    pub domain: String,
    pub ip: String,
    pub proxy_has_tls: bool,
    pub workers: Option<usize>,
}

impl Server {
    /// The address to bind, as `ip:port`.
    pub fn get_ip(&self) -> (r: String)
        ensures
            r@ == self.ip@ + ":"@ + decimal(self.port as int),
    {
        let mut s = String::new();
        s.append(self.ip.as_str());
        s.append(":");
        s.append(decimal_string(self.port as i64).as_str());
        s
    }
}

#[derive(Clone, Debug)]
pub struct Settings {
    pub debug: bool,
    pub cache: Option<String>,
    pub server: Server,
    pub source_code: String,
}

} // verus!
