//! The gateway's configuration, from its environment variables.
use vstd::prelude::*;

use crate::text::{chars_of, owned, parse_unsigned, parse_unsigned_range, push_str, str_equal, string_from_chars, trim, trim_bounds};

verus! {

/// The environment as name/value pairs.
pub open spec fn vars_view(vars: Seq<(String, String)>) -> Seq<(Seq<char>, Seq<char>)> {
    vars.map_values(|p: (String, String)| (p.0@, p.1@))
}

/// The value of the first variable called `name`.
pub open spec fn env_value(vars: Seq<(Seq<char>, Seq<char>)>, name: Seq<char>) -> Option<Seq<char>>
    decreases vars.len(),
{
    if vars.len() == 0 {
        None
    } else if vars[0].0 == name {
        Some(vars[0].1)
    } else {
        env_value(vars.drop_first(), name)
    }
}

/// The value of a variable, or a default.
pub open spec fn text_or(v: Option<Seq<char>>, default: Seq<char>) -> Seq<char> {
    match v {
        Some(t) => t,
        None => default,
    }
}

/// The number a variable holds, or a default when it is unset or no number up to `max`.
pub open spec fn number_or(v: Option<Seq<char>>, max: nat, default: nat) -> nat {
    match v {
        Some(t) => match parse_unsigned(t, max) {
            Some(n) => n,
            None => default,
        },
        None => default,
    }
}

/// An API token counts when it is not blank.
pub open spec fn token_of(v: Option<Seq<char>>) -> Option<Seq<char>> {
    match v {
        Some(t) => if trim(t).len() > 0 {
            Some(t)
        } else {
            None
        },
        None => None,
    }
}

/// `PathBuf::join` of a relative component onto a base on Unix: a `/` between them unless
/// the base is empty or already ends in one.
pub open spec fn path_join(base: Seq<char>, part: Seq<char>) -> Seq<char> {
    if base.len() == 0 {
        part
    } else if base.last() == '/' {
        base + part
    } else {
        base + "/"@ + part
    }
}

/// The gateway's configuration. Addresses are kept as the text that names them.
#[derive(Debug)]
pub struct Config {
    pub data_dir: String,
    pub web_dir: String,
    pub catalog_url: String,
    pub control_addr: String,
    pub relay_addr: String,
    pub tunnel_device: String,
    pub api_token: Option<String>,
    pub openvpn_cmd: String,
    pub openvpn_user: String,
    pub openvpn_pass: String,
    pub refresh_interval_secs: u64,
    pub connect_timeout_secs: u64,
    pub max_nodes: usize,
}

fn lookup(vars: &Vec<(String, String)>, name: &str) -> (r: Option<String>)
    ensures
        r matches Some(v) ==> env_value(vars_view(vars@), name@) == Some(v@),
        r is None ==> env_value(vars_view(vars@), name@) is None,
{
    let ghost vs = vars_view(vars@);
    let mut i: usize = 0;
    assert(vs.skip(0) =~= vs);
    while i < vars.len()
        invariant
            i <= vars@.len(),
            vs == vars_view(vars@),
            env_value(vs, name@) == env_value(vs.skip(i as int), name@),
        decreases vars@.len() - i,
    {
        assert(vs.skip(i as int).drop_first() =~= vs.skip(i + 1));
        assert(vs[i as int] == (vars@[i as int].0@, vars@[i as int].1@));
        if str_equal(vars[i].0.as_str(), name) {
            return Some(vars[i].1.clone());
        }
        i += 1;
    }
    None
}

fn lookup_or(vars: &Vec<(String, String)>, name: &str, default: &str) -> (r: String)
    ensures
        r@ == text_or(env_value(vars_view(vars@), name@), default@),
{
    match lookup(vars, name) {
        Some(v) => v,
        None => owned(default),
    }
}

fn number_var(vars: &Vec<(String, String)>, name: &str, max: u64, default: u64) -> (r: u64)
    requires
        default <= max,
    ensures
        r == number_or(env_value(vars_view(vars@), name@), max as nat, default as nat),
{
    match lookup(vars, name) {
        Some(v) => {
            let c = chars_of(v.as_str());
            assert(c@.subrange(0, c.len() as int) =~= c@);
            match parse_unsigned_range(&c, 0, c.len(), max) {
                Some(n) => n,
                None => default,
            }
        },
        None => default,
    }
}

impl Config {
    /// The configuration that the variables give, each with its default: data in
    /// `./gateway_data`, the console in `./web/dist`, control on `127.0.0.1:18081`, relay on
    /// `127.0.0.1:19080`, the VPNGate catalog URL, device `vgl0`, no token unless a non-blank
    /// `VGL_TOKEN`, `openvpn` with user and password `vpn`, refresh every 1260 s, connect
    /// within 35 s, at most 300 nodes.
    pub fn from_env(vars: &Vec<(String, String)>) -> (r: Self)
        ensures
            ({
                let e = vars_view(vars@);
                &&& r.data_dir@ == text_or(env_value(e, "VGL_DATA_DIR"@), "./gateway_data"@)
                &&& r.web_dir@ == text_or(env_value(e, "VGL_WEB_DIR"@), "./web/dist"@)
                &&& r.control_addr@ == text_or(env_value(e, "VGL_CONTROL"@), "127.0.0.1:18081"@)
                &&& r.relay_addr@ == text_or(env_value(e, "VGL_RELAY"@), "127.0.0.1:19080"@)
                &&& r.catalog_url@ == text_or(env_value(e, "VGL_CATALOG_URL"@), "https://www.vpngate.net/api/iphone/"@)
                &&& r.tunnel_device@ == text_or(env_value(e, "VGL_TUN"@), "vgl0"@)
                &&& crate::model::opt_view(r.api_token) == token_of(env_value(e, "VGL_TOKEN"@))
                &&& r.openvpn_cmd@ == text_or(env_value(e, "OPENVPN_CMD"@), "openvpn"@)
                &&& r.openvpn_user@ == text_or(env_value(e, "OPENVPN_AUTH_USER"@), "vpn"@)
                &&& r.openvpn_pass@ == text_or(env_value(e, "OPENVPN_AUTH_PASS"@), "vpn"@)
                &&& r.refresh_interval_secs == number_or(env_value(e, "VGL_REFRESH_SECONDS"@), u64::MAX as nat, 1260)
                &&& r.connect_timeout_secs == number_or(env_value(e, "VGL_CONNECT_TIMEOUT_SECONDS"@), u64::MAX as nat, 35)
                &&& r.max_nodes == number_or(env_value(e, "VGL_MAX_NODES"@), usize::MAX as nat, 300)
            }),
    {
        let api_token = match lookup(vars, "VGL_TOKEN") {
            Some(t) => {
                let c = chars_of(t.as_str());
                let (a, b) = trim_bounds(&c, 0, c.len());
                assert(c@.subrange(0, c.len() as int) =~= c@);
                if a < b {
                    Some(t)
                } else {
                    None
                }
            },
            None => None,
        };
        Config {
            data_dir: lookup_or(vars, "VGL_DATA_DIR", "./gateway_data"),
            web_dir: lookup_or(vars, "VGL_WEB_DIR", "./web/dist"),
            catalog_url: lookup_or(vars, "VGL_CATALOG_URL", "https://www.vpngate.net/api/iphone/"),
            control_addr: lookup_or(vars, "VGL_CONTROL", "127.0.0.1:18081"),
            relay_addr: lookup_or(vars, "VGL_RELAY", "127.0.0.1:19080"),
            tunnel_device: lookup_or(vars, "VGL_TUN", "vgl0"),
            api_token,
            openvpn_cmd: lookup_or(vars, "OPENVPN_CMD", "openvpn"),
            openvpn_user: lookup_or(vars, "OPENVPN_AUTH_USER", "vpn"),
            openvpn_pass: lookup_or(vars, "OPENVPN_AUTH_PASS", "vpn"),
            refresh_interval_secs: number_var(vars, "VGL_REFRESH_SECONDS", u64::MAX, 1260),
            connect_timeout_secs: number_var(vars, "VGL_CONNECT_TIMEOUT_SECONDS", u64::MAX, 35),
            max_nodes: number_var(vars, "VGL_MAX_NODES", usize::MAX as u64, 300) as usize,
        }
    }

    fn data_path(&self, part: &str) -> (r: String)
        ensures
            r@ == path_join(self.data_dir@, part@),
    {
        let mut v = chars_of(self.data_dir.as_str());
        if v.len() > 0 && v[v.len() - 1] != '/' {
            push_str(&mut v, "/");
        }
        push_str(&mut v, part);
        string_from_chars(v.as_slice())
    }

    /// Where node configurations are written.
    pub fn configs_dir(&self) -> (r: String)
        ensures
            r@ == path_join(self.data_dir@, "configs"@),
    {
        self.data_path("configs")
    }

    /// Where the node list is kept.
    pub fn nodes_file(&self) -> (r: String)
        ensures
            r@ == path_join(self.data_dir@, "nodes.json"@),
    {
        self.data_path("nodes.json")
    }

    /// Where the runtime status is kept.
    pub fn state_file(&self) -> (r: String)
        ensures
            r@ == path_join(self.data_dir@, "state.json"@),
    {
        self.data_path("state.json")
    }

    /// Where the routing settings are kept.
    pub fn settings_file(&self) -> (r: String)
        ensures
            r@ == path_join(self.data_dir@, "settings.json"@),
    {
        self.data_path("settings.json")
    }

    /// Where OpenVPN's credentials are kept.
    pub fn auth_file(&self) -> (r: String)
        ensures
            r@ == path_join(self.data_dir@, "openvpn_auth.txt"@),
    {
        self.data_path("openvpn_auth.txt")
    }
}

} // verus!
