//! The data handed to the generator: proxies, settings, groups and rulesets.
use vstd::prelude::*;

verus! {

/// The closed set of proxy kinds.
#[derive(Clone, Copy, Debug, PartialEq, Eq, Structural)]
pub enum ProxyType {
    Unknown,
    Shadowsocks,
    ShadowsocksR,
    VMess,
    Trojan,
    Snell,
    HTTP,
    HTTPS,
    SOCKS5,
    WireGuard,
    Hysteria,
    Hysteria2,
}

impl ProxyType {
    /// The kind's display name, as used in a `[<Type>]` remark prefix.
    pub fn kind_label(&self) -> (r: &'static str)
        ensures
            r@ == kind_label_spec(*self),
    {
        match self {
            ProxyType::Unknown => "Unknown",
            ProxyType::Shadowsocks => "SS",
            ProxyType::ShadowsocksR => "SSR",
            ProxyType::VMess => "VMess",
            ProxyType::Trojan => "Trojan",
            ProxyType::Snell => "Snell",
            ProxyType::HTTP => "HTTP",
            ProxyType::HTTPS => "HTTPS",
            ProxyType::SOCKS5 => "SOCKS5",
            ProxyType::WireGuard => "WireGuard",
            ProxyType::Hysteria => "Hysteria",
            ProxyType::Hysteria2 => "Hysteria2",
        }
    }

    /// The `type` value of the kind in a Clash proxy entry.
    pub fn clash_type(&self) -> (r: &'static str)
        ensures
            r@ == clash_type_spec(*self),
    {
        match self {
            ProxyType::Unknown => "unknown",
            ProxyType::Shadowsocks => "ss",
            ProxyType::ShadowsocksR => "ssr",
            ProxyType::VMess => "vmess",
            ProxyType::Trojan => "trojan",
            ProxyType::Snell => "snell",
            ProxyType::HTTP => "http",
            ProxyType::HTTPS => "http",
            ProxyType::SOCKS5 => "socks5",
            ProxyType::WireGuard => "wireguard",
            ProxyType::Hysteria => "hysteria",
            ProxyType::Hysteria2 => "hysteria2",
        }
    }
}

pub open spec fn kind_label_spec(t: ProxyType) -> Seq<char> {
    match t {
        ProxyType::Unknown => "Unknown"@,
        ProxyType::Shadowsocks => "SS"@,
        ProxyType::ShadowsocksR => "SSR"@,
        ProxyType::VMess => "VMess"@,
        ProxyType::Trojan => "Trojan"@,
        ProxyType::Snell => "Snell"@,
        ProxyType::HTTP => "HTTP"@,
        ProxyType::HTTPS => "HTTPS"@,
        ProxyType::SOCKS5 => "SOCKS5"@,
        ProxyType::WireGuard => "WireGuard"@,
        ProxyType::Hysteria => "Hysteria"@,
        ProxyType::Hysteria2 => "Hysteria2"@,
    }
}

pub open spec fn clash_type_spec(t: ProxyType) -> Seq<char> {
    match t {
        ProxyType::Unknown => "unknown"@,
        ProxyType::Shadowsocks => "ss"@,
        ProxyType::ShadowsocksR => "ssr"@,
        ProxyType::VMess => "vmess"@,
        ProxyType::Trojan => "trojan"@,
        ProxyType::Snell => "snell"@,
        ProxyType::HTTP => "http"@,
        ProxyType::HTTPS => "http"@,
        ProxyType::SOCKS5 => "socks5"@,
        ProxyType::WireGuard => "wireguard"@,
        ProxyType::Hysteria => "hysteria"@,
        ProxyType::Hysteria2 => "hysteria2"@,
    }
}

/// A proxy descriptor as produced by subscription parsing.
#[derive(Clone, Debug)]
pub struct Proxy {
    pub proxy_type: ProxyType,
    pub remark: String,
    pub hostname: String,
    pub port: u16,
    pub username: Option<String>,
    pub password: Option<String>,
    pub encrypt_method: Option<String>,
    pub protocol: Option<String>,
    pub obfs: Option<String>,
    pub snell_version: u16,
    pub udp: Option<bool>,
    pub tcp_fast_open: Option<bool>,
    pub allow_insecure: Option<bool>,
}

impl Default for Proxy {
    fn default() -> (r: Proxy)
        ensures
            r.proxy_type == ProxyType::Unknown,
            r.remark@.len() == 0,
            r.hostname@.len() == 0,
            r.port == 0,
            r.username is None,
            r.password is None,
            r.encrypt_method is None,
            r.protocol is None,
            r.obfs is None,
            r.snell_version == 0,
            r.udp is None,
            r.tcp_fast_open is None,
            r.allow_insecure is None,
    {
        Proxy {
            proxy_type: ProxyType::Unknown,
            remark: String::new(),
            hostname: String::new(),
            port: 0,
            username: None,
            password: None,
            encrypt_method: None,
            protocol: None,
            obfs: None,
            snell_version: 0,
            udp: None,
            tcp_fast_open: None,
            allow_insecure: None,
        }
    }
}

/// What a proxy's flag becomes once a setting's default is applied:
/// a value of the proxy's own wins, else the setting's.
pub open spec fn with_default(own: Option<bool>, default: Option<bool>) -> Option<bool> {
    match own {
        Some(b) => Some(b),
        None => default,
    }
}

impl Proxy {
    /// Fills the proxy's unset `udp`, `tfo` and `skip-cert-verify` flags with the given defaults.
    pub fn apply_default_values(
        self,
        udp: Option<bool>,
        tfo: Option<bool>,
        skip_cert_verify: Option<bool>,
    ) -> (r: Proxy)
        ensures
            r.udp == with_default(self.udp, udp),
            r.tcp_fast_open == with_default(self.tcp_fast_open, tfo),
            r.allow_insecure == with_default(self.allow_insecure, skip_cert_verify),
            r.proxy_type == self.proxy_type,
            r.remark == self.remark,
            r.hostname == self.hostname,
            r.port == self.port,
            r.username == self.username,
            r.password == self.password,
            r.encrypt_method == self.encrypt_method,
            r.protocol == self.protocol,
            r.obfs == self.obfs,
            r.snell_version == self.snell_version,
    {
        let mut p = self;
        if p.udp.is_none() {
            p.udp = udp;
        }
        if p.tcp_fast_open.is_none() {
            p.tcp_fast_open = tfo;
        }
        if p.allow_insecure.is_none() {
            p.allow_insecure = skip_cert_verify;
        }
        p
    }

    /// The proxy with its remark replaced.
    pub fn set_remark(self, remark: String) -> (r: Proxy)
        ensures
            r == (Proxy { remark, ..self }),
    {
        Proxy { remark, ..self }
    }
}

/// Options of one conversion.
#[derive(Clone, Debug)]
pub struct ExtraSettings {
    pub udp: Option<bool>,
    pub tfo: Option<bool>,
    pub skip_cert_verify: Option<bool>,
    pub append_proxy_type: bool,
    pub filter_deprecated: bool,
    pub clash_new_field_name: bool,
    pub clash_script: bool,
    pub clash_proxies_style: String,
    pub clash_proxy_groups_style: String,
    pub nodelist: bool,
    pub enable_rule_generator: bool,
    pub overwrite_original_rules: bool,
    pub managed_config_prefix: String,
}

impl Default for ExtraSettings {
    fn default() -> (r: ExtraSettings)
        ensures
            r.udp is None,
            r.tfo is None,
            r.skip_cert_verify is None,
            !r.append_proxy_type,
            !r.filter_deprecated,
            !r.clash_new_field_name,
            !r.clash_script,
            r.clash_proxies_style@.len() == 0,
            r.clash_proxy_groups_style@.len() == 0,
            !r.nodelist,
            !r.enable_rule_generator,
            !r.overwrite_original_rules,
            r.managed_config_prefix@.len() == 0,
    {
        ExtraSettings {
            udp: None,
            tfo: None,
            skip_cert_verify: None,
            append_proxy_type: false,
            filter_deprecated: false,
            clash_new_field_name: false,
            clash_script: false,
            clash_proxies_style: String::new(),
            clash_proxy_groups_style: String::new(),
            nodelist: false,
            enable_rule_generator: false,
            overwrite_original_rules: false,
            managed_config_prefix: String::new(),
        }
    }
}

/// The kind of a proxy group.
#[derive(Clone, Copy, Debug, PartialEq, Eq, Structural)]
pub enum ProxyGroupType {
    Select,
    URLTest,
    Fallback,
    LoadBalance,
    Relay,
}

impl ProxyGroupType {
    /// The `type` value of the kind in a Clash group entry.
    pub fn clash_type(&self) -> (r: &'static str)
        ensures
            r@ == group_type_spec(*self),
    {
        match self {
            ProxyGroupType::Select => "select",
            ProxyGroupType::URLTest => "url-test",
            ProxyGroupType::Fallback => "fallback",
            ProxyGroupType::LoadBalance => "load-balance",
            ProxyGroupType::Relay => "relay",
        }
    }
}

pub open spec fn group_type_spec(t: ProxyGroupType) -> Seq<char> {
    match t {
        ProxyGroupType::Select => "select"@,
        ProxyGroupType::URLTest => "url-test"@,
        ProxyGroupType::Fallback => "fallback"@,
        ProxyGroupType::LoadBalance => "load-balance"@,
        ProxyGroupType::Relay => "relay"@,
    }
}

/// One proxy group to generate: member patterns, providers and test settings.
#[derive(Clone, Debug)]
pub struct ProxyGroupConfig {
    pub name: String,
    pub group_type: ProxyGroupType,
    pub proxies: Vec<String>,
    pub using_provider: Vec<String>,
    pub url: String,
    pub interval: u32,
}

/// One ruleset: the group it routes to, where it comes from, and its text.
#[derive(Clone, Debug)]
pub struct RulesetContent {
    pub group: String,
    pub rule_path: String,
    pub rule_path_typed: String,
    pub update_interval: u32,
    pub rule_content: String,
}

impl RulesetContent {
    /// The ruleset's text.
    pub fn get_rule_content(&self) -> (r: String)
        ensures
            r@ == self.rule_content@,
    {
        self.rule_content.clone()
    }
}

} // verus!
