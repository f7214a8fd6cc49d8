//! Which proxies a Clash runtime can take.
use vstd::prelude::*;
use crate::catalog::{
    clash_ssr_cipher, clashr_obfs, clashr_protocol, is_clash_ssr_cipher, is_clashr_obfs,
    is_clashr_protocol,
};
use crate::model::{Proxy, ProxyType};
use crate::text::{chars_of, is_text};

verus! {

/// Why a proxy is left out of the output.
#[derive(Clone, Copy, Debug, PartialEq, Eq, Structural)]
pub enum SkipReason {
    /// Snell version 4 or later.
    SnellV4,
    /// Shadowsocks with the deprecated `chacha20` cipher.
    DeprecatedSsCipher,
    /// ShadowsocksR with a cipher, protocol or obfuscation the target cannot run.
    DeprecatedSsr,
    /// An unknown kind, or HTTPS.
    Unsupported,
}

/// The text of an optional field, empty where it is unset.
pub open spec fn opt_text(o: Option<String>) -> Seq<char> {
    match o {
        Some(s) => s@,
        None => Seq::empty(),
    }
}

/// Whether an optional field is set to exactly `t`.
pub open spec fn opt_is(o: Option<String>, t: Seq<char>) -> bool {
    o is Some && opt_text(o) == t
}

/// Whether a ShadowsocksR proxy uses only what the target accepts.
pub open spec fn ssr_supported(p: Proxy, clash_r: bool) -> bool {
    (clash_r || clash_ssr_cipher(opt_text(p.encrypt_method)))
        && clashr_protocol(opt_text(p.protocol))
        && clashr_obfs(opt_text(p.obfs))
}

/// The filter's decision on `p`: `None` keeps it, `Some(reason)` skips it.
pub open spec fn skip_reason_spec(p: Proxy, clash_r: bool, filter_deprecated: bool) -> Option<
    SkipReason,
> {
    if p.proxy_type == ProxyType::Snell && p.snell_version >= 4 {
        Some(SkipReason::SnellV4)
    } else if p.proxy_type == ProxyType::Shadowsocks && filter_deprecated && opt_is(
        p.encrypt_method,
        "chacha20"@,
    ) {
        Some(SkipReason::DeprecatedSsCipher)
    } else if p.proxy_type == ProxyType::ShadowsocksR && filter_deprecated && !ssr_supported(
        p,
        clash_r,
    ) {
        Some(SkipReason::DeprecatedSsr)
    } else if p.proxy_type == ProxyType::Unknown || p.proxy_type == ProxyType::HTTPS {
        Some(SkipReason::Unsupported)
    } else {
        None
    }
}

/// Whether the filter keeps `p`.
pub open spec fn kept(p: Proxy, clash_r: bool, filter_deprecated: bool) -> bool {
    skip_reason_spec(p, clash_r, filter_deprecated) is None
}

/// What the filter reads of a proxy, and only that.
pub open spec fn same_capabilities(p: Proxy, q: Proxy) -> bool {
    &&& p.proxy_type == q.proxy_type
    &&& p.snell_version == q.snell_version
    &&& p.encrypt_method is Some == q.encrypt_method is Some
    &&& opt_text(p.encrypt_method) == opt_text(q.encrypt_method)
    &&& opt_text(p.protocol) == opt_text(q.protocol)
    &&& opt_text(p.obfs) == opt_text(q.obfs)
}

fn opt_chars(o: &Option<String>) -> (r: Vec<char>)
    ensures
        r@ == opt_text(*o),
{
    match o {
        Some(s) => chars_of(s.as_str()),
        None => Vec::new(),
    }
}

/// Decides whether the proxy is kept, and if not, why.
pub fn skip_reason(p: &Proxy, clash_r: bool, filter_deprecated: bool) -> (r: Option<SkipReason>)
    ensures
        r == skip_reason_spec(*p, clash_r, filter_deprecated),
{
    match p.proxy_type {
        ProxyType::Snell => {
            if p.snell_version >= 4 {
                return Some(SkipReason::SnellV4);
            }
            None
        },
        ProxyType::Shadowsocks => {
            if filter_deprecated && p.encrypt_method.is_some() {
                let cipher = opt_chars(&p.encrypt_method);
                if is_text(&cipher, "chacha20") {
                    return Some(SkipReason::DeprecatedSsCipher);
                }
            }
            None
        },
        ProxyType::ShadowsocksR => {
            if filter_deprecated {
                let cipher = opt_chars(&p.encrypt_method);
                let protocol = opt_chars(&p.protocol);
                let obfs = opt_chars(&p.obfs);
                if (!clash_r && !is_clash_ssr_cipher(&cipher)) || !is_clashr_protocol(&protocol)
                    || !is_clashr_obfs(&obfs) {
                    return Some(SkipReason::DeprecatedSsr);
                }
            }
            None
        },
        ProxyType::Unknown | ProxyType::HTTPS => Some(SkipReason::Unsupported),
        _ => None,
    }
}

/// The filter's decision depends only on the proxy's kind, Snell version,
/// cipher, protocol and obfuscation, and on the two flags.
pub proof fn lemma_filter_reads_only_capabilities(
    p: Proxy,
    q: Proxy,
    clash_r: bool,
    filter_deprecated: bool,
)
    requires
        same_capabilities(p, q),
    ensures
        skip_reason_spec(p, clash_r, filter_deprecated) == skip_reason_spec(
            q,
            clash_r,
            filter_deprecated,
        ),
{
}

/// With deprecated features filtered, no Shadowsocks proxy using `chacha20` is kept.
pub proof fn lemma_chacha20_ss_dropped(p: Proxy, clash_r: bool)
    requires
        p.proxy_type == ProxyType::Shadowsocks,
        opt_is(p.encrypt_method, "chacha20"@),
    ensures
        !kept(p, clash_r, true),
{
}

/// For vanilla Clash with deprecated features filtered, a ShadowsocksR proxy is
/// kept exactly when its cipher, protocol and obfuscation are all accepted.
pub proof fn lemma_ssr_vanilla(p: Proxy)
    requires
        p.proxy_type == ProxyType::ShadowsocksR,
    ensures
        kept(p, false, true) <==> (clash_ssr_cipher(opt_text(p.encrypt_method)) && clashr_protocol(
            opt_text(p.protocol),
        ) && clashr_obfs(opt_text(p.obfs))),
{
}

/// For ClashR with deprecated features filtered, a ShadowsocksR proxy is kept
/// exactly when its protocol and obfuscation are accepted, whatever its cipher.
pub proof fn lemma_ssr_clashr(p: Proxy)
    requires
        p.proxy_type == ProxyType::ShadowsocksR,
    ensures
        kept(p, true, true) <==> (clashr_protocol(opt_text(p.protocol)) && clashr_obfs(
            opt_text(p.obfs),
        )),
{
}

} // verus!
