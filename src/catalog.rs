//! The ciphers, protocols and obfuscation modes that Clash and ClashR accept.
use vstd::prelude::*;
use crate::text::is_text;

verus! {

/// SSR ciphers that vanilla Clash accepts.
pub open spec fn clash_ssr_cipher(s: Seq<char>) -> bool {
    s == "aes-128-cfb"@
        || s == "aes-192-cfb"@
        || s == "aes-256-cfb"@
        || s == "aes-128-ctr"@
        || s == "aes-192-ctr"@
        || s == "aes-256-ctr"@
        || s == "aes-128-ofb"@
        || s == "aes-192-ofb"@
        || s == "aes-256-ofb"@
        || s == "des-cfb"@
        || s == "bf-cfb"@
        || s == "cast5-cfb"@
        || s == "rc4-md5"@
        || s == "chacha20"@
        || s == "chacha20-ietf"@
        || s == "salsa20"@
        || s == "camellia-128-cfb"@
        || s == "camellia-192-cfb"@
        || s == "camellia-256-cfb"@
        || s == "idea-cfb"@
        || s == "rc2-cfb"@
        || s == "seed-cfb"@
}

/// SSR protocols that ClashR accepts.
pub open spec fn clashr_protocol(s: Seq<char>) -> bool {
    s == "origin"@
        || s == "auth_sha1_v4"@
        || s == "auth_aes128_md5"@
        || s == "auth_aes128_sha1"@
        || s == "auth_chain_a"@
        || s == "auth_chain_b"@
}

/// SSR obfuscation modes that ClashR accepts.
pub open spec fn clashr_obfs(s: Seq<char>) -> bool {
    s == "plain"@
        || s == "http_simple"@
        || s == "http_post"@
        || s == "random_head"@
        || s == "tls1.2_ticket_auth"@
        || s == "tls1.2_ticket_fastauth"@
}

pub fn is_clash_ssr_cipher(s: &Vec<char>) -> (r: bool)
    ensures
        r == clash_ssr_cipher(s@),
{
    is_text(s, "aes-128-cfb")
        || is_text(s, "aes-192-cfb")
        || is_text(s, "aes-256-cfb")
        || is_text(s, "aes-128-ctr")
        || is_text(s, "aes-192-ctr")
        || is_text(s, "aes-256-ctr")
        || is_text(s, "aes-128-ofb")
        || is_text(s, "aes-192-ofb")
        || is_text(s, "aes-256-ofb")
        || is_text(s, "des-cfb")
        || is_text(s, "bf-cfb")
        || is_text(s, "cast5-cfb")
        || is_text(s, "rc4-md5")
        || is_text(s, "chacha20")
        || is_text(s, "chacha20-ietf")
        || is_text(s, "salsa20")
        || is_text(s, "camellia-128-cfb")
        || is_text(s, "camellia-192-cfb")
        || is_text(s, "camellia-256-cfb")
        || is_text(s, "idea-cfb")
        || is_text(s, "rc2-cfb")
        || is_text(s, "seed-cfb")
}

pub fn is_clashr_protocol(s: &Vec<char>) -> (r: bool)
    ensures
        r == clashr_protocol(s@),
{
    is_text(s, "origin")
        || is_text(s, "auth_sha1_v4")
        || is_text(s, "auth_aes128_md5")
        || is_text(s, "auth_aes128_sha1")
        || is_text(s, "auth_chain_a")
        || is_text(s, "auth_chain_b")
}

pub fn is_clashr_obfs(s: &Vec<char>) -> (r: bool)
    ensures
        r == clashr_obfs(s@),
{
    is_text(s, "plain")
        || is_text(s, "http_simple")
        || is_text(s, "http_post")
        || is_text(s, "random_head")
        || is_text(s, "tls1.2_ticket_auth")
        || is_text(s, "tls1.2_ticket_fastauth")
}

} // verus!
