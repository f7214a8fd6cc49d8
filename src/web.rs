//! The pure parts of the HTTP front-end: authorization, profile lookup and
//! the ruleset endpoint's output formats.
use vstd::prelude::*;
use vstd::string::StringExecFns;
use vstd::utf8::encode_utf8;
use crate::remark::names_of;
use crate::text::{
    begins_with, chars_of, field_end, find_field_end, first_field, first_field_of, is_text, lines,
    push_chars, push_text, slice_chars, split_lines, starts_with, string_of, trim, trim_chars,
};

verus! {

/// The query of the profile endpoint.
#[derive(Clone, Debug)]
pub struct ProfileQuery {
    pub name: String,
    pub token: Option<String>,
}

/// The query of the ruleset endpoint: the output format, the source's
/// URL-safe base64, and optionally the group's.
#[derive(Clone, Debug)]
pub struct RulesetQuery {
    pub rule_type: i32,
    pub url: String,
    pub group: Option<String>,
}

/// Whether a request carrying `token` may use the protected endpoints:
/// always where no access token is configured, else when it matches.
pub fn is_api_authorized(token: Option<&str>, api_access_token: &str) -> (r: bool)
    ensures
        r == (api_access_token@.len() == 0 || match token {
            Some(t) => t@ == api_access_token@,
            None => api_access_token@.len() == 0,
        }),
{
    if api_access_token.is_empty() {
        return true;
    }
    let want = chars_of(api_access_token);
    match token {
        Some(t) => {
            let got = chars_of(t);
            crate::text::same_chars(&got, &want)
        },
        None => false,
    }
}

/// The rule lines among `ls`: trimmed, without blank lines and comments.
pub open spec fn rule_lines(ls: Seq<Seq<char>>) -> Seq<Seq<char>>
    decreases ls.len(),
{
    if ls.len() == 0 {
        seq![]
    } else {
        let before = rule_lines(ls.drop_last());
        let t = trim(ls.last());
        if t.len() == 0 || crate::script::is_comment(t) {
            before
        } else {
            before.push(t)
        }
    }
}

/// The rules of `content`, one per line, trimmed, without blank lines and
/// comments (`#`, `;` or `//`).
pub fn normalize_rules_lines(content: &str) -> (r: Vec<String>)
    ensures
        names_of(r@) == rule_lines(lines(content@)),
{
    let c = chars_of(content);
    let ls = split_lines(&c);
    let ghost all = lines(c@);
    let mut r: Vec<String> = Vec::new();
    let mut i: usize = 0;
    assert(all.take(0) =~= seq![]);
    assert(names_of(r@) =~= seq![]);
    while i < ls.len()
        invariant
            i <= ls@.len() == all.len(),
            all == lines(content@),
            forall|k: int| 0 <= k < ls@.len() ==> #[trigger] ls@[k]@ == all[k],
            names_of(r@) == rule_lines(all.take(i as int)),
        decreases ls@.len() - i,
    {
        assert(all.take(i + 1).drop_last() =~= all.take(i as int));
        assert(all.take(i + 1).last() == ls@[i as int]@);
        let line = &ls[i];
        let t = trim_chars(line, 0, line.len());
        assert(line@.subrange(0, line@.len() as int) =~= line@);
        if !(t.len() == 0 || begins_with(&t, "#") || begins_with(&t, ";") || begins_with(&t, "//")) {
            let ghost before = names_of(r@);
            r.push(string_of(t.as_slice()));
            assert(names_of(r@) =~= before.push(t@));
        }
        i += 1;
    }
    assert(all.take(i as int) =~= all);
    r
}

/// The rule type and value of a `TYPE,VALUE[,...]` line, each trimmed; `None`
/// where the line has no comma.
pub fn extract_rule_value(line: &str) -> (r: Option<(String, String)>)
    ensures
        match r {
            None => field_end(line@, 0) == line@.len(),
            Some((t, v)) => field_end(line@, 0) < line@.len() && t@ == first_field(line@) && v@
                == first_field(line@.skip(field_end(line@, 0) + 1)),
        },
{
    let l = chars_of(line);
    let e = find_field_end(&l, 0);
    if e == l.len() {
        return None;
    }
    let t = first_field_of(&l);
    let rest = slice_chars(&l, e + 1, l.len());
    assert(rest@ =~= l@.skip(e + 1));
    let v = first_field_of(&rest);
    Some((string_of(t.as_slice()), string_of(v.as_slice())))
}

/// `s` with each `'` doubled, as in a single-quoted YAML scalar.
pub open spec fn quote_escaped(s: Seq<char>) -> Seq<char>
    decreases s.len(),
{
    if s.len() == 0 {
        seq![]
    } else if s.last() == '\'' {
        quote_escaped(s.drop_last()) + seq!['\'', '\'']
    } else {
        quote_escaped(s.drop_last()).push(s.last())
    }
}

/// The payload's items, one `  - '<line>'` per line, separated by newlines.
pub open spec fn payload_items(ls: Seq<Seq<char>>) -> Seq<char>
    decreases ls.len(),
{
    if ls.len() == 0 {
        seq![]
    } else {
        let item = "  - '"@ + quote_escaped(ls.last()) + "'"@;
        if ls.len() == 1 {
            item
        } else {
            payload_items(ls.drop_last()) + "\n"@ + item
        }
    }
}

fn push_escaped(out: &mut Vec<char>, s: &Vec<char>)
    ensures
        final(out)@ == old(out)@ + quote_escaped(s@),
{
    let ghost start = out@;
    let mut i: usize = 0;
    assert(s@.take(0) =~= seq![]);
    while i < s.len()
        invariant
            i <= s@.len(),
            out@ == start + quote_escaped(s@.take(i as int)),
        decreases s@.len() - i,
    {
        assert(s@.take(i + 1).drop_last() =~= s@.take(i as int));
        if s[i] == '\'' {
            out.push('\'');
            out.push('\'');
        } else {
            out.push(s[i]);
        }
        assert(out@ =~= start + quote_escaped(s@.take(i + 1)));
        i += 1;
    }
    assert(s@.take(i as int) =~= s@);
}

/// A Clash rule-provider payload listing `lines`.
pub fn build_clash_payload(lines: &Vec<String>) -> (r: String)
    ensures
        r@ == "payload:\n"@ + payload_items(names_of(lines@)) + "\n"@,
{
    let ghost ls = names_of(lines@);
    let mut out = chars_of("payload:\n");
    let ghost start = out@;
    let mut i: usize = 0;
    assert(ls.take(0) =~= seq![]);
    while i < lines.len()
        invariant
            i <= lines@.len(),
            ls == names_of(lines@),
            out@ == start + payload_items(ls.take(i as int)),
            start == "payload:\n"@,
        decreases lines@.len() - i,
    {
        assert(ls.take(i + 1).drop_last() =~= ls.take(i as int));
        if i > 0 {
            push_text(&mut out, "\n");
        }
        push_text(&mut out, "  - '");
        let l = chars_of(lines[i].as_str());
        push_escaped(&mut out, &l);
        push_text(&mut out, "'");
        assert(out@ =~= start + payload_items(ls.take(i + 1)));
        i += 1;
    }
    assert(ls.take(i as int) =~= ls);
    push_text(&mut out, "\n");
    string_of(out.as_slice())
}

/// The lines joined by newlines.
pub open spec fn joined(ls: Seq<Seq<char>>) -> Seq<char>
    decreases ls.len(),
{
    if ls.len() == 0 {
        seq![]
    } else if ls.len() == 1 {
        ls[0]
    } else {
        joined(ls.drop_last()) + "\n"@ + ls.last()
    }
}

/// The lines joined by newlines, then one final newline (a lone newline
/// where there are no lines).
pub open spec fn joined_lines(ls: Seq<Seq<char>>) -> Seq<char> {
    joined(ls) + "\n"@
}

/// The `n`-th comma-separated field of `l`, untrimmed, if it has one.
pub open spec fn raw_field(l: Seq<char>, n: nat) -> Option<Seq<char>>
    decreases n,
{
    let e = field_end(l, 0);
    if n == 0 {
        Some(l.take(e))
    } else if e >= l.len() {
        None
    } else {
        raw_field(l.skip(e + 1), (n - 1) as nat)
    }
}

/// A rule in common form routed to `group`: `TYPE,VALUE,<group>`, keeping
/// a third field only where it is `no-resolve`; a rule of one field becomes
/// `TYPE,<group>`.
pub open spec fn common_rule(l: Seq<char>, group: Seq<char>) -> Seq<char> {
    match raw_field(l, 1) {
        None => l + ","@ + group,
        Some(v) => {
            let head = raw_field(l, 0)->0 + ","@ + v + ","@ + group;
            if raw_field(l, 2) == Some("no-resolve"@) {
                head + ",no-resolve"@
            } else {
                head
            }
        },
    }
}

/// The type and value of a rule line, as `extract_rule_value` reads them.
pub open spec fn rule_type_value(l: Seq<char>) -> Option<(Seq<char>, Seq<char>)> {
    if field_end(l, 0) < l.len() {
        Some((first_field(l), first_field(l.skip(field_end(l, 0) + 1))))
    } else {
        None
    }
}

/// The domain payload item of a rule line, if it is a domain rule.
pub open spec fn domain_item(l: Seq<char>) -> Option<Seq<char>> {
    match rule_type_value(l) {
        Some((t, v)) => if t == "DOMAIN"@ {
            Some(v)
        } else if t == "DOMAIN-SUFFIX"@ {
            Some("+."@ + v)
        } else if t == "DOMAIN-KEYWORD"@ {
            Some("*"@ + v + "*"@)
        } else {
            None
        },
        None => None,
    }
}

/// The IP payload item of a rule line, if it is an IP-CIDR rule.
pub open spec fn ip_item(l: Seq<char>) -> Option<Seq<char>> {
    match rule_type_value(l) {
        Some((t, v)) => if t == "IP-CIDR"@ || t == "IP-CIDR6"@ {
            Some(v)
        } else {
            None
        },
        None => None,
    }
}

/// The items of the lines that have one, in order (`ip` picks the IP items,
/// else the domain items).
pub open spec fn items(ls: Seq<Seq<char>>, ip: bool) -> Seq<Seq<char>>
    decreases ls.len(),
{
    if ls.len() == 0 {
        seq![]
    } else {
        let before = items(ls.drop_last(), ip);
        let it = if ip {
            ip_item(ls.last())
        } else {
            domain_item(ls.last())
        };
        match it {
            Some(x) => before.push(x),
            None => before,
        }
    }
}

/// The body the ruleset endpoint serves for the format code `rule_type`.
pub open spec fn ruleset_body(rule_type: i32, ls: Seq<Seq<char>>, group: Seq<char>) -> Option<
    Seq<char>,
> {
    if rule_type == 1 {
        Some(joined_lines(ls))
    } else if rule_type == 2 {
        Some(joined_lines(Seq::new(ls.len(), |i: int| common_rule(ls[i], group))))
    } else if rule_type == 3 {
        Some("payload:\n"@ + payload_items(items(ls, false)) + "\n"@)
    } else if rule_type == 4 {
        Some("payload:\n"@ + payload_items(items(ls, true)) + "\n"@)
    } else if rule_type == 6 {
        Some("payload:\n"@ + payload_items(ls) + "\n"@)
    } else {
        None
    }
}

fn raw_field_of(l: &Vec<char>, n: usize) -> (r: Option<Vec<char>>)
    ensures
        match r {
            Some(f) => raw_field(l@, n as nat) == Some(f@),
            None => raw_field(l@, n as nat) is None,
        },
    decreases n,
{
    let e = find_field_end(l, 0);
    if n == 0 {
        return Some(slice_chars(l, 0, e));
    }
    if e >= l.len() {
        return None;
    }
    let rest = slice_chars(l, e + 1, l.len());
    assert(rest@ =~= l@.skip(e + 1));
    raw_field_of(&rest, n - 1)
}

/// A rule line in common form, routed to `group`.
pub fn transform_rule_to_common(line: &str, group: &str) -> (r: String)
    ensures
        r@ == common_rule(line@, group@),
{
    let l = chars_of(line);
    match raw_field_of(&l, 1) {
        None => {
            let mut s = String::from_str(line);
            s.append(",");
            s.append(group);
            s
        },
        Some(v) => {
            let mut out = raw_field_of(&l, 0).unwrap();
            push_text(&mut out, ",");
            push_chars(&mut out, &v);
            push_text(&mut out, ",");
            let g = chars_of(group);
            push_chars(&mut out, &g);
            match raw_field_of(&l, 2) {
                Some(x) => {
                    if is_text(&x, "no-resolve") {
                        push_text(&mut out, ",no-resolve");
                    }
                },
                None => {},
            }
            string_of(out.as_slice())
        },
    }
}

fn item_of(line: &String, ip: bool) -> (r: Option<String>)
    ensures
        match r {
            Some(x) => (if ip {
                ip_item(line@)
            } else {
                domain_item(line@)
            }) == Some(x@),
            None => (if ip {
                ip_item(line@)
            } else {
                domain_item(line@)
            }) is None,
        },
{
    match extract_rule_value(line.as_str()) {
        None => None,
        Some((t, v)) => {
            let tc = chars_of(t.as_str());
            if ip {
                if is_text(&tc, "IP-CIDR") || is_text(&tc, "IP-CIDR6") {
                    Some(v)
                } else {
                    None
                }
            } else if is_text(&tc, "DOMAIN") {
                Some(v)
            } else if is_text(&tc, "DOMAIN-SUFFIX") {
                let mut s = String::from_str("+.");
                s.append(v.as_str());
                Some(s)
            } else if is_text(&tc, "DOMAIN-KEYWORD") {
                let mut s = String::from_str("*");
                s.append(v.as_str());
                s.append("*");
                Some(s)
            } else {
                None
            }
        },
    }
}

fn collect_items(ls: &Vec<String>, ip: bool) -> (r: Vec<String>)
    ensures
        names_of(r@) == items(names_of(ls@), ip),
{
    let ghost all = names_of(ls@);
    let mut r: Vec<String> = Vec::new();
    let mut i: usize = 0;
    assert(all.take(0) =~= seq![]);
    assert(names_of(r@) =~= seq![]);
    while i < ls.len()
        invariant
            i <= ls@.len(),
            all == names_of(ls@),
            names_of(r@) == items(all.take(i as int), ip),
        decreases ls@.len() - i,
    {
        assert(all.take(i + 1).drop_last() =~= all.take(i as int));
        assert(all.take(i + 1).last() == ls@[i as int]@);
        match item_of(&ls[i], ip) {
            Some(x) => {
                let ghost before = names_of(r@);
                r.push(x);
                assert(names_of(r@) =~= before.push(r@.last()@));
            },
            None => {},
        }
        i += 1;
    }
    assert(all.take(i as int) =~= all);
    r
}

fn join_lines(ls: &Vec<String>) -> (r: String)
    ensures
        r@ == joined_lines(names_of(ls@)),
{
    let ghost all = names_of(ls@);
    let mut out: Vec<char> = Vec::new();
    let mut i: usize = 0;
    assert(all.take(0) =~= seq![]);
    while i < ls.len()
        invariant
            i <= ls@.len(),
            all == names_of(ls@),
            out@ == joined(all.take(i as int)),
        decreases ls@.len() - i,
    {
        assert(all.take(i + 1).drop_last() =~= all.take(i as int));
        if i > 0 {
            push_text(&mut out, "\n");
        }
        let l = chars_of(ls[i].as_str());
        push_chars(&mut out, &l);
        assert(out@ =~= joined(all.take(i + 1)));
        i += 1;
    }
    assert(all.take(i as int) =~= all);
    push_text(&mut out, "\n");
    string_of(out.as_slice())
}

/// The body the ruleset endpoint serves: for format 1 the rule lines, for 2
/// the lines in common form routed to `group`, for 3 a payload of domains
/// (`+.` for suffixes, `*...*` for keywords), for 4 one of IP-CIDR values,
/// for 6 one of the lines themselves; any other format is refused.
pub fn ruleset_output(rule_type: i32, surge_lines: &Vec<String>, group: &str) -> (r: Result<
    String,
    String,
>)
    ensures
        match r {
            Ok(body) => ruleset_body(rule_type, names_of(surge_lines@), group@) == Some(body@),
            Err(e) => ruleset_body(rule_type, names_of(surge_lines@), group@) is None && e@
                == "unsupported ruleset type"@,
        },
{
    if rule_type == 1 {
        Ok(join_lines(surge_lines))
    } else if rule_type == 2 {
        let mut t: Vec<String> = Vec::new();
        let mut i: usize = 0;
        while i < surge_lines.len()
            invariant
                i <= surge_lines@.len(),
                t@.len() == i,
                forall|k: int|
                    0 <= k < i ==> #[trigger] t@[k]@ == common_rule(surge_lines@[k]@, group@),
            decreases surge_lines@.len() - i,
        {
            t.push(transform_rule_to_common(surge_lines[i].as_str(), group));
            i += 1;
        }
        let r = join_lines(&t);
        assert(names_of(t@) =~= Seq::new(
            names_of(surge_lines@).len(),
            |i: int| common_rule(names_of(surge_lines@)[i], group@),
        ));
        Ok(r)
    } else if rule_type == 3 {
        Ok(build_clash_payload(&collect_items(surge_lines, false)))
    } else if rule_type == 4 {
        Ok(build_clash_payload(&collect_items(surge_lines, true)))
    } else if rule_type == 6 {
        Ok(build_clash_payload(surge_lines))
    } else {
        Err(String::from_str("unsupported ruleset type"))
    }
}

/// Whether `t` names an output target the converter serves.
pub open spec fn is_target(t: Seq<char>) -> bool {
    t == "clash"@ || t == "clashr"@ || t == "surge"@ || t == "quan"@ || t == "quanx"@ || t
        == "loon"@ || t == "ss"@ || t == "ssr"@ || t == "ssd"@ || t == "v2ray"@ || t == "trojan"@
        || t == "mixed"@ || t == "singbox"@
}

/// Whether `target` names an output target the converter serves.
pub fn is_supported_target(target: &str) -> (r: bool)
    ensures
        r == is_target(target@),
{
    let t = chars_of(target);
    is_text(&t, "clash") || is_text(&t, "clashr") || is_text(&t, "surge") || is_text(&t, "quan")
        || is_text(&t, "quanx") || is_text(&t, "loon") || is_text(&t, "ss") || is_text(&t, "ssr")
        || is_text(&t, "ssd") || is_text(&t, "v2ray") || is_text(&t, "trojan") || is_text(
        &t,
        "mixed",
    ) || is_text(&t, "singbox")
}

/// The files a profile name may be read from: the name itself, then under
/// `base/` unless it already starts there.
pub fn profile_candidates(profile_name: &str) -> (r: Vec<String>)
    ensures
        names_of(r@) == if starts_with(profile_name@, "base/"@) {
            seq![profile_name@]
        } else {
            seq![profile_name@, "base/"@ + profile_name@]
        },
{
    let mut r: Vec<String> = Vec::new();
    r.push(String::from_str(profile_name));
    let n = chars_of(profile_name);
    if !begins_with(&n, "base/") {
        let mut s = String::from_str("base/");
        s.append(profile_name);
        r.push(s);
    }
    assert(names_of(r@) =~= if starts_with(profile_name@, "base/"@) {
        seq![profile_name@]
    } else {
        seq![profile_name@, "base/"@ + profile_name@]
    });
    r
}

/// The uppercase hex digit for `v < 16`.
pub open spec fn hex_digit(v: int) -> char {
    "0123456789ABCDEF"@[v]
}

/// Whether a byte is left as it is by percent-encoding: an ASCII letter or
/// digit, or one of `-`, `.`, `_`, `~`.
pub open spec fn unreserved(b: u8) -> bool {
    (48 <= b <= 57) || (65 <= b <= 90) || (97 <= b <= 122) || b == 45 || b == 46 || b == 95
        || b == 126
}

/// The percent-encoding of bytes: unreserved bytes as themselves, every
/// other byte as `%` and two uppercase hex digits.
pub open spec fn percent_bytes(bs: Seq<u8>) -> Seq<char>
    decreases bs.len(),
{
    if bs.len() == 0 {
        seq![]
    } else {
        let b = bs.last();
        percent_bytes(bs.drop_last()) + if unreserved(b) {
            seq![b as char]
        } else {
            seq!['%', hex_digit(b as int / 16), hex_digit(b as int % 16)]
        }
    }
}

/// The percent-encoding of a text's UTF-8 bytes.
pub open spec fn url_encoded(s: Seq<char>) -> Seq<char> {
    percent_bytes(encode_utf8(s))
}

/// Relies on `urlencoding::encode`: it percent-encodes every byte of the
/// text's UTF-8 except ASCII alphanumerics and `-`, `_`, `.`, `~`, with
/// uppercase hex digits.
#[verifier::external_body]
fn percent_encode(s: &str) -> (r: String)
    ensures
        r@ == url_encoded(s@),
{
    urlencoding::encode(s).into_owned()
}

/// The `key=value` pairs joined by `&`.
pub open spec fn query_text(pairs: Seq<(Seq<char>, Seq<char>)>) -> Seq<char>
    decreases pairs.len(),
{
    if pairs.len() == 0 {
        seq![]
    } else if pairs.len() == 1 {
        pairs[0].0 + "="@ + pairs[0].1
    } else {
        query_text(pairs.drop_last()) + "&"@ + pairs.last().0 + "="@ + pairs.last().1
    }
}

/// The texts held in a list of string pairs.
pub open spec fn pairs_of(v: Seq<(String, String)>) -> Seq<(Seq<char>, Seq<char>)> {
    Seq::new(v.len(), |i: int| (v[i].0@, v[i].1@))
}

/// Joins already encoded pairs into a query string.
pub fn join_query_pairs(pairs: &Vec<(String, String)>) -> (r: String)
    ensures
        r@ == query_text(pairs_of(pairs@)),
{
    let ghost all = pairs_of(pairs@);
    let mut out: Vec<char> = Vec::new();
    let mut i: usize = 0;
    assert(all.take(0) =~= seq![]);
    while i < pairs.len()
        invariant
            i <= pairs@.len(),
            all == pairs_of(pairs@),
            out@ == query_text(all.take(i as int)),
        decreases pairs@.len() - i,
    {
        assert(all.take(i + 1).drop_last() =~= all.take(i as int));
        if i > 0 {
            push_text(&mut out, "&");
        }
        let k = chars_of(pairs[i].0.as_str());
        let v = chars_of(pairs[i].1.as_str());
        push_chars(&mut out, &k);
        push_text(&mut out, "=");
        push_chars(&mut out, &v);
        assert(out@ =~= query_text(all.take(i + 1)));
        i += 1;
    }
    assert(all.take(i as int) =~= all);
    string_of(out.as_slice())
}

/// The query string of a profile's items: each key and value percent-encoded.
pub fn profile_query_string(items: &Vec<(String, String)>) -> (r: String)
    ensures
        r@ == query_text(
            Seq::new(
                items@.len(),
                |i: int| (url_encoded(items@[i].0@), url_encoded(items@[i].1@)),
            ),
        ),
{
    let mut enc: Vec<(String, String)> = Vec::new();
    let mut i: usize = 0;
    while i < items.len()
        invariant
            i <= items@.len(),
            enc@.len() == i,
            forall|k: int|
                0 <= k < i ==> (#[trigger] enc@[k]).0@ == url_encoded(items@[k].0@) && enc@[k].1@
                    == url_encoded(items@[k].1@),
        decreases items@.len() - i,
    {
        let k = percent_encode(items[i].0.as_str());
        let v = percent_encode(items[i].1.as_str());
        enc.push((k, v));
        i += 1;
    }
    let r = join_query_pairs(&enc);
    assert(pairs_of(enc@) =~= Seq::new(
        items@.len(),
        |i: int| (url_encoded(items@[i].0@), url_encoded(items@[i].1@)),
    ));
    r
}

/// The length of the ruleset-type prefix that `s` starts with, or 0.
pub open spec fn type_prefix_len(s: Seq<char>) -> int {
    if starts_with(s, "clash-domain:"@) {
        "clash-domain:"@.len() as int
    } else if starts_with(s, "clash-ipcidr:"@) {
        "clash-ipcidr:"@.len() as int
    } else if starts_with(s, "clash-classic:"@) {
        "clash-classic:"@.len() as int
    } else if starts_with(s, "quanx:"@) {
        "quanx:"@.len() as int
    } else if starts_with(s, "surge:"@) {
        "surge:"@.len() as int
    } else {
        0
    }
}

/// Where a typed ruleset path is fetched from: the path less its type
/// prefix (`clash-domain:`, `clash-ipcidr:`, `clash-classic:`, `quanx:` or
/// `surge:`), if it has one.
pub fn ruleset_source(path: &str) -> (r: String)
    ensures
        r@ == path@.skip(type_prefix_len(path@)),
{
    let p = chars_of(path);
    let n: usize = if begins_with(&p, "clash-domain:") {
        chars_of("clash-domain:").len()
    } else if begins_with(&p, "clash-ipcidr:") {
        chars_of("clash-ipcidr:").len()
    } else if begins_with(&p, "clash-classic:") {
        chars_of("clash-classic:").len()
    } else if begins_with(&p, "quanx:") {
        chars_of("quanx:").len()
    } else if begins_with(&p, "surge:") {
        chars_of("surge:").len()
    } else {
        0
    };
    let r = slice_chars(&p, n, p.len());
    assert(r@ =~= path@.skip(type_prefix_len(path@)));
    string_of(r.as_slice())
}

/// The index of the first `'='` in `l` at or after `from`, or `l`'s length.
pub open spec fn eq_end(l: Seq<char>, from: int) -> int
    decreases l.len() - from,
{
    if from >= l.len() {
        l.len() as int
    } else if l[from] == '=' {
        from
    } else {
        eq_end(l, from + 1)
    }
}

fn find_eq(l: &Vec<char>) -> (r: usize)
    ensures
        r == eq_end(l@, 0),
        r <= l@.len(),
{
    let mut i: usize = 0;
    while i < l.len() && l[i] != '='
        invariant
            i <= l@.len(),
            eq_end(l@, 0) == eq_end(l@, i as int),
        decreases l@.len() - i,
    {
        i += 1;
    }
    i
}

/// Whether a trimmed line opens an INI section: `[name]`.
pub open spec fn is_section_header(t: Seq<char>) -> bool {
    t.len() >= 2 && t[0] == '[' && t.last() == ']'
}

/// Where a scan of an INI profile stands: inside `[Profile]` or not,
/// whether that section was seen, and its `key = value` items so far.
pub struct IniScan {
    pub in_profile: bool,
    pub seen: bool,
    pub items: Seq<(Seq<char>, Seq<char>)>,
}

/// The scan of the lines `ls`: section headers switch the current section;
/// inside `[Profile]`, a line with `=` is an item, split at its first `=`,
/// key and value trimmed; other lines are passed over.
pub open spec fn ini_scan(ls: Seq<Seq<char>>) -> IniScan
    decreases ls.len(),
{
    if ls.len() == 0 {
        IniScan { in_profile: false, seen: false, items: seq![] }
    } else {
        let st = ini_scan(ls.drop_last());
        let t = trim(ls.last());
        if is_section_header(t) {
            let inside = t.subrange(1, t.len() - 1) == "Profile"@;
            IniScan { in_profile: inside, seen: st.seen || inside, ..st }
        } else if st.in_profile && eq_end(t, 0) < t.len() {
            let e = eq_end(t, 0);
            IniScan { items: st.items.push((trim(t.take(e)), trim(t.skip(e + 1)))), ..st }
        } else {
            st
        }
    }
}

/// The `key = value` items of the `[Profile]` section of an INI text, in
/// order; `None` where the text has no such section.
pub fn profile_items(text: &str) -> (r: Option<Vec<(String, String)>>)
    ensures
        match r {
            Some(v) => ini_scan(lines(text@)).seen && pairs_of(v@) == ini_scan(lines(text@)).items,
            None => !ini_scan(lines(text@)).seen,
        },
{
    let c = chars_of(text);
    let ls = split_lines(&c);
    let ghost all = lines(c@);
    let mut in_profile = false;
    let mut seen = false;
    let mut items: Vec<(String, String)> = Vec::new();
    let mut i: usize = 0;
    assert(all.take(0) =~= seq![]);
    assert(pairs_of(items@) =~= seq![]);
    while i < ls.len()
        invariant
            i <= ls@.len() == all.len(),
            all == lines(text@),
            forall|k: int| 0 <= k < ls@.len() ==> #[trigger] ls@[k]@ == all[k],
            ({
                let st = ini_scan(all.take(i as int));
                &&& st.in_profile == in_profile
                &&& st.seen == seen
                &&& st.items == pairs_of(items@)
            }),
        decreases ls@.len() - i,
    {
        assert(all.take(i + 1).drop_last() =~= all.take(i as int));
        assert(all.take(i + 1).last() == ls@[i as int]@);
        let line = &ls[i];
        let t = trim_chars(line, 0, line.len());
        assert(line@.subrange(0, line@.len() as int) =~= line@);
        if t.len() >= 2 && t[0] == '[' && t[t.len() - 1] == ']' {
            let name = slice_chars(&t, 1, t.len() - 1);
            let inside = is_text(&name, "Profile");
            in_profile = inside;
            seen = seen || inside;
        } else if in_profile {
            let e = find_eq(&t);
            if e < t.len() {
                let k = trim_chars(&t, 0, e);
                let v = trim_chars(&t, e + 1, t.len());
                assert(t@.subrange(0, e as int) =~= t@.take(e as int));
                assert(t@.subrange(e + 1, t@.len() as int) =~= t@.skip(e + 1));
                let ghost before = pairs_of(items@);
                items.push((string_of(k.as_slice()), string_of(v.as_slice())));
                assert(pairs_of(items@) =~= before.push((k@, v@)));
            }
        }
        i += 1;
    }
    assert(all.take(i as int) =~= all);
    if seen {
        Some(items)
    } else {
        None
    }
}

} // verus!
