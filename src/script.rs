//! Rule providers and the routing script of Clash's script mode.
use vstd::prelude::*;
use vstd::utf8::encode_utf8;
use crate::codec::{b64url, url_safe_base64_encode};
use crate::model::RulesetContent;
use crate::remark::names_of;
use crate::text::{
    begins_with, chars_of, first_field, first_field_of, find_field_end, is_text, lines,
    push_chars, push_text, slice_chars, split_lines, starts_with, string_of, trim, trim_chars,
};
use crate::yaml::{
    dict_insert, first_key, is_inserted, is_int_node, is_text_entry, is_text_node, no_key,
    text_node, Yaml,
};

verus! {

/// How a rule provider's list is read by the client.
#[derive(Clone, Copy, Debug, PartialEq, Eq, Structural)]
pub enum Behavior {
    Classical,
    Domain,
    Ipcidr,
}

pub open spec fn behavior_text(b: Behavior) -> Seq<char> {
    match b {
        Behavior::Classical => "classical"@,
        Behavior::Domain => "domain"@,
        Behavior::Ipcidr => "ipcidr"@,
    }
}

/// The `type` code of the ruleset endpoint that serves a provider of this behavior.
pub open spec fn request_code(b: Behavior) -> Seq<char> {
    match b {
        Behavior::Classical => "6"@,
        Behavior::Domain => "3"@,
        Behavior::Ipcidr => "4"@,
    }
}

/// The words the script logs on a match.
pub open spec fn behavior_label(b: Behavior) -> Seq<char> {
    match b {
        Behavior::Classical => "rule"@,
        Behavior::Domain => "DOMAIN rule"@,
        Behavior::Ipcidr => "IP rule"@,
    }
}

/// One rule provider to emit.
pub struct ProviderModel {
    pub name: Seq<char>,
    pub behavior: Behavior,
    pub group: Seq<char>,
    pub typed_path: Seq<char>,
    pub interval: u32,
}

/// What the rulesets seen so far have produced.
pub struct ScriptModel {
    /// Providers in emission order.
    pub providers: Seq<ProviderModel>,
    /// The script's match blocks, in ruleset order.
    pub blocks: Seq<char>,
    /// `(country code, group)` pairs of the GeoIP table.
    pub geoips: Seq<(Seq<char>, Seq<char>)>,
    /// The group that takes what nothing else matched.
    pub final_group: Seq<char>,
}

pub open spec fn is_comment(l: Seq<char>) -> bool {
    starts_with(l, "#"@) || starts_with(l, ";"@) || starts_with(l, "//"@)
}

/// The rule type of a line: `None` for blank lines and comments.
pub open spec fn line_rule_type(l: Seq<char>) -> Option<Seq<char>> {
    let t = trim(l);
    if t.len() == 0 || is_comment(t) {
        None
    } else {
        Some(first_field(t))
    }
}

pub open spec fn is_domain_type(t: Seq<char>) -> bool {
    t == "DOMAIN"@ || t == "DOMAIN-SUFFIX"@ || t == "DOMAIN-KEYWORD"@
}

/// Whether some rule of `c` matches on domains.
pub open spec fn has_domain(c: Seq<char>) -> bool {
    exists|i: int|
        0 <= i < lines(c).len() && #[trigger] line_rule_type(lines(c)[i]) is Some
            && is_domain_type(line_rule_type(lines(c)[i])->0)
}

/// Whether some rule of `c` matches on IP-CIDR.
pub open spec fn has_ipcidr(c: Seq<char>) -> bool {
    exists|i: int|
        0 <= i < lines(c).len() && #[trigger] line_rule_type(lines(c)[i]) == Some("IP-CIDR"@)
}

/// Where the last path segment of `p[..i]` starts.
pub open spec fn segment_start(p: Seq<char>, i: int) -> int
    decreases i,
{
    if i <= 0 {
        0
    } else if p[i - 1] == '/' {
        i
    } else {
        segment_start(p, i - 1)
    }
}

pub open spec fn ends_with(s: Seq<char>, x: Seq<char>) -> bool {
    x.len() <= s.len() && s.skip(s.len() - x.len()) == x
}

/// The provider base name of a ruleset path: its last segment, less a `.list` suffix.
pub open spec fn base_name(p: Seq<char>) -> Seq<char> {
    let seg = p.skip(segment_start(p, p.len() as int));
    if ends_with(seg, ".list"@) {
        seg.take(seg.len() - 5)
    } else {
        seg
    }
}

/// Base names whose rulesets are always served as classical.
pub open spec fn forced_classical(base: Seq<char>) -> bool {
    base == "MOO"@ || base == "Download"@
}

/// The country code of an inline `GEOIP,<code>[,...]` directive.
pub open spec fn geoip_code(inline: Seq<char>) -> Seq<char> {
    first_field(inline.skip(6))
}

/// The script lines that route what provider `name` matches to `group`.
pub open spec fn block_text(name: Seq<char>, group: Seq<char>, b: Behavior) -> Seq<char> {
    "  if ctx.rule_providers[\""@ + name + "\"].match(md):\n    ctx.log('[Script] matched "@
        + group + " "@ + behavior_label(b) + "')\n    return \""@ + group + "\"\n\n"@
}

pub open spec fn match_block(p: ProviderModel) -> Seq<char> {
    block_text(p.name, p.group, p.behavior)
}

/// What one ruleset adds to the model; `conv` is its text converted to
/// Surge-style rule lines.
pub open spec fn ruleset_step(
    m: ScriptModel,
    r: RulesetContent,
    conv: Seq<char>,
    default_interval: u32,
) -> ScriptModel {
    let c = r.rule_content@;
    if c.len() == 0 {
        m
    } else if starts_with(c, "[]"@) {
        let inline = trim(c.skip(2));
        if starts_with(inline, "GEOIP,"@) {
            ScriptModel { geoips: m.geoips.push((geoip_code(inline), r.group@)), ..m }
        } else if inline == "FINAL"@ || inline == "MATCH"@ {
            ScriptModel { final_group: r.group@, ..m }
        } else {
            m
        }
    } else if trim(conv).len() == 0 {
        m
    } else {
        let base = base_name(r.rule_path@);
        let interval = if r.update_interval > 0 {
            r.update_interval
        } else {
            default_interval
        };
        let mk = |name: Seq<char>, b: Behavior|
            ProviderModel {
                name,
                behavior: b,
                group: r.group@,
                typed_path: r.rule_path_typed@,
                interval,
            };
        if forced_classical(base) || (!has_domain(conv) && !has_ipcidr(conv)) {
            let p = mk(base, Behavior::Classical);
            ScriptModel { providers: m.providers.push(p), blocks: m.blocks + match_block(p), ..m }
        } else {
            let d = mk(base + "_domain"@, Behavior::Domain);
            let ip = mk(base + "_ipcidr"@, Behavior::Ipcidr);
            let with_ip = has_ipcidr(conv) && base != "Apple"@;
            let ps1 = if has_domain(conv) {
                m.providers.push(d)
            } else {
                m.providers
            };
            let ps2 = if with_ip {
                ps1.push(ip)
            } else {
                ps1
            };
            let b1 = if has_domain(conv) {
                match_block(d)
            } else {
                "\n\n"@
            };
            let b2 = if with_ip {
                match_block(ip)
            } else {
                "\n\n"@
            };
            ScriptModel { providers: ps2, blocks: m.blocks + b1 + b2, ..m }
        }
    }
}

/// The model of a list of rulesets, taken in order, with `cs` their texts
/// converted to Surge-style rule lines.
pub open spec fn script_model(
    rs: Seq<RulesetContent>,
    cs: Seq<Seq<char>>,
    default_interval: u32,
) -> ScriptModel
    decreases rs.len(),
{
    if rs.len() == 0 {
        ScriptModel {
            providers: seq![],
            blocks: seq![],
            geoips: seq![],
            final_group: "DIRECT"@,
        }
    } else {
        ruleset_step(
            script_model(rs.drop_last(), cs.drop_last(), default_interval),
            rs.last(),
            cs.last(),
            default_interval,
        )
    }
}

pub open spec fn geoip_entry(g: (Seq<char>, Seq<char>)) -> Seq<char> {
    "\""@ + g.0 + "\": \""@ + g.1 + "\""@
}

/// The GeoIP table's entries, separated by `", "`.
pub open spec fn geoip_entries(gs: Seq<(Seq<char>, Seq<char>)>) -> Seq<char>
    decreases gs.len(),
{
    if gs.len() == 0 {
        seq![]
    } else if gs.len() == 1 {
        geoip_entry(gs[0])
    } else {
        geoip_entries(gs.drop_last()) + ", "@ + geoip_entry(gs.last())
    }
}

pub open spec fn geoip_line(gs: Seq<(Seq<char>, Seq<char>)>) -> Seq<char> {
    if gs.len() == 0 {
        "  geoips = {"@ + "}\n"@
    } else {
        "  geoips = {"@ + " "@ + geoip_entries(gs) + " "@ + "}\n"@
    }
}

pub open spec fn script_header() -> Seq<char> {
    "def main(ctx, md):\n  host = md[\"host\"]\n\n"@
}

pub open spec fn script_tail(final_group: Seq<char>) -> Seq<char> {
    "  ip = md[\"dst_ip\"]\n  if ip == \"\":\n    ip = ctx.resolve_ip(host)\n    if ip == \"\":\n      ctx.log('[Script] dns lookup error use "@
        + final_group + "')\n      return \""@ + final_group
        + "\"\n  for key in geoips:\n    if ctx.geoip(ip) == key:\n      return geoips[key]\n  return \""@
        + final_group + "\""@
}

/// The whole script for a model.
pub open spec fn script_text(m: ScriptModel) -> Seq<char> {
    script_header() + m.blocks + "\n"@ + geoip_line(m.geoips) + script_tail(m.final_group)
}

/// The URL from which the client fetches a provider's list.
pub open spec fn provider_url(p: ProviderModel, prefix: Seq<char>) -> Seq<char> {
    prefix + "/getruleset?type="@ + request_code(p.behavior) + "&url="@ + b64url(
        encode_utf8(p.typed_path),
    )
}

/// Whether `y` is the `rule-providers` entry of `p`.
#[verifier::opaque]
pub open spec fn is_provider_entry(y: Yaml, p: ProviderModel, prefix: Seq<char>) -> bool {
    match y {
        Yaml::Dict(e) => {
            &&& e.len() == 5
            &&& is_text_entry(e[0], "type"@, "http"@)
            &&& is_text_entry(e[1], "behavior"@, behavior_text(p.behavior))
            &&& is_text_entry(e[2], "url"@, provider_url(p, prefix))
            &&& is_text_entry(e[3], "path"@, "./providers/rule-provider_"@ + p.name + ".yaml"@)
            &&& is_text_node(e[4].0, "interval"@)
            &&& is_int_node(e[4].1, p.interval as int)
        },
        _ => false,
    }
}

/// `i` is the first entry of `m` under `k`.
pub open spec fn first_name(m: Seq<ProviderModel>, k: Seq<char>, i: int) -> bool {
    &&& 0 <= i < m.len()
    &&& m[i].name == k
    &&& forall|j: int| 0 <= j < i ==> (#[trigger] m[j]).name != k
}

/// `m` with `p` put under its name: in place of an earlier provider of that
/// name, else at the end.
pub open spec fn put(m: Seq<ProviderModel>, p: ProviderModel) -> Seq<ProviderModel> {
    if exists|i: int| first_name(m, p.name, i) {
        m.update(choose|i: int| first_name(m, p.name, i), p)
    } else {
        m.push(p)
    }
}

/// The `rule-providers` mapping of a list of providers, by name.
pub open spec fn provider_map(ps: Seq<ProviderModel>) -> Seq<ProviderModel>
    decreases ps.len(),
{
    if ps.len() == 0 {
        seq![]
    } else {
        put(provider_map(ps.drop_last()), ps.last())
    }
}

/// Whether the mapping's entries are those of `m`, in order.
pub open spec fn map_holds(e: Seq<(Yaml, Yaml)>, m: Seq<ProviderModel>, prefix: Seq<char>) -> bool {
    &&& e.len() == m.len()
    &&& forall|i: int|
        0 <= i < e.len() ==> is_text_node(#[trigger] e[i].0, m[i].name) && is_provider_entry(
            e[i].1,
            m[i],
            prefix,
        )
}

proof fn lemma_first_name_exists(m: Seq<ProviderModel>, k: Seq<char>, j: int)
    requires
        0 <= j < m.len(),
        m[j].name == k,
    ensures
        exists|i: int| first_name(m, k, i),
    decreases j,
{
    if exists|l: int| 0 <= l < j && (#[trigger] m[l]).name == k {
        let l = choose|l: int| 0 <= l < j && (#[trigger] m[l]).name == k;
        lemma_first_name_exists(m, k, l);
    } else {
        assert(first_name(m, k, j));
    }
}

proof fn lemma_put_holds(
    e: Seq<(Yaml, Yaml)>,
    e2: Seq<(Yaml, Yaml)>,
    m: Seq<ProviderModel>,
    p: ProviderModel,
    y: Yaml,
    prefix: Seq<char>,
)
    requires
        map_holds(e, m, prefix),
        is_inserted(e, e2, p.name, y),
        is_provider_entry(y, p, prefix),
    ensures
        map_holds(e2, put(m, p), prefix),
{
    assert forall|j: int| 0 <= j < e.len() implies is_text_node(#[trigger] e[j].0, p.name) == (
    m[j].name == p.name) by {
        assert(is_text_node(e[j].0, m[j].name));
    }
    if exists|i: int| first_name(m, p.name, i) {
        let i = choose|i: int| first_name(m, p.name, i);
        assert(first_key(e, p.name, i));
        assert(put(m, p) == m.update(i, p));
    } else {
        assert(no_key(e, p.name)) by {
            assert forall|j: int| 0 <= j < e.len() implies !is_text_node(
                #[trigger] e[j].0,
                p.name,
            ) by {
                if is_text_node(e[j].0, p.name) {
                    lemma_first_name_exists(m, p.name, j);
                }
            }
        }
        assert forall|i: int| 0 <= i < e2.len() implies is_text_node(
            #[trigger] e2[i].0,
            put(m, p)[i].name,
        ) && is_provider_entry(e2[i].1, put(m, p)[i], prefix) by {
            if i < e.len() {
                assert(e2[i] == e2.take(e.len() as int)[i]);
            }
        }
    }
}

/// The `(code, group)` pairs held in `v`.
pub open spec fn pairs_view(v: Seq<(Vec<char>, Vec<char>)>) -> Seq<(Seq<char>, Seq<char>)> {
    Seq::new(v.len(), |j: int| (v[j].0@, v[j].1@))
}

/// Whether `y` is the `rule-providers` mapping of `m`.
pub open spec fn providers_yaml(y: Yaml, m: Seq<ProviderModel>, prefix: Seq<char>) -> bool {
    match y {
        Yaml::Dict(e) => map_holds(e@, m, prefix),
        _ => false,
    }
}

/// The rule type of a line, `None` for blank lines and comments.
fn rule_type_of(l: &Vec<char>) -> (r: Option<Vec<char>>)
    ensures
        match r {
            None => line_rule_type(l@) is None,
            Some(f) => line_rule_type(l@) == Some(f@),
        },
{
    let t = trim_chars(l, 0, l.len());
    assert(l@.subrange(0, l@.len() as int) =~= l@);
    if t.len() == 0 || begins_with(&t, "#") || begins_with(&t, ";") || begins_with(&t, "//") {
        return None;
    }
    Some(first_field_of(&t))
}

/// Whether the rules of `c` hold domain rules, and whether they hold IP-CIDR rules.
pub fn rule_flags(c: &Vec<char>) -> (r: (bool, bool))
    ensures
        r.0 == has_domain(c@),
        r.1 == has_ipcidr(c@),
{
    let ls = split_lines(c);
    let ghost all = lines(c@);
    let mut hd = false;
    let mut hi = false;
    let mut j: usize = 0;
    while j < ls.len()
        invariant
            j <= ls@.len() == all.len(),
            all == lines(c@),
            forall|k: int| 0 <= k < ls@.len() ==> #[trigger] ls@[k]@ == all[k],
            hd == exists|i: int|
                0 <= i < j && #[trigger] line_rule_type(all[i]) is Some && is_domain_type(
                    line_rule_type(all[i])->0,
                ),
            hi == exists|i: int| 0 <= i < j && #[trigger] line_rule_type(all[i]) == Some("IP-CIDR"@),
        decreases ls@.len() - j,
    {
        assert(ls@[j as int]@ == all[j as int]);
        match rule_type_of(&ls[j]) {
            Some(f) => {
                if is_text(&f, "DOMAIN") || is_text(&f, "DOMAIN-SUFFIX") || is_text(
                    &f,
                    "DOMAIN-KEYWORD",
                ) {
                    hd = true;
                }
                if is_text(&f, "IP-CIDR") {
                    hi = true;
                }
            },
            None => {},
        }
        j += 1;
    }
    (hd, hi)
}

/// The provider base name of a ruleset path.
pub fn base_name_of(p: &Vec<char>) -> (r: Vec<char>)
    ensures
        r@ == base_name(p@),
{
    let mut start: usize = 0;
    let mut i: usize = 0;
    while i < p.len()
        invariant
            i <= p.len(),
            start == segment_start(p@, i as int),
            start <= i,
        decreases p.len() - i,
    {
        if p[i] == '/' {
            start = i + 1;
        }
        i += 1;
    }
    let seg = slice_chars(p, start, p.len());
    assert(seg@ =~= p@.skip(segment_start(p@, p@.len() as int)));
    if seg.len() >= 5 {
        let tail = slice_chars(&seg, seg.len() - 5, seg.len());
        assert(tail@ =~= seg@.skip(seg@.len() - 5));
        if is_text(&tail, ".list") {
            let r = slice_chars(&seg, 0, seg.len() - 5);
            assert(r@ =~= seg@.take(seg@.len() - 5));
            return r;
        }
    }
    proof {
        reveal_strlit(".list");
    }
    seg
}

fn push_label(out: &mut Vec<char>, b: Behavior)
    ensures
        final(out)@ == old(out)@ + behavior_label(b),
{
    match b {
        Behavior::Classical => push_text(out, "rule"),
        Behavior::Domain => push_text(out, "DOMAIN rule"),
        Behavior::Ipcidr => push_text(out, "IP rule"),
    }
}

fn push_code(out: &mut Vec<char>, b: Behavior)
    ensures
        final(out)@ == old(out)@ + request_code(b),
{
    match b {
        Behavior::Classical => push_text(out, "6"),
        Behavior::Domain => push_text(out, "3"),
        Behavior::Ipcidr => push_text(out, "4"),
    }
}

fn behavior_node(b: Behavior) -> (r: Yaml)
    ensures
        is_text_node(r, behavior_text(b)),
{
    match b {
        Behavior::Classical => text_node("classical"),
        Behavior::Domain => text_node("domain"),
        Behavior::Ipcidr => text_node("ipcidr"),
    }
}

fn push_block(out: &mut Vec<char>, name: &Vec<char>, group: &Vec<char>, b: Behavior)
    ensures
        final(out)@ == old(out)@ + block_text(name@, group@, b),
{
    push_text(out, "  if ctx.rule_providers[\"");
    push_chars(out, name);
    push_text(out, "\"].match(md):\n    ctx.log('[Script] matched ");
    push_chars(out, group);
    push_text(out, " ");
    push_label(out, b);
    push_text(out, "')\n    return \"");
    push_chars(out, group);
    push_text(out, "\"\n\n");
    assert(final(out)@ =~= old(out)@ + block_text(name@, group@, b));
}

/// The `rule-providers` entry of a provider.
fn provider_entry(
    name: &Vec<char>,
    b: Behavior,
    group: &Vec<char>,
    typed_path: &String,
    interval: u32,
    prefix: &str,
) -> (r: Yaml)
    ensures
        is_provider_entry(
            r,
            ProviderModel {
                name: name@,
                behavior: b,
                group: group@,
                typed_path: typed_path@,
                interval,
            },
            prefix@,
        ),
{
    let ghost p = ProviderModel {
        name: name@,
        behavior: b,
        group: group@,
        typed_path: typed_path@,
        interval,
    };
    let mut url = chars_of(prefix);
    push_text(&mut url, "/getruleset?type=");
    push_code(&mut url, b);
    push_text(&mut url, "&url=");
    let enc = url_safe_base64_encode(typed_path.as_str());
    let enc_chars = chars_of(enc.as_str());
    push_chars(&mut url, &enc_chars);
    assert(url@ =~= provider_url(p, prefix@));
    let mut path = chars_of("./providers/rule-provider_");
    push_chars(&mut path, name);
    push_text(&mut path, ".yaml");
    let mut e: Vec<(Yaml, Yaml)> = Vec::new();
    e.push((text_node("type"), text_node("http")));
    e.push((text_node("behavior"), behavior_node(b)));
    e.push((text_node("url"), Yaml::Text(string_of(url.as_slice()))));
    e.push((text_node("path"), Yaml::Text(string_of(path.as_slice()))));
    e.push((text_node("interval"), Yaml::Int(interval as i64)));
    let r = Yaml::Dict(e);
    proof {
        reveal(is_provider_entry);
    }
    r
}

fn push_geoip_line(out: &mut Vec<char>, geo: &Vec<(Vec<char>, Vec<char>)>)
    ensures
        final(out)@ == old(out)@ + geoip_line(pairs_view(geo@)),
{
    let ghost gs = pairs_view(geo@);
    push_text(out, "  geoips = {");
    if geo.len() > 0 {
        push_text(out, " ");
        let ghost base = out@;
        let mut k: usize = 0;
        assert(gs.take(0) =~= seq![]);
        while k < geo.len()
            invariant
                k <= geo@.len() == gs.len(),
                gs == pairs_view(geo@),
                out@ == base + geoip_entries(gs.take(k as int)),
            decreases geo@.len() - k,
        {
            assert(gs.take(k + 1).drop_last() =~= gs.take(k as int));
            if k > 0 {
                push_text(out, ", ");
            }
            push_text(out, "\"");
            push_chars(out, &geo[k].0);
            push_text(out, "\": \"");
            push_chars(out, &geo[k].1);
            push_text(out, "\"");
            proof {
                if k == 0 {
                    assert(out@ =~= base + geoip_entries(gs.take(k + 1)));
                } else {
                    assert(out@ =~= base + geoip_entries(gs.take(k + 1)));
                }
            }
            k += 1;
        }
        assert(gs.take(k as int) =~= gs);
        push_text(out, " ");
    }
    push_text(out, "}\n");
    assert(final(out)@ =~= old(out)@ + geoip_line(gs));
}

/// Adds one provider: its mapping entry and its script block.
fn emit_provider(
    entries: &mut Vec<(Yaml, Yaml)>,
    body: &mut Vec<char>,
    name: &Vec<char>,
    b: Behavior,
    r: &RulesetContent,
    interval: u32,
    prefix: &str,
    Ghost(ps): Ghost<Seq<ProviderModel>>,
)
    requires
        map_holds(old(entries)@, provider_map(ps), prefix@),
    ensures
        ({
            let p = ProviderModel {
                name: name@,
                behavior: b,
                group: r.group@,
                typed_path: r.rule_path_typed@,
                interval,
            };
            &&& map_holds(final(entries)@, provider_map(ps.push(p)), prefix@)
            &&& final(body)@ == old(body)@ + match_block(p)
        }),
{
    let ghost p = ProviderModel {
        name: name@,
        behavior: b,
        group: r.group@,
        typed_path: r.rule_path_typed@,
        interval,
    };
    let group = chars_of(r.group.as_str());
    let y = provider_entry(name, b, &group, &r.rule_path_typed, interval, prefix);
    let key = string_of(name.as_slice());
    let ghost before = entries@;
    dict_insert(entries, key.as_str(), y);
    proof {
        lemma_put_holds(before, entries@, provider_map(ps), p, y, prefix@);
        assert(ps.push(p).drop_last() =~= ps);
    }
    push_block(body, name, &group, b);
}

/// Builds the `rule-providers` mapping and the routing script for the
/// rulesets, in order, where `converted[i]` is the text of ruleset `i`
/// converted to Surge-style rule lines. Providers are fetched from
/// `managed_config_prefix`; a ruleset without an update interval of its own
/// refreshes every `default_interval` seconds.
pub fn build_clash_script_parts(
    ruleset_content_array: &Vec<RulesetContent>,
    converted: &Vec<String>,
    managed_config_prefix: &str,
    default_interval: u32,
) -> (r: (Yaml, String))
    requires
        converted@.len() == ruleset_content_array@.len(),
    ensures
        ({
            let m = script_model(ruleset_content_array@, names_of(converted@), default_interval);
            &&& providers_yaml(r.0, provider_map(m.providers), managed_config_prefix@)
            &&& r.1@ == script_text(m)
        }),
{
    let rs = ruleset_content_array;
    let prefix = managed_config_prefix;
    let mut entries: Vec<(Yaml, Yaml)> = Vec::new();
    let mut body: Vec<char> = Vec::new();
    let mut geo: Vec<(Vec<char>, Vec<char>)> = Vec::new();
    let mut final_group = chars_of("DIRECT");
    let mut i: usize = 0;
    let ghost cs = names_of(converted@);
    let ghost mut m = script_model(rs@.take(0), cs.take(0), default_interval);
    assert(rs@.take(0) =~= seq![]);
    assert(pairs_view(geo@) =~= m.geoips);
    while i < rs.len()
        invariant
            i <= rs@.len(),
            cs == names_of(converted@),
            cs.len() == rs@.len(),
            m == script_model(rs@.take(i as int), cs.take(i as int), default_interval),
            map_holds(entries@, provider_map(m.providers), prefix@),
            body@ == m.blocks,
            pairs_view(geo@) == m.geoips,
            final_group@ == m.final_group,
        decreases rs@.len() - i,
    {
        let r = &rs[i];
        assert(rs@.take(i + 1).drop_last() =~= rs@.take(i as int));
        assert(cs.take(i + 1).drop_last() =~= cs.take(i as int));
        let ghost next = ruleset_step(m, *r, cs[i as int], default_interval);
        let conv = chars_of(converted[i].as_str());
        let c = chars_of(r.rule_content.as_str());
        assert(c@.subrange(0, c@.len() as int) =~= c@);
        proof {
            reveal_strlit("[]");
        }
        if c.len() == 0 {
        } else if begins_with(&c, "[]") {
            assert(c@.subrange(2, c@.len() as int) =~= c@.skip(2));
            let inline = trim_chars(&c, 2, c.len());
            if begins_with(&inline, "GEOIP,") {
                proof {
                    reveal_strlit("GEOIP,");
                }
                let rest = slice_chars(&inline, 6, inline.len());
                assert(rest@ =~= inline@.skip(6));
                let code = first_field_of(&rest);
                let group = chars_of(r.group.as_str());
                geo.push((code, group));
                assert(pairs_view(geo@) =~= next.geoips);
            } else if is_text(&inline, "FINAL") || is_text(&inline, "MATCH") {
                final_group = chars_of(r.group.as_str());
            }
        } else {
            let t = trim_chars(&conv, 0, conv.len());
            assert(conv@.subrange(0, conv@.len() as int) =~= conv@);
            if t.len() > 0 {
                let path = chars_of(r.rule_path.as_str());
                let base = base_name_of(&path);
                let interval = if r.update_interval > 0 {
                    r.update_interval
                } else {
                    default_interval
                };
                let (hd, hi) = rule_flags(&conv);
                if is_text(&base, "MOO") || is_text(&base, "Download") || (!hd && !hi) {
                    emit_provider(
                        &mut entries,
                        &mut body,
                        &base,
                        Behavior::Classical,
                        r,
                        interval,
                        prefix,
                        Ghost(m.providers),
                    );
                } else {
                    let ghost mid = m.providers;
                    if hd {
                        let mut name = base.clone();
                        push_text(&mut name, "_domain");
                        emit_provider(
                            &mut entries,
                            &mut body,
                            &name,
                            Behavior::Domain,
                            r,
                            interval,
                            prefix,
                            Ghost(m.providers),
                        );
                        proof {
                            mid = m.providers.push(
                                ProviderModel {
                                    name: name@,
                                    behavior: Behavior::Domain,
                                    group: r.group@,
                                    typed_path: r.rule_path_typed@,
                                    interval,
                                },
                            );
                        }
                    } else {
                        push_text(&mut body, "\n\n");
                    }
                    if hi && !is_text(&base, "Apple") {
                        let mut name = base.clone();
                        push_text(&mut name, "_ipcidr");
                        emit_provider(
                            &mut entries,
                            &mut body,
                            &name,
                            Behavior::Ipcidr,
                            r,
                            interval,
                            prefix,
                            Ghost(mid),
                        );
                    } else {
                        push_text(&mut body, "\n\n");
                    }
                    assert(body@ =~= next.blocks);
                }
            }
        }
        proof {
            m = next;
        }
        i += 1;
    }
    assert(rs@.take(i as int) =~= rs@);
    assert(cs.take(i as int) =~= cs);
    let mut out = chars_of("def main(ctx, md):\n  host = md[\"host\"]\n\n");
    push_chars(&mut out, &body);
    push_text(&mut out, "\n");
    push_geoip_line(&mut out, &geo);
    push_text(
        &mut out,
        "  ip = md[\"dst_ip\"]\n  if ip == \"\":\n    ip = ctx.resolve_ip(host)\n    if ip == \"\":\n      ctx.log('[Script] dns lookup error use ",
    );
    push_chars(&mut out, &final_group);
    push_text(&mut out, "')\n      return \"");
    push_chars(&mut out, &final_group);
    push_text(
        &mut out,
        "\"\n  for key in geoips:\n    if ctx.geoip(ip) == key:\n      return geoips[key]\n  return \"",
    );
    push_chars(&mut out, &final_group);
    push_text(&mut out, "\"");
    assert(out@ =~= script_text(m));
    (Yaml::Dict(entries), string_of(out.as_slice()))
}

/// Every provider of the `rule-providers` mapping is fetched from
/// `<prefix>/getruleset?type=<code>&url=<URL-safe base64 of its typed path>`,
/// with code 6 for classical, 3 for domain and 4 for IP-CIDR providers.
pub proof fn lemma_provider_urls(y: Yaml, ms: Seq<ProviderModel>, prefix: Seq<char>)
    requires
        providers_yaml(y, ms, prefix),
    ensures
        match y {
            Yaml::Dict(e) => e@.len() == ms.len() && forall|i: int|
                0 <= i < e@.len() ==> match (#[trigger] e@[i]).1 {
                    Yaml::Dict(f) => f@.len() == 5 && is_text_entry(
                        f@[2],
                        "url"@,
                        prefix + "/getruleset?type="@ + request_code(ms[i].behavior) + "&url="@
                            + b64url(encode_utf8(ms[i].typed_path)),
                    ) && (ms[i].behavior == Behavior::Classical ==> request_code(ms[i].behavior)
                        == "6"@) && (ms[i].behavior == Behavior::Domain ==> request_code(
                        ms[i].behavior,
                    ) == "3"@) && (ms[i].behavior == Behavior::Ipcidr ==> request_code(
                        ms[i].behavior,
                    ) == "4"@),
                    _ => false,
                },
            _ => false,
        },
{
    match y {
        Yaml::Dict(e) => {
            assert forall|i: int| 0 <= i < e@.len() implies match (#[trigger] e@[i]).1 {
                Yaml::Dict(f) => f@.len() == 5 && is_text_entry(
                    f@[2],
                    "url"@,
                    prefix + "/getruleset?type="@ + request_code(ms[i].behavior) + "&url="@
                        + b64url(encode_utf8(ms[i].typed_path)),
                ) && (ms[i].behavior == Behavior::Classical ==> request_code(ms[i].behavior)
                    == "6"@) && (ms[i].behavior == Behavior::Domain ==> request_code(
                    ms[i].behavior,
                ) == "3"@) && (ms[i].behavior == Behavior::Ipcidr ==> request_code(
                    ms[i].behavior,
                ) == "4"@),
                _ => false,
            } by {
                assert(is_text_node(e@[i].0, ms[i].name));
                assert(is_provider_entry(e@[i].1, ms[i], prefix));
                reveal(is_provider_entry);
            }
        },
        _ => {},
    }
}

/// Whether `r` is a ruleset whose rules are fetched through providers
/// (neither empty, blank, nor an inline directive).
pub open spec fn is_provider_ruleset(r: RulesetContent, conv: Seq<char>) -> bool {
    let c = r.rule_content@;
    c.len() > 0 && !starts_with(c, "[]"@) && trim(conv).len() > 0
}

/// The provider of `r` under `name` with behavior `b`.
pub open spec fn provider_of(r: RulesetContent, name: Seq<char>, b: Behavior, default_interval: u32) -> ProviderModel {
    ProviderModel {
        name,
        behavior: b,
        group: r.group@,
        typed_path: r.rule_path_typed@,
        interval: if r.update_interval > 0 {
            r.update_interval
        } else {
            default_interval
        },
    }
}

/// A ruleset whose base name is `MOO` or `Download` yields one classical
/// provider under that name, whatever rules it holds.
pub proof fn lemma_classical_override(
    m: ScriptModel,
    r: RulesetContent,
    conv: Seq<char>,
    default_interval: u32,
)
    requires
        is_provider_ruleset(r, conv),
        base_name(r.rule_path@) == "MOO"@ || base_name(r.rule_path@) == "Download"@,
    ensures
        ruleset_step(m, r, conv, default_interval).providers == m.providers.push(
            provider_of(r, base_name(r.rule_path@), Behavior::Classical, default_interval),
        ),
{
}

/// A ruleset whose base name is `Apple` yields no IP-CIDR provider: with
/// both domain and IP-CIDR rules, its one provider is `Apple_domain`.
pub proof fn lemma_apple_suppression(
    m: ScriptModel,
    r: RulesetContent,
    conv: Seq<char>,
    default_interval: u32,
)
    requires
        is_provider_ruleset(r, conv),
        base_name(r.rule_path@) == "Apple"@,
        has_domain(conv),
        has_ipcidr(conv),
    ensures
        ruleset_step(m, r, conv, default_interval).providers == m.providers.push(
            provider_of(r, "Apple_domain"@, Behavior::Domain, default_interval),
        ),
{
    reveal_strlit("Apple");
    reveal_strlit("MOO");
    reveal_strlit("Download");
    reveal_strlit("_domain");
    reveal_strlit("Apple_domain");
    assert("Apple"@ + "_domain"@ =~= "Apple_domain"@);
    assert("Apple"@ != "MOO"@) by {
        assert("Apple"@[0] != "MOO"@[0]);
    }
    assert("Apple"@ != "Download"@) by {
        assert("Apple"@.len() != "Download"@.len());
    }
}

/// Whether two rulesets hold the same text in every field the synthesis reads.
pub open spec fn same_ruleset(a: RulesetContent, b: RulesetContent) -> bool {
    &&& a.group@ == b.group@
    &&& a.rule_path@ == b.rule_path@
    &&& a.rule_path_typed@ == b.rule_path_typed@
    &&& a.update_interval == b.update_interval
    &&& a.rule_content@ == b.rule_content@
}

/// Equal rulesets with equal converted texts give the same providers and
/// byte-identical script text.
pub proof fn lemma_script_deterministic(
    a: Seq<RulesetContent>,
    b: Seq<RulesetContent>,
    cs: Seq<Seq<char>>,
    default_interval: u32,
)
    requires
        a.len() == b.len() == cs.len(),
        forall|i: int| 0 <= i < a.len() ==> same_ruleset(#[trigger] a[i], b[i]),
    ensures
        script_model(a, cs, default_interval) == script_model(b, cs, default_interval),
        script_text(script_model(a, cs, default_interval)) == script_text(
            script_model(b, cs, default_interval),
        ),
    decreases a.len(),
{
    if a.len() > 0 {
        assert forall|i: int| 0 <= i < a.drop_last().len() implies same_ruleset(
            #[trigger] a.drop_last()[i],
            b.drop_last()[i],
        ) by {
            assert(same_ruleset(a[i], b[i]));
        }
        lemma_script_deterministic(a.drop_last(), b.drop_last(), cs.drop_last(), default_interval);
        assert(same_ruleset(a.last(), b.last()));
    }
}

} // verus!
