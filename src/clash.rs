//! Clash output: proxies serialized and filtered, groups resolved, and both
//! merged into the template document.
use vstd::prelude::*;
use crate::catalog::{clash_ssr_cipher, clashr_obfs, clashr_protocol};
use crate::filter::{
    kept, lemma_filter_reads_only_capabilities, opt_is, opt_text, same_capabilities, skip_reason,
};
use crate::rules::{inline_rules, rules_field, rules_section, rules_suffix, template_rules};
use crate::script::{build_clash_script_parts, provider_map, providers_yaml, script_model, script_text};
use crate::model::{
    RulesetContent,
    clash_type_spec, group_type_spec, with_default, ExtraSettings, Proxy, ProxyGroupConfig,
    ProxyGroupType, ProxyType,
};
use crate::remark::{kept_remarks, names_of, prefixed_remark_of, process_remark};
use crate::text::{begins_with, chars_of, is_text, same_chars, slice_chars, starts_with, string_of};
use crate::yaml::{
    dict_insert, find_key, first_key, is_bool_node, is_inserted, is_text_entry, is_int_node, is_text_node,
    lookup, no_key, text_node, Yaml,
};

verus! {

/// The value of one field of an emitted entry.
pub enum FieldValue {
    Str(Seq<char>),
    Num(int),
    Flag(bool),
    Names(Seq<Seq<char>>),
}

/// Whether `y` holds the field value `v`.
pub open spec fn value_holds(y: Yaml, v: FieldValue) -> bool {
    match v {
        FieldValue::Str(s) => is_text_node(y, s),
        FieldValue::Num(n) => is_int_node(y, n),
        FieldValue::Flag(b) => is_bool_node(y, b),
        FieldValue::Names(ns) => match y {
            Yaml::List(l) => l@.len() == ns.len() && forall|i: int|
                0 <= i < ns.len() ==> is_text_node(#[trigger] l@[i], ns[i]),
            _ => false,
        },
    }
}

/// Whether the mapping entries are exactly the fields `fs`, in order.
pub open spec fn fields_hold(e: Seq<(Yaml, Yaml)>, fs: Seq<(Seq<char>, FieldValue)>) -> bool {
    &&& e.len() == fs.len()
    &&& forall|i: int|
        0 <= i < e.len() ==> is_text_node(#[trigger] e[i].0, fs[i].0) && value_holds(
            e[i].1,
            fs[i].1,
        )
}

/// Whether `y` is a mapping of exactly the fields `fs`.
pub open spec fn is_fields_node(y: Yaml, fs: Seq<(Seq<char>, FieldValue)>) -> bool {
    match y {
        Yaml::Dict(e) => fields_hold(e@, fs),
        _ => false,
    }
}

pub open spec fn text_field(k: Seq<char>, o: Option<String>) -> Seq<(Seq<char>, FieldValue)> {
    match o {
        Some(s) => seq![(k, FieldValue::Str(s@))],
        None => seq![],
    }
}

pub open spec fn flag_field(k: Seq<char>, o: Option<bool>) -> Seq<(Seq<char>, FieldValue)> {
    match o {
        Some(b) => seq![(k, FieldValue::Flag(b))],
        None => seq![],
    }
}

/// The fields of `p`'s Clash entry, shown as `remark`, with the given
/// defaults applied to its unset flags.
pub open spec fn proxy_fields(
    p: Proxy,
    remark: Seq<char>,
    udp: Option<bool>,
    tfo: Option<bool>,
    skip_cert_verify: Option<bool>,
) -> Seq<(Seq<char>, FieldValue)> {
    seq![
        ("name"@, FieldValue::Str(remark)),
        ("type"@, FieldValue::Str(clash_type_spec(p.proxy_type))),
        ("server"@, FieldValue::Str(p.hostname@)),
        ("port"@, FieldValue::Num(p.port as int)),
    ] + text_field("cipher"@, p.encrypt_method) + text_field("password"@, p.password) + text_field(
        "protocol"@,
        p.protocol,
    ) + text_field("obfs"@, p.obfs) + text_field("username"@, p.username) + (if p.proxy_type
        == ProxyType::Snell {
        seq![("version"@, FieldValue::Num(p.snell_version as int))]
    } else {
        seq![]
    }) + flag_field("udp"@, with_default(p.udp, udp)) + flag_field(
        "tfo"@,
        with_default(p.tcp_fast_open, tfo),
    ) + flag_field("skip-cert-verify"@, with_default(p.allow_insecure, skip_cert_verify))
}

fn push_text_field(
    e: &mut Vec<(Yaml, Yaml)>,
    Ghost(fs): Ghost<Seq<(Seq<char>, FieldValue)>>,
    key: &str,
    o: &Option<String>,
)
    requires
        fields_hold(old(e)@, fs),
    ensures
        fields_hold(final(e)@, fs + text_field(key@, *o)),
{
    match o {
        Some(s) => {
            e.push((text_node(key), Yaml::Text(s.clone())));
        },
        None => {},
    }
    assert(fields_hold(e@, fs + text_field(key@, *o))) by {
        let t = fs + text_field(key@, *o);
        assert forall|i: int| 0 <= i < e@.len() implies is_text_node(#[trigger] e@[i].0, t[i].0)
            && value_holds(e@[i].1, t[i].1) by {
            if i < old(e)@.len() {
                assert(e@[i] == old(e)@[i]);
            }
        }
    }
}

fn push_flag_field(
    e: &mut Vec<(Yaml, Yaml)>,
    Ghost(fs): Ghost<Seq<(Seq<char>, FieldValue)>>,
    key: &str,
    o: Option<bool>,
)
    requires
        fields_hold(old(e)@, fs),
    ensures
        fields_hold(final(e)@, fs + flag_field(key@, o)),
{
    match o {
        Some(b) => {
            e.push((text_node(key), Yaml::Bool(b)));
            proof {
                assert(e@.take(old(e)@.len() as int) =~= old(e)@);
                lemma_fields_push(old(e)@, e@, fs, (key@, FieldValue::Flag(b)));
                assert(fs + flag_field(key@, o) =~= fs.push((key@, FieldValue::Flag(b))));
            }
        },
        None => {
            assert(fs + flag_field(key@, o) =~= fs);
        },
    }
}

proof fn lemma_fields_push(
    e: Seq<(Yaml, Yaml)>,
    e2: Seq<(Yaml, Yaml)>,
    fs: Seq<(Seq<char>, FieldValue)>,
    f: (Seq<char>, FieldValue),
)
    requires
        fields_hold(e, fs),
        e2.len() == e.len() + 1,
        e2.take(e.len() as int) == e,
        is_text_node(e2.last().0, f.0),
        value_holds(e2.last().1, f.1),
    ensures
        fields_hold(e2, fs.push(f)),
{
    assert forall|i: int| 0 <= i < e2.len() implies is_text_node(#[trigger] e2[i].0, fs.push(f)[i].0)
        && value_holds(e2[i].1, fs.push(f)[i].1) by {
        if i < e.len() {
            assert(e2[i] == e2.take(e.len() as int)[i]);
        }
    }
}

/// The flag with a default applied where the proxy leaves it unset.
fn or_default(own: Option<bool>, default: Option<bool>) -> (r: Option<bool>)
    ensures
        r == with_default(own, default),
{
    match own {
        Some(b) => Some(b),
        None => default,
    }
}

/// The Clash entry of `p`, shown as `remark`, with the given defaults applied
/// to its unset `udp`, `tfo` and `skip-cert-verify` flags.
pub fn proxy_node(
    p: &Proxy,
    remark: &String,
    udp: Option<bool>,
    tfo: Option<bool>,
    skip_cert_verify: Option<bool>,
) -> (r: Yaml)
    ensures
        is_fields_node(r, proxy_fields(*p, remark@, udp, tfo, skip_cert_verify)),
{
    let mut e: Vec<(Yaml, Yaml)> = Vec::new();
    e.push((text_node("name"), Yaml::Text(remark.clone())));
    e.push((text_node("type"), text_node(p.proxy_type.clash_type())));
    e.push((text_node("server"), Yaml::Text(p.hostname.clone())));
    e.push((text_node("port"), Yaml::Int(p.port as i64)));
    let ghost fs0 = seq![
        ("name"@, FieldValue::Str(remark@)),
        ("type"@, FieldValue::Str(clash_type_spec(p.proxy_type))),
        ("server"@, FieldValue::Str(p.hostname@)),
        ("port"@, FieldValue::Num(p.port as int)),
    ];
    assert(fields_hold(e@, fs0));
    push_text_field(&mut e, Ghost(fs0), "cipher", &p.encrypt_method);
    let ghost fs1 = fs0 + text_field("cipher"@, p.encrypt_method);
    push_text_field(&mut e, Ghost(fs1), "password", &p.password);
    let ghost fs2 = fs1 + text_field("password"@, p.password);
    push_text_field(&mut e, Ghost(fs2), "protocol", &p.protocol);
    let ghost fs3 = fs2 + text_field("protocol"@, p.protocol);
    push_text_field(&mut e, Ghost(fs3), "obfs", &p.obfs);
    let ghost fs4 = fs3 + text_field("obfs"@, p.obfs);
    push_text_field(&mut e, Ghost(fs4), "username", &p.username);
    let ghost fs5 = fs4 + text_field("username"@, p.username);
    let ghost ver: Seq<(Seq<char>, FieldValue)> = if p.proxy_type == ProxyType::Snell {
        seq![("version"@, FieldValue::Num(p.snell_version as int))]
    } else {
        seq![]
    };
    if p.proxy_type == ProxyType::Snell {
        e.push((text_node("version"), Yaml::Int(p.snell_version as i64)));
    }
    assert(fields_hold(e@, fs5 + ver)) by {
        let t = fs5 + ver;
        assert forall|i: int| 0 <= i < e@.len() implies is_text_node(#[trigger] e@[i].0, t[i].0)
            && value_holds(e@[i].1, t[i].1) by {
            if i < fs5.len() {
                assert(t[i] == fs5[i]);
            }
        }
    }
    let ghost fs6 = fs5 + ver;
    push_flag_field(&mut e, Ghost(fs6), "udp", or_default(p.udp, udp));
    let ghost fs7 = fs6 + flag_field("udp"@, with_default(p.udp, udp));
    push_flag_field(&mut e, Ghost(fs7), "tfo", or_default(p.tcp_fast_open, tfo));
    let ghost fs8 = fs7 + flag_field("tfo"@, with_default(p.tcp_fast_open, tfo));
    push_flag_field(
        &mut e,
        Ghost(fs8),
        "skip-cert-verify",
        or_default(p.allow_insecure, skip_cert_verify),
    );
    assert(fs8 + flag_field("skip-cert-verify"@, with_default(p.allow_insecure, skip_cert_verify))
        =~= proxy_fields(*p, remark@, udp, tfo, skip_cert_verify));
    Yaml::Dict(e)
}

/// The indices of the proxies the filter keeps, in order.
pub open spec fn kept_indices(nodes: Seq<Proxy>, clash_r: bool, filter_deprecated: bool) -> Seq<
    int,
>
    decreases nodes.len(),
{
    if nodes.len() == 0 {
        seq![]
    } else {
        let ks = kept_indices(nodes.drop_last(), clash_r, filter_deprecated);
        if kept(nodes.last(), clash_r, filter_deprecated) {
            ks.push(nodes.len() - 1)
        } else {
            ks
        }
    }
}

/// The kept indices are increasing, name kept proxies, and name every kept proxy.
pub proof fn lemma_kept_indices(nodes: Seq<Proxy>, clash_r: bool, filter_deprecated: bool)
    ensures
        ({
            let ks = kept_indices(nodes, clash_r, filter_deprecated);
            &&& forall|j: int|
                0 <= j < ks.len() ==> 0 <= #[trigger] ks[j] < nodes.len() && kept(
                    nodes[ks[j]],
                    clash_r,
                    filter_deprecated,
                )
            &&& forall|j: int, l: int| 0 <= j < l < ks.len() ==> ks[j] < ks[l]
            &&& forall|i: int|
                0 <= i < nodes.len() && kept(#[trigger] nodes[i], clash_r, filter_deprecated)
                    ==> ks.contains(i)
        }),
    decreases nodes.len(),
{
    if nodes.len() > 0 {
        let d = nodes.drop_last();
        lemma_kept_indices(d, clash_r, filter_deprecated);
        let ks0 = kept_indices(d, clash_r, filter_deprecated);
        let ks = kept_indices(nodes, clash_r, filter_deprecated);
        assert forall|i: int|
            0 <= i < nodes.len() && kept(#[trigger] nodes[i], clash_r, filter_deprecated) implies ks.contains(
            i,
        ) by {
            if i < nodes.len() - 1 {
                assert(d[i] == nodes[i]);
                let j = choose|j: int| 0 <= j < ks0.len() && ks0[j] == i;
                assert(ks[j] == i);
            } else {
                assert(ks[ks.len() - 1] == i);
            }
        }
        assert forall|j: int| 0 <= j < ks.len() implies 0 <= #[trigger] ks[j] < nodes.len() && kept(
            nodes[ks[j]],
            clash_r,
            filter_deprecated,
        ) by {
            if j < ks0.len() {
                assert(ks[j] == ks0[j]);
                assert(d[ks0[j]] == nodes[ks0[j]]);
            }
        }
    }
}

/// The names of the kept proxies, in order.
pub open spec fn emitted_names(nodes: Seq<Proxy>, clash_r: bool, ext: ExtraSettings) -> Seq<Seq<char>> {
    kept_remarks(nodes, ext.append_proxy_type, clash_r, ext.filter_deprecated)
}

proof fn lemma_names_len(nodes: Seq<Proxy>, append_proxy_type: bool, clash_r: bool, filter_deprecated: bool)
    ensures
        kept_remarks(nodes, append_proxy_type, clash_r, filter_deprecated).len() == kept_indices(
            nodes,
            clash_r,
            filter_deprecated,
        ).len(),
    decreases nodes.len(),
{
    if nodes.len() > 0 {
        lemma_names_len(nodes.drop_last(), append_proxy_type, clash_r, filter_deprecated);
    }
}

/// Whether `ps` are the entries of the kept proxies of `nodes`, in order,
/// each under its name among the kept proxies' names and with the settings'
/// defaults applied.
pub open spec fn emitted(ps: Seq<Yaml>, nodes: Seq<Proxy>, clash_r: bool, ext: ExtraSettings) -> bool {
    let ks = kept_indices(nodes, clash_r, ext.filter_deprecated);
    let names = emitted_names(nodes, clash_r, ext);
    &&& ps.len() == ks.len()
    &&& forall|j: int|
        0 <= j < ps.len() ==> is_fields_node(
            #[trigger] ps[j],
            proxy_fields(nodes[ks[j]], names[j], ext.udp, ext.tfo, ext.skip_cert_verify),
        )
}

/// Serializes the proxies the filter keeps, in order, each under a name made
/// distinct from those of the kept proxies before it; also returns the names.
pub fn emit_proxies(nodes: &Vec<Proxy>, clash_r: bool, ext: &ExtraSettings) -> (r: (
    Vec<Yaml>,
    Vec<Vec<char>>,
))
    requires
        nodes@.len() < u64::MAX - 2,
    ensures
        emitted(r.0@, nodes@, clash_r, *ext),
        views(r.1@) == emitted_names(nodes@, clash_r, *ext),
{
    let ghost fd = ext.filter_deprecated;
    let ghost ap = ext.append_proxy_type;
    let mut ps: Vec<Yaml> = Vec::new();
    let mut names: Vec<String> = Vec::new();
    let mut name_chars: Vec<Vec<char>> = Vec::new();
    let mut i: usize = 0;
    assert(nodes@.take(0) =~= seq![]);
    assert(names_of(names@) =~= seq![]);
    assert(views(name_chars@) =~= seq![]);
    while i < nodes.len()
        invariant
            i <= nodes@.len() < u64::MAX - 2,
            fd == ext.filter_deprecated,
            ap == ext.append_proxy_type,
            names@.len() <= i,
            names_of(names@) == kept_remarks(nodes@.take(i as int), ap, clash_r, fd),
            views(name_chars@) == names_of(names@),
            ({
                let ks = kept_indices(nodes@.take(i as int), clash_r, fd);
                let nm = kept_remarks(nodes@.take(i as int), ap, clash_r, fd);
                &&& ps@.len() == ks.len() == nm.len()
                &&& forall|j: int| 0 <= j < ks.len() ==> 0 <= #[trigger] ks[j] < i
                &&& forall|j: int|
                    0 <= j < ps@.len() ==> is_fields_node(
                        #[trigger] ps@[j],
                        proxy_fields(nodes@[ks[j]], nm[j], ext.udp, ext.tfo, ext.skip_cert_verify),
                    )
            }),
        decreases nodes@.len() - i,
    {
        let ghost ks0 = kept_indices(nodes@.take(i as int), clash_r, fd);
        let ghost nm0 = kept_remarks(nodes@.take(i as int), ap, clash_r, fd);
        proof {
            lemma_names_len(nodes@.take(i as int), ap, clash_r, fd);
        }
        assert(nodes@.take(i + 1).drop_last() =~= nodes@.take(i as int));
        assert(nodes@.take(i + 1).last() == nodes@[i as int]);
        let node = &nodes[i];
        if skip_reason(node, clash_r, ext.filter_deprecated).is_none() {
            let mut remark = prefixed_remark_of(node, ext.append_proxy_type);
            process_remark(&mut remark, &names);
            let y = proxy_node(node, &remark, ext.udp, ext.tfo, ext.skip_cert_verify);
            ps.push(y);
            name_chars.push(chars_of(remark.as_str()));
            let ghost before = names_of(names@);
            names.push(remark);
            proof {
                assert(names_of(names@) =~= before.push(remark@));
                assert(views(name_chars@) =~= names_of(names@));
                let ks = kept_indices(nodes@.take(i + 1), clash_r, fd);
                let nm = kept_remarks(nodes@.take(i + 1), ap, clash_r, fd);
                assert(ks == ks0.push(i as int));
                assert(nm == nm0.push(remark@));
                assert forall|j: int| 0 <= j < ps@.len() implies is_fields_node(
                    #[trigger] ps@[j],
                    proxy_fields(nodes@[ks[j]], nm[j], ext.udp, ext.tfo, ext.skip_cert_verify),
                ) by {
                    if j < ks0.len() {
                        assert(ks[j] == ks0[j]);
                        assert(nm[j] == nm0[j]);
                    }
                }
            }
        }
        i += 1;
    }
    assert(nodes@.take(i as int) =~= nodes@);
    (ps, name_chars)
}

/// Whether `p` occurs in `s`.
pub open spec fn occurs_in(p: Seq<char>, s: Seq<char>) -> bool {
    exists|i: int| 0 <= i <= s.len() - p.len() && #[trigger] s.subrange(i, i + p.len()) == p
}

/// Whether a member pattern selects the proxy `name`: `.*` selects every
/// proxy, any other pattern the proxies whose name holds it.
pub open spec fn pattern_selects(pat: Seq<char>, name: Seq<char>) -> bool {
    pat == ".*"@ || occurs_in(pat, name)
}

/// The names among `names` that the pattern selects, in order.
pub open spec fn selected(names: Seq<Seq<char>>, pat: Seq<char>) -> Seq<Seq<char>>
    decreases names.len(),
{
    if names.len() == 0 {
        seq![]
    } else {
        let before = selected(names.drop_last(), pat);
        if pattern_selects(pat, names.last()) {
            before.push(names.last())
        } else {
            before
        }
    }
}

/// The members one pattern yields: `[]X` is the literal member `X`.
pub open spec fn expand(pat: Seq<char>, names: Seq<Seq<char>>) -> Seq<Seq<char>> {
    if starts_with(pat, "[]"@) {
        seq![pat.skip(2)]
    } else {
        selected(names, pat)
    }
}

/// The members the patterns yield, in order.
pub open spec fn expand_all(pats: Seq<Seq<char>>, names: Seq<Seq<char>>) -> Seq<Seq<char>>
    decreases pats.len(),
{
    if pats.len() == 0 {
        seq![]
    } else {
        expand_all(pats.drop_last(), names) + expand(pats.last(), names)
    }
}

/// The members of group `g` among the emitted proxies `names`: where its
/// patterns yield none and it uses no provider, `DIRECT` alone.
pub open spec fn members(g: ProxyGroupConfig, names: Seq<Seq<char>>) -> Seq<Seq<char>> {
    let m = expand_all(names_of(g.proxies@), names);
    if m.len() == 0 && g.using_provider@.len() == 0 {
        seq!["DIRECT"@]
    } else {
        m
    }
}

/// Whether the pattern `p` occurs in `s`.
fn occurs(p: &Vec<char>, s: &Vec<char>) -> (r: bool)
    ensures
        r == occurs_in(p@, s@),
{
    if p.len() > s.len() {
        return false;
    }
    let mut i: usize = 0;
    while i <= s.len() - p.len()
        invariant
            p@.len() <= s@.len(),
            forall|k: int| 0 <= k < i ==> #[trigger] s@.subrange(k, k + p@.len()) != p@,
        decreases s.len() - p.len() + 1 - i,
    {
        let w = slice_chars(s, i, i + p.len());
        if same_chars(&w, p) {
            return true;
        }
        if i == s.len() - p.len() {
            return false;
        }
        i += 1;
    }
    false
}

/// The members one pattern yields among the emitted proxies.
fn expand_pattern(pat: &Vec<char>, names: &Vec<Vec<char>>, out: &mut Vec<Vec<char>>)
    ensures
        final(out)@.len() == old(out)@.len() + expand(pat@, views(names@)).len(),
        forall|j: int|
            0 <= j < final(out)@.len() ==> #[trigger] final(out)@[j]@ == (views(old(out)@) + expand(
                pat@,
                views(names@),
            ))[j],
{
    let ghost start = views(out@);
    proof {
        reveal_strlit("[]");
    }
    if begins_with(pat, "[]") {
        out.push(slice_chars(pat, 2, pat.len()));
        assert(views(out@) =~= start + expand(pat@, views(names@)));
        return;
    }
    let all = chars_of(".*");
    let every = same_chars(pat, &all);
    let mut i: usize = 0;
    assert(views(names@).take(0) =~= seq![]);
    while i < names.len()
        invariant
            i <= names@.len(),
            every == (pat@ == ".*"@),
            !starts_with(pat@, "[]"@),
            views(out@) == start + selected(views(names@).take(i as int), pat@),
        decreases names@.len() - i,
    {
        assert(views(names@).take(i + 1).drop_last() =~= views(names@).take(i as int));
        assert(views(names@).take(i + 1).last() == names@[i as int]@);
        let ghost before = views(out@);
        if every || occurs(pat, &names[i]) {
            let n = slice_chars(&names[i], 0, names[i].len());
            assert(n@ =~= names@[i as int]@);
            out.push(n);
            assert(views(out@) =~= before.push(n@));
            assert(views(out@) =~= start + selected(views(names@).take(i + 1), pat@));
        } else {
            assert(views(out@) =~= start + selected(views(names@).take(i + 1), pat@));
        }
        i += 1;
    }
    assert(views(names@).take(i as int) =~= views(names@));
    assert(views(out@) =~= start + expand(pat@, views(names@)));
}

/// The character sequences held in `v`.
pub open spec fn views(v: Seq<Vec<char>>) -> Seq<Seq<char>> {
    Seq::new(v.len(), |j: int| v[j]@)
}

/// Resolves the members of `g` among the emitted proxies `names`.
pub fn group_members(g: &ProxyGroupConfig, names: &Vec<Vec<char>>) -> (r: Vec<Vec<char>>)
    ensures
        views(r@) == members(*g, views(names@)),
{
    let mut out: Vec<Vec<char>> = Vec::new();
    let ghost pats = names_of(g.proxies@);
    let mut i: usize = 0;
    assert(pats.take(0) =~= seq![]);
    assert(views(out@) =~= seq![]);
    while i < g.proxies.len()
        invariant
            i <= g.proxies@.len(),
            pats == names_of(g.proxies@),
            views(out@) == expand_all(pats.take(i as int), views(names@)),
        decreases g.proxies@.len() - i,
    {
        assert(pats.take(i + 1).drop_last() =~= pats.take(i as int));
        let pat = chars_of(g.proxies[i].as_str());
        expand_pattern(&pat, names, &mut out);
        assert(views(out@) =~= expand_all(pats.take(i + 1), views(names@)));
        i += 1;
    }
    assert(pats.take(i as int) =~= pats);
    if out.len() == 0 && g.using_provider.len() == 0 {
        out.push(chars_of("DIRECT"));
        assert(views(out@) =~= seq!["DIRECT"@]);
    }
    out
}

/// Whether groups of this kind carry a health-check URL and interval.
pub open spec fn is_tested(t: ProxyGroupType) -> bool {
    t == ProxyGroupType::URLTest || t == ProxyGroupType::Fallback || t
        == ProxyGroupType::LoadBalance
}

/// The fields of the Clash entry of group `g` with members `ms`.
pub open spec fn group_fields(g: ProxyGroupConfig, ms: Seq<Seq<char>>) -> Seq<
    (Seq<char>, FieldValue),
> {
    seq![("name"@, FieldValue::Str(g.name@)), ("type"@, FieldValue::Str(group_type_spec(g.group_type)))]
        + (if ms.len() > 0 {
        seq![("proxies"@, FieldValue::Names(ms))]
    } else {
        seq![]
    }) + (if g.using_provider@.len() > 0 {
        seq![("use"@, FieldValue::Names(names_of(g.using_provider@)))]
    } else {
        seq![]
    }) + (if is_tested(g.group_type) {
        seq![("url"@, FieldValue::Str(g.url@)), ("interval"@, FieldValue::Num(g.interval as int))]
    } else {
        seq![]
    })
}

fn push_field(
    e: &mut Vec<(Yaml, Yaml)>,
    Ghost(fs): Ghost<Seq<(Seq<char>, FieldValue)>>,
    key: &str,
    v: Yaml,
    Ghost(fv): Ghost<FieldValue>,
)
    requires
        fields_hold(old(e)@, fs),
        value_holds(v, fv),
    ensures
        fields_hold(final(e)@, fs.push((key@, fv))),
{
    e.push((text_node(key), v));
    proof {
        assert(e@.take(old(e)@.len() as int) =~= old(e)@);
        lemma_fields_push(old(e)@, e@, fs, (key@, fv));
    }
}

fn chars_list(v: &Vec<Vec<char>>) -> (r: Yaml)
    ensures
        value_holds(r, FieldValue::Names(views(v@))),
{
    let mut l: Vec<Yaml> = Vec::new();
    let mut i: usize = 0;
    while i < v.len()
        invariant
            i <= v@.len(),
            l@.len() == i,
            forall|j: int| 0 <= j < i ==> is_text_node(#[trigger] l@[j], v@[j]@),
        decreases v@.len() - i,
    {
        l.push(Yaml::Text(string_of(v[i].as_slice())));
        i += 1;
    }
    Yaml::List(l)
}

fn strings_list(v: &Vec<String>) -> (r: Yaml)
    ensures
        value_holds(r, FieldValue::Names(names_of(v@))),
{
    let mut l: Vec<Yaml> = Vec::new();
    let mut i: usize = 0;
    while i < v.len()
        invariant
            i <= v@.len(),
            l@.len() == i,
            forall|j: int| 0 <= j < i ==> is_text_node(#[trigger] l@[j], v@[j]@),
        decreases v@.len() - i,
    {
        l.push(Yaml::Text(v[i].clone()));
        i += 1;
    }
    Yaml::List(l)
}

/// The Clash entry of group `g` with the resolved members `ms`.
pub fn group_node(g: &ProxyGroupConfig, ms: &Vec<Vec<char>>) -> (r: Yaml)
    ensures
        is_fields_node(r, group_fields(*g, views(ms@))),
{
    let mut e: Vec<(Yaml, Yaml)> = Vec::new();
    e.push((text_node("name"), Yaml::Text(g.name.clone())));
    e.push((text_node("type"), text_node(g.group_type.clash_type())));
    let ghost fs = seq![
        ("name"@, FieldValue::Str(g.name@)),
        ("type"@, FieldValue::Str(group_type_spec(g.group_type))),
    ];
    assert(fields_hold(e@, fs));
    if ms.len() > 0 {
        push_field(&mut e, Ghost(fs), "proxies", chars_list(ms), Ghost(FieldValue::Names(views(ms@))));
        proof {
            fs = fs.push(("proxies"@, FieldValue::Names(views(ms@))));
        }
    }
    if g.using_provider.len() > 0 {
        push_field(
            &mut e,
            Ghost(fs),
            "use",
            strings_list(&g.using_provider),
            Ghost(FieldValue::Names(names_of(g.using_provider@))),
        );
        proof {
            fs = fs.push(("use"@, FieldValue::Names(names_of(g.using_provider@))));
        }
    }
    match g.group_type {
        ProxyGroupType::URLTest | ProxyGroupType::Fallback | ProxyGroupType::LoadBalance => {
            push_field(&mut e, Ghost(fs), "url", Yaml::Text(g.url.clone()), Ghost(FieldValue::Str(g.url@)));
            proof {
                fs = fs.push(("url"@, FieldValue::Str(g.url@)));
            }
            push_field(
                &mut e,
                Ghost(fs),
                "interval",
                Yaml::Int(g.interval as i64),
                Ghost(FieldValue::Num(g.interval as int)),
            );
            proof {
                fs = fs.push(("interval"@, FieldValue::Num(g.interval as int)));
            }
        },
        _ => {},
    }
    assert(fs =~= group_fields(*g, views(ms@)));
    Yaml::Dict(e)
}

/// The name of a group entry: its `name` string, if it has one.
pub open spec fn node_name(y: Yaml) -> Option<Seq<char>> {
    match y {
        Yaml::Dict(e) => match lookup(e@, "name"@) {
            Some(Yaml::Text(s)) => Some(s@),
            _ => None,
        },
        _ => None,
    }
}

/// The name of a group entry.
fn node_name_of(y: &Yaml) -> (r: Option<Vec<char>>)
    ensures
        match r {
            Some(v) => node_name(*y) == Some(v@),
            None => node_name(*y) is None,
        },
{
    match y {
        Yaml::Dict(e) => match find_key(e, "name") {
            Some(i) => {
                proof {
                    crate::yaml::lemma_lookup_first(e@, "name"@, i as int);
                }
                match &e[i].1 {
                    Yaml::Text(s) => Some(chars_of(s.as_str())),
                    _ => None,
                }
            },
            None => None,
        },
        _ => None,
    }
}

proof fn lemma_group_node_name(y: Yaml, g: ProxyGroupConfig, ms: Seq<Seq<char>>)
    requires
        is_fields_node(y, group_fields(g, ms)),
    ensures
        node_name(y) == Some(g.name@),
{
    match y {
        Yaml::Dict(e) => {
            let fs = group_fields(g, ms);
            assert(fs[0].0 == "name"@);
            assert(is_text_node(e@[0].0, "name"@));
            assert(first_key(e@, "name"@, 0));
            crate::yaml::lemma_lookup_first(e@, "name"@, 0);
        },
        _ => {},
    }
}

/// Where an entry of the merged group list comes from.
pub enum GroupSlot {
    /// The template's group at this index.
    Kept(int),
    /// The generated group at this index.
    New(int),
}

pub open spec fn slot_name(s: GroupSlot, tg: Seq<Yaml>, gs: Seq<ProxyGroupConfig>) -> Option<Seq<char>> {
    match s {
        GroupSlot::Kept(k) => node_name(tg[k]),
        GroupSlot::New(j) => Some(gs[j].name@),
    }
}

pub open spec fn first_slot(
    slots: Seq<GroupSlot>,
    tg: Seq<Yaml>,
    gs: Seq<ProxyGroupConfig>,
    nm: Seq<char>,
    i: int,
) -> bool {
    &&& 0 <= i < slots.len()
    &&& slot_name(slots[i], tg, gs) == Some(nm)
    &&& forall|l: int| 0 <= l < i ==> slot_name(#[trigger] slots[l], tg, gs) != Some(nm)
}

/// Generated group `j` put in place of the first entry of its name, or appended.
pub open spec fn place(slots: Seq<GroupSlot>, tg: Seq<Yaml>, gs: Seq<ProxyGroupConfig>, j: int) -> Seq<
    GroupSlot,
> {
    if exists|i: int| first_slot(slots, tg, gs, gs[j].name@, i) {
        slots.update(choose|i: int| first_slot(slots, tg, gs, gs[j].name@, i), GroupSlot::New(j))
    } else {
        slots.push(GroupSlot::New(j))
    }
}

/// The merged group list after the first `n` generated groups.
pub open spec fn group_slots(tg: Seq<Yaml>, gs: Seq<ProxyGroupConfig>, n: int) -> Seq<GroupSlot>
    decreases n,
{
    if n <= 0 {
        Seq::new(tg.len(), |k: int| GroupSlot::Kept(k))
    } else {
        place(group_slots(tg, gs, n - 1), tg, gs, n - 1)
    }
}

/// Whether `r` is the group list the slots describe.
pub open spec fn slots_hold(
    r: Seq<Yaml>,
    slots: Seq<GroupSlot>,
    tg: Seq<Yaml>,
    gs: Seq<ProxyGroupConfig>,
    names: Seq<Seq<char>>,
) -> bool {
    &&& r.len() == slots.len()
    &&& forall|i: int|
        0 <= i < r.len() ==> match #[trigger] slots[i] {
            GroupSlot::Kept(k) => 0 <= k < tg.len() && r[i] == tg[k],
            GroupSlot::New(j) => 0 <= j < gs.len() && is_fields_node(
                r[i],
                group_fields(gs[j], members(gs[j], names)),
            ),
        }
}

/// Merges the generated groups into the template's groups `tg`: each
/// replaces the first group of its name, or is appended.
pub fn merge_groups(tg: Vec<Yaml>, gs: &Vec<ProxyGroupConfig>, names: &Vec<Vec<char>>) -> (r: Vec<
    Yaml,
>)
    ensures
        slots_hold(r@, group_slots(tg@, gs@, gs@.len() as int), tg@, gs@, views(names@)),
{
    let ghost t = tg@;
    let ghost nv = views(names@);
    let mut r = tg;
    let mut j: usize = 0;
    while j < gs.len()
        invariant
            j <= gs@.len(),
            nv == views(names@),
            slots_hold(r@, group_slots(t, gs@, j as int), t, gs@, nv),
        decreases gs@.len() - j,
    {
        let ghost slots = group_slots(t, gs@, j as int);
        let g = &gs[j];
        let ms = group_members(g, names);
        let node = group_node(g, &ms);
        let gname = chars_of(g.name.as_str());
        let mut i: usize = 0;
        let mut found = false;
        while i < r.len()
            invariant
                i <= r@.len(),
                slots_hold(r@, slots, t, gs@, nv),
                gname@ == gs@[j as int].name@,
                j < gs@.len(),
                found ==> i < r@.len() && slot_name(slots[i as int], t, gs@) == Some(gname@),
                forall|l: int| 0 <= l < i ==> slot_name(#[trigger] slots[l], t, gs@) != Some(gname@),
            ensures
                i <= r@.len(),
                slots_hold(r@, slots, t, gs@, nv),
                found ==> i < r@.len() && slot_name(slots[i as int], t, gs@) == Some(gname@),
                !found ==> i == r@.len(),
                forall|l: int| 0 <= l < i ==> slot_name(#[trigger] slots[l], t, gs@) != Some(gname@),
            decreases r@.len() - i,
        {
            proof {
                match slots[i as int] {
                    GroupSlot::Kept(k) => {},
                    GroupSlot::New(jj) => {
                        lemma_group_node_name(r@[i as int], gs@[jj], members(gs@[jj], nv));
                    },
                }
            }
            let same = match node_name_of(&r[i]) {
                Some(n) => same_chars(&n, &gname),
                None => false,
            };
            if same {
                found = true;
                break;
            }
            i += 1;
        }
        let ghost gm = views(ms@);
        assert(gm == members(gs@[j as int], nv));
        proof {
            assert(group_slots(t, gs@, j + 1) == place(slots, t, gs@, j as int));
        }
        if found {
            r.set(i, node);
            proof {
                assert(first_slot(slots, t, gs@, gname@, i as int));
                assert forall|x: int| first_slot(slots, t, gs@, gname@, x) implies x == i by {
                    if x < i {
                    } else if x > i {
                        assert(slot_name(slots[i as int], t, gs@) != Some(gname@));
                    }
                }
                let ns = group_slots(t, gs@, j + 1);
                assert(ns == slots.update(i as int, GroupSlot::New(j as int)));
                assert forall|x: int| 0 <= x < r@.len() implies match #[trigger] ns[x] {
                    GroupSlot::Kept(k) => 0 <= k < t.len() && r@[x] == t[k],
                    GroupSlot::New(jj) => 0 <= jj < gs@.len() && is_fields_node(
                        r@[x],
                        group_fields(gs@[jj], members(gs@[jj], nv)),
                    ),
                } by {
                    if x != i {
                        assert(ns[x] == slots[x]);
                    }
                }
            }
        } else {
            r.push(node);
            proof {
                assert forall|x: int| !first_slot(slots, t, gs@, gname@, x) by {
                    if 0 <= x < slots.len() {
                        assert(slot_name(slots[x], t, gs@) != Some(gname@));
                    }
                }
                let ns = group_slots(t, gs@, j + 1);
                assert(ns == slots.push(GroupSlot::New(j as int)));
                assert forall|x: int| 0 <= x < r@.len() implies match #[trigger] ns[x] {
                    GroupSlot::Kept(k) => 0 <= k < t.len() && r@[x] == t[k],
                    GroupSlot::New(jj) => 0 <= jj < gs@.len() && is_fields_node(
                        r@[x],
                        group_fields(gs@[jj], members(gs@[jj], nv)),
                    ),
                } by {
                    if x < slots.len() {
                        assert(ns[x] == slots[x]);
                    }
                }
            }
        }
        j += 1;
    }
    r
}

/// The key of the proxy list under either naming convention.
pub open spec fn proxies_key(new_names: bool) -> Seq<char> {
    if new_names {
        "proxies"@
    } else {
        "Proxy"@
    }
}

/// The key of the group list under either naming convention.
pub open spec fn groups_key(new_names: bool) -> Seq<char> {
    if new_names {
        "proxy-groups"@
    } else {
        "Proxy Group"@
    }
}

/// The template's groups: the list under `k`, or none.
pub open spec fn template_groups(e: Seq<(Yaml, Yaml)>, k: Seq<char>) -> Seq<Yaml> {
    match lookup(e, k) {
        Some(Yaml::List(l)) => l@,
        _ => seq![],
    }
}

/// Whether `y` is a list of the emitted proxies.
pub open spec fn proxies_value(
    y: Yaml,
    nodes: Seq<Proxy>,
    clash_r: bool,
    ext: ExtraSettings,
) -> bool {
    match y {
        Yaml::List(ps) => emitted(ps@, nodes, clash_r, ext),
        _ => false,
    }
}

/// Whether `y` is the merged group list for the template's groups `tg`.
pub open spec fn groups_value(
    y: Yaml,
    tg: Seq<Yaml>,
    gs: Seq<ProxyGroupConfig>,
    names: Seq<Seq<char>>,
) -> bool {
    match y {
        Yaml::List(r) => slots_hold(r@, group_slots(tg, gs, gs.len() as int), tg, gs, names),
        _ => false,
    }
}

/// Whether the mapping `e` is the template mapping `e0` with the proxies,
/// then (where there are groups to generate) the merged groups, inserted.
pub open spec fn merged_entries(
    e0: Seq<(Yaml, Yaml)>,
    e: Seq<(Yaml, Yaml)>,
    nodes: Seq<Proxy>,
    gs: Seq<ProxyGroupConfig>,
    clash_r: bool,
    ext: ExtraSettings,
) -> bool {
    let pk = proxies_key(ext.clash_new_field_name);
    let gk = groups_key(ext.clash_new_field_name);
    let names = emitted_names(nodes, clash_r, ext);
    exists|e1: Seq<(Yaml, Yaml)>, pv: Yaml|
        {
            &&& #[trigger] is_inserted(e0, e1, pk, pv)
            &&& proxies_value(pv, nodes, clash_r, ext)
            &&& (gs.len() == 0 ==> e == e1)
            &&& (gs.len() > 0 ==> exists|gv: Yaml|
                #[trigger] is_inserted(e1, e, gk, gv) && groups_value(
                    gv,
                    template_groups(e1, gk),
                    gs,
                    names,
                ))
        }
}

/// Whether `y` is the node-list document: the emitted proxies alone.
pub open spec fn nodelist_doc(
    y: Yaml,
    nodes: Seq<Proxy>,
    clash_r: bool,
    ext: ExtraSettings,
) -> bool {
    match y {
        Yaml::Dict(e) => e@.len() == 1 && is_text_node(e@[0].0, "proxies"@) && proxies_value(
            e@[0].1,
            nodes,
            clash_r,
            ext,
        ),
        _ => false,
    }
}

/// What the generator makes of the document `old`.
pub open spec fn clash_doc(
    old: Yaml,
    new: Yaml,
    nodes: Seq<Proxy>,
    gs: Seq<ProxyGroupConfig>,
    clash_r: bool,
    ext: ExtraSettings,
) -> bool {
    if ext.nodelist {
        nodelist_doc(new, nodes, clash_r, ext)
    } else {
        match old {
            Yaml::Dict(e0) => match new {
                Yaml::Dict(e) => merged_entries(e0@, e@, nodes, gs, clash_r, ext),
                _ => false,
            },
            _ => new == old,
        }
    }
}

/// `new` is `old` with the value under the first key `k` replaced.
pub open spec fn value_cleared(old: Seq<(Yaml, Yaml)>, new: Seq<(Yaml, Yaml)>, k: Seq<char>) -> bool {
    &&& new.len() == old.len()
    &&& forall|i: int| 0 <= i < old.len() ==> (#[trigger] new[i]).0 == old[i].0
    &&& forall|i: int| 0 <= i < old.len() && !first_key(old, k, i) ==> #[trigger] new[i] == old[i]
}

/// Takes the list under the key `k` out of the mapping.
fn take_list(e: &mut Vec<(Yaml, Yaml)>, k: &str) -> (r: Vec<Yaml>)
    ensures
        r@ == template_groups(old(e)@, k@),
        value_cleared(old(e)@, final(e)@, k@),
{
    match find_key(e, k) {
        None => {
            proof {
                crate::yaml::lemma_lookup_none(e@, k@);
            }
            Vec::new()
        },
        Some(i) => {
            proof {
                crate::yaml::lemma_lookup_first(e@, k@, i as int);
            }
            let ghost e0 = e@;
            let (key, val) = e.remove(i);
            match val {
                Yaml::List(l) => {
                    e.insert(i, (key, Yaml::Null));
                    proof {
                        assert forall|x: int| 0 <= x < e0.len() && !first_key(e0, k@, x) implies #[trigger] e@[x] == e0[x] by {
                            crate::yaml::lemma_first_key_unique(e0, k@, i as int, i as int);
                            if x == i {
                                assert(first_key(e0, k@, x));
                            }
                        }
                    }
                    l
                },
                other => {
                    e.insert(i, (key, other));
                    assert(e@ =~= e0);
                    Vec::new()
                },
            }
        },
    }
}

proof fn lemma_insert_after_clear(
    e1: Seq<(Yaml, Yaml)>,
    mid: Seq<(Yaml, Yaml)>,
    e: Seq<(Yaml, Yaml)>,
    k: Seq<char>,
    v: Yaml,
)
    requires
        value_cleared(e1, mid, k),
        is_inserted(mid, e, k, v),
    ensures
        is_inserted(e1, e, k, v),
{
    assert forall|i: int| 0 <= i < e1.len() implies is_text_node(#[trigger] e1[i].0, k)
        == is_text_node(mid[i].0, k) by {
        assert(mid[i].0 == e1[i].0);
    }
    assert forall|i: int| first_key(e1, k, i) implies first_key(mid, k, i) by {
        assert forall|j: int| 0 <= j < i implies !is_text_node(#[trigger] mid[j].0, k) by {
            assert(mid[j].0 == e1[j].0);
        }
        assert(mid[i].0 == e1[i].0);
    }
    if no_key(e1, k) {
        assert(no_key(mid, k)) by {
            assert forall|j: int| 0 <= j < mid.len() implies !is_text_node(#[trigger] mid[j].0, k) by {
                assert(mid[j].0 == e1[j].0);
            }
        }
        assert(mid =~= e1) by {
            assert forall|j: int| 0 <= j < mid.len() implies mid[j] == e1[j] by {
                assert(!first_key(e1, k, j));
            }
        }
    }
    assert forall|i: int| first_key(e1, k, i) implies {
        &&& e.len() == e1.len()
        &&& is_text_node(e[i].0, k)
        &&& e[i].1 == v
        &&& forall|j: int| 0 <= j < e1.len() && j != i ==> e[j] == e1[j]
    } by {
        assert(first_key(mid, k, i));
        assert forall|j: int| 0 <= j < e1.len() && j != i implies e[j] == e1[j] by {
            crate::yaml::lemma_first_key_unique(e1, k, i, i);
            if first_key(e1, k, j) {
                crate::yaml::lemma_first_key_unique(e1, k, i, j);
            }
            assert(mid[j] == e1[j]);
        }
    }
}

/// Fills the document with the proxies the filter keeps, and with the
/// generated groups merged into the template's. In node-list mode the
/// document becomes the proxy list alone.
pub fn proxy_to_clash_yaml(
    nodes: &mut Vec<Proxy>,
    yaml_node: &mut Yaml,
    _ruleset_content_array: &Vec<RulesetContent>,
    extra_proxy_group: &Vec<ProxyGroupConfig>,
    clash_r: bool,
    ext: &mut ExtraSettings,
)
    requires
        old(nodes)@.len() < u64::MAX - 2,
    ensures
        *final(nodes) == *old(nodes),
        *final(ext) == *old(ext),
        clash_doc(*old(yaml_node), *final(yaml_node), old(nodes)@, extra_proxy_group@, clash_r, *old(ext)),
{
    let (ps, names) = emit_proxies(nodes, clash_r, ext);
    let ghost nv = views(names@);
    if ext.nodelist {
        let mut e: Vec<(Yaml, Yaml)> = Vec::new();
        e.push((text_node("proxies"), Yaml::List(ps)));
        *yaml_node = Yaml::Dict(e);
        return;
    }
    let mut node = Yaml::Null;
    std::mem::swap(yaml_node, &mut node);
    match node {
        Yaml::Dict(e) => {
            let mut e = e;
            let ghost e0 = e@;
            let pk = if ext.clash_new_field_name {
                "proxies"
            } else {
                "Proxy"
            };
            let pv = Yaml::List(ps);
            let ghost pvg = pv;
            dict_insert(&mut e, pk, pv);
            let ghost e1 = e@;
            assert(is_inserted(e0, e1, proxies_key(ext.clash_new_field_name), pvg));
            assert(proxies_value(pvg, nodes@, clash_r, *ext));
            if extra_proxy_group.len() > 0 {
                let gk = if ext.clash_new_field_name {
                    "proxy-groups"
                } else {
                    "Proxy Group"
                };
                let tg = take_list(&mut e, gk);
                let ghost mid = e@;
                let r = merge_groups(tg, extra_proxy_group, &names);
                let gv = Yaml::List(r);
                let ghost gvg = gv;
                dict_insert(&mut e, gk, gv);
                proof {
                    lemma_insert_after_clear(e1, mid, e@, gk@, gvg);
                    assert(groups_value(gvg, template_groups(e1, gk@), extra_proxy_group@, nv));
                    assert(is_inserted(e1, e@, groups_key(ext.clash_new_field_name), gvg));
                }
            }
            assert(merged_entries(e0, e@, nodes@, extra_proxy_group@, clash_r, *ext));
            *yaml_node = Yaml::Dict(e);
        },
        other => {
            *yaml_node = other;
        },
    }
}

/// The `mode` value of script mode under either naming convention.
pub open spec fn script_token(new_names: bool) -> Seq<char> {
    if new_names {
        "script"@
    } else {
        "Script"@
    }
}

/// `e` is `e0` with a `mode` key, where there is one, set to the script token.
pub open spec fn mode_set(e0: Seq<(Yaml, Yaml)>, e: Seq<(Yaml, Yaml)>, new_names: bool) -> bool {
    if lookup(e0, "mode"@) is Some {
        exists|v: Yaml| #[trigger] is_inserted(e0, e, "mode"@, v) && is_text_node(v, script_token(new_names))
    } else {
        e == e0
    }
}

/// Whether `y` is the `script` entry holding `code`.
pub open spec fn is_script_node(y: Yaml, code: Seq<char>) -> bool {
    match y {
        Yaml::Dict(e) => e@.len() == 1 && is_text_entry(e@[0], "code"@, code),
        _ => false,
    }
}

/// `e` is `e1` with the rule providers and the script of the rulesets inserted.
pub open spec fn script_parts_inserted(
    e1: Seq<(Yaml, Yaml)>,
    e: Seq<(Yaml, Yaml)>,
    rs: Seq<RulesetContent>,
    cs: Seq<Seq<char>>,
    prefix: Seq<char>,
) -> bool {
    let m = script_model(rs, cs, 86400);
    exists|e2: Seq<(Yaml, Yaml)>, pv: Yaml, sv: Yaml|
        {
            &&& #[trigger] is_inserted(e1, e2, "rule-providers"@, pv)
            &&& providers_yaml(pv, provider_map(m.providers), prefix)
            &&& #[trigger] is_inserted(e2, e, "script"@, sv)
            &&& is_script_node(sv, script_text(m))
        }
}

/// `e` is `e0` less the entry under the first key `k`, where that entry is null.
pub open spec fn null_stripped(e0: Seq<(Yaml, Yaml)>, e: Seq<(Yaml, Yaml)>, k: Seq<char>) -> bool {
    if exists|i: int| first_key(e0, k, i) && e0[i].1 is Null {
        e == e0.remove(choose|i: int| first_key(e0, k, i) && e0[i].1 is Null)
    } else {
        e == e0
    }
}

/// What the rule stage makes of the merged document.
pub open spec fn rules_stage(
    merged: Yaml,
    out: Yaml,
    rs: Seq<RulesetContent>,
    cs: Seq<Seq<char>>,
    ext: ExtraSettings,
) -> bool {
    if ext.nodelist || !ext.enable_rule_generator {
        out == merged
    } else {
        match merged {
            Yaml::Dict(e0) => match out {
                Yaml::Dict(e) => if ext.clash_script {
                    exists|e1: Seq<(Yaml, Yaml)>|
                        #[trigger] mode_set(e0@, e1, ext.clash_new_field_name) && if ext.managed_config_prefix@.len() > 0 {
                            script_parts_inserted(e1, e@, rs, cs, ext.managed_config_prefix@)
                        } else {
                            e@ == e1
                        }
                } else {
                    exists|e1: Seq<(Yaml, Yaml)>|
                        #[trigger] null_stripped(e0@, e1, "rules"@) && null_stripped(e1, e@, "Rule"@)
                },
                _ => false,
            },
            _ => out == merged,
        }
    }
}

fn strip_null(e: &mut Vec<(Yaml, Yaml)>, k: &str)
    ensures
        null_stripped(old(e)@, final(e)@, k@),
{
    match find_key(e, k) {
        Some(i) => {
            let is_null = match &e[i].1 {
                Yaml::Null => true,
                _ => false,
            };
            proof {
                assert forall|x: int| first_key(old(e)@, k@, x) implies x == i by {
                    crate::yaml::lemma_first_key_unique(old(e)@, k@, i as int, x);
                }
            }
            if is_null {
                e.remove(i);
            }
        },
        None => {},
    }
}

/// Applies the rule stage to the merged document: in script mode the mode
/// switch, the rule providers and the script; otherwise null rule lists
/// are dropped, for the rules text to follow the document.
pub fn apply_rule_stage(
    doc: Yaml,
    rulesets: &Vec<RulesetContent>,
    converted: &Vec<String>,
    ext: &ExtraSettings,
) -> (r: Yaml)
    requires
        converted@.len() == rulesets@.len(),
    ensures
        rules_stage(doc, r, rulesets@, names_of(converted@), *ext),
{
    if ext.nodelist || !ext.enable_rule_generator {
        return doc;
    }
    match doc {
        Yaml::Dict(e) => {
            let mut e = e;
            let ghost e0 = e@;
            if ext.clash_script {
                if find_key(&e, "mode").is_some() {
                    proof {
                        let i = choose|i: int| first_key(e0, "mode"@, i);
                        crate::yaml::lemma_lookup_first(e0, "mode"@, i);
                    }
                    let token = if ext.clash_new_field_name {
                        "script"
                    } else {
                        "Script"
                    };
                    let v = text_node(token);
                    let ghost vg = v;
                    dict_insert(&mut e, "mode", v);
                    assert(is_inserted(e0, e@, "mode"@, vg));
                } else {
                    proof {
                        crate::yaml::lemma_lookup_none(e0, "mode"@);
                    }
                }
                let ghost e1 = e@;
                assert(mode_set(e0, e1, ext.clash_new_field_name));
                if !ext.managed_config_prefix.as_str().is_empty() {
                    let (providers, code) = build_clash_script_parts(
                        rulesets,
                        converted,
                        ext.managed_config_prefix.as_str(),
                        86400,
                    );
                    let ghost pv = providers;
                    dict_insert(&mut e, "rule-providers", providers);
                    let ghost e2 = e@;
                    let mut sm: Vec<(Yaml, Yaml)> = Vec::new();
                    sm.push((text_node("code"), Yaml::Text(code)));
                    let sv = Yaml::Dict(sm);
                    let ghost svg = sv;
                    dict_insert(&mut e, "script", sv);
                    assert(is_inserted(e1, e2, "rule-providers"@, pv));
                    assert(is_inserted(e2, e@, "script"@, svg));
                    assert(script_parts_inserted(
                        e1,
                        e@,
                        rulesets@,
                        names_of(converted@),
                        ext.managed_config_prefix@,
                    ));
                }
            } else {
                strip_null(&mut e, "rules");
                let ghost e1 = e@;
                strip_null(&mut e, "Rule");
                assert(null_stripped(e0, e1, "rules"@));
            }
            Yaml::Dict(e)
        },
        other => other,
    }
}

/// Generates the Clash configuration from the template document `base`
/// (a null template counts as an empty mapping): the document, and the rules
/// text that follows it in inline-rule mode (empty otherwise).
/// `converted_rules[i]` is ruleset `i` converted to Surge-style rule lines.
pub fn proxy_to_clash(
    nodes: &mut Vec<Proxy>,
    base: Yaml,
    ruleset_content_array: &mut Vec<RulesetContent>,
    converted_rules: &Vec<String>,
    extra_proxy_group: &Vec<ProxyGroupConfig>,
    clash_r: bool,
    ext: &mut ExtraSettings,
) -> (r: (Yaml, String))
    requires
        old(nodes)@.len() < u64::MAX - 2,
        converted_rules@.len() == old(ruleset_content_array)@.len(),
    ensures
        *final(nodes) == *old(nodes),
        *final(ruleset_content_array) == *old(ruleset_content_array),
        *final(ext) == *old(ext),
        exists|start: Yaml, merged: Yaml|
            template_or_empty(base, start) && #[trigger] clash_doc(
                start,
                merged,
                old(nodes)@,
                extra_proxy_group@,
                clash_r,
                *old(ext),
            ) && rules_stage(
                merged,
                r.0,
                old(ruleset_content_array)@,
                names_of(converted_rules@),
                *old(ext),
            ) && r.1@ == if inline_rules(*old(ext)) {
                rules_section(
                    if old(ext).overwrite_original_rules {
                        seq![]
                    } else {
                        template_rules(merged, rules_field(old(ext).clash_new_field_name))
                    },
                    old(ruleset_content_array)@,
                    names_of(converted_rules@),
                    old(ext).clash_new_field_name,
                )
            } else {
                seq![]
            },
{
    let mut doc = match base {
        Yaml::Null => Yaml::Dict(Vec::new()),
        other => other,
    };
    let ghost start = doc;
    proxy_to_clash_yaml(nodes, &mut doc, ruleset_content_array, extra_proxy_group, clash_r, ext);
    let ghost merged = doc;
    let rules = rules_suffix(&doc, ruleset_content_array, converted_rules, ext);
    let r = apply_rule_stage(doc, ruleset_content_array, converted_rules, ext);
    assert(template_or_empty(base, start));
    assert(clash_doc(start, merged, nodes@, extra_proxy_group@, clash_r, *ext));
    (r, rules)
}

/// Whether `start` is the template `base`, with null read as an empty mapping.
pub open spec fn template_or_empty(base: Yaml, start: Yaml) -> bool {
    match base {
        Yaml::Null => match start {
            Yaml::Dict(e) => e@.len() == 0,
            _ => false,
        },
        _ => start == base,
    }
}

/// With deprecated features filtered, no Shadowsocks proxy using `chacha20`
/// is among the emitted proxies.
pub proof fn lemma_no_chacha20_emitted(nodes: Seq<Proxy>, clash_r: bool)
    ensures
        forall|j: int|
            0 <= j < kept_indices(nodes, clash_r, true).len() ==> !({
                let p = nodes[#[trigger] kept_indices(nodes, clash_r, true)[j]];
                p.proxy_type == ProxyType::Shadowsocks && opt_is(p.encrypt_method, "chacha20"@)
            }),
{
    lemma_kept_indices(nodes, clash_r, true);
}

/// Whether the proxy at index `i` is among the emitted ones.
pub open spec fn is_emitted(nodes: Seq<Proxy>, i: int, clash_r: bool, filter_deprecated: bool) -> bool {
    kept_indices(nodes, clash_r, filter_deprecated).contains(i)
}

proof fn lemma_emitted_iff_kept(nodes: Seq<Proxy>, i: int, clash_r: bool, filter_deprecated: bool)
    requires
        0 <= i < nodes.len(),
    ensures
        is_emitted(nodes, i, clash_r, filter_deprecated) <==> kept(nodes[i], clash_r, filter_deprecated),
{
    lemma_kept_indices(nodes, clash_r, filter_deprecated);
    let ks = kept_indices(nodes, clash_r, filter_deprecated);
    if ks.contains(i) {
        let j = choose|j: int| 0 <= j < ks.len() && ks[j] == i;
        assert(kept(nodes[ks[j]], clash_r, filter_deprecated));
    }
}

/// For vanilla Clash with deprecated features filtered, a ShadowsocksR proxy
/// is emitted exactly when its cipher, protocol and obfuscation are accepted.
pub proof fn lemma_ssr_emitted_vanilla(nodes: Seq<Proxy>, i: int)
    requires
        0 <= i < nodes.len(),
        nodes[i].proxy_type == ProxyType::ShadowsocksR,
    ensures
        is_emitted(nodes, i, false, true) <==> (clash_ssr_cipher(opt_text(nodes[i].encrypt_method))
            && clashr_protocol(opt_text(nodes[i].protocol)) && clashr_obfs(opt_text(nodes[i].obfs))),
{
    lemma_emitted_iff_kept(nodes, i, false, true);
}

/// For ClashR with deprecated features filtered, a ShadowsocksR proxy is
/// emitted exactly when its protocol and obfuscation are accepted.
pub proof fn lemma_ssr_emitted_clashr(nodes: Seq<Proxy>, i: int)
    requires
        0 <= i < nodes.len(),
        nodes[i].proxy_type == ProxyType::ShadowsocksR,
    ensures
        is_emitted(nodes, i, true, true) <==> (clashr_protocol(opt_text(nodes[i].protocol))
            && clashr_obfs(opt_text(nodes[i].obfs))),
{
    lemma_emitted_iff_kept(nodes, i, true, true);
}

/// In node-list mode the output is the emitted proxies under `proxies`
/// alone: no template entry, group or rule survives.
pub proof fn lemma_nodelist_output(
    base: Yaml,
    merged: Yaml,
    out: Yaml,
    nodes: Seq<Proxy>,
    gs: Seq<ProxyGroupConfig>,
    rs: Seq<RulesetContent>,
    cs: Seq<Seq<char>>,
    clash_r: bool,
    ext: ExtraSettings,
)
    requires
        ext.nodelist,
        clash_doc(base, merged, nodes, gs, clash_r, ext),
        rules_stage(merged, out, rs, cs, ext),
    ensures
        nodelist_doc(
            out,
            nodes,
            clash_r,
            ext,
        ),
{
}

/// A group whose patterns select nothing and which uses no provider gets
/// exactly the member `DIRECT`.
pub proof fn lemma_direct_injection(g: ProxyGroupConfig, names: Seq<Seq<char>>, y: Yaml)
    requires
        expand_all(names_of(g.proxies@), names).len() == 0,
        g.using_provider@.len() == 0,
        is_fields_node(y, group_fields(g, members(g, names))),
    ensures
        members(g, names) == seq!["DIRECT"@],
        match y {
            Yaml::Dict(e) => is_text_node(e@[2].0, "proxies"@) && match e@[2].1 {
                Yaml::List(l) => l@.len() == 1 && is_text_node(l@[0], "DIRECT"@),
                _ => false,
            },
            _ => false,
        },
{
    match y {
        Yaml::Dict(e) => {
            let fs = group_fields(g, members(g, names));
            assert(fs[2] == ("proxies"@, FieldValue::Names(seq!["DIRECT"@])));
            assert(is_text_node(e@[2].0, fs[2].0));
        },
        _ => {},
    }
}

/// Whether the generated groups have pairwise distinct names.
pub open spec fn distinct_names(gs: Seq<ProxyGroupConfig>) -> bool {
    forall|a: int, b: int| 0 <= a < b < gs.len() ==> (#[trigger] gs[a]).name@ != (#[trigger] gs[b]).name@
}

/// Merging keeps every template group at its index, replaced only by a
/// generated group of the same name; whatever follows the template's groups
/// is generated, and where the generated names are distinct it follows in
/// their order.
pub proof fn lemma_group_slots_shape(tg: Seq<Yaml>, gs: Seq<ProxyGroupConfig>, n: int)
    requires
        0 <= n <= gs.len(),
    ensures
        ({
            let slots = group_slots(tg, gs, n);
            &&& distinct_names(gs) ==> forall|i: int, l: int|
                tg.len() <= i < l < slots.len() ==> (#[trigger] slots[i])->New_0 < (
                #[trigger] slots[l])->New_0
            &&& slots.len() >= tg.len()
            &&& forall|i: int|
                0 <= i < tg.len() ==> match #[trigger] slots[i] {
                    GroupSlot::Kept(k) => k == i,
                    GroupSlot::New(j) => 0 <= j < n && node_name(tg[i]) == Some(gs[j].name@),
                }
            &&& forall|i: int|
                tg.len() <= i < slots.len() ==> match #[trigger] slots[i] {
                    GroupSlot::Kept(k) => false,
                    GroupSlot::New(j) => 0 <= j < n,
                }
        }),
    decreases n,
{
    if n > 0 {
        lemma_group_slots_shape(tg, gs, n - 1);
        let slots = group_slots(tg, gs, n - 1);
        let nm = gs[n - 1].name@;
        if exists|i: int| first_slot(slots, tg, gs, nm, i) {
            let i = choose|i: int| first_slot(slots, tg, gs, nm, i);
            let ns = group_slots(tg, gs, n);
            assert(ns == slots.update(i, GroupSlot::New(n - 1)));
            assert forall|x: int| 0 <= x < tg.len() implies match #[trigger] ns[x] {
                GroupSlot::Kept(k) => k == x,
                GroupSlot::New(j) => 0 <= j < n && node_name(tg[x]) == Some(gs[j].name@),
            } by {
                if x == i {
                    match slots[x] {
                        GroupSlot::Kept(k) => {
                            assert(slot_name(slots[x], tg, gs) == node_name(tg[x]));
                        },
                        GroupSlot::New(j) => {},
                    }
                }
            }
            if distinct_names(gs) && i >= tg.len() {
                let jj = slots[i]->New_0;
                assert(slot_name(slots[i], tg, gs) == Some(gs[jj].name@));
                assert(gs[jj].name@ != gs[n - 1].name@);
            }
        } else {
            let ns = group_slots(tg, gs, n);
            assert(ns == slots.push(GroupSlot::New(n - 1)));
            assert forall|x: int| 0 <= x < tg.len() implies match #[trigger] ns[x] {
                GroupSlot::Kept(k) => k == x,
                GroupSlot::New(j) => 0 <= j < n && node_name(tg[x]) == Some(gs[j].name@),
            } by {
                assert(ns[x] == slots[x]);
            }
            if distinct_names(gs) {
                assert forall|a: int, b: int| tg.len() <= a < b < ns.len() implies (#[trigger] ns[a])->New_0
                    < (#[trigger] ns[b])->New_0 by {
                    if b == ns.len() - 1 {
                        assert(ns[a] == slots[a]);
                    } else {
                        assert(ns[a] == slots[a]);
                        assert(ns[b] == slots[b]);
                    }
                }
            }
        }
    }
}

/// Under the two naming conventions, a template that names neither
/// convention's keys gets the same entries: its own first, in place, then
/// the proxies under `proxies` or `Proxy`, then the groups under
/// `proxy-groups` or `Proxy Group`. Each value under a flipped key meets the
/// same description under either convention.
pub proof fn lemma_field_name_duality(
    e0: Seq<(Yaml, Yaml)>,
    ea: Seq<(Yaml, Yaml)>,
    eb: Seq<(Yaml, Yaml)>,
    nodes: Seq<Proxy>,
    gs: Seq<ProxyGroupConfig>,
    clash_r: bool,
    ext: ExtraSettings,
)
    requires
        ext.clash_new_field_name,
        no_key(e0, "proxies"@),
        no_key(e0, "Proxy"@),
        no_key(e0, "proxy-groups"@),
        no_key(e0, "Proxy Group"@),
        merged_entries(e0, ea, nodes, gs, clash_r, ext),
        merged_entries(
            e0,
            eb,
            nodes,
            gs,
            clash_r,
            ExtraSettings { clash_new_field_name: false, ..ext },
        ),
    ensures
        ea.len() == eb.len() == e0.len() + 1 + (if gs.len() > 0 {
            1int
        } else {
            0int
        }),
        forall|i: int| 0 <= i < e0.len() ==> #[trigger] ea[i] == e0[i] && eb[i] == e0[i],
        is_text_node(ea[e0.len() as int].0, "proxies"@),
        is_text_node(eb[e0.len() as int].0, "Proxy"@),
        proxies_value(ea[e0.len() as int].1, nodes, clash_r, ext),
        proxies_value(
            eb[e0.len() as int].1,
            nodes,
            clash_r,
            ExtraSettings { clash_new_field_name: false, ..ext },
        ),
        gs.len() > 0 ==> is_text_node(ea[e0.len() as int + 1].0, "proxy-groups"@) && is_text_node(
            eb[e0.len() as int + 1].0,
            "Proxy Group"@,
        ),
        proxies_value(
            ea[e0.len() as int].1,
            nodes,
            clash_r,
            ExtraSettings { clash_new_field_name: false, ..ext },
        ),
        proxies_value(eb[e0.len() as int].1, nodes, clash_r, ext),
        gs.len() > 0 ==> groups_value(
            ea[e0.len() as int + 1].1,
            seq![],
            gs,
            emitted_names(nodes, clash_r, ext),
        ) && groups_value(eb[e0.len() as int + 1].1, seq![], gs, emitted_names(nodes, clash_r, ext)),
{
    reveal_strlit("proxies");
    reveal_strlit("Proxy");
    reveal_strlit("proxy-groups");
    reveal_strlit("Proxy Group");
    let extb = ExtraSettings { clash_new_field_name: false, ..ext };
    assert("proxies"@.len() != "proxy-groups"@.len());
    assert("Proxy"@.len() != "Proxy Group"@.len());
    lemma_duality_side(e0, ea, nodes, gs, clash_r, ext, "proxies"@, "proxy-groups"@);
    lemma_duality_side(e0, eb, nodes, gs, clash_r, extb, "Proxy"@, "Proxy Group"@);
}

proof fn lemma_duality_side(
    e0: Seq<(Yaml, Yaml)>,
    e: Seq<(Yaml, Yaml)>,
    nodes: Seq<Proxy>,
    gs: Seq<ProxyGroupConfig>,
    clash_r: bool,
    ext: ExtraSettings,
    pk: Seq<char>,
    gk: Seq<char>,
)
    requires
        pk == proxies_key(ext.clash_new_field_name),
        gk == groups_key(ext.clash_new_field_name),
        pk != gk,
        no_key(e0, pk),
        no_key(e0, gk),
        merged_entries(e0, e, nodes, gs, clash_r, ext),
    ensures
        e.len() == e0.len() + 1 + (if gs.len() > 0 {
            1int
        } else {
            0int
        }),
        forall|i: int| 0 <= i < e0.len() ==> #[trigger] e[i] == e0[i],
        is_text_node(e[e0.len() as int].0, pk),
        proxies_value(e[e0.len() as int].1, nodes, clash_r, ext),
        gs.len() > 0 ==> is_text_node(e[e0.len() as int + 1].0, gk),
        gs.len() > 0 ==> groups_value(
            e[e0.len() as int + 1].1,
            seq![],
            gs,
            emitted_names(nodes, clash_r, ext),
        ),
{
    let (e1, pv) = choose|e1: Seq<(Yaml, Yaml)>, pv: Yaml|
        {
            &&& #[trigger] is_inserted(e0, e1, pk, pv)
            &&& proxies_value(pv, nodes, clash_r, ext)
            &&& (gs.len() == 0 ==> e == e1)
            &&& (gs.len() > 0 ==> exists|gv: Yaml|
                #[trigger] is_inserted(e1, e, gk, gv) && groups_value(
                    gv,
                    template_groups(e1, gk),
                    gs,
                    emitted_names(nodes, clash_r, ext),
                ))
        };
    assert forall|i: int| 0 <= i < e0.len() implies #[trigger] e1[i] == e0[i] by {
        assert(e1.take(e0.len() as int)[i] == e1[i]);
    }
    if gs.len() > 0 {
        let gv = choose|gv: Yaml| #[trigger] is_inserted(e1, e, gk, gv) && groups_value(
            gv,
            template_groups(e1, gk),
            gs,
            emitted_names(nodes, clash_r, ext),
        );
        assert(no_key(e1, gk)) by {
            assert forall|j: int| 0 <= j < e1.len() implies !is_text_node(#[trigger] e1[j].0, gk) by {
                if j < e0.len() {
                    assert(e1[j] == e0[j]);
                } else {
                    assert(is_text_node(e1[j].0, pk));
                    match e1[j].0 {
                        Yaml::Text(s) => {},
                        _ => {},
                    }
                }
            }
        }
        assert forall|i: int| 0 <= i < e0.len() implies #[trigger] e[i] == e0[i] by {
            assert(e.take(e1.len() as int)[i] == e[i]);
            assert(e1[i] == e0[i]);
        }
        assert(e[e0.len() as int] == e.take(e1.len() as int)[e0.len() as int]);
        crate::yaml::lemma_lookup_none(e1, gk);
        assert(template_groups(e1, gk) =~= seq![]);
        assert(e[e0.len() as int + 1] == e.last());
    }
}

/// Two proxy lists that agree, proxy by proxy, in kind, Snell version,
/// cipher, protocol and obfuscation have the same proxies emitted, whatever
/// else differs.
pub proof fn lemma_emission_reads_only_capabilities(
    a: Seq<Proxy>,
    b: Seq<Proxy>,
    clash_r: bool,
    filter_deprecated: bool,
)
    requires
        a.len() == b.len(),
        forall|i: int| 0 <= i < a.len() ==> same_capabilities(#[trigger] a[i], b[i]),
    ensures
        kept_indices(a, clash_r, filter_deprecated) == kept_indices(b, clash_r, filter_deprecated),
    decreases a.len(),
{
    if a.len() > 0 {
        assert forall|i: int| 0 <= i < a.drop_last().len() implies same_capabilities(
            #[trigger] a.drop_last()[i],
            b.drop_last()[i],
        ) by {
            assert(same_capabilities(a[i], b[i]));
        }
        lemma_emission_reads_only_capabilities(a.drop_last(), b.drop_last(), clash_r, filter_deprecated);
        assert(same_capabilities(a[a.len() - 1], b[b.len() - 1]));
        lemma_filter_reads_only_capabilities(a.last(), b.last(), clash_r, filter_deprecated);
    }
}

} // verus!
