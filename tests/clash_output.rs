use subconverter::clash::{merge_groups, proxy_node, proxy_to_clash, proxy_to_clash_yaml};
use subconverter::filter::{skip_reason, SkipReason};
use subconverter::model::{
    ExtraSettings, Proxy, ProxyGroupConfig, ProxyGroupType, ProxyType, RulesetContent,
};
use subconverter::remark::{prefixed_remark_of, process_remark};
use subconverter::yaml::Yaml;

fn build_ssr_proxy(name: &str, cipher: &str, protocol: &str, obfs: &str) -> Proxy {
    Proxy {
        proxy_type: ProxyType::ShadowsocksR,
        remark: name.to_string(),
        hostname: "example.com".to_string(),
        port: 443,
        encrypt_method: Some(cipher.to_string()),
        password: Some("pwd".to_string()),
        protocol: Some(protocol.to_string()),
        obfs: Some(obfs.to_string()),
        ..Default::default()
    }
}

fn build_ss_proxy(name: &str, cipher: &str) -> Proxy {
    Proxy {
        proxy_type: ProxyType::Shadowsocks,
        remark: name.to_string(),
        hostname: "example.com".to_string(),
        port: 443,
        encrypt_method: Some(cipher.to_string()),
        password: Some("pwd".to_string()),
        ..Default::default()
    }
}

fn entries(y: &Yaml) -> &Vec<(Yaml, Yaml)> {
    match y {
        Yaml::Dict(e) => e,
        _ => panic!("not a mapping"),
    }
}

fn get<'a>(y: &'a Yaml, key: &str) -> Option<&'a Yaml> {
    entries(y).iter().find(|(k, _)| matches!(k, Yaml::Text(s) if s == key)).map(|(_, v)| v)
}

fn text(y: &Yaml) -> &str {
    match y {
        Yaml::Text(s) => s.as_str(),
        _ => panic!("not a string"),
    }
}

fn names_under(yaml_node: &Yaml, key: &str) -> Vec<String> {
    match get(yaml_node, key) {
        Some(Yaml::List(items)) => items
            .iter()
            .filter_map(|item| get(item, "name").map(|n| text(n).to_string()))
            .collect(),
        _ => Vec::new(),
    }
}

fn extract_proxy_names(yaml_node: &Yaml) -> Vec<String> {
    names_under(yaml_node, "proxies")
}

fn keys(y: &Yaml) -> Vec<String> {
    entries(y).iter().map(|(k, _)| text(k).to_string()).collect()
}

fn group(name: &str, patterns: &[&str]) -> ProxyGroupConfig {
    ProxyGroupConfig {
        name: name.to_string(),
        group_type: ProxyGroupType::Select,
        proxies: patterns.iter().map(|p| p.to_string()).collect(),
        using_provider: vec![],
        url: String::new(),
        interval: 0,
    }
}

#[test]
fn clash_with_filter_deprecated_keeps_supported_ssr() {
    let mut nodes = vec![build_ssr_proxy(
        "ssr-ok",
        "aes-256-cfb",
        "auth_aes128_sha1",
        "tls1.2_ticket_auth",
    )];
    let mut yaml_node = Yaml::Dict(Vec::new());
    let mut ext = ExtraSettings {
        filter_deprecated: true,
        clash_new_field_name: true,
        ..Default::default()
    };

    proxy_to_clash_yaml(&mut nodes, &mut yaml_node, &vec![], &vec![], false, &mut ext);

    let names = extract_proxy_names(&yaml_node);
    assert_eq!(names, vec!["ssr-ok".to_string()]);
}

#[test]
fn clashr_with_filter_deprecated_allows_non_clash_cipher_ssr() {
    let mut nodes = vec![build_ssr_proxy(
        "ssr-clashr-only",
        "none",
        "auth_aes128_sha1",
        "tls1.2_ticket_auth",
    )];
    let mut yaml_node = Yaml::Dict(Vec::new());
    let mut ext = ExtraSettings {
        filter_deprecated: true,
        clash_new_field_name: true,
        ..Default::default()
    };

    proxy_to_clash_yaml(&mut nodes, &mut yaml_node, &vec![], &vec![], true, &mut ext);

    let names = extract_proxy_names(&yaml_node);
    assert_eq!(names, vec!["ssr-clashr-only".to_string()]);
}

#[test]
fn filter_deprecated_still_filters_chacha20_ss() {
    let mut nodes = vec![build_ss_proxy("ss-chacha20", "chacha20")];
    let mut yaml_node = Yaml::Dict(Vec::new());
    let mut ext = ExtraSettings {
        filter_deprecated: true,
        clash_new_field_name: true,
        ..Default::default()
    };

    proxy_to_clash_yaml(&mut nodes, &mut yaml_node, &vec![], &vec![], false, &mut ext);

    let names = extract_proxy_names(&yaml_node);
    assert!(names.is_empty());
}

#[test]
fn vanilla_clash_drops_ssr_with_foreign_cipher() {
    let p = build_ssr_proxy("x", "none", "auth_aes128_sha1", "tls1.2_ticket_auth");
    assert_eq!(skip_reason(&p, false, true), Some(SkipReason::DeprecatedSsr));
    assert_eq!(skip_reason(&p, true, true), None);
    assert_eq!(skip_reason(&p, false, false), None);
}

#[test]
fn clashr_still_needs_known_protocol_and_obfs() {
    let p = build_ssr_proxy("x", "aes-256-cfb", "auth_chain_z", "plain");
    assert_eq!(skip_reason(&p, true, true), Some(SkipReason::DeprecatedSsr));
    let q = build_ssr_proxy("x", "aes-256-cfb", "origin", "obfs_unknown");
    assert_eq!(skip_reason(&q, true, true), Some(SkipReason::DeprecatedSsr));
}

#[test]
fn snell_v4_and_unsupported_kinds_are_skipped() {
    let mut snell = build_ss_proxy("s", "x");
    snell.proxy_type = ProxyType::Snell;
    snell.snell_version = 4;
    assert_eq!(skip_reason(&snell, false, false), Some(SkipReason::SnellV4));
    snell.snell_version = 3;
    assert_eq!(skip_reason(&snell, false, false), None);
    let mut https = build_ss_proxy("h", "x");
    https.proxy_type = ProxyType::HTTPS;
    assert_eq!(skip_reason(&https, false, false), Some(SkipReason::Unsupported));
    let unknown = Proxy::default();
    assert_eq!(skip_reason(&unknown, true, true), Some(SkipReason::Unsupported));
}

#[test]
fn chacha20_ss_kept_without_filter() {
    let p = build_ss_proxy("ss", "chacha20");
    assert_eq!(skip_reason(&p, false, false), None);
    assert_eq!(skip_reason(&p, false, true), Some(SkipReason::DeprecatedSsCipher));
}

#[test]
fn legacy_field_names_use_proxy_key() {
    let mut nodes = vec![build_ssr_proxy(
        "ssr-ok",
        "aes-256-cfb",
        "auth_aes128_sha1",
        "tls1.2_ticket_auth",
    )];
    let mut yaml_node = Yaml::Dict(Vec::new());
    let mut ext = ExtraSettings { filter_deprecated: true, ..Default::default() };
    proxy_to_clash_yaml(&mut nodes, &mut yaml_node, &vec![], &vec![], false, &mut ext);
    assert_eq!(keys(&yaml_node), vec!["Proxy".to_string()]);
    assert_eq!(names_under(&yaml_node, "Proxy"), vec!["ssr-ok".to_string()]);
    assert!(get(&yaml_node, "proxies").is_none());
}

#[test]
fn field_names_flip_with_setting() {
    let groups = vec![group("Auto", &[".*"])];
    let mut out = Vec::new();
    for new_names in [true, false] {
        let mut nodes = vec![build_ss_proxy("a", "aes-128-gcm")];
        let mut doc = Yaml::Dict(vec![(Yaml::Text("port".into()), Yaml::Int(7890))]);
        let mut ext = ExtraSettings { clash_new_field_name: new_names, ..Default::default() };
        proxy_to_clash_yaml(&mut nodes, &mut doc, &vec![], &groups, false, &mut ext);
        out.push(keys(&doc));
    }
    assert_eq!(out[0], vec!["port", "proxies", "proxy-groups"]);
    assert_eq!(out[1], vec!["port", "Proxy", "Proxy Group"]);
}

#[test]
fn nodelist_mode_discards_template() {
    let mut nodes = vec![build_ss_proxy("a", "aes-128-gcm"), build_ss_proxy("b", "chacha20")];
    let mut doc = Yaml::Dict(vec![
        (Yaml::Text("port".into()), Yaml::Int(7890)),
        (Yaml::Text("rules".into()), Yaml::List(vec![])),
    ]);
    let mut ext = ExtraSettings {
        nodelist: true,
        filter_deprecated: true,
        clash_new_field_name: false,
        ..Default::default()
    };
    let groups = vec![group("G", &["[]DIRECT"])];
    proxy_to_clash_yaml(&mut nodes, &mut doc, &vec![], &groups, false, &mut ext);
    assert_eq!(keys(&doc), vec!["proxies".to_string()]);
    assert_eq!(extract_proxy_names(&doc), vec!["a".to_string()]);
}

#[test]
fn empty_group_gets_direct() {
    let mut nodes = vec![build_ss_proxy("HK 01", "aes-128-gcm")];
    let mut doc = Yaml::Dict(Vec::new());
    let mut ext = ExtraSettings { clash_new_field_name: true, ..Default::default() };
    let groups = vec![group("Nothing", &["US"]), group("HK", &["HK"])];
    proxy_to_clash_yaml(&mut nodes, &mut doc, &vec![], &groups, false, &mut ext);
    let gs = match get(&doc, "proxy-groups") {
        Some(Yaml::List(l)) => l,
        _ => panic!("no groups"),
    };
    let members = |g: &Yaml| -> Vec<String> {
        match get(g, "proxies") {
            Some(Yaml::List(l)) => l.iter().map(|m| text(m).to_string()).collect(),
            _ => vec![],
        }
    };
    assert_eq!(members(&gs[0]), vec!["DIRECT".to_string()]);
    assert_eq!(members(&gs[1]), vec!["HK 01".to_string()]);
    assert_eq!(text(get(&gs[0], "type").unwrap()), "select");
}

#[test]
fn generated_group_replaces_template_group_in_place() {
    let tmpl = |name: &str| {
        Yaml::Dict(vec![
            (Yaml::Text("name".into()), Yaml::Text(name.into())),
            (Yaml::Text("type".into()), Yaml::Text("fallback".into())),
        ])
    };
    let tg = vec![tmpl("A"), tmpl("B"), tmpl("C")];
    let gs = vec![group("B", &["[]DIRECT"]), group("D", &["[]REJECT"])];
    let r = merge_groups(tg, &gs, &vec![]);
    let names: Vec<&str> = r.iter().map(|g| text(get(g, "name").unwrap())).collect();
    assert_eq!(names, vec!["A", "B", "C", "D"]);
    assert_eq!(text(get(&r[1], "type").unwrap()), "select");
    assert_eq!(text(get(&r[0], "type").unwrap()), "fallback");
}

#[test]
fn remarks_get_type_prefix_and_are_made_unique() {
    let mut nodes = vec![
        build_ss_proxy("a", "x"),
        build_ss_proxy("a", "x"),
        build_ss_proxy("a", "x"),
    ];
    let mut doc = Yaml::Dict(Vec::new());
    let mut ext = ExtraSettings {
        clash_new_field_name: true,
        append_proxy_type: true,
        ..Default::default()
    };
    proxy_to_clash_yaml(&mut nodes, &mut doc, &vec![], &vec![], false, &mut ext);
    assert_eq!(extract_proxy_names(&doc), vec!["[SS] a", "[SS] a 2", "[SS] a 3"]);
    assert_eq!(prefixed_remark_of(&nodes[0], true), "[SS] a");
    assert_eq!(prefixed_remark_of(&nodes[0], false), "a");
    let mut remark = "n".to_string();
    process_remark(&mut remark, &vec!["n".to_string(), "n 2".to_string()]);
    assert_eq!(remark, "n 3");
    let mut free = "m".to_string();
    process_remark(&mut free, &vec!["n".to_string()]);
    assert_eq!(free, "m");
}

#[test]
fn proxy_entry_applies_defaults() {
    let mut p = build_ss_proxy("a", "aes-128-gcm");
    p.udp = Some(false);
    let y = proxy_node(&p, &"renamed".to_string(), Some(true), Some(true), None);
    assert_eq!(
        keys(&y),
        vec!["name", "type", "server", "port", "cipher", "password", "udp", "tfo"]
    );
    assert_eq!(text(get(&y, "name").unwrap()), "renamed");
    assert_eq!(text(get(&y, "type").unwrap()), "ss");
    assert!(matches!(get(&y, "port"), Some(Yaml::Int(443))));
    assert!(matches!(get(&y, "udp"), Some(Yaml::Bool(false))));
    assert!(matches!(get(&y, "tfo"), Some(Yaml::Bool(true))));
    let d = p.clone().apply_default_values(Some(true), None, Some(true));
    assert_eq!(d.udp, Some(false));
    assert_eq!(d.allow_insecure, Some(true));
}

#[test]
fn script_mode_sets_mode_and_adds_script() {
    let mut nodes = vec![build_ss_proxy("a", "aes-128-gcm")];
    let base = Yaml::Dict(vec![
        (Yaml::Text("mode".into()), Yaml::Text("rule".into())),
        (Yaml::Text("port".into()), Yaml::Int(7890)),
    ]);
    let mut rulesets = vec![RulesetContent {
        group: "Proxy".into(),
        rule_path: "lists/MOO.list".into(),
        rule_path_typed: "lists/MOO.list".into(),
        update_interval: 0,
        rule_content: "DOMAIN,example.com\n".into(),
    }];
    let mut ext = ExtraSettings {
        enable_rule_generator: true,
        clash_script: true,
        clash_new_field_name: false,
        managed_config_prefix: "https://x/y".into(),
        ..Default::default()
    };
    let converted = vec![rulesets[0].rule_content.clone()];
    let (out, rules) =
        proxy_to_clash(&mut nodes, base, &mut rulesets, &converted, &vec![], false, &mut ext);
    assert_eq!(rules, "");
    assert_eq!(keys(&out), vec!["mode", "port", "Proxy", "rule-providers", "script"]);
    assert_eq!(text(get(&out, "mode").unwrap()), "Script");
    let code = text(get(get(&out, "script").unwrap(), "code").unwrap());
    assert!(code.starts_with("def main(ctx, md):\n"));
}

#[test]
fn inline_rule_mode_drops_null_rules() {
    let mut nodes = vec![];
    let base = Yaml::Dict(vec![
        (Yaml::Text("rules".into()), Yaml::Null),
        (Yaml::Text("Rule".into()), Yaml::List(vec![])),
    ]);
    let mut ext = ExtraSettings {
        enable_rule_generator: true,
        clash_new_field_name: true,
        ..Default::default()
    };
    let (out, rules) = proxy_to_clash(&mut nodes, base, &mut vec![], &vec![], &vec![], false, &mut ext);
    assert_eq!(keys(&out), vec!["Rule", "proxies"]);
    assert_eq!(rules, "\nrules:\n");
}

#[test]
fn null_template_is_an_empty_mapping() {
    let mut nodes = vec![build_ss_proxy("a", "aes-128-gcm")];
    let mut ext = ExtraSettings { clash_new_field_name: true, ..Default::default() };
    let (out, _) = proxy_to_clash(&mut nodes, Yaml::Null, &mut vec![], &vec![], &vec![], false, &mut ext);
    assert_eq!(keys(&out), vec!["proxies"]);
}

#[test]
fn skipped_proxies_do_not_take_names() {
    let mut unknown = build_ss_proxy("a", "x");
    unknown.proxy_type = ProxyType::Unknown;
    let mut nodes = vec![unknown, build_ss_proxy("a", "x"), build_ss_proxy("a", "y")];
    let mut doc = Yaml::Dict(Vec::new());
    let mut ext = ExtraSettings { clash_new_field_name: true, ..Default::default() };
    proxy_to_clash_yaml(&mut nodes, &mut doc, &vec![], &vec![], false, &mut ext);
    assert_eq!(extract_proxy_names(&doc), vec!["a".to_string(), "a 2".to_string()]);
    assert_eq!(nodes[1].remark, "a");
}

#[test]
fn type_prefix_in_emitted_names() {
    let mut nodes = vec![build_ss_proxy("a", "x"), build_ss_proxy("a", "x")];
    let mut doc = Yaml::Dict(Vec::new());
    let mut ext = ExtraSettings {
        clash_new_field_name: true,
        append_proxy_type: true,
        ..Default::default()
    };
    proxy_to_clash_yaml(&mut nodes, &mut doc, &vec![], &vec![], false, &mut ext);
    assert_eq!(extract_proxy_names(&doc), vec!["[SS] a".to_string(), "[SS] a 2".to_string()]);
}

#[test]
fn template_rules_stay_and_are_listed_in_rules_text() {
    let mut nodes = vec![];
    let base = Yaml::Dict(vec![
        (Yaml::Text("port".into()), Yaml::Int(1)),
        (
            Yaml::Text("rules".into()),
            Yaml::List(vec![Yaml::Text("DOMAIN,x.com,DIRECT".into())]),
        ),
    ]);
    let mut rulesets = vec![RulesetContent {
        group: "G".into(),
        rule_path: "r.list".into(),
        rule_path_typed: "r.list".into(),
        update_interval: 0,
        rule_content: "raw".into(),
    }];
    let converted = vec!["DOMAIN,a.com".to_string()];
    let mut ext = ExtraSettings {
        enable_rule_generator: true,
        clash_new_field_name: true,
        ..Default::default()
    };
    let (out, rules) =
        proxy_to_clash(&mut nodes, base, &mut rulesets, &converted, &vec![], false, &mut ext);
    assert_eq!(keys(&out), vec!["port", "rules", "proxies"]);
    assert_eq!(rules, "\nrules:\n  - DOMAIN,x.com,DIRECT\n  - DOMAIN,a.com,G\n");
}
