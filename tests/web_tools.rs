use subconverter::model::{ExtraSettings, RulesetContent};
use subconverter::rules::{rules_suffix, ruleset_to_clash_str};
use subconverter::yaml::Yaml;
use subconverter::web::{
    profile_items,
    build_clash_payload, extract_rule_value, is_api_authorized, is_supported_target,
    normalize_rules_lines, profile_candidates, profile_query_string, ruleset_output, ruleset_source,
    transform_rule_to_common, ProfileQuery, RulesetQuery,
};

#[test]
fn authorization_follows_configured_token() {
    assert!(is_api_authorized(None, ""));
    assert!(is_api_authorized(Some("x"), ""));
    assert!(is_api_authorized(Some("secret"), "secret"));
    assert!(!is_api_authorized(Some("wrong"), "secret"));
    assert!(!is_api_authorized(None, "secret"));
}

#[test]
fn rules_lines_are_trimmed_without_comments() {
    let r = normalize_rules_lines("  DOMAIN,a.com  \n# c\n; c\n// c\n\n\tIP-CIDR,1.0.0.0/8\r\n");
    assert_eq!(r, vec!["DOMAIN,a.com", "IP-CIDR,1.0.0.0/8"]);
    assert!(normalize_rules_lines("").is_empty());
}

#[test]
fn rule_value_extraction() {
    assert_eq!(
        extract_rule_value(" DOMAIN , a.com ,Proxy"),
        Some(("DOMAIN".to_string(), "a.com".to_string()))
    );
    assert_eq!(extract_rule_value("FINAL"), None);
    assert_eq!(extract_rule_value("A,"), Some(("A".to_string(), "".to_string())));
}

#[test]
fn payload_quotes_lines() {
    let r = build_clash_payload(&vec!["a.com".to_string(), "it's".to_string()]);
    assert_eq!(r, "payload:\n  - 'a.com'\n  - 'it''s'\n");
    assert_eq!(build_clash_payload(&vec![]), "payload:\n\n");
}

#[test]
fn ruleset_formats() {
    let lines = vec![
        "DOMAIN,a.com".to_string(),
        "DOMAIN-SUFFIX,b.com".to_string(),
        "DOMAIN-KEYWORD,c".to_string(),
        "IP-CIDR,1.0.0.0/8,no-resolve".to_string(),
        "IP-CIDR6,::1/128".to_string(),
        "GEOIP,CN".to_string(),
    ];
    assert_eq!(
        ruleset_output(1, &lines, "G").unwrap(),
        "DOMAIN,a.com\nDOMAIN-SUFFIX,b.com\nDOMAIN-KEYWORD,c\nIP-CIDR,1.0.0.0/8,no-resolve\nIP-CIDR6,::1/128\nGEOIP,CN\n"
    );
    assert_eq!(
        ruleset_output(3, &lines, "G").unwrap(),
        "payload:\n  - 'a.com'\n  - '+.b.com'\n  - '*c*'\n"
    );
    assert_eq!(
        ruleset_output(4, &lines, "G").unwrap(),
        "payload:\n  - '1.0.0.0/8'\n  - '::1/128'\n"
    );
    assert!(ruleset_output(6, &lines, "G").unwrap().starts_with("payload:\n  - 'DOMAIN,a.com'\n"));
    assert_eq!(
        ruleset_output(2, &lines[3..5].to_vec(), "G").unwrap(),
        "IP-CIDR,1.0.0.0/8,G,no-resolve\nIP-CIDR6,::1/128,G\n"
    );
    assert_eq!(ruleset_output(5, &lines, "G"), Err("unsupported ruleset type".to_string()));
}

#[test]
fn common_rule_form() {
    assert_eq!(transform_rule_to_common("DOMAIN,a.com", "Proxy"), "DOMAIN,a.com,Proxy");
    assert_eq!(transform_rule_to_common("IP-CIDR,1.0.0.0/8,x", "P"), "IP-CIDR,1.0.0.0/8,P");
    assert_eq!(transform_rule_to_common("FINAL", "P"), "FINAL,P");
}

#[test]
fn targets_and_profiles() {
    assert!(is_supported_target("clash"));
    assert!(is_supported_target("singbox"));
    assert!(!is_supported_target("clash2"));
    assert_eq!(profile_candidates("p.ini"), vec!["p.ini", "base/p.ini"]);
    assert_eq!(profile_candidates("base/p.ini"), vec!["base/p.ini"]);
}

#[test]
fn profile_items_become_a_query() {
    let items = vec![
        ("target".to_string(), "clash".to_string()),
        ("url".to_string(), "https://a b/c?d=1".to_string()),
    ];
    assert_eq!(
        profile_query_string(&items),
        "target=clash&url=https%3A%2F%2Fa%20b%2Fc%3Fd%3D1"
    );
    assert_eq!(profile_query_string(&vec![]), "");
}

#[test]
fn query_types_hold_their_fields() {
    let p = ProfileQuery { name: "a".into(), token: None };
    let r = RulesetQuery { rule_type: 3, url: "x".into(), group: Some("g".into()) };
    assert_eq!(p.name, "a");
    assert_eq!(r.rule_type, 3);
}

fn ruleset(content: &str, group: &str) -> RulesetContent {
    RulesetContent {
        group: group.to_string(),
        rule_path: "r.list".to_string(),
        rule_path_typed: "r.list".to_string(),
        update_interval: 0,
        rule_content: content.to_string(),
    }
}

#[test]
fn inline_rules_section() {
    let rs = vec![
        ruleset("DOMAIN,a.com\n# note\nIP-CIDR,1.0.0.0/8,no-resolve\n", "Proxy"),
        ruleset("", "Skipped"),
        ruleset("[]GEOIP,CN", "Direct"),
        ruleset("[]FINAL", "Final"),
    ];
    let conv: Vec<String> = rs.iter().map(|r| r.rule_content.clone()).collect();
    let doc = Yaml::Dict(vec![(
        Yaml::Text("rules".into()),
        Yaml::List(vec![Yaml::Text("MATCH,Old".into())]),
    )]);
    assert_eq!(
        ruleset_to_clash_str(&doc, &rs, &conv, true, true),
        "\nrules:\n  - DOMAIN,a.com,Proxy\n  - IP-CIDR,1.0.0.0/8,Proxy,no-resolve\n  - GEOIP,CN,Direct\n  - MATCH,Final\n"
    );
    assert_eq!(ruleset_to_clash_str(&doc, &vec![], &vec![], false, false), "\nRule:\n");
    assert_eq!(
        ruleset_to_clash_str(&doc, &vec![], &vec![], false, true),
        "\nrules:\n  - MATCH,Old\n"
    );
}

#[test]
fn rules_follow_only_in_inline_mode() {
    let rs = vec![ruleset("[]MATCH", "G")];
    let conv = vec!["[]MATCH".to_string()];
    let doc = Yaml::Dict(vec![]);
    let mut ext = ExtraSettings {
        enable_rule_generator: true,
        clash_new_field_name: true,
        ..Default::default()
    };
    assert_eq!(rules_suffix(&doc, &rs, &conv, &ext), "\nrules:\n  - MATCH,G\n");
    ext.clash_script = true;
    assert_eq!(rules_suffix(&doc, &rs, &conv, &ext), "");
    ext.clash_script = false;
    ext.enable_rule_generator = false;
    assert_eq!(rules_suffix(&doc, &rs, &conv, &ext), "");
}

#[test]
fn unicode_whitespace_is_trimmed() {
    assert!(normalize_rules_lines("\u{3000}\n\u{a0}DOMAIN,a.com\u{2003}").len() == 1);
    assert_eq!(normalize_rules_lines("\u{3000}\n\u{a0}DOMAIN,a.com\u{2003}"), vec!["DOMAIN,a.com"]);
    assert_eq!(
        extract_rule_value("\u{3000}a,b\u{85}"),
        Some(("a".to_string(), "b".to_string()))
    );
}

#[test]
fn ruleset_type_prefix_is_stripped() {
    assert_eq!(ruleset_source("clash-domain:rules/a.yaml"), "rules/a.yaml");
    assert_eq!(ruleset_source("surge:https://x/a.list"), "https://x/a.list");
    assert_eq!(ruleset_source("rules/a.list"), "rules/a.list");
}

#[test]
fn empty_rule_list_formats() {
    assert_eq!(ruleset_output(1, &vec![], "G").unwrap(), "\n");
    assert_eq!(ruleset_output(2, &vec![], "G").unwrap(), "\n");
    assert_eq!(ruleset_output(6, &vec![], "G").unwrap(), "payload:\n\n");
}

#[test]
fn profile_section_items() {
    let text = "[Other]\nx=1\n[Profile]\n target = clash \nurl=a=b\nnoise\n[Tail]\ny=2\n";
    assert_eq!(
        profile_items(text),
        Some(vec![
            ("target".to_string(), "clash".to_string()),
            ("url".to_string(), "a=b".to_string()),
        ])
    );
    assert_eq!(profile_items("[Other]\nx=1\n"), None);
    assert_eq!(profile_items("[Profile]"), Some(vec![]));
}
