use subconverter::codec::{url_safe_base64_decode, url_safe_base64_decode_bytes, url_safe_base64_encode};
use subconverter::model::RulesetContent;
use subconverter::script::build_clash_script_parts;
use subconverter::yaml::Yaml;

fn rs(path: &str, content: &str, group: &str) -> RulesetContent {
    RulesetContent {
        group: group.to_string(),
        rule_path: path.to_string(),
        rule_path_typed: path.to_string(),
        update_interval: 0,
        rule_content: content.to_string(),
    }
}

fn parts(rulesets: &Vec<RulesetContent>, prefix: &str, interval: u32) -> (Yaml, String) {
    let converted: Vec<String> = rulesets.iter().map(|r| r.rule_content.clone()).collect();
    build_clash_script_parts(rulesets, &converted, prefix, interval)
}

fn provider_entries(y: &Yaml) -> Vec<(String, Vec<(String, String)>)> {
    let e = match y {
        Yaml::Dict(e) => e,
        _ => panic!("not a mapping"),
    };
    e.iter()
        .map(|(k, v)| {
            let name = match k {
                Yaml::Text(s) => s.clone(),
                _ => panic!(),
            };
            let fields = match v {
                Yaml::Dict(f) => f
                    .iter()
                    .map(|(a, b)| {
                        let a = match a {
                            Yaml::Text(s) => s.clone(),
                            _ => panic!(),
                        };
                        let b = match b {
                            Yaml::Text(s) => s.clone(),
                            Yaml::Int(n) => n.to_string(),
                            _ => panic!(),
                        };
                        (a, b)
                    })
                    .collect(),
                _ => panic!(),
            };
            (name, fields)
        })
        .collect()
}

#[test]
fn script_generation_scenario() {
    let rulesets = vec![
        rs("lists/MOO.list", "DOMAIN,example.com\n", "Proxy"),
        rs("", "[]GEOIP,CN", "Domestic"),
        rs("", "[]FINAL", "Fallback"),
    ];
    let (providers, code) = parts(&rulesets, "https://x/y", 86400);
    let ps = provider_entries(&providers);
    assert_eq!(ps.len(), 1);
    assert_eq!(ps[0].0, "MOO");
    let url = format!("https://x/y/getruleset?type=6&url={}", url_safe_base64_encode("lists/MOO.list"));
    assert_eq!(
        ps[0].1,
        vec![
            ("type".to_string(), "http".to_string()),
            ("behavior".to_string(), "classical".to_string()),
            ("url".to_string(), url),
            ("path".to_string(), "./providers/rule-provider_MOO.yaml".to_string()),
            ("interval".to_string(), "86400".to_string()),
        ]
    );
    let expected = [
        "def main(ctx, md):\n  host = md[\"host\"]\n\n",
        "  if ctx.rule_providers[\"MOO\"].match(md):\n    ctx.log('[Script] matched Proxy rule')\n    return \"Proxy\"\n\n",
        "\n",
        "  geoips = { \"CN\": \"Domestic\" }\n",
        "  ip = md[\"dst_ip\"]\n  if ip == \"\":\n    ip = ctx.resolve_ip(host)\n    if ip == \"\":\n      ctx.log('[Script] dns lookup error use Fallback')\n      return \"Fallback\"\n",
        "  for key in geoips:\n    if ctx.geoip(ip) == key:\n      return geoips[key]\n  return \"Fallback\"",
    ]
    .concat();
    assert_eq!(code, expected);
    assert!(code.contains("  geoips = { \"CN\": \"Domestic\" }\n"));
    assert!(code.ends_with("return \"Fallback\""));
}

#[test]
fn apple_ipcidr_is_suppressed() {
    let rulesets = vec![rs(
        "rules/Apple.list",
        "DOMAIN-SUFFIX,apple.com\nIP-CIDR,17.0.0.0/8\n",
        "Apple",
    )];
    let (providers, code) = parts(&rulesets, "https://x", 86400);
    let ps = provider_entries(&providers);
    assert_eq!(ps.len(), 1);
    assert_eq!(ps[0].0, "Apple_domain");
    assert_eq!(ps[0].1[1].1, "domain");
    assert!(code.contains("matched Apple DOMAIN rule')\n    return \"Apple\"\n\n\n\n\n  geoips = {}\n"));
}

#[test]
fn mixed_ruleset_yields_domain_and_ipcidr_providers() {
    let mut r = rs(
        "rules/Media.list",
        "# comment\n\nDOMAIN-KEYWORD,video\n  IP-CIDR , 1.2.3.0/24\n",
        "Media",
    );
    r.update_interval = 3600;
    r.rule_path_typed = "surge:rules/Media.list".into();
    let (providers, code) = parts(&vec![r], "p", 86400);
    let ps = provider_entries(&providers);
    let names: Vec<&str> = ps.iter().map(|p| p.0.as_str()).collect();
    assert_eq!(names, vec!["Media_domain", "Media_ipcidr"]);
    assert_eq!(ps[1].1[1].1, "ipcidr");
    assert_eq!(
        ps[1].1[2].1,
        format!("p/getruleset?type=4&url={}", url_safe_base64_encode("surge:rules/Media.list"))
    );
    assert_eq!(ps[0].1[2].1.split("type=").nth(1).unwrap().chars().next(), Some('3'));
    assert_eq!(ps[0].1[4].1, "3600");
    assert!(code.contains("ctx.log('[Script] matched Media IP rule')"));
}

#[test]
fn classical_and_blank_placeholders() {
    let rulesets = vec![
        rs("a/Other.list", "USER-AGENT,foo\n", "G1"),
        rs("a/Ip.list", "IP-CIDR,10.0.0.0/8\n", "G2"),
        rs("a/Empty.list", "", "G3"),
        rs("a/Blank.list", "  \n ", "G4"),
        rs("", "[]MATCH", "Last"),
        rs("", "[]UNKNOWN", "Ignored"),
    ];
    let (providers, code) = parts(&rulesets, "p", 86400);
    let ps = provider_entries(&providers);
    let names: Vec<&str> = ps.iter().map(|p| p.0.as_str()).collect();
    assert_eq!(names, vec!["Other", "Ip_ipcidr"]);
    assert_eq!(ps[0].1[1].1, "classical");
    assert!(code.contains("return \"G1\"\n\n\n\n  if ctx.rule_providers[\"Ip_ipcidr\"]"));
    assert!(code.ends_with("return \"Last\""));
    assert!(code.contains("  geoips = {}\n"));
}

#[test]
fn download_is_forced_classical_and_names_repeat_in_place() {
    let rulesets = vec![
        rs("x/Download.list", "DOMAIN,a.com\nIP-CIDR,1.1.1.1/32\n", "D"),
        rs("y/Download", "DOMAIN,b.com\n", "E"),
        rs("", "[]GEOIP, JP ,x", "Japan"),
        rs("", "[]GEOIP,US", "America"),
    ];
    let (providers, code) = parts(&rulesets, "p", 86400);
    let ps = provider_entries(&providers);
    assert_eq!(ps.len(), 1);
    assert_eq!(ps[0].0, "Download");
    assert_eq!(ps[0].1[1].1, "classical");
    assert!(code.contains("  geoips = { \"JP\": \"Japan\", \"US\": \"America\" }\n"));
}

#[test]
fn script_text_is_deterministic() {
    let rulesets = vec![
        rs("lists/A.list", "DOMAIN,a\nIP-CIDR,1.0.0.0/8\n", "A"),
        rs("", "[]GEOIP,CN", "CN"),
    ];
    let a = parts(&rulesets, "p", 86400).1;
    let b = parts(&rulesets.clone(), "p", 86400).1;
    assert_eq!(a, b);
}

#[test]
fn base64_is_url_safe_without_padding() {
    assert_eq!(url_safe_base64_encode(""), "");
    assert_eq!(url_safe_base64_encode("f"), "Zg");
    assert_eq!(url_safe_base64_encode("fo"), "Zm8");
    assert_eq!(url_safe_base64_encode("foo"), "Zm9v");
    assert_eq!(url_safe_base64_encode("foobar"), "Zm9vYmFy");
    assert_eq!(url_safe_base64_encode("\u{fb}\u{ff}"), "w7vDvw");
    assert_eq!(url_safe_base64_encode("??>"), "Pz8-");
    assert_eq!(url_safe_base64_encode("???"), "Pz8_");
}

#[test]
fn base64_decodes_what_it_encodes() {
    assert_eq!(url_safe_base64_decode("Zm9vYmFy"), Some("foobar".to_string()));
    assert_eq!(url_safe_base64_decode("Zm8"), Some("fo".to_string()));
    assert_eq!(url_safe_base64_decode("Pz8-"), Some("??>".to_string()));
    assert_eq!(url_safe_base64_decode("Pz8+"), Some("??>".to_string()));
    assert_eq!(url_safe_base64_decode("Pz8/"), Some("???".to_string()));
    assert_eq!(url_safe_base64_decode(""), Some(String::new()));
    assert_eq!(url_safe_base64_decode("Z"), None);
    assert_eq!(url_safe_base64_decode("Zm9v!"), None);
    assert_eq!(url_safe_base64_decode_bytes("_w"), Some(vec![0xff]));
    assert_eq!(url_safe_base64_decode("_w"), None);
}

#[test]
fn classification_reads_converted_text() {
    let rulesets = vec![rs("r/Net.list", "payload:\n  - '10.0.0.0/8'\n", "Net")];
    let converted = vec!["IP-CIDR,10.0.0.0/8".to_string()];
    let (providers, _) = build_clash_script_parts(&rulesets, &converted, "p", 86400);
    let ps = provider_entries(&providers);
    assert_eq!(ps.len(), 1);
    assert_eq!(ps[0].0, "Net_ipcidr");
}
