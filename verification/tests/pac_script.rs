use drover_proxy::config::{format_pac_proxy, generate_pac_script, Config, ProxyConfig, Rule};

fn rule(override_action: Option<&str>, proxy: Option<&str>, fallback: Option<&str>) -> Rule {
    Rule {
        override_action: override_action.map(|s| s.to_string()),
        proxy: proxy.map(|s| s.to_string()),
        fallback: fallback.map(|s| s.to_string()),
    }
}

fn config(main: Option<&str>, fallback: Option<&str>, rules: Vec<(&str, Rule)>) -> Config {
    Config {
        proxy: ProxyConfig { main: main.map(|s| s.to_string()), fallback: fallback.map(|s| s.to_string()) },
        rules: rules.into_iter().map(|(d, r)| (d.to_string(), r)).collect(),
    }
}

const HEADER: &str = "function FindProxyForURL(url, host) {\n";

#[test]
fn format_direct_any_case() {
    assert_eq!(format_pac_proxy("DIRECT"), "DIRECT");
    assert_eq!(format_pac_proxy("direct"), "DIRECT");
    assert_eq!(format_pac_proxy("DiReCt"), "DIRECT");
}

#[test]
fn format_keeps_ready_directives() {
    assert_eq!(format_pac_proxy("PROXY 10.0.0.1:3128"), "PROXY 10.0.0.1:3128");
    assert_eq!(format_pac_proxy("SOCKS5 127.0.0.1:1080"), "SOCKS5 127.0.0.1:1080");
    assert_eq!(format_pac_proxy("SOCKS 127.0.0.1:1080"), "SOCKS 127.0.0.1:1080");
}

#[test]
fn format_rewrites_urls() {
    assert_eq!(format_pac_proxy("socks5://127.0.0.1:10808"), "SOCKS5 127.0.0.1:10808");
    assert_eq!(format_pac_proxy("socks4://127.0.0.1:1080"), "SOCKS 127.0.0.1:1080");
    assert_eq!(format_pac_proxy("http://127.0.0.1:8080"), "PROXY 127.0.0.1:8080");
    assert_eq!(format_pac_proxy("127.0.0.1:8080"), "PROXY 127.0.0.1:8080");
    assert_eq!(format_pac_proxy(""), "PROXY ");
}

#[test]
fn format_prefixes_are_case_sensitive() {
    assert_eq!(format_pac_proxy("SOCKS5://h:1"), "SOCKS5://h:1");
    assert_eq!(format_pac_proxy("Socks5://h:1"), "PROXY Socks5://h:1");
    assert_eq!(format_pac_proxy("proxy h:1"), "PROXY proxy h:1");
}

#[test]
fn format_is_idempotent() {
    for addr in ["direct", "socks5://a:1", "socks4://b:2", "http://c:3", "d:4", "PROXY e:5", "SOCKSx"] {
        let once = format_pac_proxy(addr);
        assert_eq!(format_pac_proxy(&once), once);
    }
}

#[test]
fn script_default_is_direct() {
    let script = generate_pac_script(&Config::default());
    assert_eq!(script, format!("{}  return \"DIRECT\";\n}}\n", HEADER));
}

#[test]
fn script_main_only() {
    let script = generate_pac_script(&config(Some("socks5://127.0.0.1:1080"), None, vec![]));
    assert_eq!(script, format!("{}  return \"SOCKS5 127.0.0.1:1080; DIRECT\";\n}}\n", HEADER));
}

#[test]
fn script_main_and_fallback() {
    let script = generate_pac_script(&config(
        Some("socks5://127.0.0.1:10808"),
        Some("http://127.0.0.1:10808"),
        vec![],
    ));
    assert_eq!(
        script,
        format!("{}  return \"SOCKS5 127.0.0.1:10808; PROXY 127.0.0.1:10808; DIRECT\";\n}}\n", HEADER)
    );
}

#[test]
fn script_direct_fallback_is_not_repeated() {
    let script = generate_pac_script(&config(Some("http://p:1"), Some("direct"), vec![]));
    assert_eq!(script, format!("{}  return \"PROXY p:1; DIRECT\";\n}}\n", HEADER));
}

#[test]
fn script_global_override_decides_everything() {
    let script = generate_pac_script(&config(
        Some("socks5://a:1"),
        None,
        vec![("*", rule(Some("http://g:2"), Some("on"), None)), ("x.com", rule(None, Some("off"), None))],
    ));
    assert_eq!(script, format!("{}  return \"PROXY g:2\";\n}}\n", HEADER));
}

#[test]
fn script_global_on_uses_chain() {
    let script = generate_pac_script(&config(
        Some("socks5://a:1"),
        Some("socks4://b:2"),
        vec![("x.com", rule(None, Some("off"), None)), ("*", rule(None, Some("ON"), None))],
    ));
    assert_eq!(script, format!("{}  return \"SOCKS5 a:1; SOCKS b:2; DIRECT\";\n}}\n", HEADER));
}

#[test]
fn script_domain_rules_in_order() {
    let script = generate_pac_script(&config(
        Some("socks5://a:1"),
        None,
        vec![
            ("*.discord.com", rule(None, Some("on"), None)),
            ("example.com", rule(None, Some("OFF"), None)),
            ("b.com", rule(Some("direct"), None, None)),
            ("c.com", rule(None, None, Some("http://f:3"))),
            ("d.com", rule(None, Some("maybe"), None)),
            ("*", rule(None, Some("off"), None)),
        ],
    ));
    let expected = format!(
        "{}{}{}{}{}{}}}\n",
        HEADER,
        "  if (shExpMatch(host, \"*.discord.com\")) return \"SOCKS5 a:1; DIRECT\";\n",
        "  if (host === \"example.com\") return \"DIRECT\";\n",
        "  if (host === \"b.com\") return \"DIRECT\";\n",
        "  if (host === \"c.com\") return \"SOCKS5 a:1; PROXY f:3\";\n",
        "  return \"SOCKS5 a:1; DIRECT\";\n",
    );
    assert_eq!(script, expected);
}

#[test]
fn script_without_main_ends_direct() {
    let script = generate_pac_script(&config(None, None, vec![("x.org", rule(None, None, Some("socks5://f:9")))]));
    assert_eq!(
        script,
        format!("{}  if (host === \"x.org\") return \"DIRECT; SOCKS5 f:9\";\n  return \"DIRECT\";\n}}\n", HEADER)
    );
}

#[test]
fn script_frame_always_present() {
    for cfg in [Config::default(), config(Some("x:1"), None, vec![("*", rule(Some("q"), None, None))])] {
        let script = generate_pac_script(&cfg);
        assert!(script.starts_with(HEADER));
        assert!(script.ends_with("}\n"));
    }
}
