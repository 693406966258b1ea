//! Proxy configuration and the PAC (proxy auto-config) script built from it.
//!
//! The rules of a configuration are held in the order in which the caller
//! walked its table of domains; the script lists the per-domain lines in that
//! order.

use vstd::prelude::*;
use crate::text::{
    ascii_lower_code, contains, eq_ignore_ascii_case, occurs_at, starts_with, str_eq_ignore_ascii_case, str_equal, str_starts_with, strip_prefix,
};

verus! {

/// The `[proxy]` section: the main proxy and an optional fallback.
pub struct ProxyConfig {
    pub main: Option<String>,
    pub fallback: Option<String>,
}

/// Routing for one domain pattern.
pub struct Rule {
    /// `override` in the configuration file: a fixed PAC answer.
    pub override_action: Option<String>,
    /// `"on"` routes through the main proxy chain, `"off"` goes direct.
    pub proxy: Option<String>,
    /// A fallback proxy tried after the main one.
    pub fallback: Option<String>,
}

/// The whole configuration.
pub struct Config {
    pub proxy: ProxyConfig,
    /// Domain pattern and rule, in the order the table was walked.
    pub rules: Vec<(String, Rule)>,
}

impl Default for ProxyConfig {
    fn default() -> (r: Self)
        ensures
            r.main is None,
            r.fallback is None,
    {
        ProxyConfig { main: None, fallback: None }
    }
}

impl Default for Rule {
    fn default() -> (r: Self)
        ensures
            r.override_action is None,
            r.proxy is None,
            r.fallback is None,
    {
        Rule { override_action: None, proxy: None, fallback: None }
    }
}

impl Default for Config {
    fn default() -> (r: Self)
        ensures
            r.proxy.main is None,
            r.proxy.fallback is None,
            r.rules@.len() == 0,
            r.has_unique_domains(),
    {
        Config { proxy: ProxyConfig { main: None, fallback: None }, rules: Vec::new() }
    }
}

impl Config {
    /// No domain pattern occurs twice, as in the table the file is read into.
    pub open spec fn has_unique_domains(&self) -> bool {
        forall|i: int, j: int|
            0 <= i < j < self.rules@.len() ==> #[trigger] self.rules@[i].0@ != #[trigger] self.rules@[j].0@
    }
}

/// The PAC directive for one configured proxy address.
pub open spec fn pac_proxy(addr: Seq<char>) -> Seq<char> {
    if eq_ignore_ascii_case(addr, "DIRECT"@) {
        "DIRECT"@
    } else if starts_with(addr, "PROXY "@) || starts_with(addr, "SOCKS"@) {
        addr
    } else if starts_with(addr, "socks5://"@) {
        "SOCKS5 "@ + addr.skip("socks5://"@.len() as int)
    } else if starts_with(addr, "socks4://"@) {
        "SOCKS "@ + addr.skip("socks4://"@.len() as int)
    } else if starts_with(addr, "http://"@) {
        "PROXY "@ + addr.skip("http://"@.len() as int)
    } else {
        "PROXY "@ + addr
    }
}

/// The directive for an optional address; no address means a direct connection.
pub open spec fn optional_pac_proxy(addr: Option<String>) -> Seq<char> {
    match addr {
        Some(a) => pac_proxy(a@),
        None => "DIRECT"@,
    }
}

/// The chain used when a route is switched on: main, fallback unless direct, then direct.
pub open spec fn on_route(main: Seq<char>, fallback: Seq<char>) -> Seq<char> {
    if !eq_ignore_ascii_case(fallback, "DIRECT"@) {
        main + "; "@ + fallback + "; DIRECT"@
    } else {
        main + "; DIRECT"@
    }
}

/// First line of every script.
pub open spec fn script_header() -> Seq<char> {
    "function FindProxyForURL(url, host) {\n"@
}

/// Last line of every script.
pub open spec fn script_footer() -> Seq<char> {
    "}\n"@
}

/// An unconditional `return` line.
pub open spec fn return_line(answer: Seq<char>) -> Seq<char> {
    "  return \""@ + answer + "\";\n"@
}

/// The host test for one domain pattern: `*.` patterns are shell-matched.
pub open spec fn host_condition(domain: Seq<char>) -> Seq<char> {
    if starts_with(domain, "*."@) {
        "shExpMatch(host, \""@ + domain + "\")"@
    } else {
        "host === \""@ + domain + "\""@
    }
}

/// A `return` line guarded by a host test.
pub open spec fn guarded_return(condition: Seq<char>, answer: Seq<char>) -> Seq<char> {
    "  if ("@ + condition + ") return \""@ + answer + "\";\n"@
}

/// The `proxy` setting is present and says `on` (in any ASCII case).
pub open spec fn is_switch(setting: Option<String>, word: Seq<char>) -> bool {
    setting matches Some(v) && eq_ignore_ascii_case(v@, word)
}

/// The line a rule contributes; the global pattern `*` contributes none.
pub open spec fn rule_line(domain: Seq<char>, rule: Rule, main: Seq<char>, on: Seq<char>) -> Seq<char> {
    if domain == "*"@ {
        Seq::empty()
    } else {
        let c = host_condition(domain);
        match rule.override_action {
            Some(o) => guarded_return(c, pac_proxy(o@)),
            None => if is_switch(rule.proxy, "on"@) {
                guarded_return(c, on)
            } else if is_switch(rule.proxy, "off"@) {
                guarded_return(c, "DIRECT"@)
            } else {
                match rule.fallback {
                    Some(f) => guarded_return(c, main + "; "@ + pac_proxy(f@)),
                    None => Seq::empty(),
                }
            },
        }
    }
}

/// The lines of all rules, in order.
pub open spec fn rule_lines(rules: Seq<(String, Rule)>, main: Seq<char>, on: Seq<char>) -> Seq<char>
    decreases rules.len(),
{
    if rules.len() == 0 {
        Seq::empty()
    } else {
        rule_lines(rules.drop_last(), main, on) + rule_line(rules.last().0@, rules.last().1, main, on)
    }
}

/// The first rule at or after position `i` whose pattern is `key`.
pub open spec fn find_rule_from(rules: Seq<(String, Rule)>, key: Seq<char>, i: int) -> Option<Rule>
    decreases rules.len() - i,
{
    if i < 0 || i >= rules.len() {
        None
    } else if rules[i].0@ == key {
        Some(rules[i].1)
    } else {
        find_rule_from(rules, key, i + 1)
    }
}

/// The rule for pattern `key`, if any.
pub open spec fn find_rule(rules: Seq<(String, Rule)>, key: Seq<char>) -> Option<Rule> {
    find_rule_from(rules, key, 0)
}

/// The closing `return` used when no rule matched.
pub open spec fn default_line(main: Seq<char>, on: Seq<char>) -> Seq<char> {
    if !eq_ignore_ascii_case(main, "DIRECT"@) {
        return_line(on)
    } else {
        return_line("DIRECT"@)
    }
}

/// The PAC script of a configuration.
pub open spec fn pac_script(config: Config) -> Seq<char> {
    let main = optional_pac_proxy(config.proxy.main);
    let fallback = optional_pac_proxy(config.proxy.fallback);
    let on = on_route(main, fallback);
    match find_rule(config.rules@, "*"@) {
        Some(global) => match global.override_action {
            Some(o) => script_header() + return_line(pac_proxy(o@)) + script_footer(),
            None => if is_switch(global.proxy, "on"@) {
                script_header() + return_line(on) + script_footer()
            } else {
                script_header() + rule_lines(config.rules@, main, on) + default_line(main, on)
                    + script_footer()
            },
        },
        None => script_header() + rule_lines(config.rules@, main, on) + default_line(main, on)
            + script_footer(),
    }
}

/// Turns a configured proxy address into a PAC directive.
pub fn format_pac_proxy(addr: &str) -> (r: String)
    ensures
        r@ == pac_proxy(addr@),
{
    if str_eq_ignore_ascii_case(addr, "DIRECT") {
        return "DIRECT".to_owned();
    }
    if str_starts_with(addr, "PROXY ") || str_starts_with(addr, "SOCKS") {
        return addr.to_owned();
    }
    if let Some(stripped) = strip_prefix(addr, "socks5://") {
        let mut r = "SOCKS5 ".to_owned();
        r.append(stripped.as_str());
        r
    } else if let Some(stripped) = strip_prefix(addr, "socks4://") {
        let mut r = "SOCKS ".to_owned();
        r.append(stripped.as_str());
        r
    } else if let Some(stripped) = strip_prefix(addr, "http://") {
        let mut r = "PROXY ".to_owned();
        r.append(stripped.as_str());
        r
    } else {
        let mut r = "PROXY ".to_owned();
        r.append(addr);
        r
    }
}

/// The directive for an optional address, as `optional_pac_proxy` states.
fn format_optional_pac_proxy(addr: &Option<String>) -> (r: String)
    ensures
        r@ == optional_pac_proxy(*addr),
{
    match addr {
        Some(a) => format_pac_proxy(a.as_str()),
        None => "DIRECT".to_owned(),
    }
}

/// Builds `return_line(answer)`.
fn make_return_line(answer: &str) -> (r: String)
    ensures
        r@ == return_line(answer@),
{
    let mut r = "  return \"".to_owned();
    r.append(answer);
    r.append("\";\n");
    r
}

/// Builds `host_condition(domain)`.
fn make_host_condition(domain: &str) -> (r: String)
    ensures
        r@ == host_condition(domain@),
{
    if str_starts_with(domain, "*.") {
        let mut r = "shExpMatch(host, \"".to_owned();
        r.append(domain);
        r.append("\")");
        r
    } else {
        let mut r = "host === \"".to_owned();
        r.append(domain);
        r.append("\"");
        r
    }
}

/// Builds `guarded_return(condition, answer)`.
fn make_guarded_return(condition: &str, answer: &str) -> (r: String)
    ensures
        r@ == guarded_return(condition@, answer@),
{
    let mut r = "  if (".to_owned();
    r.append(condition);
    r.append(") return \"");
    r.append(answer);
    r.append("\";\n");
    r
}

/// Whether an optional setting is present and equals `word` up to ASCII case.
fn setting_is(setting: &Option<String>, word: &str) -> (r: bool)
    ensures
        r == is_switch(*setting, word@),
{
    match setting {
        Some(v) => str_eq_ignore_ascii_case(v.as_str(), word),
        None => false,
    }
}

/// Builds `rule_line(domain, rule, main, on)`.
fn make_rule_line(domain: &String, rule: &Rule, main: &String, on: &String) -> (r: String)
    ensures
        r@ == rule_line(domain@, *rule, main@, on@),
{
    if str_equal(domain.as_str(), "*") {
        return String::new();
    }
    let c = make_host_condition(domain.as_str());
    match &rule.override_action {
        Some(o) => {
            let answer = format_pac_proxy(o.as_str());
            make_guarded_return(c.as_str(), answer.as_str())
        },
        None => {
            if setting_is(&rule.proxy, "on") {
                make_guarded_return(c.as_str(), on.as_str())
            } else if setting_is(&rule.proxy, "off") {
                make_guarded_return(c.as_str(), "DIRECT")
            } else {
                match &rule.fallback {
                    Some(f) => {
                        let mut answer = main.clone();
                        answer.append("; ");
                        let fb = format_pac_proxy(f.as_str());
                        answer.append(fb.as_str());
                        make_guarded_return(c.as_str(), answer.as_str())
                    },
                    None => String::new(),
                }
            }
        },
    }
}

/// Position of the first rule whose pattern is `key`.
fn find_rule_index(rules: &Vec<(String, Rule)>, key: &str) -> (r: Option<usize>)
    ensures
        r matches Some(i) ==> i < rules@.len() && find_rule(rules@, key@) == Some(rules@[i as int].1),
        r is None ==> find_rule(rules@, key@) is None,
{
    let mut i: usize = 0;
    while i < rules.len()
        invariant
            i <= rules@.len(),
            find_rule(rules@, key@) == find_rule_from(rules@, key@, i as int),
        decreases rules.len() - i,
    {
        if str_equal(rules[i].0.as_str(), key) {
            return Some(i);
        }
        i = i + 1;
    }
    None
}

/// Builds the PAC script for a configuration.
///
/// A global rule (pattern `*`) with an override, or with `proxy = "on"`,
/// decides every host; otherwise each rule contributes its guarded line and
/// the script ends with the main chain, or a direct connection when there is
/// no main proxy.
pub fn generate_pac_script(config: &Config) -> (script: String)
    ensures
        script@ == pac_script(*config),
{
    let main_pac = format_optional_pac_proxy(&config.proxy.main);
    let fallback_pac = format_optional_pac_proxy(&config.proxy.fallback);
    let on_route_s = if !str_eq_ignore_ascii_case(fallback_pac.as_str(), "DIRECT") {
        let mut r = main_pac.clone();
        r.append("; ");
        r.append(fallback_pac.as_str());
        r.append("; DIRECT");
        r
    } else {
        let mut r = main_pac.clone();
        r.append("; DIRECT");
        r
    };
    let ghost main = main_pac@;
    let ghost on = on_route_s@;
    assert(on == on_route(main, fallback_pac@));

    let mut script = "function FindProxyForURL(url, host) {\n".to_owned();

    if let Some(g) = find_rule_index(&config.rules, "*") {
        let global = &config.rules[g].1;
        if let Some(over) = &global.override_action {
            let answer = format_pac_proxy(over.as_str());
            let line = make_return_line(answer.as_str());
            script.append(line.as_str());
            script.append("}\n");
            return script;
        }
        if setting_is(&global.proxy, "on") {
            let line = make_return_line(on_route_s.as_str());
            script.append(line.as_str());
            script.append("}\n");
            return script;
        }
    }

    let mut i: usize = 0;
    while i < config.rules.len()
        invariant
            i <= config.rules@.len(),
            main == main_pac@,
            on == on_route_s@,
            script@ == script_header() + rule_lines(config.rules@.take(i as int), main, on),
        decreases config.rules.len() - i,
    {
        let entry = &config.rules[i];
        let line = make_rule_line(&entry.0, &entry.1, &main_pac, &on_route_s);
        script.append(line.as_str());
        assert(config.rules@.take(i + 1).drop_last() =~= config.rules@.take(i as int));
        i = i + 1;
    }
    assert(config.rules@.take(config.rules@.len() as int) =~= config.rules@);

    if !str_eq_ignore_ascii_case(main_pac.as_str(), "DIRECT") {
        let line = make_return_line(on_route_s.as_str());
        script.append(line.as_str());
    } else {
        let line = make_return_line("DIRECT");
        script.append(line.as_str());
    }
    script.append("}\n");
    script
}

/// Every configured address becomes a PAC directive: `DIRECT`, a `PROXY ` entry or a `SOCKS` entry.
pub proof fn lemma_pac_proxy_is_directive(addr: Seq<char>)
    ensures
        pac_proxy(addr) == "DIRECT"@ || starts_with(pac_proxy(addr), "PROXY "@)
            || starts_with(pac_proxy(addr), "SOCKS"@),
{
    reveal_strlit("PROXY ");
    reveal_strlit("SOCKS");
    reveal_strlit("SOCKS5 ");
    reveal_strlit("SOCKS ");
    let r = pac_proxy(addr);
    if !eq_ignore_ascii_case(addr, "DIRECT"@) && !starts_with(addr, "PROXY "@) && !starts_with(addr, "SOCKS"@) {
        if starts_with(addr, "socks5://"@) || starts_with(addr, "socks4://"@) {
            assert(r.subrange(0, 5) =~= "SOCKS"@);
        } else {
            assert(r.subrange(0, 6) =~= "PROXY "@);
        }
    }
}

/// Formatting an address twice gives what formatting it once gives.
pub proof fn lemma_pac_proxy_idempotent(addr: Seq<char>)
    ensures
        pac_proxy(pac_proxy(addr)) == pac_proxy(addr),
{
    reveal_strlit("DIRECT");
    reveal_strlit("PROXY ");
    reveal_strlit("SOCKS");
    let r = pac_proxy(addr);
    lemma_pac_proxy_is_directive(addr);
    if r == "DIRECT"@ {
        assert(eq_ignore_ascii_case(r, "DIRECT"@));
    } else {
        if eq_ignore_ascii_case(r, "DIRECT"@) {
            if starts_with(r, "PROXY "@) {
                assert(ascii_lower_code(r[0]) == ascii_lower_code("DIRECT"@[0]));
                assert(r[0] == r.subrange(0, 6)[0]);
            } else {
                assert(ascii_lower_code(r[0]) == ascii_lower_code("DIRECT"@[0]));
                assert(r[0] == r.subrange(0, 5)[0]);
            }
        }
    }
}

/// The chain used for switched-on routes always ends in a direct connection.
pub proof fn lemma_on_route_ends_direct(main: Seq<char>, fallback: Seq<char>)
    ensures
        on_route(main, fallback).len() >= "DIRECT"@.len(),
        on_route(main, fallback).subrange(
            on_route(main, fallback).len() - "DIRECT"@.len(),
            on_route(main, fallback).len() as int,
        ) == "DIRECT"@,
{
    reveal_strlit("DIRECT");
    reveal_strlit("; DIRECT");
    let r = on_route(main, fallback);
    assert(r.subrange(r.len() - 6, r.len() as int) =~= "DIRECT"@);
}

/// Every script opens with the `FindProxyForURL` header and closes its body.
pub proof fn lemma_pac_script_frame(config: Config)
    ensures
        starts_with(pac_script(config), script_header()),
        pac_script(config).len() >= script_header().len() + script_footer().len(),
        pac_script(config).subrange(
            pac_script(config).len() - script_footer().len(),
            pac_script(config).len() as int,
        ) == script_footer(),
        starts_with(pac_script(config), "function FindProxyForURL(url, host) {\n"@),
        pac_script(config).subrange(pac_script(config).len() - 2, pac_script(config).len() as int) == seq!['}', '\n'],
{
    reveal_strlit("}\n");
    let s = pac_script(config);
    let h = script_header();
    let f = script_footer();
    let body = s.subrange(h.len() as int, s.len() - f.len());
    assert(s =~= h + body + f);
    assert(s.subrange(0, h.len() as int) =~= h);
    assert(s.subrange(s.len() - f.len(), s.len() as int) =~= f);
}

/// What each form of configured address becomes:
/// - `DIRECT` in any case becomes `DIRECT`;
/// - an address that already starts with `PROXY ` or `SOCKS` is kept as it is;
/// - `socks5://rest` becomes `SOCKS5 rest`, `socks4://rest` becomes
///   `SOCKS rest` and `http://rest` becomes `PROXY rest`, the whole of `rest`
///   kept;
/// - any other address `a` becomes `PROXY a`.
pub proof fn lemma_pac_proxy_forms(a: Seq<char>)
    ensures
        eq_ignore_ascii_case(a, "DIRECT"@) ==> pac_proxy(a) == seq!['D', 'I', 'R', 'E', 'C', 'T'],
        !eq_ignore_ascii_case(a, "DIRECT"@) && (starts_with(a, "PROXY "@) || starts_with(a, "SOCKS"@))
            ==> pac_proxy(a) == a,
        ({
            let plain = !eq_ignore_ascii_case(a, "DIRECT"@) && !starts_with(a, "PROXY "@) && !starts_with(a, "SOCKS"@);
            let r = pac_proxy(a);
            &&& (plain && starts_with(a, "socks5://"@)) ==> {
                &&& a.len() >= 9
                &&& r.len() == a.len() - 2
                &&& r.take(7) == seq!['S', 'O', 'C', 'K', 'S', '5', ' ']
                &&& r.skip(7) == a.skip(9)
            }
            &&& (plain && !starts_with(a, "socks5://"@) && starts_with(a, "socks4://"@)) ==> {
                &&& a.len() >= 9
                &&& r.len() == a.len() - 3
                &&& r.take(6) == seq!['S', 'O', 'C', 'K', 'S', ' ']
                &&& r.skip(6) == a.skip(9)
            }
            &&& (plain && !starts_with(a, "socks5://"@) && !starts_with(a, "socks4://"@) && starts_with(a, "http://"@)) ==> {
                &&& a.len() >= 7
                &&& r.len() == a.len() - 1
                &&& r.take(6) == seq!['P', 'R', 'O', 'X', 'Y', ' ']
                &&& r.skip(6) == a.skip(7)
            }
            &&& (plain && !starts_with(a, "socks5://"@) && !starts_with(a, "socks4://"@) && !starts_with(a, "http://"@)) ==> {
                &&& r.len() == a.len() + 6
                &&& r.take(6) == seq!['P', 'R', 'O', 'X', 'Y', ' ']
                &&& r.skip(6) == a
            }
        }),
{
    reveal_strlit("DIRECT");
    reveal_strlit("SOCKS5 ");
    reveal_strlit("SOCKS ");
    reveal_strlit("PROXY ");
    reveal_strlit("socks5://");
    reveal_strlit("socks4://");
    reveal_strlit("http://");
    let r = pac_proxy(a);
    assert("DIRECT"@ =~= seq!['D', 'I', 'R', 'E', 'C', 'T']);
    if !eq_ignore_ascii_case(a, "DIRECT"@) && !starts_with(a, "PROXY "@) && !starts_with(a, "SOCKS"@) {
        if starts_with(a, "socks5://"@) {
            assert(r.take(7) =~= seq!['S', 'O', 'C', 'K', 'S', '5', ' ']);
            assert(r.skip(7) =~= a.skip(9));
        } else if starts_with(a, "socks4://"@) {
            assert(r.take(6) =~= seq!['S', 'O', 'C', 'K', 'S', ' ']);
            assert(r.skip(6) =~= a.skip(9));
        } else if starts_with(a, "http://"@) {
            assert(r.take(6) =~= seq!['P', 'R', 'O', 'X', 'Y', ' ']);
            assert(r.skip(6) =~= a.skip(7));
        } else {
            assert(r.take(6) =~= seq!['P', 'R', 'O', 'X', 'Y', ' ']);
            assert(r.skip(6) =~= a);
        }
    }
}

proof fn lemma_rule_lines_occurs(rules: Seq<(String, Rule)>, main: Seq<char>, on: Seq<char>, i: int)
    requires
        0 <= i < rules.len(),
    ensures
        occurs_at(
            rule_lines(rules, main, on),
            rule_line(rules[i].0@, rules[i].1, main, on),
            rule_lines(rules.take(i), main, on).len() as int,
        ),
    decreases rules.len(),
{
    let last = rules.len() - 1;
    let init = rules.drop_last();
    let line = rule_line(rules[i].0@, rules[i].1, main, on);
    let pos = rule_lines(rules.take(i), main, on).len() as int;
    if i == last {
        assert(init =~= rules.take(i));
        assert(rule_lines(rules, main, on).subrange(pos, pos + line.len()) =~= line);
    } else {
        lemma_rule_lines_occurs(init, main, on, i);
        assert(init.take(i) =~= rules.take(i));
        assert(init[i] == rules[i]);
        let whole = rule_lines(rules, main, on);
        let front = rule_lines(init, main, on);
        assert(whole.subrange(pos, pos + line.len()) =~= front.subrange(pos, pos + line.len()));
    }
}

proof fn lemma_find_rule_member(rules: Seq<(String, Rule)>, key: Seq<char>, i: int)
    ensures
        find_rule_from(rules, key, i) matches Some(r) ==> exists|j: int|
            0 <= j < rules.len() && #[trigger] rules[j].0@ == key && rules[j].1 == r,
    decreases rules.len() - i,
{
    if 0 <= i < rules.len() && rules[i].0@ != key {
        lemma_find_rule_member(rules, key, i + 1);
    }
}

proof fn lemma_find_rule_first(rules: Seq<(String, Rule)>, key: Seq<char>, g: int, i: int)
    requires
        0 <= i <= g < rules.len(),
        rules[g].0@ == key,
        forall|j: int| 0 <= j < g ==> #[trigger] rules[j].0@ != key,
    ensures
        find_rule_from(rules, key, i) == Some(rules[g].1),
    decreases g - i,
{
    if i < g {
        lemma_find_rule_first(rules, key, g, i + 1);
    }
}

/// No rule with the pattern `*` decides the whole script: none has an
/// override and none switches the proxy on.
pub open spec fn global_rules_pass_through(rules: Seq<(String, Rule)>) -> bool {
    forall|j: int| 0 <= j < rules.len() && #[trigger] rules[j].0@ == "*"@ ==> {
        &&& rules[j].1.override_action is None
        &&& !(rules[j].1.proxy matches Some(p) && eq_ignore_ascii_case(p@, "on"@))
    }
}

proof fn lemma_script_body(config: Config)
    requires
        global_rules_pass_through(config.rules@),
    ensures
        ({
            let main = optional_pac_proxy(config.proxy.main);
            let on = on_route(main, optional_pac_proxy(config.proxy.fallback));
            pac_script(config) == script_header() + rule_lines(config.rules@, main, on) + default_line(main, on)
                + script_footer()
        }),
{
    lemma_find_rule_member(config.rules@, "*"@, 0);
}

/// Each domain rule (pattern other than `*`) contributes its own line to the
/// script, unless a global rule decides every host:
/// - an override answers with the override's directive;
/// - `proxy = "on"` (any case) answers with the main proxy, then the
///   fallback proxy when there is one that is not `DIRECT`, then `DIRECT`;
/// - `proxy = "off"` (any case) answers `DIRECT`;
/// - otherwise a fallback answers with the main proxy, then that fallback.
/// The host test is a shell match for `*.` patterns and an exact comparison otherwise.
pub proof fn lemma_domain_rule_line(config: Config, i: int)
    requires
        0 <= i < config.rules@.len(),
        config.rules@[i].0@ != "*"@,
        global_rules_pass_through(config.rules@),
    ensures
        ({
            let main = match config.proxy.main { Some(m) => pac_proxy(m@), None => "DIRECT"@ };
            let fallback = match config.proxy.fallback { Some(f) => pac_proxy(f@), None => "DIRECT"@ };
            let domain = config.rules@[i].0@;
            let rule = config.rules@[i].1;
            let test = if starts_with(domain, "*."@) {
                "shExpMatch(host, \""@ + domain + "\")"@
            } else {
                "host === \""@ + domain + "\""@
            };
            let chain = if eq_ignore_ascii_case(fallback, "DIRECT"@) {
                main + "; DIRECT"@
            } else {
                main + "; "@ + fallback + "; DIRECT"@
            };
            let is_on = rule.proxy matches Some(p) && eq_ignore_ascii_case(p@, "on"@);
            let is_off = rule.proxy matches Some(p) && eq_ignore_ascii_case(p@, "off"@);
            &&& rule.override_action matches Some(o) ==> contains(
                pac_script(config),
                "  if ("@ + test + ") return \""@ + pac_proxy(o@) + "\";\n"@,
            )
            &&& (rule.override_action is None && is_on) ==> contains(
                pac_script(config),
                "  if ("@ + test + ") return \""@ + chain + "\";\n"@,
            )
            &&& (rule.override_action is None && !is_on && is_off) ==> contains(
                pac_script(config),
                "  if ("@ + test + ") return \""@ + "DIRECT"@ + "\";\n"@,
            )
            &&& (rule.override_action is None && !is_on && !is_off && rule.fallback is Some) ==> contains(
                pac_script(config),
                "  if ("@ + test + ") return \""@ + main + "; "@ + pac_proxy(rule.fallback->0@) + "\";\n"@,
            )
        }),
{
    let main = optional_pac_proxy(config.proxy.main);
    let on = on_route(main, optional_pac_proxy(config.proxy.fallback));
    lemma_script_body(config);
    lemma_rule_lines_occurs(config.rules@, main, on, i);
    let lines = rule_lines(config.rules@, main, on);
    let line = rule_line(config.rules@[i].0@, config.rules@[i].1, main, on);
    let pos = rule_lines(config.rules@.take(i), main, on).len() as int;
    let script = pac_script(config);
    let h = script_header().len() as int;
    assert(script.subrange(h + pos, h + pos + line.len()) =~= lines.subrange(pos, pos + line.len()));
    assert(occurs_at(script, line, h + pos));
    let rule = config.rules@[i].1;
    if rule.override_action is None && !is_switch(rule.proxy, "on"@) && !is_switch(rule.proxy, "off"@)
        && rule.fallback is Some {
        let f = rule.fallback->0;
        let test = host_condition(config.rules@[i].0@);
        assert(line == "  if ("@ + test + ") return \""@ + (main + "; "@ + pac_proxy(f@)) + "\";\n"@);
        assert(("  if ("@ + test + ") return \""@ + (main + "; "@ + pac_proxy(f@)) + "\";\n"@)
            =~= ("  if ("@ + test + ") return \""@ + main + "; "@ + pac_proxy(f@) + "\";\n"@));
    }
}

/// Without a deciding global rule, the script ends by sending every other
/// host through the main proxy chain (main, non-direct fallback, `DIRECT`),
/// or directly when the main proxy is direct or absent.
pub proof fn lemma_script_default_answer(config: Config)
    requires
        global_rules_pass_through(config.rules@),
    ensures
        ({
            let main = match config.proxy.main { Some(m) => pac_proxy(m@), None => "DIRECT"@ };
            let fallback = match config.proxy.fallback { Some(f) => pac_proxy(f@), None => "DIRECT"@ };
            let chain = if eq_ignore_ascii_case(fallback, "DIRECT"@) {
                main + "; DIRECT"@
            } else {
                main + "; "@ + fallback + "; DIRECT"@
            };
            let answer = if eq_ignore_ascii_case(main, "DIRECT"@) { "DIRECT"@ } else { chain };
            let tail = "  return \""@ + answer + "\";\n"@ + "}\n"@;
            &&& pac_script(config).len() >= tail.len()
            &&& pac_script(config).subrange(pac_script(config).len() - tail.len(), pac_script(config).len() as int)
                == tail
        }),
{
    lemma_script_body(config);
    let main = optional_pac_proxy(config.proxy.main);
    let on = on_route(main, optional_pac_proxy(config.proxy.fallback));
    let script = pac_script(config);
    let tail = default_line(main, on) + script_footer();
    assert(script.subrange(script.len() - tail.len(), script.len() as int) =~= tail);
}

/// The first rule with the pattern `*` decides every host when it has an
/// override (the override's directive) or switches the proxy on (the main
/// chain); the script then holds that single answer.
pub proof fn lemma_global_rule_decides(config: Config, g: int)
    requires
        0 <= g < config.rules@.len(),
        config.rules@[g].0@ == "*"@,
        forall|j: int| 0 <= j < g ==> #[trigger] config.rules@[j].0@ != "*"@,
    ensures
        ({
            let main = match config.proxy.main { Some(m) => pac_proxy(m@), None => "DIRECT"@ };
            let fallback = match config.proxy.fallback { Some(f) => pac_proxy(f@), None => "DIRECT"@ };
            let chain = if eq_ignore_ascii_case(fallback, "DIRECT"@) {
                main + "; DIRECT"@
            } else {
                main + "; "@ + fallback + "; DIRECT"@
            };
            let rule = config.rules@[g].1;
            &&& rule.override_action matches Some(o) ==> pac_script(config)
                == "function FindProxyForURL(url, host) {\n"@ + "  return \""@ + pac_proxy(o@) + "\";\n"@ + "}\n"@
            &&& (rule.override_action is None && (rule.proxy matches Some(p) && eq_ignore_ascii_case(p@, "on"@)))
                ==> pac_script(config)
                == "function FindProxyForURL(url, host) {\n"@ + "  return \""@ + chain + "\";\n"@ + "}\n"@
        }),
{
    lemma_find_rule_first(config.rules@, "*"@, g, 0);
}

proof fn lemma_rule_lines_grow(rules: Seq<(String, Rule)>, main: Seq<char>, on: Seq<char>, i: int, j: int)
    requires
        0 <= i <= j <= rules.len(),
    ensures
        rule_lines(rules.take(i), main, on).len() <= rule_lines(rules.take(j), main, on).len(),
    decreases j - i,
{
    if i < j {
        lemma_rule_lines_grow(rules, main, on, i, j - 1);
        assert(rules.take(j).drop_last() =~= rules.take(j - 1));
    }
}

/// The domain rules appear in the script in the order of the rule list: the
/// line of an earlier rule ends before the line of a later rule begins.
pub proof fn lemma_rule_lines_in_order(config: Config, i: int, j: int)
    requires
        0 <= i < j < config.rules@.len(),
        global_rules_pass_through(config.rules@),
    ensures
        ({
            let main = optional_pac_proxy(config.proxy.main);
            let on = on_route(main, optional_pac_proxy(config.proxy.fallback));
            let li = rule_line(config.rules@[i].0@, config.rules@[i].1, main, on);
            let lj = rule_line(config.rules@[j].0@, config.rules@[j].1, main, on);
            exists|p: int, q: int|
                occurs_at(pac_script(config), li, p) && occurs_at(pac_script(config), lj, q) && p + li.len() <= q
        }),
{
    let rules = config.rules@;
    let main = optional_pac_proxy(config.proxy.main);
    let on = on_route(main, optional_pac_proxy(config.proxy.fallback));
    let li = rule_line(rules[i].0@, rules[i].1, main, on);
    let lj = rule_line(rules[j].0@, rules[j].1, main, on);
    lemma_script_body(config);
    lemma_rule_lines_occurs(rules, main, on, i);
    lemma_rule_lines_occurs(rules, main, on, j);
    let h = script_header().len() as int;
    let pi = rule_lines(rules.take(i), main, on).len() as int;
    let pj = rule_lines(rules.take(j), main, on).len() as int;
    let lines = rule_lines(rules, main, on);
    let script = pac_script(config);
    assert(script.subrange(h + pi, h + pi + li.len()) =~= lines.subrange(pi, pi + li.len()));
    assert(script.subrange(h + pj, h + pj + lj.len()) =~= lines.subrange(pj, pj + lj.len()));
    lemma_rule_lines_grow(rules, main, on, i + 1, j);
    assert(rules.take(i + 1).drop_last() =~= rules.take(i));
    assert(rules.take(i + 1).last() == rules[i]);
    assert(occurs_at(script, li, h + pi));
    assert(occurs_at(script, lj, h + pj));
}

} // verus!
