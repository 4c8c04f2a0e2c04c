use agent_salon::config::{
    cfg_var, environment, parse_aliases, parse_allowed_hosts, parse_config, parse_port,
    resolve_settings,
};

fn env(pairs: &[(&str, &str)]) -> Vec<(String, String)> {
    pairs.iter().map(|(k, v)| (k.to_string(), v.to_string())).collect()
}

#[test]
fn parses_config_basic() {
    let s = "
            # comment line, ignored
            AGENT_SALON_PORT=9315
            AGENT_SALON_BIND = 127.0.0.1
            AGENT_SALON_ALLOWED_HOSTS=\"host.example.com,localhost\"
        ";
    let m = parse_config(s);
    assert_eq!(m.get("AGENT_SALON_PORT").map(String::as_str), Some("9315"));
    assert_eq!(
        m.get("AGENT_SALON_BIND").map(String::as_str),
        Some("127.0.0.1")
    );
    assert_eq!(
        m.get("AGENT_SALON_ALLOWED_HOSTS").map(String::as_str),
        Some("host.example.com,localhost")
    );
    assert_eq!(m.len(), 3);
}

#[test]
fn parses_config_skips_blank_and_malformed() {
    let s = "\n\n  \n=novalue\nNOEQUALS\nKEY=value\n";
    let m = parse_config(s);
    assert_eq!(m.get("KEY").map(String::as_str), Some("value"));
    assert_eq!(m.len(), 1);
}

#[test]
fn parses_config_preserves_inner_quotes_and_equals() {
    let s = "KEY=value=with=equals\nQUOTED=\"a=b,c=d\"";
    let m = parse_config(s);
    assert_eq!(m.get("KEY").map(String::as_str), Some("value=with=equals"));
    assert_eq!(m.get("QUOTED").map(String::as_str), Some("a=b,c=d"));
}

#[test]
fn parses_allowed_hosts_csv() {
    let h = parse_allowed_hosts("localhost, 127.0.0.1, example.com:8080");
    assert_eq!(h, vec!["localhost", "127.0.0.1", "example.com:8080"]);
}

#[test]
fn skips_empty_allowed_hosts_entries() {
    let h = parse_allowed_hosts(" , localhost ,, ");
    assert_eq!(h, vec!["localhost"]);
}

#[test]
fn empty_allowed_hosts_input_yields_empty_vec() {
    assert!(parse_allowed_hosts("").is_empty());
    assert!(parse_allowed_hosts("   ,  ").is_empty());
}

#[test]
fn parses_simple_pairs() {
    let m = parse_aliases("notes:laptop-a,drafts:home-mac");
    assert_eq!(m.get("notes").map(String::as_str), Some("laptop-a"));
    assert_eq!(m.get("drafts").map(String::as_str), Some("home-mac"));
    assert_eq!(m.len(), 2);
}

#[test]
fn trims_whitespace_and_skips_malformed() {
    let m = parse_aliases(" notes : laptop-a , , bad , :empty, key: ,drafts:home-mac");
    assert_eq!(m.get("notes").map(String::as_str), Some("laptop-a"));
    assert_eq!(m.get("drafts").map(String::as_str), Some("home-mac"));
    assert_eq!(m.len(), 2);
}

#[test]
fn empty_input_yields_empty_map() {
    assert!(parse_aliases("").is_empty());
}

#[test]
fn config_quotes_come_in_pairs() {
    let m = parse_config("A=\"\nB=\"\"\nC=\" x \"\r\nD=\"open\n# E=1\nF = \u{3000}wide\u{3000}");
    assert_eq!(m.get("A").map(String::as_str), Some("\""));
    assert_eq!(m.get("B").map(String::as_str), Some(""));
    assert_eq!(m.get("C").map(String::as_str), Some(" x "));
    assert_eq!(m.get("D").map(String::as_str), Some("\"open"));
    assert_eq!(m.get("E"), None);
    assert_eq!(m.get("F").map(String::as_str), Some("wide"));
}

#[test]
fn later_entries_win() {
    let m = parse_config("K=1\nK=2");
    assert_eq!(m.get("K").map(String::as_str), Some("2"));
    assert_eq!(m.len(), 1);
    let a = parse_aliases("x:one,x:two");
    assert_eq!(a.get("x").map(String::as_str), Some("two"));
}

#[test]
fn alias_splits_at_the_first_colon() {
    let a = parse_aliases("host:a:b");
    assert_eq!(a.get("host").map(String::as_str), Some("a:b"));
}

#[test]
fn environment_wins_over_config() {
    let env = environment(&env(&[("A", "env"), ("EMPTY", "")]));
    let config = parse_config("A=file\nB=file\nEMPTY=file");
    assert_eq!(cfg_var(&env, &config, "A").as_deref(), Some("env"));
    assert_eq!(cfg_var(&env, &config, "B").as_deref(), Some("file"));
    assert_eq!(cfg_var(&env, &config, "EMPTY").as_deref(), Some(""));
    assert_eq!(cfg_var(&env, &config, "C"), None);
}

#[test]
fn parses_ports_as_the_standard_library_does() {
    for text in [
        "0", "9315", "65535", "65536", "+80", "-0", "", "+", "++1", " 1", "00080", "99999999999",
        "1x", "\u{0661}",
    ] {
        assert_eq!(parse_port(text), text.parse::<u16>().ok());
    }
}

#[test]
fn settings_have_defaults() {
    let none = environment(&Vec::new());
    let s = resolve_settings(&none, &parse_config(""));
    assert_eq!(s.port, 9315);
    assert_eq!(s.bind, "0.0.0.0");
    assert_eq!(s.db_path, "./agent-salon.db");
    assert_eq!(s.aliases.len(), 0);
    assert!(s.allowed_hosts.is_empty());
}

#[test]
fn settings_come_from_environment_and_file() {
    let env = environment(&env(&[("AGENT_SALON_PORT", "8080")]));
    let config = parse_config(
        "AGENT_SALON_PORT=1\nAGENT_SALON_BIND=127.0.0.1\nAGENT_SALON_DB=/tmp/x.db\n\
         AGENT_SALON_ALIASES=notes:laptop-a\nAGENT_SALON_ALLOWED_HOSTS=a, b",
    );
    let s = resolve_settings(&env, &config);
    assert_eq!(s.port, 8080);
    assert_eq!(s.bind, "127.0.0.1");
    assert_eq!(s.db_path, "/tmp/x.db");
    assert_eq!(s.aliases.get("notes").map(String::as_str), Some("laptop-a"));
    assert_eq!(s.allowed_hosts, vec!["a", "b"]);
}

#[test]
fn a_port_that_is_none_falls_back() {
    let env = environment(&env(&[("AGENT_SALON_PORT", "http")]));
    assert_eq!(resolve_settings(&env, &parse_config("AGENT_SALON_PORT=1")).port, 9315);
}
