use drover_proxy::config::Config;
use drover_proxy::launch::{build_command_line, command_line_for_config, is_main_process};
use drover_proxy::installer::{installer_config_text, select_latest_app_folder};
use drover_proxy::state::SocketState;
use drover_proxy::udp_bypass::{check_and_split_udp_sendto, check_and_split_wsa_sendto, wsa_sendto_reads_first_buffer};

#[test]
fn command_line_gets_pac_url() {
    let out = build_command_line("Discord.exe --flag", "abc");
    assert_eq!(out, "Discord.exe --flag --proxy-pac-url=\"data:application/x-ns-proxy-autoconfig;base64,YWJj\"");
}

#[test]
fn command_line_base64_padding() {
    let out = build_command_line("x", "ab");
    assert_eq!(out, "x --proxy-pac-url=\"data:application/x-ns-proxy-autoconfig;base64,YWI=\"");
}

#[test]
fn command_line_with_pac_url_unchanged() {
    let cmd = "Discord.exe --proxy-pac-url=http://x/p.pac";
    assert_eq!(build_command_line(cmd, "abc"), cmd);
    let twice = build_command_line(&build_command_line("y", "one"), "two");
    assert_eq!(twice, build_command_line("y", "one"));
}

#[test]
fn command_line_from_default_config() {
    let out = command_line_for_config("d", &Config::default());
    let expected = build_command_line("d", "function FindProxyForURL(url, host) {\n  return \"DIRECT\";\n}\n");
    assert_eq!(out, expected);
    assert!(out.starts_with("d --proxy-pac-url=\"data:application/x-ns-proxy-autoconfig;base64,ZnVuY3Rpb24g"));
}

#[test]
fn main_process_detection() {
    assert!(is_main_process("Discord.exe"));
    assert!(!is_main_process("Discord.exe --type=renderer"));
    assert!(is_main_process("Discord.exe --type"));
}

#[test]
fn voice_packet_split() {
    let udp = SocketState { is_tcp: false, is_udp: true, first_send_done: true, fake_http_proxy: false };
    let tcp = SocketState { is_tcp: true, is_udp: false, ..udp };
    let split = check_and_split_udp_sendto(&udp, 74).unwrap();
    assert_eq!(split.packets, vec![vec![0u8], vec![1u8]]);
    assert_eq!(split.delay_ms, 50);
    assert!(check_and_split_udp_sendto(&udp, 73).is_none());
    assert!(check_and_split_udp_sendto(&tcp, 74).is_none());
    assert!(wsa_sendto_reads_first_buffer(&udp, 1));
    assert!(!wsa_sendto_reads_first_buffer(&udp, 2));
    assert!(!wsa_sendto_reads_first_buffer(&tcp, 1));
    assert!(check_and_split_wsa_sendto(&udp, 1, Some(74)).is_some());
    assert!(check_and_split_wsa_sendto(&udp, 1, Some(75)).is_none());
    assert!(check_and_split_wsa_sendto(&udp, 2, Some(74)).is_none());
    assert!(check_and_split_wsa_sendto(&tcp, 1, Some(74)).is_none());
}

#[test]
fn installer_config() {
    assert_eq!(
        installer_config_text("socks5://127.0.0.1:10808"),
        "[proxy]\nmain = \"socks5://127.0.0.1:10808\"\nfallback = \"http://127.0.0.1:10808\"\n\n# Rules are now optional, global proxying is enabled by default\n"
    );
}

#[test]
fn latest_app_folder() {
    let names: Vec<String> = ["app-1.0.9147", "packages", "app-1.0.9150", "app-1.0.10", "Update.exe"]
        .iter()
        .map(|s| s.to_string())
        .collect();
    assert_eq!(select_latest_app_folder(&names), Some(2));
    let none: Vec<String> = vec!["packages".to_string(), "App-2".to_string()];
    assert_eq!(select_latest_app_folder(&none), None);
    let dup: Vec<String> = vec!["app-2".to_string(), "app-1".to_string(), "app-2".to_string()];
    assert_eq!(select_latest_app_folder(&dup), Some(0));
    assert_eq!(select_latest_app_folder(&Vec::new()), None);
}
