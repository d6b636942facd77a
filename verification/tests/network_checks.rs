use krds::findings::Finding;
use krds::net::{parse_addr, parse_ss_ports, parse_table, run, socket_inode, tcp_state, NetInputs};

fn titles(v: &[Finding]) -> Vec<String> {
    v.iter().map(|f| f.title.clone()).collect()
}

const HEADER: &str = "  sl  local_address rem_address   st tx_queue rx_queue tr tm->when retrnsmt   uid  timeout inode\n";

fn tcp_line(local: &str, remote: &str, st: &str, inode: &str) -> String {
    format!("   0: {local} {remote} {st} 00000000:00000000 00:00000000 00000000  1000        0 {inode} 1 0000000000000000 100 0 0 10 0\n")
}

fn empty_inputs() -> NetInputs {
    NetInputs {
        tcp: String::new(),
        tcp6: String::new(),
        udp: String::new(),
        udp6: String::new(),
        fd_targets: vec![],
        ss_output: String::new(),
    }
}

#[test]
fn tcp_state_names() {
    assert_eq!(tcp_state("01"), "ESTABLISHED");
    assert_eq!(tcp_state("0A"), "LISTEN");
    assert_eq!(tcp_state("02"), "SYN_SENT");
    assert_eq!(tcp_state("03"), "SYN_RECV");
    assert_eq!(tcp_state("06"), "TIME_WAIT");
    assert_eq!(tcp_state("07"), "CLOSE");
    assert_eq!(tcp_state("08"), "CLOSE_WAIT");
    assert_eq!(tcp_state("0B"), "0B");
    assert_eq!(tcp_state("0a"), "0a");
}

#[test]
fn address_parsing() {
    assert_eq!(parse_addr("0100007F:1F90"), ("127.0.0.1".to_string(), 8080));
    assert_eq!(parse_addr("00000000:0016"), ("0.0.0.0".to_string(), 22));
    assert_eq!(parse_addr("nocolon"), ("nocolon".to_string(), 0));
    assert_eq!(parse_addr("0100007F:ZZ"), ("127.0.0.1".to_string(), 0));
    assert_eq!(
        parse_addr("00000000000000000000000001000000:0050"),
        ("00000000000000000000000001000000".to_string(), 80)
    );
    assert_eq!(parse_addr("0G00007F:0001"), ("0G00007F".to_string(), 1));
    assert_eq!(parse_addr("a:b:c"), ("a".to_string(), 0));
}

#[test]
fn table_parsing_skips_header_and_short_lines() {
    let data = format!("{HEADER}{}short line\n{}", tcp_line("0100007F:1F90", "00000000:0000", "0A", "12345"), tcp_line("0100007F:0016", "0200A8C0:115C", "01", "77"));
    let socks = parse_table("tcp", &data);
    assert_eq!(socks.len(), 2);
    assert_eq!(socks[0].table, "tcp");
    assert_eq!(socks[0].local_ip, "127.0.0.1");
    assert_eq!(socks[0].local_port, 8080);
    assert_eq!(socks[0].state, "LISTEN");
    assert_eq!(socks[0].inode, "12345");
    assert_eq!(socks[1].remote_ip, "192.168.0.2");
    assert_eq!(socks[1].remote_port, 4444);
    assert_eq!(socks[1].state, "ESTABLISHED");
    let udp = parse_table("udp", &format!("{HEADER}{}", tcp_line("00000000:0035", "00000000:0000", "07", "9")));
    assert_eq!(udp[0].state, "07");
    assert!(parse_table("tcp", "").is_empty());
}

#[test]
fn socket_link_targets() {
    assert_eq!(socket_inode("socket:[12345]"), Some("12345".to_string()));
    assert_eq!(socket_inode("socket:[]"), Some(String::new()));
    assert_eq!(socket_inode("pipe:[12]"), None);
    assert_eq!(socket_inode("socket:[12"), None);
    assert_eq!(socket_inode("/dev/null"), None);
}

#[test]
fn ss_listening_ports() {
    let out = "tcp   LISTEN 0      128          0.0.0.0:22        0.0.0.0:*\n\
               tcp   LISTEN 0      128             [::]:80           [::]:*\n\
               udp   UNCONN 0      0          127.0.0.1:323        0.0.0.0:*\n\
               tcp   LISTEN 0      128             [::]:22           [::]:*\n\
               short line\n\
               tcp   LISTEN 0      128          0.0.0.0:http        0.0.0.0:*\n";
    assert_eq!(parse_ss_ports(out), vec![22, 80, 323]);
    assert!(parse_ss_ports("").is_empty());
}

#[test]
fn orphan_sketchy_listener_unknown_to_ss() {
    let mut inp = empty_inputs();
    inp.tcp = format!("{HEADER}{}", tcp_line("00000000:115C", "00000000:0000", "0A", "999"));
    let r = run(&inp);
    assert_eq!(
        titles(&r),
        vec![
            "orphan listening socket on port 4444".to_string(),
            "listener on sketchy port 4444".to_string(),
            "port 4444 in /proc/net but not in ss".to_string(),
        ]
    );
    assert_eq!(r[0].severity, "high");
    assert_eq!(r[0].detail, "0.0.0.0:4444 inode=999 \u{2014} no process fd points at it");
    assert_eq!(r[0].iocs, vec!["port:4444".to_string(), "inode:999".to_string()]);
    assert_eq!(r[0].score, Some(180));
    assert_eq!(r[1].score, Some(80));
    assert_eq!(r[2].score, Some(100));
}

#[test]
fn agreeing_port_views_are_quiet() {
    let mut inp = empty_inputs();
    inp.tcp = format!("{HEADER}{}", tcp_line("00000000:0016", "00000000:0000", "0A", "55"));
    inp.fd_targets = vec!["socket:[55]".to_string(), "/dev/null".to_string()];
    inp.ss_output = "tcp LISTEN 0 128 0.0.0.0:22 0.0.0.0:*\n".to_string();
    assert!(run(&inp).is_empty());
}

#[test]
fn port_only_in_ss_is_low() {
    let mut inp = empty_inputs();
    inp.ss_output = "tcp LISTEN 0 128 0.0.0.0:8080 0.0.0.0:*\n".to_string();
    let r = run(&inp);
    assert_eq!(titles(&r), vec!["port 8080 in ss but not in /proc/net tcp(6)".to_string()]);
    assert_eq!(r[0].severity, "low");
    assert_eq!(r[0].score, Some(30));
}

#[test]
fn established_connection_to_sketchy_port() {
    let mut inp = empty_inputs();
    inp.tcp6 = format!("{HEADER}{}", tcp_line("0100007F:D431", "0200A8C0:7A69", "01", "1"));
    let r = run(&inp);
    assert_eq!(titles(&r), vec!["established conn to suspicious remote port 31337".to_string()]);
    assert_eq!(r[0].detail, "127.0.0.1:54321 -> 192.168.0.2:31337");
    assert_eq!(r[0].iocs, vec!["remote:192.168.0.2:31337".to_string()]);
    assert_eq!(r[0].score, Some(80));
}

#[test]
fn udp_sockets_are_not_listeners() {
    let mut inp = empty_inputs();
    inp.udp = format!("{HEADER}{}", tcp_line("00000000:115C", "00000000:0000", "0A", "3"));
    assert!(run(&inp).is_empty());
}
