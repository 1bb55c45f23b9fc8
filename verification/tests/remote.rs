use dsh_tools::cli::{bridge_banner, bus_bridge_args, usage};
use dsh_tools::proxy::{
    bad_gateway, discover_gui_port, discover_tailnet_ip, forward, forward_bytes, look_due, looked,
    loopback_headers, port_unknown, proxy_args, read_port, reading, Forward, Gui, Reading,
};

fn rm_all(v: &[&str]) -> Vec<String> {
    v.iter().map(|s| s.to_string()).collect()
}

#[test]
fn the_address_in_the_private_net() {
    let t = "en0: flags\n\tinet 192.168.1.2 netmask\nutun3:\n\tinet 100.64.0.9 --> 100.64.0.9\n\tinet 100.1.1.1\n";
    assert_eq!(discover_tailnet_ip(t), Some("100.64.0.9".to_string()));
    assert_eq!(discover_tailnet_ip("inet \ninet6 100.1"), None);
}

#[test]
fn the_port_of_the_gui() {
    let line = |cmd: &str, addr: &str| format!("{} 1 u 3 IPv4 5 6 TCP {} (LISTEN)\n", cmd, addr);
    let t = format!(
        "{}{}{}{}",
        line("CLD", "127.0.0.1:49959"),
        line("CLD", "127.0.0.1:50001"),
        line("CLD", "127.0.0.1:80"),
        line("node", "127.0.0.1:60000")
    );
    assert_eq!(discover_gui_port(&t), 50001);
    assert_eq!(discover_gui_port("CLD short"), 0);
    assert_eq!(discover_gui_port(&line("CLD", "*:99999")), 0);
    assert_eq!(discover_gui_port(&line("CLD", "127.0.0.1:4000")), 4000);
}

#[test]
fn looking_for_the_gui() {
    let g = Gui { port: 0, looked: 100 };
    assert!(look_due(&g, 100));
    let g = looked(&g, 5000, 100);
    assert!(!look_due(&g, 159));
    assert!(look_due(&g, 160));
    assert!(look_due(&g, 99));
    let g = looked(&g, 0, 160);
    assert_eq!((g.port, g.looked), (5000, 160));
}

#[test]
fn heads_are_made_local() {
    assert_eq!(
        loopback_headers("GET / HTTP/1.1\r\nHOST: x\r\nOrigin: http://x\r\nA: b", 5000),
        "GET / HTTP/1.1\r\nHost: 127.0.0.1:5000\r\nOrigin: http://127.0.0.1:5000\r\nA: b\r\n"
    );
    assert_eq!(loopback_headers("", 5000), "");
    let once = loopback_headers("HOST: x\nA: b\r\r\n\nOrigin: y\r", 80);
    assert_eq!(once, "Host: 127.0.0.1:80\r\nA: b\r\r\n\r\nOrigin: http://127.0.0.1:80\r\n");
    assert_eq!(once.lines().count(), 4);
    assert_eq!(loopback_headers(&once, 80), once);
}

#[test]
fn requests_are_handed_on() {
    let get = "GET /p?q=1 HTTP/1.1\r\nHost: x\r\nConnection: keep-alive\r\nA: b\r\n\r\n";
    match forward(get, 5000) {
        Forward::Http { request, body } => {
            assert_eq!(
                request,
                "GET /p?q=1 HTTP/1.1\r\nHost: 127.0.0.1:5000\r\nA: b\r\n\r\n"
            );
            assert_eq!(body, "");
        }
        _ => panic!("the request is handed on"),
    }
    match forward("POST /p HTTP/1.1\r\nHost: x\r\n\r\nbody", 5000) {
        Forward::Http { request, body } => {
            assert_eq!(request, "POST /p HTTP/1.1\r\nHost: 127.0.0.1:5000\r\n\r\n");
            assert_eq!(body, "body");
        }
        _ => panic!("the request is handed on"),
    }
    match forward("GET /ws?v=2 HTTP/1.1\r\nHost: x\r\nUpgrade: WebSocket\r\n\r\n", 5000) {
        Forward::Upgrade { request } => assert_eq!(
            request,
            "GET /ws?v=2 HTTP/1.1\r\nHost: 127.0.0.1:5000\r\nUpgrade: WebSocket\r\n\r\n"
        ),
        _ => panic!("the stream is opened"),
    }
    match forward("GET / HTTP/1.1\r\n\r\n", 5000) {
        Forward::Http { request, body } => {
            assert_eq!(request, "GET / HTTP/1.1\r\n\r\n");
            assert_eq!(body, "");
        }
        _ => panic!("the request is handed on"),
    }
    assert!(matches!(forward("GET", 5000), Forward::Drop));
    assert!(matches!(forward("", 5000), Forward::Drop));
}

#[test]
fn reading_a_request() {
    assert!(reading(&b"GET".to_vec(), true) == Reading::More);
    assert!(reading(&b"GET".to_vec(), false) == Reading::Drop);
    assert!(reading(&b"GET / HTTP/1.1\r\n\r\n".to_vec(), true) == Reading::Complete);
    assert!(reading(&vec![b'x'; 1_200_001], true) == Reading::Drop);
    let part = b"POST / HTTP/1.1\r\nContent-Length: 4\r\n\r\nbod".to_vec();
    assert!(reading(&part, true) == Reading::More);
    assert!(reading(&part, false) == Reading::Complete);
    let mut whole = part.clone();
    whole.push(b'y');
    assert!(reading(&whole, true) == Reading::Complete);
    match forward_bytes(&whole, 5000) {
        Forward::Http { request, body } => {
            assert!(request.starts_with("POST / HTTP/1.1\r\nContent-Length: 4\r\n"));
            assert_eq!(body, "body");
        }
        _ => panic!("the request is handed on"),
    }
    match forward_bytes(&b"GET /\xff HTTP/1.1\r\n\r\n".to_vec(), 5000) {
        Forward::Http { request, .. } => assert_eq!(request, "GET /\u{fffd} HTTP/1.1\r\n\r\n"),
        _ => panic!("the request is handed on"),
    }
}

#[test]
fn arguments_of_the_servers() {
    let p = proxy_args(&rm_all(&["dsh-tools", "tailnet-proxy", "--port", "99", "--host", "h"]));
    assert_eq!((p.host.as_str(), p.port), ("h", 99));
    assert_eq!(proxy_args(&rm_all(&["--port", "70000"])).port, 3081);
    assert_eq!(read_port(&None, 7), 7);
    let c = bus_bridge_args("/h", &rm_all(&["--allowed-from", "a, b", "--token", "w"]));
    assert_eq!(c.port, 8791);
    assert_eq!(c.queue_dir, "/h/.dsh/bus-queue");
    assert_eq!(c.allowed_from, rm_all(&["a", "b"]));
    assert!(c.allowed_actions.is_empty());
    assert_eq!(
        bridge_banner(&c),
        rm_all(&[
            "[bus-bridge] listening on http://0.0.0.0:8791",
            "[bus-bridge] queue: /h/.dsh/bus-queue",
            "[bus-bridge] auth: X-Webhook-Token enabled",
        ])
    );
    assert_eq!(usage().len(), 9);
    assert_eq!(usage()[1], "子命令:");
}

#[test]
fn answers_without_the_gui() {
    assert!(bad_gateway().starts_with("HTTP/1.1 502 Bad Gateway\r\n"));
    assert!(bad_gateway().ends_with("\r\n\r\nbad gateway"));
    assert_eq!(
        port_unknown(),
        "HTTP/1.1 503 Service Unavailable\r\nContent-Length: 16\r\nConnection: close\r\n\r\ngui port unknown"
    );
    assert_eq!("gui port unknown".len(), 16);
}
