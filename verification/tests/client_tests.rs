use dex::hosts::Hosts;
use dex::resolv::first_nameserver;
use dex::transport::{TcpTransport, UdpTransport};

#[test]
fn hosts_contains() {
    let input = "127.0.0.1 localhost";
    let contains = Hosts::contains_inner(input, "localhost");
    assert!(contains);
}

#[test]
fn hosts_matches_with_trailing_dot() {
    let input = "10.0.0.1 www.example.com gateway\n# 10.0.0.2 commented.out\n";
    assert!(Hosts::contains_inner(input, "www.example.com."));
    assert!(Hosts::contains_inner(input, "gateway"));
    assert!(!Hosts::contains_inner(input, "commented.out"));
    assert!(!Hosts::contains_inner(input, "absent.example.com"));
}

#[test]
fn resolv_first_nameserver_wins() {
    let config = "# comment\nsearch example.com\nnameserver 10.1.1.1\nnameserver 10.2.2.2\n";
    assert_eq!(first_nameserver(config), Some("10.1.1.1".to_string()));
    assert_eq!(first_nameserver("search example.com\n"), None);
    assert_eq!(first_nameserver("nameserver\n"), None);
}

#[test]
fn transports_keep_their_settings() {
    let tcp = TcpTransport::new("10.0.0.53:53".to_string());
    assert_eq!(tcp.nameserver, "10.0.0.53:53");
    let udp = UdpTransport::new("10.0.0.53".to_string(), 4096);
    assert_eq!(udp.nameserver, "10.0.0.53");
    assert_eq!(udp.max_response_size, 4096);
}
