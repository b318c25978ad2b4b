use scrying::parsing::AddrV4;
use scrying::parsing::AddrV6;
use scrying::parsing::SocketAddress;
use scrying::InputLists;
use scrying::Target;
use url::Url;

fn url_target(s: &str) -> Target {
    Target::Url(Url::parse(s).unwrap().as_str().to_owned())
}

fn v6_target(segments: [u16; 8], port: u16) -> Target {
    Target::Address(SocketAddress::V6(AddrV6 { segments, port }))
}

fn v4_target(octets: [u8; 4], port: u16) -> Target {
    Target::Address(SocketAddress::V4(AddrV4 { octets, port }))
}

#[test]
fn display_impl_for_target() {
    let test_cases: Vec<(Target, &str)> = vec![
        (url_target("https://[2001:db8::6]"), "https://[2001:db8::6]/"),
        (url_target("https://192.0.2.3"), "https://192.0.2.3/"),
        (v6_target([0, 0, 0, 0, 0, 0, 0, 1], 3389), "[::1]:3389"),
        (v4_target([127, 0, 0, 1], 3389), "127.0.0.1:3389"),
    ];

    for case in test_cases {
        println!("Test case: {:?}", case);
        assert_eq!(case.0.display_string(), case.1);
    }
}

#[test]
fn v6_display_compresses_leftmost_longest_zero_run() {
    // one zero segment alone is not compressed
    let t = v6_target([0x2001, 0xdb8, 0, 1, 1, 1, 1, 1], 5900);
    assert_eq!(t.display_string(), "[2001:db8:0:1:1:1:1:1]:5900");
    // two runs of equal length: the left one wins
    let t = v6_target([0x2001, 0, 0, 1, 1, 0, 0, 1], 5900);
    assert_eq!(t.display_string(), "[2001::1:1:0:0:1]:5900");
    // all zeroes
    let t = v6_target([0, 0, 0, 0, 0, 0, 0, 0], 80);
    assert_eq!(t.display_string(), "[::]:80");
    // ipv4-mapped shows a dotted tail
    let t = v6_target([0, 0, 0, 0, 0, 0xffff, 0xc000, 0x0201], 80);
    assert_eq!(t.display_string(), "[::ffff:192.0.2.1]:80");
}

#[test]
fn dedup_sorts_and_keeps_one_target_per_string() {
    let mut lists = InputLists::default();
    lists.rdp_targets.push(v4_target([192, 0, 2, 2], 3389));
    lists.rdp_targets.push(v4_target([192, 0, 2, 1], 3389));
    lists.rdp_targets.push(v4_target([192, 0, 2, 2], 3389));
    lists.vnc_targets.push(v4_target([192, 0, 2, 1], 5900));
    lists.dedup();
    assert_eq!(lists.rdp_targets.len(), 2);
    assert_eq!(lists.rdp_targets[0].display_string(), "192.0.2.1:3389");
    assert_eq!(lists.rdp_targets[1].display_string(), "192.0.2.2:3389");
    assert_eq!(lists.vnc_targets.len(), 1);
    assert_eq!(lists.web_targets.len(), 0);

    let mut lists = InputLists::default();
    lists.web_targets.push(url_target("http://b.example/"));
    lists.web_targets.push(url_target("http://a.example/"));
    lists.web_targets.push(url_target("http://c.example/"));
    lists.web_targets.push(url_target("http://a.example/"));
    lists.dedup();
    let shown: Vec<String> = lists.web_targets.iter().map(|t| t.display_string()).collect();
    assert_eq!(shown, vec!["http://a.example/", "http://b.example/", "http://c.example/"]);
}

#[test]
fn append_moves_targets_over() {
    let mut a = InputLists::default();
    let mut b = InputLists::default();
    a.web_targets.push(url_target("http://example.com"));
    b.web_targets.push(url_target("http://example.org"));
    b.rdp_targets.push(v4_target([10, 0, 0, 1], 3389));
    a.append(&mut b);
    assert_eq!(a.web_targets.len(), 2);
    assert_eq!(a.rdp_targets.len(), 1);
    assert_eq!(b.web_targets.len(), 0);
    assert_eq!(b.rdp_targets.len(), 0);
}

#[test]
fn lists_render_with_a_section_per_protocol() {
    let mut lists = InputLists::default();
    lists.rdp_targets.push(v4_target([127, 0, 0, 1], 3389));
    assert_eq!(
        lists.to_display_string(),
        "RDP targets:\n    127.0.0.1:3389\nWeb targets: None\nVNC targets: None"
    );
}

#[test]
fn targets_order_by_canonical_string() {
    let a = url_target("http://a.example/");
    let b = url_target("http://b.example/");
    assert!(a.sorts_before(&b));
    assert!(!b.sorts_before(&a));
    assert!(!a.sorts_before(&a));
    // a strict prefix sorts first
    let short = Target::Url("http://a".to_owned());
    assert!(short.sorts_before(&a));
}
