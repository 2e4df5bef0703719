use hed::hostentry::HostEntry;
use hed::ipaddr::IpAddress;

fn localhost() -> IpAddress {
    IpAddress::parse("127.0.0.1").expect("Should parse localhost")
}

#[test]
fn test_ip_addr() {
    let localhost_v4 = IpAddress::V4(127, 0, 0, 1);
    let localhost_v6 = IpAddress::V6(0, 0, 0, 0, 0, 0, 0, 1);

    assert_eq!(IpAddress::parse("127.0.0.1"), Some(localhost_v4));
    assert_eq!(IpAddress::parse("::1"), Some(localhost_v6));
}

#[test]
fn test_remove_hostname() {
    let ip = localhost();
    let mut he = HostEntry {
        ip: Some(ip),
        name: Some(String::from("arjenwiersma.nl")),
        aliasses: None,
        comment: None,
    };

    assert!(he.can_delete("arjenwiersma.nl"));
    let res = he.remove_hostname("arjenwiersma.nl");
    assert_eq!(res.1, HostEntry::empty());

    he.aliasses = Some(vec![
        String::from("demo.arjenwiersma.nl"),
        String::from("d.arjenwiersma.nl"),
    ]);

    assert!(!he.can_delete("arjenwiersma.nl"));
    assert_eq!(
        he.remove_hostname("arjenwiersma.nl").1,
        HostEntry {
            ip: Some(ip),
            name: Some(String::from("d.arjenwiersma.nl")),
            aliasses: Some(vec![String::from("demo.arjenwiersma.nl")]),
            comment: None,
        }
    );

    assert_eq!(
        he.remove_hostname("demo.arjenwiersma.nl").1,
        HostEntry {
            ip: Some(ip),
            name: Some(String::from("arjenwiersma.nl")),
            aliasses: Some(vec![String::from("d.arjenwiersma.nl")]),
            comment: None,
        }
    );
}

#[test]
fn test_add_alias() {
    let ip = localhost();
    let mut he = HostEntry {
        ip: Some(ip),
        name: Some(String::from("arjenwiersma.nl")),
        aliasses: None,
        comment: None,
    };

    he.add_alias("test.nl");
    assert_eq!(he.aliasses.unwrap().len(), 1);
}

#[test]
fn test_display() {
    let ip = localhost();
    let mut he = HostEntry {
        ip: Some(ip),
        name: Some(String::from("arjenwiersma.nl")),
        aliasses: None,
        comment: None,
    };
    assert_eq!("127.0.0.1\tarjenwiersma.nl", he.to_string());
    he.comment = Some(String::from("a comment"));
    assert_eq!("127.0.0.1\tarjenwiersma.nl\t# a comment", he.to_string());
    he.aliasses = Some(vec![String::from("host1"), String::from("host2")]);
    assert_eq!(
        "127.0.0.1\tarjenwiersma.nl\thost1 host2\t# a comment",
        he.to_string()
    );
    he.comment = None;
    assert_eq!("127.0.0.1\tarjenwiersma.nl\thost1 host2", he.to_string());
}

#[test]
fn test_has_ip() {
    let ip = localhost();
    let he = HostEntry {
        ip: Some(ip),
        name: None,
        aliasses: None,
        comment: None,
    };

    let ip2 = IpAddress::parse("127.0.0.1").expect("Should parse localhost");
    assert!(he.has_ip(&ip2));
    let ip3 = IpAddress::parse("127.0.1.1").expect("Should parse localhost");
    assert!(!he.has_ip(&ip3));
}

#[test]
fn test_hostentry_has_name() {
    let he = HostEntry {
        ip: None,
        name: Some(String::from("arjen.wiersma.nl")),
        aliasses: None,
        comment: None,
    };

    assert!(he.has_name("arjen.wiersma.nl"));
    assert!(!he.has_name("arjen2.wiersma.nl"));
    assert!(!he.has_name("wiersma.nl"));

    let ahe = HostEntry {
        ip: None,
        name: Some(String::from("jelle.wiersma.nl")),
        aliasses: Some(vec![
            String::from("arjen.wiersma.nl"),
            String::from("rebecca.wiersma.nl"),
        ]),
        comment: None,
    };
    assert!(ahe.has_name("arjen.wiersma.nl"));
    assert!(ahe.has_name("rebecca.wiersma.nl"));
    assert!(!ahe.has_name("arjen2.wiersma.nl"));
    assert!(!ahe.has_name("wiersma.nl"));
    assert!(ahe.has_name("jelle.wiersma.nl"));
}

#[test]
fn test_can_resolve() {
    let he = HostEntry {
        ip: None,
        name: Some(String::from("wiersma.nl")),
        aliasses: None,
        comment: None,
    };

    assert!(he.can_resolve_host("arjen.wiersma.nl"));
    assert!(!he.can_resolve_host("bwiersma.nl"));
    assert!(!he.can_resolve_host("piet.nl"));
}

#[test]
fn test_hostname_can_resolve() {
    let he = HostEntry {
        ip: None,
        name: Some(String::from("arjen.wiersma.nl")),
        aliasses: None,
        comment: None,
    };

    assert!(!he.can_hostname_resolve_domain("iersma.nl"));
    assert!(he.can_hostname_resolve_domain("wiersma.nl"));
    assert!(!he.can_hostname_resolve_domain("piet.nl"));
}

#[test]
fn test_switch_name() {
    let mut he = HostEntry {
        ip: None,
        name: Some(String::from("arjen.wiersma.nl")),
        aliasses: None,
        comment: None,
    };

    he.switch_name_with_alias("wiersma.nl");

    assert_eq!(he.name.unwrap(), "wiersma.nl");
    assert_eq!(he.aliasses.unwrap().get(0).unwrap(), "arjen.wiersma.nl");
}

#[test]
fn test_from_string_entry() {
    let entry: HostEntry = "1.1.1.1    arjenwiersma.nl".parse().unwrap();

    assert_eq!("arjenwiersma.nl", entry.name.unwrap());
    assert_eq!(IpAddress::parse("1.1.1.1").unwrap(), entry.ip.unwrap());
}

#[test]
fn test_from_string_empty_entry() {
    let entry: HostEntry = "".parse().unwrap();

    assert_eq!(None, entry.name);
    assert_eq!(None, entry.ip);
}

#[test]
fn test_from_string_entry_with_alias() {
    let entry: HostEntry = "1.1.1.1    arjenwiersma.nl alias1 alias2".parse().unwrap();

    assert_eq!("arjenwiersma.nl", entry.name.unwrap());
    assert_eq!(IpAddress::parse("1.1.1.1").unwrap(), entry.ip.unwrap());
    assert_eq!(entry.aliasses.unwrap(), vec!["alias1", "alias2"]);
}

#[test]
fn test_from_string_entry_with_alias_and_comment() {
    let entry: HostEntry = "1.1.1.1    arjenwiersma.nl alias1 alias2 # testing"
        .parse()
        .unwrap();

    assert_eq!("arjenwiersma.nl", entry.name.unwrap());
    assert_eq!(IpAddress::parse("1.1.1.1").unwrap(), entry.ip.unwrap());
    assert_eq!(entry.aliasses.unwrap(), vec!["alias1", "alias2"]);
    assert_eq!(entry.comment.unwrap(), "testing");
}

#[test]
fn test_from_string_comment() {
    let entry: HostEntry = "# from string".parse().unwrap();

    assert_eq!("from string", entry.comment.unwrap());
}
