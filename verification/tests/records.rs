use hed::hostentry::{HostEntry, COMMENT_LINE, HOST_LINE};
use hed::ipaddr::IpAddress;
use hed::utils::Modifications;

fn host(ip: &str, name: &str, aliasses: Option<&[&str]>) -> HostEntry {
    HostEntry {
        ip: IpAddress::parse(ip),
        name: Some(name.to_string()),
        aliasses: aliasses.map(|a| a.iter().map(|t| t.to_string()).collect()),
        comment: None,
    }
}

fn group(text: &str) -> Option<String> {
    Some(text.to_string())
}

#[test]
fn a_plain_host_line_comes_back_as_it_was() {
    for line in [
        "127.0.0.1\tlocalhost",
        "1.1.1.1\tarjenwiersma.nl",
        "::1\tip6-localhost",
        "fe00::\tip6-localnet",
        "2001:db8::1\ta.b.c",
        "::ffff:10.0.0.1\tmapped",
    ] {
        assert_eq!(HostEntry::from_line(line).to_string(), line);
    }
}

#[test]
fn an_address_is_rewritten_in_its_standard_form() {
    assert_eq!(
        HostEntry::from_line("0:0:0:0:0:0:0:1\tlocalhost").to_string(),
        "::1\tlocalhost"
    );
    assert_eq!(
        HostEntry::from_line("fe00::0 ip6-localnet").to_string(),
        "fe00::\tip6-localnet"
    );
}

#[test]
fn a_host_line_is_taken_apart() {
    let entry = HostEntry::from_line("10.0.0.7 files.example.org files  nas\t# in the cellar ");
    assert_eq!(entry.ip, Some(IpAddress::V4(10, 0, 0, 7)));
    assert_eq!(entry.name.as_deref(), Some("files.example.org"));
    assert_eq!(
        entry.aliasses,
        Some(vec!["files".to_string(), "nas".to_string()])
    );
    assert_eq!(entry.comment.as_deref(), Some("in the cellar"));
    assert_eq!(
        entry.to_string(),
        "10.0.0.7\tfiles.example.org\tfiles nas\t# in the cellar"
    );
}

#[test]
fn a_comment_behind_the_name_is_kept() {
    let entry = HostEntry::from_line("1.1.1.1 name # c");
    assert_eq!(entry.name.as_deref(), Some("name"));
    assert_eq!(entry.aliasses, None);
    assert_eq!(entry.comment.as_deref(), Some("c"));
    assert_eq!(entry.to_string(), "1.1.1.1\tname\t# c");
}

#[test]
fn a_malformed_address_leaves_name_and_aliases() {
    let entry = HostEntry::from_line("notanip name other # why");
    assert_eq!(entry.ip, None);
    assert_eq!(entry.name.as_deref(), Some("name"));
    assert_eq!(entry.aliasses, Some(vec!["other".to_string()]));
    assert_eq!(entry.comment.as_deref(), Some("why"));
    let entry = HostEntry::from_line("300.1.1.1 name");
    assert_eq!(entry.ip, None);
    assert_eq!(entry.name.as_deref(), Some("name"));
}

#[test]
fn comment_lines_hold_the_comment_only() {
    let entry = HostEntry::from_line("#no space");
    assert_eq!(entry.comment.as_deref(), Some("no space"));
    assert_eq!(entry.ip, None);
    assert_eq!(entry.name, None);
    assert_eq!(entry.aliasses, None);
    assert_eq!(entry.to_string(), "# no space");
    let entry = HostEntry::from_line("#   127.0.0.1 localhost  ");
    assert_eq!(entry.comment.as_deref(), Some("127.0.0.1 localhost"));
    assert_eq!(entry.ip, None);
    let entry = HostEntry::from_line("# ");
    assert_eq!(entry.comment.as_deref(), Some(""));
}

#[test]
fn other_lines_are_blank() {
    for line in ["", "#", "word", "  ", "127.0.0.1", "127.0.0.1 "] {
        assert_eq!(HostEntry::from_line(line), HostEntry::empty(), "{:?}", line);
    }
    assert_eq!(HostEntry::empty().to_string(), "");
}

#[test]
fn white_space_alone_can_stand_for_address_and_name() {
    let entry = HostEntry::from_line("   ");
    assert_eq!(entry.ip, None);
    assert_eq!(entry.name.as_deref(), Some(""));
    assert_eq!(entry.aliasses, None);
    assert_eq!(entry.comment, None);
}

#[test]
fn trailing_white_space_gives_an_empty_list_of_aliases() {
    let entry = HostEntry::from_line("1.1.1.1 name  ");
    assert_eq!(entry.name.as_deref(), Some("name"));
    assert_eq!(entry.aliasses, Some(vec![]));
    assert_eq!(entry.to_string(), "1.1.1.1\tname\t");
    let entry = HostEntry::from_line("1.1.1.1 name ");
    assert_eq!(entry.name.as_deref(), Some("name"));
    assert_eq!(entry.aliasses, None);
}

#[test]
fn the_groups_of_a_host_line_give_the_entry() {
    let groups = vec![
        group("1.1.1.1 name  a b # c"),
        group("1.1.1.1"),
        group("name "),
        group(" a b "),
        group("a b "),
        group("# c"),
        group(" c "),
    ];
    let entry = HostEntry::from_host_captures(&groups);
    assert_eq!(entry.ip, Some(IpAddress::V4(1, 1, 1, 1)));
    assert_eq!(entry.name.as_deref(), Some("name"));
    assert_eq!(entry.aliasses, Some(vec!["a".to_string(), "b".to_string()]));
    assert_eq!(entry.comment.as_deref(), Some("c"));

    let groups = vec![group("x y"), group("x"), group("y"), None, None, None, None];
    let entry = HostEntry::from_host_captures(&groups);
    assert_eq!(entry.ip, None);
    assert_eq!(entry.name.as_deref(), Some("y"));
    assert_eq!(entry.aliasses, None);
    assert_eq!(entry.comment, None);

    assert_eq!(HostEntry::from_host_captures(&vec![]), HostEntry::empty());
}

#[test]
fn the_groups_of_a_comment_line_give_the_entry() {
    let entry = HostEntry::from_comment_captures(&vec![group("#  hello "), group(" hello ")]);
    assert_eq!(entry.comment.as_deref(), Some("hello"));
    assert_eq!(entry.ip, None);
    assert_eq!(entry.name, None);
    assert_eq!(entry.aliasses, None);
    assert_eq!(
        HostEntry::from_comment_captures(&vec![group("#")]),
        HostEntry::empty()
    );
}

#[test]
fn the_expressions_are_those_of_the_two_kinds_of_line() {
    assert_eq!(COMMENT_LINE, r"^#\s*(?P<c>.+)\s*$");
    assert_eq!(
        HOST_LINE,
        r"^(?P<ip>.+?)\s+(?P<name>.+?)(\s+(?P<aliasses>[^#]+))?(#\s*(?P<c>.*))?$"
    );
}

#[test]
fn an_entry_without_a_name_is_written_with_an_empty_one() {
    let entry = HostEntry {
        ip: Some(IpAddress::V4(1, 2, 3, 4)),
        name: None,
        aliasses: None,
        comment: None,
    };
    assert_eq!(entry.to_string(), "1.2.3.4\t");
}

#[test]
fn a_comment_is_written_behind_a_hash() {
    let entry = HostEntry {
        ip: None,
        name: None,
        aliasses: None,
        comment: Some("from string".to_string()),
    };
    assert_eq!(entry.to_string(), "# from string");
}

#[test]
fn entries_are_equal_field_by_field() {
    let a = host("127.0.0.1", "a.nl", Some(&["b.nl"]));
    assert_eq!(a, a.clone());
    assert_ne!(a, host("127.0.0.2", "a.nl", Some(&["b.nl"])));
    assert_ne!(a, host("127.0.0.1", "c.nl", Some(&["b.nl"])));
    assert_ne!(a, host("127.0.0.1", "a.nl", Some(&["b.nl", "b.nl"])));
    assert_ne!(a, host("127.0.0.1", "a.nl", None));
    assert_ne!(
        host("127.0.0.1", "a.nl", Some(&[])),
        host("127.0.0.1", "a.nl", None)
    );
    let mut c = a.clone();
    c.comment = Some("x".to_string());
    assert_ne!(a, c);
}

#[test]
fn aliases_keep_their_order_and_their_doubles() {
    let mut entry = host("127.0.0.1", "a.nl", None);
    entry.add_alias("z.a.nl");
    entry.add_alias("b.a.nl");
    entry.add_alias("z.a.nl");
    assert_eq!(
        entry.aliasses,
        Some(vec![
            "z.a.nl".to_string(),
            "b.a.nl".to_string(),
            "z.a.nl".to_string()
        ])
    );
    assert!(entry.has_name("b.a.nl"));
}

#[test]
fn only_a_parent_domain_takes_the_name() {
    let mut entry = host("127.0.0.1", "arjen.wiersma.nl", Some(&["x.nl"]));
    entry.switch_name_with_alias("iersma.nl");
    assert_eq!(entry, host("127.0.0.1", "arjen.wiersma.nl", Some(&["x.nl"])));
    entry.switch_name_with_alias("arjen.wiersma.nl");
    assert_eq!(entry, host("127.0.0.1", "arjen.wiersma.nl", Some(&["x.nl"])));
    entry.switch_name_with_alias("wiersma.nl");
    assert_eq!(
        entry,
        host("127.0.0.1", "wiersma.nl", Some(&["x.nl", "arjen.wiersma.nl"]))
    );
    let mut nameless = HostEntry::empty();
    nameless.switch_name_with_alias("nl");
    assert_eq!(nameless, HostEntry::empty());
}

#[test]
fn an_empty_list_of_aliases_counts_as_none_for_deleting() {
    let entry = host("127.0.0.1", "a.nl", Some(&[]));
    assert!(entry.can_delete("a.nl"));
    assert!(!entry.can_delete("b.nl"));
    let (mods, left) = entry.remove_hostname("a.nl");
    assert_eq!(left, HostEntry::empty());
    assert_eq!(mods, Modifications::new());
    assert!(!HostEntry::empty().can_delete(""));
}

#[test]
fn taking_the_name_promotes_the_first_shortest_alias() {
    let entry = host("127.0.0.1", "a.nl", Some(&["long.a.nl", "x.a.nl", "y.a.nl", "x.a.nl"]));
    let (mods, left) = entry.remove_hostname("a.nl");
    assert_eq!(
        mods,
        Modifications {
            updated_entries: 1,
            removed_entries: 0,
            added_entries: 0
        }
    );
    assert_eq!(left, host("127.0.0.1", "x.a.nl", Some(&["long.a.nl", "y.a.nl"])));
    assert!(!left.has_name("a.nl"));
}

#[test]
fn taking_an_alias_leaves_the_rest() {
    let mut entry = host("127.0.0.1", "a.nl", Some(&["x.a.nl", "y.a.nl", "x.a.nl"]));
    entry.comment = Some("kept".to_string());
    let (mods, left) = entry.remove_hostname("x.a.nl");
    assert_eq!(mods.updated_entries, 1);
    assert_eq!(mods.removed_entries, 0);
    assert_eq!(mods.added_entries, 0);
    let mut want = host("127.0.0.1", "a.nl", Some(&["y.a.nl"]));
    want.comment = Some("kept".to_string());
    assert_eq!(left, want);

    let (mods, left) = entry.remove_hostname("unknown.nl");
    assert_eq!(mods, Modifications::new());
    assert_eq!(left, entry);

    let comment = HostEntry::from_line("# a.nl");
    let (mods, left) = comment.remove_hostname("a.nl");
    assert_eq!(mods, Modifications::new());
    assert_eq!(left, comment);
}
