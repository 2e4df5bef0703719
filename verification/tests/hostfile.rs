use hed::hostfile::HostFile;
use hed::ipaddr::IpAddress;

#[test]
fn test_functions() {
    let mut hf = HostFile {
        filename: "/tmp/test".to_string(),
        entries: None,
    };

    assert!(hf.entries.is_none());

    // ADD functions

    // add it
    hf.add(
        String::from("arjenwiersma.nl"),
        Some(String::from("127.0.0.1")),
    )
    .expect("Adding host");
    assert!(hf.entries.is_some());

    // remove it by ip
    hf.delete(String::from("127.0.0.1")).expect("Should delete");
    println!("{:?}", hf);
    assert_eq!(hf.entries.as_ref().unwrap().len(), 0);

    hf.add(
        String::from("arjenwiersma.nl"),
        Some(String::from("127.0.0.1")),
    )
    .expect("Adding host");
    assert!(hf.entries.is_some());

    // remove it by name
    hf.delete(String::from("arjenwiersma.nl"))
        .expect("Should delete");
    assert_eq!(hf.entries.as_ref().unwrap().len(), 0);

    // add a subdomain first
    hf.add(
        String::from("me.arjenwiersma.nl"),
        Some(String::from("127.0.0.1")),
    )
    .expect("Adding host");

    // add parent domain after
    hf.add(
        String::from("arjenwiersma.nl"),
        Some(String::from("127.0.0.1")),
    )
    .expect("Adding parent domain");

    // ensure the parent domain is the `name` property
    assert!(hf.entries.is_some());
    assert_eq!(hf.entries.as_ref().unwrap().len(), 1);
    let he = hf.entries.as_ref().unwrap().get(0).unwrap();
    assert_eq!(he.name.as_ref().unwrap(), "arjenwiersma.nl");

    // and subdomain the alias
    assert_eq!(
        he.aliasses.as_ref().unwrap().get(0).unwrap(),
        "me.arjenwiersma.nl"
    );

    hf.delete(String::from("127.0.0.1")).expect("Should delete");
    assert_eq!(hf.entries.as_ref().unwrap().len(), 0);

    // parent first
    hf.add(
        String::from("arjenwiersma.nl"),
        Some(String::from("127.0.0.1")),
    )
    .expect("Adding host");
    // subdomain second
    hf.add(
        String::from("demo.arjenwiersma.nl"),
        Some(String::from("127.0.0.1")),
    )
    .expect("Adding host");
    assert!(hf.entries.is_some());
    assert_eq!(hf.entries.as_ref().unwrap().len(), 1);
    let he = hf.entries.as_ref().unwrap().get(0).unwrap();
    assert_eq!(he.name.as_ref().unwrap(), "arjenwiersma.nl");

    // and subdomain the alias
    assert_eq!(
        he.aliasses.as_ref().unwrap().get(0).unwrap(),
        "demo.arjenwiersma.nl"
    );

    // a second alias is added
    hf.add(
        String::from("demo2.arjenwiersma.nl"),
        Some(String::from("127.1.0.1")),
    )
    .expect("Adding host");
    assert_eq!(hf.entries.as_ref().unwrap().len(), 2);

    // REPLACE function

    // replace the ip address of the domain
    hf.replace(
        String::from("arjenwiersma.nl"),
        Some(String::from("192.168.0.1")),
    )
    .expect("should replace");
    let e = hf.entries.clone();
    let en = e.unwrap().get(0).unwrap().clone();
    assert_eq!(en.name.unwrap(), "arjenwiersma.nl");
    assert_eq!(
        en.ip.unwrap(),
        IpAddress::parse("192.168.0.1").expect("should read ip")
    );

    match hf.alias(
        String::from("demo2.arjenwiersma.org"),
        String::from("loempia.nl"),
    ) {
        Ok(_) => assert_eq!(true, false),
        Err(_) => {}
    }

    hf.alias(
        String::from("demo2.arjenwiersma.nl"),
        String::from("loempia.nl"),
    )
    .expect("Should add an alias");

    assert!(hf
        .entries
        .as_ref()
        .unwrap()
        .get(1)
        .unwrap()
        .has_name("loempia.nl"));
}
