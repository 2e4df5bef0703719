use hed::ipaddr::IpAddress;

#[test]
fn dotted_quads_are_read() {
    assert_eq!(IpAddress::parse("1.2.3.4"), Some(IpAddress::V4(1, 2, 3, 4)));
    assert_eq!(IpAddress::parse("0.0.0.0"), Some(IpAddress::V4(0, 0, 0, 0)));
    assert_eq!(
        IpAddress::parse("255.255.255.255"),
        Some(IpAddress::V4(255, 255, 255, 255))
    );
    assert_eq!(
        IpAddress::parse("192.168.0.1"),
        Some(IpAddress::V4(192, 168, 0, 1))
    );
}

#[test]
fn malformed_dotted_quads_are_refused() {
    for text in [
        "", "1.2.3", "1.2.3.4.5", "256.1.1.1", "1.2.3.256", "01.2.3.4", "1.2.3.04", "1..2.3",
        ".1.2.3", "1.2.3.", " 1.2.3.4", "1.2.3.4 ", "1.2.3.a", "1.2.3.1000", "localhost",
        "1,2,3,4", "+1.2.3.4", "00.0.0.0",
    ] {
        assert_eq!(IpAddress::parse(text), None, "{:?}", text);
    }
}

#[test]
fn colon_forms_are_read() {
    assert_eq!(
        IpAddress::parse("::"),
        Some(IpAddress::V6(0, 0, 0, 0, 0, 0, 0, 0))
    );
    assert_eq!(
        IpAddress::parse("1:2:3:4:5:6:7:8"),
        Some(IpAddress::V6(1, 2, 3, 4, 5, 6, 7, 8))
    );
    assert_eq!(
        IpAddress::parse("fe00::0"),
        Some(IpAddress::V6(0xfe00, 0, 0, 0, 0, 0, 0, 0))
    );
    assert_eq!(
        IpAddress::parse("ff02::1"),
        Some(IpAddress::V6(0xff02, 0, 0, 0, 0, 0, 0, 1))
    );
    assert_eq!(
        IpAddress::parse("2001:DB8::abcd:0012"),
        Some(IpAddress::V6(0x2001, 0xdb8, 0, 0, 0, 0, 0xabcd, 0x12))
    );
    assert_eq!(
        IpAddress::parse("1:2:3:4:5:6:7::"),
        Some(IpAddress::V6(1, 2, 3, 4, 5, 6, 7, 0))
    );
    assert_eq!(
        IpAddress::parse("::2:3:4:5:6:7:8"),
        Some(IpAddress::V6(0, 2, 3, 4, 5, 6, 7, 8))
    );
}

#[test]
fn embedded_quads_are_read() {
    assert_eq!(
        IpAddress::parse("::ffff:1.2.3.4"),
        Some(IpAddress::V6(0, 0, 0, 0, 0, 0xffff, 0x0102, 0x0304))
    );
    assert_eq!(
        IpAddress::parse("1:2:3:4:5:6:10.20.30.40"),
        Some(IpAddress::V6(1, 2, 3, 4, 5, 6, 0x0a14, 0x1e28))
    );
    assert_eq!(
        IpAddress::parse("::1.2.3.4"),
        Some(IpAddress::V6(0, 0, 0, 0, 0, 0, 0x0102, 0x0304))
    );
    assert_eq!(
        IpAddress::parse("64:ff9b::192.0.2.33"),
        Some(IpAddress::V6(0x64, 0xff9b, 0, 0, 0, 0, 0xc000, 0x0221))
    );
}

#[test]
fn malformed_colon_forms_are_refused() {
    for text in [
        ":", ":::", "1::2::3", "1:2:3:4:5:6:7", "1:2:3:4:5:6:7:8:9", "12345::", "g::", "::g",
        "1:2:3:4:5:6:7:1.2.3.4", "1.2.3.4::", "1:2:3:4:5:6:7::8", "::1:2:3:4:5:6:7:8", "1:",
        ":1", "1::2:", "::1.2.3", "::1.2.3.4:5", "1:2:3:4:5:6::1.2.3.4", "::%eth0", "::1 ",
        "1:2:3:4:5:1.2.3.4:7", "::01.2.3.4",
    ] {
        assert_eq!(IpAddress::parse(text), None, "{:?}", text);
    }
}

#[test]
fn dotted_quads_are_written() {
    assert_eq!(IpAddress::V4(127, 0, 0, 1).to_string(), "127.0.0.1");
    assert_eq!(IpAddress::V4(0, 0, 0, 0).to_string(), "0.0.0.0");
    assert_eq!(IpAddress::V4(255, 255, 255, 255).to_string(), "255.255.255.255");
    assert_eq!(IpAddress::V4(10, 9, 100, 99).to_string(), "10.9.100.99");
}

#[test]
fn colon_forms_are_written() {
    assert_eq!(IpAddress::V6(0, 0, 0, 0, 0, 0, 0, 0).to_string(), "::");
    assert_eq!(IpAddress::V6(0, 0, 0, 0, 0, 0, 0, 1).to_string(), "::1");
    assert_eq!(IpAddress::V6(1, 0, 0, 0, 0, 0, 0, 0).to_string(), "1::");
    assert_eq!(IpAddress::V6(0xfe00, 0, 0, 0, 0, 0, 0, 0).to_string(), "fe00::");
    assert_eq!(
        IpAddress::V6(0x2001, 0xdb8, 0, 0, 0, 0, 0, 1).to_string(),
        "2001:db8::1"
    );
    assert_eq!(
        IpAddress::V6(1, 2, 3, 4, 5, 6, 7, 8).to_string(),
        "1:2:3:4:5:6:7:8"
    );
    assert_eq!(
        IpAddress::V6(0xffff, 0xabcd, 0x10, 0x100, 0x1000, 0xf, 0xf0, 0xf00).to_string(),
        "ffff:abcd:10:100:1000:f:f0:f00"
    );
}

#[test]
fn the_first_longest_run_of_zeros_is_shortened() {
    assert_eq!(
        IpAddress::V6(1, 0, 0, 2, 0, 0, 0, 3).to_string(),
        "1:0:0:2::3"
    );
    assert_eq!(
        IpAddress::V6(1, 0, 0, 2, 0, 0, 3, 4).to_string(),
        "1::2:0:0:3:4"
    );
    assert_eq!(
        IpAddress::V6(1, 0, 2, 0, 3, 0, 4, 0).to_string(),
        "1:0:2:0:3:0:4:0"
    );
    assert_eq!(IpAddress::V6(0, 0, 1, 0, 0, 0, 0, 0).to_string(), "0:0:1::");
    assert_eq!(IpAddress::V6(0, 1, 0, 0, 0, 0, 0, 0).to_string(), "0:1::");
}

#[test]
fn mapped_addresses_are_written_with_a_quad() {
    assert_eq!(
        IpAddress::V6(0, 0, 0, 0, 0, 0xffff, 0x0102, 0x0304).to_string(),
        "::ffff:1.2.3.4"
    );
    assert_eq!(
        IpAddress::V6(0, 0, 0, 0, 0, 0xffff, 0xc0a8, 0x00ff).to_string(),
        "::ffff:192.168.0.255"
    );
    assert_eq!(
        IpAddress::V6(0, 0, 0, 0, 0, 0, 0x0102, 0x0304).to_string(),
        "::102:304"
    );
}

#[test]
fn every_spelling_is_rewritten_in_the_standard_form() {
    for (text, standard) in [
        ("127.0.0.1", "127.0.0.1"),
        ("fe00::0", "fe00::"),
        ("ff02::2", "ff02::2"),
        ("2001:db8:0:0:1:0:0:1", "2001:db8::1:0:0:1"),
        ("0:0:0:0:0:0:0:1", "::1"),
        ("0:0:0:0:0:0:0:0", "::"),
        ("::ffff:10.0.0.1", "::ffff:10.0.0.1"),
        ("::10.0.0.1", "::a00:1"),
        ("abcd:EF01::", "abcd:ef01::"),
        ("1:2:3:4:5:6:1.2.3.4", "1:2:3:4:5:6:102:304"),
        ("0:0:0:0:0:ffff:102:304", "::ffff:1.2.3.4"),
        ("0:0:0:1:0:0:0:0", "0:0:0:1::"),
        ("1:0:0:0:1:0:0:0", "1::1:0:0:0"),
        ("::0.0.0.0", "::"),
        ("1:2::3:4:5:6:7", "1:2:0:3:4:5:6:7"),
        ("0::0", "::"),
        ("::ffff:0:0", "::ffff:0.0.0.0"),
        ("0001:002:03:4::", "1:2:3:4::"),
    ] {
        let read = IpAddress::parse(text).map(|a| a.to_string());
        assert_eq!(read.as_deref(), Some(standard), "{:?}", text);
    }
}

#[test]
fn what_is_written_is_read_back() {
    for address in [
        IpAddress::V4(127, 0, 0, 1),
        IpAddress::V4(8, 8, 4, 4),
        IpAddress::V6(0, 0, 0, 0, 0, 0, 0, 1),
        IpAddress::V6(0x2001, 0xdb8, 0, 0, 1, 0, 0, 1),
        IpAddress::V6(0, 0, 0, 0, 0, 0xffff, 0x0a00, 0x0001),
        IpAddress::V6(1, 0, 2, 0, 3, 0, 4, 0),
    ] {
        assert_eq!(IpAddress::parse(&address.to_string()), Some(address));
    }
}
