use macmapd::dump::{
    classless_routes, dhcp_packet_dump, hex_payload, ipv4_values, option_name, option_value,
    printable, relay_information,
};

#[test]
fn decodes_bootp_options_relay_information_and_routes() {
    let mut bytes = vec![0; 240];
    bytes[0..4].copy_from_slice(&[1, 1, 6, 1]);
    bytes[4..8].copy_from_slice(&0x5108bb30_u32.to_be_bytes());
    bytes[8..10].copy_from_slice(&1_u16.to_be_bytes());
    bytes[24..28].copy_from_slice(&[172, 19, 15, 2]);
    bytes[28..34].copy_from_slice(&[0xb4, 0x96, 0x91, 0x39, 0x73, 0x4c]);
    bytes[236..240].copy_from_slice(&[99, 130, 83, 99]);
    bytes.extend_from_slice(&[
        53, 1, 3, // DHCPREQUEST
        55, 4, 1, 6, 26, 121, // Parameter request list
        82, 7, 1, 3, b'l', b'a', b'n', 2, 0, // Relay information
        121, 7, 16, 192, 168, 172, 19, 15, 2, // 192.168/16 via relay
        255,
    ]);

    let dump = dhcp_packet_dump(&bytes);
    for expected in [
        "BOOTP/DHCP, Request",
        "xid 0x5108bb30",
        "Gateway-IP 172.19.15.2",
        "Client-Ethernet-Address b4:96:91:39:73:4c",
        "DHCP-Message Option 53, length 1: REQUEST",
        "Subnet-Mask, Domain-Name-Server, MTU, Classless-Static-Route",
        "Agent-Information Option 82",
        "Circuit-ID SubOption 1, length 3: lan",
        "Remote-ID SubOption 2, length 0:",
        "Classless-Static-Route Option 121, length 7: 192.168.0.0/16:172.19.15.2",
    ] {
        assert!(dump.contains(expected), "missing {expected:?} in:\n{dump}");
    }
}

#[test]
fn reports_short_payload_without_panicking() {
    assert_eq!(
        dhcp_packet_dump(&[1, 2, 3]),
        "Malformed BOOTP/DHCP payload, length 3"
    );
}

#[test]
fn whole_dump() {
    let mut bytes = vec![0; 240];
    bytes[0..4].copy_from_slice(&[2, 1, 6, 0]);
    bytes[10] = 0x80;
    bytes[16..20].copy_from_slice(&[1, 2, 3, 4]);
    bytes[28..34].copy_from_slice(&[1, 2, 3, 4, 5, 6]);
    bytes[44..47].copy_from_slice(b"srv");
    bytes[108..112].copy_from_slice(b"a\"b\x01");
    bytes[236..240].copy_from_slice(&[99, 130, 83, 99]);
    bytes.extend_from_slice(&[0, 51, 4, 0, 0, 14, 16, 200, 1, 0, 12, 9, 65]);
    assert_eq!(
        dhcp_packet_dump(&bytes),
        "BOOTP/DHCP, Reply, length 253, hops 0, xid 0x00000000, secs 0, Flags [Broadcast]\n  \
         Your-IP 1.2.3.4\n  \
         Client-Ethernet-Address 01:02:03:04:05:06\n  \
         Server-Name \"srv\"\n  \
         Bootfile-Name \"a\"b\\x01\"\n  \
         Vendor-rfc1048 Extensions\n    \
         Magic Cookie 0x63825363\n    \
         Lease-Time Option 51, length 4: 3600\n    \
         Option Option 200, length 1: ^@\n    \
         Malformed Option 12, length 9"
    );
    let cut = dhcp_packet_dump(&bytes[..251]);
    assert!(cut.ends_with("\n    Malformed Option 12: missing length"), "{cut}");
    bytes[236] = 0;
    assert!(dhcp_packet_dump(&bytes).ends_with("\n  No RFC1048 magic cookie"));
    assert!(dhcp_packet_dump(&bytes[..236]).ends_with("\n  No RFC1048 magic cookie"));
}

#[test]
fn option_values() {
    for (code, value, expected) in [
        (1u8, &[255, 255, 255, 0][..], "255.255.255.0"),
        (6, &[1, 2, 3, 4, 5, 6, 7, 8][..], "1.2.3.4, 5.6.7.8"),
        (6, &[1, 2, 3][..], "\\x01\\x02\\x03"),
        (12, b"host\0", "\"host^@\""),
        (2, &[0xff, 0xff, 0xff, 0xfe][..], "-2"),
        (2, &[0x7f, 0xff, 0xff, 0xff][..], "2147483647"),
        (2, &[1][..], "\\x01"),
        (57, &[5, 220][..], "1500"),
        (58, &[0, 0, 7, 8][..], "1800"),
        (53, &[8][..], "INFORM"),
        (53, &[9][..], "UNKNOWN"),
        (55, &[1, 200, 121][..], "Subnet-Mask, Option 200, Classless-Static-Route"),
        (55, &[][..], ""),
        (61, &[1, 0xaa, 0xbb, 0xcc, 0xdd, 0xee, 0xff][..], "ether aa:bb:cc:dd:ee:ff"),
        (61, &[0, 65][..], "^@A"),
        (93, &[0, 7, 0, 11][..], "7, 11"),
        (93, &[0][..], "^@"),
        (249, &[0, 1, 2, 3, 4][..], "0.0.0.0/0:1.2.3.4"),
        (121, &[33, 1, 2, 3, 4][..], "!\\x01\\x02\\x03\\x04"),
    ] {
        assert_eq!(option_value(code, value), expected, "{code}");
    }
}

#[test]
fn values_in_parts() {
    assert_eq!(printable(b"a~ \x7f\n"), "a~ \\x7f\\x0a");
    assert_eq!(ipv4_values(&[]), None);
    assert_eq!(ipv4_values(&[1, 2, 3, 4]).as_deref(), Some("1.2.3.4"));
    assert_eq!(classless_routes(&[]).as_deref(), Some(""));
    assert_eq!(classless_routes(&[8, 10, 1, 2, 3]), None);
    assert_eq!(
        classless_routes(&[8, 10, 1, 2, 3, 1, 12, 172, 16, 1, 2, 3, 1]).as_deref(),
        Some("10.0.0.0/8:1.2.3.1, 172.16.0.0/12:1.2.3.1")
    );
    assert_eq!(option_name(82), "Agent-Information");
    assert_eq!(option_name(83), "Option");
    assert_eq!(hex_payload(&[0, 0x1f, 0xff]), "001fff");
    assert_eq!(
        relay_information(&[1, 1, b'x', 9, 0, 2, 5, 1]),
        [
            "      Circuit-ID SubOption 1, length 1: x",
            "      SubOption SubOption 9, length 0: ",
            "Malformed relay suboption 2, length 5"
        ]
    );
    assert_eq!(relay_information(&[1]), ["Malformed relay suboption header"]);
}
