use easyshare::group_id::{new_group_id, GroupId, InvalidIdentifier};

fn is_lower_hex(b: u8) -> bool {
    (b'0'..=b'9').contains(&b) || (b'a'..=b'f').contains(&b)
}

#[test]
fn fresh_identifier_renders_canonically() {
    let g = new_group_id();
    let r = g.render();
    assert_eq!(r.len(), 36);
    for (i, &b) in r.iter().enumerate() {
        if i == 8 || i == 13 || i == 18 || i == 23 {
            assert_eq!(b, b'-');
        } else {
            assert!(is_lower_hex(b));
        }
    }
}

#[test]
fn fresh_identifiers_differ() {
    let a = new_group_id().render();
    let b = new_group_id().render();
    assert_ne!(a, b);
}

#[test]
fn render_parse_round_trip() {
    let g = new_group_id();
    let r = g.render();
    let parsed = GroupId::parse(&r).expect("canonical rendering must parse");
    assert_eq!(parsed.render(), r);
}

#[test]
fn render_of_known_bytes() {
    let bytes: Vec<u8> = (0u8..16).collect();
    let g = GroupId::from_bytes(bytes);
    assert_eq!(g.render(), b"00010203-0405-0607-0809-0a0b0c0d0e0f".to_vec());
}

#[test]
fn parse_accepts_upper_case() {
    let token = b"ABCDEF12-3456-7890-ABCD-EF1234567890".to_vec();
    let g = GroupId::parse(&token).expect("upper-case hex is well-formed");
    assert_eq!(g.render(), b"abcdef12-3456-7890-abcd-ef1234567890".to_vec());
}

#[test]
fn parse_rejects_wrong_length() {
    assert!(matches!(GroupId::parse(b"abc"), Err(InvalidIdentifier)));
    assert!(matches!(
        GroupId::parse(b"00010203-0405-0607-0809-0a0b0c0d0e0f00"),
        Err(InvalidIdentifier)
    ));
}

#[test]
fn parse_rejects_misplaced_hyphen() {
    assert!(matches!(
        GroupId::parse(b"000102030-405-0607-0809-0a0b0c0d0e0f"),
        Err(InvalidIdentifier)
    ));
}

#[test]
fn parse_rejects_non_hex() {
    assert!(matches!(
        GroupId::parse(b"0001020g-0405-0607-0809-0a0b0c0d0e0f"),
        Err(InvalidIdentifier)
    ));
}
