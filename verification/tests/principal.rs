use crown_relay::principal::Principal;
use crown_relay::principal_set::PrincipalSet;

#[test]
fn a_principal_keeps_its_bytes() {
    for len in 0..=29usize {
        let bytes: Vec<u8> = (0..len).map(|i| (i * 37 + len) as u8).collect();
        assert_eq!(Principal::from_slice(&bytes).to_bytes(), bytes);
    }
    assert_eq!(Principal::from_slice(&[255; 29]).to_bytes(), [255; 29]);
}

#[test]
fn principals_differ_by_length_and_by_content() {
    let p = Principal::from_slice(&[1, 0]);
    assert_eq!(p, Principal::from_slice(&[1, 0]));
    assert_ne!(p, Principal::from_slice(&[1]));
    assert_ne!(p, Principal::from_slice(&[1, 0, 0]));
    assert_ne!(p, Principal::from_slice(&[0, 1]));
    let mut long = [7; 29];
    let q = Principal::from_slice(&long);
    long[28] = 8;
    assert_ne!(q, Principal::from_slice(&long));
}

#[test]
fn the_anonymous_principal_is_one_byte() {
    assert_eq!(Principal::anonymous().to_bytes(), [4]);
    assert_eq!(
        Principal::anonymous().to_bytes(),
        candid::Principal::anonymous().as_slice()
    );
}

#[test]
fn texts_of_principals_are_parsed() {
    assert_eq!(
        Principal::from_text("aaaaa-aa"),
        Some(Principal::from_slice(&[]))
    );
    assert_eq!(
        Principal::from_text("2vxsx-fae"),
        Some(Principal::anonymous())
    );
    assert_eq!(
        Principal::from_text("2chl6-4hpzw-vqaaa-aaaaa-c").map(|p| p.to_bytes()),
        Some(vec![239, 205, 171, 0, 0, 0, 0, 0, 1])
    );
    let longest = candid::Principal::from_slice(&[9; 29]);
    assert_eq!(
        Principal::from_text(&longest.to_text()).map(|p| p.to_bytes()),
        Some(vec![9; 29])
    );
    assert_eq!(Principal::from_text("PLACEHOLDER_x"), None);
    assert_eq!(Principal::from_text(""), None);
    assert_eq!(Principal::from_text("aaaaaaa"), None);
}

#[test]
fn a_set_of_principals_has_no_duplicates() {
    let (a, b) = (Principal::from_slice(&[1]), Principal::from_slice(&[2]));
    let mut s = PrincipalSet::new();
    assert!(s.is_empty());
    assert_eq!(s.len(), 0);
    s.insert(a);
    s.insert(a);
    assert_eq!(s.len(), 1);
    assert!(s.contains(&a) && !s.contains(&b));
    let t = PrincipalSet::from_list(&[a, b, a]);
    assert_eq!(t.len(), 2);
    assert!(t.contains(&a) && t.contains(&b) && !t.is_empty());
}
