use chall_gate::token::{decode_team_token, digest_in_list, team_token_hash, token_checker};

#[test]
fn token_hash_is_md5_in_lowercase_hex() {
    assert_eq!(team_token_hash(&String::from("abc")), "900150983cd24fb0d6963f7d28e17f72");
    assert_eq!(team_token_hash(&String::from("")), "d41d8cd98f00b204e9800998ecf8427e");
}

#[test]
fn token_checker_accepts_listed_team() {
    let list = vec![String::from("0123"), String::from("900150983cd24fb0d6963f7d28e17f72")];
    assert!(token_checker(&String::from("abc"), &list));
    assert!(!token_checker(&String::from("abd"), &list));
    assert!(!token_checker(&String::from("abc"), &Vec::new()));
}

#[test]
fn token_digest_lookup() {
    let list = vec![String::from("x"), String::from("y")];
    assert!(digest_in_list(&String::from("y"), &list));
    assert!(!digest_in_list(&String::from("z"), &list));
}

#[test]
fn token_decoding_trims_whitespace() {
    assert_eq!(decode_team_token(&b"  CCqkSoOe== \r".to_vec()), "CCqkSoOe==");
    assert_eq!(decode_team_token(&b"\t\r\n".to_vec()), "");
    assert_eq!(decode_team_token(&"\u{a0}x y\u{3000}".as_bytes().to_vec()), "x y");
}

#[test]
fn token_decoding_replaces_invalid_utf8() {
    assert_eq!(decode_team_token(&vec![0x61, 0xff, 0x62]), "a\u{fffd}b");
}

#[test]
fn token_hash_shape() {
    for t in ["", "a", "CCqkSoOeRrSw8rIWKheAiQ==", "\u{3000}team"] {
        let h = team_token_hash(&String::from(t));
        assert_eq!(h.len(), 32);
        assert!(h.chars().all(|c| c.is_ascii_digit() || ('a'..='f').contains(&c)));
    }
}
