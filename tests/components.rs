use enigma::{
    encoding_to_wiring, identity_wiring, invert_wiring, wiring_to_encoding, Component,
    ConfigError, Plugboard, Reflector, Rotor,
};

#[test]
fn test_rotor_wiring() {
    let plug = Plugboard::from_connections("").unwrap();
    let expected = identity_wiring();
    assert_eq!(plug.wiring(), expected);
}

#[test]
fn test_plugboard_build_ident() {
    let plug = Plugboard::from_connections("").unwrap();
    let expected = identity_wiring();
    assert_eq!(plug.wiring(), expected);
}

#[test]
fn test_plugboard_build() {
    let plug = Plugboard::from_connections("AB DE").unwrap();
    let mut expected = identity_wiring();
    expected[0] = 1;
    expected[1] = 0;
    expected[3] = 4;
    expected[4] = 3;

    assert_eq!(plug.wiring(), expected);
}

#[test]
fn test_reflector_build() {
    let refl = Reflector::from_encoding("BACDEFGHIJKLMNOPQRSTUVWXYZ").unwrap();
    let mut expected = identity_wiring();
    expected[0] = 1;
    expected[1] = 0;

    assert_eq!(refl.wiring(), expected);
}

#[test]
fn test_reflector_build2() {
    let refl = Reflector::from_encoding("ABCDEFGHIJKLMNOPQRSTUVWXZY").unwrap();
    let mut expected = identity_wiring();
    expected[24] = 25;
    expected[25] = 24;

    assert_eq!(refl.wiring(), expected);
}

#[test]
fn plugboard_no_cons() {
    let p = Plugboard::new(vec![]).unwrap();
    let expected = "abcdefghijklmnopqrstuvwxyz";

    assert_eq!(wiring_to_encoding(p.wiring()), expected);
}

#[test]
fn plugboard_cons() {
    let p = Plugboard::new(vec!["az", "by", "cx", "dw", "ev"]).unwrap();
    let expected = "zyxwvfghijklmnopqrstuedcba";

    assert_eq!(wiring_to_encoding(p.wiring()), expected);
}

#[test]
fn reflector_identity() {
    let encoding = "abcdefghijklmnopqrstuvwxyz";
    let r = Reflector::from_encoding(encoding).unwrap();

    assert_eq!(wiring_to_encoding(r.wiring()), encoding);
}

#[test]
fn reflector_other() {
    let encoding = "yruhqsldpxngokmiebfzcwvjat";
    let r = Reflector::from_encoding(encoding).unwrap();

    assert_eq!(wiring_to_encoding(r.wiring()), encoding);
}

#[test]
fn reflector_construct() {
    let r = Reflector::new("a").unwrap();
    assert_eq!(r.forward(7), 23);
}

#[test]
fn rotor_constructs() {
    let r = Rotor::new("I", 37, 45).unwrap();

    assert_eq!(r.position(), 11);
    assert_eq!(r.ring_setting(), 19);
}

#[test]
fn rotor_notches() {
    let mut r = Rotor::with_wiring("ABCDEFGHIJKLMNOPQRSTUVWXYZ", 5, 0, vec![5, 10]).unwrap();

    assert!(r.at_notch());
    r.turnover();
    assert!(!r.at_notch());
    for _ in 0..4 {
        r.turnover();
    }
    assert!(r.at_notch());
}

#[test]
fn rotor_turnover() {
    let mut r = Rotor::with_wiring("ABCDEFGHIJKLMNOPQRSTUVWXYZ", 5, 0, vec![5, 10]).unwrap();

    assert_eq!(r.position(), 5);
    r.turnover();
    assert_eq!(r.position(), 6);
}

#[test]
fn invert_wiring_works() {
    let wiring = encoding_to_wiring("cabdefghijklmnopqrstuvwxyz").unwrap();
    let expected = encoding_to_wiring("bcadefghijklmnopqrstuvwxyz").unwrap();

    let res = invert_wiring(wiring);

    assert_eq!(res.len(), expected.len());
    assert!(
        res.iter().zip(expected.iter()).all(|(a, b)| a == b),
        "Arrays are not equal"
    );
}

#[test]
fn rotor_turnover_wraps_to_zero() {
    let mut r = Rotor::new("II", 25, 0).unwrap();
    r.turnover();
    assert_eq!(r.position(), 0);
}

#[test]
fn rotor_classical_notches() {
    assert!(Rotor::new("I", 16, 0).unwrap().at_notch());
    assert!(!Rotor::new("I", 17, 0).unwrap().at_notch());
    assert!(Rotor::new("VI", 12, 0).unwrap().at_notch());
    assert!(Rotor::new("VI", 25, 0).unwrap().at_notch());
    assert!(!Rotor::new("V", 12, 0).unwrap().at_notch());
}

#[test]
fn rotor_forward_formula() {
    // Rotor I at position 0 with ring setting 0 maps A to E.
    let r = Rotor::new("I", 0, 0).unwrap();
    assert_eq!(r.forward(0), 4);
    assert_eq!(r.backward(4), 0);
    // Position 1, ring setting 0: shift 1, B -> wiring[2] = M (12), minus 1 = 11.
    let r = Rotor::new("I", 1, 0).unwrap();
    assert_eq!(r.forward(1), 11);
    // Position 0, ring setting 1: shift 25, A -> wiring[25] = J (9), minus 25 = 10.
    let r = Rotor::new("I", 0, 1).unwrap();
    assert_eq!(r.forward(0), 10);
}

#[test]
fn rotor_backward_inverts_forward() {
    for name in ["I", "II", "III", "IV", "V", "VI", "VII", "VIII"] {
        for pos in [0u8, 7, 25] {
            for ring in [0u8, 3, 25] {
                let r = Rotor::new(name, pos, ring).unwrap();
                for x in 0..26u8 {
                    assert_eq!(r.backward(r.forward(x)), x);
                    assert_eq!(r.forward(r.backward(x)), x);
                }
            }
        }
    }
}

#[test]
fn tables_are_bijective() {
    for name in ["I", "II", "III", "IV", "V", "VI", "VII", "VIII"] {
        let r = Rotor::new(name, 0, 0).unwrap();
        let mut seen = [false; 26];
        for x in 0..26u8 {
            seen[r.forward(x) as usize] = true;
        }
        assert!(seen.iter().all(|s| *s));
    }
    for kind in ["A", "B", "C", "I"] {
        let refl = Reflector::new(kind).unwrap();
        for x in 0..26u8 {
            assert_eq!(refl.forward(refl.forward(x)), x);
        }
    }
    let plug = Plugboard::from_connections("AZ BY QW").unwrap();
    for x in 0..26u8 {
        assert_eq!(plug.forward(plug.forward(x)), x);
        assert_eq!(plug.backward(x), plug.forward(x));
    }
}

#[test]
fn unknown_rotor_name() {
    assert_eq!(Rotor::new("IX", 0, 0).unwrap_err(), ConfigError::UnknownRotor);
    assert_eq!(Rotor::new("i", 0, 0).unwrap_err(), ConfigError::UnknownRotor);
    assert_eq!(Rotor::new("", 0, 0).unwrap_err(), ConfigError::UnknownRotor);
}

#[test]
fn unknown_reflector_kind() {
    assert_eq!(Reflector::new("D").unwrap_err(), ConfigError::UnknownReflector);
    assert_eq!(Reflector::new("BB").unwrap_err(), ConfigError::UnknownReflector);
    assert!(Reflector::new("b").is_ok());
}

#[test]
fn reflector_kinds_have_their_tables() {
    assert_eq!(
        wiring_to_encoding(Reflector::new("B").unwrap().wiring()),
        "yruhqsldpxngokmiebfzcwvjat"
    );
    assert_eq!(
        wiring_to_encoding(Reflector::new("C").unwrap().wiring()),
        "fvpjiaoyedrzxwgctkuqsbnmhl"
    );
    assert_eq!(
        wiring_to_encoding(Reflector::new("i").unwrap().wiring()),
        "abcdefghijklmnopqrstuvwxyz"
    );
}

#[test]
fn reflector_encoding_must_be_involution() {
    assert_eq!(
        Reflector::from_encoding("BCADEFGHIJKLMNOPQRSTUVWXYZ").unwrap_err(),
        ConfigError::MalformedEncoding
    );
    assert_eq!(
        Reflector::from_encoding("ABC").unwrap_err(),
        ConfigError::MalformedEncoding
    );
}

#[test]
fn rotor_wiring_must_be_permutation() {
    assert_eq!(
        Rotor::with_wiring("AACDEFGHIJKLMNOPQRSTUVWXYZ", 0, 0, vec![1]).unwrap_err(),
        ConfigError::MalformedEncoding
    );
    assert_eq!(
        Rotor::with_wiring("ABCDEFGHIJKLMNOPQRSTUVWXYZ", 0, 0, vec![26]).unwrap_err(),
        ConfigError::MalformedEncoding
    );
}

#[test]
fn plugboard_duplicate_letter() {
    assert_eq!(
        Plugboard::new(vec!["AB", "AC"]).unwrap_err(),
        ConfigError::DuplicateLetter
    );
    assert_eq!(
        Plugboard::new(vec!["AA", "AB"]).unwrap_err(),
        ConfigError::DuplicateLetter
    );
    assert_eq!(
        Plugboard::from_connections("CD Aa bA").unwrap_err(),
        ConfigError::DuplicateLetter
    );
    assert_eq!(
        Plugboard::from_connections("AB CB").unwrap_err(),
        ConfigError::DuplicateLetter
    );
}

#[test]
fn plugboard_malformed_pair() {
    assert_eq!(
        Plugboard::new(vec!["ABC"]).unwrap_err(),
        ConfigError::MalformedPair
    );
    assert_eq!(
        Plugboard::new(vec!["A1"]).unwrap_err(),
        ConfigError::MalformedPair
    );
    assert_eq!(
        Plugboard::from_connections("AB C").unwrap_err(),
        ConfigError::MalformedPair
    );
    // The first connection at fault decides the error.
    assert_eq!(
        Plugboard::new(vec!["AB", "X", "BA"]).unwrap_err(),
        ConfigError::MalformedPair
    );
}

#[test]
fn plugboard_splits_on_any_whitespace() {
    let plug = Plugboard::from_connections("  ab\tDE\n").unwrap();
    let mut expected = identity_wiring();
    expected[0] = 1;
    expected[1] = 0;
    expected[3] = 4;
    expected[4] = 3;
    assert_eq!(plug.wiring(), expected);
}

#[test]
fn defaults_are_identity() {
    let plug = Plugboard::default();
    assert_eq!(plug.wiring(), identity_wiring());
    let refl = Reflector::default();
    assert_eq!(refl.wiring(), identity_wiring());
    let mut rotor = Rotor::default();
    assert_eq!(rotor.position(), 0);
    assert!(rotor.at_notch());
    assert_eq!(rotor.forward(7), 7);
    rotor.turnover();
    assert!(!rotor.at_notch());
}

#[test]
fn plugboard_self_pair_leaves_letter_alone() {
    let plug = Plugboard::new(vec!["AA"]).unwrap();
    assert_eq!(plug.wiring(), identity_wiring());
    let plug = Plugboard::from_connections("Aa BC").unwrap();
    let mut expected = identity_wiring();
    expected[1] = 2;
    expected[2] = 1;
    assert_eq!(plug.wiring(), expected);
}

#[test]
fn plugboard_unicode_whitespace_separates() {
    let plug = Plugboard::from_connections("AB\u{3000}DE\u{a0}FG").unwrap();
    assert_eq!(wiring_to_encoding(plug.wiring()), "bacedgfhijklmnopqrstuvwxyz");
    assert_eq!(
        Plugboard::from_connections("AB\u{200b}DE").unwrap_err(),
        ConfigError::MalformedPair
    );
}
