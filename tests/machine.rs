use enigma::{ConfigError, Machine, Plugboard, Reflector, Rotor};

fn standard_machine() -> Machine {
    Machine::new(("I", "II", "III"), (1, 1, 1), (0, 0, 0), "B", "").unwrap()
}

fn check_encryption(input: &str, expect: &str) {
    let mut machine = standard_machine();
    assert_eq!(machine.encrypt(input), expect);
}

#[test]
fn test_encryption() {
    check_encryption("AAAAA", "EWTYX");
    check_encryption("HELLOXWORLD", "LOFUHZZLZOM");
    check_encryption("toxcaps", "PESEXKY");
    check_encryption("", "");
    check_encryption(
        "TOMORROWANDTOMORROWANDTOMORROWCREEPSINTHISPETTYPACEFROMDAYTODAYTOTHELASTSYLLABLEOFRECORDEDTIMEANDALLOURYESTERDAYSHAVELIGHTEDFOOLSTHEWAYTODUSTYDEATHOUTOUTBRIEFCANDLELIFESBUTAWALKINGSHADOWAPOORPLAYERTHATSTRUTSANDFRETSHISHOURUPONTHESTAGEANDTHENISHEARDNOMOREITISATALETOLDBYANIDIOTFULLOFSOUNDANDFURYSIGNIFYINGNOTHING",
        "PEKGUOMYWIMRREKEVQUTKUYHPEUNARUKIAHIMFOKUTWCWYDITIKPPTQKWDJIGHRYLWDSCIPXOGYXVJPSZOAJRAWTRRFXCLHSKYHSNVLVMTNVBSZEBOHUWSQJDEOFBNKKISVBYKQJSZZRYDGCJHVNPDGNRPBDRKUQBLPWZNVCMGFBUCFTNYGROTUVPJUDECYMJKEHWNCKULMLNEFEBXAAZABEGLTDJFMJFSKXTLIOWWZOMZONONVXVIISACDUACYVQRWUDKKGMSYEKBOGCDBUOSJBCJWKNKFETOIPYDVKWLDIXLLWQDPBTSY",
    );
}

#[test]
fn example_message_round_trip() {
    let mut machine = standard_machine();
    let encrypted = machine.encrypt("EXAMPLEXMESSAGE");
    assert_eq!(encrypted, "AQTSWCKHEVCFYBS");

    let mut machine = standard_machine();
    assert_eq!(machine.encrypt(&encrypted), "EXAMPLEXMESSAGE");
}

#[test]
fn reciprocity_with_plugboard() {
    let plain = "THEQUICKBROWNFOXJUMPSOVERTHELAZYDOG";
    let mut first = Machine::new(("IV", "VII", "II"), (5, 13, 24), (17, 3, 9), "C", "AZ BY QW EF").unwrap();
    let cipher = first.encrypt(plain);
    assert_ne!(cipher, plain);
    let mut second = Machine::new(("IV", "VII", "II"), (5, 13, 24), (17, 3, 9), "C", "AZ BY QW EF").unwrap();
    assert_eq!(second.encrypt(&cipher), plain);
}

#[test]
fn lower_case_comes_back_upper_case() {
    let mut first = standard_machine();
    let cipher = first.encrypt("hello");
    let mut second = standard_machine();
    assert_eq!(second.encrypt(&cipher), "HELLO");
}

#[test]
fn double_step() {
    // Rotor II has its notch at 4 and rotor III at 21.
    let mut machine = Machine::new(("I", "II", "III"), (0, 0, 0), (0, 3, 20), "B", "").unwrap();
    machine.encrypt("A");
    assert_eq!(machine.positions(), vec![0, 3, 21]);
    machine.encrypt("A");
    assert_eq!(machine.positions(), vec![0, 4, 22]);
    machine.encrypt("A");
    assert_eq!(machine.positions(), vec![1, 5, 23]);
    machine.encrypt("A");
    assert_eq!(machine.positions(), vec![1, 5, 24]);
}

#[test]
fn positions_and_settings_taken_modulo() {
    let mut a = Machine::new(("I", "II", "III"), (27, 53, 1), (26, 52, 78), "B", "").unwrap();
    assert_eq!(a.positions(), vec![0, 0, 0]);
    assert_eq!(a.encrypt("AAAAA"), "EWTYX");
}

#[test]
fn non_letters_pass_through_without_stepping() {
    let mut machine = standard_machine();
    assert_eq!(machine.encrypt("A A, A-A!A"), "E W, T-Y!X");

    let mut machine = standard_machine();
    assert_eq!(machine.encrypt(" .,!?123"), " .,!?123");
    assert_eq!(machine.positions(), vec![0, 0, 0]);
    assert_eq!(machine.encrypt("AAAAA"), "EWTYX");
}

#[test]
fn state_persists_across_calls() {
    let mut machine = standard_machine();
    let first = machine.encrypt("HELLO");
    let second = machine.encrypt("XWORLD");
    assert_eq!(format!("{}{}", first, second), "LOFUHZZLZOM");
}

#[test]
fn construction_failures() {
    assert_eq!(
        Machine::new(("I", "II", "IX"), (1, 1, 1), (0, 0, 0), "B", "").err(),
        Some(ConfigError::UnknownRotor)
    );
    assert_eq!(
        Machine::new(("I", "II", "III"), (1, 1, 1), (0, 0, 0), "B", "AB AC").err(),
        Some(ConfigError::DuplicateLetter)
    );
    assert_eq!(
        Machine::new(("I", "II", "III"), (1, 1, 1), (0, 0, 0), "X", "").err(),
        Some(ConfigError::UnknownReflector)
    );
    assert_eq!(
        Machine::new(("I", "II", "III"), (1, 1, 1), (0, 0, 0), "B", "ABC").err(),
        Some(ConfigError::MalformedPair)
    );
    // A bad rotor is reported before a bad reflector or plugboard.
    assert_eq!(
        Machine::new(("IX", "II", "III"), (1, 1, 1), (0, 0, 0), "X", "AB AC").err(),
        Some(ConfigError::UnknownRotor)
    );
    assert_eq!(
        Machine::new(("I", "II", "III"), (1, 1, 1), (0, 0, 0), "X", "AB AC").err(),
        Some(ConfigError::UnknownReflector)
    );
}

#[test]
fn identity_reflector_machine_is_still_reciprocal() {
    let mut first = Machine::new(("VIII", "VI", "V"), (0, 0, 0), (25, 12, 11), "I", "").unwrap();
    let cipher = first.encrypt("ATTACKATDAWN");
    let mut second = Machine::new(("VIII", "VI", "V"), (0, 0, 0), (25, 12, 11), "I", "").unwrap();
    assert_eq!(second.encrypt(&cipher), "ATTACKATDAWN");
}

#[test]
fn self_pair_plugboard_is_accepted() {
    let mut with_self_pair = Machine::new(("I", "II", "III"), (1, 1, 1), (0, 0, 0), "B", "AA").unwrap();
    assert_eq!(with_self_pair.encrypt("AAAAA"), "EWTYX");
}

#[test]
fn error_messages() {
    assert!(!ConfigError::UnknownRotor.message().is_empty());
    assert!(!ConfigError::RotorCount.message().is_empty());
    assert_ne!(
        ConfigError::DuplicateLetter.message(),
        ConfigError::MalformedPair.message()
    );
}

#[test]
fn machine_from_parts_matches_new() {
    let rotors = vec![
        Rotor::new("I", 0, 1).unwrap(),
        Rotor::new("II", 0, 1).unwrap(),
        Rotor::new("III", 0, 1).unwrap(),
    ];
    let mut machine = Machine::from_parts(
        rotors,
        Reflector::b(),
        Plugboard::from_connections("").unwrap(),
    )
    .unwrap();
    assert_eq!(machine.encrypt("HELLOXWORLD"), "LOFUHZZLZOM");
}

#[test]
fn machine_needs_a_rotor() {
    let result = Machine::from_parts(vec![], Reflector::b(), Plugboard::default());
    assert_eq!(result.err(), Some(ConfigError::RotorCount));
}

#[test]
fn four_rotor_machine_steps_and_is_reciprocal() {
    let build = || {
        Machine::from_parts(
            vec![
                Rotor::new("VIII", 0, 0).unwrap(),
                Rotor::new("I", 7, 2).unwrap(),
                Rotor::new("II", 3, 5).unwrap(),
                Rotor::new("III", 20, 9).unwrap(),
            ],
            Reflector::c(),
            Plugboard::new(vec!["QW", "ER"]).unwrap(),
        )
        .unwrap()
    };
    let mut first = build();
    first.encrypt("A");
    assert_eq!(first.positions(), vec![0, 7, 3, 21]);
    first.encrypt("A");
    assert_eq!(first.positions(), vec![0, 7, 4, 22]);
    first.encrypt("A");
    assert_eq!(first.positions(), vec![0, 8, 5, 23]);

    let mut first = build();
    let cipher = first.encrypt("SOMEWHEREOVERTHERAINBOW");
    let mut second = build();
    assert_eq!(second.encrypt(&cipher), "SOMEWHEREOVERTHERAINBOW");
}

#[test]
fn single_rotor_machine() {
    let build = || {
        Machine::from_parts(
            vec![Rotor::new("V", 24, 0).unwrap()],
            Reflector::a(),
            Plugboard::default(),
        )
        .unwrap()
    };
    let mut first = build();
    let cipher = first.encrypt("ROTORS");
    assert_eq!(first.positions(), vec![4]);
    let mut second = build();
    assert_eq!(second.encrypt(&cipher), "ROTORS");
}
