use enigma::{char_to_wire, encoding_to_wiring, wire_to_char, wiring_to_encoding, ClockInt, ConfigError};

#[test]
fn encoding_to_wiring_works() {
    assert_eq!(
        encoding_to_wiring("abcdefghijklmnopqrstuvwxyz").unwrap(),
        [
            0, 1, 2, 3, 4, 5, 6, 7, 8, 9, 10, 11, 12, 13, 14, 15, 16, 17, 18, 19, 20, 21, 22, 23,
            24, 25
        ]
    )
}

#[test]
fn wiring_to_encoding_works() {
    assert_eq!(
        wiring_to_encoding([
            0, 1, 2, 3, 4, 5, 6, 7, 8, 9, 10, 11, 12, 13, 14, 15, 16, 17, 18, 19, 20, 21, 22, 23,
            24, 25
        ]),
        "abcdefghijklmnopqrstuvwxyz"
    )
}

#[test]
fn clock_int_base() {
    assert_eq!(ClockInt::from(23).value(), 23)
}

#[test]
fn clock_int_overflow() {
    assert_eq!(ClockInt::from(27).value(), 1)
}

#[test]
fn clock_int_add() {
    let mi = ClockInt::from(23) + 7;
    assert_eq!(mi.value(), 4)
}

#[test]
fn clock_int_add_assign() {
    let mut mi = ClockInt::from(23);
    mi += 34;
    assert_eq!(mi.value(), 5)
}

#[test]
fn clock_int_sub() {
    let mi = ClockInt::from(6) - 18;
    assert_eq!(mi.value(), 14)
}

#[test]
fn clock_int_with_clock_operands() {
    assert_eq!((ClockInt::from(20) + ClockInt::from(10)).value(), 4);
    assert_eq!((ClockInt::from(3) - ClockInt::from(10)).value(), 19);
    assert_eq!(ClockInt::from(3).minus(255).value(), 8);
    assert_eq!(ClockInt::from(25).plus(255).value(), 20);
}

#[test]
fn encoding_is_case_insensitive() {
    assert_eq!(
        encoding_to_wiring("EKMFLGDQVZNTOWYHXUSPAIBRCJ").unwrap(),
        encoding_to_wiring("ekmflgdqvzntowyhxuspaibrcj").unwrap()
    );
    assert_eq!(encoding_to_wiring("EKMF").unwrap_err(), ConfigError::MalformedEncoding);
    assert_eq!(
        encoding_to_wiring("abcdefghijklmnopqrstuvwxy1").unwrap_err(),
        ConfigError::MalformedEncoding
    );
}

#[test]
fn letters_and_symbols() {
    assert_eq!(char_to_wire('a'), 0);
    assert_eq!(char_to_wire('Z'), 25);
    assert_eq!(char_to_wire('q'), 16);
    assert_eq!(wire_to_char(0), 'A');
    assert_eq!(wire_to_char(25), 'Z');
    assert_eq!(
        wiring_to_encoding([
            4, 10, 12, 5, 11, 6, 3, 16, 21, 25, 13, 19, 14, 22, 24, 7, 23, 20, 18, 15, 0, 8, 1,
            17, 2, 9
        ]),
        "ekmflgdqvzntowyhxuspaibrcj"
    );
}
