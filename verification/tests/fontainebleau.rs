use climbing_grades::fontainebleau::Division;
use climbing_grades::fontainebleau::Fontainebleau;
use climbing_grades::fontainebleau::FontainebleauError;
use climbing_grades::fontainebleau::FontainebleauParseError;
use climbing_grades::grades::GradeTrait;

#[test]
fn display_tests_level() {
    assert_eq!(Fontainebleau::new(1, None, false).expect("Good value").render(), "1");
}

#[test]
fn display_tests_level_plus() {
    assert_eq!(Fontainebleau::new(1, None, true).expect("Good value").render(), "1+");
}

#[test]
fn level_division() {
    assert_eq!(
        Fontainebleau::new(6, Some(Division::A), false)
            .expect("Good value")
            .render(),
        "6A"
    );
}

#[test]
fn level_division_plus() {
    assert_eq!(
        Fontainebleau::new(7, Some(Division::B), true)
            .expect("Good value")
            .render(),
        "7B+"
    );
}

#[test]
fn from_str_tests_invalid_str() {
    assert!(matches!(
        "".parse::<Fontainebleau>().unwrap_err(),
        FontainebleauParseError::InvalidStr
    ));
}

#[test]
fn from_str_tests_level_too_low_with_division() {
    assert!(matches!(
        "5B+".parse::<Fontainebleau>().unwrap_err(),
        FontainebleauParseError::BadGrade(FontainebleauError::LevelTooLowWithDivision)
    ));
}

#[test]
fn from_str_tests_level_too_high_without_division() {
    assert!(matches!(
        "6".parse::<Fontainebleau>().unwrap_err(),
        FontainebleauParseError::BadGrade(FontainebleauError::LevelTooHighWithoutDivision)
    ));
}

#[test]
fn full() {
    assert_eq!(
        "F8A+".parse::<Fontainebleau>().expect("Good value"),
        Fontainebleau::new(8, Some(Division::A), true).expect("Good value")
    )
}

#[test]
fn no_prefix_with_plus() {
    assert_eq!(
        "8A+".parse::<Fontainebleau>().expect("Good value"),
        Fontainebleau::new(8, Some(Division::A), true).expect("Good value")
    )
}

#[test]
fn no_prefix_without_plus() {
    assert_eq!(
        "8A".parse::<Fontainebleau>().expect("Good value"),
        Fontainebleau::new(8, Some(Division::A), false).expect("Good value")
    )
}

#[test]
fn prefix_without_plus() {
    assert_eq!(
        "F8A".parse::<Fontainebleau>().expect("Good value"),
        Fontainebleau::new(8, Some(Division::A), false).expect("Good value")
    )
}

#[test]
fn partial_ord_tests_level_difference() {
    assert!(
        Fontainebleau::new(1, None, false).expect("Good value")
            < Fontainebleau::new(2, None, false).expect("Good value")
    );
}

#[test]
fn plus_difference_without_division() {
    assert!(
        Fontainebleau::new(1, None, false).expect("Good value")
            < Fontainebleau::new(1, None, true).expect("Good value")
    );
}

#[test]
fn division_difference() {
    assert!(
        Fontainebleau::new(6, Some(Division::A), false).expect("Good value")
            < Fontainebleau::new(6, Some(Division::B), false).expect("Good value")
    );
}

#[test]
fn plus_different_with_division() {
    assert!(
        Fontainebleau::new(6, Some(Division::A), false).expect("Good value")
            < Fontainebleau::new(6, Some(Division::A), true).expect("Good value")
    );
}

#[test]
fn no_division_and_no_plus() {
    assert!(Fontainebleau::new(1, None, false).is_ok());
}

#[test]
fn no_division_and_plus() {
    assert!(Fontainebleau::new(5, None, true).is_ok());
}

#[test]
fn division_and_no_plus() {
    assert!(Fontainebleau::new(6, Some(Division::A), false).is_ok());
}

#[test]
fn division_and_plus() {
    assert!(Fontainebleau::new(7, Some(Division::B), true).is_ok());
}

#[test]
fn impl_tests_level_too_low_with_division() {
    assert!(matches!(
        Fontainebleau::new(5, Some(Division::A), false).unwrap_err(),
        FontainebleauError::LevelTooLowWithDivision
    ));
}

#[test]
fn impl_tests_level_too_high_without_division() {
    assert!(matches!(
        Fontainebleau::new(6, None, false).unwrap_err(),
        FontainebleauError::LevelTooHighWithoutDivision
    ));
}

#[test]
fn fontainebleau_from_string() {
    assert_eq!(
        "f7a".parse::<Fontainebleau>().unwrap(),
        Fontainebleau::new(7, Some(Division::A), false).unwrap()
    );
}

#[test]
fn fontainebleau_from_string_with_modifier() {
    assert_eq!(
        "f7a+".parse::<Fontainebleau>().unwrap(),
        Fontainebleau::new(7, Some(Division::A), true).unwrap()
    );
}

#[test]
fn from_string_upper() {
    assert_eq!(
        "F7a".parse::<Fontainebleau>().unwrap(),
        Fontainebleau::new(7, Some(Division::A), false).unwrap()
    );
}

#[test]
fn fontainebleau_from_string_no_prefix() {
    assert_eq!(
        "7a+".parse::<Fontainebleau>().unwrap(),
        Fontainebleau::new(7, Some(Division::A), true).unwrap()
    );
}

#[test]
fn fontainebleau_from_string_invalid() {
    let string = "V10";
    assert!(string.parse::<Fontainebleau>().is_err());
}
