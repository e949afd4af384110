use std::cmp::Ordering;

use climbing_grades::fontainebleau::Division;
use climbing_grades::fontainebleau::Fontainebleau;
use climbing_grades::fontainebleau::FontainebleauParseError;
use climbing_grades::grades::GradeTrait;
use climbing_grades::hueco::Hueco;
use climbing_grades::hueco::HuecoParseError;
use climbing_grades::hueco::Modifier;
use climbing_grades::slash::SlashGrade;

#[test]
fn hueco_round_trip_concrete() {
    let grade = Hueco::new(10, Some(Modifier::Plus));
    assert_eq!(grade.render(), "V10+");
    assert_eq!(grade.render().parse::<Hueco>().unwrap(), grade);
}

#[test]
fn fontainebleau_round_trip_concrete() {
    let grade = Fontainebleau::new(7, Some(Division::B), true).unwrap();
    assert_eq!(grade.render(), "7B+");
    assert_eq!(grade.render().parse::<Fontainebleau>().unwrap(), grade);
}

#[test]
fn fontainebleau_round_trip_low_level() {
    let grade = Fontainebleau::new(4, None, true).unwrap();
    assert_eq!(grade.render(), "4+");
    assert_eq!(grade.render().parse::<Fontainebleau>().unwrap(), grade);
}

#[test]
fn hueco_parse_case_insensitive() {
    assert_eq!("v5".parse::<Hueco>().unwrap(), "V5".parse::<Hueco>().unwrap());
}

#[test]
fn fontainebleau_parse_case_insensitive() {
    assert_eq!(
        "f6a".parse::<Fontainebleau>().unwrap(),
        "6A".parse::<Fontainebleau>().unwrap()
    );
}

#[test]
fn hueco_equal_grades_incomparable() {
    let a = Hueco::new(1, Some(Modifier::Plus));
    let b = Hueco::new(1, Some(Modifier::Plus));
    assert_eq!(a, b);
    assert_eq!(a.partial_cmp(&b), None);
}

#[test]
fn hueco_equal_bare_grades_incomparable() {
    let a = Hueco::new(3, None);
    let b = Hueco::new(3, None);
    assert_eq!(a.partial_cmp(&b), None);
}

#[test]
fn hueco_level_beats_modifier() {
    assert!(Hueco::new(2, Some(Modifier::Minus)) > Hueco::new(1, Some(Modifier::Plus)));
}

#[test]
fn fontainebleau_equal_grades_equal() {
    let a = Fontainebleau::new(6, Some(Division::A), false).unwrap();
    let b = Fontainebleau::new(6, Some(Division::A), false).unwrap();
    assert_eq!(a.partial_cmp(&b), Some(Ordering::Equal));
}

#[test]
fn fontainebleau_slash_range() {
    let grade = SlashGrade {
        lower: Fontainebleau::new(6, Some(Division::A), false).unwrap(),
        upper: Fontainebleau::new(6, Some(Division::A), true).unwrap(),
    };
    assert_eq!(grade.render(), "6A/+");
}

#[test]
fn hueco_parse_without_digits_fails() {
    assert!(matches!(
        "abc".parse::<Hueco>().unwrap_err(),
        HuecoParseError::InvalidStr
    ));
    assert!(matches!(
        "v+".parse::<Hueco>().unwrap_err(),
        HuecoParseError::InvalidStr
    ));
}

#[test]
fn fontainebleau_parse_without_digits_fails() {
    assert!(matches!(
        "abc".parse::<Fontainebleau>().unwrap_err(),
        FontainebleauParseError::InvalidStr
    ));
    assert!(matches!(
        "fa+".parse::<Fontainebleau>().unwrap_err(),
        FontainebleauParseError::InvalidStr
    ));
}

#[test]
fn hueco_parse_level_bounds() {
    assert_eq!("V255".parse::<Hueco>().unwrap(), Hueco::new(255, None));
    assert!(matches!(
        "V256".parse::<Hueco>().unwrap_err(),
        HuecoParseError::InvalidStr
    ));
}

#[test]
fn hueco_parse_leading_zeros() {
    assert_eq!("00000005".parse::<Hueco>().unwrap(), Hueco::new(5, None));
}

#[test]
fn hueco_parse_trailing_junk_fails() {
    assert!("V1x".parse::<Hueco>().is_err());
    assert!("V1+2".parse::<Hueco>().is_err());
}

#[test]
fn fontainebleau_parse_trailing_junk_fails() {
    assert!("6a+x".parse::<Fontainebleau>().is_err());
    assert!("6ab".parse::<Fontainebleau>().is_err());
}
