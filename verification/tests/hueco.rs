use climbing_grades::grades::GradeTrait;
use climbing_grades::hueco::Hueco;
use climbing_grades::hueco::HuecoParseError;
use climbing_grades::hueco::Modifier;

#[test]
fn level() {
    assert_eq!(Hueco::new(1, None).render(), "V1");
}

#[test]
fn level_plus() {
    assert_eq!(Hueco::new(1, Some(Modifier::Plus)).render(), "V1+");
}

#[test]
fn level_minus() {
    assert_eq!(Hueco::new(1, Some(Modifier::Minus)).render(), "V1-");
}

#[test]
fn invalid_str() {
    assert!(matches!(
        "".parse::<Hueco>().unwrap_err(),
        HuecoParseError::InvalidStr
    ));
}

#[test]
fn no_modifier() {
    assert_eq!("V1".parse::<Hueco>().expect("Good value"), Hueco::new(1, None))
}

#[test]
fn plus_modifier() {
    assert_eq!(
        "V1+".parse::<Hueco>().expect("Good value"),
        Hueco::new(1, Some(Modifier::Plus))
    );
}

#[test]
fn minus_modifier() {
    assert_eq!(
        "V1-".parse::<Hueco>().expect("Good value"),
        Hueco::new(1, Some(Modifier::Minus))
    );
}

#[test]
fn level_difference() {
    assert!(Hueco::new(1, None) < Hueco::new(2, None));
}

#[test]
fn minus_less_than_none() {
    assert!(Hueco::new(1, Some(Modifier::Minus)) < Hueco::new(1, None));
}

#[test]
fn minus_less_than_plus() {
    assert!(Hueco::new(1, Some(Modifier::Minus)) < Hueco::new(1, Some(Modifier::Plus)));
}

#[test]
fn none_less_than_plus() {
    assert!(Hueco::new(1, None) < Hueco::new(1, Some(Modifier::Plus)));
}

#[test]
fn vermin_to_string() {
    let grade = Hueco::new(5, None);
    assert_eq!(grade.render(), "V5");
}

#[test]
fn vermin_to_string_with_modifier() {
    let grade = Hueco::new(5, Some(Modifier::Plus));
    assert_eq!(grade.render(), "V5+");
}

#[test]
fn vermin_from_string() {
    assert_eq!("V5".parse::<Hueco>().unwrap(), Hueco::new(5, None));
}

#[test]
fn vermin_from_string_with_modifier() {
    assert_eq!("V5+".parse::<Hueco>().unwrap(), Hueco::new(5, Some(Modifier::Plus)));
}

#[test]
fn vermin_from_string_lower() {
    assert_eq!("v1".parse::<Hueco>().unwrap(), Hueco::new(1, None));
}

#[test]
fn vermin_from_string_no_prefix() {
    assert_eq!("2".parse::<Hueco>().unwrap(), Hueco::new(2, None));
}

#[test]
fn vermin_from_string_invalid() {
    let string = "B1";
    assert!(string.parse::<Hueco>().is_err());
}
