use std::str::FromStr;

use climbing_grades::boulder::Grade;
use climbing_grades::boulder::Value;
use climbing_grades::grades::GradeTrait;

#[test]
fn boulder_to_string() {
    let grade = Grade { value: Value::One };
    assert_eq!(grade.render(), "B1");
}

#[test]
fn boulder_from_string() {
    assert_eq!(Grade::from_str("B1").unwrap(), Grade { value: Value::One });
}

#[test]
fn boulder_from_string_lower() {
    assert_eq!(Grade::from_str("b1").unwrap(), Grade { value: Value::One });
}

#[test]
fn boulder_from_string_no_prefix() {
    assert_eq!(Grade::from_str("2").unwrap(), Grade { value: Value::Two });
}

#[test]
fn boulder_from_string_invalid() {
    let string = "B4";
    assert!(Grade::from_str(string).is_err());
}
