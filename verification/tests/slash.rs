use climbing_grades::boulder;
use climbing_grades::grades::GradeTrait;
use climbing_grades::hueco::Hueco;
use climbing_grades::slash::SlashGrade;

#[test]
fn slash_v_grade() {
    let grade = SlashGrade {
        upper: Hueco::new(5, None),
        lower: Hueco::new(4, None),
    };
    assert_eq!(grade.render(), "V4/5");
}

#[test]
fn slash_v_grade_double_digits() {
    let grade = SlashGrade {
        upper: Hueco::new(11, None),
        lower: Hueco::new(10, None),
    };
    assert_eq!(grade.render(), "V10/11");
}

#[test]
fn slash_b_grade() {
    let grade = SlashGrade {
        upper: boulder::Grade { value: boulder::Value::Two },
        lower: boulder::Grade { value: boulder::Value::One },
    };
    assert_eq!(grade.render(), "B1/2");
}

#[test]
fn lib_slash_v_grade() {
    let grade = SlashGrade {
        upper: Hueco::new(5, None),
        lower: Hueco::new(4, None),
    };
    assert_eq!(grade.render(), "V4/5");
}

#[test]
fn lib_slash_b_grade() {
    let grade = SlashGrade {
        upper: boulder::Grade { value: boulder::Value::Two },
        lower: boulder::Grade { value: boulder::Value::One },
    };
    assert_eq!(grade.render(), "B1/2");
}
