use wilma_dumper::courses::{
    calculate_study_points, course_weights, extract_script_list, parse_course, parse_course_class,
    parse_int_list, parse_thousandths, ClassMarker, CourseData, Format,
};
use wilma_dumper::models::{Course, CourseGrade};

fn course(selected: bool, grade: Option<CourseGrade>, points: u32) -> Course {
    Course {
        code: "MAA1".to_string(),
        name: "Functions".to_string(),
        selected,
        selectable: true,
        optional: false,
        type_: "course".to_string(),
        grade,
        completed_at: None,
        study_weeks: points / 2,
        study_points: points,
    }
}

#[test]
fn format_names() {
    assert_eq!(Format::Json.to_name(), "json");
    assert_eq!(Format::Csv.to_name(), "csv");
}

#[test]
fn grade_names_round_trip() {
    let grades = [
        CourseGrade::Unfinished,
        CourseGrade::Four,
        CourseGrade::Five,
        CourseGrade::Six,
        CourseGrade::Seven,
        CourseGrade::Eight,
        CourseGrade::Nine,
        CourseGrade::Ten,
        CourseGrade::Pass,
    ];
    for g in grades {
        assert_eq!(CourseGrade::try_from_name(&g.to_name()), Some(g));
    }
    assert_eq!(CourseGrade::Ten.to_name(), "10");
    assert_eq!(CourseGrade::Pass.to_name(), "S");
    assert_eq!(CourseGrade::try_from_name(&"11".to_string()), None);
    assert_eq!(CourseGrade::try_from_name(&"".to_string()), None);
}

#[test]
fn eligibility_needs_a_real_grade() {
    assert!(!course(true, None, 2000).eligible_for_points());
    assert!(!course(true, Some(CourseGrade::Unfinished), 2000).eligible_for_points());
    assert!(course(true, Some(CourseGrade::Four), 2000).eligible_for_points());
    assert!(course(false, Some(CourseGrade::Pass), 2000).eligible_for_points());
}

#[test]
fn study_points_sum_exactly() {
    let courses = vec![
        course(true, Some(CourseGrade::Ten), 2000),
        course(true, None, 1500),
        course(false, Some(CourseGrade::Pass), 1000),
        course(false, Some(CourseGrade::Unfinished), 500),
    ];
    // Selected: 2000 + 1500; earned: 2000 + 1000 - all in thousandths.
    assert_eq!(calculate_study_points(&courses), (3500, 3000));
    assert_eq!(calculate_study_points(&vec![]), (0, 0));
}

#[test]
fn class_attribute_reads() {
    assert_eq!(parse_course_class("c-type3-sel"), Some((3, ClassMarker::Sel)));
    assert_eq!(parse_course_class("c-type12-graded"), Some((12, ClassMarker::Graded)));
    assert_eq!(parse_course_class("c-type5"), Some((5, ClassMarker::Plain)));
    assert_eq!(parse_course_class("foo c-type7-sel bar"), Some((7, ClassMarker::Sel)));
    assert_eq!(parse_course_class("c-typex c-type9"), Some((9, ClassMarker::Plain)));
    assert_eq!(parse_course_class("c-type8-"), Some((8, ClassMarker::Plain)));
    assert_eq!(parse_course_class("nothing here"), None);
    assert_eq!(parse_course_class(""), None);
    // Digits past the numeric range read as no class at all.
    assert_eq!(parse_course_class("c-type99999999999"), None);
}

#[test]
fn thousandths_reads_short_decimals() {
    assert_eq!(parse_thousandths("1.5"), Some(1500));
    assert_eq!(parse_thousandths("2"), Some(2000));
    assert_eq!(parse_thousandths("0.25"), Some(250));
    assert_eq!(parse_thousandths(".5"), Some(500));
    assert_eq!(parse_thousandths("1."), Some(1000));
    assert_eq!(parse_thousandths("10.125"), Some(10125));
    assert_eq!(parse_thousandths("."), None);
    assert_eq!(parse_thousandths(""), None);
    assert_eq!(parse_thousandths("1.2345"), None);
    assert_eq!(parse_thousandths("1,5"), None);
    assert_eq!(parse_thousandths("-1"), None);
}

#[test]
fn weights_prefer_ov_and_double_it() {
    let ov = Some("1.5ov".to_string());
    let op = Some("99op".to_string());
    assert_eq!(course_weights(&ov, &op), Some((1500, 3000)));
}

#[test]
fn weights_halve_op_when_ov_is_missing() {
    assert_eq!(course_weights(&None, &Some("3op".to_string())), Some((1500, 3000)));
    assert_eq!(course_weights(&Some("junk".to_string()), &Some("1op".to_string())), Some((500, 1000)));
    assert_eq!(course_weights(&None, &None), None);
    assert_eq!(course_weights(&Some("1.5op".to_string()), &None), None);
}

#[test]
fn weights_always_keep_points_at_twice_weeks() {
    // An odd thousandth of a point has no exact half: unusable, so the
    // relation never bends.
    assert_eq!(course_weights(&None, &Some("0.001op".to_string())), None);
    for (ov, op) in [
        (Some("1.5ov".to_string()), None),
        (None, Some("2.5op".to_string())),
        (None, Some("0.25op".to_string())),
    ] {
        let (weeks, points) = course_weights(&ov, &op).unwrap();
        assert_eq!(points, 2 * weeks);
    }
}

#[test]
fn script_list_extraction() {
    let html = "var x = 1; choicesCompulsoryTypes = [1,2,3]; var y = 2; \
        choicesSelectableTypes = [4]; done";
    assert_eq!(
        extract_script_list(html, "choicesCompulsoryTypes = "),
        Some("[1,2,3]".to_string())
    );
    assert_eq!(
        extract_script_list(html, "choicesSelectableTypes = "),
        Some("[4]".to_string())
    );
    assert_eq!(extract_script_list(html, "choicesMissing = "), None);
    assert_eq!(extract_script_list("choicesCompulsoryTypes = [1,2", "choicesCompulsoryTypes = "), None);
}

#[test]
fn int_list_reads() {
    assert_eq!(parse_int_list("[1,2,3]"), Some(vec![1, 2, 3]));
    assert_eq!(parse_int_list("[ 1 , 2 ]"), Some(vec![1, 2]));
    assert_eq!(parse_int_list("[]"), Some(vec![]));
    assert_eq!(parse_int_list("[ ]"), Some(vec![]));
    assert_eq!(parse_int_list("[-5,0]"), Some(vec![-5, 0]));
    assert_eq!(parse_int_list("[1,]"), None);
    assert_eq!(parse_int_list("[a]"), None);
    assert_eq!(parse_int_list("1,2"), None);
    assert_eq!(parse_int_list("[1 2]"), None);
}

fn data(ov: Option<&str>, op: Option<&str>) -> CourseData {
    CourseData {
        code: "MAA2".to_string(),
        name: "Geometry".to_string(),
        type_: "lukiokurssi".to_string(),
        ov: ov.map(|s| s.to_string()),
        op: op.map(|s| s.to_string()),
        completed_at: Some("2023-05-30".to_string()),
    }
}

#[test]
fn parse_course_reads_a_graded_course() {
    let compulsory = vec![3, 4];
    let selectable = vec![3];
    let c = parse_course(
        data(Some("1ov"), None),
        "c-type3-graded",
        &Some("9".to_string()),
        true,
        &compulsory,
        &selectable,
    )
    .unwrap();
    assert_eq!(c.code, "MAA2");
    assert_eq!(c.name, "Geometry");
    assert!(c.selected);
    assert!(c.selectable);
    assert!(!c.optional);
    assert_eq!(c.grade, Some(CourseGrade::Nine));
    assert_eq!(c.completed_at, Some("2023-05-30".to_string()));
    assert_eq!(c.study_weeks, 1000);
    assert_eq!(c.study_points, 2000);
}

#[test]
fn parse_course_keeps_no_grade_on_ungraded_courses() {
    let c = parse_course(
        data(None, Some("4op")),
        "c-type9-sel",
        &Some("8".to_string()),
        true,
        &vec![],
        &vec![9],
    )
    .unwrap();
    assert_eq!(c.grade, None);
    assert!(c.selected);
    assert!(c.selectable);
    assert!(c.optional);
    assert_eq!(c.study_weeks, 2000);
    assert_eq!(c.study_points, 4000);
}

#[test]
fn parse_course_refuses_incomplete_entries() {
    let compulsory = vec![];
    let selectable = vec![];
    // Not a bottom-level link.
    assert!(parse_course(data(Some("1ov"), None), "c-type3", &Some("9".to_string()), false, &compulsory, &selectable).is_none());
    // No grade cell beside the link.
    assert!(parse_course(data(Some("1ov"), None), "c-type3", &None, true, &compulsory, &selectable).is_none());
    // No course-class entry in the class attribute.
    assert!(parse_course(data(Some("1ov"), None), "other", &Some("9".to_string()), true, &compulsory, &selectable).is_none());
    // No usable weight.
    assert!(parse_course(data(None, None), "c-type3", &Some("9".to_string()), true, &compulsory, &selectable).is_none());
}
