use icalnigma::resources::{
    classify, classify_resources, is_course_code, list_names, list_resources, strings_of,
};
use icalnigma::text::chars_of;

#[test]
fn a_course_and_a_room() {
    let (courses, locations) = classify_resources("INF-23A, Hörsaal 1");
    assert_eq!(courses, vec!["INF-23A"]);
    assert_eq!(locations, vec!["Hörsaal 1"]);
}

#[test]
fn course_codes() {
    for code in ["INF-23A", "ABC-1", "ABC- ", "WWI-2021 A B", "XYZ-Z"] {
        assert!(is_course_code(&chars_of(code)));
    }
    for other in ["", "INF", "INF-", "IN-23A", "inf-23A", "INF-23a", "INFO-23A", "INF_23A",
        "INF-23A!", "INF-23Ä", " INF-23A", "INF-23A\n", "ÄBC-1", "1NF-23A", "INF-2-3"] {
        assert!(!is_course_code(&chars_of(other)));
    }
}

#[test]
fn every_name_is_a_course_or_a_location() {
    let text = " TINF-20B , A123,,MED-1 2,Audimax , inf-1,ABC-";
    let names = strings_of(&list_resources(text));
    assert_eq!(names, vec!["TINF-20B", "A123", "", "MED-1 2", "Audimax", "inf-1", "ABC-"]);
    let (courses, locations) = classify_resources(text);
    assert_eq!(courses, vec!["MED-1 2"]);
    assert_eq!(locations, vec!["TINF-20B", "A123", "", "Audimax", "inf-1", "ABC-"]);
    assert_eq!(courses.len() + locations.len(), names.len());
    for name in &names {
        let in_courses = courses.iter().filter(|c| *c == name).count();
        let in_locations = locations.iter().filter(|l| *l == name).count();
        assert_eq!(in_courses + in_locations, names.iter().filter(|n| *n == name).count());
        assert!(in_courses == 0 || in_locations == 0);
    }
}

#[test]
fn an_empty_list_is_one_empty_location() {
    let (courses, locations) = classify_resources("");
    assert_eq!(courses, Vec::<String>::new());
    assert_eq!(locations, vec![""]);
}

#[test]
fn order_is_kept_and_doubles_stay() {
    let (courses, locations) = classify_resources("B, INF-2, A, INF-1, B, INF-2");
    assert_eq!(courses, vec!["INF-2", "INF-1", "INF-2"]);
    assert_eq!(locations, vec!["B", "A", "B"]);
}

#[test]
fn names_are_trimmed_of_all_white_space() {
    let names = list_names(&chars_of("\u{a0}INF-23A\t,\n Raum 1 "));
    assert_eq!(strings_of(&names), vec!["INF-23A", "Raum 1"]);
    let (courses, locations) = classify(&names);
    assert_eq!(courses, vec!["INF-23A"]);
    assert_eq!(locations, vec!["Raum 1"]);
}
