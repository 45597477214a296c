use lms_watcher::compare::{compare_courses, compare_deadlines, compare_grades, compare_grades_overview};
use lms_watcher::models::{Course, Deadline, Grade, GradeOverview};
use lms_watcher::normalize::{sort_deadlines, sort_grades_overview, str_le, name_precedes};
use lms_watcher::compare::delete_past_courses;

fn course(id: u64, name: &str, enddate: u64) -> Course {
    Course { id, fullname: name.to_string(), enddate }
}

fn grade(courseid: u64, item: &str, pct: &str) -> Grade {
    Grade { courseid, coursename: None, itemname: item.to_string(), percentageformatted: pct.to_string() }
}

fn deadline(id: u64, courseid: u64, name: &str, due: u64) -> Deadline {
    Deadline { id, courseid, coursename: None, name: name.to_string(), timestart: due }
}

fn row(courseid: u64, name: Option<&str>, grade: &str) -> GradeOverview {
    GradeOverview { courseid, course_name: name.map(|n| n.to_string()), grade: grade.to_string() }
}

#[test]
fn new_courses_are_those_with_unstored_ids() {
    let external = vec![course(1, "Algebra", 0), course(2, "Biology", 0), course(3, "Chemistry", 0)];
    let stored = vec![course(2, "Biology (old name)", 0)];
    let fresh = compare_courses(&external, &stored);
    let ids: Vec<u64> = fresh.iter().map(|c| c.id).collect();
    assert_eq!(ids, vec![1, 3]);
}

#[test]
fn no_new_courses_against_same_list() {
    let external = vec![course(1, "Algebra", 0), course(2, "Biology", 0)];
    assert!(compare_courses(&external, &external).is_empty());
}

#[test]
fn every_course_is_new_against_empty_store() {
    let external = vec![course(4, "Drawing", 0)];
    assert_eq!(compare_courses(&external, &vec![]), external);
}

#[test]
fn grade_with_new_percentage_is_reported_with_old_one() {
    let external = vec![grade(1, "Quiz 1", "75%"), grade(1, "Quiz 2", "90%")];
    let stored = vec![grade(1, "Quiz 1", "50%"), grade(1, "Quiz 2", "90%")];
    let changes = compare_grades(&external, &stored);
    assert_eq!(changes.len(), 1);
    assert_eq!(changes[0].current.itemname, "Quiz 1");
    assert_eq!(changes[0].previous, Some("50%".to_string()));
}

#[test]
fn grade_without_stored_item_is_new() {
    let external = vec![grade(1, "Exam", "80%")];
    let stored = vec![grade(2, "Exam", "80%")];
    let changes = compare_grades(&external, &stored);
    assert_eq!(changes.len(), 1);
    assert_eq!(changes[0].previous, None);
}

#[test]
fn unchanged_grade_is_not_reported() {
    let external = vec![grade(1, "Exam", "80%")];
    assert!(compare_grades(&external, &external.clone()).is_empty());
}

#[test]
fn overview_row_with_changed_grade_is_reported() {
    let external = vec![row(1, Some("Algebra"), "85"), row(2, Some("Biology"), "70")];
    let stored = vec![row(2, Some("Biology"), "70"), row(1, Some("Algebra"), "80")];
    let changed = compare_grades_overview(&external, &stored);
    assert_eq!(changed, vec![row(1, Some("Algebra"), "85")]);
}

#[test]
fn deadlines_already_stored_are_not_new() {
    let external = vec![deadline(1, 1, "Essay", 100), deadline(2, 1, "Lab", 200)];
    let stored = vec![deadline(1, 1, "Essay", 100)];
    assert_eq!(compare_deadlines(&external, &stored), vec![deadline(2, 1, "Lab", 200)]);
}

#[test]
fn deadline_diff_ignores_input_order() {
    let e1 = vec![deadline(3, 1, "C", 300), deadline(1, 1, "A", 100), deadline(2, 1, "B", 200)];
    let e2 = vec![deadline(2, 1, "B", 200), deadline(3, 1, "C", 300), deadline(1, 1, "A", 100)];
    let s1 = vec![deadline(2, 1, "B", 200), deadline(9, 2, "Z", 50)];
    let s2 = vec![deadline(9, 2, "Z", 50), deadline(2, 1, "B", 200)];
    let mut sorted_a = e1.clone();
    let mut sorted_b = e2.clone();
    sort_deadlines(&mut sorted_a);
    sort_deadlines(&mut sorted_b);
    assert_eq!(compare_deadlines(&sorted_a, &s1), compare_deadlines(&sorted_b, &s2));
    assert_eq!(compare_deadlines(&sorted_a, &s1), vec![deadline(1, 1, "A", 100), deadline(3, 1, "C", 300)]);
}

#[test]
fn overview_diff_ignores_input_order() {
    let mut e1 = vec![row(2, Some("Biology"), "70"), row(1, Some("Algebra"), "85")];
    let mut e2 = vec![row(1, Some("Algebra"), "85"), row(2, Some("Biology"), "70")];
    sort_grades_overview(&mut e1);
    sort_grades_overview(&mut e2);
    let s1 = vec![row(2, Some("Biology"), "70")];
    assert_eq!(compare_grades_overview(&e1, &s1), compare_grades_overview(&e2, &s1));
}

#[test]
fn deadlines_sort_by_due_time() {
    let mut ds = vec![deadline(1, 1, "A", 300), deadline(2, 1, "B", 100), deadline(3, 1, "C", 200)];
    sort_deadlines(&mut ds);
    let due: Vec<u64> = ds.iter().map(|d| d.timestart).collect();
    assert_eq!(due, vec![100, 200, 300]);
}

#[test]
fn overview_sorts_by_course_name_missing_first() {
    let mut rows = vec![row(1, Some("Zoology"), "1"), row(2, None, "2"), row(3, Some("Algebra"), "3"), row(4, Some("Alg"), "4")];
    sort_grades_overview(&mut rows);
    let ids: Vec<u64> = rows.iter().map(|r| r.courseid).collect();
    assert_eq!(ids, vec![2, 4, 3, 1]);
}

#[test]
fn name_order_is_lexicographic() {
    assert!(str_le(&"abc".to_string(), &"abd".to_string()));
    assert!(!str_le(&"abd".to_string(), &"abc".to_string()));
    assert!(str_le(&"ab".to_string(), &"abc".to_string()));
    assert!(str_le(&"".to_string(), &"".to_string()));
    assert!(name_precedes(&None, &Some("a".to_string())));
    assert!(!name_precedes(&Some("a".to_string()), &None));
}

#[test]
fn past_courses_are_removed() {
    let mut cs = vec![course(1, "Old", 50), course(2, "Open", 0), course(3, "Current", 500)];
    delete_past_courses(&mut cs, 100);
    let ids: Vec<u64> = cs.iter().map(|c| c.id).collect();
    assert_eq!(ids, vec![2, 3]);
}
