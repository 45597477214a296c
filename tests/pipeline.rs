use lms_watcher::batcher::{next_batch, TokenRecord};
use lms_watcher::compare::delete_past_courses;
use lms_watcher::models::{Course, Deadline, Grade, GradeOverview, Notification, Token, User};
use lms_watcher::normalize::{prepare_grades_overview, sort_deadlines, tag_deadlines, tag_grades};
use lms_watcher::pipeline::{
    grade_notifications, grades_need_resync, item_count_mismatch, next_stage, plan_course_deadlines, plan_course_grades,
    plan_courses, plan_grade_overview, plan_user, Stage,
};
use lms_watcher::services::{DataService, GradeService, ProducerService};

fn user() -> User {
    User { userid: 7, username: "t1user".to_string(), fullname: "Test Person".to_string() }
}

fn grade(courseid: u64, item: &str, pct: &str) -> Grade {
    Grade { courseid, coursename: None, itemname: item.to_string(), percentageformatted: pct.to_string() }
}

struct Snapshot {
    courses: Vec<Course>,
    grades: Vec<Grade>,
    overview: Vec<GradeOverview>,
    deadlines: Vec<Deadline>,
}

struct PassResult {
    notifications: Vec<Notification>,
    writes: usize,
}

fn external_courses() -> Vec<Course> {
    vec![Course { id: 1, fullname: "Algebra".to_string(), enddate: 0 }]
}

fn external_grades(_course: &Course) -> Vec<Grade> {
    vec![grade(1, "Quiz", "80%"), grade(1, "Exam", "90%")]
}

fn external_overview() -> Vec<GradeOverview> {
    vec![GradeOverview { courseid: 1, course_name: None, grade: "85".to_string() }]
}

fn external_deadlines(_course: &Course) -> Vec<Deadline> {
    vec![Deadline { id: 11, courseid: 1, coursename: None, name: "Homework".to_string(), timestart: 1000 }]
}

/// One pass over the account, in the order the poller runs it, with the
/// fetches answered from fixed data and the writes applied to `stored`.
fn run_pass(device: &str, stored: &mut Snapshot) -> PassResult {
    let dt = device.to_string();
    let mut out = Vec::new();
    let mut writes = 0;
    let u = user();
    let user_plan = plan_user(&dt, &u, &user());
    out.extend(user_plan.notifications);

    let ext_courses = external_courses();
    let course_plan = plan_courses(&dt, &ext_courses, &stored.courses);
    out.extend(course_plan.notifications);
    if course_plan.persist {
        stored.courses = ext_courses.clone();
        writes += 1;
    }

    let fetch_all_grades = |courses: &Vec<Course>| {
        let mut all = Vec::new();
        for c in courses {
            let mut g = external_grades(c);
            tag_grades(&mut g, c);
            all.extend(g);
        }
        all
    };
    let baseline = stored.grades.clone();
    if grades_need_resync(&ext_courses, &baseline) {
        stored.grades = fetch_all_grades(&ext_courses);
        writes += 1;
    }
    let mut any_grade = false;
    for c in &ext_courses {
        let step = plan_course_grades(&dt, c, external_grades(c), &baseline);
        if step.resync {
            stored.grades = fetch_all_grades(&ext_courses);
            writes += 1;
        }
        any_grade = any_grade || !step.notifications.is_empty();
        out.extend(step.notifications);
    }
    if any_grade {
        stored.grades = fetch_all_grades(&ext_courses);
        writes += 1;
    }

    let mut ov = external_overview();
    prepare_grades_overview(&mut ov, &ext_courses);
    let ov_plan = plan_grade_overview(&dt, &ov, stored.overview.clone());
    out.extend(ov_plan.notifications);
    if ov_plan.persist {
        stored.overview = ov.clone();
        writes += 1;
    }

    let mut live = ext_courses.clone();
    delete_past_courses(&mut live, 500);
    let mut any_deadline = false;
    for c in &live {
        let ext = external_deadlines(c);
        if ext.is_empty() {
            continue;
        }
        let step = plan_course_deadlines(&dt, c, ext, &stored.deadlines);
        any_deadline = any_deadline || !step.notifications.is_empty();
        out.extend(step.notifications);
    }
    if any_deadline {
        let mut all = Vec::new();
        for c in &live {
            let mut d = external_deadlines(c);
            tag_deadlines(&mut d, c);
            all.extend(d);
        }
        sort_deadlines(&mut all);
        stored.deadlines = all;
        writes += 1;
    }
    PassResult { notifications: out, writes }
}

#[test]
fn first_pass_reports_everything_and_second_is_quiet() {
    let mut stored = Snapshot { courses: vec![], grades: vec![], overview: vec![], deadlines: vec![] };
    let first = run_pass("D1", &mut stored);
    assert_eq!(first.notifications.len(), 5);
    assert!(first.notifications.iter().all(|n| n.device_token == "D1"));
    assert_eq!(first.notifications[0].title, "Algebra");
    assert_eq!(first.notifications[0].body, "New course");
    assert_eq!(first.notifications[1].body, "New grade | Quiz\n- -> 80%");
    assert_eq!(first.notifications[2].body, "New grade | Exam\n- -> 90%");
    assert_eq!(first.notifications[3].title, "Algebra");
    assert_eq!(first.notifications[3].body, "New course total grade | 85");
    assert_eq!(first.notifications[4].title, "New deadline");
    assert_eq!(first.notifications[4].body, "Algebra: Homework");
    assert_eq!(stored.courses.len(), 1);
    assert_eq!(stored.grades.len(), 2);
    assert_eq!(stored.overview.len(), 1);
    assert_eq!(stored.deadlines.len(), 1);

    let second = run_pass("D1", &mut stored);
    assert_eq!(second.notifications.len(), 0);
    assert_eq!(second.writes, 0);
}

#[test]
fn changed_percentage_gives_one_grade_notification() {
    let course = Course { id: 1, fullname: "Algebra".to_string(), enddate: 0 };
    let stored = vec![grade(1, "Quiz", "50%")];
    let mut external = vec![grade(1, "Quiz", "75%")];
    tag_grades(&mut external, &course);
    let notes = grade_notifications(&"D1".to_string(), &course, &external, &stored);
    assert_eq!(notes.len(), 1);
    assert!(notes[0].body.contains("50%"));
    assert!(notes[0].body.contains("75%"));
    assert_eq!(notes[0].body, "New grade | Quiz\n50% -> 75%");
    assert_eq!(notes[0].title, "Algebra");
}

#[test]
fn changed_profile_is_reported_once() {
    let old = user();
    let mut new = user();
    new.fullname = "Renamed Person".to_string();
    let plan = plan_user(&"D1".to_string(), &new, &old);
    assert!(plan.persist);
    assert_eq!(plan.notifications.len(), 1);
    assert_eq!(plan.notifications[0].title, "New user info");
    assert_eq!(plan.notifications[0].body, "Renamed Person (t1user)");
    let same = plan_user(&"D1".to_string(), &old, &user());
    assert!(!same.persist);
    assert!(same.notifications.is_empty());
}

#[test]
fn missing_course_in_stored_grades_forces_resync() {
    let courses = vec![Course { id: 1, fullname: "A".to_string(), enddate: 0 }, Course { id: 2, fullname: "B".to_string(), enddate: 0 }];
    let stored = vec![grade(1, "Quiz", "50%")];
    assert!(grades_need_resync(&courses, &stored));
    assert!(!grades_need_resync(&courses[..1].to_vec(), &stored));
}

#[test]
fn item_count_difference_is_detected() {
    let external = vec![grade(1, "Quiz", "50%"), grade(1, "Exam", "60%")];
    let stored = vec![grade(1, "Quiz", "50%")];
    assert!(item_count_mismatch(&external, &stored));
    assert!(!item_count_mismatch(&external, &external.clone()));
    assert!(!item_count_mismatch(&vec![], &stored));
}

#[test]
fn overview_without_course_name_is_titled_dash() {
    let ext = vec![GradeOverview { courseid: 5, course_name: None, grade: "40".to_string() }];
    let plan = plan_grade_overview(&"D".to_string(), &ext, vec![]);
    assert_eq!(plan.notifications[0].title, "-");
    assert!(plan.persist);
}

#[test]
fn course_deadlines_are_tagged_and_sorted() {
    let course = Course { id: 3, fullname: "Chem".to_string(), enddate: 0 };
    let ext = vec![
        Deadline { id: 1, courseid: 3, coursename: None, name: "Late".to_string(), timestart: 900 },
        Deadline { id: 2, courseid: 3, coursename: None, name: "Early".to_string(), timestart: 100 },
    ];
    let stored = vec![Deadline { id: 1, courseid: 3, coursename: Some("Chem".to_string()), name: "Late".to_string(), timestart: 900 }];
    let step = plan_course_deadlines(&"D".to_string(), &course, ext, &stored);
    assert_eq!(step.prepared[0].name, "Early");
    assert_eq!(step.prepared[1].coursename, Some("Chem".to_string()));
    assert_eq!(step.notifications.len(), 1);
    assert_eq!(step.notifications[0].body, "Chem: Early");
}

fn registry(n: usize) -> Vec<TokenRecord> {
    (0..n)
        .map(|i| TokenRecord { id: Some(format!("T{}", i)), device_token: if i % 2 == 0 { Some(format!("D{}", i)) } else { None } })
        .collect()
}

fn page(reg: &[TokenRecord], limit: usize, offset: u64) -> Vec<TokenRecord> {
    let start = (offset as usize).min(reg.len());
    let end = (start + limit).min(reg.len());
    reg[start..end].to_vec()
}

#[test]
fn paging_wraps_around_after_empty_page() {
    let reg = registry(5);
    let mut skip: u64 = 0;
    let first = next_batch(&page(&reg, 2, skip), &mut skip);
    assert_eq!(first.iter().map(|t| t.token.clone()).collect::<Vec<_>>(), vec!["T0", "T1"]);
    assert_eq!(first[0].device_token, Some("D0".to_string()));
    assert_eq!(first[1].device_token, None);
    assert_eq!(skip, 2);
    next_batch(&page(&reg, 2, skip), &mut skip);
    assert_eq!(skip, 4);
    let third = next_batch(&page(&reg, 2, skip), &mut skip);
    assert_eq!(third.len(), 1);
    assert_eq!(skip, 5);
    let empty = next_batch(&page(&reg, 2, skip), &mut skip);
    assert!(empty.is_empty());
    assert_eq!(skip, 0);
    let again = next_batch(&page(&reg, 2, skip), &mut skip);
    assert_eq!(again, first);
}

#[test]
fn documents_without_token_are_skipped() {
    let docs = vec![TokenRecord { id: None, device_token: Some("X".to_string()) }, TokenRecord { id: Some("T".to_string()), device_token: None }];
    let mut skip: u64 = 10;
    let batch = next_batch(&docs, &mut skip);
    assert_eq!(batch, vec![Token::new("T".to_string(), None)]);
    assert_eq!(skip, 11);
}

#[test]
fn failed_user_or_course_step_ends_the_account() {
    assert_eq!(next_stage(Stage::User, false), Stage::Done);
    assert_eq!(next_stage(Stage::User, true), Stage::Courses);
    assert_eq!(next_stage(Stage::Courses, false), Stage::Done);
    assert_eq!(next_stage(Stage::Courses, true), Stage::Grades);
    assert_eq!(next_stage(Stage::Grades, false), Stage::GradeOverview);
    assert_eq!(next_stage(Stage::GradeOverview, false), Stage::Deadlines);
    assert_eq!(next_stage(Stage::Deadlines, true), Stage::Done);
}

#[test]
fn overview_is_annotated_with_course_names() {
    let courses = vec![Course { id: 1, fullname: "Zed".to_string(), enddate: 0 }, Course { id: 2, fullname: "Abe".to_string(), enddate: 0 }];
    let mut rows = vec![
        GradeOverview { courseid: 1, course_name: None, grade: "1".to_string() },
        GradeOverview { courseid: 2, course_name: None, grade: "2".to_string() },
        GradeOverview { courseid: 9, course_name: None, grade: "9".to_string() },
    ];
    prepare_grades_overview(&mut rows, &courses);
    let names: Vec<Option<String>> = rows.iter().map(|r| r.course_name.clone()).collect();
    assert_eq!(names, vec![None, Some("Abe".to_string()), Some("Zed".to_string())]);
}

#[test]
fn services_hold_their_collaborators() {
    let d = DataService::new(1u8, "store");
    assert_eq!(d.data_provider, 1);
    assert_eq!(d.data_repositories, "store");
    let g = GradeService::new("repo", 2u8);
    assert_eq!(g.grade_repository, "repo");
    let p = ProducerService::new("sink", 3u8, d);
    assert_eq!(p.producer, "sink");
    assert_eq!(p.data_service.data_provider, 1);
    let n = Notification::new("D".to_string(), "T".to_string(), "B".to_string());
    assert_eq!(n.title, "T");
}

#[test]
fn course_grade_step_tags_and_asks_for_resync() {
    let course = Course { id: 1, fullname: "Algebra".to_string(), enddate: 0 };
    let stored = vec![grade(1, "Quiz", "50%")];
    let step = plan_course_grades(&"D".to_string(), &course, vec![grade(1, "Quiz", "50%"), grade(1, "Exam", "70%")], &stored);
    assert!(step.resync);
    assert_eq!(step.prepared[1].coursename, Some("Algebra".to_string()));
    assert_eq!(step.notifications.len(), 1);
    assert_eq!(step.notifications[0].body, "New grade | Exam\n- -> 70%");
}
