//! The decisions of one polling pass over an account. The caller performs
//! each fetch, send and write; these functions decide, from what was
//! fetched, which notifications go out and whether the stored snapshot of a
//! resource is overwritten.
use vstd::prelude::*;
use crate::models::{Course, Deadline, Grade, GradeOverview, Notification, User};
use crate::compare::{
    changed_grades, changed_overview, compare_courses, compare_deadlines, compare_grades,
    compare_grades_overview, new_courses, new_deadlines, stored_percentage, GradeChange,
};
use crate::compare::{has_same_overview, overview_is_changed};
use crate::normalize::{
    deadlines_sorted, sort_deadlines, sort_grades_overview, tag_deadlines, tag_grades,
};

verus! {

/// `n` goes to device `dt` with the given title and body.
pub open spec fn is_notice(n: Notification, dt: Seq<char>, title: Seq<char>, body: Seq<char>) -> bool {
    n.device_token@ == dt && n.title@ == title && n.body@ == body
}

/// The notifications to send for one resource, and whether its stored
/// snapshot is to be overwritten with the external one.
#[derive(Clone, Debug, PartialEq, Eq)]
pub struct Plan {
    pub notifications: Vec<Notification>,
    pub persist: bool,
}

// ------------------------------------------------------------------- user

pub open spec fn user_body(u: User) -> Seq<char> {
    u.fullname@ + " ("@ + u.username@ + ")"@
}

/// A changed profile gives one notification and a write; an unchanged one
/// gives neither.
pub fn plan_user(device_token: &String, external: &User, stored: &User) -> (r: Plan)
    ensures
        r.persist == !external.same_profile(stored),
        r.notifications@.len() == (if r.persist { 1int } else { 0int }),
        r.persist ==> is_notice(r.notifications@[0], device_token@, "New user info"@, user_body(*external)),
{
    let mut notifications: Vec<Notification> = Vec::new();
    let changed = !(*external == *stored);
    if changed {
        let mut body = external.fullname.clone();
        body.append(" (");
        body.append(external.username.as_str());
        body.append(")");
        notifications.push(Notification::new(device_token.clone(), String::from_str("New user info"), body));
    }
    Plan { notifications, persist: changed }
}

// ---------------------------------------------------------------- courses

pub open spec fn is_course_notice(n: Notification, dt: Seq<char>, c: Course) -> bool {
    is_notice(n, dt, c.fullname@, "New course"@)
}

/// One notification per external course whose id is not stored, in order;
/// the course list is overwritten when there is at least one.
pub fn plan_courses(device_token: &String, external: &Vec<Course>, stored: &Vec<Course>) -> (r: Plan)
    ensures
        r.notifications@.len() == new_courses(external@, stored@).len(),
        forall|i: int|
            0 <= i < r.notifications@.len() ==> is_course_notice(
                #[trigger] r.notifications@[i],
                device_token@,
                new_courses(external@, stored@)[i],
            ),
        r.persist == (new_courses(external@, stored@).len() > 0),
{
    let fresh = compare_courses(external, stored);
    let mut notifications: Vec<Notification> = Vec::new();
    let mut i: usize = 0;
    while i < fresh.len()
        invariant
            0 <= i <= fresh.len(),
            notifications@.len() == i,
            forall|k: int|
                0 <= k < i ==> is_course_notice(#[trigger] notifications@[k], device_token@, fresh@[k]),
        decreases fresh.len() - i,
    {
        let n = Notification::new(
            device_token.clone(),
            fresh[i].fullname.clone(),
            String::from_str("New course"),
        );
        notifications.push(n);
        i += 1;
    }
    Plan { notifications, persist: fresh.len() > 0 }
}

// ----------------------------------------------------------------- grades

/// Some stored grade belongs to the course with this id.
pub open spec fn course_has_grades(stored: Seq<Grade>, id: u64) -> bool {
    exists|j: int| 0 <= j < stored.len() && stored[j].courseid == id
}

/// Some course of the account has no grade in the stored list.
pub open spec fn grade_resync_needed(courses: Seq<Course>, stored: Seq<Grade>) -> bool {
    exists|i: int| 0 <= i < courses.len() && !course_has_grades(stored, courses[i].id)
}

pub fn grades_need_resync(courses: &Vec<Course>, stored: &Vec<Grade>) -> (r: bool)
    ensures
        r == grade_resync_needed(courses@, stored@),
{
    let mut i: usize = 0;
    while i < courses.len()
        invariant
            0 <= i <= courses.len(),
            forall|k: int| 0 <= k < i ==> course_has_grades(stored@, #[trigger] courses@[k].id),
        decreases courses.len() - i,
    {
        let id = courses[i].id;
        let mut j: usize = 0;
        let mut found = false;
        while j < stored.len() && !found
            invariant
                0 <= j <= stored.len(),
                found ==> course_has_grades(stored@, id),
                !found ==> forall|k: int| 0 <= k < j ==> stored@[k].courseid != id,
            decreases stored.len() - j + (if found { 0int } else { 1int }),
        {
            if stored[j].courseid == id {
                found = true;
            } else {
                j += 1;
            }
        }
        if !found {
            return true;
        }
        i += 1;
    }
    false
}

pub open spec fn of_course(id: u64) -> spec_fn(Grade) -> bool {
    |g: Grade| g.courseid == id
}

/// The number of grade records of one course.
pub open spec fn count_of(grades: Seq<Grade>, id: u64) -> nat {
    grades.filter(of_course(id)).len()
}

/// Some external grade's course is stored with another number of items.
pub open spec fn item_count_differs(external: Seq<Grade>, stored: Seq<Grade>) -> bool {
    exists|i: int, j: int|
        0 <= i < external.len() && 0 <= j < stored.len() && external[i].courseid == stored[j].courseid
            && count_of(external, external[i].courseid) != count_of(stored, external[i].courseid)
}

pub fn count_grades_of(grades: &Vec<Grade>, id: u64) -> (r: usize)
    ensures
        r == count_of(grades@, id),
{
    let ghost p = of_course(id);
    let mut n: usize = 0;
    let mut i: usize = 0;
    while i < grades.len()
        invariant
            0 <= i <= grades.len(),
            p == of_course(id),
            n == grades@.take(i as int).filter(p).len(),
            n <= i,
        decreases grades.len() - i,
    {
        proof {
            crate::compare::lemma_filter_take_step(grades@, i as int, p);
        }
        if grades[i].courseid == id {
            n += 1;
        }
        i += 1;
    }
    assert(grades@.take(grades.len() as int) =~= grades@);
    n
}

pub fn item_count_mismatch(external: &Vec<Grade>, stored: &Vec<Grade>) -> (r: bool)
    ensures
        r == item_count_differs(external@, stored@),
{
    let mut i: usize = 0;
    while i < external.len()
        invariant
            0 <= i <= external.len(),
            forall|a: int, b: int|
                0 <= a < i && 0 <= b < stored@.len() && external@[a].courseid == stored@[b].courseid
                    ==> count_of(external@, external@[a].courseid) == count_of(stored@, external@[a].courseid),
        decreases external.len() - i,
    {
        let id = external[i].courseid;
        let mut j: usize = 0;
        while j < stored.len()
            invariant
                0 <= j <= stored.len(),
                i < external.len(),
                id == external@[i as int].courseid,
                forall|b: int|
                    0 <= b < j && stored@[b].courseid == id ==> count_of(external@, id) == count_of(stored@, id),
            decreases stored.len() - j,
        {
            if stored[j].courseid == id {
                if count_grades_of(external, id) != count_grades_of(stored, id) {
                    proof {
                        let a = i as int;
                        let b = j as int;
                        assert(0 <= a < external@.len() && 0 <= b < stored@.len()
                            && external@[a].courseid == stored@[b].courseid
                            && count_of(external@, external@[a].courseid) != count_of(stored@, external@[a].courseid));
                    }
                    return true;
                }
            }
            j += 1;
        }
        i += 1;
    }
    false
}

pub open spec fn previous_text(p: Option<String>) -> Seq<char> {
    match p {
        Some(s) => s@,
        None => "-"@,
    }
}

/// The body reports the item and its percentage before and after.
pub open spec fn grade_body(ch: GradeChange) -> Seq<char> {
    "New grade | "@ + ch.current.itemname@ + "\n"@ + previous_text(ch.previous) + " -> "@
        + ch.current.percentageformatted@
}

/// The `i`-th changed grade with its stored percentage.
pub open spec fn change_of(external: Seq<Grade>, stored: Seq<Grade>, i: int) -> GradeChange {
    let g = changed_grades(external, stored)[i];
    GradeChange { current: g, previous: stored_percentage(stored, g) }
}

pub open spec fn is_grade_notice(n: Notification, dt: Seq<char>, course: Course, ch: GradeChange) -> bool {
    is_notice(n, dt, course.fullname@, grade_body(ch))
}

/// One notification per changed grade of a course, titled with the course's
/// name; each reports the stored percentage (or "-") and the new one.
pub fn grade_notifications(
    device_token: &String,
    course: &Course,
    external: &Vec<Grade>,
    stored: &Vec<Grade>,
) -> (r: Vec<Notification>)
    ensures
        r@.len() == changed_grades(external@, stored@).len(),
        forall|i: int|
            0 <= i < r@.len() ==> is_grade_notice(
                #[trigger] r@[i],
                device_token@,
                *course,
                change_of(external@, stored@, i),
            ),
{
    let changes = compare_grades(external, stored);
    let mut r: Vec<Notification> = Vec::new();
    let mut i: usize = 0;
    while i < changes.len()
        invariant
            0 <= i <= changes.len(),
            r@.len() == i,
            forall|k: int|
                0 <= k < i ==> is_grade_notice(#[trigger] r@[k], device_token@, *course, changes@[k]),
        decreases changes.len() - i,
    {
        let ch = &changes[i];
        let mut body = String::from_str("New grade | ");
        body.append(ch.current.itemname.as_str());
        body.append("\n");
        match &ch.previous {
            Some(p) => body.append(p.as_str()),
            None => body.append("-"),
        }
        body.append(" -> ");
        body.append(ch.current.percentageformatted.as_str());
        r.push(Notification::new(device_token.clone(), course.fullname.clone(), body));
        i += 1;
    }
    assert forall|k: int| 0 <= k < r@.len() implies is_grade_notice(
        #[trigger] r@[k],
        device_token@,
        *course,
        change_of(external@, stored@, k),
    ) by {
        assert(changes@[k] == change_of(external@, stored@, k));
    }
    r
}

/// The grades of one course in canonical form, whether they force a resync
/// of the stored grades, and the notifications for what changed.
#[derive(Clone, Debug, PartialEq, Eq)]
pub struct GradeStep {
    pub prepared: Vec<Grade>,
    pub resync: bool,
    pub notifications: Vec<Notification>,
}

/// For one course: tags the fetched grades with the course's name, asks for
/// a resync when a course is stored with another number of items, and gives
/// one notification per changed grade, measured against the stored grades
/// read at the start of the pass.
pub fn plan_course_grades(
    device_token: &String,
    course: &Course,
    external: Vec<Grade>,
    stored: &Vec<Grade>,
) -> (r: GradeStep)
    ensures
        r.prepared@ == external@.map_values(|g: Grade| Grade { coursename: Some(course.fullname), ..g }),
        r.resync == item_count_differs(r.prepared@, stored@),
        r.notifications@.len() == changed_grades(r.prepared@, stored@).len(),
        forall|i: int|
            0 <= i < r.notifications@.len() ==> is_grade_notice(
                #[trigger] r.notifications@[i],
                device_token@,
                *course,
                change_of(r.prepared@, stored@, i),
            ),
{
    let mut prepared = external;
    tag_grades(&mut prepared, course);
    assert(prepared@ =~= external@.map_values(|g: Grade| Grade { coursename: Some(course.fullname), ..g }));
    let resync = item_count_mismatch(&prepared, stored);
    let notifications = grade_notifications(device_token, course, &prepared, stored);
    GradeStep { prepared, resync, notifications }
}

// --------------------------------------------------------- grade overview

/// Sequences with the same multiset hold the same elements.
pub proof fn lemma_same_multiset_same_elements<A>(s1: Seq<A>, s2: Seq<A>)
    requires
        s1.to_multiset() == s2.to_multiset(),
    ensures
        forall|x: A| s1.contains(x) <==> s2.contains(x),
{
    assert forall|x: A| s1.contains(x) <==> s2.contains(x) by {
        broadcast use vstd::seq_lib::group_to_multiset_ensures;
        assert(s1.to_multiset().count(x) == s2.to_multiset().count(x));
        assert(s1.contains(x) <==> s1.to_multiset().count(x) > 0);
        assert(s2.contains(x) <==> s2.to_multiset().count(x) > 0);
    }
}

/// Reordering the stored overview does not change which rows are new.
pub proof fn lemma_overview_change_ignores_order(
    external: Seq<GradeOverview>,
    s1: Seq<GradeOverview>,
    s2: Seq<GradeOverview>,
)
    requires
        s1.to_multiset() == s2.to_multiset(),
    ensures
        changed_overview(external, s1) == changed_overview(external, s2),
{
    lemma_same_multiset_same_elements(s1, s2);
    assert forall|o: GradeOverview| has_same_overview(s1, o) implies has_same_overview(s2, o) by {
        let j = choose|j: int| 0 <= j < s1.len() && s1[j].courseid == o.courseid && s1[j].grade@ == o.grade@;
        assert(s1.contains(s1[j]));
        let k = choose|k: int| 0 <= k < s2.len() && s2[k] == s1[j];
    }
    assert forall|o: GradeOverview| has_same_overview(s2, o) implies has_same_overview(s1, o) by {
        let j = choose|j: int| 0 <= j < s2.len() && s2[j].courseid == o.courseid && s2[j].grade@ == o.grade@;
        assert(s2.contains(s2[j]));
        let k = choose|k: int| 0 <= k < s1.len() && s1[k] == s2[j];
    }
    assert(overview_is_changed(s1) =~= overview_is_changed(s2));
}

pub open spec fn overview_title(o: GradeOverview) -> Seq<char> {
    match o.course_name {
        Some(n) => n@,
        None => "-"@,
    }
}

pub open spec fn is_overview_notice(n: Notification, dt: Seq<char>, o: GradeOverview) -> bool {
    is_notice(n, dt, overview_title(o), "New course total grade | "@ + o.grade@)
}

/// One notification per external row whose course is not stored with the
/// same grade, titled with the course name (or "-"); the overview is
/// overwritten when there is at least one. The stored rows are put in
/// canonical order first, which does not change the outcome.
pub fn plan_grade_overview(
    device_token: &String,
    external: &Vec<GradeOverview>,
    stored: Vec<GradeOverview>,
) -> (r: Plan)
    ensures
        r.notifications@.len() == changed_overview(external@, stored@).len(),
        forall|i: int|
            0 <= i < r.notifications@.len() ==> is_overview_notice(
                #[trigger] r.notifications@[i],
                device_token@,
                changed_overview(external@, stored@)[i],
            ),
        r.persist == (changed_overview(external@, stored@).len() > 0),
{
    let mut sorted = stored;
    sort_grades_overview(&mut sorted);
    proof {
        lemma_overview_change_ignores_order(external@, sorted@, stored@);
    }
    let changed = compare_grades_overview(external, &sorted);
    let mut notifications: Vec<Notification> = Vec::new();
    let mut i: usize = 0;
    while i < changed.len()
        invariant
            0 <= i <= changed.len(),
            notifications@.len() == i,
            forall|k: int|
                0 <= k < i ==> is_overview_notice(#[trigger] notifications@[k], device_token@, changed@[k]),
        decreases changed.len() - i,
    {
        let o = &changed[i];
        let title = match &o.course_name {
            Some(n) => n.clone(),
            None => String::from_str("-"),
        };
        let mut body = String::from_str("New course total grade | ");
        body.append(o.grade.as_str());
        notifications.push(Notification::new(device_token.clone(), title, body));
        i += 1;
    }
    Plan { notifications, persist: changed.len() > 0 }
}

// -------------------------------------------------------------- deadlines

pub open spec fn deadline_body(d: Deadline) -> Seq<char> {
    overview_title(GradeOverview { courseid: d.courseid, course_name: d.coursename, grade: d.name })
        + ": "@ + d.name@
}

pub open spec fn is_deadline_notice(n: Notification, dt: Seq<char>, d: Deadline) -> bool {
    is_notice(n, dt, "New deadline"@, deadline_body(d))
}

/// The deadlines of one course in canonical form, and what is new in them.
#[derive(Clone, Debug, PartialEq, Eq)]
pub struct DeadlineStep {
    pub prepared: Vec<Deadline>,
    pub notifications: Vec<Notification>,
}

/// For one course: tags the fetched deadlines with the course's name, sorts
/// them by due time, and gives one notification per deadline that the stored
/// list does not hold. A course with no external deadline gives nothing.
pub fn plan_course_deadlines(
    device_token: &String,
    course: &Course,
    external: Vec<Deadline>,
    stored: &Vec<Deadline>,
) -> (r: DeadlineStep)
    ensures
        deadlines_sorted(r.prepared@),
        r.prepared@.to_multiset() == external@.map_values(
            |d: Deadline| Deadline { coursename: Some(course.fullname), ..d },
        ).to_multiset(),
        r.notifications@.len() == new_deadlines(r.prepared@, stored@).len(),
        forall|i: int|
            0 <= i < r.notifications@.len() ==> is_deadline_notice(
                #[trigger] r.notifications@[i],
                device_token@,
                new_deadlines(r.prepared@, stored@)[i],
            ),
{
    let mut prepared = external;
    tag_deadlines(&mut prepared, course);
    assert(prepared@ =~= external@.map_values(
        |d: Deadline| Deadline { coursename: Some(course.fullname), ..d },
    ));
    sort_deadlines(&mut prepared);
    let fresh = compare_deadlines(&prepared, stored);
    let mut notifications: Vec<Notification> = Vec::new();
    let mut i: usize = 0;
    while i < fresh.len()
        invariant
            0 <= i <= fresh.len(),
            notifications@.len() == i,
            forall|k: int|
                0 <= k < i ==> is_deadline_notice(#[trigger] notifications@[k], device_token@, fresh@[k]),
        decreases fresh.len() - i,
    {
        let d = &fresh[i];
        let mut body = match &d.coursename {
            Some(n) => n.clone(),
            None => String::from_str("-"),
        };
        body.append(": ");
        body.append(d.name.as_str());
        notifications.push(Notification::new(device_token.clone(), String::from_str("New deadline"), body));
        i += 1;
    }
    DeadlineStep { prepared, notifications }
}

// ------------------------------------------------------------ the account

/// The sub-pipelines of an account, in the order they run.
#[derive(Clone, Copy, Debug, PartialEq, Eq, Structural)]
pub enum Stage {
    User,
    Courses,
    Grades,
    GradeOverview,
    Deadlines,
    Done,
}

/// A failed user or course step ends the account's pass, since the later
/// steps need the profile and the course list; a failed grade, overview or
/// deadline step does not stop the steps after it.
pub open spec fn stage_after(stage: Stage, succeeded: bool) -> Stage {
    match stage {
        Stage::User => if succeeded { Stage::Courses } else { Stage::Done },
        Stage::Courses => if succeeded { Stage::Grades } else { Stage::Done },
        Stage::Grades => Stage::GradeOverview,
        Stage::GradeOverview => Stage::Deadlines,
        Stage::Deadlines => Stage::Done,
        Stage::Done => Stage::Done,
    }
}

pub fn next_stage(stage: Stage, succeeded: bool) -> (r: Stage)
    ensures
        r == stage_after(stage, succeeded),
{
    match stage {
        Stage::User => if succeeded { Stage::Courses } else { Stage::Done },
        Stage::Courses => if succeeded { Stage::Grades } else { Stage::Done },
        Stage::Grades => Stage::GradeOverview,
        Stage::GradeOverview => Stage::Deadlines,
        Stage::Deadlines => Stage::Done,
        Stage::Done => Stage::Done,
    }
}

} // verus!
