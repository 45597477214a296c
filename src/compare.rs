//! The comparators: given an externally fetched list and the stored snapshot
//! of the same resource, each returns the items that are new or changed, in
//! the order of the external list.
use vstd::prelude::*;
use crate::models::{Course, Deadline, Grade, GradeOverview};

verus! {

/// Extending a prefix by one element extends its filtered image by that
/// element exactly when the element passes the predicate.
pub proof fn lemma_filter_take_step<A>(s: Seq<A>, i: int, p: spec_fn(A) -> bool)
    requires
        0 <= i < s.len(),
    ensures
        s.take(i + 1).filter(p) == if p(s[i]) {
            s.take(i).filter(p).push(s[i])
        } else {
            s.take(i).filter(p)
        },
{
    assert(s.take(i + 1) =~= s.take(i).push(s[i]));
    s.take(i).lemma_filter_push(s[i], p);
}

// ---------------------------------------------------------------- courses

pub open spec fn has_course_id(stored: Seq<Course>, id: u64) -> bool {
    exists|j: int| 0 <= j < stored.len() && stored[j].id == id
}

pub open spec fn course_is_new(stored: Seq<Course>) -> spec_fn(Course) -> bool {
    |c: Course| !has_course_id(stored, c.id)
}

/// The external courses whose id the stored list does not hold.
pub open spec fn new_courses(external: Seq<Course>, stored: Seq<Course>) -> Seq<Course> {
    external.filter(course_is_new(stored))
}

pub fn contains_course_id(courses: &Vec<Course>, id: u64) -> (r: bool)
    ensures
        r == has_course_id(courses@, id),
{
    let mut j: usize = 0;
    while j < courses.len()
        invariant
            0 <= j <= courses.len(),
            forall|k: int| 0 <= k < j ==> courses@[k].id != id,
        decreases courses.len() - j,
    {
        if courses[j].id == id {
            return true;
        }
        j += 1;
    }
    false
}

pub fn compare_courses(external: &Vec<Course>, stored: &Vec<Course>) -> (r: Vec<Course>)
    ensures
        r@ == new_courses(external@, stored@),
{
    let ghost p = course_is_new(stored@);
    let mut r: Vec<Course> = Vec::new();
    let mut i: usize = 0;
    while i < external.len()
        invariant
            0 <= i <= external.len(),
            p == course_is_new(stored@),
            r@ == external@.take(i as int).filter(p),
        decreases external.len() - i,
    {
        proof {
            lemma_filter_take_step(external@, i as int, p);
        }
        if !contains_course_id(stored, external[i].id) {
            r.push(external[i].copied());
        }
        i += 1;
    }
    assert(external@.take(external.len() as int) =~= external@);
    r
}

/// Removes the courses that ended before `now`, keeping the order of the rest.
pub fn delete_past_courses(courses: &mut Vec<Course>, now: u64)
    ensures
        final(courses)@ == old(courses)@.filter(|c: Course| !c.is_past(now)),
{
    let ghost p = |c: Course| !c.is_past(now);
    let mut kept: Vec<Course> = Vec::new();
    let mut i: usize = 0;
    while i < courses.len()
        invariant
            0 <= i <= courses.len(),
            courses@ == old(courses)@,
            p == (|c: Course| !c.is_past(now)),
            kept@ == courses@.take(i as int).filter(p),
        decreases courses.len() - i,
    {
        proof {
            lemma_filter_take_step(courses@, i as int, p);
        }
        let c = &courses[i];
        if !(c.enddate != 0 && c.enddate < now) {
            kept.push(c.copied());
        }
        i += 1;
    }
    assert(courses@.take(courses.len() as int) =~= courses@);
    *courses = kept;
}

// ----------------------------------------------------------------- grades

/// Two grade records speak of the same item: same course, same item name.
pub open spec fn same_item(a: Grade, b: Grade) -> bool {
    a.courseid == b.courseid && a.itemname@ == b.itemname@
}

pub open spec fn has_item(stored: Seq<Grade>, g: Grade) -> bool {
    exists|j: int| 0 <= j < stored.len() && same_item(stored[j], g)
}

/// The stored list holds the item of `g` with the same percentage.
pub open spec fn has_same_grade(stored: Seq<Grade>, g: Grade) -> bool {
    exists|j: int|
        0 <= j < stored.len() && same_item(stored[j], g) && stored[j].percentageformatted@
            == g.percentageformatted@
}

pub open spec fn grade_is_changed(stored: Seq<Grade>) -> spec_fn(Grade) -> bool {
    |g: Grade| !has_same_grade(stored, g)
}

/// The external grades that are new, or whose percentage differs from the
/// stored one for the same item.
pub open spec fn changed_grades(external: Seq<Grade>, stored: Seq<Grade>) -> Seq<Grade> {
    external.filter(grade_is_changed(stored))
}

/// The percentage of the first stored record of the item of `g`, if any.
pub open spec fn stored_percentage(stored: Seq<Grade>, g: Grade) -> Option<String>
    decreases stored.len(),
{
    if stored.len() == 0 {
        None
    } else if same_item(stored[0], g) {
        Some(stored[0].percentageformatted)
    } else {
        stored_percentage(stored.drop_first(), g)
    }
}

/// A changed grade with the percentage it had before, if the item was stored.
#[derive(Clone, Debug, PartialEq, Eq)]
pub struct GradeChange {
    pub current: Grade,
    pub previous: Option<String>,
}

pub fn holds_same_grade(stored: &Vec<Grade>, g: &Grade) -> (r: bool)
    ensures
        r == has_same_grade(stored@, *g),
{
    let mut j: usize = 0;
    while j < stored.len()
        invariant
            0 <= j <= stored.len(),
            forall|k: int|
                0 <= k < j ==> !(same_item(stored@[k], *g) && stored@[k].percentageformatted@
                    == g.percentageformatted@),
        decreases stored.len() - j,
    {
        let s = &stored[j];
        if s.courseid == g.courseid && s.itemname == g.itemname && s.percentageformatted
            == g.percentageformatted {
            return true;
        }
        j += 1;
    }
    false
}

pub fn previous_percentage(stored: &Vec<Grade>, g: &Grade) -> (r: Option<String>)
    ensures
        r == stored_percentage(stored@, *g),
{
    let mut j: usize = 0;
    assert(stored@.skip(0) =~= stored@);
    while j < stored.len()
        invariant
            0 <= j <= stored.len(),
            stored_percentage(stored@, *g) == stored_percentage(stored@.skip(j as int), *g),
        decreases stored.len() - j,
    {
        assert(stored@.skip(j as int)[0] == stored@[j as int]);
        let s = &stored[j];
        if s.courseid == g.courseid && s.itemname == g.itemname {
            return Some(s.percentageformatted.clone());
        }
        assert(stored@.skip(j as int).drop_first() =~= stored@.skip(j as int + 1));
        j += 1;
    }
    None
}

pub fn compare_grades(external: &Vec<Grade>, stored: &Vec<Grade>) -> (r: Vec<GradeChange>)
    ensures
        r@.len() == changed_grades(external@, stored@).len(),
        forall|i: int|
            0 <= i < r@.len() ==> r@[i].current == changed_grades(external@, stored@)[i]
                && r@[i].previous == stored_percentage(stored@, r@[i].current),
{
    let ghost p = grade_is_changed(stored@);
    let mut r: Vec<GradeChange> = Vec::new();
    let mut i: usize = 0;
    while i < external.len()
        invariant
            0 <= i <= external.len(),
            p == grade_is_changed(stored@),
            r@.len() == external@.take(i as int).filter(p).len(),
            forall|k: int|
                0 <= k < r@.len() ==> r@[k].current == external@.take(i as int).filter(p)[k]
                    && r@[k].previous == stored_percentage(stored@, r@[k].current),
        decreases external.len() - i,
    {
        proof {
            lemma_filter_take_step(external@, i as int, p);
        }
        let g = &external[i];
        if !holds_same_grade(stored, g) {
            let previous = previous_percentage(stored, g);
            r.push(GradeChange { current: g.copied(), previous });
        }
        i += 1;
    }
    assert(external@.take(external.len() as int) =~= external@);
    r
}

// --------------------------------------------------------- grade overview

pub open spec fn has_same_overview(stored: Seq<GradeOverview>, o: GradeOverview) -> bool {
    exists|j: int| 0 <= j < stored.len() && stored[j].courseid == o.courseid && stored[j].grade@ == o.grade@
}

pub open spec fn overview_is_changed(stored: Seq<GradeOverview>) -> spec_fn(GradeOverview) -> bool {
    |o: GradeOverview| !has_same_overview(stored, o)
}

/// The external rows whose course is not stored, or is stored with another grade.
pub open spec fn changed_overview(external: Seq<GradeOverview>, stored: Seq<GradeOverview>) -> Seq<GradeOverview> {
    external.filter(overview_is_changed(stored))
}

pub fn holds_same_overview(stored: &Vec<GradeOverview>, o: &GradeOverview) -> (r: bool)
    ensures
        r == has_same_overview(stored@, *o),
{
    let mut j: usize = 0;
    while j < stored.len()
        invariant
            0 <= j <= stored.len(),
            forall|k: int| 0 <= k < j ==> !(stored@[k].courseid == o.courseid && stored@[k].grade@ == o.grade@),
        decreases stored.len() - j,
    {
        if stored[j].courseid == o.courseid && stored[j].grade == o.grade {
            return true;
        }
        j += 1;
    }
    false
}

pub fn compare_grades_overview(external: &Vec<GradeOverview>, stored: &Vec<GradeOverview>) -> (r: Vec<GradeOverview>)
    ensures
        r@ == changed_overview(external@, stored@),
{
    let ghost p = overview_is_changed(stored@);
    let mut r: Vec<GradeOverview> = Vec::new();
    let mut i: usize = 0;
    while i < external.len()
        invariant
            0 <= i <= external.len(),
            p == overview_is_changed(stored@),
            r@ == external@.take(i as int).filter(p),
        decreases external.len() - i,
    {
        proof {
            lemma_filter_take_step(external@, i as int, p);
        }
        if !holds_same_overview(stored, &external[i]) {
            r.push(external[i].copied());
        }
        i += 1;
    }
    assert(external@.take(external.len() as int) =~= external@);
    r
}

// -------------------------------------------------------------- deadlines

/// Deadlines are identified by course, title and due time.
pub open spec fn same_deadline(a: Deadline, b: Deadline) -> bool {
    a.courseid == b.courseid && a.name@ == b.name@ && a.timestart == b.timestart
}

pub open spec fn has_deadline(stored: Seq<Deadline>, d: Deadline) -> bool {
    exists|j: int| 0 <= j < stored.len() && same_deadline(stored[j], d)
}

pub open spec fn deadline_is_new(stored: Seq<Deadline>) -> spec_fn(Deadline) -> bool {
    |d: Deadline| !has_deadline(stored, d)
}

/// The external deadlines that the stored list does not hold.
pub open spec fn new_deadlines(external: Seq<Deadline>, stored: Seq<Deadline>) -> Seq<Deadline> {
    external.filter(deadline_is_new(stored))
}

pub fn holds_deadline(stored: &Vec<Deadline>, d: &Deadline) -> (r: bool)
    ensures
        r == has_deadline(stored@, *d),
{
    let mut j: usize = 0;
    while j < stored.len()
        invariant
            0 <= j <= stored.len(),
            forall|k: int| 0 <= k < j ==> !same_deadline(stored@[k], *d),
        decreases stored.len() - j,
    {
        let s = &stored[j];
        if s.courseid == d.courseid && s.name == d.name && s.timestart == d.timestart {
            return true;
        }
        j += 1;
    }
    false
}

pub fn compare_deadlines(external: &Vec<Deadline>, stored: &Vec<Deadline>) -> (r: Vec<Deadline>)
    ensures
        r@ == new_deadlines(external@, stored@),
{
    let ghost p = deadline_is_new(stored@);
    let mut r: Vec<Deadline> = Vec::new();
    let mut i: usize = 0;
    while i < external.len()
        invariant
            0 <= i <= external.len(),
            p == deadline_is_new(stored@),
            r@ == external@.take(i as int).filter(p),
        decreases external.len() - i,
    {
        proof {
            lemma_filter_take_step(external@, i as int, p);
        }
        if !holds_deadline(stored, &external[i]) {
            r.push(external[i].copied());
        }
        i += 1;
    }
    assert(external@.take(external.len() as int) =~= external@);
    r
}

} // verus!
