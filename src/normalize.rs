//! Putting fetched lists into canonical form before they are compared or
//! stored: tagging items with their course's name, and sorting deadlines by
//! due time and grade-overview rows by course name.
use vstd::prelude::*;
use crate::models::{Course, Deadline, Grade, GradeOverview};

verus! {

/// Inserting an element anywhere adds it once to the multiset of the sequence.
pub proof fn lemma_insert_to_multiset<A>(s: Seq<A>, pos: int, x: A)
    requires
        0 <= pos <= s.len(),
    ensures
        s.insert(pos, x).to_multiset() =~= s.to_multiset().insert(x),
{
    let t = s.insert(pos, x);
    s.insert_ensures(pos, x);
    assert(t.remove(pos) =~= s);
    t.to_multiset_ensures();
    assert(t.contains(x));
    assert(t.to_multiset().count(x) > 0);
    assert(s.to_multiset() =~= t.to_multiset().remove(x));
}

/// One step of insertion sort keeps the multiset of what was taken so far.
pub proof fn lemma_insert_step<A>(src: Seq<A>, i: int, before: Seq<A>, pos: int)
    requires
        0 <= i < src.len(),
        0 <= pos <= before.len(),
        before.to_multiset() == src.take(i).to_multiset(),
    ensures
        before.insert(pos, src[i]).to_multiset() == src.take(i + 1).to_multiset(),
{
    lemma_insert_to_multiset(before, pos, src[i]);
    assert(src.take(i + 1) =~= src.take(i).push(src[i]));
    src.take(i).to_multiset_ensures();
}

// ------------------------------------------------------------------ names

/// Lexicographic order on names, by code point.
pub open spec fn lex_le(a: Seq<char>, b: Seq<char>) -> bool
    decreases a.len(),
{
    if a.len() == 0 {
        true
    } else if b.len() == 0 {
        false
    } else if a[0] != b[0] {
        (a[0] as u32) <= (b[0] as u32)
    } else {
        lex_le(a.drop_first(), b.drop_first())
    }
}

pub proof fn lemma_lex_total(a: Seq<char>, b: Seq<char>)
    ensures
        lex_le(a, b) || lex_le(b, a),
    decreases a.len(),
{
    if a.len() > 0 && b.len() > 0 && a[0] == b[0] {
        lemma_lex_total(a.drop_first(), b.drop_first());
    }
}

/// Order on optional course names: a missing name comes first.
pub open spec fn name_le(a: Option<String>, b: Option<String>) -> bool {
    match (a, b) {
        (None, _) => true,
        (Some(_), None) => false,
        (Some(x), Some(y)) => lex_le(x@, y@),
    }
}

pub proof fn lemma_name_total(a: Option<String>, b: Option<String>)
    ensures
        name_le(a, b) || name_le(b, a),
{
    if let (Some(x), Some(y)) = (a, b) {
        lemma_lex_total(x@, y@);
    }
}

pub fn str_le(a: &String, b: &String) -> (r: bool)
    ensures
        r == lex_le(a@, b@),
{
    let la = a.as_str().unicode_len();
    let lb = b.as_str().unicode_len();
    let mut i: usize = 0;
    assert(a@.skip(0) =~= a@);
    assert(b@.skip(0) =~= b@);
    while i < la && i < lb
        invariant
            0 <= i <= la,
            i <= lb,
            la == a@.len(),
            lb == b@.len(),
            lex_le(a@, b@) == lex_le(a@.skip(i as int), b@.skip(i as int)),
        decreases la - i,
    {
        let ca = a.as_str().get_char(i);
        let cb = b.as_str().get_char(i);
        assert(a@.skip(i as int)[0] == ca);
        assert(b@.skip(i as int)[0] == cb);
        if ca != cb {
            return (ca as u32) <= (cb as u32);
        }
        assert(a@.skip(i as int).drop_first() =~= a@.skip(i as int + 1));
        assert(b@.skip(i as int).drop_first() =~= b@.skip(i as int + 1));
        i += 1;
    }
    i == la
}

pub fn name_precedes(a: &Option<String>, b: &Option<String>) -> (r: bool)
    ensures
        r == name_le(*a, *b),
{
    match (a, b) {
        (None, _) => true,
        (Some(_), None) => false,
        (Some(x), Some(y)) => str_le(x, y),
    }
}

// -------------------------------------------------------------- deadlines

pub open spec fn deadlines_sorted(s: Seq<Deadline>) -> bool {
    forall|i: int, j: int| 0 <= i < j < s.len() ==> s[i].timestart <= s[j].timestart
}

/// Sorts deadlines by due time, earliest first.
pub fn sort_deadlines(deadlines: &mut Vec<Deadline>)
    ensures
        deadlines_sorted(final(deadlines)@),
        final(deadlines)@.to_multiset() == old(deadlines)@.to_multiset(),
{
    let mut r: Vec<Deadline> = Vec::new();
    let mut i: usize = 0;
    assert(r@ =~= deadlines@.take(0));
    while i < deadlines.len()
        invariant
            0 <= i <= deadlines.len(),
            deadlines_sorted(r@),
            r@.to_multiset() == deadlines@.take(i as int).to_multiset(),
        decreases deadlines.len() - i,
    {
        let x = deadlines[i].copied();
        let mut p: usize = 0;
        while p < r.len() && r[p].timestart <= x.timestart
            invariant
                0 <= p <= r.len(),
                forall|k: int| 0 <= k < p ==> r@[k].timestart <= x.timestart,
            decreases r.len() - p,
        {
            p += 1;
        }
        let ghost before = r@;
        proof {
            lemma_insert_step(deadlines@, i as int, before, p as int);
            before.insert_ensures(p as int, x);
        }
        r.insert(p, x);
        proof {
            assert forall|a: int, b: int| 0 <= a < b < r@.len() implies r@[a].timestart
                <= r@[b].timestart by {
                if b < p {
                } else if a < p && b == p {
                } else if a < p {
                    assert(r@[b] == before[b - 1]);
                } else if a == p {
                    assert(r@[b] == before[b - 1]);
                } else {
                    assert(r@[a] == before[a - 1] && r@[b] == before[b - 1]);
                }
            }
        }
        i += 1;
    }
    assert(deadlines@.take(deadlines.len() as int) =~= deadlines@);
    *deadlines = r;
}

// --------------------------------------------------------- grade overview

/// Each row's course name is not after the next row's.
pub open spec fn overview_sorted(s: Seq<GradeOverview>) -> bool {
    forall|i: int| 0 <= i < s.len() - 1 ==> name_le(#[trigger] s[i].course_name, s[i + 1].course_name)
}

/// Sorts grade-overview rows by course name.
pub fn sort_grades_overview(rows: &mut Vec<GradeOverview>)
    ensures
        overview_sorted(final(rows)@),
        final(rows)@.to_multiset() == old(rows)@.to_multiset(),
{
    let mut r: Vec<GradeOverview> = Vec::new();
    let mut i: usize = 0;
    assert(r@ =~= rows@.take(0));
    while i < rows.len()
        invariant
            0 <= i <= rows.len(),
            overview_sorted(r@),
            r@.to_multiset() == rows@.take(i as int).to_multiset(),
        decreases rows.len() - i,
    {
        let x = rows[i].copied();
        let mut p: usize = 0;
        while p < r.len() && name_precedes(&r[p].course_name, &x.course_name)
            invariant
                0 <= p <= r.len(),
                forall|k: int| 0 <= k < p ==> name_le(r@[k].course_name, x.course_name),
            decreases r.len() - p,
        {
            p += 1;
        }
        let ghost before = r@;
        proof {
            lemma_insert_step(rows@, i as int, before, p as int);
            before.insert_ensures(p as int, x);
            if p < before.len() {
                lemma_name_total(before[p as int].course_name, x.course_name);
            }
        }
        r.insert(p, x);
        proof {
            assert forall|k: int| 0 <= k < r@.len() - 1 implies name_le(
                #[trigger] r@[k].course_name,
                r@[k + 1].course_name,
            ) by {
                if k + 1 < p {
                    assert(r@[k] == before[k] && r@[k + 1] == before[k + 1]);
                } else if k + 1 == p {
                    assert(r@[k] == before[k]);
                } else if k == p {
                } else {
                    assert(r@[k] == before[k - 1] && r@[k + 1] == before[k]);
                }
            }
        }
        i += 1;
    }
    assert(rows@.take(rows.len() as int) =~= rows@);
    *rows = r;
}

// ---------------------------------------------------------------- tagging

/// Marks every grade with the name of the course it was fetched for.
pub fn tag_grades(grades: &mut Vec<Grade>, course: &Course)
    ensures
        final(grades)@.len() == old(grades)@.len(),
        forall|i: int|
            0 <= i < final(grades)@.len() ==> (#[trigger] final(grades)@[i]) == (Grade {
                coursename: Some(course.fullname),
                ..old(grades)@[i]
            }),
{
    let mut r: Vec<Grade> = Vec::new();
    let mut i: usize = 0;
    while i < grades.len()
        invariant
            0 <= i <= grades.len(),
            grades@ == old(grades)@,
            r@.len() == i,
            forall|k: int|
                0 <= k < i ==> (#[trigger] r@[k]) == (Grade {
                    coursename: Some(course.fullname),
                    ..old(grades)@[k]
                }),
        decreases grades.len() - i,
    {
        let g = &grades[i];
        r.push(
            Grade {
                courseid: g.courseid,
                coursename: Some(course.fullname.clone()),
                itemname: g.itemname.clone(),
                percentageformatted: g.percentageformatted.clone(),
            },
        );
        i += 1;
    }
    *grades = r;
}

/// Marks every deadline with the name of the course it was fetched for.
pub fn tag_deadlines(deadlines: &mut Vec<Deadline>, course: &Course)
    ensures
        final(deadlines)@.len() == old(deadlines)@.len(),
        forall|i: int|
            0 <= i < final(deadlines)@.len() ==> (#[trigger] final(deadlines)@[i]) == (Deadline {
                coursename: Some(course.fullname),
                ..old(deadlines)@[i]
            }),
{
    let mut r: Vec<Deadline> = Vec::new();
    let mut i: usize = 0;
    while i < deadlines.len()
        invariant
            0 <= i <= deadlines.len(),
            deadlines@ == old(deadlines)@,
            r@.len() == i,
            forall|k: int|
                0 <= k < i ==> (#[trigger] r@[k]) == (Deadline {
                    coursename: Some(course.fullname),
                    ..old(deadlines)@[k]
                }),
        decreases deadlines.len() - i,
    {
        let d = &deadlines[i];
        r.push(
            Deadline {
                id: d.id,
                courseid: d.courseid,
                coursename: Some(course.fullname.clone()),
                name: d.name.clone(),
                timestart: d.timestart,
            },
        );
        i += 1;
    }
    *deadlines = r;
}

/// The name of the first course with the given id.
pub open spec fn course_name_for(courses: Seq<Course>, id: u64) -> Option<String>
    decreases courses.len(),
{
    if courses.len() == 0 {
        None
    } else if courses[0].id == id {
        Some(courses[0].fullname)
    } else {
        course_name_for(courses.drop_first(), id)
    }
}

/// A row with the name of its course filled in, when the course is known.
pub open spec fn annotated_row(o: GradeOverview, courses: Seq<Course>) -> GradeOverview {
    match course_name_for(courses, o.courseid) {
        Some(n) => GradeOverview { course_name: Some(n), ..o },
        None => o,
    }
}

pub fn find_course_name(courses: &Vec<Course>, id: u64) -> (r: Option<String>)
    ensures
        r == course_name_for(courses@, id),
{
    let mut j: usize = 0;
    assert(courses@.skip(0) =~= courses@);
    while j < courses.len()
        invariant
            0 <= j <= courses.len(),
            course_name_for(courses@, id) == course_name_for(courses@.skip(j as int), id),
        decreases courses.len() - j,
    {
        assert(courses@.skip(j as int)[0] == courses@[j as int]);
        if courses[j].id == id {
            return Some(courses[j].fullname.clone());
        }
        assert(courses@.skip(j as int).drop_first() =~= courses@.skip(j as int + 1));
        j += 1;
    }
    None
}

/// Fills in each row's course name from the course list.
pub fn annotate_grades_overview(rows: &mut Vec<GradeOverview>, courses: &Vec<Course>)
    ensures
        final(rows)@ == old(rows)@.map_values(|o: GradeOverview| annotated_row(o, courses@)),
{
    let mut r: Vec<GradeOverview> = Vec::new();
    let mut i: usize = 0;
    while i < rows.len()
        invariant
            0 <= i <= rows.len(),
            rows@ == old(rows)@,
            r@ == rows@.take(i as int).map_values(|o: GradeOverview| annotated_row(o, courses@)),
        decreases rows.len() - i,
    {
        let o = &rows[i];
        let row = match find_course_name(courses, o.courseid) {
            Some(n) => GradeOverview { courseid: o.courseid, course_name: Some(n), grade: o.grade.clone() },
            None => o.copied(),
        };
        r.push(row);
        assert(rows@.take(i + 1).map_values(|o: GradeOverview| annotated_row(o, courses@))
            =~= rows@.take(i as int).map_values(|o: GradeOverview| annotated_row(o, courses@)).push(row));
        i += 1;
    }
    assert(rows@.take(rows.len() as int) =~= rows@);
    *rows = r;
}

/// Brings a freshly fetched grade overview into canonical form: course names
/// filled in, rows sorted by course name.
pub fn prepare_grades_overview(rows: &mut Vec<GradeOverview>, courses: &Vec<Course>)
    ensures
        overview_sorted(final(rows)@),
        final(rows)@.to_multiset() == old(rows)@.map_values(
            |o: GradeOverview| annotated_row(o, courses@),
        ).to_multiset(),
{
    annotate_grades_overview(rows, courses);
    sort_grades_overview(rows);
}

} // verus!
