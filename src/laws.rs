//! General properties of the comparators, the canonical orders and the
//! pagination cursor, stated over the spec functions that their contracts use.
use vstd::prelude::*;
use crate::batcher::{TokenRecord, batch_of, next_offset, registry_page};
use crate::compare::{
    changed_grades, changed_overview, deadline_is_new, grade_is_changed, has_course_id,
    has_deadline, has_item, has_same_grade, new_courses, new_deadlines, course_is_new,
    same_item, same_deadline,
};
use crate::models::{Course, Deadline, Grade, GradeOverview, User};
use crate::normalize::deadlines_sorted;
use crate::pipeline::{count_of, course_has_grades, grade_resync_needed, item_count_differs, of_course};
use crate::pipeline::{lemma_overview_change_ignores_order, lemma_same_multiset_same_elements};

verus! {

/// Membership in a filtered sequence: in the sequence, and passing the test.
pub proof fn lemma_filter_membership<A>(s: Seq<A>, p: spec_fn(A) -> bool, x: A)
    ensures
        s.filter(p).contains(x) <==> (s.contains(x) && p(x)),
{
    broadcast use vstd::seq_lib::group_filter_ensures;
    if s.filter(p).contains(x) {
        s.lemma_filter_contains_rev(p, x);
        let i = choose|i: int| 0 <= i < s.filter(p).len() && s.filter(p)[i] == x;
        s.filter_lemma(p);
    }
    if s.contains(x) && p(x) {
        let i = choose|i: int| 0 <= i < s.len() && s[i] == x;
        s.lemma_filter_contains(p, i);
    }
}

/// How often an element occurs in a filtered sequence.
pub proof fn lemma_filter_count<A>(s: Seq<A>, p: spec_fn(A) -> bool, x: A)
    ensures
        s.filter(p).to_multiset().count(x) == (if p(x) { s.to_multiset().count(x) } else { 0 }),
    decreases s.len(),
{
    broadcast use vstd::seq_lib::group_to_multiset_ensures;
    if s.len() == 0 {
        assert(s.filter(p) =~= Seq::<A>::empty());
    } else {
        let init = s.drop_last();
        lemma_filter_count(init, p, x);
        assert(s =~= init.push(s.last()));
        init.lemma_filter_push(s.last(), p);
    }
}

/// A filter that nothing passes is empty.
pub proof fn lemma_filter_none<A>(s: Seq<A>, p: spec_fn(A) -> bool)
    requires
        forall|i: int| 0 <= i < s.len() ==> !p(s[i]),
    ensures
        s.filter(p).len() == 0,
{
    if s.filter(p).len() > 0 {
        lemma_filter_membership(s, p, s.filter(p)[0]);
        assert(s.filter(p).contains(s.filter(p)[0]));
    }
}

/// A course is reported new exactly when it is external and its id is not
/// stored; one notification goes out for each (see `plan_courses`).
pub proof fn lemma_course_diff(external: Seq<Course>, stored: Seq<Course>, c: Course)
    ensures
        new_courses(external, stored).contains(c) <==> (external.contains(c) && !has_course_id(stored, c.id)),
{
    lemma_filter_membership(external, course_is_new(stored), c);
}

/// With at most one stored record per item, an external grade is reported
/// exactly when its item is stored with another percentage, or not stored.
pub proof fn lemma_grade_diff(external: Seq<Grade>, stored: Seq<Grade>, g: Grade)
    requires
        forall|a: int, b: int|
            0 <= a < b < stored.len() ==> !same_item(#[trigger] stored[a], #[trigger] stored[b]),
    ensures
        changed_grades(external, stored).contains(g) <==> (external.contains(g) && (!has_item(stored, g)
            || exists|j: int|
            0 <= j < stored.len() && same_item(stored[j], g) && stored[j].percentageformatted@
                != g.percentageformatted@)),
{
    lemma_filter_membership(external, grade_is_changed(stored), g);
    if has_item(stored, g) && !has_same_grade(stored, g) {
        let j = choose|j: int| 0 <= j < stored.len() && same_item(stored[j], g);
        assert(stored[j].percentageformatted@ != g.percentageformatted@);
    }
    if has_same_grade(stored, g) {
        let j = choose|j: int|
            0 <= j < stored.len() && same_item(stored[j], g) && stored[j].percentageformatted@
                == g.percentageformatted@;
        assert forall|k: int|
            0 <= k < stored.len() && same_item(stored[k], g) implies stored[k].percentageformatted@
            == g.percentageformatted@ by {
            if k < j {
                assert(!same_item(stored[k], stored[j]));
            } else if k > j {
                assert(!same_item(stored[j], stored[k]));
            }
        }
    }
}

/// Reordering the stored deadlines does not change which deadlines are new.
pub proof fn lemma_deadline_diff_ignores_stored_order(
    external: Seq<Deadline>,
    s1: Seq<Deadline>,
    s2: Seq<Deadline>,
)
    requires
        s1.to_multiset() == s2.to_multiset(),
    ensures
        new_deadlines(external, s1) == new_deadlines(external, s2),
{
    lemma_same_multiset_same_elements(s1, s2);
    assert forall|d: Deadline| has_deadline(s1, d) implies has_deadline(s2, d) by {
        let j = choose|j: int| 0 <= j < s1.len() && same_deadline(s1[j], d);
        assert(s1.contains(s1[j]));
        let k = choose|k: int| 0 <= k < s2.len() && s2[k] == s1[j];
    }
    assert forall|d: Deadline| has_deadline(s2, d) implies has_deadline(s1, d) by {
        let j = choose|j: int| 0 <= j < s2.len() && same_deadline(s2[j], d);
        assert(s2.contains(s2[j]));
        let k = choose|k: int| 0 <= k < s1.len() && s1[k] == s2[j];
    }
    assert(deadline_is_new(s1) =~= deadline_is_new(s2));
}

/// The deadline comparator does not depend on the order of its inputs: on
/// reordered external and stored lists it reports the same deadlines.
pub proof fn lemma_deadline_diff_order_independent(
    e1: Seq<Deadline>,
    e2: Seq<Deadline>,
    s1: Seq<Deadline>,
    s2: Seq<Deadline>,
)
    requires
        e1.to_multiset() == e2.to_multiset(),
        s1.to_multiset() == s2.to_multiset(),
    ensures
        new_deadlines(e1, s1).to_multiset() == new_deadlines(e2, s2).to_multiset(),
{
    lemma_deadline_diff_ignores_stored_order(e2, s1, s2);
    let p = deadline_is_new(s1);
    assert forall|x: Deadline| #[trigger] e1.filter(p).to_multiset().count(x) == e2.filter(p).to_multiset().count(x) by {
        lemma_filter_count(e1, p, x);
        lemma_filter_count(e2, p, x);
    }
    assert(e1.filter(p).to_multiset() =~= e2.filter(p).to_multiset());
}

/// No two deadlines of the list are due at the same time.
pub open spec fn due_times_distinct(s: Seq<Deadline>) -> bool {
    forall|i: int, j: int| 0 <= i < j < s.len() ==> (#[trigger] s[i]).timestart != (#[trigger] s[j]).timestart
}

/// Two lists sorted by due time, with distinct due times and the same
/// deadlines, are the same list.
pub proof fn lemma_sorted_deadlines_unique(a: Seq<Deadline>, b: Seq<Deadline>)
    requires
        deadlines_sorted(a),
        deadlines_sorted(b),
        due_times_distinct(a),
        a.to_multiset() == b.to_multiset(),
    ensures
        a == b,
    decreases a.len(),
{
    broadcast use vstd::seq_lib::group_to_multiset_ensures;
    assert(a.len() == a.to_multiset().len() && b.len() == b.to_multiset().len());
    if a.len() == 0 {
        assert(b.len() == 0);
        assert(a =~= b);
    } else {
        assert(b.len() == a.len());
        lemma_same_multiset_same_elements(a, b);
        assert(a.contains(a[0]));
        assert(b.contains(b[0]));
        let i = choose|i: int| 0 <= i < b.len() && b[i] == a[0];
        let j = choose|j: int| 0 <= j < a.len() && a[j] == b[0];
        assert(b[0].timestart <= b[i].timestart);
        assert(a[0].timestart <= a[j].timestart);
        if j != 0 {
            assert(a[0].timestart != a[j].timestart);
        }
        assert(a[0] == b[0]);
        assert(a.remove(0) =~= a.drop_first());
        assert(b.remove(0) =~= b.drop_first());
        assert(a.drop_first().to_multiset() == a.to_multiset().remove(a[0]));
        assert(b.drop_first().to_multiset() == b.to_multiset().remove(b[0]));
        assert(deadlines_sorted(a.drop_first()));
        assert(deadlines_sorted(b.drop_first()));
        assert(due_times_distinct(a.drop_first())) by {
            assert forall|x: int, y: int| 0 <= x < y < a.drop_first().len() implies (
            #[trigger] a.drop_first()[x]).timestart != (#[trigger] a.drop_first()[y]).timestart by {
                assert(a[x + 1].timestart != a[y + 1].timestart);
            }
        }
        lemma_sorted_deadlines_unique(a.drop_first(), b.drop_first());
        assert(a =~= b) by {
            assert forall|k: int| 0 <= k < a.len() implies a[k] == b[k] by {
                if k > 0 {
                    assert(a[k] == a.drop_first()[k - 1]);
                    assert(b[k] == b.drop_first()[k - 1]);
                }
            }
        }
    }
}

/// On deadlines put in canonical order, with distinct due times, the
/// comparator gives the very same list however the inputs were ordered
/// before sorting.
pub proof fn lemma_sorted_deadline_diff_is_unique(
    e1: Seq<Deadline>,
    e2: Seq<Deadline>,
    s1: Seq<Deadline>,
    s2: Seq<Deadline>,
)
    requires
        deadlines_sorted(e1),
        deadlines_sorted(e2),
        due_times_distinct(e1),
        e1.to_multiset() == e2.to_multiset(),
        s1.to_multiset() == s2.to_multiset(),
    ensures
        new_deadlines(e1, s1) == new_deadlines(e2, s2),
{
    lemma_sorted_deadlines_unique(e1, e2);
    lemma_deadline_diff_ignores_stored_order(e2, s1, s2);
}

/// The grade-overview comparator does not depend on the order of its
/// inputs: on reordered external and stored lists it reports the same rows.
pub proof fn lemma_overview_diff_order_independent(
    e1: Seq<GradeOverview>,
    e2: Seq<GradeOverview>,
    s1: Seq<GradeOverview>,
    s2: Seq<GradeOverview>,
)
    requires
        e1.to_multiset() == e2.to_multiset(),
        s1.to_multiset() == s2.to_multiset(),
    ensures
        changed_overview(e1, s1).to_multiset() == changed_overview(e2, s2).to_multiset(),
{
    lemma_overview_change_ignores_order(e2, s1, s2);
    let p = crate::compare::overview_is_changed(s1);
    assert forall|x: GradeOverview| #[trigger] e1.filter(p).to_multiset().count(x) == e2.filter(p).to_multiset().count(x) by {
        lemma_filter_count(e1, p, x);
        lemma_filter_count(e2, p, x);
    }
    assert(e1.filter(p).to_multiset() =~= e2.filter(p).to_multiset());
}

// ------------------------------------------------------------- pagination

/// Every registry document carries an account token.
pub open spec fn all_have_ids(registry: Seq<TokenRecord>) -> bool {
    forall|i: int| 0 <= i < registry.len() ==> (#[trigger] registry[i]).id.is_some()
}

/// The offset after `n` calls that start from zero.
pub open spec fn offset_after(registry: Seq<TokenRecord>, limit: nat, n: nat) -> nat
    decreases n,
{
    if n == 0 {
        0
    } else {
        let o = offset_after(registry, limit, (n - 1) as nat);
        next_offset(registry_page(registry, limit, o), o)
    }
}

pub proof fn lemma_full_batch(page: Seq<TokenRecord>)
    requires
        all_have_ids(page),
    ensures
        batch_of(page).len() == page.len(),
    decreases page.len(),
{
    if page.len() > 0 {
        assert(all_have_ids(page.drop_last()));
        lemma_full_batch(page.drop_last());
    }
}

proof fn lemma_offset_advances(registry: Seq<TokenRecord>, limit: nat, k: nat)
    requires
        limit > 0,
        all_have_ids(registry),
        forall|j: nat| j < k ==> offset_after(registry, limit, j) < registry.len(),
    ensures
        k <= offset_after(registry, limit, k) <= registry.len(),
    decreases k,
{
    if k > 0 {
        lemma_offset_advances(registry, limit, (k - 1) as nat);
        let o = offset_after(registry, limit, (k - 1) as nat);
        let page = registry_page(registry, limit, o);
        assert(o < registry.len());
        assert(all_have_ids(page));
        lemma_full_batch(page);
    }
}

proof fn lemma_reaches_end(registry: Seq<TokenRecord>, limit: nat, k: nat) -> (n: nat)
    requires
        limit > 0,
        all_have_ids(registry),
        k <= registry.len(),
        forall|j: nat| j < k ==> offset_after(registry, limit, j) < registry.len(),
    ensures
        offset_after(registry, limit, n) == registry.len(),
    decreases registry.len() - k,
{
    lemma_offset_advances(registry, limit, k);
    if offset_after(registry, limit, k) == registry.len() {
        k
    } else {
        lemma_reaches_end(registry, limit, k + 1)
    }
}

/// Paging with a fixed positive limit from offset zero reaches an empty
/// page; the offset then goes back to zero, and the next page is the first
/// page again.
pub proof fn lemma_batches_wrap_around(registry: Seq<TokenRecord>, limit: nat)
    requires
        limit > 0,
        all_have_ids(registry),
    ensures
        exists|n: nat|
            registry_page(registry, limit, #[trigger] offset_after(registry, limit, n)).len() == 0
                && offset_after(registry, limit, n + 1) == 0 && registry_page(
                registry,
                limit,
                offset_after(registry, limit, n + 1),
            ) == registry_page(registry, limit, 0),
{
    let n = lemma_reaches_end(registry, limit, 0);
    assert(offset_after(registry, limit, (n + 1) as nat) == 0);
}

// ------------------------------------------------------- a second pass

/// A filter that every element passes keeps the whole sequence.
pub proof fn lemma_filter_all<A>(s: Seq<A>, p: spec_fn(A) -> bool)
    requires
        forall|i: int| 0 <= i < s.len() ==> p(s[i]),
    ensures
        s.filter(p) == s,
    decreases s.len(),
{
    if s.len() == 0 {
        assert(s.filter(p) =~= s);
    } else {
        let init = s.drop_last();
        lemma_filter_all(init, p);
        assert(s =~= init.push(s.last()));
        init.lemma_filter_push(s.last(), p);
    }
}

/// Every element of every inner sequence is in the flattened sequence.
pub proof fn lemma_flatten_contains<A>(ss: Seq<Seq<A>>, i: int, k: int)
    requires
        0 <= i < ss.len(),
        0 <= k < ss[i].len(),
    ensures
        ss.flatten().contains(ss[i][k]),
    decreases ss.len(),
{
    let rest = ss.drop_first();
    assert(ss.flatten() == ss[0] + rest.flatten());
    if i == 0 {
        assert(ss.flatten()[k] == ss[0][k]);
    } else {
        assert(rest[i - 1] == ss[i]);
        lemma_flatten_contains(rest, i - 1, k);
        let j = choose|j: int| 0 <= j < rest.flatten().len() && rest.flatten()[j] == ss[i][k];
        assert(ss.flatten()[ss[0].len() + j] == ss[i][k]);
    }
}

/// Grade lists fetched per course: one list per course, each record
/// belonging to the course it was fetched for, course ids distinct.
pub open spec fn grades_per_course(courses: Seq<Course>, course_grades: Seq<Seq<Grade>>) -> bool {
    &&& course_grades.len() == courses.len()
    &&& forall|i: int, k: int|
        0 <= i < courses.len() && 0 <= k < course_grades[i].len() ==> (#[trigger] course_grades[i][k]).courseid
            == courses[i].id
    &&& forall|a: int, b: int| 0 <= a < b < courses.len() ==> (#[trigger] courses[a]).id != (#[trigger] courses[b]).id
}

pub open spec fn count_for(courses: Seq<Course>, course_grades: Seq<Seq<Grade>>, id: u64) -> nat
    decreases courses.len(),
{
    if courses.len() == 0 || course_grades.len() == 0 {
        0
    } else {
        (if courses[0].id == id { course_grades[0].len() } else { 0 }) + count_for(
            courses.drop_first(),
            course_grades.drop_first(),
            id,
        )
    }
}

proof fn lemma_count_flatten(courses: Seq<Course>, course_grades: Seq<Seq<Grade>>, id: u64)
    requires
        grades_per_course(courses, course_grades),
    ensures
        count_of(course_grades.flatten(), id) == count_for(courses, course_grades, id),
    decreases courses.len(),
{
    if courses.len() == 0 {
        assert(course_grades.flatten() =~= Seq::<Grade>::empty());
        assert(course_grades.flatten().filter(of_course(id)) =~= Seq::<Grade>::empty());
    } else {
        let first = course_grades[0];
        let rest = course_grades.drop_first();
        assert(grades_per_course(courses.drop_first(), rest)) by {
            assert forall|i: int, k: int|
                0 <= i < courses.drop_first().len() && 0 <= k < rest[i].len() implies (#[trigger] rest[i][k]).courseid
                == courses.drop_first()[i].id by {
                assert(rest[i] == course_grades[i + 1]);
                assert(course_grades[i + 1][k].courseid == courses[i + 1].id);
            }
            assert forall|a: int, b: int| 0 <= a < b < courses.drop_first().len() implies (
            #[trigger] courses.drop_first()[a]).id != (#[trigger] courses.drop_first()[b]).id by {
                assert(courses[a + 1].id != courses[b + 1].id);
            }
        }
        lemma_count_flatten(courses.drop_first(), rest, id);
        assert(course_grades.flatten() == first + rest.flatten());
        Seq::filter_distributes_over_add(first, rest.flatten(), of_course(id));
        if courses[0].id == id {
            assert forall|k: int| 0 <= k < first.len() implies of_course(id)(first[k]) by {
                assert(course_grades[0][k].courseid == courses[0].id);
            }
            lemma_filter_all(first, of_course(id));
        } else {
            assert forall|k: int| 0 <= k < first.len() implies !of_course(id)(first[k]) by {
                assert(course_grades[0][k].courseid == courses[0].id);
            }
            lemma_filter_none(first, of_course(id));
        }
    }
}

proof fn lemma_count_for_absent(courses: Seq<Course>, course_grades: Seq<Seq<Grade>>, id: u64)
    requires
        forall|a: int| 0 <= a < courses.len() ==> (#[trigger] courses[a]).id != id,
    ensures
        count_for(courses, course_grades, id) == 0,
    decreases courses.len(),
{
    if courses.len() > 0 && course_grades.len() > 0 {
        assert(courses[0].id != id);
        assert forall|a: int| 0 <= a < courses.drop_first().len() implies (
        #[trigger] courses.drop_first()[a]).id != id by {
            assert(courses[a + 1].id != id);
        }
        lemma_count_for_absent(courses.drop_first(), course_grades.drop_first(), id);
    }
}

proof fn lemma_count_for_course(courses: Seq<Course>, course_grades: Seq<Seq<Grade>>, i: int)
    requires
        grades_per_course(courses, course_grades),
        0 <= i < courses.len(),
    ensures
        count_for(courses, course_grades, courses[i].id) == course_grades[i].len(),
    decreases courses.len(),
{
    let id = courses[i].id;
    let rest_c = courses.drop_first();
    let rest_g = course_grades.drop_first();
    if i == 0 {
        assert forall|a: int| 0 <= a < rest_c.len() implies (#[trigger] rest_c[a]).id != id by {
            assert(courses[0].id != courses[a + 1].id);
        }
        lemma_count_for_absent(rest_c, rest_g, id);
    } else {
        assert(courses[0].id != courses[i].id);
        assert(grades_per_course(rest_c, rest_g)) by {
            assert forall|j: int, k: int|
                0 <= j < rest_c.len() && 0 <= k < rest_g[j].len() implies (#[trigger] rest_g[j][k]).courseid
                == rest_c[j].id by {
                assert(rest_g[j] == course_grades[j + 1]);
                assert(course_grades[j + 1][k].courseid == courses[j + 1].id);
            }
            assert forall|a: int, b: int| 0 <= a < b < rest_c.len() implies (#[trigger] rest_c[a]).id
                != (#[trigger] rest_c[b]).id by {
                assert(courses[a + 1].id != courses[b + 1].id);
            }
        }
        assert(rest_c[i - 1] == courses[i]);
        assert(rest_g[i - 1] == course_grades[i]);
        lemma_count_for_course(rest_c, rest_g, i - 1);
    }
}

/// When the external state has not changed since the last pass wrote its
/// snapshot, the next pass sends nothing and writes nothing: the profile is
/// the same, no course is new, no grade resync is forced and no grade has
/// changed, no overview row has changed, and no deadline is new. The stored
/// grades are the per-course lists as written; the stored overview and
/// deadlines hold the same rows as the external ones, in any order; each
/// course has at least one grade.
pub proof fn lemma_unchanged_state_is_quiet(
    user: User,
    courses: Seq<Course>,
    course_grades: Seq<Seq<Grade>>,
    overview: Seq<GradeOverview>,
    stored_overview: Seq<GradeOverview>,
    course_deadlines: Seq<Seq<Deadline>>,
    stored_deadlines: Seq<Deadline>,
)
    requires
        grades_per_course(courses, course_grades),
        forall|i: int| 0 <= i < courses.len() ==> (#[trigger] course_grades[i]).len() > 0,
        stored_overview.to_multiset() == overview.to_multiset(),
        stored_deadlines.to_multiset() == course_deadlines.flatten().to_multiset(),
    ensures
        user.same_profile(&user),
        new_courses(courses, courses).len() == 0,
        !grade_resync_needed(courses, course_grades.flatten()),
        forall|i: int|
            0 <= i < courses.len() ==> !item_count_differs(#[trigger] course_grades[i], course_grades.flatten())
                && changed_grades(course_grades[i], course_grades.flatten()).len() == 0,
        changed_overview(overview, stored_overview).len() == 0,
        forall|i: int, prepared: Seq<Deadline>|
            0 <= i < course_deadlines.len() && prepared.to_multiset() == (#[trigger] course_deadlines[i]).to_multiset()
                ==> #[trigger] new_deadlines(prepared, stored_deadlines).len() == 0,
{
    let flat = course_grades.flatten();
    // courses
    assert forall|k: int| 0 <= k < courses.len() implies !course_is_new(courses)(courses[k]) by {
        assert(courses[k].id == courses[k].id);
    }
    lemma_filter_none(courses, course_is_new(courses));
    // grades
    assert forall|i: int| 0 <= i < courses.len() implies course_has_grades(flat, #[trigger] courses[i].id) by {
        lemma_flatten_contains(course_grades, i, 0);
        assert(course_grades[i][0].courseid == courses[i].id);
    }
    assert forall|i: int| 0 <= i < courses.len() implies !item_count_differs(#[trigger] course_grades[i], flat)
        && changed_grades(course_grades[i], flat).len() == 0 by {
        let cg = course_grades[i];
        let id = courses[i].id;
        assert forall|k: int| 0 <= k < cg.len() implies of_course(id)(cg[k]) by {
            assert(course_grades[i][k].courseid == courses[i].id);
        }
        lemma_filter_all(cg, of_course(id));
        lemma_count_flatten(courses, course_grades, id);
        lemma_count_for_course(courses, course_grades, i);
        assert forall|a: int, b: int|
            0 <= a < cg.len() && 0 <= b < flat.len() && cg[a].courseid == flat[b].courseid implies count_of(
            cg,
            cg[a].courseid,
        ) == count_of(flat, cg[a].courseid) by {
            assert(course_grades[i][a].courseid == courses[i].id);
        }
        assert forall|k: int| 0 <= k < cg.len() implies !grade_is_changed(flat)(cg[k]) by {
            lemma_flatten_contains(course_grades, i, k);
            let j = choose|j: int| 0 <= j < flat.len() && flat[j] == cg[k];
            assert(same_item(flat[j], cg[k]));
        }
        lemma_filter_none(cg, grade_is_changed(flat));
    }
    // overview
    lemma_same_multiset_same_elements(overview, stored_overview);
    assert forall|k: int| 0 <= k < overview.len() implies !crate::compare::overview_is_changed(stored_overview)(overview[k]) by {
        assert(overview.contains(overview[k]));
        let j = choose|j: int| 0 <= j < stored_overview.len() && stored_overview[j] == overview[k];
        assert(stored_overview[j].courseid == overview[k].courseid);
    }
    lemma_filter_none(overview, crate::compare::overview_is_changed(stored_overview));
    // deadlines
    lemma_same_multiset_same_elements(course_deadlines.flatten(), stored_deadlines);
    assert forall|i: int, prepared: Seq<Deadline>|
        0 <= i < course_deadlines.len() && prepared.to_multiset() == (#[trigger] course_deadlines[i]).to_multiset()
            implies #[trigger] new_deadlines(prepared, stored_deadlines).len() == 0 by {
        lemma_same_multiset_same_elements(prepared, course_deadlines[i]);
        assert forall|k: int| 0 <= k < prepared.len() implies !deadline_is_new(stored_deadlines)(prepared[k]) by {
            assert(prepared.contains(prepared[k]));
            let m = choose|m: int| 0 <= m < course_deadlines[i].len() && course_deadlines[i][m] == prepared[k];
            lemma_flatten_contains(course_deadlines, i, m);
            let j = choose|j: int| 0 <= j < stored_deadlines.len() && stored_deadlines[j] == prepared[k];
            assert(same_deadline(stored_deadlines[j], prepared[k]));
        }
        lemma_filter_none(prepared, deadline_is_new(stored_deadlines));
    }
}

} // verus!
