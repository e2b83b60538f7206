//! Entity store: add, rename and remove operations on categories and
//! students, with cascading updates into every student's lists.

use vstd::prelude::*;
use crate::model::Category;
use crate::model::CategoryView;
use crate::model::FieldError;
use crate::model::Student;
use crate::model::StudentView;
use crate::model::WorkingState;
use crate::model::WorkingStateView;
use crate::model::cap_sum;
use crate::model::cat_names_unique;
use crate::model::cat_views;
use crate::model::contains_cat_named;
use crate::model::contains_cat_value;
use crate::model::contains_student_named;
use crate::model::find_cat_named;
use crate::model::has_cat_named;
use crate::model::has_student_named;
use crate::model::lemma_cap_sum_elem;
use crate::model::lemma_cap_sum_update;
use crate::model::student_names_unique;
use crate::model::student_views;
use crate::model::sum_caps;

verus! {

pub proof fn lemma_contains_push(s: Seq<CategoryView>, c: CategoryView, x: CategoryView)
    requires
        s.contains(x),
    ensures
        s.push(c).contains(x),
{
    let i = choose|i: int| 0 <= i < s.len() && s[i] == x;
    assert(s.push(c)[i] == x);
}

/// A student well formed against a store stays well formed when a fresh
/// category is appended to the store.
pub proof fn lemma_student_wf_push(s: StudentView, cats: Seq<CategoryView>, c: CategoryView)
    requires
        s.wf(cats),
    ensures
        s.wf(cats.push(c)),
{
    assert forall|i: int| 0 <= i < s.preferences.len() implies cats.push(c).contains(
        #[trigger] s.preferences[i],
    ) by {
        lemma_contains_push(cats, c, s.preferences[i]);
    }
    assert forall|i: int| 0 <= i < s.exclude.len() implies cats.push(c).contains(
        #[trigger] s.exclude[i],
    ) by {
        lemma_contains_push(cats, c, s.exclude[i]);
    }
}

/// What `add_category` does: appends a fresh category named `name` with
/// capacity `max`, rejecting a blank name, a zero capacity, a name
/// collision, or a capacity that would push the total of all capacities
/// beyond what the machine can count; a failure leaves the state
/// unchanged, a success discards a stored match result.
pub open spec fn add_category_post(
    pre: WorkingStateView,
    post: WorkingStateView,
    name: Seq<char>,
    max: nat,
    r: Result<(), FieldError>,
) -> bool {
    let blank = name.len() == 0 || max == 0;
    let dup = has_cat_named(pre.categories, name);
    let over = cap_sum(pre.categories) + max > usize::MAX as nat;
    &&& (r is Ok <==> !blank && !dup && !over)
    &&& (blank ==> r == Err::<(), FieldError>(FieldError::EmptyField))
    &&& ((!blank && dup) ==> r == Err::<(), FieldError>(FieldError::DuplicateName))
    &&& ((!blank && !dup && over) ==> r == Err::<(), FieldError>(FieldError::EmptyField))
    &&& (r is Ok ==> post == (WorkingStateView {
        categories: pre.categories.push(CategoryView { name, max_placements: max }),
        result: None,
        ..pre
    }))
    &&& (r is Err ==> post == pre)
}

/// What `add_student` does: appends a fresh student named `name` with no
/// preferences and no exclusions, rejecting a blank name or a name
/// collision; a failure leaves the state unchanged, a success discards a
/// stored match result.
pub open spec fn add_student_post(
    pre: WorkingStateView,
    post: WorkingStateView,
    name: Seq<char>,
    r: Result<(), FieldError>,
) -> bool {
    &&& (r is Ok <==> name.len() > 0 && !has_student_named(pre.students, name))
    &&& (name.len() == 0 ==> r == Err::<(), FieldError>(FieldError::EmptyField))
    &&& ((name.len() > 0 && has_student_named(pre.students, name)) ==> r == Err::<(), FieldError>(FieldError::DuplicateName))
    &&& (r is Ok ==> post == (WorkingStateView {
        students: pre.students.push(
            StudentView { name, preferences: Seq::empty(), exclude: Seq::empty() },
        ),
        result: None,
        ..pre
    }))
    &&& (r is Err ==> post == pre)
}

/// Capacity argument of a rename, as a mathematical value.
pub open spec fn opt_nat(m: Option<usize>) -> Option<nat> {
    match m {
        Some(x) => Some(x as nat),
        None => None,
    }
}

/// One reference rewritten by a category rename: an entry carrying
/// `old_name` takes the new name, and the new capacity when one is given;
/// every other entry is untouched.
pub open spec fn rewrite_entry(
    c: CategoryView,
    old_name: Seq<char>,
    new_name: Seq<char>,
    new_max: Option<nat>,
) -> CategoryView {
    if c.name == old_name {
        CategoryView {
            name: new_name,
            max_placements: match new_max {
                Some(m) => m,
                None => c.max_placements,
            },
        }
    } else {
        c
    }
}

/// A student after a category rename cascades through both lists.
pub open spec fn rewrite_student(
    s: StudentView,
    old_name: Seq<char>,
    new_name: Seq<char>,
    new_max: Option<nat>,
) -> StudentView {
    StudentView {
        name: s.name,
        preferences: s.preferences.map_values(
            |c: CategoryView| rewrite_entry(c, old_name, new_name, new_max),
        ),
        exclude: s.exclude.map_values(
            |c: CategoryView| rewrite_entry(c, old_name, new_name, new_max),
        ),
    }
}

/// A rename is blank when the new name is empty or the new capacity is
/// zero.
pub open spec fn rename_blank(new_name: Seq<char>, new_max: Option<nat>) -> bool {
    new_name.len() == 0 || (new_max matches Some(m) && m == 0)
}

/// What `rename_category` does: rewrites the category carrying `old_name`
/// to the new name and capacity and cascades the rewrite into every
/// student's lists, rejecting a blank rename, a collision with another
/// existing name, or a new capacity that would push the total of all
/// capacities beyond what the machine can count; a missing `old_name` is
/// a silent no-op that leaves everything, the stored assignment
/// included, untouched.
pub open spec fn rename_category_post(
    pre: WorkingStateView,
    post: WorkingStateView,
    old_name: Seq<char>,
    new_name: Seq<char>,
    new_max: Option<nat>,
    r: Result<(), FieldError>,
) -> bool {
    let blank = rename_blank(new_name, new_max);
    let collide = new_name != old_name && has_cat_named(pre.categories, new_name);
    let mapped = pre.categories.map_values(
        |c: CategoryView| rewrite_entry(c, old_name, new_name, new_max),
    );
    let over = cap_sum(mapped) > usize::MAX as nat;
    &&& (r is Ok <==> !blank && !collide && !over)
    &&& (blank ==> r == Err::<(), FieldError>(FieldError::EmptyField))
    &&& ((!blank && collide) ==> r == Err::<(), FieldError>(FieldError::DuplicateName))
    &&& ((!blank && !collide && over) ==> r == Err::<(), FieldError>(FieldError::EmptyField))
    &&& (r is Err ==> post == pre)
    &&& ((r is Ok && has_cat_named(pre.categories, old_name)) ==> post == (WorkingStateView {
        categories: mapped,
        students: pre.students.map_values(
            |s: StudentView| rewrite_student(s, old_name, new_name, new_max),
        ),
        multi_match_mode: pre.multi_match_mode,
        result: None,
    }))
    &&& ((r is Ok && !has_cat_named(pre.categories, old_name)) ==> post == pre)
}

/// A student after a student rename.
pub open spec fn rename_student_view(s: StudentView, old_name: Seq<char>, new_name: Seq<char>) -> StudentView {
    if s.name == old_name {
        StudentView { name: new_name, ..s }
    } else {
        s
    }
}

/// What `rename_student` does: gives the student carrying `old_name` the
/// new name, rejecting a blank name or a collision with another existing
/// student; a missing `old_name` is a silent no-op that leaves
/// everything, the stored assignment included, untouched.
pub open spec fn rename_student_post(
    pre: WorkingStateView,
    post: WorkingStateView,
    old_name: Seq<char>,
    new_name: Seq<char>,
    r: Result<(), FieldError>,
) -> bool {
    &&& (r is Ok <==> new_name.len() > 0 && !(new_name != old_name && has_student_named(
        pre.students,
        new_name,
    )))
    &&& (new_name.len() == 0 ==> r == Err::<(), FieldError>(FieldError::EmptyField))
    &&& ((new_name.len() > 0 && new_name != old_name && has_student_named(
        pre.students,
        new_name,
    )) ==> r == Err::<(), FieldError>(FieldError::DuplicateName))
    &&& (r is Err ==> post == pre)
    &&& ((r is Ok && has_student_named(pre.students, old_name)) ==> post == (WorkingStateView {
        students: pre.students.map_values(
            |s: StudentView| rename_student_view(s, old_name, new_name),
        ),
        result: None,
        ..pre
    }))
    &&& ((r is Ok && !has_student_named(pre.students, old_name)) ==> post == pre)
}

/// When `k` is the only category carrying `on`, the rewritten store's
/// total trades exactly that category's capacity for the new one.
proof fn lemma_rename_cap_sum(
    cats: Seq<CategoryView>,
    k: int,
    on: Seq<char>,
    nn: Seq<char>,
    nm: Option<nat>,
)
    requires
        cat_names_unique(cats),
        0 <= k < cats.len(),
        cats[k].name == on,
    ensures
        ({
            let mapped = cats.map_values(|c: CategoryView| rewrite_entry(c, on, nn, nm));
            cap_sum(mapped) + cats[k].max_placements == cap_sum(cats) + (match nm {
                Some(m) => m,
                None => cats[k].max_placements,
            })
        }),
{
    let mapped = cats.map_values(|c: CategoryView| rewrite_entry(c, on, nn, nm));
    let rw = rewrite_entry(cats[k], on, nn, nm);
    assert forall|i: int| 0 <= i < cats.len() && i != k implies (#[trigger] cats[i]).name
        != on by {
        if i < k {
            assert(cats[i].name != cats[k].name);
        } else {
            assert(cats[k].name != cats[i].name);
        }
    }
    assert(mapped =~= cats.update(k, rw));
    lemma_cap_sum_update(cats, k, rw);
}

proof fn lemma_no_cat_named(cats: Seq<CategoryView>, name: Seq<char>)
    requires
        !has_cat_named(cats, name),
    ensures
        forall|k: int| 0 <= k < cats.len() ==> (#[trigger] cats[k]).name != name,
{
}

/// A category rename that passes its guards preserves the invariant.
proof fn lemma_rename_category_wf(
    pre: WorkingStateView,
    post: WorkingStateView,
    on: Seq<char>,
    nn: Seq<char>,
    nm: Option<nat>,
)
    requires
        pre.wf(),
        nn.len() > 0,
        nm matches Some(m) ==> m > 0,
        nn == on || !has_cat_named(pre.categories, nn),
        post.categories == pre.categories.map_values(
            |c: CategoryView| rewrite_entry(c, on, nn, nm),
        ),
        post.students == pre.students.map_values(
            |s: StudentView| rewrite_student(s, on, nn, nm),
        ),
    ensures
        cat_names_unique(post.categories),
        forall|i: int| 0 <= i < post.categories.len()
            ==> (#[trigger] post.categories[i]).name.len() > 0
                && post.categories[i].max_placements > 0,
        student_names_unique(post.students),
        forall|i: int| 0 <= i < post.students.len()
            ==> (#[trigger] post.students[i]).wf(post.categories),
{
    let cats = pre.categories;
    let cats2 = post.categories;
    if nn != on {
        lemma_no_cat_named(cats, nn);
    }
    assert forall|i: int, j: int| #![trigger cats2[i], cats2[j]]
        0 <= i < j < cats2.len() implies cats2[i].name != cats2[j].name by {
        assert(cats2[i] == rewrite_entry(cats[i], on, nn, nm));
        assert(cats2[j] == rewrite_entry(cats[j], on, nn, nm));
    }
    assert forall|i: int| 0 <= i < cats2.len() implies (#[trigger] cats2[i]).name.len() > 0
        && cats2[i].max_placements > 0 by {
        assert(cats2[i] == rewrite_entry(cats[i], on, nn, nm));
    }
    assert forall|i: int, j: int| #![trigger post.students[i], post.students[j]]
        0 <= i < j < post.students.len() implies post.students[i].name
        != post.students[j].name by {
        assert(post.students[i] == rewrite_student(pre.students[i], on, nn, nm));
        assert(post.students[j] == rewrite_student(pre.students[j], on, nn, nm));
    }
    assert forall|i: int| 0 <= i < post.students.len() implies (
    #[trigger] post.students[i]).wf(cats2) by {
        let s = pre.students[i];
        let s2 = post.students[i];
        assert(s2 == rewrite_student(s, on, nn, nm));
        assert(s.wf(cats));
        // every rewritten entry still refers to a store category
        assert forall|k: int| 0 <= k < s2.preferences.len() implies cats2.contains(
            #[trigger] s2.preferences[k],
        ) by {
            assert(s2.preferences[k] == rewrite_entry(s.preferences[k], on, nn, nm));
            assert(cats.contains(s.preferences[k]));
            let w = choose|w: int| 0 <= w < cats.len() && cats[w] == s.preferences[k];
            assert(cats2[w] == rewrite_entry(cats[w], on, nn, nm));
            assert(cats2[w] == s2.preferences[k]);
        }
        assert forall|k: int| 0 <= k < s2.exclude.len() implies cats2.contains(
            #[trigger] s2.exclude[k],
        ) by {
            assert(s2.exclude[k] == rewrite_entry(s.exclude[k], on, nn, nm));
            assert(cats.contains(s.exclude[k]));
            let w = choose|w: int| 0 <= w < cats.len() && cats[w] == s.exclude[k];
            assert(cats2[w] == rewrite_entry(cats[w], on, nn, nm));
            assert(cats2[w] == s2.exclude[k]);
        }
        // entry names: an entry not carrying `on` keeps a name that can
        // collide neither with `nn` nor with another kept name
        assert forall|k: int| 0 <= k < s.preferences.len() && s.preferences[k].name != on
            implies (#[trigger] s.preferences[k]).name != nn by {
            if nn != on {
                let w = choose|w: int| 0 <= w < cats.len() && cats[w] == s.preferences[k];
                assert(cats.contains(s.preferences[k]));
            }
        }
        assert forall|k: int| 0 <= k < s.exclude.len() && s.exclude[k].name != on implies (
        #[trigger] s.exclude[k]).name != nn by {
            if nn != on {
                let w = choose|w: int| 0 <= w < cats.len() && cats[w] == s.exclude[k];
                assert(cats.contains(s.exclude[k]));
            }
        }
        assert forall|k: int, l: int| #![trigger s2.preferences[k], s2.preferences[l]]
            0 <= k < l < s2.preferences.len() implies s2.preferences[k].name
            != s2.preferences[l].name by {
            assert(s2.preferences[k] == rewrite_entry(s.preferences[k], on, nn, nm));
            assert(s2.preferences[l] == rewrite_entry(s.preferences[l], on, nn, nm));
        }
        assert forall|k: int, l: int| #![trigger s2.exclude[k], s2.exclude[l]]
            0 <= k < l < s2.exclude.len() implies s2.exclude[k].name != s2.exclude[l].name by {
            assert(s2.exclude[k] == rewrite_entry(s.exclude[k], on, nn, nm));
            assert(s2.exclude[l] == rewrite_entry(s.exclude[l], on, nn, nm));
        }
        assert forall|k: int, l: int| #![trigger s2.preferences[k], s2.exclude[l]]
            0 <= k < s2.preferences.len() && 0 <= l < s2.exclude.len() implies
            s2.preferences[k].name != s2.exclude[l].name by {
            assert(s2.preferences[k] == rewrite_entry(s.preferences[k], on, nn, nm));
            assert(s2.exclude[l] == rewrite_entry(s.exclude[l], on, nn, nm));
        }
    }
}

/// Rebuild one reference list under a category rename.
fn rewrite_entries(
    entries: &Vec<Category>,
    old_name: &String,
    new_name: &String,
    new_max: Option<usize>,
) -> (r: Vec<Category>)
    ensures
        cat_views(r@) == cat_views(entries@).map_values(
            |c: CategoryView| rewrite_entry(c, old_name@, new_name@, opt_nat(new_max)),
        ),
{
    let mut out: Vec<Category> = Vec::new();
    let mut i: usize = 0;
    while i < entries.len()
        invariant
            i <= entries.len(),
            out@.len() == i,
            forall|k: int| 0 <= k < i ==> (#[trigger] out@[k])@ == rewrite_entry(
                entries@[k]@,
                old_name@,
                new_name@,
                opt_nat(new_max),
            ),
        decreases entries.len() - i,
    {
        if entries[i].name == *old_name {
            let m = match new_max {
                Some(mm) => mm,
                None => entries[i].max_placements,
            };
            out.push(Category { name: new_name.clone(), max_placements: m });
        } else {
            out.push(entries[i].clone());
        }
        i = i + 1;
    }
    proof {
        assert(cat_views(out@) =~= cat_views(entries@).map_values(
            |c: CategoryView| rewrite_entry(c, old_name@, new_name@, opt_nat(new_max)),
        ));
    }
    out
}

/// A reference list with every entry value-equal to `c` removed.
pub open spec fn remove_cat_entries(s: Seq<CategoryView>, c: CategoryView) -> Seq<CategoryView>
    decreases s.len(),
{
    if s.len() == 0 {
        Seq::empty()
    } else {
        let rest = remove_cat_entries(s.drop_last(), c);
        if s.last() == c {
            rest
        } else {
            rest.push(s.last())
        }
    }
}

/// A student list with every student carrying `name` removed.
pub open spec fn remove_students_named(ss: Seq<StudentView>, name: Seq<char>) -> Seq<StudentView>
    decreases ss.len(),
{
    if ss.len() == 0 {
        Seq::empty()
    } else {
        let rest = remove_students_named(ss.drop_last(), name);
        if ss.last().name == name {
            rest
        } else {
            rest.push(ss.last())
        }
    }
}

/// Removal keeps exactly the entries that differ from `c`, and keeps
/// name uniqueness.
pub proof fn lemma_remove_cat_entries(s: Seq<CategoryView>, c: CategoryView)
    ensures
        forall|x: CategoryView| #[trigger] remove_cat_entries(s, c).contains(x) ==> s.contains(x)
            && x != c,
        forall|x: CategoryView| s.contains(x) && x != c ==> #[trigger] remove_cat_entries(
            s,
            c,
        ).contains(x),
        cat_names_unique(s) ==> cat_names_unique(remove_cat_entries(s, c)),
    decreases s.len(),
{
    let r = remove_cat_entries(s, c);
    if s.len() == 0 {
    } else {
        let dl = s.drop_last();
        let l = s.last();
        lemma_remove_cat_entries(dl, c);
        let rr = remove_cat_entries(dl, c);
        assert forall|x: CategoryView| s.contains(x) implies dl.contains(x) || x == l by {
            let i = choose|i: int| 0 <= i < s.len() && s[i] == x;
            if i < s.len() - 1 {
                assert(dl[i] == x);
            }
        }
        assert forall|x: CategoryView| dl.contains(x) implies s.contains(x) by {
            let i = choose|i: int| 0 <= i < dl.len() && dl[i] == x;
            assert(s[i] == x);
        }
        assert(s[s.len() - 1] == l);
        assert(s.contains(l));
        if cat_names_unique(s) {
            assert forall|i: int, j: int| #![trigger dl[i], dl[j]]
                0 <= i < j < dl.len() implies dl[i].name != dl[j].name by {
                assert(dl[i] == s[i]);
                assert(dl[j] == s[j]);
            }
        }
        if l == c {
        } else {
            assert forall|x: CategoryView| #[trigger] r.contains(x) implies rr.contains(x) || x
                == l by {
                let i = choose|i: int| 0 <= i < r.len() && r[i] == x;
                if i < r.len() - 1 {
                    assert(rr[i] == x);
                }
            }
            assert forall|x: CategoryView| rr.contains(x) implies r.contains(x) by {
                let i = choose|i: int| 0 <= i < rr.len() && rr[i] == x;
                assert(r[i] == x);
            }
            assert(r[r.len() - 1] == l);
            assert(r.contains(l));
            if cat_names_unique(s) {
                assert forall|i: int, j: int| #![trigger r[i], r[j]]
                    0 <= i < j < r.len() implies r[i].name != r[j].name by {
                    if j < r.len() - 1 {
                        assert(rr[i] == r[i]);
                        assert(rr[j] == r[j]);
                    } else {
                        assert(rr[i] == r[i]);
                        assert(rr.contains(rr[i]));
                        assert(dl.contains(r[i]));
                        let w = choose|w: int| 0 <= w < dl.len() && dl[w] == r[i];
                        assert(s[w] == r[i]);
                        assert(s[w].name != s[s.len() - 1].name);
                    }
                }
            }
        }
    }
}

/// Removal keeps exactly the students not carrying `name`, and keeps
/// name uniqueness.
pub proof fn lemma_remove_students_named(ss: Seq<StudentView>, name: Seq<char>)
    ensures
        forall|x: StudentView| #[trigger] remove_students_named(ss, name).contains(x)
            ==> ss.contains(x) && x.name != name,
        student_names_unique(ss) ==> student_names_unique(remove_students_named(ss, name)),
        !has_student_named(remove_students_named(ss, name), name),
    decreases ss.len(),
{
    let r = remove_students_named(ss, name);
    if ss.len() == 0 {
        assert forall|k: int| 0 <= k < r.len() implies (#[trigger] r[k]).name != name by {}
    } else {
        let dl = ss.drop_last();
        let l = ss.last();
        lemma_remove_students_named(dl, name);
        let rr = remove_students_named(dl, name);
        assert forall|x: StudentView| dl.contains(x) implies ss.contains(x) by {
            let i = choose|i: int| 0 <= i < dl.len() && dl[i] == x;
            assert(ss[i] == x);
        }
        assert(ss[ss.len() - 1] == l);
        assert(ss.contains(l));
        if student_names_unique(ss) {
            assert forall|i: int, j: int| #![trigger dl[i], dl[j]]
                0 <= i < j < dl.len() implies dl[i].name != dl[j].name by {
                assert(dl[i] == ss[i]);
                assert(dl[j] == ss[j]);
            }
        }
        if l.name == name {
        } else {
            assert forall|x: StudentView| #[trigger] r.contains(x) implies rr.contains(x) || x
                == l by {
                let i = choose|i: int| 0 <= i < r.len() && r[i] == x;
                if i < r.len() - 1 {
                    assert(rr[i] == x);
                }
            }
            assert forall|x: StudentView| rr.contains(x) implies r.contains(x) by {
                let i = choose|i: int| 0 <= i < rr.len() && rr[i] == x;
                assert(r[i] == x);
            }
            assert(r[r.len() - 1] == l);
            assert(r.contains(l));
            if student_names_unique(ss) {
                assert forall|i: int, j: int| #![trigger r[i], r[j]]
                    0 <= i < j < r.len() implies r[i].name != r[j].name by {
                    if j < r.len() - 1 {
                        assert(rr[i] == r[i]);
                        assert(rr[j] == r[j]);
                    } else {
                        assert(rr[i] == r[i]);
                        assert(rr.contains(rr[i]));
                        assert(dl.contains(r[i]));
                        let w = choose|w: int| 0 <= w < dl.len() && dl[w] == r[i];
                        assert(ss[w] == r[i]);
                        assert(ss[w].name != ss[ss.len() - 1].name);
                    }
                }
            }
            assert forall|k: int| 0 <= k < r.len() implies (#[trigger] r[k]).name != name by {
                assert(r.contains(r[k]));
            }
        }
    }
}

/// Removing entries never grows the capacity total.
pub proof fn lemma_cap_sum_remove_le(s: Seq<CategoryView>, c: CategoryView)
    ensures
        cap_sum(remove_cat_entries(s, c)) <= cap_sum(s),
    decreases s.len(),
{
    if s.len() == 0 {
    } else {
        let dl = s.drop_last();
        let l = s.last();
        lemma_cap_sum_remove_le(dl, c);
        let rr = remove_cat_entries(dl, c);
        if l == c {
        } else {
            assert(remove_cat_entries(s, c).drop_last() =~= rr);
            assert(remove_cat_entries(s, c).last() == l);
        }
    }
}

/// A student whose lists lost every entry value-equal to `c` is well
/// formed against the store that lost `c`.
proof fn lemma_remove_entry_student_wf(s: StudentView, cats: Seq<CategoryView>, c: CategoryView)
    requires
        s.wf(cats),
    ensures
        (StudentView {
            name: s.name,
            preferences: remove_cat_entries(s.preferences, c),
            exclude: remove_cat_entries(s.exclude, c),
        }).wf(remove_cat_entries(cats, c)),
{
    lemma_remove_cat_entries(s.preferences, c);
    lemma_remove_cat_entries(s.exclude, c);
    lemma_remove_cat_entries(cats, c);
    let p2 = remove_cat_entries(s.preferences, c);
    let e2 = remove_cat_entries(s.exclude, c);
    let cats2 = remove_cat_entries(cats, c);
    assert forall|i: int| 0 <= i < p2.len() implies cats2.contains(#[trigger] p2[i]) by {
        assert(p2.contains(p2[i]));
        assert(s.preferences.contains(p2[i]));
        let w = choose|w: int| 0 <= w < s.preferences.len() && s.preferences[w] == p2[i];
        assert(cats.contains(s.preferences[w]));
    }
    assert forall|i: int| 0 <= i < e2.len() implies cats2.contains(#[trigger] e2[i]) by {
        assert(e2.contains(e2[i]));
        assert(s.exclude.contains(e2[i]));
        let w = choose|w: int| 0 <= w < s.exclude.len() && s.exclude[w] == e2[i];
        assert(cats.contains(s.exclude[w]));
    }
    assert forall|k: int, l: int| #![trigger p2[k], e2[l]]
        0 <= k < p2.len() && 0 <= l < e2.len() implies p2[k].name != e2[l].name by {
        assert(p2.contains(p2[k]));
        assert(e2.contains(e2[l]));
        let k0 = choose|w: int| 0 <= w < s.preferences.len() && s.preferences[w] == p2[k];
        let l0 = choose|w: int| 0 <= w < s.exclude.len() && s.exclude[w] == e2[l];
        assert(s.preferences[k0].name != s.exclude[l0].name);
    }
}

/// What `remove_category` does: removes every store entry and every
/// student-list entry value-equal to `category`, so that afterwards no
/// list contains it.  Removing something discards a stored match
/// result; a value the store never held leaves everything, the stored
/// assignment included, untouched.
pub open spec fn remove_category_post(
    pre: WorkingStateView,
    post: WorkingStateView,
    c: CategoryView,
) -> bool {
    &&& (pre.categories.contains(c) ==> {
        &&& post.categories == remove_cat_entries(pre.categories, c)
        &&& post.students.len() == pre.students.len()
        &&& forall|i: int| 0 <= i < pre.students.len() ==> (#[trigger] post.students[i])
            == (StudentView {
            name: pre.students[i].name,
            preferences: remove_cat_entries(pre.students[i].preferences, c),
            exclude: remove_cat_entries(pre.students[i].exclude, c),
        })
        &&& post.multi_match_mode == pre.multi_match_mode
        &&& post.result is None
    })
    &&& (!pre.categories.contains(c) ==> post == pre)
    &&& !post.categories.contains(c)
    &&& forall|i: int| 0 <= i < post.students.len() ==> !(#[trigger] post.students[i]).preferences.contains(c)
        && !post.students[i].exclude.contains(c)
}

/// What `remove_student` does: removes the student carrying `name`, and
/// only that student.  Removing someone discards a stored match result;
/// a name the roster never held leaves everything, the stored
/// assignment included, untouched.
pub open spec fn remove_student_post(
    pre: WorkingStateView,
    post: WorkingStateView,
    name: Seq<char>,
) -> bool {
    &&& (has_student_named(pre.students, name) ==> {
        &&& post.students == remove_students_named(pre.students, name)
        &&& post.categories == pre.categories
        &&& post.multi_match_mode == pre.multi_match_mode
        &&& post.result is None
    })
    &&& (!has_student_named(pre.students, name) ==> post == pre)
    &&& !has_student_named(post.students, name)
}

/// Rebuild one reference list without the entries value-equal to `c`.
#[verifier::loop_isolation(false)]
fn remove_entries(entries: &Vec<Category>, c: &Category) -> (r: Vec<Category>)
    ensures
        cat_views(r@) == remove_cat_entries(cat_views(entries@), c@),
{
    let ghost full = cat_views(entries@);
    let mut out: Vec<Category> = Vec::new();
    let mut i: usize = 0;
    while i < entries.len()
        invariant
            i <= entries.len(),
            cat_views(out@) == remove_cat_entries(full.take(i as int), c@),
        decreases entries.len() - i,
    {
        let ghost prev = cat_views(out@);
        let same = entries[i].name == c.name && entries[i].max_placements == c.max_placements;
        if !same {
            out.push(entries[i].clone());
        }
        proof {
            assert(full.take(i + 1).drop_last() =~= full.take(i as int));
            assert(full.take(i + 1).last() == entries@[i as int]@);
            assert(same <==> entries@[i as int]@ == c@);
            if !same {
                assert(cat_views(out@) =~= prev.push(entries@[i as int]@));
            }
        }
        i = i + 1;
    }
    proof {
        assert(full.take(entries@.len() as int) =~= full);
    }
    out
}

impl WorkingState {
    /// Remove a category from the store and from every student's lists,
    /// matching by value equality.
    #[verifier::loop_isolation(false)]
    pub fn remove_category(&mut self, category: &Category)
        requires
            old(self)@.wf(),
        ensures
            final(self)@.wf(),
            remove_category_post(old(self)@, final(self)@, category@),
    {
        let ghost pre = self@;
        if !contains_cat_value(&self.categories, category) {
            proof {
                // nothing is value-equal to the argument anywhere: the
                // store lacks it, and every list entry mirrors the store
                assert forall|i: int| 0 <= i < self@.students.len() implies !(
                #[trigger] self@.students[i]).preferences.contains(category@)
                    && !self@.students[i].exclude.contains(category@) by {
                    let sv = self@.students[i];
                    assert(sv.wf(self@.categories));
                    if sv.preferences.contains(category@) {
                        let w = choose|w: int|
                            0 <= w < sv.preferences.len() && sv.preferences[w] == category@;
                        assert(self@.categories.contains(sv.preferences[w]));
                    }
                    if sv.exclude.contains(category@) {
                        let w = choose|w: int|
                            0 <= w < sv.exclude.len() && sv.exclude[w] == category@;
                        assert(self@.categories.contains(sv.exclude[w]));
                    }
                }
            }
            return ;
        }
        self.categories = remove_entries(&self.categories, category);
        let mut new_students: Vec<Student> = Vec::new();
        let mut si: usize = 0;
        while si < self.students.len()
            invariant
                si <= self.students.len(),
                new_students@.len() == si,
                self.students@ == old(self).students@,
                forall|k: int| 0 <= k < si ==> (#[trigger] new_students@[k])@ == (StudentView {
                    name: pre.students[k].name,
                    preferences: remove_cat_entries(pre.students[k].preferences, category@),
                    exclude: remove_cat_entries(pre.students[k].exclude, category@),
                }),
            decreases self.students.len() - si,
        {
            let np = remove_entries(&self.students[si].preferences, category);
            let ne = remove_entries(&self.students[si].exclude, category);
            let name = self.students[si].name.clone();
            new_students.push(Student { name, preferences: np, exclude: ne });
            proof {
                assert(new_students@[si as int]@ =~~= (StudentView {
                    name: pre.students[si as int].name,
                    preferences: remove_cat_entries(pre.students[si as int].preferences, category@),
                    exclude: remove_cat_entries(pre.students[si as int].exclude, category@),
                }));
            }
            si = si + 1;
        }
        self.students = new_students;
        self.result = None;
        proof {
            let c = category@;
            lemma_remove_cat_entries(pre.categories, c);
            lemma_cap_sum_remove_le(pre.categories, c);
            assert forall|i: int, j: int| #![trigger self@.categories[i], self@.categories[j]]
                0 <= i < j < self@.categories.len() implies self@.categories[i].name
                != self@.categories[j].name by {}
            assert forall|i: int| 0 <= i < self@.categories.len() implies (
            #[trigger] self@.categories[i]).name.len() > 0
                && self@.categories[i].max_placements > 0 by {
                assert(self@.categories.contains(self@.categories[i]));
                assert(pre.categories.contains(self@.categories[i]));
                let w = choose|w: int|
                    0 <= w < pre.categories.len() && pre.categories[w] == self@.categories[i];
                assert(pre.categories[w].name.len() > 0 && pre.categories[w].max_placements > 0);
            }
            assert forall|i: int, j: int| #![trigger self@.students[i], self@.students[j]]
                0 <= i < j < self@.students.len() implies self@.students[i].name
                != self@.students[j].name by {
                assert(pre.students[i].name != pre.students[j].name);
            }
            assert forall|i: int| 0 <= i < self@.students.len() implies (
            #[trigger] self@.students[i]).wf(self@.categories) by {
                lemma_remove_entry_student_wf(pre.students[i], pre.categories, c);
            }
            assert forall|i: int| 0 <= i < self@.students.len() implies !(
            #[trigger] self@.students[i]).preferences.contains(c)
                && !self@.students[i].exclude.contains(c) by {
                lemma_remove_cat_entries(pre.students[i].preferences, c);
                lemma_remove_cat_entries(pre.students[i].exclude, c);
            }
        }
    }

    /// Remove the student carrying `name`, leaving everything else in
    /// place.
    #[verifier::loop_isolation(false)]
    pub fn remove_student(&mut self, name: &String)
        requires
            old(self)@.wf(),
        ensures
            final(self)@.wf(),
            remove_student_post(old(self)@, final(self)@, name@),
    {
        let ghost pre = self@;
        if !contains_student_named(&self.students, name) {
            return ;
        }
        let mut new_students: Vec<Student> = Vec::new();
        let mut si: usize = 0;
        while si < self.students.len()
            invariant
                si <= self.students.len(),
                self.students@ == old(self).students@,
                student_views(new_students@) == remove_students_named(
                    pre.students.take(si as int),
                    name@,
                ),
            decreases self.students.len() - si,
        {
            let ghost prev = student_views(new_students@);
            let keep = !(self.students[si].name == *name);
            if keep {
                let s = self.students[si].clone();
                new_students.push(s);
            }
            proof {
                assert(pre.students.take(si + 1).drop_last() =~= pre.students.take(si as int));
                assert(pre.students.take(si + 1).last() == pre.students[si as int]);
                assert(pre.students[si as int] == self.students@[si as int]@);
                assert(keep <==> pre.students[si as int].name != name@);
                if keep {
                    assert(student_views(new_students@) =~= prev.push(pre.students[si as int]));
                }
            }
            si = si + 1;
        }
        self.students = new_students;
        self.result = None;
        proof {
            assert(pre.students.take(pre.students.len() as int) =~= pre.students);
            lemma_remove_students_named(pre.students, name@);
            assert forall|i: int| 0 <= i < self@.students.len() implies (
            #[trigger] self@.students[i]).wf(self@.categories) by {
                assert(self@.students.contains(self@.students[i]));
                assert(pre.students.contains(self@.students[i]));
                let w = choose|w: int|
                    0 <= w < pre.students.len() && pre.students[w] == self@.students[i];
                assert(pre.students[w].wf(pre.categories));
            }
        }
    }

    /// Rename the category carrying `old_name`, optionally changing its
    /// capacity, and rewrite every matching reference in every student's
    /// lists.
    #[verifier::loop_isolation(false)]
    pub fn rename_category(
        &mut self,
        old_name: &String,
        new_name: &String,
        new_max_placements: Option<usize>,
    ) -> (r: Result<(), FieldError>)
        requires
            old(self)@.wf(),
        ensures
            final(self)@.wf(),
            rename_category_post(
                old(self)@,
                final(self)@,
                old_name@,
                new_name@,
                opt_nat(new_max_placements),
                r,
            ),
    {
        let ghost pre = self@;
        let zero_cap = match new_max_placements {
            Some(m) => m == 0,
            None => false,
        };
        if new_name.as_str().is_empty() || zero_cap {
            return Err(FieldError::EmptyField);
        }
        let same = *new_name == *old_name;
        if !same && contains_cat_named(&self.categories, new_name) {
            return Err(FieldError::DuplicateName);
        }
        let found = find_cat_named(&self.categories, old_name);
        let k = match found {
            Some(k) => k,
            None => {
                proof {
                    // no category carries the old name, so the rewrite
                    // would touch nothing; leave the state alone
                    lemma_no_cat_named(pre.categories, old_name@);
                    let nm = opt_nat(new_max_placements);
                    let mapped = pre.categories.map_values(
                        |c: CategoryView| rewrite_entry(c, old_name@, new_name@, nm),
                    );
                    assert(mapped =~= pre.categories);
                }
                return Ok(());
            },
        };
        proof {
            assert(pre.categories[k as int].name == old_name@);
            assert(has_cat_named(pre.categories, old_name@));
        }
        if let Some(m) = new_max_placements {
            let total = sum_caps(&self.categories);
            proof {
                lemma_cap_sum_elem(pre.categories, k as int);
            }
            let rest = total - self.categories[k].max_placements;
            proof {
                lemma_rename_cap_sum(
                    pre.categories,
                    k as int,
                    old_name@,
                    new_name@,
                    opt_nat(new_max_placements),
                );
            }
            if m > usize::MAX - rest {
                return Err(FieldError::EmptyField);
            }
        } else {
            proof {
                lemma_rename_cap_sum(
                    pre.categories,
                    k as int,
                    old_name@,
                    new_name@,
                    opt_nat(new_max_placements),
                );
            }
        }
        self.categories = rewrite_entries(&self.categories, old_name, new_name, new_max_placements);
        let mut new_students: Vec<Student> = Vec::new();
        let mut si: usize = 0;
        while si < self.students.len()
            invariant
                si <= self.students.len(),
                new_students@.len() == si,
                self.students@ == old(self).students@,
                forall|k: int| 0 <= k < si ==> (#[trigger] new_students@[k])@ == rewrite_student(
                    pre.students[k],
                    old_name@,
                    new_name@,
                    opt_nat(new_max_placements),
                ),
            decreases self.students.len() - si,
        {
            let np = rewrite_entries(
                &self.students[si].preferences,
                old_name,
                new_name,
                new_max_placements,
            );
            let ne = rewrite_entries(
                &self.students[si].exclude,
                old_name,
                new_name,
                new_max_placements,
            );
            let name = self.students[si].name.clone();
            new_students.push(Student { name, preferences: np, exclude: ne });
            proof {
                assert(new_students@[si as int]@ =~~= rewrite_student(
                    pre.students[si as int],
                    old_name@,
                    new_name@,
                    opt_nat(new_max_placements),
                ));
            }
            si = si + 1;
        }
        self.students = new_students;
        self.result = None;
        proof {
            let nm = opt_nat(new_max_placements);
            assert(self@.categories == pre.categories.map_values(
                |c: CategoryView| rewrite_entry(c, old_name@, new_name@, nm),
            ));
            assert(self@.students =~= pre.students.map_values(
                |s: StudentView| rewrite_student(s, old_name@, new_name@, nm),
            ));
            lemma_rename_category_wf(pre, self@, old_name@, new_name@, nm);
            assert(self@ =~= (WorkingStateView {
                categories: pre.categories.map_values(
                    |c: CategoryView| rewrite_entry(c, old_name@, new_name@, nm),
                ),
                students: pre.students.map_values(
                    |s: StudentView| rewrite_student(s, old_name@, new_name@, nm),
                ),
                multi_match_mode: pre.multi_match_mode,
                result: None,
            }));
        }
        Ok(())
    }

    /// Rename the student carrying `old_name`.
    #[verifier::loop_isolation(false)]
    pub fn rename_student(&mut self, old_name: &String, new_name: &String) -> (r: Result<
        (),
        FieldError,
    >)
        requires
            old(self)@.wf(),
        ensures
            final(self)@.wf(),
            rename_student_post(old(self)@, final(self)@, old_name@, new_name@, r),
    {
        let ghost pre = self@;
        if new_name.as_str().is_empty() {
            return Err(FieldError::EmptyField);
        }
        let same = *new_name == *old_name;
        if !same && contains_student_named(&self.students, new_name) {
            return Err(FieldError::DuplicateName);
        }
        if !contains_student_named(&self.students, old_name) {
            return Ok(());
        }
        let mut new_students: Vec<Student> = Vec::new();
        let mut si: usize = 0;
        while si < self.students.len()
            invariant
                si <= self.students.len(),
                new_students@.len() == si,
                self.students@ == old(self).students@,
                forall|k: int| 0 <= k < si ==> (#[trigger] new_students@[k])@
                    == rename_student_view(pre.students[k], old_name@, new_name@),
            decreases self.students.len() - si,
        {
            let mut s = self.students[si].clone();
            proof {
                assert(self.students@[si as int]@ == pre.students[si as int]);
                assert(s@ == pre.students[si as int]);
            }
            if s.name == *old_name {
                s.name = new_name.clone();
                proof {
                    assert(s@ =~~= (StudentView { name: new_name@, ..pre.students[si as int] }));
                }
            }
            new_students.push(s);
            proof {
                assert(new_students@[si as int]@ =~~= rename_student_view(
                    pre.students[si as int],
                    old_name@,
                    new_name@,
                ));
            }
            si = si + 1;
        }
        self.students = new_students;
        self.result = None;
        proof {
            assert(self@.students =~= pre.students.map_values(
                |s: StudentView| rename_student_view(s, old_name@, new_name@),
            ));
            if new_name@ != old_name@ {
                assert forall|k: int| 0 <= k < pre.students.len() implies (
                #[trigger] pre.students[k]).name != new_name@ by {
                }
            }
            assert forall|i: int, j: int| #![trigger self@.students[i], self@.students[j]]
                0 <= i < j < self@.students.len() implies self@.students[i].name
                != self@.students[j].name by {
                assert(self@.students[i] == rename_student_view(
                    pre.students[i],
                    old_name@,
                    new_name@,
                ));
                assert(self@.students[j] == rename_student_view(
                    pre.students[j],
                    old_name@,
                    new_name@,
                ));
            }
            assert forall|i: int| 0 <= i < self@.students.len() implies (
            #[trigger] self@.students[i]).wf(self@.categories) by {
                assert(self@.students[i] == rename_student_view(
                    pre.students[i],
                    old_name@,
                    new_name@,
                ));
                assert(pre.students[i].wf(pre.categories));
            }
            assert(self@ =~= (WorkingStateView {
                students: pre.students.map_values(
                    |s: StudentView| rename_student_view(s, old_name@, new_name@),
                ),
                result: None,
                ..pre
            }));
        }
        Ok(())
    }

    /// Append a category, enforcing name uniqueness and a positive
    /// capacity.
    pub fn add_category(&mut self, name: String, max_placements: usize) -> (r: Result<
        (),
        FieldError,
    >)
        requires
            old(self)@.wf(),
        ensures
            final(self)@.wf(),
            add_category_post(old(self)@, final(self)@, name@, max_placements as nat, r),
    {
        let ghost pre = self@;
        let ghost nv = name@;
        if name.as_str().is_empty() || max_placements == 0 {
            return Err(FieldError::EmptyField);
        }
        if contains_cat_named(&self.categories, &name) {
            return Err(FieldError::DuplicateName);
        }
        let total = sum_caps(&self.categories);
        if max_placements > usize::MAX - total {
            return Err(FieldError::EmptyField);
        }
        self.categories.push(Category { name, max_placements });
        self.result = None;
        proof {
            let cv = CategoryView { name: nv, max_placements: max_placements as nat };
            assert(cat_views(self.categories@) =~= pre.categories.push(cv));
            assert(pre.categories.push(cv).drop_last() =~= pre.categories);
            assert(cap_sum(pre.categories.push(cv)) == cap_sum(pre.categories)
                + max_placements as nat);
            assert(self@ =~= (WorkingStateView {
                categories: pre.categories.push(cv),
                result: None,
                ..pre
            }));
            assert forall|i: int, j: int| #![trigger self@.categories[i], self@.categories[j]]
                0 <= i < j < self@.categories.len() implies self@.categories[i].name
                != self@.categories[j].name by {
                if j < pre.categories.len() {
                } else {
                    assert(self@.categories[i] == pre.categories[i]);
                }
            }
            assert forall|i: int| 0 <= i < self@.students.len() implies (
            #[trigger] self@.students[i]).wf(self@.categories) by {
                lemma_student_wf_push(pre.students[i], pre.categories, cv);
            }
        }
        Ok(())
    }

    /// Append a student, enforcing name uniqueness.
    pub fn add_student(&mut self, name: String) -> (r: Result<(), FieldError>)
        requires
            old(self)@.wf(),
        ensures
            final(self)@.wf(),
            add_student_post(old(self)@, final(self)@, name@, r),
    {
        let ghost pre = self@;
        let ghost nv = name@;
        if name.as_str().is_empty() {
            return Err(FieldError::EmptyField);
        }
        if contains_student_named(&self.students, &name) {
            return Err(FieldError::DuplicateName);
        }
        self.students.push(Student { name, preferences: Vec::new(), exclude: Vec::new() });
        self.result = None;
        proof {
            let sv = StudentView { name: nv, preferences: Seq::empty(), exclude: Seq::empty() };
            assert(student_views(self.students@) =~~= pre.students.push(sv));
            assert(self@ =~= (WorkingStateView {
                students: pre.students.push(sv),
                result: None,
                ..pre
            }));
            assert forall|i: int, j: int| #![trigger self@.students[i], self@.students[j]]
                0 <= i < j < self@.students.len() implies self@.students[i].name
                != self@.students[j].name by {
                if j < pre.students.len() {
                } else {
                    assert(self@.students[i] == pre.students[i]);
                }
            }
            assert forall|i: int| 0 <= i < self@.students.len() implies (
            #[trigger] self@.students[i]).wf(self@.categories) by {
                if i < pre.students.len() {
                    assert(self@.students[i] == pre.students[i]);
                } else {
                    assert(self@.students[i] == sv);
                }
            }
        }
        Ok(())
    }
}

} // verus!
