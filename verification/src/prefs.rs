//! Preference editor: per-student ordered preference lists and exclusion
//! lists, kept consistent with the category store.

use vstd::prelude::*;
use crate::model::Category;
use crate::model::CategoryView;
use crate::model::FieldError;
use crate::model::StudentView;
use crate::model::WorkingState;
use crate::model::WorkingStateView;
use crate::model::cat_names_unique;
use crate::model::cat_views;
use crate::model::contains_cat_named;
use crate::model::entries_wf;
use crate::model::find_cat_named;
use crate::model::find_student_named;
use crate::model::has_cat_named;
use crate::model::has_student_named;

verus! {

/// The first category of `cats` carrying `name`; meaningful only when one
/// exists.
pub open spec fn cat_named(cats: Seq<CategoryView>, name: Seq<char>) -> CategoryView
    recommends
        has_cat_named(cats, name),
    decreases cats.len(),
{
    if cats.len() == 0 {
        CategoryView { name: Seq::empty(), max_placements: 0 }
    } else if cats[0].name == name {
        cats[0]
    } else {
        cat_named(cats.drop_first(), name)
    }
}

/// The first student of `ss` carrying `name`; meaningful only when one
/// exists.
pub open spec fn student_named(ss: Seq<StudentView>, name: Seq<char>) -> StudentView
    recommends
        has_student_named(ss, name),
    decreases ss.len(),
{
    if ss.len() == 0 {
        StudentView { name: Seq::empty(), preferences: Seq::empty(), exclude: Seq::empty() }
    } else if ss[0].name == name {
        ss[0]
    } else {
        student_named(ss.drop_first(), name)
    }
}

/// The index found by a first-match scan is the one `cat_named` denotes.
pub proof fn lemma_cat_named_at(cats: Seq<CategoryView>, name: Seq<char>, i: int)
    requires
        0 <= i < cats.len(),
        cats[i].name == name,
        forall|k: int| 0 <= k < i ==> (#[trigger] cats[k]).name != name,
    ensures
        cat_named(cats, name) == cats[i],
        has_cat_named(cats, name),
    decreases cats.len(),
{
    if i == 0 {
    } else {
        assert(cats[0].name != name);
        assert forall|k: int| 0 <= k < i - 1 implies (#[trigger] cats.drop_first()[k]).name
            != name by {
            assert(cats.drop_first()[k] == cats[k + 1]);
        }
        lemma_cat_named_at(cats.drop_first(), name, i - 1);
        assert(cats.drop_first()[i - 1] == cats[i]);
    }
}

/// The index found by a first-match scan is the one `student_named`
/// denotes.
pub proof fn lemma_student_named_at(ss: Seq<StudentView>, name: Seq<char>, i: int)
    requires
        0 <= i < ss.len(),
        ss[i].name == name,
        forall|k: int| 0 <= k < i ==> (#[trigger] ss[k]).name != name,
    ensures
        student_named(ss, name) == ss[i],
        has_student_named(ss, name),
    decreases ss.len(),
{
    if i == 0 {
    } else {
        assert(ss[0].name != name);
        assert forall|k: int| 0 <= k < i - 1 implies (#[trigger] ss.drop_first()[k]).name
            != name by {
            assert(ss.drop_first()[k] == ss[k + 1]);
        }
        lemma_student_named_at(ss.drop_first(), name, i - 1);
        assert(ss.drop_first()[i - 1] == ss[i]);
    }
}

/// A student after a preference was appended, when the student is the
/// addressed one.
pub open spec fn add_pref_student(t: StudentView, sname: Seq<char>, c: CategoryView) -> StudentView {
    if t.name == sname {
        StudentView { preferences: t.preferences.push(c), ..t }
    } else {
        t
    }
}

/// A student after an exclusion was appended, when the student is the
/// addressed one.
pub open spec fn add_excl_student(t: StudentView, sname: Seq<char>, c: CategoryView) -> StudentView {
    if t.name == sname {
        StudentView { exclude: t.exclude.push(c), ..t }
    } else {
        t
    }
}

/// What `add_preference` does: appends the store category carrying
/// `cname` to the tail of the addressed student's preference list.  A
/// missing student or category is a silent no-op; a category already
/// preferred or excluded by that student is rejected, keeping the lists
/// free of duplicates and of preferred-and-excluded conflicts.
pub open spec fn add_preference_post(
    pre: WorkingStateView,
    post: WorkingStateView,
    sname: Seq<char>,
    cname: Seq<char>,
    r: Result<(), FieldError>,
) -> bool {
    let found = has_student_named(pre.students, sname) && has_cat_named(pre.categories, cname);
    let s = student_named(pre.students, sname);
    let dup = has_cat_named(s.preferences, cname) || has_cat_named(s.exclude, cname);
    &&& (r is Err <==> found && dup)
    &&& (r is Err ==> r == Err::<(), FieldError>(FieldError::DuplicateName))
    &&& (!found ==> post == pre)
    &&& ((found && dup) ==> post == pre)
    &&& ((found && !dup) ==> post == (WorkingStateView {
        students: pre.students.map_values(
            |t: StudentView| add_pref_student(t, sname, cat_named(pre.categories, cname)),
        ),
        result: None,
        ..pre
    }))
}

/// What `add_exclude` does: appends the store category carrying `cname`
/// to the addressed student's exclusion list, under the same guards as
/// `add_preference`.
pub open spec fn add_exclude_post(
    pre: WorkingStateView,
    post: WorkingStateView,
    sname: Seq<char>,
    cname: Seq<char>,
    r: Result<(), FieldError>,
) -> bool {
    let found = has_student_named(pre.students, sname) && has_cat_named(pre.categories, cname);
    let s = student_named(pre.students, sname);
    let dup = has_cat_named(s.preferences, cname) || has_cat_named(s.exclude, cname);
    &&& (r is Err <==> found && dup)
    &&& (r is Err ==> r == Err::<(), FieldError>(FieldError::DuplicateName))
    &&& (!found ==> post == pre)
    &&& ((found && dup) ==> post == pre)
    &&& ((found && !dup) ==> post == (WorkingStateView {
        students: pre.students.map_values(
            |t: StudentView| add_excl_student(t, sname, cat_named(pre.categories, cname)),
        ),
        result: None,
        ..pre
    }))
}

/// A reference list with every entry carrying `name` removed.
pub open spec fn remove_entries_named(s: Seq<CategoryView>, name: Seq<char>) -> Seq<CategoryView>
    decreases s.len(),
{
    if s.len() == 0 {
        Seq::empty()
    } else {
        let rest = remove_entries_named(s.drop_last(), name);
        if s.last().name == name {
            rest
        } else {
            rest.push(s.last())
        }
    }
}

/// Removal by name keeps exactly the entries carrying another name, and
/// an absent name makes it the identity.
pub proof fn lemma_remove_entries_named(s: Seq<CategoryView>, name: Seq<char>)
    ensures
        forall|x: CategoryView| #[trigger] remove_entries_named(s, name).contains(x)
            ==> s.contains(x) && x.name != name,
        cat_names_unique(s) ==> cat_names_unique(remove_entries_named(s, name)),
        !has_cat_named(remove_entries_named(s, name), name),
        !has_cat_named(s, name) ==> remove_entries_named(s, name) == s,
    decreases s.len(),
{
    let r = remove_entries_named(s, name);
    if s.len() == 0 {
        assert(r =~= s);
        assert forall|k: int| 0 <= k < r.len() implies (#[trigger] r[k]).name != name by {}
    } else {
        let dl = s.drop_last();
        let l = s.last();
        lemma_remove_entries_named(dl, name);
        let rr = remove_entries_named(dl, name);
        assert forall|x: CategoryView| dl.contains(x) implies s.contains(x) by {
            let i = choose|i: int| 0 <= i < dl.len() && dl[i] == x;
            assert(s[i] == x);
        }
        assert(s[s.len() - 1] == l);
        assert(s.contains(l));
        if cat_names_unique(s) {
            assert forall|i: int, j: int| #![trigger dl[i], dl[j]]
                0 <= i < j < dl.len() implies dl[i].name != dl[j].name by {
                assert(dl[i] == s[i]);
                assert(dl[j] == s[j]);
            }
        }
        if !has_cat_named(s, name) {
            assert forall|k: int| 0 <= k < dl.len() implies (#[trigger] dl[k]).name != name by {
                assert(s[k] == dl[k]);
            }
            assert(!has_cat_named(dl, name));
        }
        if l.name == name {
            assert(has_cat_named(s, name));
        } else {
            assert forall|x: CategoryView| #[trigger] r.contains(x) implies rr.contains(x) || x
                == l by {
                let i = choose|i: int| 0 <= i < r.len() && r[i] == x;
                if i < r.len() - 1 {
                    assert(rr[i] == x);
                }
            }
            assert forall|x: CategoryView| rr.contains(x) implies r.contains(x) by {
                let i = choose|i: int| 0 <= i < rr.len() && rr[i] == x;
                assert(r[i] == x);
            }
            assert(r[r.len() - 1] == l);
            assert(r.contains(l));
            if cat_names_unique(s) {
                assert forall|i: int, j: int| #![trigger r[i], r[j]]
                    0 <= i < j < r.len() implies r[i].name != r[j].name by {
                    if j < r.len() - 1 {
                        assert(rr[i] == r[i]);
                        assert(rr[j] == r[j]);
                    } else {
                        assert(rr[i] == r[i]);
                        assert(rr.contains(rr[i]));
                        assert(dl.contains(r[i]));
                        let w = choose|w: int| 0 <= w < dl.len() && dl[w] == r[i];
                        assert(s[w] == r[i]);
                        assert(s[w].name != s[s.len() - 1].name);
                    }
                }
            }
            assert forall|k: int| 0 <= k < r.len() implies (#[trigger] r[k]).name != name by {
                assert(r.contains(r[k]));
            }
            if !has_cat_named(s, name) {
                assert(rr == dl);
                assert(r =~= s);
            }
        }
    }
}

/// A student after a preference was removed by name, when the student is
/// the addressed one.
pub open spec fn drop_pref_student(t: StudentView, sname: Seq<char>, cname: Seq<char>) -> StudentView {
    if t.name == sname {
        StudentView { preferences: remove_entries_named(t.preferences, cname), ..t }
    } else {
        t
    }
}

/// A student after an exclusion was removed by name, when the student is
/// the addressed one.
pub open spec fn drop_excl_student(t: StudentView, sname: Seq<char>, cname: Seq<char>) -> StudentView {
    if t.name == sname {
        StudentView { exclude: remove_entries_named(t.exclude, cname), ..t }
    } else {
        t
    }
}

/// What `remove_preference` does: removes the entry carrying `cname`
/// from the addressed student's preference list; a missing student or an
/// absent entry leaves the state untouched and reports no error.
pub open spec fn remove_preference_post(
    pre: WorkingStateView,
    post: WorkingStateView,
    sname: Seq<char>,
    cname: Seq<char>,
) -> bool {
    let found = has_student_named(pre.students, sname);
    let s = student_named(pre.students, sname);
    &&& (!found ==> post == pre)
    &&& ((found && !has_cat_named(s.preferences, cname)) ==> post == pre)
    &&& ((found && has_cat_named(s.preferences, cname)) ==> post == (WorkingStateView {
        students: pre.students.map_values(|t: StudentView| drop_pref_student(t, sname, cname)),
        result: None,
        ..pre
    }))
}

/// What `remove_exclude` does: removes the entry carrying `cname` from
/// the addressed student's exclusion list; a missing student or an
/// absent entry leaves the state untouched and reports no error.
pub open spec fn remove_exclude_post(
    pre: WorkingStateView,
    post: WorkingStateView,
    sname: Seq<char>,
    cname: Seq<char>,
) -> bool {
    let found = has_student_named(pre.students, sname);
    let s = student_named(pre.students, sname);
    &&& (!found ==> post == pre)
    &&& ((found && !has_cat_named(s.exclude, cname)) ==> post == pre)
    &&& ((found && has_cat_named(s.exclude, cname)) ==> post == (WorkingStateView {
        students: pre.students.map_values(|t: StudentView| drop_excl_student(t, sname, cname)),
        result: None,
        ..pre
    }))
}

/// Rebuild one reference list without the entries carrying `name`.
#[verifier::loop_isolation(false)]
fn remove_entries_by_name(entries: &Vec<Category>, name: &String) -> (r: Vec<Category>)
    ensures
        cat_views(r@) == remove_entries_named(cat_views(entries@), name@),
{
    let ghost full = cat_views(entries@);
    let mut out: Vec<Category> = Vec::new();
    let mut i: usize = 0;
    while i < entries.len()
        invariant
            i <= entries.len(),
            cat_views(out@) == remove_entries_named(full.take(i as int), name@),
        decreases entries.len() - i,
    {
        let ghost prev = cat_views(out@);
        let same = entries[i].name == *name;
        if !same {
            out.push(entries[i].clone());
        }
        proof {
            assert(full.take(i + 1).drop_last() =~= full.take(i as int));
            assert(full.take(i + 1).last() == entries@[i as int]@);
            if !same {
                assert(cat_views(out@) =~= prev.push(entries@[i as int]@));
            }
        }
        i = i + 1;
    }
    proof {
        assert(full.take(entries@.len() as int) =~= full);
    }
    out
}

/// Dropping entries by name from one list of the addressed student
/// preserves the invariant.
proof fn lemma_drop_entry_wf(
    pre: WorkingStateView,
    post: WorkingStateView,
    sname: Seq<char>,
    cname: Seq<char>,
    from_prefs: bool,
)
    requires
        pre.wf(),
        post.categories == pre.categories,
        post.students.len() == pre.students.len(),
        forall|i: int| 0 <= i < pre.students.len() ==> (#[trigger] post.students[i]) == (
        if from_prefs {
            drop_pref_student(pre.students[i], sname, cname)
        } else {
            drop_excl_student(pre.students[i], sname, cname)
        }),
    ensures
        post.wf(),
{
    assert forall|i: int, j: int| #![trigger post.students[i], post.students[j]]
        0 <= i < j < post.students.len() implies post.students[i].name
        != post.students[j].name by {
        assert(post.students[i].name == pre.students[i].name);
        assert(post.students[j].name == pre.students[j].name);
    }
    assert forall|i: int| 0 <= i < post.students.len() implies (#[trigger] post.students[i]).wf(
        post.categories,
    ) by {
        let t = pre.students[i];
        let t2 = post.students[i];
        assert(t.wf(pre.categories));
        if t.name == sname {
            let base = if from_prefs {
                t.preferences
            } else {
                t.exclude
            };
            lemma_remove_entries_named(base, cname);
            let kept = remove_entries_named(base, cname);
            assert forall|k: int| 0 <= k < kept.len() implies pre.categories.contains(
                #[trigger] kept[k],
            ) by {
                assert(kept.contains(kept[k]));
                assert(base.contains(kept[k]));
                let w = choose|w: int| 0 <= w < base.len() && base[w] == kept[k];
                assert(pre.categories.contains(base[w]));
            }
            assert forall|k: int, l: int| #![trigger t2.preferences[k], t2.exclude[l]]
                0 <= k < t2.preferences.len() && 0 <= l < t2.exclude.len() implies
                t2.preferences[k].name != t2.exclude[l].name by {
                if from_prefs {
                    assert(kept.contains(t2.preferences[k]));
                    assert(base.contains(t2.preferences[k]));
                    let w = choose|w: int| 0 <= w < base.len() && base[w] == t2.preferences[k];
                    assert(t.preferences[w].name != t.exclude[l].name);
                } else {
                    assert(kept.contains(t2.exclude[l]));
                    assert(base.contains(t2.exclude[l]));
                    let w = choose|w: int| 0 <= w < base.len() && base[w] == t2.exclude[l];
                    assert(t.preferences[k].name != t.exclude[w].name);
                }
            }
        } else {
            assert(t2 == t);
        }
    }
}

/// The index of the first entry carrying `name`, and -1 when none does.
pub open spec fn idx_named(entries: Seq<CategoryView>, name: Seq<char>) -> int
    decreases entries.len(),
{
    if entries.len() == 0 {
        -1
    } else if entries[0].name == name {
        0
    } else {
        let r = idx_named(entries.drop_first(), name);
        if r == -1 {
            -1
        } else {
            r + 1
        }
    }
}

/// `idx_named` finds the first matching entry exactly when one exists.
pub proof fn lemma_idx_named(entries: Seq<CategoryView>, name: Seq<char>)
    ensures
        has_cat_named(entries, name) ==> {
            let r = idx_named(entries, name);
            &&& 0 <= r < entries.len()
            &&& entries[r].name == name
            &&& forall|k: int| 0 <= k < r ==> (#[trigger] entries[k]).name != name
        },
        !has_cat_named(entries, name) ==> idx_named(entries, name) == -1,
    decreases entries.len(),
{
    if entries.len() == 0 {
    } else if entries[0].name == name {
        assert(has_cat_named(entries, name));
    } else {
        let dl = entries.drop_first();
        lemma_idx_named(dl, name);
        assert forall|k: int| 0 <= k < dl.len() implies dl[k] == entries[k + 1] by {}
        if has_cat_named(entries, name) {
            let wit = choose|i: int| 0 <= i < entries.len() && (#[trigger] entries[i]).name == name;
            assert(dl[wit - 1].name == name);
            assert(has_cat_named(dl, name));
            let r0 = idx_named(dl, name);
            assert forall|k: int| 0 <= k < r0 + 1 implies (#[trigger] entries[k]).name != name by {
                if k > 0 {
                    assert(dl[k - 1] == entries[k]);
                }
            }
        } else {
            assert forall|k: int| 0 <= k < dl.len() implies (#[trigger] dl[k]).name != name by {
                assert(entries[k + 1] == dl[k]);
            }
            assert(!has_cat_named(dl, name));
        }
    }
}

/// A student after a drag-and-drop reorder of the preference list, when
/// the student is the addressed one: the dragged entry moves to the
/// target's former slot.
pub open spec fn move_pref_student(
    t: StudentView,
    sname: Seq<char>,
    dragged: Seq<char>,
    target: Seq<char>,
) -> StudentView {
    if t.name == sname {
        let i = idx_named(t.preferences, dragged);
        let j = idx_named(t.preferences, target);
        if i >= 0 && j >= 0 {
            StudentView { preferences: t.preferences.remove(i).insert(j, t.preferences[i]), ..t }
        } else {
            t
        }
    } else {
        t
    }
}

/// What `move_preference` does: removes the entry carrying `dragged`
/// from its position and reinserts it at the former position of the
/// entry carrying `target`; a missing student or a missing entry is a
/// silent no-op.
pub open spec fn move_preference_post(
    pre: WorkingStateView,
    post: WorkingStateView,
    sname: Seq<char>,
    dragged: Seq<char>,
    target: Seq<char>,
) -> bool {
    let found = has_student_named(pre.students, sname);
    let s = student_named(pre.students, sname);
    let movable = found && idx_named(s.preferences, dragged) >= 0 && idx_named(
        s.preferences,
        target,
    ) >= 0;
    &&& (!movable ==> post == pre)
    &&& (movable ==> post == (WorkingStateView {
        students: pre.students.map_values(
            |t: StudentView| move_pref_student(t, sname, dragged, target),
        ),
        result: None,
        ..pre
    }))
}

/// Moving one entry of a well-formed list keeps the list well formed:
/// the result holds exactly the entries the list already held.
#[verifier::rlimit(50)]
proof fn lemma_move_entries_wf(p: Seq<CategoryView>, cats: Seq<CategoryView>, i: int, j: int)
    requires
        0 <= i < p.len(),
        0 <= j < p.len(),
        entries_wf(p, cats),
        cat_names_unique(p),
    ensures
        ({
            let p2 = p.remove(i).insert(j, p[i]);
            &&& p2.len() == p.len()
            &&& entries_wf(p2, cats)
            &&& cat_names_unique(p2)
            &&& forall|x: CategoryView| #[trigger] p2.contains(x) ==> p.contains(x)
        }),
{
    let r = p.remove(i);
    let p2 = r.insert(j, p[i]);
    p.remove_ensures(i);
    r.insert_ensures(j, p[i]);
    assert forall|k: int| 0 <= k < p2.len() implies p.contains(#[trigger] p2[k]) by {
        let o = spec_move_orig(k, i, j);
        assert(0 <= o < p.len());
        assert(p2[k] == p[o]);
    }
    assert forall|k: int| 0 <= k < p2.len() implies cats.contains(#[trigger] p2[k]) by {
        let o = spec_move_orig(k, i, j);
        assert(p2[k] == p[o]);
        assert(cats.contains(p[o]));
    }
    assert forall|k1: int, k2: int| #![trigger p2[k1], p2[k2]]
        0 <= k1 < k2 < p2.len() implies p2[k1].name != p2[k2].name by {
        let o1 = spec_move_orig(k1, i, j);
        let o2 = spec_move_orig(k2, i, j);
        assert(p2[k1] == p[o1]);
        assert(p2[k2] == p[o2]);
        assert(o1 != o2);
        if o1 < o2 {
            assert(p[o1].name != p[o2].name);
        } else {
            assert(p[o2].name != p[o1].name);
        }
    }
    assert forall|x: CategoryView| #[trigger] p2.contains(x) implies p.contains(x) by {
        let k = choose|k: int| 0 <= k < p2.len() && p2[k] == x;
        let o = spec_move_orig(k, i, j);
        assert(p2[k] == p[o]);
    }
}

/// The original position of the entry standing at position `k` after the
/// entry at `i` was removed and reinserted at `j`.
pub open spec fn spec_move_orig(k: int, i: int, j: int) -> int {
    if k == j {
        i
    } else {
        let k2 = if k < j {
            k
        } else {
            k - 1
        };
        if k2 < i {
            k2
        } else {
            k2 + 1
        }
    }
}

impl WorkingState {
    /// Remove the entry carrying `category_name` from the preference
    /// list of the student carrying `student_name`; absent entries are
    /// left alone without an error.
    #[verifier::loop_isolation(false)]
    pub fn remove_preference(&mut self, student_name: &String, category_name: &String)
        requires
            old(self)@.wf(),
        ensures
            final(self)@.wf(),
            remove_preference_post(old(self)@, final(self)@, student_name@, category_name@),
    {
        let ghost pre = self@;
        let si = match find_student_named(&self.students, student_name) {
            Some(i) => i,
            None => {
                return ;
            },
        };
        proof {
            lemma_student_named_at(pre.students, student_name@, si as int);
        }
        if !contains_cat_named(&self.students[si].preferences, category_name) {
            return ;
        }
        let np = remove_entries_by_name(&self.students[si].preferences, category_name);
        self.students[si].preferences = np;
        self.result = None;
        proof {
            assert(self@.students =~~= pre.students.map_values(
                |t: StudentView| drop_pref_student(t, student_name@, category_name@),
            ));
            assert(self@ =~= (WorkingStateView {
                students: pre.students.map_values(
                    |t: StudentView| drop_pref_student(t, student_name@, category_name@),
                ),
                result: None,
                ..pre
            }));
            lemma_drop_entry_wf(pre, self@, student_name@, category_name@, true);
        }
    }

    /// Remove the entry carrying `category_name` from the exclusion
    /// list of the student carrying `student_name`; absent entries are
    /// left alone without an error.
    #[verifier::loop_isolation(false)]
    pub fn remove_exclude(&mut self, student_name: &String, category_name: &String)
        requires
            old(self)@.wf(),
        ensures
            final(self)@.wf(),
            remove_exclude_post(old(self)@, final(self)@, student_name@, category_name@),
    {
        let ghost pre = self@;
        let si = match find_student_named(&self.students, student_name) {
            Some(i) => i,
            None => {
                return ;
            },
        };
        proof {
            lemma_student_named_at(pre.students, student_name@, si as int);
        }
        if !contains_cat_named(&self.students[si].exclude, category_name) {
            return ;
        }
        let ne = remove_entries_by_name(&self.students[si].exclude, category_name);
        self.students[si].exclude = ne;
        self.result = None;
        proof {
            assert(self@.students =~~= pre.students.map_values(
                |t: StudentView| drop_excl_student(t, student_name@, category_name@),
            ));
            assert(self@ =~= (WorkingStateView {
                students: pre.students.map_values(
                    |t: StudentView| drop_excl_student(t, student_name@, category_name@),
                ),
                result: None,
                ..pre
            }));
            lemma_drop_entry_wf(pre, self@, student_name@, category_name@, false);
        }
    }

    /// Reorder the preference list of the student carrying
    /// `student_name`: the entry carrying `dragged_name` moves to the
    /// former slot of the entry carrying `target_name`.
    #[verifier::loop_isolation(false)]
    pub fn move_preference(
        &mut self,
        student_name: &String,
        dragged_name: &String,
        target_name: &String,
    )
        requires
            old(self)@.wf(),
        ensures
            final(self)@.wf(),
            move_preference_post(
                old(self)@,
                final(self)@,
                student_name@,
                dragged_name@,
                target_name@,
            ),
    {
        let ghost pre = self@;
        let si = match find_student_named(&self.students, student_name) {
            Some(i) => i,
            None => {
                return ;
            },
        };
        proof {
            lemma_student_named_at(pre.students, student_name@, si as int);
            lemma_idx_named(pre.students[si as int].preferences, dragged_name@);
            lemma_idx_named(pre.students[si as int].preferences, target_name@);
        }
        let i = match find_cat_named(&self.students[si].preferences, dragged_name) {
            Some(i) => i,
            None => {
                return ;
            },
        };
        let j = match find_cat_named(&self.students[si].preferences, target_name) {
            Some(j) => j,
            None => {
                return ;
            },
        };
        proof {
            let prefs = pre.students[si as int].preferences;
            assert(idx_named(prefs, dragged_name@) == i as int);
            assert(idx_named(prefs, target_name@) == j as int);
        }
        let moved = self.students[si].preferences.remove(i);
        self.students[si].preferences.insert(j, moved);
        self.result = None;
        proof {
            let prefs = pre.students[si as int].preferences;
            assert(cat_views(self.students@[si as int].preferences@) =~= prefs.remove(
                i as int,
            ).insert(j as int, prefs[i as int]));
            assert(self@.students =~~= pre.students.map_values(
                |t: StudentView| move_pref_student(t, student_name@, dragged_name@, target_name@),
            ));
            assert(self@ =~= (WorkingStateView {
                students: pre.students.map_values(
                    |t: StudentView| move_pref_student(
                        t,
                        student_name@,
                        dragged_name@,
                        target_name@,
                    ),
                ),
                result: None,
                ..pre
            }));
            lemma_move_entries_wf(prefs, pre.categories, i as int, j as int);
            assert forall|k: int, l: int| #![trigger self@.students[k], self@.students[l]]
                0 <= k < l < self@.students.len() implies self@.students[k].name
                != self@.students[l].name by {
                assert(self@.students[k].name == pre.students[k].name);
                assert(self@.students[l].name == pre.students[l].name);
            }
            assert forall|k: int| 0 <= k < self@.students.len() implies (
            #[trigger] self@.students[k]).wf(self@.categories) by {
                let t = pre.students[k];
                let t2 = self@.students[k];
                assert(t.wf(pre.categories));
                if t.name == student_name@ {
                    let p2 = prefs.remove(i as int).insert(j as int, prefs[i as int]);
                    assert(t == pre.students[si as int]);
                    assert forall|a: int, b: int| #![trigger t2.preferences[a], t2.exclude[b]]
                        0 <= a < t2.preferences.len() && 0 <= b < t2.exclude.len() implies
                        t2.preferences[a].name != t2.exclude[b].name by {
                        assert(p2.contains(p2[a]));
                        assert(prefs.contains(p2[a]));
                        let w = choose|w: int| 0 <= w < prefs.len() && prefs[w] == p2[a];
                        assert(t.preferences[w].name != t.exclude[b].name);
                    }
                } else {
                    assert(t2 == t);
                }
            }
        }
    }
}

impl WorkingState {
    /// Append the category carrying `category_name` to the preference
    /// list of the student carrying `student_name`.
    #[verifier::loop_isolation(false)]
    pub fn add_preference(&mut self, student_name: &String, category_name: &String) -> (r: Result<
        (),
        FieldError,
    >)
        requires
            old(self)@.wf(),
        ensures
            final(self)@.wf(),
            add_preference_post(old(self)@, final(self)@, student_name@, category_name@, r),
    {
        let ghost pre = self@;
        let si = match find_student_named(&self.students, student_name) {
            Some(i) => i,
            None => {
                return Ok(());
            },
        };
        let ci = match find_cat_named(&self.categories, category_name) {
            Some(i) => i,
            None => {
                return Ok(());
            },
        };
        proof {
            lemma_student_named_at(pre.students, student_name@, si as int);
            lemma_cat_named_at(pre.categories, category_name@, ci as int);
        }
        if contains_cat_named(&self.students[si].preferences, category_name)
            || contains_cat_named(&self.students[si].exclude, category_name) {
            return Err(FieldError::DuplicateName);
        }
        let cat = self.categories[ci].clone();
        self.students[si].preferences.push(cat);
        self.result = None;
        proof {
            let c = cat_named(pre.categories, category_name@);
            assert(self@.students =~~= pre.students.map_values(
                |t: StudentView| add_pref_student(t, student_name@, c),
            ));
            assert(self@ =~= (WorkingStateView {
                students: pre.students.map_values(
                    |t: StudentView| add_pref_student(t, student_name@, c),
                ),
                result: None,
                ..pre
            }));
            lemma_add_entry_wf(pre, self@, student_name@, category_name@, true);
        }
        Ok(())
    }

    /// Append the category carrying `category_name` to the exclusion
    /// list of the student carrying `student_name`.
    #[verifier::loop_isolation(false)]
    pub fn add_exclude(&mut self, student_name: &String, category_name: &String) -> (r: Result<
        (),
        FieldError,
    >)
        requires
            old(self)@.wf(),
        ensures
            final(self)@.wf(),
            add_exclude_post(old(self)@, final(self)@, student_name@, category_name@, r),
    {
        let ghost pre = self@;
        let si = match find_student_named(&self.students, student_name) {
            Some(i) => i,
            None => {
                return Ok(());
            },
        };
        let ci = match find_cat_named(&self.categories, category_name) {
            Some(i) => i,
            None => {
                return Ok(());
            },
        };
        proof {
            lemma_student_named_at(pre.students, student_name@, si as int);
            lemma_cat_named_at(pre.categories, category_name@, ci as int);
        }
        if contains_cat_named(&self.students[si].preferences, category_name)
            || contains_cat_named(&self.students[si].exclude, category_name) {
            return Err(FieldError::DuplicateName);
        }
        let cat = self.categories[ci].clone();
        self.students[si].exclude.push(cat);
        self.result = None;
        proof {
            let c = cat_named(pre.categories, category_name@);
            assert(self@.students =~~= pre.students.map_values(
                |t: StudentView| add_excl_student(t, student_name@, c),
            ));
            assert(self@ =~= (WorkingStateView {
                students: pre.students.map_values(
                    |t: StudentView| add_excl_student(t, student_name@, c),
                ),
                result: None,
                ..pre
            }));
            lemma_add_entry_wf(pre, self@, student_name@, category_name@, false);
        }
        Ok(())
    }
}

/// Appending a store category that the addressed student neither prefers
/// nor excludes preserves the invariant.
proof fn lemma_add_entry_wf(
    pre: WorkingStateView,
    post: WorkingStateView,
    sname: Seq<char>,
    cname: Seq<char>,
    to_prefs: bool,
)
    requires
        pre.wf(),
        has_student_named(pre.students, sname),
        has_cat_named(pre.categories, cname),
        !has_cat_named(student_named(pre.students, sname).preferences, cname),
        !has_cat_named(student_named(pre.students, sname).exclude, cname),
        post.categories == pre.categories,
        post.students.len() == pre.students.len(),
        forall|i: int| 0 <= i < pre.students.len() ==> (#[trigger] post.students[i]) == (
        if to_prefs {
            add_pref_student(pre.students[i], sname, cat_named(pre.categories, cname))
        } else {
            add_excl_student(pre.students[i], sname, cat_named(pre.categories, cname))
        }),
    ensures
        post.wf(),
{
    let c = cat_named(pre.categories, cname);
    // locate the first category carrying `cname` to pin `cat_named`
    let first = choose|i: int|
        0 <= i < pre.categories.len() && (#[trigger] pre.categories[i]).name == cname && forall|
            k: int,
        | 0 <= k < i ==> (#[trigger] pre.categories[k]).name != cname;
    lemma_first_cat(pre.categories, cname);
    lemma_cat_named_at(pre.categories, cname, first);
    assert(pre.categories.contains(c));
    assert(c.name == cname);
    assert forall|i: int, j: int| #![trigger post.students[i], post.students[j]]
        0 <= i < j < post.students.len() implies post.students[i].name
        != post.students[j].name by {
        assert(post.students[i].name == pre.students[i].name);
        assert(post.students[j].name == pre.students[j].name);
    }
    assert forall|i: int| 0 <= i < post.students.len() implies (#[trigger] post.students[i]).wf(
        post.categories,
    ) by {
        let t = pre.students[i];
        let t2 = post.students[i];
        assert(t.wf(pre.categories));
        if t.name == sname {
            lemma_student_named_unique(pre.students, sname, i);
            assert(t == student_named(pre.students, sname));
            let added = if to_prefs {
                t.preferences.push(c)
            } else {
                t.exclude.push(c)
            };
            assert forall|k: int| 0 <= k < added.len() implies pre.categories.contains(
                #[trigger] added[k],
            ) by {
                let base = if to_prefs {
                    t.preferences
                } else {
                    t.exclude
                };
                if k < base.len() {
                    assert(added[k] == base[k]);
                } else {
                    assert(added[k] == c);
                }
            }
            let base = if to_prefs {
                t.preferences
            } else {
                t.exclude
            };
            assert forall|k: int| 0 <= k < base.len() implies (#[trigger] base[k]).name
                != cname by {
                assert(!has_cat_named(base, cname));
            }
            assert forall|k: int, l: int| #![trigger added[k], added[l]]
                0 <= k < l < added.len() implies added[k].name != added[l].name by {
                if l < base.len() {
                } else {
                    assert(added[k] == base[k]);
                    assert(added[l] == c);
                }
            }
        } else {
            assert(t2 == t);
        }
    }
}

/// When a category carrying `name` exists, a first one exists.
#[verifier::rlimit(50)]
proof fn lemma_first_cat(cats: Seq<CategoryView>, name: Seq<char>)
    requires
        has_cat_named(cats, name),
    ensures
        exists|i: int|
            0 <= i < cats.len() && (#[trigger] cats[i]).name == name && forall|k: int|
                0 <= k < i ==> (#[trigger] cats[k]).name != name,
    decreases cats.len(),
{
    if cats[0].name == name {
        let i = 0;
        assert(0 <= i < cats.len() && cats[i].name == name && forall|k: int|
            0 <= k < i ==> (#[trigger] cats[k]).name != name);
    } else {
        assert forall|k: int| 0 <= k < cats.drop_first().len() implies cats.drop_first()[k]
            == cats[k + 1] by {}
        let wit = choose|i: int| 0 <= i < cats.len() && (#[trigger] cats[i]).name == name;
        assert(cats.drop_first()[wit - 1].name == name);
        assert(has_cat_named(cats.drop_first(), name));
        lemma_first_cat(cats.drop_first(), name);
        let i0 = choose|i: int|
            0 <= i < cats.drop_first().len() && (#[trigger] cats.drop_first()[i]).name == name
                && forall|k: int| 0 <= k < i ==> (#[trigger] cats.drop_first()[k]).name != name;
        let i = i0 + 1;
        assert(cats[i].name == name);
        assert forall|k: int| 0 <= k < i implies (#[trigger] cats[k]).name != name by {
            if k > 0 {
                assert(cats.drop_first()[k - 1] == cats[k]);
            }
        }
    }
}

/// Under unique student names, the student at a matching index is the one
/// `student_named` denotes.
proof fn lemma_student_named_unique(ss: Seq<StudentView>, name: Seq<char>, i: int)
    requires
        crate::model::student_names_unique(ss),
        0 <= i < ss.len(),
        ss[i].name == name,
    ensures
        student_named(ss, name) == ss[i],
{
    assert forall|k: int| 0 <= k < i implies (#[trigger] ss[k]).name != name by {}
    lemma_student_named_at(ss, name, i);
}

} // verus!
