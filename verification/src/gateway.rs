//! Matching gateway: snapshots the working state, calls the external
//! matching engine, and stores the returned assignment.

use vstd::prelude::*;
use crate::model::AssignmentResult;
use crate::model::AssignmentResultView;
use crate::model::Category;
use crate::model::CategoryView;
use crate::model::Placement;
use crate::model::PlacementView;
use crate::model::Student;
use crate::model::StudentView;
use crate::model::WorkingState;
use crate::model::WorkingStateView;
use crate::model::cap_sum;
use crate::model::cat_names_unique;
use crate::model::cat_views;
use crate::model::has_cat_named;
use crate::model::has_student_named;
use crate::model::student_names_unique;
use crate::model::student_views;
use crate::prefs::cat_named;
use crate::prefs::student_named;
use matchmaker::Category as EngineCategory;
use matchmaker::MatchResult as EngineMatchResult;
use matchmaker::Student as EngineStudent;

verus! {

/// One returned placement group is lawful against the request: its key
/// names a store category, it holds no more students than that
/// category's capacity, and its members are input students, each at most
/// once, none of whom excludes the category.
pub open spec fn placement_lawful(
    p: PlacementView,
    students: Seq<StudentView>,
    cats: Seq<CategoryView>,
) -> bool {
    &&& has_cat_named(cats, p.category_name)
    &&& p.students.len() <= cat_named(cats, p.category_name).max_placements
    &&& forall|j: int| 0 <= j < p.students.len() ==> has_student_named(
        students,
        (#[trigger] p.students[j]).name,
    )
    &&& forall|j: int, l: int| #![trigger p.students[j], p.students[l]]
        0 <= j < l < p.students.len() ==> p.students[j].name != p.students[l].name
    &&& forall|j: int| 0 <= j < p.students.len() ==> !has_cat_named(
        student_named(students, (#[trigger] p.students[j]).name).exclude,
        p.category_name,
    )
}

/// True when some placement group of the result holds a student carrying
/// `name`.
pub open spec fn placed_somewhere(r: AssignmentResultView, name: Seq<char>) -> bool {
    exists|i: int|
        0 <= i < r.placed.len() && has_student_named((#[trigger] r.placed[i]).students, name)
}

/// True when the student carrying `name` stands somewhere in the result.
pub open spec fn appears_in_result(r: AssignmentResultView, name: Seq<char>) -> bool {
    placed_somewhere(r, name) || has_student_named(r.not_placable, name)
}

/// True when the result holds a group for `c` that is at capacity.
pub open spec fn category_filled(r: AssignmentResultView, c: CategoryView) -> bool {
    exists|i: int|
        0 <= i < r.placed.len() && (#[trigger] r.placed[i]).category_name == c.name
            && r.placed[i].students.len() >= c.max_placements
}

/// In single-assignment mode no student stands in two groups.
pub open spec fn single_placement(r: AssignmentResultView) -> bool {
    forall|i: int, k: int, j: int| #![trigger r.placed[i].students[j], r.placed[k]]
        0 <= i < r.placed.len() && 0 <= k < r.placed.len() && i != k
            && 0 <= j < r.placed[i].students.len()
            ==> !has_student_named(r.placed[k].students, r.placed[i].students[j].name)
}

/// Every input student stands somewhere in the result.  In
/// multi-assignment mode the engine runs its rounds only when the
/// capacity total is positive and below the machine's largest count, so
/// the promise is scoped to that case.
pub open spec fn result_covers_students(
    r: AssignmentResultView,
    students: Seq<StudentView>,
    cats: Seq<CategoryView>,
    multi: bool,
) -> bool {
    (!multi || (0 < cap_sum(cats) && cap_sum(cats) < usize::MAX as nat)) ==> forall|k: int|
        0 <= k < students.len() ==> appears_in_result(r, (#[trigger] students[k]).name)
}

/// The unplaced list is lawful: it holds input students, each at most
/// once and in no placement group, and only students for whom every
/// store category is already at capacity or excluded.
pub open spec fn unplaced_lawful(
    r: AssignmentResultView,
    students: Seq<StudentView>,
    cats: Seq<CategoryView>,
) -> bool {
    &&& forall|j: int| 0 <= j < r.not_placable.len() ==> has_student_named(
        students,
        (#[trigger] r.not_placable[j]).name,
    )
    &&& forall|j: int, l: int| #![trigger r.not_placable[j], r.not_placable[l]]
        0 <= j < l < r.not_placable.len() ==> r.not_placable[j].name != r.not_placable[l].name
    &&& forall|j: int| 0 <= j < r.not_placable.len() ==> !placed_somewhere(
        r,
        (#[trigger] r.not_placable[j]).name,
    )
    &&& forall|j: int, ci: int| #![trigger r.not_placable[j], cats[ci]]
        0 <= j < r.not_placable.len() && 0 <= ci < cats.len() ==> category_filled(r, cats[ci])
            || has_cat_named(
            student_named(students, r.not_placable[j].name).exclude,
            cats[ci].name,
        )
}

/// What holds of every assignment the engine can return, whatever its
/// random tie-breaks: lawful groups with pairwise distinct category
/// names, every student accounted for, a lawful unplaced list, and in
/// single-assignment mode each student placed at most once.
pub open spec fn engine_result_lawful(
    r: AssignmentResultView,
    students: Seq<StudentView>,
    cats: Seq<CategoryView>,
    multi: bool,
) -> bool {
    &&& forall|i: int| 0 <= i < r.placed.len() ==> placement_lawful(
        #[trigger] r.placed[i],
        students,
        cats,
    )
    &&& forall|i: int, k: int| #![trigger r.placed[i], r.placed[k]]
        0 <= i < k < r.placed.len() ==> r.placed[i].category_name != r.placed[k].category_name
    &&& result_covers_students(r, students, cats, multi)
    &&& unplaced_lawful(r, students, cats)
    &&& (!multi ==> single_placement(r))
}

#[verifier::external_type_specification]
#[verifier::external_body]
pub struct ExEngineCategory(EngineCategory);

#[verifier::external_type_specification]
#[verifier::external_body]
pub struct ExEngineStudent(EngineStudent);

#[verifier::external_type_specification]
#[verifier::external_body]
pub struct ExEngineMatchResult(EngineMatchResult);

/// Relies on matchmaker::Category::new: builds the engine's category
/// value from a name and a capacity.
#[verifier::external_body]
fn to_engine_category(c: &Category) -> EngineCategory {
    EngineCategory::new(&c.name, c.max_placements)
}

/// Relies on matchmaker::Student::new: builds the engine's student value
/// from a name, ordered preferences and exclusions.
#[verifier::external_body]
fn to_engine_student(s: &Student) -> EngineStudent {
    let preferences: std::collections::VecDeque<EngineCategory> = s.preferences.iter().map(
        to_engine_category,
    ).collect();
    let exclude: Vec<EngineCategory> = s.exclude.iter().map(to_engine_category).collect();
    EngineStudent::new(&s.name, preferences, exclude)
}

/// Relies on the public fields of matchmaker::Category: carries the
/// engine's category back as plain values.
#[verifier::external_body]
fn from_engine_category(c: &EngineCategory) -> Category {
    Category { name: c.name.clone(), max_placements: c.max_placements }
}

/// Relies on the public fields of matchmaker::Student: carries the
/// engine's student back as plain values.
#[verifier::external_body]
fn from_engine_student(s: &EngineStudent) -> Student {
    Student {
        name: s.name.clone(),
        preferences: s.preferences.iter().map(from_engine_category).collect(),
        exclude: s.exclude.iter().map(from_engine_category).collect(),
    }
}

/// Relies on the public fields of matchmaker::MatchResult: carries the
/// engine's grouping back as plain values, in the order the map hands
/// its entries out.
#[verifier::external_body]
fn from_engine_result(r: EngineMatchResult) -> AssignmentResult {
    let mut placed: Vec<Placement> = Vec::new();
    for (category_name, group) in r.placed.into_iter() {
        let students: Vec<Student> = group.iter().map(from_engine_student).collect();
        placed.push(Placement { category_name, students });
    }
    let not_placable: Vec<Student> = r.not_placable.iter().map(from_engine_student).collect();
    AssignmentResult { placed, not_placable }
}

/// Relies on matchmaker::da_stb::match_students and
/// matchmaker::da_stb::match_students_to_multiple_categories: the
/// deferred-acceptance matching over a working copy of the data.  The
/// engine draws its tie-break lots from the operating system's random
/// source, so two calls on the same input may differ; what is stated is
/// only what holds of every outcome.  The engine places students solely
/// under names taken from their preference lists or from the given
/// categories, truncates every group to its category's capacity before
/// finishing, fills open spots only while a group is below capacity,
/// skips any category on a student's exclusion list, moves every student
/// into exactly one of placed or unplaced (single mode; in multi mode a
/// student may be placed repeatedly but never after landing in the
/// unplaced list), and leaves a student unplaced only once every
/// category is at capacity or excluded for them.  The preconditions keep
/// out what the engine does not survive or account for: in multi mode
/// it totals all capacities in one machine word and skips its rounds
/// entirely when that total is zero or the largest count, a preference
/// naming no given category would open a group no capacity rule
/// governs, and a zero-capacity category that nobody prefers gets no
/// group at all, so only positive capacities let an unplaced student's
/// closed categories show up as groups at capacity.
#[verifier::external_body]
fn run_engine(students: &Vec<Student>, categories: &Vec<Category>, multi: bool) -> (r:
    AssignmentResult)
    requires
        cat_names_unique(cat_views(categories@)),
        student_names_unique(student_views(students@)),
        forall|k: int| 0 <= k < categories@.len() ==> (#[trigger] cat_views(
            categories@,
        )[k]).max_placements > 0,
        forall|k: int, j: int| #![trigger student_views(students@)[k].preferences[j]]
            0 <= k < students@.len() && 0 <= j < student_views(students@)[k].preferences.len()
                ==> has_cat_named(
                cat_views(categories@),
                student_views(students@)[k].preferences[j].name,
            ),
        multi ==> cap_sum(cat_views(categories@)) <= usize::MAX as nat,
    ensures
        engine_result_lawful(r@, student_views(students@), cat_views(categories@), multi),
{
    let engine_students: Vec<matchmaker::Student> = students.iter().map(to_engine_student).collect();
    let engine_categories: Vec<matchmaker::Category> = categories.iter().map(
        to_engine_category,
    ).collect();
    let mut rng = rand::rngs::OsRng;
    let outcome = if multi {
        matchmaker::da_stb::match_students_to_multiple_categories(
            engine_students,
            &engine_categories,
            &mut rng,
        )
    } else {
        matchmaker::da_stb::match_students(engine_students, &engine_categories, &mut rng)
    };
    from_engine_result(outcome)
}

impl crate::model::AssignmentResult {
    /// The students placed in the category carrying `name`, if the
    /// engine placed any.
    pub fn placed_for(&self, name: &String) -> (r: Option<&Vec<Student>>)
        ensures
            match r {
                Some(v) => exists|i: int|
                    0 <= i < self@.placed.len() && (#[trigger] self@.placed[i]).category_name
                        == name@ && crate::model::student_views(v@) == self@.placed[i].students,
                None => forall|i: int|
                    0 <= i < self@.placed.len() ==> (#[trigger] self@.placed[i]).category_name
                        != name@,
            },
    {
        let mut i: usize = 0;
        while i < self.placed.len()
            invariant
                i <= self.placed.len(),
                forall|k: int| 0 <= k < i ==> (#[trigger] self.placed@[k])@.category_name != name@,
            decreases self.placed.len() - i,
        {
            if self.placed[i].category_name == *name {
                assert(self@.placed[i as int].category_name == name@);
                return Some(&self.placed[i].students);
            }
            i = i + 1;
        }
        assert(forall|k: int|
            0 <= k < self@.placed.len() ==> (#[trigger] self@.placed[k]).category_name != name@);
        None
    }
}

impl WorkingState {
    /// Hand the current categories and students to the matching engine
    /// in the current mode and store the assignment it returns; the
    /// entities and the mode are untouched, and the stored assignment is
    /// lawful against them.
    pub fn request_match(&mut self)
        requires
            old(self)@.wf(),
        ensures
            final(self)@.wf(),
            final(self)@.result is Some,
            final(self)@.categories == old(self)@.categories,
            final(self)@.students == old(self)@.students,
            final(self)@.multi_match_mode == old(self)@.multi_match_mode,
            engine_result_lawful(
                final(self)@.result.unwrap(),
                old(self)@.students,
                old(self)@.categories,
                old(self)@.multi_match_mode,
            ),
    {
        proof {
            assert forall|k: int, j: int| #![trigger student_views(self.students@)[k].preferences[j]]
                0 <= k < self.students@.len() && 0 <= j < student_views(
                    self.students@,
                )[k].preferences.len() implies has_cat_named(
                cat_views(self.categories@),
                student_views(self.students@)[k].preferences[j].name,
            ) by {
                let sv = self@.students[k];
                assert(sv.wf(self@.categories));
                assert(self@.categories.contains(sv.preferences[j]));
                let w = choose|w: int|
                    0 <= w < self@.categories.len() && self@.categories[w] == sv.preferences[j];
                assert(self@.categories[w].name == sv.preferences[j].name);
            }
        }
        let outcome = run_engine(&self.students, &self.categories, self.multi_match_mode);
        self.result = Some(outcome);
    }

    /// Discard a stored assignment, leaving everything else in place.
    pub fn clear_match(&mut self)
        requires
            old(self)@.wf(),
        ensures
            final(self)@.wf(),
            final(self)@ == (WorkingStateView { result: None, ..old(self)@ }),
    {
        self.result = None;
        proof {
            assert(self@ =~= (WorkingStateView { result: None, ..old(self)@ }));
        }
    }

    /// Flip between single-assignment and multi-assignment mode.
    pub fn toggle_mode(&mut self)
        requires
            old(self)@.wf(),
        ensures
            final(self)@.wf(),
            final(self)@ == (WorkingStateView {
                multi_match_mode: !old(self)@.multi_match_mode,
                ..old(self)@
            }),
    {
        self.multi_match_mode = !self.multi_match_mode;
        proof {
            assert(self@ =~= (WorkingStateView {
                multi_match_mode: !old(self)@.multi_match_mode,
                ..old(self)@
            }));
        }
    }

    /// Throw everything away and start from the empty state.
    pub fn reset(&mut self)
        ensures
            final(self)@ == WorkingStateView::empty(),
            final(self)@.wf(),
    {
        *self = WorkingState::new();
    }
}

} // verus!
