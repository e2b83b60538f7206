//! Data model: categories, students, the working state, and its
//! well-formedness invariant.

use vstd::prelude::*;

verus! {

/// Error reported by a mutation that a field-level check rejects.
#[derive(Debug, PartialEq, Eq, Structural, Clone, Copy)]
pub enum FieldError {
    /// An add or rename would collide with an existing unique name.
    DuplicateName,
    /// A required name is blank, or a capacity is zero or would push
    /// the total of all capacities beyond what the machine can count.
    EmptyField,
}

/// A named activity with a bounded number of places.
#[derive(Debug, PartialEq, Eq)]
pub struct Category {
    pub name: String,
    pub max_placements: usize,
}

/// Mathematical value of a `Category`.
#[verifier::ext_equal]
pub ghost struct CategoryView {
    pub name: Seq<char>,
    pub max_placements: nat,
}

impl View for Category {
    type V = CategoryView;

    open spec fn view(&self) -> CategoryView {
        CategoryView { name: self.name@, max_placements: self.max_placements as nat }
    }
}

impl Clone for Category {
    fn clone(&self) -> (r: Self)
        ensures
            r == *self,
    {
        Category { name: self.name.clone(), max_placements: self.max_placements }
    }
}

/// Values of a sequence of categories.
pub open spec fn cat_views(s: Seq<Category>) -> Seq<CategoryView> {
    s.map_values(|c: Category| c@)
}

/// A named student with an ordered preference list and an exclusion list
/// over categories.
#[derive(Debug, PartialEq, Eq)]
pub struct Student {
    pub name: String,
    pub preferences: Vec<Category>,
    pub exclude: Vec<Category>,
}

/// Mathematical value of a `Student`.
#[verifier::ext_equal]
pub ghost struct StudentView {
    pub name: Seq<char>,
    pub preferences: Seq<CategoryView>,
    pub exclude: Seq<CategoryView>,
}

impl View for Student {
    type V = StudentView;

    open spec fn view(&self) -> StudentView {
        StudentView {
            name: self.name@,
            preferences: cat_views(self.preferences@),
            exclude: cat_views(self.exclude@),
        }
    }
}

/// Values of a sequence of students.
pub open spec fn student_views(s: Seq<Student>) -> Seq<StudentView> {
    s.map_values(|st: Student| st@)
}

fn clone_cat_vec(v: &Vec<Category>) -> (r: Vec<Category>)
    ensures
        r@ == v@,
{
    let mut out: Vec<Category> = Vec::new();
    let mut i: usize = 0;
    while i < v.len()
        invariant
            i <= v.len(),
            out@ == v@.subrange(0, i as int),
        decreases v.len() - i,
    {
        out.push(v[i].clone());
        assert(out@ =~= v@.subrange(0, i + 1 as int));
        i = i + 1;
    }
    assert(out@ =~= v@);
    out
}

impl Clone for Student {
    fn clone(&self) -> (r: Self)
        ensures
            r@ == self@,
    {
        Student {
            name: self.name.clone(),
            preferences: clone_cat_vec(&self.preferences),
            exclude: clone_cat_vec(&self.exclude),
        }
    }
}

/// The students placed in one category, in the order the engine returned.
#[derive(Debug, PartialEq, Eq)]
pub struct Placement {
    pub category_name: String,
    pub students: Vec<Student>,
}

/// Mathematical value of a `Placement`.
#[verifier::ext_equal]
pub ghost struct PlacementView {
    pub category_name: Seq<char>,
    pub students: Seq<StudentView>,
}

impl View for Placement {
    type V = PlacementView;

    open spec fn view(&self) -> PlacementView {
        PlacementView {
            category_name: self.category_name@,
            students: student_views(self.students@),
        }
    }
}

/// Values of a sequence of placements.
pub open spec fn placement_views(s: Seq<Placement>) -> Seq<PlacementView> {
    s.map_values(|p: Placement| p@)
}

/// Outcome of a matching run: placed students grouped by category name,
/// and the students the engine could not place.
#[derive(Debug, PartialEq, Eq)]
pub struct AssignmentResult {
    pub placed: Vec<Placement>,
    pub not_placable: Vec<Student>,
}

/// Mathematical value of an `AssignmentResult`.
#[verifier::ext_equal]
pub ghost struct AssignmentResultView {
    pub placed: Seq<PlacementView>,
    pub not_placable: Seq<StudentView>,
}

impl View for AssignmentResult {
    type V = AssignmentResultView;

    open spec fn view(&self) -> AssignmentResultView {
        AssignmentResultView {
            placed: placement_views(self.placed@),
            not_placable: student_views(self.not_placable@),
        }
    }
}

/// The whole editable working state: the unit of persistence.
#[derive(Debug, PartialEq, Eq)]
pub struct WorkingState {
    pub categories: Vec<Category>,
    pub students: Vec<Student>,
    pub multi_match_mode: bool,
    pub result: Option<AssignmentResult>,
}

/// Mathematical value of a `WorkingState`.
#[verifier::ext_equal]
pub ghost struct WorkingStateView {
    pub categories: Seq<CategoryView>,
    pub students: Seq<StudentView>,
    pub multi_match_mode: bool,
    pub result: Option<AssignmentResultView>,
}

impl View for WorkingState {
    type V = WorkingStateView;

    open spec fn view(&self) -> WorkingStateView {
        WorkingStateView {
            categories: cat_views(self.categories@),
            students: student_views(self.students@),
            multi_match_mode: self.multi_match_mode,
            result: match self.result {
                Some(ref r) => Some(r@),
                None => None,
            },
        }
    }
}

/// True when some category in `cats` carries `name`.
pub open spec fn has_cat_named(cats: Seq<CategoryView>, name: Seq<char>) -> bool {
    exists|i: int| 0 <= i < cats.len() && (#[trigger] cats[i]).name == name
}

/// True when some student in `ss` carries `name`.
pub open spec fn has_student_named(ss: Seq<StudentView>, name: Seq<char>) -> bool {
    exists|i: int| 0 <= i < ss.len() && (#[trigger] ss[i]).name == name
}

/// No two categories share a name.
pub open spec fn cat_names_unique(cats: Seq<CategoryView>) -> bool {
    forall|i: int, j: int| #![trigger cats[i], cats[j]]
        0 <= i < j < cats.len() ==> cats[i].name != cats[j].name
}

/// No two students share a name.
pub open spec fn student_names_unique(ss: Seq<StudentView>) -> bool {
    forall|i: int, j: int| #![trigger ss[i], ss[j]]
        0 <= i < j < ss.len() ==> ss[i].name != ss[j].name
}

/// Every entry is value-equal to some category of the store, so a rename
/// or removal of a category can keep every reference consistent.
pub open spec fn entries_wf(entries: Seq<CategoryView>, cats: Seq<CategoryView>) -> bool {
    forall|i: int| 0 <= i < entries.len() ==> cats.contains(#[trigger] entries[i])
}

/// The total of all capacities, the number of places a matching run
/// may hand out.
pub open spec fn cap_sum(cats: Seq<CategoryView>) -> nat
    decreases cats.len(),
{
    if cats.len() == 0 {
        0
    } else {
        cap_sum(cats.drop_last()) + cats.last().max_placements
    }
}

/// A prefix never exceeds the whole total.
pub proof fn lemma_cap_sum_take_le(cats: Seq<CategoryView>, i: int)
    requires
        0 <= i <= cats.len(),
    ensures
        cap_sum(cats.take(i)) <= cap_sum(cats),
    decreases cats.len() - i,
{
    if i < cats.len() {
        assert(cats.take(i + 1).drop_last() =~= cats.take(i));
        assert(cats.take(i + 1).last() == cats[i]);
        lemma_cap_sum_take_le(cats, i + 1);
    } else {
        assert(cats.take(i) =~= cats);
    }
}

/// One capacity never exceeds the total.
pub proof fn lemma_cap_sum_elem(cats: Seq<CategoryView>, k: int)
    requires
        0 <= k < cats.len(),
    ensures
        cats[k].max_placements <= cap_sum(cats),
{
    assert(cats.take(k + 1).drop_last() =~= cats.take(k));
    assert(cats.take(k + 1).last() == cats[k]);
    lemma_cap_sum_take_le(cats, k + 1);
}

/// Replacing one category trades exactly its capacity for the new one.
pub proof fn lemma_cap_sum_update(cats: Seq<CategoryView>, k: int, c: CategoryView)
    requires
        0 <= k < cats.len(),
    ensures
        cap_sum(cats.update(k, c)) + cats[k].max_placements == cap_sum(cats) + c.max_placements,
    decreases cats.len(),
{
    let u = cats.update(k, c);
    if k == cats.len() - 1 {
        assert(u.drop_last() =~= cats.drop_last());
        assert(u.last() == c);
    } else {
        assert(u.drop_last() =~= cats.drop_last().update(k, c));
        assert(u.last() == cats.last());
        lemma_cap_sum_update(cats.drop_last(), k, c);
    }
}

/// Total the capacities; under the invariant the total fits.
#[verifier::loop_isolation(false)]
pub fn sum_caps(v: &Vec<Category>) -> (r: usize)
    requires
        cap_sum(cat_views(v@)) <= usize::MAX as nat,
    ensures
        r as nat == cap_sum(cat_views(v@)),
{
    let ghost views = cat_views(v@);
    let mut acc: usize = 0;
    let mut i: usize = 0;
    while i < v.len()
        invariant
            i <= v.len(),
            acc as nat == cap_sum(views.take(i as int)),
        decreases v.len() - i,
    {
        proof {
            assert(views.take(i + 1).drop_last() =~= views.take(i as int));
            assert(views.take(i + 1).last() == views[i as int]);
            lemma_cap_sum_take_le(views, i + 1);
        }
        acc = acc + v[i].max_placements;
        i = i + 1;
    }
    proof {
        assert(views.take(v@.len() as int) =~= views);
    }
    acc
}

/// True when the capacities can be totalled on this machine at all.
#[verifier::loop_isolation(false)]
pub fn caps_total_ok(v: &Vec<Category>) -> (r: bool)
    ensures
        r == (cap_sum(cat_views(v@)) <= usize::MAX as nat),
{
    let ghost views = cat_views(v@);
    let mut acc: usize = 0;
    let mut i: usize = 0;
    while i < v.len()
        invariant
            i <= v.len(),
            acc as nat == cap_sum(views.take(i as int)),
        decreases v.len() - i,
    {
        proof {
            assert(views.take(i + 1).drop_last() =~= views.take(i as int));
            assert(views.take(i + 1).last() == views[i as int]);
            lemma_cap_sum_take_le(views, i + 1);
        }
        let m = v[i].max_placements;
        if m > usize::MAX - acc {
            return false;
        }
        acc = acc + m;
        i = i + 1;
    }
    proof {
        assert(views.take(v@.len() as int) =~= views);
    }
    true
}

impl StudentView {
    /// A student is well formed against the store's categories: named,
    /// both lists referentially intact, free of duplicates, and with no
    /// category both preferred and excluded.
    pub open spec fn wf(self, cats: Seq<CategoryView>) -> bool {
        &&& self.name.len() > 0
        &&& entries_wf(self.preferences, cats)
        &&& entries_wf(self.exclude, cats)
        &&& cat_names_unique(self.preferences)
        &&& cat_names_unique(self.exclude)
        &&& forall|i: int, j: int| #![trigger self.preferences[i], self.exclude[j]]
            0 <= i < self.preferences.len() && 0 <= j < self.exclude.len()
                ==> self.preferences[i].name != self.exclude[j].name
    }
}

impl WorkingStateView {
    /// The invariant every reachable working state satisfies.
    pub open spec fn wf(self) -> bool {
        &&& cat_names_unique(self.categories)
        &&& forall|i: int| 0 <= i < self.categories.len()
            ==> (#[trigger] self.categories[i]).name.len() > 0
                && self.categories[i].max_placements > 0
        &&& cap_sum(self.categories) <= usize::MAX as nat
        &&& student_names_unique(self.students)
        &&& forall|i: int| 0 <= i < self.students.len()
            ==> (#[trigger] self.students[i]).wf(self.categories)
    }

    /// The state a fresh session starts from.
    pub open spec fn empty() -> WorkingStateView {
        WorkingStateView {
            categories: Seq::empty(),
            students: Seq::empty(),
            multi_match_mode: false,
            result: None,
        }
    }
}

/// True when the store holds a category carrying `name`.
pub fn contains_cat_named(v: &Vec<Category>, name: &String) -> (b: bool)
    ensures
        b == has_cat_named(cat_views(v@), name@),
{
    let mut i: usize = 0;
    while i < v.len()
        invariant
            i <= v.len(),
            forall|k: int| 0 <= k < i ==> (#[trigger] v@[k])@.name != name@,
        decreases v.len() - i,
    {
        if v[i].name == *name {
            assert(cat_views(v@)[i as int].name == name@);
            return true;
        }
        i = i + 1;
    }
    assert(forall|k: int| 0 <= k < v@.len() ==> (#[trigger] cat_views(v@)[k]).name != name@);
    false
}

/// True when the store holds a student carrying `name`.
pub fn contains_student_named(v: &Vec<Student>, name: &String) -> (b: bool)
    ensures
        b == has_student_named(student_views(v@), name@),
{
    let mut i: usize = 0;
    while i < v.len()
        invariant
            i <= v.len(),
            forall|k: int| 0 <= k < i ==> (#[trigger] v@[k])@.name != name@,
        decreases v.len() - i,
    {
        if v[i].name == *name {
            assert(student_views(v@)[i as int].name == name@);
            return true;
        }
        i = i + 1;
    }
    assert(forall|k: int| 0 <= k < v@.len() ==> (#[trigger] student_views(v@)[k]).name != name@);
    false
}

/// First index of a category carrying `name`, if any.
pub fn find_cat_named(v: &Vec<Category>, name: &String) -> (r: Option<usize>)
    ensures
        match r {
            Some(i) => i < v@.len() && cat_views(v@)[i as int].name == name@
                && forall|k: int| 0 <= k < i ==> (#[trigger] cat_views(v@)[k]).name != name@,
            None => !has_cat_named(cat_views(v@), name@),
        },
{
    let mut i: usize = 0;
    while i < v.len()
        invariant
            i <= v.len(),
            forall|k: int| 0 <= k < i ==> (#[trigger] v@[k])@.name != name@,
        decreases v.len() - i,
    {
        if v[i].name == *name {
            return Some(i);
        }
        i = i + 1;
    }
    assert(forall|k: int| 0 <= k < v@.len() ==> (#[trigger] cat_views(v@)[k]).name != name@);
    None
}

/// First index of a student carrying `name`, if any.
pub fn find_student_named(v: &Vec<Student>, name: &String) -> (r: Option<usize>)
    ensures
        match r {
            Some(i) => i < v@.len() && student_views(v@)[i as int].name == name@
                && forall|k: int| 0 <= k < i ==> (#[trigger] student_views(v@)[k]).name != name@,
            None => !has_student_named(student_views(v@), name@),
        },
{
    let mut i: usize = 0;
    while i < v.len()
        invariant
            i <= v.len(),
            forall|k: int| 0 <= k < i ==> (#[trigger] v@[k])@.name != name@,
        decreases v.len() - i,
    {
        if v[i].name == *name {
            return Some(i);
        }
        i = i + 1;
    }
    assert(forall|k: int| 0 <= k < v@.len() ==> (#[trigger] student_views(v@)[k]).name != name@);
    None
}

/// True when the two categories carry the same name and capacity.
pub fn cat_value_eq(a: &Category, b: &Category) -> (r: bool)
    ensures
        r == (a@ == b@),
{
    let same = a.name == b.name && a.max_placements == b.max_placements;
    proof {
        if same {
            assert(a@ =~= b@);
        }
    }
    same
}

/// True when the list holds an entry value-equal to `c`.
pub fn contains_cat_value(v: &Vec<Category>, c: &Category) -> (r: bool)
    ensures
        r == cat_views(v@).contains(c@),
{
    let mut i: usize = 0;
    while i < v.len()
        invariant
            i <= v.len(),
            forall|k: int| 0 <= k < i ==> (#[trigger] v@[k])@ != c@,
        decreases v.len() - i,
    {
        if cat_value_eq(&v[i], c) {
            assert(cat_views(v@)[i as int] == c@);
            return true;
        }
        i = i + 1;
    }
    assert(forall|k: int| 0 <= k < cat_views(v@).len() ==> (#[trigger] cat_views(v@)[k]) != c@);
    false
}

/// True when no two categories of the list share a name.
#[verifier::loop_isolation(false)]
pub fn names_unique(v: &Vec<Category>) -> (r: bool)
    ensures
        r == cat_names_unique(cat_views(v@)),
{
    let ghost views = cat_views(v@);
    let mut i: usize = 0;
    while i < v.len()
        invariant
            i <= v.len(),
            forall|a: int, b: int| #![trigger views[a], views[b]]
                0 <= a < b < views.len() && a < i ==> views[a].name != views[b].name,
        decreases v.len() - i,
    {
        let mut j: usize = i + 1;
        while j < v.len()
            invariant
                i < j <= v.len(),
                forall|b: int| i < b < j ==> views[i as int].name != (#[trigger] views[b]).name,
            decreases v.len() - j,
        {
            if v[i].name == v[j].name {
                assert(views[i as int].name == views[j as int].name);
                return false;
            }
            j = j + 1;
        }
        i = i + 1;
    }
    true
}

/// True when no two students of the list share a name.
#[verifier::loop_isolation(false)]
pub fn student_names_unique_check(v: &Vec<Student>) -> (r: bool)
    ensures
        r == student_names_unique(student_views(v@)),
{
    let ghost views = student_views(v@);
    let mut i: usize = 0;
    while i < v.len()
        invariant
            i <= v.len(),
            forall|a: int, b: int| #![trigger views[a], views[b]]
                0 <= a < b < views.len() && a < i ==> views[a].name != views[b].name,
        decreases v.len() - i,
    {
        let mut j: usize = i + 1;
        while j < v.len()
            invariant
                i < j <= v.len(),
                forall|b: int| i < b < j ==> views[i as int].name != (#[trigger] views[b]).name,
            decreases v.len() - j,
        {
            if v[i].name == v[j].name {
                assert(views[i as int].name == views[j as int].name);
                return false;
            }
            j = j + 1;
        }
        i = i + 1;
    }
    true
}

/// True when every entry of the list is value-equal to a store category.
#[verifier::loop_isolation(false)]
pub fn entries_in_store(entries: &Vec<Category>, cats: &Vec<Category>) -> (r: bool)
    ensures
        r == entries_wf(cat_views(entries@), cat_views(cats@)),
{
    let ghost views = cat_views(entries@);
    let mut i: usize = 0;
    while i < entries.len()
        invariant
            i <= entries.len(),
            forall|k: int| 0 <= k < i ==> cat_views(cats@).contains(#[trigger] views[k]),
        decreases entries.len() - i,
    {
        if !contains_cat_value(cats, &entries[i]) {
            assert(!cat_views(cats@).contains(views[i as int]));
            return false;
        }
        i = i + 1;
    }
    true
}

/// True when no name occurs in both lists.
#[verifier::loop_isolation(false)]
pub fn lists_disjoint(p: &Vec<Category>, e: &Vec<Category>) -> (r: bool)
    ensures
        r == (forall|i: int, j: int| #![trigger cat_views(p@)[i], cat_views(e@)[j]]
            0 <= i < p@.len() && 0 <= j < e@.len() ==> cat_views(p@)[i].name != cat_views(
                e@,
            )[j].name),
{
    let ghost pv = cat_views(p@);
    let ghost ev = cat_views(e@);
    let mut i: usize = 0;
    while i < p.len()
        invariant
            i <= p.len(),
            forall|a: int, b: int| #![trigger pv[a], ev[b]]
                0 <= a < i && 0 <= b < ev.len() ==> pv[a].name != ev[b].name,
        decreases p.len() - i,
    {
        let mut j: usize = 0;
        while j < e.len()
            invariant
                i < p.len(),
                j <= e.len(),
                forall|b: int| 0 <= b < j ==> pv[i as int].name != (#[trigger] ev[b]).name,
            decreases e.len() - j,
        {
            if p[i].name == e[j].name {
                assert(pv[i as int].name == ev[j as int].name);
                return false;
            }
            j = j + 1;
        }
        i = i + 1;
    }
    true
}

/// True when every category carries a name and a positive capacity.
#[verifier::loop_isolation(false)]
pub fn cats_fields_ok(v: &Vec<Category>) -> (r: bool)
    ensures
        r == (forall|i: int| 0 <= i < v@.len() ==> (#[trigger] cat_views(v@)[i]).name.len() > 0
            && cat_views(v@)[i].max_placements > 0),
{
    let ghost views = cat_views(v@);
    let mut i: usize = 0;
    while i < v.len()
        invariant
            i <= v.len(),
            forall|k: int| 0 <= k < i ==> (#[trigger] views[k]).name.len() > 0
                && views[k].max_placements > 0,
        decreases v.len() - i,
    {
        if v[i].name.as_str().is_empty() || v[i].max_placements == 0 {
            assert(!(views[i as int].name.len() > 0 && views[i as int].max_placements > 0));
            return false;
        }
        i = i + 1;
    }
    true
}

/// True when the student is well formed against the store's categories.
pub fn student_check(s: &Student, cats: &Vec<Category>) -> (r: bool)
    ensures
        r == s@.wf(cat_views(cats@)),
{
    if s.name.as_str().is_empty() {
        return false;
    }
    if !entries_in_store(&s.preferences, cats) {
        return false;
    }
    if !entries_in_store(&s.exclude, cats) {
        return false;
    }
    if !names_unique(&s.preferences) {
        return false;
    }
    if !names_unique(&s.exclude) {
        return false;
    }
    if !lists_disjoint(&s.preferences, &s.exclude) {
        return false;
    }
    true
}

impl WorkingState {
    /// Decide the well-formedness invariant by inspection: the check a
    /// freshly deserialized state must pass before it is trusted.
    #[verifier::loop_isolation(false)]
    pub fn check_wf(&self) -> (r: bool)
        ensures
            r == self@.wf(),
    {
        if !cats_fields_ok(&self.categories) {
            return false;
        }
        if !caps_total_ok(&self.categories) {
            return false;
        }
        if !names_unique(&self.categories) {
            return false;
        }
        if !student_names_unique_check(&self.students) {
            return false;
        }
        let mut i: usize = 0;
        while i < self.students.len()
            invariant
                i <= self.students.len(),
                forall|k: int| 0 <= k < i ==> (#[trigger] self@.students[k]).wf(self@.categories),
        decreases self.students.len() - i,
        {
            if !student_check(&self.students[i], &self.categories) {
                assert(!self@.students[i as int].wf(self@.categories));
                return false;
            }
            i = i + 1;
        }
        true
    }

    /// Return the empty working state.
    pub fn new() -> (r: WorkingState)
        ensures
            r@ == WorkingStateView::empty(),
            r@.wf(),
    {
        let r = WorkingState {
            categories: Vec::new(),
            students: Vec::new(),
            multi_match_mode: false,
            result: None,
        };
        assert(r@ =~= WorkingStateView::empty());
        r
    }
}

} // verus!
