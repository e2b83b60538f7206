//! Edit coordinator and command surface: the working state together with
//! the process-wide single-editor flag, and the typed commands the
//! surrounding surface hands in.

use vstd::prelude::*;
use crate::model::Category;
use crate::model::FieldError;
use crate::model::WorkingState;
use crate::model::WorkingStateView;
use crate::gateway::engine_result_lawful;
use crate::prefs::add_exclude_post;
use crate::prefs::add_preference_post;
use crate::prefs::move_preference_post;
use crate::prefs::remove_exclude_post;
use crate::prefs::remove_preference_post;
use crate::store::add_category_post;
use crate::store::add_student_post;
use crate::store::opt_nat;
use crate::store::remove_category_post;
use crate::store::remove_student_post;
use crate::store::rename_category_post;
use crate::store::rename_student_post;

verus! {

/// The one row a rename form may be open for.
#[derive(Debug, PartialEq, Eq, Clone)]
pub enum EditTarget {
    Category(String),
    Student(String),
}

/// The working state together with the single-editor coordination flag.
/// Holding the open rename form in one optional field makes "at most one
/// entity is in edit mode" true by construction.
pub struct Workspace {
    pub state: WorkingState,
    pub edit_mode: Option<EditTarget>,
}

/// A user command, already typed and shaped by the surrounding surface.
#[derive(Debug, PartialEq, Eq, Clone)]
pub enum Command {
    AddCategory { name: String, max_placements: usize },
    RenameCategory { old_name: String, new_name: String, new_max_placements: Option<usize> },
    RemoveCategory { category: Category },
    AddStudent { name: String },
    RenameStudent { old_name: String, new_name: String },
    RemoveStudent { name: String },
    AddPreference { student: String, category: String },
    RemovePreference { student: String, category: String },
    MovePreference { student: String, dragged: String, target: String },
    AddExclude { student: String, category: String },
    RemoveExclude { student: String, category: String },
    ToggleMode,
    RequestMatch,
    ClearMatch,
    ResetAll,
}

impl Workspace {
    /// A fresh session: the empty state, nothing in edit mode.
    pub fn new() -> (r: Workspace)
        ensures
            r.state@ == WorkingStateView::empty(),
            r.state@.wf(),
            r.edit_mode is None,
    {
        Workspace { state: WorkingState::new(), edit_mode: None }
    }

    /// Open the rename form for one row; any other open form is
    /// superseded, so at most one row is ever editable.
    pub fn begin_edit(&mut self, target: EditTarget)
        ensures
            final(self).state == old(self).state,
            final(self).edit_mode == Some(target),
    {
        self.edit_mode = Some(target);
    }

    /// Commit a category rename form: apply the rename and leave edit
    /// mode whatever the outcome, so a rejected rename is silently
    /// dropped.
    pub fn rename_category(
        &mut self,
        old_name: &String,
        new_name: &String,
        new_max_placements: Option<usize>,
    ) -> (r: Result<(), FieldError>)
        requires
            old(self).state@.wf(),
        ensures
            final(self).state@.wf(),
            rename_category_post(
                old(self).state@,
                final(self).state@,
                old_name@,
                new_name@,
                opt_nat(new_max_placements),
                r,
            ),
            final(self).edit_mode is None,
    {
        let r = self.state.rename_category(old_name, new_name, new_max_placements);
        self.edit_mode = None;
        r
    }

    /// Commit a student rename form: apply the rename and leave edit
    /// mode whatever the outcome.
    pub fn rename_student(&mut self, old_name: &String, new_name: &String) -> (r: Result<
        (),
        FieldError,
    >)
        requires
            old(self).state@.wf(),
        ensures
            final(self).state@.wf(),
            rename_student_post(old(self).state@, final(self).state@, old_name@, new_name@, r),
            final(self).edit_mode is None,
    {
        let r = self.state.rename_student(old_name, new_name);
        self.edit_mode = None;
        r
    }

    /// Dispatch one typed command against the working state.  Every
    /// command preserves the invariant; a rename commit leaves edit
    /// mode, every other command leaves the flag as it stands.
    pub fn apply(&mut self, cmd: Command) -> (r: Result<(), FieldError>)
        requires
            old(self).state@.wf(),
        ensures
            final(self).state@.wf(),
            cmd matches Command::AddCategory { name, max_placements } ==> add_category_post(
                old(self).state@,
                final(self).state@,
                name@,
                max_placements as nat,
                r,
            ),
            cmd matches Command::RenameCategory { old_name, new_name, new_max_placements }
                ==> rename_category_post(
                old(self).state@,
                final(self).state@,
                old_name@,
                new_name@,
                opt_nat(new_max_placements),
                r,
            ) && final(self).edit_mode is None,
            cmd matches Command::RemoveCategory { category } ==> remove_category_post(
                old(self).state@,
                final(self).state@,
                category@,
            ) && r is Ok,
            cmd matches Command::AddStudent { name } ==> add_student_post(
                old(self).state@,
                final(self).state@,
                name@,
                r,
            ),
            cmd matches Command::RenameStudent { old_name, new_name } ==> rename_student_post(
                old(self).state@,
                final(self).state@,
                old_name@,
                new_name@,
                r,
            ) && final(self).edit_mode is None,
            cmd matches Command::RemoveStudent { name } ==> remove_student_post(
                old(self).state@,
                final(self).state@,
                name@,
            ) && r is Ok,
            cmd matches Command::AddPreference { student, category } ==> add_preference_post(
                old(self).state@,
                final(self).state@,
                student@,
                category@,
                r,
            ),
            cmd matches Command::RemovePreference { student, category } ==> remove_preference_post(
                old(self).state@,
                final(self).state@,
                student@,
                category@,
            ) && r is Ok,
            cmd matches Command::MovePreference { student, dragged, target }
                ==> move_preference_post(
                old(self).state@,
                final(self).state@,
                student@,
                dragged@,
                target@,
            ) && r is Ok,
            cmd matches Command::AddExclude { student, category } ==> add_exclude_post(
                old(self).state@,
                final(self).state@,
                student@,
                category@,
                r,
            ),
            cmd matches Command::RemoveExclude { student, category } ==> remove_exclude_post(
                old(self).state@,
                final(self).state@,
                student@,
                category@,
            ) && r is Ok,
            cmd == Command::ToggleMode ==> final(self).state@ == (WorkingStateView {
                multi_match_mode: !old(self).state@.multi_match_mode,
                ..old(self).state@
            }) && r is Ok,
            cmd == Command::RequestMatch ==> {
                &&& final(self).state@.result is Some
                &&& final(self).state@.categories == old(self).state@.categories
                &&& final(self).state@.students == old(self).state@.students
                &&& final(self).state@.multi_match_mode == old(self).state@.multi_match_mode
                &&& engine_result_lawful(
                    final(self).state@.result.unwrap(),
                    old(self).state@.students,
                    old(self).state@.categories,
                    old(self).state@.multi_match_mode,
                )
                &&& r is Ok
            },
            cmd == Command::ClearMatch ==> final(self).state@ == (WorkingStateView {
                result: None,
                ..old(self).state@
            }) && r is Ok,
            cmd == Command::ResetAll ==> final(self).state@ == WorkingStateView::empty() && r
                is Ok,
            !(cmd matches Command::RenameCategory { .. }) && !(cmd
                matches Command::RenameStudent { .. }) ==> final(self).edit_mode == old(
                self,
            ).edit_mode,
    {
        match cmd {
            Command::AddCategory { name, max_placements } => self.state.add_category(
                name,
                max_placements,
            ),
            Command::RenameCategory { old_name, new_name, new_max_placements } => self
                .rename_category(&old_name, &new_name, new_max_placements),
            Command::RemoveCategory { category } => {
                self.state.remove_category(&category);
                Ok(())
            },
            Command::AddStudent { name } => self.state.add_student(name),
            Command::RenameStudent { old_name, new_name } => self.rename_student(
                &old_name,
                &new_name,
            ),
            Command::RemoveStudent { name } => {
                self.state.remove_student(&name);
                Ok(())
            },
            Command::AddPreference { student, category } => self.state.add_preference(
                &student,
                &category,
            ),
            Command::RemovePreference { student, category } => {
                self.state.remove_preference(&student, &category);
                Ok(())
            },
            Command::MovePreference { student, dragged, target } => {
                self.state.move_preference(&student, &dragged, &target);
                Ok(())
            },
            Command::AddExclude { student, category } => self.state.add_exclude(
                &student,
                &category,
            ),
            Command::RemoveExclude { student, category } => {
                self.state.remove_exclude(&student, &category);
                Ok(())
            },
            Command::ToggleMode => {
                self.state.toggle_mode();
                Ok(())
            },
            Command::RequestMatch => {
                self.state.request_match();
                Ok(())
            },
            Command::ClearMatch => {
                self.state.clear_match();
                Ok(())
            },
            Command::ResetAll => {
                self.state.reset();
                Ok(())
            },
        }
    }
}

} // verus!
