//! A change to the store, and the change that takes it back.
//!
//! Every edit the interface makes is one of these: it is applied to the list on screen at
//! once, queued for the server, and its inverse is kept so that `u` can take it back.
use crate::models::{Label, LabelView, Task, TaskView};
use vstd::prelude::*;

verus! {

/// One write, with enough of the before and after to apply it and to undo it.
pub enum Mutation {
    /// A task that did not exist.
    CreateTask { task: Task },
    /// A task changed from `before` to `after`.
    UpdateTask { before: Task, after: Task },
    /// A task removed, as it was.
    DeleteTask { before: Task },
    /// A label put on a task.
    AttachLabel { task: i64, label: Label },
    /// A label taken off a task.
    DetachLabel { task: i64, label: Label },
    /// A label renamed or recoloured.
    UpdateLabel { before: Label, after: Label },
    /// A label that did not exist.
    CreateLabel { label: Label },
}

/// A mutation as a value.
pub enum MutationView {
    CreateTask { task: TaskView },
    UpdateTask { before: TaskView, after: TaskView },
    DeleteTask { before: TaskView },
    AttachLabel { task: i64, label: LabelView },
    DetachLabel { task: i64, label: LabelView },
    UpdateLabel { before: LabelView, after: LabelView },
    CreateLabel { label: LabelView },
}

impl View for Mutation {
    type V = MutationView;

    open spec fn view(&self) -> MutationView {
        match self {
            Mutation::CreateTask { task } => MutationView::CreateTask { task: task@ },
            Mutation::UpdateTask { before, after } => MutationView::UpdateTask {
                before: before@,
                after: after@,
            },
            Mutation::DeleteTask { before } => MutationView::DeleteTask { before: before@ },
            Mutation::AttachLabel { task, label } => MutationView::AttachLabel {
                task: *task,
                label: label@,
            },
            Mutation::DetachLabel { task, label } => MutationView::DetachLabel {
                task: *task,
                label: label@,
            },
            Mutation::UpdateLabel { before, after } => MutationView::UpdateLabel {
                before: before@,
                after: after@,
            },
            Mutation::CreateLabel { label } => MutationView::CreateLabel { label: label@ },
        }
    }
}

/// The change that takes `m` back: a create is undone by a delete and a delete by
/// creating the task again, an update by the update the other way, an attach by a detach
/// and the reverse. Creating a label has none: the server keeps the labels it is given.
pub open spec fn inverse_of(m: MutationView) -> Option<MutationView> {
    match m {
        MutationView::CreateTask { task } => Some(MutationView::DeleteTask { before: task }),
        MutationView::UpdateTask { before, after } => Some(
            MutationView::UpdateTask { before: after, after: before },
        ),
        MutationView::DeleteTask { before } => Some(MutationView::CreateTask { task: before }),
        MutationView::AttachLabel { task, label } => Some(MutationView::DetachLabel { task, label }),
        MutationView::DetachLabel { task, label } => Some(MutationView::AttachLabel { task, label }),
        MutationView::UpdateLabel { before, after } => Some(
            MutationView::UpdateLabel { before: after, after: before },
        ),
        MutationView::CreateLabel { .. } => None,
    }
}

/// An optional mutation as a value.
pub open spec fn maybe_view(m: Option<Mutation>) -> Option<MutationView> {
    match m {
        Some(x) => Some(x@),
        None => None,
    }
}

/// Mutations as values.
pub open spec fn mutation_views(ms: Seq<Mutation>) -> Seq<MutationView> {
    ms.map_values(|m: Mutation| m@)
}

impl Mutation {
    /// A copy of the same change.
    pub fn duplicate(&self) -> (m: Mutation)
        ensures
            m@ == self@,
    {
        match self {
            Mutation::CreateTask { task } => Mutation::CreateTask { task: task.duplicate() },
            Mutation::UpdateTask { before, after } => Mutation::UpdateTask {
                before: before.duplicate(),
                after: after.duplicate(),
            },
            Mutation::DeleteTask { before } => Mutation::DeleteTask { before: before.duplicate() },
            Mutation::AttachLabel { task, label } => Mutation::AttachLabel {
                task: *task,
                label: label.duplicate(),
            },
            Mutation::DetachLabel { task, label } => Mutation::DetachLabel {
                task: *task,
                label: label.duplicate(),
            },
            Mutation::UpdateLabel { before, after } => Mutation::UpdateLabel {
                before: before.duplicate(),
                after: after.duplicate(),
            },
            Mutation::CreateLabel { label } => Mutation::CreateLabel { label: label.duplicate() },
        }
    }

    /// The change that takes this one back, if there is one.
    pub fn inverse(&self) -> (r: Option<Mutation>)
        ensures
            maybe_view(r) == inverse_of(self@),
    {
        match self {
            Mutation::CreateTask { task } => Some(Mutation::DeleteTask { before: task.duplicate() }),
            Mutation::UpdateTask { before, after } => Some(
                Mutation::UpdateTask { before: after.duplicate(), after: before.duplicate() },
            ),
            Mutation::DeleteTask { before } => Some(Mutation::CreateTask { task: before.duplicate() }),
            Mutation::AttachLabel { task, label } => Some(
                Mutation::DetachLabel { task: *task, label: label.duplicate() },
            ),
            Mutation::DetachLabel { task, label } => Some(
                Mutation::AttachLabel { task: *task, label: label.duplicate() },
            ),
            Mutation::UpdateLabel { before, after } => Some(
                Mutation::UpdateLabel { before: after.duplicate(), after: before.duplicate() },
            ),
            Mutation::CreateLabel { .. } => None,
        }
    }
}

/// Taking back the change that took a change back is the change itself.
pub proof fn law_undoing_an_undo_redoes(m: MutationView)
    requires
        inverse_of(m) is Some,
    ensures
        inverse_of(inverse_of(m)->0) == Some(m),
{
}

} // verus!
