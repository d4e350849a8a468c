//! The task list's column layouts: which fields are shown, and how wide each may be.
use crate::text::chars_of;
use vstd::prelude::*;

verus! {

/// A field a column can show.
#[derive(Debug, Clone, Copy, PartialEq, Eq, Structural)]
pub enum Column {
    Title,
    Project,
    Labels,
    DueDate,
    StartDate,
    Priority,
    Status,
    Assignees,
    Created,
    Updated,
    Identifier,
    PercentDone,
}

/// What a column is headed when its layout names no heading of its own.
pub open spec fn column_name(column: Column) -> Seq<char> {
    match column {
        Column::Title => "Title"@,
        Column::Project => "Project"@,
        Column::Labels => "Labels"@,
        Column::DueDate => "Due"@,
        Column::StartDate => "Start"@,
        Column::Priority => "Priority"@,
        Column::Status => "Status"@,
        Column::Assignees => "Assignees"@,
        Column::Created => "Created"@,
        Column::Updated => "Updated"@,
        Column::Identifier => "ID"@,
        Column::PercentDone => "Done %"@,
    }
}

impl Column {
    /// What the column is headed by default.
    pub fn name(self) -> (s: &'static str)
        ensures
            s@ == column_name(self),
    {
        match self {
            Column::Title => "Title",
            Column::Project => "Project",
            Column::Labels => "Labels",
            Column::DueDate => "Due",
            Column::StartDate => "Start",
            Column::Priority => "Priority",
            Column::Status => "Status",
            Column::Assignees => "Assignees",
            Column::Created => "Created",
            Column::Updated => "Updated",
            Column::Identifier => "ID",
            Column::PercentDone => "Done %",
        }
    }
}

/// One column of a layout, and the limits on its width.
#[derive(Debug, Clone, PartialEq, Eq)]
pub struct ColumnSpec {
    /// Which field.
    pub column: Column,
    /// A heading of its own, in place of the field's name.
    pub heading: Option<String>,
    /// The narrowest it may be.
    pub min_width: Option<u16>,
    /// The widest it may be.
    pub max_width: Option<u16>,
    /// A share of the terminal, in percent, asked for in place of a minimum.
    pub width_percent: Option<u16>,
    /// Whether its text wraps rather than being cut.
    pub wrap: bool,
}

/// The heading a column is drawn under.
pub open spec fn heading_text(spec: ColumnSpec) -> Seq<char> {
    match spec.heading {
        Some(h) => h@,
        None => column_name(spec.column),
    }
}

impl ColumnSpec {
    /// A column of `column` with no limits of its own, cut rather than wrapped.
    pub fn new(column: Column) -> (s: Self)
        ensures
            s.column == column,
            s.heading is None,
            s.min_width is None,
            s.max_width is None,
            s.width_percent is None,
            !s.wrap,
    {
        ColumnSpec {
            column,
            heading: None,
            min_width: None,
            max_width: None,
            width_percent: None,
            wrap: false,
        }
    }

    /// The heading the column is drawn under.
    pub fn heading(&self) -> (s: String)
        ensures
            s@ == heading_text(*self),
    {
        match &self.heading {
            Some(h) => h.clone(),
            None => {
                let chars = chars_of(self.column.name());
                crate::text::string_of(chars.as_slice())
            },
        }
    }
}

/// A named set of columns.
#[derive(Debug, Clone, PartialEq, Eq)]
pub struct ColumnLayout {
    /// What the layout is called.
    pub name: String,
    /// What it is for.
    pub description: Option<String>,
    /// Its columns, left to right.
    pub columns: Vec<ColumnSpec>,
}

} // verus!
