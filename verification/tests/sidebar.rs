use tui_do_ui::models::Project;
use tui_do_ui::sidebar::{
    parent_of, rows, targets, ProjectCounts, SidebarRow, SidebarState, SidebarTarget, TaskCount,
};

fn project(id: i64, title: &str, parent: i64) -> Project {
    Project {
        id,
        title: title.to_string(),
        parent_project_id: parent,
        ..Project::default()
    }
}

fn counts() -> ProjectCounts {
    ProjectCounts {
        by_project: vec![(1, TaskCount { open: 3, done: 1 })],
        favorites: TaskCount::default(),
    }
}

fn titles(rows: &[SidebarRow]) -> Vec<String> {
    rows.iter()
        .map(|row| match row {
            SidebarRow::Heading(text) => (*text).to_string(),
            SidebarRow::Target { title, depth, .. } => {
                format!("{}{title}", "  ".repeat(*depth as usize))
            }
        })
        .collect()
}

#[test]
fn children_nest_under_their_parent_in_position_order() {
    let projects = vec![
        project(1, "Work", 0),
        project(3, "Later", 1),
        project(2, "Errands", 1),
        project(4, "Personal", 0),
    ];
    let rows = rows(&projects, &counts(), &SidebarState::default());
    assert_eq!(
        titles(&rows),
        [
            "All tasks",
            "Projects",
            "Personal",
            "Work",
            "  Errands",
            "  Later",
        ]
    );
}

#[test]
fn a_collapsed_project_hides_its_children_but_stays_selectable() {
    let projects = vec![project(1, "Work", 0), project(2, "Errands", 1)];
    let state = SidebarState {
        collapsed: vec![1],
        ..SidebarState::default()
    };
    let rows = rows(&projects, &counts(), &state);
    assert!(!titles(&rows).contains(&"  Errands".to_string()));
    assert!(targets(&rows).contains(&SidebarTarget::Project(1)));
}

#[test]
fn pseudo_projects_and_archived_ones_stay_out() {
    let mut archived = project(5, "Old", 0);
    archived.is_archived = true;
    let projects = vec![project(-1, "Favorites", 0), archived, project(1, "Work", 0)];
    let rows = rows(&projects, &counts(), &SidebarState::default());
    let titles = titles(&rows);
    assert!(!titles.contains(&"Favorites".to_string()));
    assert!(!titles.contains(&"Old".to_string()));
    assert!(titles.contains(&"Work".to_string()));
}

#[test]
fn favorites_appears_only_when_there_are_some() {
    let projects = vec![project(1, "Work", 0)];
    let without = rows(&projects, &counts(), &SidebarState::default());
    assert!(!targets(&without).contains(&SidebarTarget::Favorites));

    let with_favorites = ProjectCounts {
        favorites: TaskCount { open: 2, done: 0 },
        ..counts()
    };
    let with = rows(&projects, &with_favorites, &SidebarState::default());
    assert!(targets(&with).contains(&SidebarTarget::Favorites));
}

#[test]
fn an_orphan_is_drawn_at_the_top_rather_than_disappearing() {
    // Its parent is archived, so it was filtered out of the tree.
    let mut parent = project(9, "Archive", 0);
    parent.is_archived = true;
    let projects = vec![parent, project(2, "Stranded", 9)];
    let rows = rows(&projects, &counts(), &SidebarState::default());
    assert!(titles(&rows).contains(&"Stranded".to_string()));
}

#[test]
fn a_parent_cycle_renders_rather_than_hanging() {
    let projects = vec![project(1, "A", 2), project(2, "B", 1)];
    let rows = rows(&projects, &counts(), &SidebarState::default());
    // Neither is a root, so the tree has no entry point and only the fixed rows show.
    assert!(!titles(&rows).is_empty());
}

#[test]
fn all_tasks_counts_every_open_task_and_each_project_its_own() {
    let projects = vec![project(1, "Work", 0), project(2, "Home", 0)];
    let counts = ProjectCounts {
        by_project: vec![
            (1, TaskCount { open: 3, done: 1 }),
            (2, TaskCount { open: 4, done: 0 }),
        ],
        favorites: TaskCount::default(),
    };
    let rows = rows(&projects, &counts, &SidebarState::default());
    let opens: Vec<(String, i64, bool)> = rows
        .iter()
        .filter_map(|row| match row {
            SidebarRow::Target { title, open, has_children, .. } => {
                Some((title.clone(), *open, *has_children))
            }
            SidebarRow::Heading(_) => None,
        })
        .collect();
    assert_eq!(
        opens,
        [
            ("All tasks".to_string(), 7, false),
            ("Home".to_string(), 4, false),
            ("Work".to_string(), 3, false),
        ]
    );
}

#[test]
fn position_outranks_the_title_and_a_tie_keeps_the_order_given() {
    let mut zebra = project(1, "zebra", 0);
    zebra.position = -5;
    let apple = project(2, "Apple", 0);
    let apple_again = project(3, "apple", 0);
    let projects = vec![apple, zebra, apple_again];
    let rows = rows(&projects, &counts(), &SidebarState::default());
    assert_eq!(titles(&rows), ["All tasks", "Projects", "zebra", "Apple", "apple"]);
}

#[test]
fn a_parent_with_children_says_so_and_only_the_headings_are_not_targets() {
    let projects = vec![project(1, "Work", 0), project(2, "Errands", 1)];
    let rows = rows(&projects, &counts(), &SidebarState::default());
    match &rows[2] {
        SidebarRow::Target { has_children, collapsed, depth, .. } => {
            assert!(*has_children);
            assert!(!*collapsed);
            assert_eq!(*depth, 0);
        }
        SidebarRow::Heading(_) => panic!("a project row was expected"),
    }
    assert_eq!(rows[1].target(), None);
    assert_eq!(
        targets(&rows),
        [
            SidebarTarget::AllTasks,
            SidebarTarget::Project(1),
            SidebarTarget::Project(2)
        ]
    );
}

#[test]
fn no_projects_means_no_heading() {
    let rows = rows(&[].to_vec(), &counts(), &SidebarState::default());
    assert_eq!(titles(&rows), ["All tasks"]);
}

#[test]
fn the_parent_is_reported_only_when_it_is_in_the_list() {
    let projects = vec![project(1, "Work", 0), project(2, "Errands", 1), project(3, "Lost", 7)];
    assert_eq!(parent_of(&projects, 2), Some(1));
    assert_eq!(parent_of(&projects, 1), None);
    assert_eq!(parent_of(&projects, 3), None);
    assert_eq!(parent_of(&projects, 42), None);
}

#[test]
fn a_task_count_totals_open_and_done() {
    assert_eq!(TaskCount { open: 2, done: 5 }.total(), 7);
    assert_eq!(counts().for_project(1), TaskCount { open: 3, done: 1 });
    assert_eq!(counts().for_project(8), TaskCount::default());
}

#[test]
fn what_can_be_drawn_is_said_before_drawing() {
    let projects = vec![project(1, "Work", 0)];
    assert!(tui_do_ui::sidebar::can_draw(&projects, &counts()));
    let overflowing = ProjectCounts {
        by_project: vec![
            (1, TaskCount { open: i64::MAX, done: 0 }),
            (2, TaskCount { open: 1, done: 0 }),
        ],
        favorites: TaskCount::default(),
    };
    assert!(!tui_do_ui::sidebar::can_draw(&projects, &overflowing));
    let favourites_overflow = ProjectCounts {
        by_project: Vec::new(),
        favorites: TaskCount { open: i64::MAX, done: 1 },
    };
    assert!(!tui_do_ui::sidebar::can_draw(&projects, &favourites_overflow));
}

#[test]
fn a_project_with_two_entries_is_drawn_once() {
    let projects = vec![project(1, "Work", 0), project(1, "Work again", 0)];
    let rows = rows(&projects, &counts(), &SidebarState::default());
    assert_eq!(
        targets(&rows)
            .iter()
            .filter(|t| **t == SidebarTarget::Project(1))
            .count(),
        1
    );
}
