use firepit::command::{TaskResult, TaskStatus};
use firepit::footer::{footer_items, footer_text, icon_text, status_icon, FooterItem, StatusIcon};
use firepit::layout::LayoutSections;
use firepit::search::{Match, SearchResults};

#[test]
fn pane_footer_offers_copy_and_leaving() {
    assert_eq!(footer_items(&LayoutSections::Pane, false, true, true), vec![FooterItem::ExitInteraction]);
    assert_eq!(
        footer_items(&LayoutSections::Pane, true, true, true),
        vec![FooterItem::CopySelection, FooterItem::ExitInteraction]
    );
}

#[test]
fn task_list_footer() {
    assert_eq!(
        footer_items(&LayoutSections::TaskList(None), false, true, false),
        vec![
            FooterItem::StartSearch,
            FooterItem::RestartTask,
            FooterItem::StopTask,
            FooterItem::Quit,
            FooterItem::Help
        ]
    );
    let results = SearchResults::new("web", String::from("err"), vec![Match(0, 1)], 0, false);
    assert_eq!(
        footer_items(&LayoutSections::TaskList(Some(results)), false, false, true),
        vec![
            FooterItem::ShowTasks,
            FooterItem::StartInteraction,
            FooterItem::StartSearch,
            FooterItem::NavigateSearchResult,
            FooterItem::ClearSearchResult,
            FooterItem::RestartTask,
            FooterItem::StopTask,
            FooterItem::Quit,
            FooterItem::Help
        ]
    );
    let empty = SearchResults::new("web", String::from("err"), vec![], 0, false);
    assert_eq!(footer_items(&LayoutSections::TaskList(Some(empty)), false, true, false).len(), 5);
}

#[test]
fn search_and_help_footers() {
    let search = LayoutSections::Search { query: String::from("x") };
    assert_eq!(footer_items(&search, false, true, false), vec![FooterItem::ExitSearch]);
    let help = LayoutSections::Help { scroll: 0, max_scroll: 3 };
    assert!(footer_items(&help, true, false, true).is_empty());
}

#[test]
fn footer_words() {
    assert_eq!(footer_text(FooterItem::Quit), ("[q]", "Quit"));
    assert_eq!(footer_text(FooterItem::ExitInteraction), ("[Ctrl-z]", "Exit Interaction"));
    assert_eq!(footer_text(FooterItem::NavigateSearchResult), ("[n\u{FF65}N]", "Next/Prev Match"));
}

#[test]
fn status_icons() {
    assert_eq!(status_icon(TaskStatus::Planned), StatusIcon::Planned);
    assert_eq!(status_icon(TaskStatus::Ready), StatusIcon::Ready);
    assert_eq!(status_icon(TaskStatus::Finished(TaskResult::Failure(2))), StatusIcon::Failure);
    assert_eq!(status_icon(TaskStatus::Finished(TaskResult::Stopped)), StatusIcon::NotRun);
    assert_eq!(status_icon(TaskStatus::Finished(TaskResult::Error)), StatusIcon::Unknown);
    assert_eq!(icon_text(StatusIcon::Success), "\u{2705}\u{FE0F}");
    assert_eq!(icon_text(StatusIcon::Running), "\u{1F525}");
}
