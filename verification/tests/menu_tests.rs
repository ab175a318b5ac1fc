use mteam_query::menu::{
    browse_choice, browse_labels, category_filter_text, category_from_menu_index,
    category_number, category_setting_labels, is_cancel_input, next_search_step, parse_limit,
    quick_command, select_torrent, sort_field_from_menu_index, InputError, MainMenuChoice,
    MenuSettings, QuickCommand, SearchEvent, SearchStep, SettingsChoice, TorrentAction,
};
use mteam_query::models::{SearchMode, SortField};

#[test]
fn quick_commands() {
    assert!(matches!(quick_command(""), QuickCommand::Skip));
    assert!(matches!(quick_command("   "), QuickCommand::Skip));
    assert!(matches!(quick_command(" EXIT "), QuickCommand::Exit));
    assert!(matches!(quick_command("Quit"), QuickCommand::Exit));
    assert!(matches!(quick_command("q"), QuickCommand::Exit));
    assert!(matches!(quick_command("0"), QuickCommand::Exit));
    assert!(matches!(quick_command("MENU"), QuickCommand::Menu));
    assert!(matches!(quick_command("browse"), QuickCommand::Browse));
    assert!(matches!(quick_command("Settings"), QuickCommand::Settings));
    assert!(matches!(quick_command("help"), QuickCommand::Help));
    match quick_command("  Dune Part Two ") {
        QuickCommand::Search(k) => assert_eq!(k, "Dune Part Two"),
        _ => panic!("expected a search"),
    }
}

#[test]
fn menu_entries() {
    assert_eq!(MainMenuChoice::from_index(0), MainMenuChoice::Search);
    assert_eq!(MainMenuChoice::from_index(3), MainMenuChoice::Exit);
    assert_eq!(SettingsChoice::from_index(2), SettingsChoice::Limit);
    assert_eq!(sort_field_from_menu_index(1), SortField::Size);
    assert_eq!(TorrentAction::from_choice(" 4 "), TorrentAction::NewSearch);
    assert_eq!(TorrentAction::from_choice("7"), TorrentAction::Invalid);
    assert_eq!(TorrentAction::from_browse_choice("3"), TorrentAction::Detail);
    assert_eq!(TorrentAction::from_browse_choice("5"), TorrentAction::Invalid);
}

#[test]
fn torrent_numbers_and_limits() {
    assert_eq!(select_torrent("2", 3), Ok(1));
    assert_eq!(select_torrent(" 3 ", 3), Ok(2));
    assert_eq!(select_torrent("0", 3), Err(InputError::OutOfRange));
    assert_eq!(select_torrent("4", 3), Err(InputError::OutOfRange));
    assert_eq!(select_torrent("x", 3), Err(InputError::NotANumber));
    assert_eq!(parse_limit("50"), Ok(50));
    assert_eq!(parse_limit("0"), Err(InputError::OutOfRange));
    assert_eq!(parse_limit("101"), Err(InputError::OutOfRange));
    assert_eq!(parse_limit("ten"), Err(InputError::NotANumber));
    assert!(is_cancel_input(""));
    assert!(is_cancel_input("0"));
    assert!(!is_cancel_input("00"));
}

#[test]
fn settings_texts() {
    let mut s = MenuSettings::new();
    assert_eq!(s.default_limit, 20);
    assert_eq!(s.sort_field_name(), "seeders");
    assert_eq!(s.category_display(), "全部");
    assert_eq!(s.category_filter_text(), "全部");
    assert_eq!(s.search_mode(), SearchMode::Adult);
    s.default_category = Some(419);
    s.default_sort = SortField::Time;
    assert_eq!(s.category_display(), "HD电影 (419)");
    assert_eq!(s.category_filter_text(), "419");
    assert_eq!(s.sort_field_name(), "time");
    assert_eq!(s.search_mode(), SearchMode::Normal);
    s.default_category = Some(7);
    assert_eq!(s.category_display(), "7");
    assert_eq!(category_filter_text(Some(429)), "429");
}

#[test]
fn category_menus() {
    assert_eq!(category_number(0), 401);
    assert_eq!(category_number(9), 429);
    assert_eq!(category_from_menu_index(0), None);
    assert_eq!(category_from_menu_index(2), Some(419));
    let labels = category_setting_labels();
    assert_eq!(labels.len(), 11);
    assert_eq!(labels[0], "全部 (None)");
    assert_eq!(labels[1], "SD电影 (movie)");
    let browse = browse_labels();
    assert_eq!(browse[0], "🚪 返回");
    assert_eq!(browse[10], "成人 (429)");
    assert!(browse_choice(0).is_none());
    assert_eq!(browse_choice(10), Some((429, "成人", SearchMode::Adult)));
    assert_eq!(browse_choice(5), Some((402, "剧集", SearchMode::Normal)));
}

#[test]
fn search_loop_steps() {
    assert!(matches!(next_search_step(&SearchEvent::ResultsShown { count: 0 }), SearchStep::Finish));
    assert!(matches!(next_search_step(&SearchEvent::ResultsShown { count: 2 }), SearchStep::ChooseAction));
    assert!(matches!(next_search_step(&SearchEvent::SelectionDone { search_again: true }), SearchStep::AskNewKeyword));
    assert!(matches!(next_search_step(&SearchEvent::SelectionDone { search_again: false }), SearchStep::Finish));
    assert!(matches!(next_search_step(&SearchEvent::NewKeyword { line: String::new() }), SearchStep::Finish));
    assert!(matches!(next_search_step(&SearchEvent::NewKeyword { line: "0".to_string() }), SearchStep::Finish));
    match next_search_step(&SearchEvent::NewKeyword { line: "Oppenheimer".to_string() }) {
        SearchStep::SearchAgain { keyword } => assert_eq!(keyword, "Oppenheimer"),
        other => panic!("expected a new search, got {:?}", other),
    }
}
