use mteam_query::menu::{category_from_menu_index, MenuSettings};
use mteam_query::text::{decimal_string, parse_u64};
use mteam_query::models::{category_map, SortDirection, SortField, Torrent, TorrentStatus};
use mteam_query::sorting::stable_sort_by_keys;
use mteam_query::utils::{extract_chinese_title, get_category_name, has_chinese_subtitle, sort_torrents};

fn torrent(id: &str, name: &str, size: &str, seeders: u32) -> Torrent {
    Torrent {
        id: id.to_string(),
        name: name.to_string(),
        small_descr: None,
        size: size.to_string(),
        category: id.to_string(),
        labels_new: vec![],
        status: TorrentStatus {
            id: id.to_string(),
            seeders,
            leechers: 0,
            completed: 0,
            status: String::new(),
        },
        created_date: None,
        imdb: None,
        douban: None,
    }
}

fn sample() -> Vec<Torrent> {
    vec![
        torrent("3", "a", "5", 2),
        torrent("1", "b.SC", "9", 2),
        torrent("4", "c", "5", 7),
        torrent("2", "d.国语", "1", 0),
        torrent("5", "e", "x", 7),
    ]
}

fn ids(ts: &[Torrent]) -> Vec<String> {
    ts.iter().map(|t| t.id.clone()).collect()
}

#[test]
fn sorting_twice_changes_nothing() {
    for field in [SortField::Seeders, SortField::Size, SortField::Time] {
        for direction in [SortDirection::Asc, SortDirection::Desc] {
            let mut once = sample();
            sort_torrents(&mut once, field, direction);
            let first = ids(&once);
            sort_torrents(&mut once, field, direction);
            assert_eq!(ids(&once), first);
        }
    }
}

#[test]
fn sorting_keeps_the_same_torrents() {
    let mut ts = sample();
    sort_torrents(&mut ts, SortField::Size, SortDirection::Desc);
    let mut got = ids(&ts);
    got.sort();
    assert_eq!(got, vec!["1", "2", "3", "4", "5"]);
    assert_eq!(ids(&ts), vec!["1", "3", "4", "2", "5"]);
}

#[test]
fn seeders_order_within_subtitle_groups() {
    let mut ts = sample();
    sort_torrents(&mut ts, SortField::Seeders, SortDirection::Desc);
    let marks: Vec<bool> = ts.iter().map(|t| has_chinese_subtitle(&t.name, &t.labels_new)).collect();
    assert_eq!(marks, vec![true, true, false, false, false]);
    assert_eq!(ids(&ts), vec!["1", "2", "4", "5", "3"]);
}

#[test]
fn equal_keys_keep_their_order() {
    let mut items = vec!['a', 'b', 'c', 'd', 'e'];
    let keys = vec![(1, 5), (0, 9), (1, 5), (0, 9), (1, 4)];
    stable_sort_by_keys(&mut items, &keys);
    assert_eq!(items, vec!['b', 'd', 'e', 'a', 'c']);
}

#[test]
fn titles_from_descriptions_hold_no_bar() {
    let mut t = torrent("1", "n", "0", 0);
    for d in ["a|b|c", "|", "  x  | y", "no bar at all", "||||"] {
        t.small_descr = Some(d.to_string());
        assert!(!extract_chinese_title(&t).contains('|'));
    }
}

#[test]
fn every_category_id_gives_its_name() {
    for entry in category_map() {
        assert_eq!(get_category_name(entry.id), entry.name);
    }
    assert_eq!(category_map().len(), 10);
}

#[test]
fn decimal_text_parses_back() {
    for n in [0u64, 7, 10, 99, 100, 401, 65535, 1 << 40, u64::MAX] {
        let text = decimal_string(n as u128);
        assert_eq!(text, n.to_string());
        assert_eq!(parse_u64(&text), Some(n));
    }
}

#[test]
fn chosen_category_is_displayed_by_name() {
    let table = category_map();
    for index in 1..=10usize {
        let mut settings = MenuSettings::new();
        settings.default_category = category_from_menu_index(index);
        let entry = &table[index - 1];
        assert_eq!(settings.category_display(), format!("{} ({})", entry.name, entry.id));
    }
}

#[test]
fn ascending_sort_reverses_descending() {
    let inputs = vec![
        torrent("30", "a", "500", 1),
        torrent("10", "b", "x", 2),
        torrent("40", "c", "90", 3),
        torrent("20", "d", "7000", 4),
    ];
    for field in [SortField::Size, SortField::Time] {
        let mut asc = inputs.clone();
        sort_torrents(&mut asc, field, SortDirection::Asc);
        let mut desc = inputs.clone();
        sort_torrents(&mut desc, field, SortDirection::Desc);
        let mut back = ids(&desc);
        back.reverse();
        assert_eq!(ids(&asc), back);
    }
    let mut by_size = inputs.clone();
    sort_torrents(&mut by_size, SortField::Size, SortDirection::Asc);
    assert_eq!(ids(&by_size), vec!["10", "40", "30", "20"]);
}
