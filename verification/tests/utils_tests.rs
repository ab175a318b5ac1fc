use mteam_query::models::{SortDirection, SortField, Torrent, TorrentStatus};
use mteam_query::utils::{
    extract_chinese_title, format_size, get_category_name, get_torrent_url,
    has_chinese_subtitle, has_chinese_subtitle_upper, sort_torrents,
};

fn torrent(id: &str, name: &str, size: &str, seeders: u32, labels: Vec<String>) -> Torrent {
    Torrent {
        id: id.to_string(),
        name: name.to_string(),
        small_descr: None,
        size: size.to_string(),
        category: "419".to_string(),
        labels_new: labels,
        status: TorrentStatus {
            id: id.to_string(),
            seeders,
            leechers: 0,
            completed: 0,
            status: "NORMAL".to_string(),
        },
        created_date: None,
        imdb: None,
        douban: None,
    }
}

#[test]
fn test_format_size() {
    assert_eq!(format_size("1073741824"), "1.00 GB");
    assert_eq!(format_size("1048576"), "1.00 MB");
    assert_eq!(format_size("1024"), "1.00 KB");
    assert_eq!(format_size("512"), "512 B");
    assert_eq!(format_size("invalid"), "未知");
}

#[test]
fn test_has_chinese_subtitle() {
    assert!(has_chinese_subtitle("Test.中字", &[]));
    assert!(has_chinese_subtitle("Test", &["中字".to_string()]));
    assert!(!has_chinese_subtitle("Test", &[]));
}

#[test]
fn test_extract_chinese_title() {
    let torrent = Torrent {
        id: "1".to_string(),
        name: "Dune Part Two".to_string(),
        small_descr: Some("沙丘2 | 4K HDR | ...".to_string()),
        size: "0".to_string(),
        category: "419".to_string(),
        labels_new: vec![],
        status: TorrentStatus {
            id: "1".to_string(),
            seeders: 0,
            leechers: 0,
            completed: 0,
            status: "NORMAL".to_string(),
        },
        created_date: None,
        imdb: None,
        douban: None,
    };

    assert_eq!(extract_chinese_title(&torrent), "沙丘2");
}

fn float_reference(bytes: u64) -> String {
    const GB: u64 = 1024 * 1024 * 1024;
    const MB: u64 = 1024 * 1024;
    const KB: u64 = 1024;
    if bytes >= GB {
        format!("{:.2} GB", bytes as f64 / GB as f64)
    } else if bytes >= MB {
        format!("{:.2} MB", bytes as f64 / MB as f64)
    } else if bytes >= KB {
        format!("{:.2} KB", bytes as f64 / KB as f64)
    } else {
        format!("{} B", bytes)
    }
}

#[test]
fn format_size_matches_float_formatting() {
    let mut samples: Vec<u64> = vec![
        1, 9, 10, 1023, 1024, 1025, 1535, 1536, 1546, 1547, 10 * 1024 + 5, 1048575, 1048576,
        5 * 1048576 + 5243, 9 * (1 << 27), 3 * (1 << 27), 5 * (1 << 27), 1073741823,
        1073741824, 1610612736, 123456789012, 9007199254740991, 9007199254740993,
        18014398509481985, 18446744073709551615, 18446744073709551614,
    ];
    let mut x: u64 = 7;
    for _ in 0..5000 {
        x = x.wrapping_mul(6364136223846793005).wrapping_add(1442695040888963407);
        samples.push(x >> (x % 64));
        samples.push((x >> 40) * 1024 + 512);
        samples.push((x >> 44) * 10737418 + 5368709);
    }
    for b in samples {
        if b == 0 {
            continue;
        }
        assert_eq!(format_size(&b.to_string()), float_reference(b), "bytes {}", b);
    }
}

#[test]
fn format_size_edge_inputs() {
    assert_eq!(format_size("0"), "未知");
    assert_eq!(format_size(""), "未知");
    assert_eq!(format_size("+"), "未知");
    assert_eq!(format_size("+2048"), "2.00 KB");
    assert_eq!(format_size("-5"), "未知");
    assert_eq!(format_size(" 5"), "未知");
    assert_eq!(format_size("18446744073709551616"), "未知");
    assert_eq!(format_size("1536"), "1.50 KB");
    assert_eq!(format_size("1209008128"), "1.13 GB");
}

#[test]
fn chinese_subtitle_through_upper_case() {
    assert!(has_chinese_subtitle("movie.chs.1080p", &[]));
    assert!(has_chinese_subtitle("Some C-Movie", &[]));
    assert!(!has_chinese_subtitle("some c-movie", &[]));
    assert!(has_chinese_subtitle("x", &["国配".to_string()]));
    assert!(!has_chinese_subtitle("x", &["English".to_string()]));
    // the upper-case form given by the caller is what is searched
    assert!(has_chinese_subtitle_upper("abc", "ABCHS", &[]));
    assert!(!has_chinese_subtitle_upper("chs", "chs", &[]));
}

#[test]
fn torrent_url_and_category_names() {
    assert_eq!(get_torrent_url("https://kp.m-team.cc", "123"), "https://kp.m-team.cc/detail/123");
    assert_eq!(get_category_name("419"), "HD电影");
    assert_eq!(get_category_name("429"), "成人");
    assert_eq!(get_category_name("0419"), "未知");
    assert_eq!(get_category_name(""), "未知");
}

#[test]
fn title_falls_back_to_name() {
    let mut t = torrent("1", "Plain Name", "0", 0, vec![]);
    assert_eq!(extract_chinese_title(&t), "Plain Name");
    t.small_descr = Some("  无分隔  ".to_string());
    assert_eq!(extract_chinese_title(&t), "无分隔");
    t.small_descr = Some("|后面".to_string());
    assert_eq!(extract_chinese_title(&t), "");
}

#[test]
fn sort_by_seeders_puts_chinese_first() {
    let mut ts = vec![
        torrent("1", "A", "0", 50, vec![]),
        torrent("2", "B.中字", "0", 5, vec![]),
        torrent("3", "C", "0", 80, vec![]),
        torrent("4", "D", "0", 50, vec![]),
        torrent("5", "E", "0", 1, vec!["中字".to_string()]),
    ];
    sort_torrents(&mut ts, SortField::Seeders, SortDirection::Desc);
    let ids: Vec<&str> = ts.iter().map(|t| t.id.as_str()).collect();
    assert_eq!(ids, vec!["2", "5", "3", "1", "4"]);
    sort_torrents(&mut ts, SortField::Seeders, SortDirection::Asc);
    let ids: Vec<&str> = ts.iter().map(|t| t.id.as_str()).collect();
    assert_eq!(ids, vec!["5", "2", "1", "4", "3"]);
}

#[test]
fn sort_by_size_and_time() {
    let mut ts = vec![
        torrent("10", "a", "300", 0, vec![]),
        torrent("30", "b", "bad", 0, vec![]),
        torrent("20", "c", "100", 0, vec![]),
        torrent("x", "d", "300", 0, vec![]),
    ];
    sort_torrents(&mut ts, SortField::Size, SortDirection::Desc);
    let ids: Vec<&str> = ts.iter().map(|t| t.id.as_str()).collect();
    assert_eq!(ids, vec!["10", "x", "20", "30"]);
    sort_torrents(&mut ts, SortField::Time, SortDirection::Asc);
    let ids: Vec<&str> = ts.iter().map(|t| t.id.as_str()).collect();
    assert_eq!(ids, vec!["x", "10", "20", "30"]);
}

fn reference_sort(ts: &mut Vec<Torrent>, field: SortField, direction: SortDirection) {
    ts.sort_by(|a, b| match field {
        SortField::Seeders => {
            let ac = has_chinese_subtitle(&a.name, &a.labels_new);
            let bc = has_chinese_subtitle(&b.name, &b.labels_new);
            match (ac, bc) {
                (true, false) => return std::cmp::Ordering::Less,
                (false, true) => return std::cmp::Ordering::Greater,
                _ => {}
            }
            if direction == SortDirection::Desc {
                b.status.seeders.cmp(&a.status.seeders)
            } else {
                a.status.seeders.cmp(&b.status.seeders)
            }
        }
        SortField::Size => {
            let x = a.size.parse::<u64>().unwrap_or(0);
            let y = b.size.parse::<u64>().unwrap_or(0);
            if direction == SortDirection::Desc { y.cmp(&x) } else { x.cmp(&y) }
        }
        SortField::Time => {
            let x = a.id.parse::<u64>().unwrap_or(0);
            let y = b.id.parse::<u64>().unwrap_or(0);
            if direction == SortDirection::Desc { y.cmp(&x) } else { x.cmp(&y) }
        }
    });
}

#[test]
fn sort_agrees_with_std_stable_sort() {
    let mut x: u64 = 99;
    for round in 0..60 {
        let mut ts = Vec::new();
        for i in 0..(round % 17) {
            x = x.wrapping_mul(6364136223846793005).wrapping_add(1442695040888963407);
            let name = if x % 3 == 0 { format!("n{}.CHS", i) } else { format!("n{}", i) };
            let size = if x % 7 == 0 { "?".to_string() } else { ((x >> 20) % 5).to_string() };
            let id = ((x >> 30) % 6).to_string();
            ts.push(torrent(&id, &name, &size, ((x >> 40) % 4) as u32, vec![]));
        }
        for field in [SortField::Seeders, SortField::Size, SortField::Time] {
            for direction in [SortDirection::Asc, SortDirection::Desc] {
                let mut a: Vec<Torrent> = ts.iter().map(|t| torrent(&t.id, &t.name, &t.size, t.status.seeders, t.labels_new.clone())).collect();
                let mut b: Vec<Torrent> = ts.iter().map(|t| torrent(&t.id, &t.name, &t.size, t.status.seeders, t.labels_new.clone())).collect();
                // tag each item with its position to see stability
                for (k, t) in a.iter_mut().enumerate() { t.category = k.to_string(); }
                for (k, t) in b.iter_mut().enumerate() { t.category = k.to_string(); }
                sort_torrents(&mut a, field, direction);
                reference_sort(&mut b, field, direction);
                let ka: Vec<String> = a.iter().map(|t| t.category.clone()).collect();
                let kb: Vec<String> = b.iter().map(|t| t.category.clone()).collect();
                assert_eq!(ka, kb);
            }
        }
    }
}
