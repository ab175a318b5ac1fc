use mteam_query::printer::{detail_lines, shorten_title, table_row, title_fits_table, torrent_fits_table};
use mteam_query::models::{Torrent, TorrentStatus};

fn sample() -> Torrent {
    Torrent {
        id: "9".to_string(),
        name: "Movie.CHS.2024".to_string(),
        small_descr: Some("电影 | 1080p".to_string()),
        size: "2048".to_string(),
        category: "401".to_string(),
        labels_new: vec![],
        status: TorrentStatus {
            id: "9".to_string(),
            seeders: 12,
            leechers: 3,
            completed: 40,
            status: String::new(),
        },
        created_date: None,
        imdb: Some("tt1".to_string()),
        douban: None,
    }
}

#[test]
fn titles_are_cut_at_42_bytes() {
    let long = "a".repeat(50);
    assert!(title_fits_table(&long));
    assert_eq!(shorten_title(&long), format!("{}...", "a".repeat(42)));
    assert_eq!(shorten_title("short"), "short");
    let cjk = "电".repeat(20);
    assert!(title_fits_table(&cjk));
    assert_eq!(shorten_title(&cjk), format!("{}...", "电".repeat(14)));
    let odd = format!("a{}", "电".repeat(20));
    assert!(!title_fits_table(&odd));
}

#[test]
fn table_row_columns() {
    let t = sample();
    assert!(torrent_fits_table(&t));
    let row = table_row(0, &t, "https://kp.m-team.cc");
    assert_eq!(row.number, "[1]");
    assert_eq!(row.title, "💖 电影");
    assert_eq!(row.size, "2.00 KB");
    assert_eq!(row.seeders, "12");
    assert_eq!(row.leechers, "3");
    assert_eq!(row.category, "SD电影");
    assert_eq!(row.url, "https://kp.m-team.cc/detail/9");
}

#[test]
fn detail_view_lines() {
    let lines = detail_lines(&sample());
    assert_eq!(
        lines,
        vec![
            "标题: 电影 | 1080p".to_string(),
            "文件名: Movie.CHS.2024".to_string(),
            "大小: 2.00 KB".to_string(),
            "分类: SD电影".to_string(),
            "ID: 9".to_string(),
            "做种数: 12".to_string(),
            "下载数: 3".to_string(),
            "完成数: 40".to_string(),
            "IMDb: tt1".to_string(),
        ]
    );
}
