use mteam_query::client::{
    build_search_payload, detail_result, detail_url, download_token_result, download_url,
    is_torrent_file, search_mode_for, search_request_body, search_results, search_url,
    sort_field_from_name,
    token_url, torrent_file_name, ApiError, SearchPayload,
};
use mteam_query::config::ConfigManager;
use mteam_query::models::{
    default_timeout, ApiResponse, Config, Proxies, ResponseData, SearchMode, SortDirection,
    SortField, Torrent, TorrentStatus,
};

fn torrent(id: &str, seeders: u32) -> Torrent {
    Torrent {
        id: id.to_string(),
        name: format!("name{}", id),
        small_descr: None,
        size: "10".to_string(),
        category: "419".to_string(),
        labels_new: vec![],
        status: TorrentStatus {
            id: id.to_string(),
            seeders,
            leechers: 0,
            completed: 0,
            status: String::new(),
        },
        created_date: None,
        imdb: None,
        douban: None,
    }
}

fn response(code: &str, items: Vec<Torrent>) -> ApiResponse<Torrent> {
    ApiResponse {
        code: code.to_string(),
        message: "msg".to_string(),
        data: ResponseData {
            page_number: "1".to_string(),
            page_size: "100".to_string(),
            total: "3".to_string(),
            data_items: items,
        },
    }
}

#[test]
fn payload_for_each_mode() {
    match build_search_payload("dune", None, SearchMode::Adult, 20) {
        SearchPayload::Adult { keyword, page_number, page_size } => {
            assert_eq!(keyword, "dune");
            assert_eq!(page_number, 1);
            assert_eq!(page_size, 20);
        }
        _ => panic!("expected the adult search"),
    }
    match build_search_payload("dune", Some(419), SearchMode::Normal, 20) {
        SearchPayload::Normal { keyword, visible, category } => {
            assert_eq!(keyword, "dune");
            assert_eq!(visible, 1);
            assert_eq!(category, Some(419));
        }
        _ => panic!("expected the normal search"),
    }
}

#[test]
fn mode_and_sort_choices() {
    assert_eq!(search_mode_for(None), SearchMode::Adult);
    assert_eq!(search_mode_for(Some(429)), SearchMode::Adult);
    assert_eq!(search_mode_for(Some(419)), SearchMode::Normal);
    assert_eq!(sort_field_from_name("size"), SortField::Size);
    assert_eq!(sort_field_from_name("time"), SortField::Time);
    assert_eq!(sort_field_from_name("seeders"), SortField::Seeders);
    assert_eq!(sort_field_from_name("Size"), SortField::Seeders);
}

#[test]
fn endpoint_addresses() {
    let base = "https://api.m-team.cc/api";
    assert_eq!(search_url(base), "https://api.m-team.cc/api/torrent/search");
    assert_eq!(detail_url(base, "7"), "https://api.m-team.cc/api/torrent/detail/7");
    assert_eq!(token_url(base), "https://api.m-team.cc/api/torrent/genDlToken");
    assert_eq!(download_url(base, "tok"), "https://api.m-team.cc/api/torrent/download/tok");
    assert_eq!(torrent_file_name("42"), "mteam_42.torrent");
}

#[test]
fn search_results_sort_and_limit() {
    let items = vec![torrent("1", 5), torrent("2", 9), torrent("3", 7)];
    let got = search_results(response("0", items), SortField::Seeders, SortDirection::Desc, 2);
    let ids: Vec<String> = match got {
        Ok(v) => v.into_iter().map(|t| t.id).collect(),
        Err(_) => panic!("expected results"),
    };
    assert_eq!(ids, vec!["2".to_string(), "3".to_string()]);

    let all = search_results(
        response("0", vec![torrent("1", 5), torrent("2", 9)]),
        SortField::Seeders,
        SortDirection::Asc,
        20,
    );
    let ids: Vec<String> = match all {
        Ok(v) => v.into_iter().map(|t| t.id).collect(),
        Err(_) => panic!("expected results"),
    };
    assert_eq!(ids, vec!["1".to_string(), "2".to_string()]);
}

#[test]
fn search_results_refused_code() {
    match search_results(response("1", vec![torrent("1", 1)]), SortField::Size, SortDirection::Desc, 5) {
        Err(e) => {
            assert!(matches!(e, ApiError::Rejected { .. }));
            assert_eq!(e.message(), "API 返回错误: code=1, message=msg");
        }
        Ok(_) => panic!("expected a refusal"),
    }
}

#[test]
fn detail_answers() {
    match detail_result("0", "ok".to_string(), Some(torrent("5", 1))) {
        Ok(t) => assert_eq!(t.id, "5"),
        Err(_) => panic!("expected the torrent"),
    }
    match detail_result("0", "ok".to_string(), None) {
        Err(e) => {
            assert!(matches!(e, ApiError::NotFound));
            assert_eq!(e.message(), "种子不存在");
        }
        Ok(_) => panic!("expected not found"),
    }
    match detail_result("2", "bad".to_string(), Some(torrent("5", 1))) {
        Err(e) => assert_eq!(e.message(), "API 错误: bad"),
        Ok(_) => panic!("expected a failure"),
    }
}

#[test]
fn token_answers() {
    match download_token_result("https://a", "0", "ok".to_string(), Some("T".to_string())) {
        Ok(u) => assert_eq!(u, "https://a/torrent/download/T"),
        Err(_) => panic!("expected a link"),
    }
    match download_token_result("https://a", "0", "ok".to_string(), None) {
        Err(e) => {
            assert!(matches!(e, ApiError::NoToken));
            assert_eq!(e.message(), "获取下载令牌失败");
        }
        Ok(_) => panic!("expected no token"),
    }
    match download_token_result("https://a", "9", "nope".to_string(), Some("T".to_string())) {
        Err(e) => assert_eq!(e.message(), "API 错误: nope"),
        Ok(_) => panic!("expected a failure"),
    }
}

#[test]
fn torrent_file_check() {
    assert!(is_torrent_file(b"d8:announce"));
    assert!(!is_torrent_file(b"<html>"));
    assert!(!is_torrent_file(b""));
    assert_eq!(ApiError::NotTorrentFile.message(), "下载的文件不是有效的种子文件");
}

#[test]
fn proxy_pairs() {
    let both = Proxies { http: Some("h".to_string()), https: Some("s".to_string()) };
    assert_eq!(both.pair(), Some(("h".to_string(), "s".to_string())));
    let http = Proxies { http: Some("h".to_string()), https: None };
    assert_eq!(http.pair(), Some(("h".to_string(), "h".to_string())));
    let https = Proxies { http: None, https: Some("s".to_string()) };
    assert_eq!(https.pair(), Some(("s".to_string(), "s".to_string())));
    let none = Proxies { http: None, https: None };
    assert_eq!(none.pair(), None);
}

#[test]
fn config_key_check() {
    let mut config = Config { api_key: "abc".to_string(), proxies: None, timeout: default_timeout() };
    assert_eq!(config.timeout, 15);
    assert!(ConfigManager::check(&config).is_ok());
    config.api_key = String::new();
    assert!(ConfigManager::check(&config).is_err());
    config.api_key = "your_mteam_api_key_here".to_string();
    match ConfigManager::check(&config) {
        Err(e) => assert_eq!(e.message(), "API Key 未配置或无效\n请在 config.yaml 中填入有效的 M-Team API Key"),
        Ok(_) => panic!("expected the placeholder to be refused"),
    }
}

fn expected_body(pairs: Vec<(&str, serde_json::Value)>) -> String {
    let mut map = serde_json::Map::new();
    for (k, v) in pairs {
        map.insert(k.to_string(), v);
    }
    serde_json::to_string(&serde_json::Value::Object(map)).unwrap()
}

#[test]
fn request_bodies_match_json_serialisation() {
    for keyword in ["dune", "", "say \"hi\"\n\\ 沙丘 \u{1}\t"] {
        let adult = search_request_body(&build_search_payload(keyword, None, SearchMode::Adult, 20));
        assert_eq!(
            adult,
            expected_body(vec![
                ("mode", serde_json::Value::from("adult")),
                ("keyword", serde_json::Value::from(keyword)),
                ("categories", serde_json::Value::Array(Vec::new())),
                ("pageNumber", serde_json::Value::from(1)),
                ("pageSize", serde_json::Value::from(20usize)),
            ])
        );
        let normal = search_request_body(&build_search_payload(keyword, Some(419), SearchMode::Normal, 20));
        assert_eq!(
            normal,
            expected_body(vec![
                ("keyword", serde_json::Value::from(keyword)),
                ("visible", serde_json::Value::from(1)),
                ("category", serde_json::Value::from(419u32)),
            ])
        );
        let plain = search_request_body(&build_search_payload(keyword, None, SearchMode::Normal, 20));
        assert_eq!(
            plain,
            expected_body(vec![
                ("keyword", serde_json::Value::from(keyword)),
                ("visible", serde_json::Value::from(1)),
            ])
        );
    }
    assert_eq!(
        search_request_body(&build_search_payload("x", None, SearchMode::Adult, 5)),
        "{\"categories\":[],\"keyword\":\"x\",\"mode\":\"adult\",\"pageNumber\":1,\"pageSize\":5}"
    );
}
