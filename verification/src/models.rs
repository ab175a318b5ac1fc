use vstd::prelude::*;

verus! {

/// Settings read from the configuration file.
#[derive(Debug, Clone)]
pub struct Config {
    pub api_key: String,
    pub proxies: Option<Proxies>,
    pub timeout: u64,
}

/// Seconds a request may take when the configuration names no timeout.
pub fn default_timeout() -> (r: u64)
    ensures
        r == 15,
{
    15
}

/// Proxy addresses for plain and for TLS connections.
#[derive(Debug, Clone)]
pub struct Proxies {
    pub http: Option<String>,
    pub https: Option<String>,
}

/// Swarm figures of a torrent.
#[derive(Debug, Clone)]
pub struct TorrentStatus {
    pub id: String,
    pub seeders: u32,
    pub leechers: u32,
    pub completed: u32,
    pub status: String,
}

impl Default for TorrentStatus {
    fn default() -> (r: Self)
        ensures
            r.id@ == Seq::<char>::empty(),
            r.seeders == 0,
            r.leechers == 0,
            r.completed == 0,
            r.status@ == Seq::<char>::empty(),
    {
        TorrentStatus {
            id: String::new(),
            seeders: 0,
            leechers: 0,
            completed: 0,
            status: String::new(),
        }
    }
}

/// One torrent as the site lists it.
#[derive(Debug, Clone)]
pub struct Torrent {
    pub id: String,
    pub name: String,
    pub small_descr: Option<String>,
    pub size: String,
    pub category: String,
    pub labels_new: Vec<String>,
    pub status: TorrentStatus,
    pub created_date: Option<String>,
    pub imdb: Option<String>,
    pub douban: Option<String>,
}

impl Default for Torrent {
    fn default() -> (r: Self)
        ensures
            r.id@ == Seq::<char>::empty(),
            r.name@ == Seq::<char>::empty(),
            r.small_descr is None,
            r.size@ == Seq::<char>::empty(),
            r.category@ == Seq::<char>::empty(),
            r.labels_new@ == Seq::<String>::empty(),
            r.status.id@ == Seq::<char>::empty(),
            r.status.seeders == 0,
            r.status.leechers == 0,
            r.status.completed == 0,
            r.status.status@ == Seq::<char>::empty(),
            r.created_date is None,
            r.imdb is None,
            r.douban is None,
    {
        Torrent {
            id: String::new(),
            name: String::new(),
            small_descr: None,
            size: String::new(),
            category: String::new(),
            labels_new: Vec::new(),
            status: TorrentStatus::default(),
            created_date: None,
            imdb: None,
            douban: None,
        }
    }
}

/// One page of results.
#[derive(Debug, Clone)]
pub struct ResponseData<T> {
    pub page_number: String,
    pub page_size: String,
    pub total: String,
    pub data_items: Vec<T>,
}

/// The empty text, the default of the page fields.
pub fn default_string() -> (r: String)
    ensures
        r@ == Seq::<char>::empty(),
{
    String::new()
}

/// The empty list, the default of the result items.
pub fn default_vec<T>() -> (r: Vec<T>)
    ensures
        r@ == Seq::<T>::empty(),
{
    Vec::new()
}

impl<T> Default for ResponseData<T> {
    fn default() -> (r: Self)
        ensures
            r.page_number@ == Seq::<char>::empty(),
            r.page_size@ == Seq::<char>::empty(),
            r.total@ == Seq::<char>::empty(),
            r.data_items@ == Seq::<T>::empty(),
    {
        ResponseData {
            page_number: default_string(),
            page_size: default_string(),
            total: default_string(),
            data_items: default_vec(),
        }
    }
}

/// The envelope of every answer of the site's API.
#[derive(Debug, Clone)]
pub struct ApiResponse<T> {
    pub code: String,
    pub message: String,
    pub data: ResponseData<T>,
}

/// Which search the site runs.
#[derive(Debug, Clone, Copy, PartialEq, Eq, Structural)]
pub enum SearchMode {
    Normal,
    Adult,
}

/// What a result list is ordered by.
#[derive(Debug, Clone, Copy, PartialEq, Eq, Structural)]
pub enum SortField {
    Seeders,
    Size,
    Time,
}

/// Ascending or descending order.
#[derive(Debug, Clone, Copy, PartialEq, Eq, Structural)]
pub enum SortDirection {
    Asc,
    Desc,
}

/// One entry of the category table: its id, its display name and its kind.
pub struct CategoryInfo {
    pub id: &'static str,
    pub name: &'static str,
    pub category_type: &'static str,
}

impl CategoryInfo {
    pub open spec fn entry(&self) -> (Seq<char>, Seq<char>, Seq<char>) {
        (self.id@, self.name@, self.category_type@)
    }
}

/// The category table: id, display name and kind of each category, in menu order.
pub open spec fn category_table() -> Seq<(Seq<char>, Seq<char>, Seq<char>)> {
    seq![
        ("401"@, "SD电影"@, "movie"@),
        ("419"@, "HD电影"@, "movie"@),
        ("420"@, "原盘/UHD"@, "movie"@),
        ("404"@, "纪录片"@, "movie"@),
        ("402"@, "剧集"@, "tv"@),
        ("438"@, "剧集包"@, "tv"@),
        ("405"@, "动漫"@, "anime"@),
        ("403"@, "综艺"@, "variety"@),
        ("418"@, "体育"@, "sports"@),
        ("429"@, "成人"@, "adult"@),
    ]
}

/// The category table as values.
pub fn category_map() -> (r: Vec<CategoryInfo>)
    ensures
        r@.len() == category_table().len(),
        forall|i: int| 0 <= i < r@.len() ==> (#[trigger] r@[i]).entry() == category_table()[i],
{
    let mut r: Vec<CategoryInfo> = Vec::new();
    r.push(CategoryInfo { id: "401", name: "SD电影", category_type: "movie" });
    r.push(CategoryInfo { id: "419", name: "HD电影", category_type: "movie" });
    r.push(CategoryInfo { id: "420", name: "原盘/UHD", category_type: "movie" });
    r.push(CategoryInfo { id: "404", name: "纪录片", category_type: "movie" });
    r.push(CategoryInfo { id: "402", name: "剧集", category_type: "tv" });
    r.push(CategoryInfo { id: "438", name: "剧集包", category_type: "tv" });
    r.push(CategoryInfo { id: "405", name: "动漫", category_type: "anime" });
    r.push(CategoryInfo { id: "403", name: "综艺", category_type: "variety" });
    r.push(CategoryInfo { id: "418", name: "体育", category_type: "sports" });
    r.push(CategoryInfo { id: "429", name: "成人", category_type: "adult" });
    r
}

} // verus!
