use vstd::prelude::*;

use crate::json::{json_string, json_string_literal};
use crate::models::{ApiResponse, Proxies, SearchMode, SortDirection, SortField, Torrent};
use crate::sorting::is_stable_sort_of;
use crate::text::{decimal, push_decimal, str_eq};
use crate::utils::{sort_torrents, torrent_sort_keys};

verus! {

// ---------------------------------------------------------------------------
// Requests
// ---------------------------------------------------------------------------

/// The body of a search request.
pub enum SearchPayload {
    /// `{"mode": "adult", "keyword", "categories": [], "pageNumber", "pageSize"}`
    Adult { keyword: String, page_number: u32, page_size: usize },
    /// `{"keyword", "visible"}`, with `"category"` when one is chosen
    Normal { keyword: String, visible: u32, category: Option<u32> },
}

/// The search request for `keyword`: the adult search asks for the first page of `limit`
/// results; the normal search asks for visible torrents, in `category` when one is given.
pub fn build_search_payload(
    keyword: &str,
    category: Option<u32>,
    mode: SearchMode,
    limit: usize,
) -> (r: SearchPayload)
    ensures
        match mode {
            SearchMode::Adult => r matches SearchPayload::Adult { keyword: k, page_number, page_size }
                && k@ == keyword@ && page_number == 1 && page_size == limit,
            SearchMode::Normal => r matches SearchPayload::Normal { keyword: k, visible, category: c }
                && k@ == keyword@ && visible == 1 && c == category,
        },
{
    match mode {
        SearchMode::Adult => SearchPayload::Adult {
            keyword: keyword.to_owned(),
            page_number: 1,
            page_size: limit,
        },
        SearchMode::Normal => SearchPayload::Normal {
            keyword: keyword.to_owned(),
            visible: 1,
            category,
        },
    }
}

/// The JSON text of a search request, as `serde_json` writes the object: compact, with the
/// field names in sorted order.
pub open spec fn search_body_text(payload: SearchPayload) -> Seq<char> {
    match payload {
        SearchPayload::Adult { keyword, page_number, page_size } => "{\"categories\":[],\"keyword\":"@
            + json_string_literal(keyword@) + ",\"mode\":\"adult\",\"pageNumber\":"@ + decimal(
            page_number as nat,
        ) + ",\"pageSize\":"@ + decimal(page_size as nat) + "}"@,
        SearchPayload::Normal { keyword, visible, category } => "{"@ + (match category {
            Some(c) => "\"category\":"@ + decimal(c as nat) + ","@,
            None => Seq::empty(),
        }) + "\"keyword\":"@ + json_string_literal(keyword@) + ",\"visible\":"@ + decimal(
            visible as nat,
        ) + "}"@,
    }
}

/// The JSON body of a search request.
pub fn search_request_body(payload: &SearchPayload) -> (r: String)
    ensures
        r@ == search_body_text(*payload),
{
    match payload {
        SearchPayload::Adult { keyword, page_number, page_size } => {
            let mut out = "{\"categories\":[],\"keyword\":".to_owned();
            let k = json_string(keyword.as_str());
            out.append(k.as_str());
            out.append(",\"mode\":\"adult\",\"pageNumber\":");
            push_decimal(&mut out, *page_number as u128);
            out.append(",\"pageSize\":");
            push_decimal(&mut out, *page_size as u128);
            out.append("}");
            assert(out@ =~= search_body_text(*payload));
            out
        },
        SearchPayload::Normal { keyword, visible, category } => {
            let mut out = "{".to_owned();
            let ghost start = out@;
            match category {
                Some(c) => {
                    out.append("\"category\":");
                    push_decimal(&mut out, *c as u128);
                    out.append(",");
                },
                None => {},
            }
            let ghost middle = out@;
            let k = json_string(keyword.as_str());
            out.append("\"keyword\":");
            out.append(k.as_str());
            out.append(",\"visible\":");
            push_decimal(&mut out, *visible as u128);
            out.append("}");
            proof {
                let opt: Seq<char> = match category {
                    Some(c) => "\"category\":"@ + decimal(*c as nat) + ","@,
                    None => Seq::empty(),
                };
                assert(middle =~= start + opt);
            }
            assert(out@ =~= search_body_text(*payload));
            out
        },
    }
}

/// The JSON text of a download-token request for the torrent `id`: `{"id":"<id>"}`.
pub open spec fn token_body_text(id: Seq<char>) -> Seq<char> {
    "{\"id\":"@ + json_string_literal(id) + "}"@
}

/// The JSON body of a download-token request for the torrent `id`.
pub fn download_token_body(id: &str) -> (r: String)
    ensures
        r@ == token_body_text(id@),
{
    let mut out = "{\"id\":".to_owned();
    let quoted = json_string(id);
    out.append(quoted.as_str());
    out.append("}");
    out
}

/// Which search serves a category choice: the adult search when no category or the adult
/// category (429) is chosen, the normal search otherwise.
pub fn search_mode_for(category: Option<u32>) -> (r: SearchMode)
    ensures
        r == (match category {
            None => SearchMode::Adult,
            Some(c) => if c == 429 {
                SearchMode::Adult
            } else {
                SearchMode::Normal
            },
        }),
{
    match category {
        None => SearchMode::Adult,
        Some(c) => if c == 429 {
            SearchMode::Adult
        } else {
            SearchMode::Normal
        },
    }
}

/// The sort field named on the command line: "size", "time", and seeders for anything else.
pub fn sort_field_from_name(name: &str) -> (r: SortField)
    ensures
        r == (if name@ == "size"@ {
            SortField::Size
        } else if name@ == "time"@ {
            SortField::Time
        } else {
            SortField::Seeders
        }),
{
    if str_eq(name, "size") {
        SortField::Size
    } else if str_eq(name, "time") {
        SortField::Time
    } else {
        SortField::Seeders
    }
}

fn joined(base: &str, middle: &str, tail: &str) -> (r: String)
    ensures
        r@ == base@ + middle@ + tail@,
{
    let mut out = base.to_owned();
    out.append(middle);
    out.append(tail);
    out
}

/// Address of the search endpoint.
pub fn search_url(api_base: &str) -> (r: String)
    ensures
        r@ == api_base@ + "/torrent/search"@,
{
    let mut out = api_base.to_owned();
    out.append("/torrent/search");
    out
}

/// Address of the detail endpoint for a torrent.
pub fn detail_url(api_base: &str, id: &str) -> (r: String)
    ensures
        r@ == api_base@ + "/torrent/detail/"@ + id@,
{
    joined(api_base, "/torrent/detail/", id)
}

/// Address of the endpoint that hands out download tokens.
pub fn token_url(api_base: &str) -> (r: String)
    ensures
        r@ == api_base@ + "/torrent/genDlToken"@,
{
    let mut out = api_base.to_owned();
    out.append("/torrent/genDlToken");
    out
}

/// Address from which the torrent file for a download token is fetched.
pub fn download_url(api_base: &str, token: &str) -> (r: String)
    ensures
        r@ == api_base@ + "/torrent/download/"@ + token@,
{
    joined(api_base, "/torrent/download/", token)
}

/// Name of the file a downloaded torrent is saved in.
pub fn torrent_file_name(id: &str) -> (r: String)
    ensures
        r@ == "mteam_"@ + id@ + ".torrent"@,
{
    joined("mteam_", id, ".torrent")
}

impl Proxies {
    /// The (plain, TLS) proxy pair: each given address stands in for a missing one; none when
    /// neither is given.
    pub fn pair(&self) -> (r: Option<(String, String)>)
        ensures
            match (self.http, self.https) {
                (Some(h), Some(s)) => r matches Some(p) && p.0@ == h@ && p.1@ == s@,
                (Some(h), None) => r matches Some(p) && p.0@ == h@ && p.1@ == h@,
                (None, Some(s)) => r matches Some(p) && p.0@ == s@ && p.1@ == s@,
                (None, None) => r is None,
            },
    {
        match (&self.http, &self.https) {
            (Some(h), Some(s)) => Some((h.clone(), s.clone())),
            (Some(h), None) => Some((h.clone(), h.clone())),
            (None, Some(s)) => Some((s.clone(), s.clone())),
            (None, None) => None,
        }
    }
}

// ---------------------------------------------------------------------------
// Answers
// ---------------------------------------------------------------------------

/// Why an answer of the site is not used.
pub enum ApiError {
    /// A search answer with a code other than "0".
    Rejected { code: String, message: String },
    /// A detail or token answer with a code other than "0".
    Failed { message: String },
    /// A detail answer without a torrent.
    NotFound,
    /// A token answer without a token.
    NoToken,
    /// Downloaded bytes that are not a torrent file.
    NotTorrentFile,
}

/// The answer code of success.
pub open spec fn is_success_code(code: Seq<char>) -> bool {
    code == "0"@
}

/// The torrents of a search answer: refused unless its code is "0"; otherwise its items
/// ordered by `sort_torrents` and cut to the first `limit`.
pub fn search_results(
    response: ApiResponse<Torrent>,
    sort_field: SortField,
    sort_direction: SortDirection,
    limit: usize,
) -> (r: Result<Vec<Torrent>, ApiError>)
    ensures
        !is_success_code(response.code@) ==> (r matches Err(ApiError::Rejected { code, message })
            && code@ == response.code@ && message@ == response.message@),
        is_success_code(response.code@) ==> (r matches Ok(v) && exists|sorted: Seq<Torrent>|
            #![trigger is_stable_sort_of(sorted, response.data.data_items@, torrent_sort_keys(response.data.data_items@, sort_field, sort_direction))]
            is_stable_sort_of(
                sorted,
                response.data.data_items@,
                torrent_sort_keys(response.data.data_items@, sort_field, sort_direction),
            ) && v@ == (if limit < sorted.len() {
                sorted.take(limit as int)
            } else {
                sorted
            })),
        r matches Ok(v) ==> v@.len() <= limit,
{
    if !str_eq(response.code.as_str(), "0") {
        return Err(ApiError::Rejected { code: response.code, message: response.message });
    }
    let ghost items = response.data.data_items@;
    let mut torrents = response.data.data_items;
    sort_torrents(&mut torrents, sort_field, sort_direction);
    let ghost sorted = torrents@;
    torrents.truncate(limit);
    proof {
        if limit < sorted.len() {
            assert(torrents@ =~= sorted.take(limit as int));
        }
    }
    Ok(torrents)
}

/// The torrent of a detail answer with code `code`: refused with `message` unless the code
/// is "0", and missing when the answer holds none.
pub fn detail_result(code: &str, message: String, data: Option<Torrent>) -> (r: Result<
    Torrent,
    ApiError,
>)
    ensures
        !is_success_code(code@) ==> (r matches Err(ApiError::Failed { message: m }) && m@
            == message@),
        is_success_code(code@) ==> match data {
            Some(t) => r == Ok::<Torrent, ApiError>(t),
            None => r is Err && r->Err_0 is NotFound,
        },
{
    if !str_eq(code, "0") {
        return Err(ApiError::Failed { message });
    }
    match data {
        Some(t) => Ok(t),
        None => Err(ApiError::NotFound),
    }
}

/// The download address for a token answer with code `code`: refused with `message` unless
/// the code is "0", and missing when the answer holds no token.
pub fn download_token_result(
    api_base: &str,
    code: &str,
    message: String,
    data: Option<String>,
) -> (r: Result<String, ApiError>)
    ensures
        !is_success_code(code@) ==> (r matches Err(ApiError::Failed { message: m }) && m@
            == message@),
        is_success_code(code@) ==> match data {
            Some(token) => r matches Ok(u) && u@ == api_base@ + "/torrent/download/"@ + token@,
            None => r is Err && r->Err_0 is NoToken,
        },
{
    if !str_eq(code, "0") {
        return Err(ApiError::Failed { message });
    }
    match data {
        Some(token) => Ok(download_url(api_base, token.as_str())),
        None => Err(ApiError::NoToken),
    }
}

/// Whether downloaded bytes look like a torrent file: a bencoded dictionary starts with `d`.
pub fn is_torrent_file(bytes: &[u8]) -> (r: bool)
    ensures
        r == (bytes@.len() > 0 && bytes@[0] == 0x64u8),
{
    bytes.len() > 0 && bytes[0] == 0x64u8
}

impl ApiError {
    /// The message shown for this error.
    pub fn message(&self) -> (r: String)
        ensures
            r@ == (match self {
                ApiError::Rejected { code, message } => "API 返回错误: code="@ + code@
                    + ", message="@ + message@,
                ApiError::Failed { message } => "API 错误: "@ + message@,
                ApiError::NotFound => "种子不存在"@,
                ApiError::NoToken => "获取下载令牌失败"@,
                ApiError::NotTorrentFile => "下载的文件不是有效的种子文件"@,
            }),
    {
        match self {
            ApiError::Rejected { code, message } => {
                let mut out = "API 返回错误: code=".to_owned();
                out.append(code.as_str());
                out.append(", message=");
                out.append(message.as_str());
                out
            },
            ApiError::Failed { message } => {
                let mut out = "API 错误: ".to_owned();
                out.append(message.as_str());
                out
            },
            ApiError::NotFound => "种子不存在".to_owned(),
            ApiError::NoToken => "获取下载令牌失败".to_owned(),
            ApiError::NotTorrentFile => "下载的文件不是有效的种子文件".to_owned(),
        }
    }
}

} // verus!
