use vstd::prelude::*;
use vstd::string::StringSliceAdditionalSpecFns;
use vstd::utf8::{decode_utf8, encode_utf8, encode_utf8_decode_utf8, is_char_boundary};

use crate::models::{SortDirection, SortField, Torrent};
use crate::text::{contains_seq, decimal, push_decimal, unicode_uppercase};
use crate::utils::{
    category_name, chinese_subtitle, chinese_title, extract_chinese_title, format_size,
    get_category_name, get_torrent_url, has_chinese_subtitle, size_text, torrent_has_chinese_subtitle,
    torrent_sort_key,
};

verus! {

// ---------------------------------------------------------------------------
// The result table
// ---------------------------------------------------------------------------

/// The longest title, in UTF-8 bytes, that the table shows whole.
pub open spec fn title_width() -> nat {
    42
}

/// A title can be cut for the table: it is short enough to stay whole, or its 42nd byte
/// ends a character. Where it is not, the table cannot be printed: cutting the title
/// there fails.
pub open spec fn title_can_be_cut(title: Seq<char>) -> bool {
    encode_utf8(title).len() > title_width() ==> is_char_boundary(
        encode_utf8(title),
        title_width() as int,
    )
}

/// A title as the table shows it: whole when its UTF-8 form is at most 42 bytes long,
/// otherwise its first 42 bytes followed by "...".
pub open spec fn shown_title(title: Seq<char>) -> Seq<char> {
    if encode_utf8(title).len() > title_width() {
        decode_utf8(encode_utf8(title).take(title_width() as int)) + "..."@
    } else {
        title
    }
}

/// Whether a title can be cut for the table (see `title_can_be_cut`).
pub fn title_fits_table(title: &str) -> (r: bool)
    ensures
        r == title_can_be_cut(title@),
{
    title.as_bytes().len() <= 42 || title.is_char_boundary(42)
}

/// A title as the table shows it.
pub fn shorten_title(title: &str) -> (r: String)
    requires
        title_can_be_cut(title@),
    ensures
        r@ == shown_title(title@),
{
    if title.as_bytes().len() > 42 {
        let (head, _tail) = title.split_at(42);
        proof {
            encode_utf8_decode_utf8(head@);
            assert(head.spec_bytes() == encode_utf8(head@));
        }
        let mut out = head.to_owned();
        out.append("...");
        out
    } else {
        title.to_owned()
    }
}

/// One line of the result table, column by column.
pub struct TableRow {
    /// "[n]", counting from 1.
    pub number: String,
    /// The Chinese subtitle mark ("💖", or two spaces), a space and the shown title.
    pub title: String,
    pub size: String,
    pub seeders: String,
    pub leechers: String,
    pub category: &'static str,
    pub url: String,
}

/// The mark in front of a title: "💖" for a torrent with Chinese subtitles.
pub open spec fn subtitle_mark(t: Torrent) -> Seq<char> {
    if chinese_subtitle(t.name@, unicode_uppercase(t.name@), t.labels_new@) {
        "💖"@
    } else {
        "  "@
    }
}

/// A torrent can be shown in the table: its title can be cut.
pub open spec fn row_can_be_shown(t: Torrent) -> bool {
    title_can_be_cut(chinese_title(t))
}

/// Whether a torrent can be shown in the table (see `row_can_be_shown`).
pub fn torrent_fits_table(torrent: &Torrent) -> (r: bool)
    ensures
        r == row_can_be_shown(*torrent),
{
    let title = extract_chinese_title(torrent);
    title_fits_table(title.as_str())
}

/// The table line for the torrent at position `position` (counting from 0).
pub fn table_row(position: usize, torrent: &Torrent, base_url: &str) -> (r: TableRow)
    requires
        position < usize::MAX,
        row_can_be_shown(*torrent),
    ensures
        r.number@ == "["@ + decimal(position as nat + 1) + "]"@,
        r.title@ == subtitle_mark(*torrent) + " "@ + shown_title(chinese_title(*torrent)),
        r.size@ == size_text(torrent.size@),
        r.seeders@ == decimal(torrent.status.seeders as nat),
        r.leechers@ == decimal(torrent.status.leechers as nat),
        r.category@ == category_name(torrent.category@),
        r.url@ == base_url@ + "/detail/"@ + torrent.id@,
{
    let title = extract_chinese_title(torrent);
    let shown = shorten_title(title.as_str());
    let mut number = "[".to_owned();
    push_decimal(&mut number, position as u128 + 1);
    number.append("]");
    let mut marked = if has_chinese_subtitle(torrent.name.as_str(), torrent.labels_new.as_slice()) {
        "💖".to_owned()
    } else {
        "  ".to_owned()
    };
    marked.append(" ");
    marked.append(shown.as_str());
    let mut seeders = String::new();
    push_decimal(&mut seeders, torrent.status.seeders as u128);
    let mut leechers = String::new();
    push_decimal(&mut leechers, torrent.status.leechers as u128);
    TableRow {
        number,
        title: marked,
        size: format_size(torrent.size.as_str()),
        seeders,
        leechers,
        category: get_category_name(torrent.category.as_str()),
        url: get_torrent_url(base_url, torrent.id.as_str()),
    }
}

// ---------------------------------------------------------------------------
// The detail view
// ---------------------------------------------------------------------------

/// The lines of the detail view of a torrent: its short description when it has one, its
/// name, size, category, id and swarm figures, and its IMDb and Douban links when it has
/// them.
pub open spec fn detail_lines_of(t: Torrent) -> Seq<Seq<char>> {
    let head = match t.small_descr {
        Some(d) => seq!["标题: "@ + d@],
        None => Seq::empty(),
    };
    let body = seq![
        "文件名: "@ + t.name@,
        "大小: "@ + size_text(t.size@),
        "分类: "@ + category_name(t.category@),
        "ID: "@ + t.id@,
        "做种数: "@ + decimal(t.status.seeders as nat),
        "下载数: "@ + decimal(t.status.leechers as nat),
        "完成数: "@ + decimal(t.status.completed as nat),
    ];
    let imdb = match t.imdb {
        Some(v) => seq!["IMDb: "@ + v@],
        None => Seq::empty(),
    };
    let douban = match t.douban {
        Some(v) => seq!["豆瓣: "@ + v@],
        None => Seq::empty(),
    };
    head + body + imdb + douban
}

fn line(label: &str, value: &str) -> (r: String)
    ensures
        r@ == label@ + value@,
{
    let mut out = label.to_owned();
    out.append(value);
    out
}

fn number_line(label: &str, value: u32) -> (r: String)
    ensures
        r@ == label@ + decimal(value as nat),
{
    let mut out = label.to_owned();
    push_decimal(&mut out, value as u128);
    out
}

/// The lines of the detail view of a torrent (see `detail_lines_of`).
pub fn detail_lines(torrent: &Torrent) -> (r: Vec<String>)
    ensures
        r@.len() == detail_lines_of(*torrent).len(),
        forall|i: int| 0 <= i < r@.len() ==> (#[trigger] r@[i])@ == detail_lines_of(*torrent)[i],
{
    let mut r: Vec<String> = Vec::new();
    if let Some(d) = &torrent.small_descr {
        r.push(line("标题: ", d.as_str()));
    }
    let size = format_size(torrent.size.as_str());
    r.push(line("文件名: ", torrent.name.as_str()));
    r.push(line("大小: ", size.as_str()));
    r.push(line("分类: ", get_category_name(torrent.category.as_str())));
    r.push(line("ID: ", torrent.id.as_str()));
    r.push(number_line("做种数: ", torrent.status.seeders));
    r.push(number_line("下载数: ", torrent.status.leechers));
    r.push(number_line("完成数: ", torrent.status.completed));
    if let Some(v) = &torrent.imdb {
        r.push(line("IMDb: ", v.as_str()));
    }
    if let Some(v) = &torrent.douban {
        r.push(line("豆瓣: ", v.as_str()));
    }
    proof {
        let views = r@.map_values(|s: String| s@);
        assert(views =~= detail_lines_of(*torrent));
    }
    r
}


/// The title column of the table starts with "💖" exactly when the torrent passes the
/// subtitle test that the seeders sort uses to list it first (in either direction), and
/// with a space otherwise; a label containing "中" is enough for the mark.
pub proof fn table_mark_agrees_with_subtitle_test(t: Torrent, direction: SortDirection)
    ensures
        ({
            let title = subtitle_mark(t) + " "@ + shown_title(chinese_title(t));
            &&& title.len() > 0
            &&& (title[0] == '💖') <==> torrent_has_chinese_subtitle(t)
            &&& (title[0] == '💖') <==> torrent_sort_key(t, SortField::Seeders, direction).0 == 0
            &&& !torrent_has_chinese_subtitle(t) ==> title[0] == ' '
            &&& (exists|i: int|
                0 <= i < t.labels_new.len() && contains_seq(#[trigger] t.labels_new[i]@, "中"@))
                ==> title[0] == '💖'
        }),
{
    reveal_strlit("💖");
    reveal_strlit("  ");
    reveal_strlit(" ");
    let title = subtitle_mark(t) + " "@ + shown_title(chinese_title(t));
    assert(title[0] == subtitle_mark(t)[0]);
}

/// The detail view: the short description first when there is one, then the name, size,
/// category, id and the three swarm figures, then "IMDb: " and the IMDb id when there is
/// one, and last "豆瓣: " and the Douban id when there is one, each independently of the
/// others.
pub proof fn detail_view_lists_each_present_field(t: Torrent)
    ensures
        ({
            let lines = detail_lines_of(t);
            let d = if t.douban is Some { 1int } else { 0int };
            let m = if t.imdb is Some { 1int } else { 0int };
            let h = if t.small_descr is Some { 1int } else { 0int };
            &&& lines.len() == h + 7 + m + d
            &&& t.small_descr matches Some(s) ==> lines[0] == "标题: "@ + s@
            &&& lines[h] == "文件名: "@ + t.name@
            &&& lines[h + 1] == "大小: "@ + size_text(t.size@)
            &&& lines[h + 2] == "分类: "@ + category_name(t.category@)
            &&& lines[h + 3] == "ID: "@ + t.id@
            &&& lines[h + 4] == "做种数: "@ + decimal(t.status.seeders as nat)
            &&& lines[h + 5] == "下载数: "@ + decimal(t.status.leechers as nat)
            &&& lines[h + 6] == "完成数: "@ + decimal(t.status.completed as nat)
            &&& t.imdb matches Some(v) ==> lines[h + 7] == "IMDb: "@ + v@
            &&& t.douban matches Some(v) ==> lines[lines.len() - 1] == "豆瓣: "@ + v@
        }),
{
}

} // verus!
