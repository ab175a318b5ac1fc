use vstd::prelude::*;

use crate::models::{category_map, category_table, SortDirection, SortField, Torrent};
use crate::text::{decimal_text_parses_back, leading_run, trailing_run};
use crate::sorting::{
    is_stable_sort_of, key_lt, keys_of, opposite_keys_give_reversed_sorts, stable_sort_ascends,
    stable_sort_by_keys, stable_sort_is_idempotent, stable_sort_is_unique, SortKey,
};
use crate::text::{
    chars_of, contains_chars, contains_seq, decimal, differs_from, digit_char, digit_str,
    first_field, first_field_of, lemma_leading_run_satisfies, lemma_trailing_run_bound,
    parse_u64, parse_unsigned, push_decimal, str_eq, to_uppercase, trim, trimmed,
    unicode_uppercase, white_space_test,
};

verus! {

// ---------------------------------------------------------------------------
// File sizes
// ---------------------------------------------------------------------------

pub open spec fn kib() -> nat {
    1024
}

pub open spec fn mib() -> nat {
    1024 * 1024
}

pub open spec fn gib() -> nat {
    1024 * 1024 * 1024
}

/// `n / d` rounded to the nearest integer, ties to the even one.
pub open spec fn div_round_even(n: nat, d: nat) -> nat {
    let q = n / d;
    let r = n % d;
    if 2 * r > d || (2 * r == d && q % 2 == 1) {
        q + 1
    } else {
        q
    }
}

/// The power of two by which an integer is scaled in the nearest `f64`: 1 below 2^53, and
/// doubled for each further bit.
pub open spec fn f64_unit(b: nat) -> nat
    decreases b,
{
    if b < 0x20_0000_0000_0000 {
        1
    } else {
        2 * f64_unit(b / 2)
    }
}

/// The value of `b as f64`: `b` rounded to 53 significant bits, ties to even.
pub open spec fn f64_nearest(b: nat) -> nat {
    div_round_even(b, f64_unit(b)) * f64_unit(b)
}

/// Two decimal digits of `x` (below 100), with a leading zero.
pub open spec fn two_digits(x: nat) -> Seq<char> {
    seq![digit_char((x / 10) as int), digit_char((x % 10) as int)]
}

/// `v / unit` with two decimals, as `{:.2}` prints the `f64` quotient `v / unit` (which is
/// exact here: `unit` is a power of two): the exact quotient rounded to hundredths, ties
/// to even.
pub open spec fn fixed2(v: nat, unit: nat) -> Seq<char> {
    let h = div_round_even(100 * v, unit);
    decimal(h / 100) + "."@ + two_digits(h % 100)
}

/// How a positive number of bytes is shown.
pub open spec fn size_text_of(b: nat) -> Seq<char> {
    if b >= gib() {
        fixed2(f64_nearest(b), gib()) + " GB"@
    } else if b >= mib() {
        fixed2(b, mib()) + " MB"@
    } else if b >= kib() {
        fixed2(b, kib()) + " KB"@
    } else {
        decimal(b) + " B"@
    }
}

/// How a size field is shown: a positive byte count in the largest unit it reaches, and
/// "未知" (unknown) for zero or for text that is not a `u64`.
pub open spec fn size_text(size: Seq<char>) -> Seq<char> {
    match parse_unsigned(size, u64::MAX as nat) {
        Some(b) => if b > 0 {
            size_text_of(b)
        } else {
            "未知"@
        },
        None => "未知"@,
    }
}

/// The nearest `f64` to `b`, as an integer.
fn nearest_f64_value(b: u64) -> (r: u128)
    ensures
        r == f64_nearest(b as nat),
        r <= 2 * b + 1,
{
    let mut t: u64 = b;
    let mut d: u128 = 1;
    while t >= 0x20_0000_0000_0000
        invariant
            1 <= d,
            d == 1 || d <= b,
            t as nat == b as nat / d as nat,
            f64_unit(b as nat) == d * f64_unit(t as nat),
        decreases t,
    {
        proof {
            vstd::arithmetic::div_mod::lemma_div_denominator(b as int, d as int, 2);
            let q = b as int / (d as int);
            vstd::arithmetic::div_mod::lemma_fundamental_div_mod(b as int, d as int);
            assert(2 * d <= b) by (nonlinear_arith)
                requires
                    q >= 0x20_0000_0000_0000,
                    b as int == d * q + (b as int % d as int),
                    b as int % d as int >= 0,
                    d >= 1,
            ;
            assert(d * f64_unit(t as nat) == (2 * d) * f64_unit((t / 2) as nat)) by (
            nonlinear_arith)
                requires
                    f64_unit(t as nat) == 2 * f64_unit((t / 2) as nat),
            ;
        }
        t = t / 2;
        d = d * 2;
    }
    let q = (b as u128) / d;
    let r = (b as u128) % d;
    proof {
        assert(f64_unit(t as nat) == 1);
        assert(f64_unit(b as nat) == d) by (nonlinear_arith)
            requires
                f64_unit(b as nat) == d * f64_unit(t as nat),
                f64_unit(t as nat) == 1,
        ;
        vstd::arithmetic::div_mod::lemma_fundamental_div_mod(b as int, d as int);
    }
    let n: u128 = if 2 * r > d || (2 * r == d && q % 2 == 1) {
        q + 1
    } else {
        q
    };
    assert(n * d <= 2 * b + 1) by (nonlinear_arith)
        requires
            n <= q + 1,
            b as int == d * q + r,
            0 <= r,
            1 <= d,
            d == 1 || d <= b,
            d == 1 ==> r == 0,
    {
        assert(n * d <= q * d + d);
    }
    assert(n == div_round_even(b as nat, d as nat));
    n * d
}

/// Appends `v / unit` with two decimals, rounded as `{:.2}` rounds.
fn push_fixed2(out: &mut String, v: u128, unit: u128)
    requires
        0 < unit <= 0x1_0000_0000,
        v <= 0x2_0000_0000_0000_0001,
    ensures
        final(out)@ == old(out)@ + fixed2(v as nat, unit as nat),
{
    let n = 100 * v;
    let q = n / unit;
    let r = n % unit;
    let h: u128 = if 2 * r > unit || (2 * r == unit && q % 2 == 1) {
        q + 1
    } else {
        q
    };
    push_decimal(out, h / 100);
    let ghost a = out@;
    proof {
        reveal_strlit(".");
    }
    out.append(".");
    let tens = (h % 100) / 10;
    let ones = (h % 100) % 10;
    out.append(digit_str(tens));
    out.append(digit_str(ones));
    assert(out@ =~= old(out)@ + fixed2(v as nat, unit as nat));
}

/// Shows a byte count, given as text, in the largest unit (GB, MB, KB or B) it reaches, with
/// two decimals for the units above bytes; zero and text that is not a number give "未知".
pub fn format_size(size: &str) -> (r: String)
    ensures
        r@ == size_text(size@),
{
    match parse_u64(size) {
        Some(bytes) => {
            if bytes > 0 {
                let mut out = String::new();
                if bytes >= 1024 * 1024 * 1024 {
                    let v = nearest_f64_value(bytes);
                    push_fixed2(&mut out, v, 1024 * 1024 * 1024);
                    out.append(" GB");
                } else if bytes >= 1024 * 1024 {
                    push_fixed2(&mut out, bytes as u128, 1024 * 1024);
                    out.append(" MB");
                } else if bytes >= 1024 {
                    push_fixed2(&mut out, bytes as u128, 1024);
                    out.append(" KB");
                } else {
                    push_decimal(&mut out, bytes as u128);
                    out.append(" B");
                }
                assert(out@ =~= size_text(size@));
                out
            } else {
                "未知".to_owned()
            }
        },
        None => "未知".to_owned(),
    }
}

// ---------------------------------------------------------------------------
// Chinese subtitles
// ---------------------------------------------------------------------------

/// The words whose presence in a torrent name marks Chinese subtitles.
pub open spec fn subtitle_keywords() -> Seq<Seq<char>> {
    seq![
        "中字"@,
        "中文"@,
        "国配"@,
        "国语"@,
        "繁体"@,
        "简体"@,
        "CHS"@,
        "CHT"@,
        "TC"@,
        "SC"@,
        "C-Movie"@,
        "CD1"@,
    ]
}

fn subtitle_keyword_list() -> (r: Vec<&'static str>)
    ensures
        r@.len() == subtitle_keywords().len(),
        forall|i: int| 0 <= i < r@.len() ==> (#[trigger] r@[i])@ == subtitle_keywords()[i],
{
    let mut r: Vec<&'static str> = Vec::new();
    r.push("中字");
    r.push("中文");
    r.push("国配");
    r.push("国语");
    r.push("繁体");
    r.push("简体");
    r.push("CHS");
    r.push("CHT");
    r.push("TC");
    r.push("SC");
    r.push("C-Movie");
    r.push("CD1");
    r
}

/// A label that marks Chinese subtitles: it contains "中" or "国配".
pub open spec fn label_marks_chinese(label: Seq<char>) -> bool {
    contains_seq(label, "中"@) || contains_seq(label, "国配"@)
}

/// A name marks Chinese subtitles when it, or its upper-case form `upper`, contains one of
/// the keywords.
pub open spec fn name_marks_chinese(name: Seq<char>, upper: Seq<char>) -> bool {
    exists|k: int|
        0 <= k < subtitle_keywords().len() && (contains_seq(upper, #[trigger] subtitle_keywords()[k])
            || contains_seq(name, subtitle_keywords()[k]))
}

/// A torrent with this name (upper-case form `upper`) and these labels has Chinese
/// subtitles.
pub open spec fn chinese_subtitle(name: Seq<char>, upper: Seq<char>, labels: Seq<String>) -> bool {
    ||| exists|i: int| 0 <= i < labels.len() && label_marks_chinese(#[trigger] labels[i]@)
    ||| name_marks_chinese(name, upper)
}

fn label_has_chinese_mark(label: &str) -> (r: bool)
    ensures
        r == label_marks_chinese(label@),
{
    let v = chars_of(label);
    let zhong = chars_of("中");
    let guopei = chars_of("国配");
    contains_chars(&v, &zhong) || contains_chars(&v, &guopei)
}

/// Whether a torrent has Chinese subtitles, given its name, the upper-case form of the
/// name and its labels.
pub fn has_chinese_subtitle_upper(name: &str, name_upper: &str, labels: &[String]) -> (r: bool)
    ensures
        r == chinese_subtitle(name@, name_upper@, labels@),
{
    let n = labels.len();
    for i in 0..n
        invariant
            n == labels@.len(),
            forall|j: int| 0 <= j < i ==> !label_marks_chinese(#[trigger] labels@[j]@),
    {
        if label_has_chinese_mark(labels[i].as_str()) {
            return true;
        }
    }
    let keywords = subtitle_keyword_list();
    let name_chars = chars_of(name);
    let upper_chars = chars_of(name_upper);
    let m = keywords.len();
    for k in 0..m
        invariant
            m == keywords@.len(),
            m == subtitle_keywords().len(),
            forall|i: int| 0 <= i < m ==> (#[trigger] keywords@[i])@ == subtitle_keywords()[i],
            name_chars@ == name@,
            upper_chars@ == name_upper@,
            forall|j: int| 0 <= j < n ==> !label_marks_chinese(#[trigger] labels@[j]@),
            forall|j: int|
                0 <= j < k ==> !contains_seq(name_upper@, #[trigger] subtitle_keywords()[j])
                    && !contains_seq(name@, subtitle_keywords()[j]),
    {
        let kw = chars_of(keywords[k]);
        if contains_chars(&upper_chars, &kw) || contains_chars(&name_chars, &kw) {
            return true;
        }
    }
    false
}

/// Whether a torrent has Chinese subtitles: one of its labels contains "中" or "国配", or
/// its name, or the name in upper case, contains one of the subtitle keywords.
pub fn has_chinese_subtitle(name: &str, labels: &[String]) -> (r: bool)
    ensures
        r == chinese_subtitle(name@, unicode_uppercase(name@), labels@),
{
    let upper = to_uppercase(name);
    has_chinese_subtitle_upper(name, upper.as_str(), labels)
}

// ---------------------------------------------------------------------------
// Links, titles and categories
// ---------------------------------------------------------------------------

/// The page of a torrent on the site.
pub fn get_torrent_url(base_url: &str, torrent_id: &str) -> (r: String)
    ensures
        r@ == base_url@ + "/detail/"@ + torrent_id@,
{
    let mut out = base_url.to_owned();
    out.append("/detail/");
    out.append(torrent_id);
    out
}

/// The title shown for a torrent: the part of its short description before the first
/// `|`, trimmed, or its name when it has no short description.
pub open spec fn chinese_title(t: Torrent) -> Seq<char> {
    match t.small_descr {
        Some(d) => trimmed(first_field(d@, '|')),
        None => t.name@,
    }
}

/// The title shown for a torrent (see `chinese_title`).
pub fn extract_chinese_title(torrent: &Torrent) -> (r: String)
    ensures
        r@ == chinese_title(*torrent),
{
    match &torrent.small_descr {
        Some(descr) => {
            let head = first_field_of(descr.as_str(), '|');
            trim(head.as_str())
        },
        None => torrent.name.clone(),
    }
}

/// `i` is the first entry of the category table with id `id`.
pub open spec fn first_category_with_id(id: Seq<char>, i: int) -> bool {
    &&& 0 <= i < category_table().len()
    &&& category_table()[i].0 == id
    &&& forall|j: int| 0 <= j < i ==> category_table()[j].0 != id
}

/// The display name of the category with id `id`, or "未知" (unknown).
pub open spec fn category_name(id: Seq<char>) -> Seq<char> {
    if exists|i: int| first_category_with_id(id, i) {
        category_table()[choose|i: int| first_category_with_id(id, i)].1
    } else {
        "未知"@
    }
}

proof fn lemma_first_category_unique(id: Seq<char>, i: int, j: int)
    requires
        first_category_with_id(id, i),
        first_category_with_id(id, j),
    ensures
        i == j,
{
}

/// The display name of the category with the given id, or "未知" (unknown).
pub fn get_category_name(category_id: &str) -> (r: &'static str)
    ensures
        r@ == category_name(category_id@),
{
    let table = category_map();
    let n = table.len();
    for i in 0..n
        invariant
            n == table@.len(),
            n == category_table().len(),
            forall|k: int| 0 <= k < n ==> (#[trigger] table@[k]).entry() == category_table()[k],
            forall|j: int| 0 <= j < i ==> category_table()[j].0 != category_id@,
    {
        if str_eq(table[i].id, category_id) {
            proof {
                assert(table@[i as int].entry() == category_table()[i as int]);
                assert(first_category_with_id(category_id@, i as int));
                let c = choose|c: int| first_category_with_id(category_id@, c);
                lemma_first_category_unique(category_id@, i as int, c);
            }
            return table[i].name;
        }
    }
    proof {
        assert forall|i: int| !first_category_with_id(category_id@, i) by {}
    }
    "未知"
}

// ---------------------------------------------------------------------------
// Ordering torrents
// ---------------------------------------------------------------------------

/// A number given as text, or 0 where the text is not a `u64`.
pub open spec fn number_or_zero(s: Seq<char>) -> u64 {
    match parse_unsigned(s, u64::MAX as nat) {
        Some(v) => v as u64,
        None => 0,
    }
}

/// `v` as a key component: itself for ascending order, reversed for descending order.
pub open spec fn oriented(v: u64, direction: SortDirection) -> u64 {
    match direction {
        SortDirection::Desc => (u64::MAX - v) as u64,
        SortDirection::Asc => v,
    }
}

/// The key by which `sort_torrents` orders a torrent. By seeders: torrents with Chinese
/// subtitles first, then by seeder count. By size: by the size field as a number (0 when it
/// is not one). By time: by the id as a number (0 when it is not one; higher ids are newer).
pub open spec fn torrent_sort_key(t: Torrent, field: SortField, direction: SortDirection) -> SortKey {
    match field {
        SortField::Seeders => (
            if chinese_subtitle(t.name@, unicode_uppercase(t.name@), t.labels_new@) {
                0u64
            } else {
                1u64
            },
            oriented(t.status.seeders as u64, direction),
        ),
        SortField::Size => (0u64, oriented(number_or_zero(t.size@), direction)),
        SortField::Time => (0u64, oriented(number_or_zero(t.id@), direction)),
    }
}

/// The keys of a list of torrents.
pub open spec fn torrent_sort_keys(
    ts: Seq<Torrent>,
    field: SortField,
    direction: SortDirection,
) -> Seq<SortKey> {
    Seq::new(ts.len(), |i: int| torrent_sort_key(ts[i], field, direction))
}

fn number_or_zero_of(s: &str) -> (r: u64)
    ensures
        r == number_or_zero(s@),
{
    match parse_u64(s) {
        Some(v) => v,
        None => 0,
    }
}

fn orient(v: u64, direction: SortDirection) -> (r: u64)
    ensures
        r == oriented(v, direction),
{
    match direction {
        SortDirection::Desc => u64::MAX - v,
        SortDirection::Asc => v,
    }
}

fn sort_key_of(t: &Torrent, field: SortField, direction: SortDirection) -> (r: SortKey)
    ensures
        r == torrent_sort_key(*t, field, direction),
{
    match field {
        SortField::Seeders => {
            let group: u64 = if has_chinese_subtitle(t.name.as_str(), t.labels_new.as_slice()) {
                0
            } else {
                1
            };
            (group, orient(t.status.seeders as u64, direction))
        },
        SortField::Size => (0, orient(number_or_zero_of(t.size.as_str()), direction)),
        SortField::Time => (0, orient(number_or_zero_of(t.id.as_str()), direction)),
    }
}

/// Orders torrents by `field` in `direction`, keeping the order of torrents that compare
/// equal. By seeders, torrents with Chinese subtitles come first whatever the direction.
pub fn sort_torrents(torrents: &mut Vec<Torrent>, field: SortField, direction: SortDirection)
    ensures
        is_stable_sort_of(
            final(torrents)@,
            old(torrents)@,
            torrent_sort_keys(old(torrents)@, field, direction),
        ),
        final(torrents)@.to_multiset() == old(torrents)@.to_multiset(),
{
    let mut keys: Vec<SortKey> = Vec::new();
    let n = torrents.len();
    for i in 0..n
        invariant
            n == torrents.len(),
            keys@.len() == i,
            forall|j: int|
                0 <= j < i ==> #[trigger] keys@[j] == torrent_sort_key(torrents@[j], field, direction),
    {
        let k = sort_key_of(&torrents[i], field, direction);
        keys.push(k);
    }
    assert(keys@ =~= torrent_sort_keys(torrents@, field, direction));
    stable_sort_by_keys(torrents, &keys);
}

// ---------------------------------------------------------------------------
// What a sort of torrents guarantees
// ---------------------------------------------------------------------------

/// After `sort_torrents`, the torrents come by non-decreasing sort key.
pub proof fn sorted_torrents_ascend(
    out: Seq<Torrent>,
    inp: Seq<Torrent>,
    field: SortField,
    direction: SortDirection,
)
    requires
        is_stable_sort_of(out, inp, torrent_sort_keys(inp, field, direction)),
    ensures
        out.len() == inp.len(),
        forall|k: int, l: int|
            0 <= k < l < out.len() ==> !key_lt(
                torrent_sort_key(out[l], field, direction),
                torrent_sort_key(out[k], field, direction),
            ),
{
    let key = |t: Torrent| torrent_sort_key(t, field, direction);
    assert(keys_of(inp, key) =~= torrent_sort_keys(inp, field, direction));
    stable_sort_ascends(out, inp, key);
    assert forall|k: int, l: int| 0 <= k < l < out.len() implies !key_lt(
        torrent_sort_key(out[l], field, direction),
        torrent_sort_key(out[k], field, direction),
    ) by {
        assert(key(out[l]) == torrent_sort_key(out[l], field, direction));
        assert(key(out[k]) == torrent_sort_key(out[k], field, direction));
    }
}

/// A torrent has Chinese subtitles (see `has_chinese_subtitle`).
pub open spec fn torrent_has_chinese_subtitle(t: Torrent) -> bool {
    chinese_subtitle(t.name@, unicode_uppercase(t.name@), t.labels_new@)
}

/// Sorting by seeders, in either direction, lists every torrent with Chinese subtitles
/// before every torrent without; within each of the two groups, descending order lists
/// more seeders first and ascending order fewer seeders first.
pub proof fn seeders_sort_lists_chinese_first(
    out: Seq<Torrent>,
    inp: Seq<Torrent>,
    direction: SortDirection,
)
    requires
        is_stable_sort_of(out, inp, torrent_sort_keys(inp, SortField::Seeders, direction)),
    ensures
        forall|k: int, l: int|
            0 <= k < l < out.len() && torrent_has_chinese_subtitle(out[l])
                ==> torrent_has_chinese_subtitle(out[k]),
        forall|k: int, l: int|
            0 <= k < l < out.len() && torrent_has_chinese_subtitle(out[k])
                == torrent_has_chinese_subtitle(out[l]) ==> (match direction {
                SortDirection::Desc => out[k].status.seeders >= out[l].status.seeders,
                SortDirection::Asc => out[k].status.seeders <= out[l].status.seeders,
            }),
{
    sorted_torrents_ascend(out, inp, SortField::Seeders, direction);
    assert forall|k: int, l: int|
        0 <= k < l < out.len() && torrent_has_chinese_subtitle(out[l]) implies torrent_has_chinese_subtitle(out[k]) by {
        assert(!key_lt(
            torrent_sort_key(out[l], SortField::Seeders, direction),
            torrent_sort_key(out[k], SortField::Seeders, direction),
        ));
    }
    assert forall|k: int, l: int|
        0 <= k < l < out.len() && torrent_has_chinese_subtitle(out[k])
            == torrent_has_chinese_subtitle(out[l]) implies (match direction {
            SortDirection::Desc => out[k].status.seeders >= out[l].status.seeders,
            SortDirection::Asc => out[k].status.seeders <= out[l].status.seeders,
        }) by {
        assert(!key_lt(
            torrent_sort_key(out[l], SortField::Seeders, direction),
            torrent_sort_key(out[k], SortField::Seeders, direction),
        ));
    }
}

/// Sorting by size (or by time) lists the torrents by their size (or id) read as a number,
/// 0 for text that is not one: largest first in descending order, smallest first in
/// ascending order.
pub proof fn size_and_time_sorts_order_numbers(
    out: Seq<Torrent>,
    inp: Seq<Torrent>,
    field: SortField,
    direction: SortDirection,
)
    requires
        field != SortField::Seeders,
        is_stable_sort_of(out, inp, torrent_sort_keys(inp, field, direction)),
    ensures
        forall|k: int, l: int|
            #![trigger out[k], out[l]]
            0 <= k < l < out.len() ==> {
                let a = if field == SortField::Size {
                    number_or_zero(out[k].size@)
                } else {
                    number_or_zero(out[k].id@)
                };
                let b = if field == SortField::Size {
                    number_or_zero(out[l].size@)
                } else {
                    number_or_zero(out[l].id@)
                };
                match direction {
                    SortDirection::Desc => a >= b,
                    SortDirection::Asc => a <= b,
                }
            },
{
    sorted_torrents_ascend(out, inp, field, direction);
    assert forall|k: int, l: int| #![trigger out[k], out[l]] 0 <= k < l < out.len() implies {
        let a = if field == SortField::Size {
            number_or_zero(out[k].size@)
        } else {
            number_or_zero(out[k].id@)
        };
        let b = if field == SortField::Size {
            number_or_zero(out[l].size@)
        } else {
            number_or_zero(out[l].id@)
        };
        match direction {
            SortDirection::Desc => a >= b,
            SortDirection::Asc => a <= b,
        }
    } by {
        assert(!key_lt(
            torrent_sort_key(out[l], field, direction),
            torrent_sort_key(out[k], field, direction),
        ));
    }
}

/// The number by which a size or time sort orders a torrent: its size, or its id, read as
/// a number (0 for text that is not one).
pub open spec fn sort_number(t: Torrent, field: SortField) -> u64 {
    if field == SortField::Size {
        number_or_zero(t.size@)
    } else {
        number_or_zero(t.id@)
    }
}

/// Sorting by size (or by time) when no two torrents have the same size (or id) number:
/// the ascending order is the descending order read backwards.
pub proof fn ascending_sort_reverses_descending(
    asc: Seq<Torrent>,
    desc: Seq<Torrent>,
    inp: Seq<Torrent>,
    field: SortField,
)
    requires
        field != SortField::Seeders,
        forall|i: int, j: int|
            0 <= i < j < inp.len() ==> sort_number(#[trigger] inp[i], field) != sort_number(
                #[trigger] inp[j],
                field,
            ),
        is_stable_sort_of(asc, inp, torrent_sort_keys(inp, field, SortDirection::Asc)),
        is_stable_sort_of(desc, inp, torrent_sort_keys(inp, field, SortDirection::Desc)),
    ensures
        asc == desc.reverse(),
{
    let up = torrent_sort_keys(inp, field, SortDirection::Asc);
    let down = torrent_sort_keys(inp, field, SortDirection::Desc);
    assert forall|i: int, j: int| 0 <= i < j < inp.len() implies down[i] != down[j] by {
        assert(sort_number(inp[i], field) != sort_number(inp[j], field));
    }
    assert forall|i: int, j: int|
        0 <= i < inp.len() && 0 <= j < inp.len() && key_lt(
            #[trigger] down[i],
            #[trigger] down[j],
        ) implies key_lt(up[j], up[i]) by {}
    opposite_keys_give_reversed_sorts(asc, desc, inp, up, down);
}

/// The order `sort_torrents` gives is fully determined by the input, the field and the
/// direction.
pub proof fn torrent_order_is_determined(
    out1: Seq<Torrent>,
    out2: Seq<Torrent>,
    inp: Seq<Torrent>,
    field: SortField,
    direction: SortDirection,
)
    requires
        is_stable_sort_of(out1, inp, torrent_sort_keys(inp, field, direction)),
        is_stable_sort_of(out2, inp, torrent_sort_keys(inp, field, direction)),
    ensures
        out1 == out2,
{
    stable_sort_is_unique(out1, out2, inp, torrent_sort_keys(inp, field, direction));
}

/// Sorting torrents a second time by the same field and direction changes nothing.
pub proof fn sorting_torrents_twice_changes_nothing(
    once: Seq<Torrent>,
    twice: Seq<Torrent>,
    inp: Seq<Torrent>,
    field: SortField,
    direction: SortDirection,
)
    requires
        is_stable_sort_of(once, inp, torrent_sort_keys(inp, field, direction)),
        is_stable_sort_of(twice, once, torrent_sort_keys(once, field, direction)),
    ensures
        twice == once,
{
    let key = |t: Torrent| torrent_sort_key(t, field, direction);
    assert(keys_of(inp, key) =~= torrent_sort_keys(inp, field, direction));
    assert(keys_of(once, key) =~= torrent_sort_keys(once, field, direction));
    stable_sort_is_idempotent(once, twice, inp, key);
}

/// A title taken from a short description holds no `|`.
pub proof fn title_from_description_has_no_bar(t: Torrent)
    requires
        t.small_descr is Some,
    ensures
        !chinese_title(t).contains('|'),
{
    let d = t.small_descr->Some_0@;
    let p = differs_from('|');
    lemma_leading_run_satisfies(d, p);
    let f = first_field(d, '|');
    let w = white_space_test();
    lemma_leading_run_satisfies(f, w);
    let a = leading_run(f, w);
    let rest = f.skip(a as int);
    lemma_trailing_run_bound(rest, w);
    let title = trimmed(f);
    assert(title == rest.take(rest.len() - trailing_run(rest, w)));
    assert forall|i: int| 0 <= i < title.len() implies title[i] != '|' by {
        assert(title[i] == f[a + i]);
        assert(f[a + i] == d[a + i]);
        assert(p(d[a + i]));
    }
}

/// The ids of the category table are distinct, so each id gives the name of its own entry.
pub proof fn category_ids_give_their_names(i: int)
    requires
        0 <= i < category_table().len(),
    ensures
        category_name(category_table()[i].0) == category_table()[i].1,
{
    let id = category_table()[i].0;
    assert forall|j: int| 0 <= j < i implies category_table()[j].0 != id by {
        crate::menu::lemma_category_ids_are_numbers(i);
        crate::menu::lemma_category_ids_are_numbers(j);
        assert(crate::menu::category_numbers()[i] != crate::menu::category_numbers()[j]);
    }
    assert(first_category_with_id(id, i));
    let c = choose|c: int| first_category_with_id(id, c);
    lemma_first_category_unique(id, i, c);
}


/// A size or id that is the text of a `u64` is read as exactly that number, however large;
/// any other text is read as 0.
pub proof fn texts_of_u64_are_read_whole(s: Seq<char>, v: u64)
    ensures
        parse_unsigned(s, u64::MAX as nat) is None ==> number_or_zero(s) == 0,
        parse_unsigned(s, u64::MAX as nat) == Some(v as nat) ==> number_or_zero(s) == v,
        number_or_zero(decimal(v as nat)) == v,
{
    decimal_text_parses_back(v as nat, u64::MAX as nat);
}

/// Sorting by size, largest first: of two torrents whose sizes are the texts of the `u64`
/// numbers `x` and `y`, the one listed first has the size that is not smaller.
pub proof fn size_sort_lists_larger_sizes_first(
    out: Seq<Torrent>,
    inp: Seq<Torrent>,
    k: int,
    l: int,
    x: u64,
    y: u64,
)
    requires
        is_stable_sort_of(out, inp, torrent_sort_keys(inp, SortField::Size, SortDirection::Desc)),
        0 <= k < l < out.len(),
        out[k].size@ == decimal(x as nat),
        out[l].size@ == decimal(y as nat),
    ensures
        x >= y,
{
    size_and_time_sorts_order_numbers(out, inp, SortField::Size, SortDirection::Desc);
    texts_of_u64_are_read_whole(out[k].size@, x);
    texts_of_u64_are_read_whole(out[l].size@, y);
    assert(out[k] == out[k] && out[l] == out[l]);
}

/// The subtitle test, written out: a torrent has Chinese subtitles exactly when one of its
/// labels contains "中" or "国配", or its name or the upper-case form of its name contains
/// one of 中字, 中文, 国配, 国语, 繁体, 简体, CHS, CHT, TC, SC, C-Movie, CD1.
pub proof fn subtitle_test_uses_these_keywords(name: Seq<char>, upper: Seq<char>, labels: Seq<String>)
    ensures
        chinese_subtitle(name, upper, labels) <==> (
            (exists|i: int|
                0 <= i < labels.len() && (contains_seq(#[trigger] labels[i]@, "中"@)
                    || contains_seq(labels[i]@, "国配"@)))
            || contains_seq(name, "中字"@) || contains_seq(upper, "中字"@)
            || contains_seq(name, "中文"@) || contains_seq(upper, "中文"@)
            || contains_seq(name, "国配"@) || contains_seq(upper, "国配"@)
            || contains_seq(name, "国语"@) || contains_seq(upper, "国语"@)
            || contains_seq(name, "繁体"@) || contains_seq(upper, "繁体"@)
            || contains_seq(name, "简体"@) || contains_seq(upper, "简体"@)
            || contains_seq(name, "CHS"@) || contains_seq(upper, "CHS"@)
            || contains_seq(name, "CHT"@) || contains_seq(upper, "CHT"@)
            || contains_seq(name, "TC"@) || contains_seq(upper, "TC"@)
            || contains_seq(name, "SC"@) || contains_seq(upper, "SC"@)
            || contains_seq(name, "C-Movie"@) || contains_seq(upper, "C-Movie"@)
            || contains_seq(name, "CD1"@) || contains_seq(upper, "CD1"@)
        ),
{
    let kw = subtitle_keywords();
    assert(kw[0] == "中字"@);
    assert(kw[1] == "中文"@);
    assert(kw[2] == "国配"@);
    assert(kw[3] == "国语"@);
    assert(kw[4] == "繁体"@);
    assert(kw[5] == "简体"@);
    assert(kw[6] == "CHS"@);
    assert(kw[7] == "CHT"@);
    assert(kw[8] == "TC"@);
    assert(kw[9] == "SC"@);
    assert(kw[10] == "C-Movie"@);
    assert(kw[11] == "CD1"@);
    assert(kw.len() == 12);
}

/// A torrent without a short description is shown under its whole name.
pub proof fn title_without_description_is_the_name(t: Torrent)
    requires
        t.small_descr is None,
    ensures
        chinese_title(t) == t.name@,
{
}

} // verus!
