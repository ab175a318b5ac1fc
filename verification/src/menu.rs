use vstd::prelude::*;

use crate::client::search_mode_for;
use crate::models::{category_map, category_table, SearchMode, SortField};
use crate::utils::first_category_with_id;
use crate::text::{
    all_digits, decimal, decimal_string, digit_value, digits_value, is_digit, parse_u64,
    parse_unsigned, parse_usize, str_eq, to_lowercase, trim, trimmed, unicode_lowercase,
    unsigned_digits,
};

verus! {

// ---------------------------------------------------------------------------
// Settings of the interactive session
// ---------------------------------------------------------------------------

/// The defaults that every search of an interactive session uses.
pub struct MenuSettings {
    pub default_category: Option<u32>,
    pub default_sort: SortField,
    pub default_limit: usize,
}

/// The name of a sort field as the menus show it.
pub open spec fn sort_field_label(field: SortField) -> Seq<char> {
    match field {
        SortField::Seeders => "seeders"@,
        SortField::Size => "size"@,
        SortField::Time => "time"@,
    }
}

/// How a category filter is shown in status lines: "全部" (all) or the category number.
pub open spec fn category_filter_label(category: Option<u32>) -> Seq<char> {
    match category {
        None => "全部"@,
        Some(c) => decimal(c as nat),
    }
}

/// How the category setting is shown: "全部" (all), "name (id)" for a known category, or
/// the bare number.
pub open spec fn category_setting_label(category: Option<u32>) -> Seq<char> {
    match category {
        None => "全部"@,
        Some(c) => if exists|i: int| first_category_with_id(decimal(c as nat), i) {
            let e = category_table()[choose|i: int| first_category_with_id(decimal(c as nat), i)];
            e.1 + " ("@ + e.0 + ")"@
        } else {
            decimal(c as nat)
        },
    }
}

/// A category filter as status lines show it: "全部" (all) or the category number.
pub fn category_filter_text(category: Option<u32>) -> (r: String)
    ensures
        r@ == category_filter_label(category),
{
    match category {
        None => "全部".to_owned(),
        Some(c) => decimal_string(c as u128),
    }
}

impl MenuSettings {
    /// The settings a session starts with: all categories, by seeders, 20 results.
    pub fn new() -> (r: Self)
        ensures
            r.default_category is None,
            r.default_sort == SortField::Seeders,
            r.default_limit == 20,
    {
        MenuSettings { default_category: None, default_sort: SortField::Seeders, default_limit: 20 }
    }

    /// The search that the category setting calls for.
    pub fn search_mode(&self) -> (r: SearchMode)
        ensures
            r == (match self.default_category {
                None => SearchMode::Adult,
                Some(c) => if c == 429 {
                    SearchMode::Adult
                } else {
                    SearchMode::Normal
                },
            }),
    {
        search_mode_for(self.default_category)
    }

    /// The name of the sort setting.
    pub fn sort_field_name(&self) -> (r: &'static str)
        ensures
            r@ == sort_field_label(self.default_sort),
    {
        match self.default_sort {
            SortField::Seeders => "seeders",
            SortField::Size => "size",
            SortField::Time => "time",
        }
    }

    /// The category setting as status lines show it.
    pub fn category_filter_text(&self) -> (r: String)
        ensures
            r@ == category_filter_label(self.default_category),
    {
        category_filter_text(self.default_category)
    }

    /// The category setting as the settings menu shows it.
    pub fn category_display(&self) -> (r: String)
        ensures
            r@ == category_setting_label(self.default_category),
    {
        match self.default_category {
            None => "全部".to_owned(),
            Some(c) => {
                let number = decimal_string(c as u128);
                let table = category_map();
                let n = table.len();
                for i in 0..n
                    invariant
                        n == table@.len(),
                        n == category_table().len(),
                        number@ == decimal(c as nat),
                        self.default_category == Some(c),
                        forall|k: int|
                            0 <= k < n ==> (#[trigger] table@[k]).entry() == category_table()[k],
                        forall|j: int| 0 <= j < i ==> category_table()[j].0 != number@,
                {
                    if str_eq(table[i].id, number.as_str()) {
                        proof {
                            assert(table@[i as int].entry() == category_table()[i as int]);
                            assert(first_category_with_id(number@, i as int));
                            let k = choose|k: int| first_category_with_id(number@, k);
                            assert(k == i);
                        }
                        let mut out = table[i].name.to_owned();
                        out.append(" (");
                        out.append(table[i].id);
                        out.append(")");
                        proof {
                            let e = category_table()[i as int];
                            assert(table@[i as int].name@ == e.1);
                            assert(table@[i as int].id@ == e.0);
                            assert(out@ =~= e.1 + " ("@ + e.0 + ")"@);
                            assert(exists|j: int| first_category_with_id(decimal(c as nat), j));
                            let k = choose|k: int| first_category_with_id(decimal(c as nat), k);
                            assert(k == i);
                            assert(self.default_category == Some(c));
                            assert(category_setting_label(Some(c)) == e.1 + " ("@ + e.0 + ")"@);
                        }
                        return out;
                    }
                }
                proof {
                    assert forall|i: int| !first_category_with_id(number@, i) by {}
                }
                number
            },
        }
    }
}

// ---------------------------------------------------------------------------
// The quick search prompt
// ---------------------------------------------------------------------------

/// What a line typed at the quick search prompt asks for.
pub enum QuickCommand {
    /// An empty line: prompt again.
    Skip,
    Exit,
    Menu,
    Browse,
    Settings,
    Help,
    /// Search for the (trimmed) line.
    Search(String),
}

/// `c` is the command for the trimmed line `t` with lower-case form `lower`.
pub open spec fn is_quick_command(c: QuickCommand, t: Seq<char>, lower: Seq<char>) -> bool {
    if lower.len() == 0 {
        c is Skip
    } else if lower == "exit"@ || lower == "quit"@ || lower == "0"@ || lower == "q"@ {
        c is Exit
    } else if lower == "menu"@ {
        c is Menu
    } else if lower == "browse"@ {
        c is Browse
    } else if lower == "settings"@ {
        c is Settings
    } else if lower == "help"@ {
        c is Help
    } else {
        c matches QuickCommand::Search(k) && k@ == t
    }
}

fn is_one_of_exit_words(lower: &str) -> (r: bool)
    ensures
        r == (lower@ == "exit"@ || lower@ == "quit"@ || lower@ == "0"@ || lower@ == "q"@),
{
    str_eq(lower, "exit") || str_eq(lower, "quit") || str_eq(lower, "0") || str_eq(lower, "q")
}

/// The command for a trimmed line `trimmed_line` whose lower-case form is `lower`.
pub fn quick_command_from(trimmed_line: &str, lower: &str) -> (r: QuickCommand)
    ensures
        is_quick_command(r, trimmed_line@, lower@),
{
    if lower.is_empty() {
        QuickCommand::Skip
    } else if is_one_of_exit_words(lower) {
        QuickCommand::Exit
    } else if str_eq(lower, "menu") {
        QuickCommand::Menu
    } else if str_eq(lower, "browse") {
        QuickCommand::Browse
    } else if str_eq(lower, "settings") {
        QuickCommand::Settings
    } else if str_eq(lower, "help") {
        QuickCommand::Help
    } else {
        QuickCommand::Search(trimmed_line.to_owned())
    }
}

/// The command for a line typed at the quick search prompt: the line is trimmed, and its
/// lower-case form is matched against the command words.
pub fn quick_command(line: &str) -> (r: QuickCommand)
    ensures
        is_quick_command(r, trimmed(line@), unicode_lowercase(trimmed(line@))),
{
    let t = trim(line);
    let lower = to_lowercase(t.as_str());
    quick_command_from(t.as_str(), lower.as_str())
}

// ---------------------------------------------------------------------------
// Menus
// ---------------------------------------------------------------------------

/// Entries of the main menu.
#[derive(Debug, Clone, Copy, PartialEq, Eq, Structural)]
pub enum MainMenuChoice {
    Search,
    Browse,
    Settings,
    Exit,
}

impl MainMenuChoice {
    /// The entry at position `index` of the main menu.
    pub fn from_index(index: usize) -> (r: Self)
        requires
            index < 4,
        ensures
            index == 0 ==> r == MainMenuChoice::Search,
            index == 1 ==> r == MainMenuChoice::Browse,
            index == 2 ==> r == MainMenuChoice::Settings,
            index == 3 ==> r == MainMenuChoice::Exit,
    {
        if index == 0 {
            MainMenuChoice::Search
        } else if index == 1 {
            MainMenuChoice::Browse
        } else if index == 2 {
            MainMenuChoice::Settings
        } else {
            MainMenuChoice::Exit
        }
    }
}

/// Entries of the settings menu.
#[derive(Debug, Clone, Copy, PartialEq, Eq, Structural)]
pub enum SettingsChoice {
    Category,
    Sort,
    Limit,
    Back,
}

impl SettingsChoice {
    /// The entry at position `index` of the settings menu.
    pub fn from_index(index: usize) -> (r: Self)
        requires
            index < 4,
        ensures
            index == 0 ==> r == SettingsChoice::Category,
            index == 1 ==> r == SettingsChoice::Sort,
            index == 2 ==> r == SettingsChoice::Limit,
            index == 3 ==> r == SettingsChoice::Back,
    {
        if index == 0 {
            SettingsChoice::Category
        } else if index == 1 {
            SettingsChoice::Sort
        } else if index == 2 {
            SettingsChoice::Limit
        } else {
            SettingsChoice::Back
        }
    }
}

/// The sort field at position `index` of the sort menu (seeders, size, time).
pub fn sort_field_from_menu_index(index: usize) -> (r: SortField)
    requires
        index < 3,
    ensures
        index == 0 ==> r == SortField::Seeders,
        index == 1 ==> r == SortField::Size,
        index == 2 ==> r == SortField::Time,
{
    if index == 0 {
        SortField::Seeders
    } else if index == 1 {
        SortField::Size
    } else {
        SortField::Time
    }
}

/// What can be done with the listed torrents after a search.
#[derive(Debug, Clone, Copy, PartialEq, Eq, Structural)]
pub enum TorrentAction {
    Back,
    Download,
    Link,
    Detail,
    NewSearch,
    Browse,
    Settings,
    Invalid,
}

/// The action for the choice `t` (already trimmed) after a search.
pub open spec fn torrent_action_for(t: Seq<char>) -> TorrentAction {
    if t == "0"@ {
        TorrentAction::Back
    } else if t == "1"@ {
        TorrentAction::Download
    } else if t == "2"@ {
        TorrentAction::Link
    } else if t == "3"@ {
        TorrentAction::Detail
    } else if t == "4"@ {
        TorrentAction::NewSearch
    } else if t == "5"@ {
        TorrentAction::Browse
    } else if t == "6"@ {
        TorrentAction::Settings
    } else {
        TorrentAction::Invalid
    }
}

impl TorrentAction {
    /// The action a typed choice (trimmed first) asks for after a search.
    pub fn from_choice(choice: &str) -> (r: Self)
        ensures
            r == torrent_action_for(trimmed(choice@)),
    {
        let t = trim(choice);
        let t = t.as_str();
        if str_eq(t, "0") {
            TorrentAction::Back
        } else if str_eq(t, "1") {
            TorrentAction::Download
        } else if str_eq(t, "2") {
            TorrentAction::Link
        } else if str_eq(t, "3") {
            TorrentAction::Detail
        } else if str_eq(t, "4") {
            TorrentAction::NewSearch
        } else if str_eq(t, "5") {
            TorrentAction::Browse
        } else if str_eq(t, "6") {
            TorrentAction::Settings
        } else {
            TorrentAction::Invalid
        }
    }

    /// The action a typed choice asks for while browsing a category, where only going back,
    /// downloading, fetching a link and viewing details are offered.
    pub fn from_browse_choice(choice: &str) -> (r: Self)
        ensures
            r == (match torrent_action_for(trimmed(choice@)) {
                TorrentAction::Back => TorrentAction::Back,
                TorrentAction::Download => TorrentAction::Download,
                TorrentAction::Link => TorrentAction::Link,
                TorrentAction::Detail => TorrentAction::Detail,
                _ => TorrentAction::Invalid,
            }),
    {
        match TorrentAction::from_choice(choice) {
            TorrentAction::Back => TorrentAction::Back,
            TorrentAction::Download => TorrentAction::Download,
            TorrentAction::Link => TorrentAction::Link,
            TorrentAction::Detail => TorrentAction::Detail,
            _ => TorrentAction::Invalid,
        }
    }
}

/// Why a typed number is not taken.
#[derive(Debug, Clone, Copy, PartialEq, Eq, Structural)]
pub enum InputError {
    /// The text is not a number.
    NotANumber,
    /// The number is outside the allowed range.
    OutOfRange,
}

/// The position (counting from 0) of the torrent whose number (counting from 1) was typed,
/// among `count` listed torrents.
pub fn select_torrent(input: &str, count: usize) -> (r: Result<usize, InputError>)
    ensures
        match parse_unsigned(trimmed(input@), usize::MAX as nat) {
            None => r == Err::<usize, InputError>(InputError::NotANumber),
            Some(n) => if n == 0 || n > count {
                r == Err::<usize, InputError>(InputError::OutOfRange)
            } else {
                r == Ok::<usize, InputError>((n - 1) as usize)
            },
        },
{
    let t = trim(input);
    match parse_usize(t.as_str()) {
        None => Err(InputError::NotANumber),
        Some(n) => if n == 0 || n > count {
            Err(InputError::OutOfRange)
        } else {
            Ok(n - 1)
        },
    }
}

/// A typed result count: a number from 1 to 100.
pub fn parse_limit(input: &str) -> (r: Result<usize, InputError>)
    ensures
        match parse_unsigned(trimmed(input@), usize::MAX as nat) {
            None => r == Err::<usize, InputError>(InputError::NotANumber),
            Some(n) => if n < 1 || n > 100 {
                r == Err::<usize, InputError>(InputError::OutOfRange)
            } else {
                r == Ok::<usize, InputError>(n as usize)
            },
        },
{
    let t = trim(input);
    match parse_usize(t.as_str()) {
        None => Err(InputError::NotANumber),
        Some(n) => if n < 1 || n > 100 {
            Err(InputError::OutOfRange)
        } else {
            Ok(n)
        },
    }
}

/// A typed line that cancels a search: empty, or "0".
pub fn is_cancel_input(line: &str) -> (r: bool)
    ensures
        r == (line@.len() == 0 || line@ == "0"@),
{
    line.is_empty() || str_eq(line, "0")
}

// ---------------------------------------------------------------------------
// Category menus
// ---------------------------------------------------------------------------

/// The category ids of the table as numbers.
pub open spec fn category_numbers() -> Seq<u32> {
    seq![401u32, 419, 420, 404, 402, 438, 405, 403, 418, 429]
}

proof fn lemma_three_digits(s: Seq<char>, a: char, b: char, c: char)
    requires
        s == seq![a, b, c],
        is_digit(a),
        is_digit(b),
        is_digit(c),
    ensures
        unsigned_digits(s) == s,
        all_digits(s),
        digits_value(s) == digit_value(a) * 100 + digit_value(b) * 10 + digit_value(c),
{
    assert(s.drop_last() =~= seq![a, b]);
    assert(s.drop_last().drop_last() =~= seq![a]);
    assert(s.drop_last().drop_last().drop_last() =~= Seq::<char>::empty());
    reveal_with_fuel(digits_value, 4);
}

/// Each category id of the table is the decimal text of its number.
pub proof fn lemma_category_ids_are_numbers(i: int)
    requires
        0 <= i < 10,
    ensures
        parse_unsigned(category_table()[i].0, u64::MAX as nat) == Some(category_numbers()[i] as nat),
{
    reveal_strlit("401");
    reveal_strlit("419");
    reveal_strlit("420");
    reveal_strlit("404");
    reveal_strlit("402");
    reveal_strlit("438");
    reveal_strlit("405");
    reveal_strlit("403");
    reveal_strlit("418");
    reveal_strlit("429");
    let s = category_table()[i].0;
    let n = category_numbers()[i];
    let d0 = (n / 100) as int;
    let d1 = ((n / 10) % 10) as int;
    let d2 = (n % 10) as int;
    let a = (48 + d0) as char;
    let b = (48 + d1) as char;
    let c = (48 + d2) as char;
    assert(s == seq![a, b, c]);
    lemma_three_digits(s, a, b, c);
}

/// The number of the category at position `i` of the table.
pub fn category_number(i: usize) -> (r: u32)
    requires
        i < 10,
    ensures
        r == category_numbers()[i as int],
        parse_unsigned(category_table()[i as int].0, u64::MAX as nat) == Some(r as nat),
{
    let table = category_map();
    proof {
        lemma_category_ids_are_numbers(i as int);
        assert(table@[i as int].entry() == category_table()[i as int]);
    }
    match parse_u64(table[i].id) {
        Some(v) => v as u32,
        None => 0,
    }
}

/// The category filter chosen at position `index` of the category setting menu, whose first
/// entry is "all categories".
pub fn category_from_menu_index(index: usize) -> (r: Option<u32>)
    requires
        index <= 10,
    ensures
        index == 0 ==> r is None,
        index > 0 ==> r == Some(category_numbers()[index - 1]),
{
    if index == 0 {
        None
    } else {
        Some(category_number(index - 1))
    }
}

/// The entries of the category setting menu: "全部 (None)", then "name (kind)" for each
/// category of the table.
pub fn category_setting_labels() -> (r: Vec<String>)
    ensures
        r@.len() == category_table().len() + 1,
        r@[0]@ == "全部 (None)"@,
        forall|i: int|
            1 <= i < r@.len() ==> (#[trigger] r@[i])@ == category_table()[i - 1].1 + " ("@
                + category_table()[i - 1].2 + ")"@,
{
    let table = category_map();
    let mut r: Vec<String> = Vec::new();
    r.push("全部 (None)".to_owned());
    let n = table.len();
    for i in 0..n
        invariant
            n == table@.len(),
            n == category_table().len(),
            forall|k: int| 0 <= k < n ==> (#[trigger] table@[k]).entry() == category_table()[k],
            r@.len() == i + 1,
            r@[0]@ == "全部 (None)"@,
            forall|k: int|
                1 <= k < r@.len() ==> (#[trigger] r@[k])@ == category_table()[k - 1].1 + " ("@
                    + category_table()[k - 1].2 + ")"@,
    {
        let mut label = table[i].name.to_owned();
        label.append(" (");
        label.append(table[i].category_type);
        label.append(")");
        proof {
            assert(table@[i as int].entry() == category_table()[i as int]);
        }
        r.push(label);
    }
    r
}

/// The entries of the category browsing menu: "🚪 返回" (back), then "name (id)" for each
/// category of the table.
pub fn browse_labels() -> (r: Vec<String>)
    ensures
        r@.len() == category_table().len() + 1,
        r@[0]@ == "🚪 返回"@,
        forall|i: int|
            1 <= i < r@.len() ==> (#[trigger] r@[i])@ == category_table()[i - 1].1 + " ("@
                + category_table()[i - 1].0 + ")"@,
{
    let table = category_map();
    let mut r: Vec<String> = Vec::new();
    r.push("🚪 返回".to_owned());
    let n = table.len();
    for i in 0..n
        invariant
            n == table@.len(),
            n == category_table().len(),
            forall|k: int| 0 <= k < n ==> (#[trigger] table@[k]).entry() == category_table()[k],
            r@.len() == i + 1,
            r@[0]@ == "🚪 返回"@,
            forall|k: int|
                1 <= k < r@.len() ==> (#[trigger] r@[k])@ == category_table()[k - 1].1 + " ("@
                    + category_table()[k - 1].0 + ")"@,
    {
        let mut label = table[i].name.to_owned();
        label.append(" (");
        label.append(table[i].id);
        label.append(")");
        proof {
            assert(table@[i as int].entry() == category_table()[i as int]);
        }
        r.push(label);
    }
    r
}

/// The category picked at position `index` of the browsing menu (none for "back"): its
/// number, its name, and the search that serves it.
pub fn browse_choice(index: usize) -> (r: Option<(u32, &'static str, SearchMode)>)
    requires
        index <= 10,
    ensures
        index == 0 ==> r is None,
        index > 0 ==> (r matches Some(c) && c.0 == category_numbers()[index - 1] && c.1@
            == category_table()[index - 1].1 && c.2 == (if c.0 == 429 {
            SearchMode::Adult
        } else {
            SearchMode::Normal
        })),
{
    if index == 0 {
        return None;
    }
    let table = category_map();
    let number = category_number(index - 1);
    proof {
        assert(table@[index - 1].entry() == category_table()[index - 1]);
    }
    Some((number, table[index - 1].name, search_mode_for(Some(number))))
}

// ---------------------------------------------------------------------------
// The search loop
// ---------------------------------------------------------------------------

/// What happens in the search loop.
pub enum SearchEvent {
    /// The results of a search were shown; `count` torrents were found.
    ResultsShown { count: usize },
    /// The user finished with the results; `search_again` when a new search was asked for.
    SelectionDone { search_again: bool },
    /// The user typed a line after asking for a new search.
    NewKeyword { line: String },
}

/// What the search loop does next.
#[derive(Debug)]
pub enum SearchStep {
    /// Offer the actions on the listed torrents.
    ChooseAction,
    /// Prompt for a new keyword.
    AskNewKeyword,
    /// Search for `keyword`, the keyword typed after asking for a new search.
    SearchAgain { keyword: String },
    /// Leave the search loop.
    Finish,
}

/// The step of the search loop that follows `event`.
pub fn next_search_step(event: &SearchEvent) -> (r: SearchStep)
    ensures
        match event {
            SearchEvent::ResultsShown { count } => if *count == 0 {
                r is Finish
            } else {
                r is ChooseAction
            },
            SearchEvent::SelectionDone { search_again } => if *search_again {
                r is AskNewKeyword
            } else {
                r is Finish
            },
            SearchEvent::NewKeyword { line } => if line@.len() == 0 || line@ == "0"@ {
                r is Finish
            } else {
                r matches SearchStep::SearchAgain { keyword } && keyword@ == line@
            },
        },
{
    match event {
        SearchEvent::ResultsShown { count } => if *count == 0 {
            SearchStep::Finish
        } else {
            SearchStep::ChooseAction
        },
        SearchEvent::SelectionDone { search_again } => if *search_again {
            SearchStep::AskNewKeyword
        } else {
            SearchStep::Finish
        },
        SearchEvent::NewKeyword { line } => if is_cancel_input(line.as_str()) {
            SearchStep::Finish
        } else {
            SearchStep::SearchAgain { keyword: line.clone() }
        },
    }
}

} // verus!
