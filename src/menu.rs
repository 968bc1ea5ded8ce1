//! The menu of the terminal front end: its entries, the search over their
//! names, and moving the selection.

use vstd::prelude::*;
use crate::storm::{lower_of, lowercase};

verus! {

/// An entry of the menu.
#[derive(Debug, Clone, Copy, PartialEq, Eq, Structural)]
pub enum MenuItem {
    TradingSystem,
    StormTopologies,
    MonadLambda,
    ADAG,
    SwinTransformer,
    ElixirCheck,
    Quit,
}

/// The entries in menu order.
pub open spec fn menu_order() -> Seq<MenuItem> {
    seq![
        MenuItem::TradingSystem,
        MenuItem::StormTopologies,
        MenuItem::MonadLambda,
        MenuItem::ADAG,
        MenuItem::SwinTransformer,
        MenuItem::ElixirCheck,
        MenuItem::Quit,
    ]
}

/// `needle` occurs in `hay` as a run of consecutive characters.
pub open spec fn occurs_in(needle: Seq<char>, hay: Seq<char>) -> bool {
    exists|i: int| 0 <= i <= hay.len() - needle.len() && #[trigger] hay.subrange(i, i + needle.len()) == needle
}

/// Relies on `str::contains` with a string pattern: whether `needle` occurs
/// in `hay`.
#[verifier::external_body]
fn contains_text(hay: &str, needle: &str) -> (r: bool)
    ensures
        r == occurs_in(needle@, hay@),
{
    hay.contains(needle)
}

impl MenuItem {
    /// The entry's name as written in its declaration.
    pub open spec fn name_spec(self) -> Seq<char> {
        match self {
            MenuItem::TradingSystem => "TradingSystem"@,
            MenuItem::StormTopologies => "StormTopologies"@,
            MenuItem::MonadLambda => "MonadLambda"@,
            MenuItem::ADAG => "ADAG"@,
            MenuItem::SwinTransformer => "SwinTransformer"@,
            MenuItem::ElixirCheck => "ElixirCheck"@,
            MenuItem::Quit => "Quit"@,
        }
    }

    /// The text shown for the entry.
    pub open spec fn label_spec(self) -> Seq<char> {
        match self {
            MenuItem::TradingSystem => "Trading System (Biotech, P&L, CURE Foundation)"@,
            MenuItem::StormTopologies => "Storm Topologies (Word Count, Sum, Edison⚡, Polymath🌐)"@,
            MenuItem::MonadLambda => "Monad λ System (Invariants, Laws, Plumber)"@,
            MenuItem::ADAG => "A-DAG (OCTOTREÉ, Topological Sort, Critical Path)"@,
            MenuItem::SwinTransformer => "SWIN Transformer (16 Heads, Grey Eyes, 600 Shades)"@,
            MenuItem::ElixirCheck => "Elixir Check (Erlang/OTP Guarantees)"@,
            MenuItem::Quit => "Quit"@,
        }
    }

    /// The text shown for the entry.
    pub fn label(&self) -> (r: &'static str)
        ensures
            r@ == self.label_spec(),
    {
        match self {
            MenuItem::TradingSystem => "Trading System (Biotech, P&L, CURE Foundation)",
            MenuItem::StormTopologies => "Storm Topologies (Word Count, Sum, Edison⚡, Polymath🌐)",
            MenuItem::MonadLambda => "Monad λ System (Invariants, Laws, Plumber)",
            MenuItem::ADAG => "A-DAG (OCTOTREÉ, Topological Sort, Critical Path)",
            MenuItem::SwinTransformer => "SWIN Transformer (16 Heads, Grey Eyes, 600 Shades)",
            MenuItem::ElixirCheck => "Elixir Check (Erlang/OTP Guarantees)",
            MenuItem::Quit => "Quit",
        }
    }

    /// The entry's name as written in its declaration.
    pub fn name(&self) -> (r: &'static str)
        ensures
            r@ == self.name_spec(),
    {
        match self {
            MenuItem::TradingSystem => "TradingSystem",
            MenuItem::StormTopologies => "StormTopologies",
            MenuItem::MonadLambda => "MonadLambda",
            MenuItem::ADAG => "ADAG",
            MenuItem::SwinTransformer => "SwinTransformer",
            MenuItem::ElixirCheck => "ElixirCheck",
            MenuItem::Quit => "Quit",
        }
    }
}

/// Whether an entry matches a search, ignoring case.
pub open spec fn matches_search(item: MenuItem, query: Seq<char>) -> bool {
    occurs_in(lower_of(query), lower_of(item.name_spec()))
}

/// The entries of `items` that `query` matches, in their order.
pub open spec fn matching(items: Seq<MenuItem>, query: Seq<char>) -> Seq<MenuItem>
    decreases items.len(),
{
    if items.len() == 0 {
        seq![]
    } else {
        let rest = matching(items.drop_last(), query);
        if matches_search(items.last(), query) {
            rest.push(items.last())
        } else {
            rest
        }
    }
}

/// The entries to show: all of them for an empty search, else those whose
/// name contains the search, ignoring case.
pub fn menu_items(query: &str) -> (r: Vec<MenuItem>)
    ensures
        r@ == shown_items(query@),
{
    let all_items = vec![
        MenuItem::TradingSystem,
        MenuItem::StormTopologies,
        MenuItem::MonadLambda,
        MenuItem::ADAG,
        MenuItem::SwinTransformer,
        MenuItem::ElixirCheck,
        MenuItem::Quit,
    ];
    assert(all_items@ =~= menu_order());
    if query.unicode_len() == 0 {
        return all_items;
    }
    let lowered_query = lowercase(query);
    let mut shown: Vec<MenuItem> = Vec::new();
    let mut i: usize = 0;
    while i < all_items.len()
        invariant
            all_items@ == menu_order(),
            i <= all_items@.len(),
            lowered_query@ == lower_of(query@),
            shown@ == matching(all_items@.subrange(0, i as int), query@),
        decreases all_items@.len() - i,
    {
        let item = all_items[i];
        let name = lowercase(item.name());
        let keep = contains_text(name.as_str(), lowered_query.as_str());
        if keep {
            shown.push(item);
        }
        proof {
            assert(all_items@.subrange(0, i as int + 1).drop_last() =~= all_items@.subrange(
                0,
                i as int,
            ));
        }
        i = i + 1;
    }
    proof {
        assert(all_items@.subrange(0, i as int) =~= all_items@);
    }
    shown
}

/// The first position of `current` in `items`, if it is there.
fn position_of(items: &Vec<MenuItem>, current: MenuItem) -> (r: Option<usize>)
    ensures
        match r {
            Some(i) => i < items@.len() && items@[i as int] == current && forall|j: int|
                0 <= j < i ==> items@[j] != current,
            None => !items@.contains(current),
        },
{
    let mut i: usize = 0;
    while i < items.len()
        invariant
            i <= items@.len(),
            forall|j: int| 0 <= j < i ==> items@[j] != current,
        decreases items@.len() - i,
    {
        if items[i] == current {
            return Some(i);
        }
        i = i + 1;
    }
    None
}

/// The position of the first occurrence of `x` in `s`.
pub open spec fn first_position(s: Seq<MenuItem>, x: MenuItem) -> int
    recommends
        s.contains(x),
{
    choose|i: int| 0 <= i < s.len() && s[i] == x && forall|j: int| 0 <= j < i ==> s[j] != x
}

/// The entry after `current` in `items`, wrapping to the first; `current`
/// itself when it is not listed.
pub open spec fn entry_after(items: Seq<MenuItem>, current: MenuItem) -> MenuItem {
    if items.contains(current) {
        items[(first_position(items, current) + 1) % items.len() as int]
    } else {
        current
    }
}

/// The entry before `current` in `items`, wrapping to the last; `current`
/// itself when it is not listed.
pub open spec fn entry_before(items: Seq<MenuItem>, current: MenuItem) -> MenuItem {
    if items.contains(current) {
        items[if first_position(items, current) == 0 {
            items.len() - 1
        } else {
            first_position(items, current) - 1
        }]
    } else {
        current
    }
}

/// The entries shown for a search.
pub open spec fn shown_items(query: Seq<char>) -> Seq<MenuItem> {
    if query.len() == 0 {
        menu_order()
    } else {
        matching(menu_order(), query)
    }
}

/// The entry after `current` in `items`, wrapping to the first; `current`
/// itself when it is not listed.
pub fn next_item(items: &Vec<MenuItem>, current: MenuItem) -> (r: MenuItem)
    ensures
        r == entry_after(items@, current),
{
    match position_of(items, current) {
        Some(i) => {
            proof {
                let p = first_position(items@, current);
                assert(items@[i as int] == current && forall|j: int|
                    0 <= j < i ==> items@[j] != current);
                assert(p == i as int) by {
                    if p < i {
                    } else if p > i {
                    }
                }
            }
            let len = items.len();
            items[(i + 1) % len]
        },
        None => current,
    }
}

/// The entry before `current` in `items`, wrapping to the last; `current`
/// itself when it is not listed.
pub fn prev_item(items: &Vec<MenuItem>, current: MenuItem) -> (r: MenuItem)
    ensures
        r == entry_before(items@, current),
{
    match position_of(items, current) {
        Some(i) => {
            proof {
                let p = first_position(items@, current);
                assert(items@[i as int] == current && forall|j: int|
                    0 <= j < i ==> items@[j] != current);
                assert(p == i as int) by {
                    if p < i {
                    } else if p > i {
                    }
                }
            }
            let prev_idx = if i == 0 {
                items.len() - 1
            } else {
                i - 1
            };
            items[prev_idx]
        },
        None => current,
    }
}

/// The input mode of the front end.
#[derive(Debug, Clone, Copy, PartialEq, Eq, Structural)]
pub enum Mode {
    Normal,
    Command,
    Insert,
}

impl Mode {
    /// The indicator shown for the mode.
    pub open spec fn indicator_spec(self) -> Seq<char> {
        match self {
            Mode::Normal => "-- NORMAL --"@,
            Mode::Command => "-- COMMAND --"@,
            Mode::Insert => "-- INSERT (SEARCH) --"@,
        }
    }

    /// The indicator shown for the mode.
    pub fn indicator(&self) -> (r: &'static str)
        ensures
            r@ == self.indicator_spec(),
    {
        match self {
            Mode::Normal => "-- NORMAL --",
            Mode::Command => "-- COMMAND --",
            Mode::Insert => "-- INSERT (SEARCH) --",
        }
    }
}

/// A key as the front end sees it.
#[derive(Debug, Clone, Copy, PartialEq, Eq, Structural)]
pub enum Key {
    Char(char),
    Up,
    Down,
    Enter,
    Esc,
    Backspace,
    Other,
}

/// A key press: the key and whether Control was held.
#[derive(Debug, Clone, Copy, PartialEq, Eq, Structural)]
pub struct KeyPress {
    pub key: Key,
    pub control: bool,
}

/// The state of the front end's menu: mode, selection and search text.
pub struct MenuState {
    pub mode: Mode,
    pub selected: MenuItem,
    pub search_query: String,
}

/// The state after a key press, and whether the front end should quit.
/// In normal mode `q` and Control-C quit, `j`/Down and `k`/Up move the
/// selection within the shown entries, `:` enters command mode and `/`
/// starts a new search. In command mode `q` quits and Esc or Enter return to
/// normal mode. In search mode characters extend the search, Backspace
/// removes the last one, Enter keeps the search and Esc drops it.
pub open spec fn transition(mode: Mode, selected: MenuItem, query: Seq<char>, press: KeyPress) -> (
    Mode,
    MenuItem,
    Seq<char>,
    bool,
) {
    match mode {
        Mode::Normal => match press.key {
            Key::Char('q') => (mode, selected, query, true),
            Key::Char('j') | Key::Down => (
                mode,
                entry_after(shown_items(query), selected),
                query,
                false,
            ),
            Key::Char('k') | Key::Up => (
                mode,
                entry_before(shown_items(query), selected),
                query,
                false,
            ),
            Key::Char(':') => (Mode::Command, selected, query, false),
            Key::Char('/') => (Mode::Insert, selected, seq![], false),
            Key::Char('c') => (mode, selected, query, press.control),
            _ => (mode, selected, query, false),
        },
        Mode::Command => match press.key {
            Key::Char('q') => (mode, selected, query, true),
            Key::Esc | Key::Enter => (Mode::Normal, selected, query, false),
            _ => (mode, selected, query, false),
        },
        Mode::Insert => match press.key {
            Key::Esc => (Mode::Normal, selected, seq![], false),
            Key::Enter => (Mode::Normal, selected, query, false),
            Key::Char(c) => (mode, selected, query.push(c), false),
            Key::Backspace => (
                mode,
                selected,
                if query.len() == 0 {
                    query
                } else {
                    query.drop_last()
                },
                false,
            ),
            _ => (mode, selected, query, false),
        },
    }
}

/// Relies on `String::push`: appends `c`.
#[verifier::external_body]
fn push_char(s: &mut String, c: char)
    ensures
        final(s)@ == old(s)@.push(c),
{
    s.push(c)
}

/// Relies on `String::pop`: removes and returns the last character, if any.
#[verifier::external_body]
fn pop_char(s: &mut String) -> (r: Option<char>)
    ensures
        old(s)@.len() == 0 ==> r is None && final(s)@ == old(s)@,
        old(s)@.len() > 0 ==> r == Some(old(s)@.last()) && final(s)@ == old(s)@.drop_last(),
{
    s.pop()
}

impl MenuState {
    /// Normal mode, the first entry selected, no search.
    pub fn new() -> (r: Self)
        ensures
            r.mode == Mode::Normal,
            r.selected == MenuItem::TradingSystem,
            r.search_query@ == Seq::<char>::empty(),
    {
        MenuState { mode: Mode::Normal, selected: MenuItem::TradingSystem, search_query: String::new() }
    }

    /// The entries shown for the current search.
    pub fn items(&self) -> (r: Vec<MenuItem>)
        ensures
            r@ == shown_items(self.search_query@),
    {
        menu_items(self.search_query.as_str())
    }

    /// Applies a key press and says whether to quit.
    pub fn handle_key(&mut self, press: KeyPress) -> (quit: bool)
        ensures
            (final(self).mode, final(self).selected, final(self).search_query@, quit) == transition(
                old(self).mode,
                old(self).selected,
                old(self).search_query@,
                press,
            ),
    {
        match self.mode {
            Mode::Normal => match press.key {
                Key::Char('q') => true,
                Key::Char('j') | Key::Down => {
                    let items = self.items();
                    self.selected = next_item(&items, self.selected);
                    false
                },
                Key::Char('k') | Key::Up => {
                    let items = self.items();
                    self.selected = prev_item(&items, self.selected);
                    false
                },
                Key::Char(':') => {
                    self.mode = Mode::Command;
                    false
                },
                Key::Char('/') => {
                    self.mode = Mode::Insert;
                    self.search_query = String::new();
                    false
                },
                Key::Char('c') => press.control,
                _ => false,
            },
            Mode::Command => match press.key {
                Key::Char('q') => true,
                Key::Esc | Key::Enter => {
                    self.mode = Mode::Normal;
                    false
                },
                _ => false,
            },
            Mode::Insert => match press.key {
                Key::Esc => {
                    self.mode = Mode::Normal;
                    self.search_query = String::new();
                    false
                },
                Key::Enter => {
                    self.mode = Mode::Normal;
                    false
                },
                Key::Char(c) => {
                    push_char(&mut self.search_query, c);
                    false
                },
                Key::Backspace => {
                    let _ = pop_char(&mut self.search_query);
                    false
                },
                _ => false,
            },
        }
    }
}

} // verus!
