//! The file browser: what it lists, what is selected, and what the keys do.

use crate::ranking::{
    all_ready, in_order, is_in_order, lemma_in_order, lemma_in_order_maps, rank, Comparable,
    Ordered,
};
use crate::text::{
    lemma_lex_less_laws, lex_less, lowercase, optional_chars, starts_with_char, text_less,
    to_lowercase,
};
use vstd::prelude::*;
use vstd::string::StringExecFns;

verus! {

/// An entry of the list.
pub struct ItemModel {
    pub name: Seq<char>,
    pub path: Seq<char>,
    pub is_dir: bool,
    pub size: Option<u64>,
}

/// An entry of the list: a file or a directory.
#[derive(Debug, Clone)]
pub struct FileItem {
    pub name: String,
    pub path: String,
    pub is_dir: bool,
    pub size: Option<u64>,
}

impl View for FileItem {
    type V = ItemModel;

    open spec fn view(&self) -> ItemModel {
        ItemModel { name: self.name@, path: self.path@, is_dir: self.is_dir, size: self.size }
    }
}

/// Taking each item for its view.
pub open spec fn item_view_of() -> spec_fn(FileItem) -> ItemModel {
    |item: FileItem| item@
}

/// The views of a list of items.
pub open spec fn item_views(items: Seq<FileItem>) -> Seq<ItemModel> {
    items.map_values(item_view_of())
}

/// Whether `a` has to stand before `b` in the list: directories stand before
/// files; among directories, and among files, the names decide, compared in
/// lower case.
pub open spec fn stands_before(a: ItemModel, b: ItemModel) -> bool {
    if a.is_dir != b.is_dir {
        a.is_dir
    } else {
        lex_less(lowercase(a.name), lowercase(b.name))
    }
}

impl Ordered for ItemModel {
    /// Items stand in the order of the list.
    open spec fn before(&self, other: &Self) -> bool {
        stands_before(*self, *other)
    }

    proof fn order_laws(a: Self, b: Self, c: Self) {
        lemma_lex_less_laws(lowercase(a.name), lowercase(b.name), lowercase(c.name));
    }
}

/// The test that an item is shown: hidden items, whose names begin with a
/// dot, are shown only when asked for.
pub open spec fn is_shown(show_hidden: bool) -> spec_fn(ItemModel) -> bool {
    |item: ItemModel| show_hidden || !(item.name.len() > 0 && item.name[0] == '.')
}

/// The entry that leads to the parent directory.
pub open spec fn parent_item(parent: Seq<char>) -> ItemModel {
    ItemModel { name: ".."@, path: parent, is_dir: true, size: None }
}

/// The list for a directory: the entry for the parent directory, where there
/// is one, and the entries of the directory that are shown, all in the order
/// of the list.
pub open spec fn listing(
    parent: Option<Seq<char>>,
    entries: Seq<ItemModel>,
    show_hidden: bool,
) -> Seq<ItemModel> {
    in_order(
        match parent {
            Some(p) => seq![parent_item(p)] + entries.filter(is_shown(show_hidden)),
            None => entries.filter(is_shown(show_hidden)),
        },
    )
}

/// The list of a directory is in the order of the list: no item has to stand
/// before an item that stands before it; and it holds the parent entry,
/// where there is one, and the entries that are shown, and nothing else.
pub proof fn law_listing_is_in_order(
    parent: Option<Seq<char>>,
    entries: Seq<ItemModel>,
    show_hidden: bool,
)
    ensures
        is_in_order(listing(parent, entries, show_hidden)),
        listing(parent, entries, show_hidden).to_multiset() == (match parent {
            Some(p) => seq![parent_item(p)] + entries.filter(is_shown(show_hidden)),
            None => entries.filter(is_shown(show_hidden)),
        }).to_multiset(),
{
    lemma_in_order(
        match parent {
            Some(p) => seq![parent_item(p)] + entries.filter(is_shown(show_hidden)),
            None => entries.filter(is_shown(show_hidden)),
        },
    );
}

/// An item with its name in lower case, by which it is compared.
struct Keyed {
    item: FileItem,
    key: String,
}

impl Ordered for Keyed {
    closed spec fn before(&self, other: &Self) -> bool {
        stands_before(self.item@, other.item@)
    }

    proof fn order_laws(a: Self, b: Self, c: Self) {
        ItemModel::order_laws(a.item@, b.item@, c.item@);
    }
}

impl Comparable for Keyed {
    closed spec fn ready(&self) -> bool {
        self.key@ == lowercase(self.item.name@)
    }

    fn stands_before(&self, other: &Self) -> (first: bool) {
        if self.item.is_dir != other.item.is_dir {
            self.item.is_dir
        } else {
            text_less(self.key.as_str(), other.key.as_str())
        }
    }
}

/// Taking each keyed item for the view of its item.
spec fn keyed_view_of() -> spec_fn(Keyed) -> ItemModel {
    |k: Keyed| k.item@
}

/// The views of the items of a list of keyed items.
spec fn keyed_views(keyed: Seq<Keyed>) -> Seq<ItemModel> {
    keyed.map_values(keyed_view_of())
}

/// Puts items in the order of the list: directories first, then by name
/// without regard to case. Items that compare the same keep their order.
pub fn sort_items(items: Vec<FileItem>) -> (sorted: Vec<FileItem>)
    ensures
        item_views(sorted@) == in_order(item_views(items@)),
{
    let ghost given = items@;
    let mut keyed: Vec<Keyed> = Vec::new();
    for item in it: items.into_iter()
        invariant
            it.seq() == given,
            all_ready(keyed@),
            keyed_views(keyed@) == item_views(given.take(it.index() as int)),
    {
        let ghost before = keyed@;
        let key = to_lowercase(item.name.as_str());
        let entry = Keyed { item, key };
        keyed.push(entry);
        proof {
            assert(keyed_views(before.push(entry)) =~= keyed_views(before).push(item@));
            assert(item_views(given.take(it.index() as int + 1)) =~= item_views(
                given.take(it.index() as int),
            ).push(item@));
        }
    }
    proof {
        assert(given.take(given.len() as int) =~= given);
        lemma_in_order_maps(keyed@, keyed_view_of());
    }
    let ranked = rank(keyed);
    let ghost placed = ranked@;
    let mut sorted: Vec<FileItem> = Vec::new();
    for entry in it: ranked.into_iter()
        invariant
            it.seq() == placed,
            item_views(sorted@) == keyed_views(placed.take(it.index() as int)),
    {
        let ghost before = sorted@;
        sorted.push(entry.item);
        proof {
            assert(item_views(before.push(entry.item)) =~= item_views(before).push(entry.item@));
            assert(keyed_views(placed.take(it.index() as int + 1)) =~= keyed_views(
                placed.take(it.index() as int),
            ).push(entry.item@));
        }
    }
    proof {
        assert(placed.take(placed.len() as int) =~= placed);
    }
    sorted
}

/// Builds the list for a directory from its entries, in any order, and the
/// path of its parent directory, where it has one.
pub fn build_listing(parent: Option<String>, entries: Vec<FileItem>, show_hidden: bool) -> (items:
    Vec<FileItem>)
    ensures
        item_views(items@) == listing(optional_chars(parent), item_views(entries@), show_hidden),
{
    let ghost given = entries@;
    let ghost models = item_views(given);
    let mut items: Vec<FileItem> = Vec::new();
    let ghost above = optional_chars(parent);
    let ghost head: Seq<ItemModel> = match above {
        Some(p) => seq![parent_item(p)],
        None => Seq::empty(),
    };
    match parent {
        Some(p) => {
            items.push(FileItem { name: String::from_str(".."), path: p, is_dir: true, size: None });
        },
        None => {},
    }
    proof {
        assert(models.take(0) =~= Seq::<ItemModel>::empty());
        assert(models.take(0).filter(is_shown(show_hidden)) =~= Seq::<ItemModel>::empty()) by {
            reveal(Seq::filter);
        }
        assert(item_views(items@) =~= head + models.take(0).filter(is_shown(show_hidden)));
    }
    for entry in it: entries.into_iter()
        invariant
            it.seq() == given,
            models == item_views(given),
            item_views(items@) == head + models.take(it.index() as int).filter(
                is_shown(show_hidden),
            ),
    {
        let ghost i = it.index() as int;
        proof {
            assert(models.take(i + 1) =~= models.take(i).push(entry@));
            models.take(i).lemma_filter_push(entry@, is_shown(show_hidden));
        }
        if show_hidden || !starts_with_char(entry.name.as_str(), '.') {
            let ghost before = items@;
            items.push(entry);
            proof {
                assert(item_views(before.push(entry)) =~= item_views(before).push(entry@));
                assert(item_views(items@) =~= head + models.take(i + 1).filter(
                    is_shown(show_hidden),
                ));
            }
        }
    }
    proof {
        assert(models.take(models.len() as int) =~= models);
        match above {
            Some(p) => {
                assert(head + models.filter(is_shown(show_hidden)) =~= seq![parent_item(p)]
                    + models.filter(is_shown(show_hidden)));
            },
            None => {
                assert(head + models.filter(is_shown(show_hidden)) =~= models.filter(
                    is_shown(show_hidden),
                ));
            },
        }
    }
    sort_items(items)
}

/// A key of the keyboard, as far as the browser tells keys apart.
#[derive(Debug, Clone, Copy, PartialEq, Eq, Structural)]
pub enum Key {
    Char(char),
    Esc,
    Up,
    Down,
    Right,
    Enter,
    Other,
}

/// What the browser does on a key.
#[derive(Debug, Clone, Copy, PartialEq, Eq, Structural)]
pub enum BrowserAction {
    Quit,
    Next,
    Previous,
    Enter,
    ToggleHidden,
    Refresh,
    Nothing,
}

/// What a key does. `q` and Esc quit, and so does `c` with Ctrl. Down and
/// `j` go to the next item, Up and `k` to the previous one. Enter, Right
/// and `l` open the selected directory. `h` shows or hides hidden entries,
/// `r` reads the directory again.
pub open spec fn action_of(key: Key, ctrl: bool) -> BrowserAction {
    match key {
        Key::Esc => BrowserAction::Quit,
        Key::Down => BrowserAction::Next,
        Key::Up => BrowserAction::Previous,
        Key::Enter => BrowserAction::Enter,
        Key::Right => BrowserAction::Enter,
        Key::Other => BrowserAction::Nothing,
        Key::Char(c) => if c == 'q' {
            BrowserAction::Quit
        } else if c == 'c' && ctrl {
            BrowserAction::Quit
        } else if c == 'j' {
            BrowserAction::Next
        } else if c == 'k' {
            BrowserAction::Previous
        } else if c == 'l' {
            BrowserAction::Enter
        } else if c == 'h' {
            BrowserAction::ToggleHidden
        } else if c == 'r' {
            BrowserAction::Refresh
        } else {
            BrowserAction::Nothing
        },
    }
}

/// What the browser does on a key.
pub fn action_for(key: Key, ctrl: bool) -> (action: BrowserAction)
    ensures
        action == action_of(key, ctrl),
{
    match key {
        Key::Esc => BrowserAction::Quit,
        Key::Down => BrowserAction::Next,
        Key::Up => BrowserAction::Previous,
        Key::Enter => BrowserAction::Enter,
        Key::Right => BrowserAction::Enter,
        Key::Other => BrowserAction::Nothing,
        Key::Char(c) => {
            if c == 'q' {
                BrowserAction::Quit
            } else if c == 'c' && ctrl {
                BrowserAction::Quit
            } else if c == 'j' {
                BrowserAction::Next
            } else if c == 'k' {
                BrowserAction::Previous
            } else if c == 'l' {
                BrowserAction::Enter
            } else if c == 'h' {
                BrowserAction::ToggleHidden
            } else if c == 'r' {
                BrowserAction::Refresh
            } else {
                BrowserAction::Nothing
            }
        },
    }
}

/// The item selected after going forward in a list of `len` items: the next
/// one, or the first after the last; the first where none was selected.
pub open spec fn next_index(selected: Option<usize>, len: nat) -> nat {
    match selected {
        Some(i) => if i >= len - 1 {
            0
        } else {
            (i + 1) as nat
        },
        None => 0,
    }
}

/// The item selected after going back in a list of `len` items: the one
/// before, or the last before the first; the first where none was selected.
pub open spec fn previous_index(selected: Option<usize>, len: nat) -> nat {
    match selected {
        Some(i) => if i == 0 {
            (len - 1) as nat
        } else {
            (i - 1) as nat
        },
        None => 0,
    }
}

/// The state of the file browser.
pub struct FileBrowser {
    current_path: String,
    items: Vec<FileItem>,
    selected: Option<usize>,
    show_hidden: bool,
}

impl FileBrowser {
    /// The directory that is shown.
    pub closed spec fn path(&self) -> Seq<char> {
        self.current_path@
    }

    /// The list.
    pub closed spec fn list(&self) -> Seq<ItemModel> {
        item_views(self.items@)
    }

    /// The place of the selected item.
    pub closed spec fn selection(&self) -> Option<usize> {
        self.selected
    }

    /// Whether hidden entries are shown.
    pub closed spec fn shows_hidden(&self) -> bool {
        self.show_hidden
    }

    /// A browser on the directory `path` with the given entries: hidden
    /// entries are not shown, and the first item is selected.
    pub fn new(path: String, parent: Option<String>, entries: Vec<FileItem>) -> (browser:
        FileBrowser)
        ensures
            browser.path() == path@,
            !browser.shows_hidden(),
            browser.selection() == Some(0usize),
            browser.list() == listing(
                optional_chars(parent),
                item_views(entries@),
                false,
            ),
    {
        let items = build_listing(parent, entries, false);
        FileBrowser { current_path: path, items, selected: Some(0), show_hidden: false }
    }

    /// Takes the entries of the directory as they are now. The selection
    /// stays where it is.
    pub fn refresh(&mut self, parent: Option<String>, entries: Vec<FileItem>)
        ensures
            final(self).path() == old(self).path(),
            final(self).shows_hidden() == old(self).shows_hidden(),
            final(self).selection() == old(self).selection(),
            final(self).list() == listing(
                optional_chars(parent),
                item_views(entries@),
                old(self).shows_hidden(),
            ),
    {
        self.items = build_listing(parent, entries, self.show_hidden);
    }

    /// Selects the next item, or the first after the last.
    pub fn next(&mut self)
        requires
            old(self).list().len() > 0,
        ensures
            final(self).selection() == Some(
                next_index(old(self).selection(), old(self).list().len()) as usize,
            ),
            final(self).list() == old(self).list(),
            final(self).path() == old(self).path(),
            final(self).shows_hidden() == old(self).shows_hidden(),
    {
        let i = match self.selected {
            Some(i) => {
                if i >= self.items.len() - 1 {
                    0
                } else {
                    i + 1
                }
            },
            None => 0,
        };
        self.selected = Some(i);
    }

    /// Selects the item before, or the last before the first.
    pub fn previous(&mut self)
        requires
            old(self).list().len() > 0,
        ensures
            final(self).selection() == Some(
                previous_index(old(self).selection(), old(self).list().len()) as usize,
            ),
            final(self).list() == old(self).list(),
            final(self).path() == old(self).path(),
            final(self).shows_hidden() == old(self).shows_hidden(),
    {
        let i = match self.selected {
            Some(i) => {
                if i == 0 {
                    self.items.len() - 1
                } else {
                    i - 1
                }
            },
            None => 0,
        };
        self.selected = Some(i);
    }

    /// The directory that Enter opens: the path of the selected item, where
    /// an item is selected and is a directory.
    pub fn enter_target(&self) -> (target: Option<String>)
        ensures
            match target {
                Some(path) => {
                    &&& self.selection() matches Some(i)
                    &&& i < self.list().len()
                    &&& self.list()[i as int].is_dir
                    &&& path@ == self.list()[i as int].path
                },
                None => match self.selection() {
                    Some(i) => i < self.list().len() ==> !self.list()[i as int].is_dir,
                    None => true,
                },
            },
    {
        match self.selected {
            Some(i) => {
                if i < self.items.len() && self.items[i].is_dir {
                    Some(self.items[i].path.clone())
                } else {
                    None
                }
            },
            None => None,
        }
    }

    /// Goes into the directory `path` with the given entries and selects its
    /// first item.
    pub fn enter(&mut self, path: String, parent: Option<String>, entries: Vec<FileItem>)
        ensures
            final(self).path() == path@,
            final(self).shows_hidden() == old(self).shows_hidden(),
            final(self).selection() == Some(0usize),
            final(self).list() == listing(
                optional_chars(parent),
                item_views(entries@),
                old(self).shows_hidden(),
            ),
    {
        self.current_path = path;
        self.items = build_listing(parent, entries, self.show_hidden);
        self.selected = Some(0);
    }

    /// Shows hidden entries if they were not shown, and hides them if they
    /// were; takes the entries of the directory as they are now and selects
    /// the first item.
    pub fn toggle_hidden(&mut self, parent: Option<String>, entries: Vec<FileItem>)
        ensures
            final(self).path() == old(self).path(),
            final(self).shows_hidden() == !old(self).shows_hidden(),
            final(self).selection() == Some(0usize),
            final(self).list() == listing(
                optional_chars(parent),
                item_views(entries@),
                !old(self).shows_hidden(),
            ),
    {
        self.show_hidden = !self.show_hidden;
        self.items = build_listing(parent, entries, self.show_hidden);
        self.selected = Some(0);
    }

    /// The path of the directory that is shown.
    pub fn current_path(&self) -> (path: &String)
        ensures
            path@ == self.path(),
    {
        &self.current_path
    }

    /// The items of the list.
    pub fn items(&self) -> (items: &Vec<FileItem>)
        ensures
            item_views(items@) == self.list(),
    {
        &self.items
    }

    /// The place of the selected item.
    pub fn selected(&self) -> (selected: Option<usize>)
        ensures
            selected == self.selection(),
    {
        self.selected
    }

    /// Whether hidden entries are shown.
    pub fn show_hidden(&self) -> (shown: bool)
        ensures
            shown == self.shows_hidden(),
    {
        self.show_hidden
    }
}

} // verus!
