//! The navigation state machine: routes key events to the selection cursor,
//! the filter and the directory model, and records the session's result.
//!
//! Changing directory needs the file system, so a key that asks for it
//! returns a `Request`; the caller performs it and reports back through
//! `moved_to`, `show_listing` or `record_failure`.
use crate::entry::{listing_of, sort_by_name, views, ObjectType, Path, PathView, sorted_by_name};
use crate::error::ExplorerError;
use crate::explorer::Explorer;
use crate::filter::{filtered, names_fit, FuzzyFilter, NAME_LIMIT};
use crate::output::{no_op, texts, Output};
use crate::selection::{first_of, last_of, next_of, previous_of, selection_in, PathList};
use vstd::prelude::*;
use vstd::string::{StrSliceExecFns, StringExecFns};

verus! {

/// A key press, as the browser distinguishes them.
#[derive(Clone, Copy, Debug, PartialEq, Eq, Structural)]
pub enum Key {
    Char(char),
    Esc,
    Down,
    Up,
    Home,
    End,
    Right,
    Left,
    Enter,
    Backspace,
    Other,
}

/// What a key asks of the file system.
#[derive(Debug)]
pub enum Request {
    /// Nothing.
    Stay,
    /// Change to this directory, then list it.
    ChangeDirectory(String),
    /// Read the current directory again and install its listing: the
    /// filter was cleared, and the full listing is shown afresh.
    Refresh,
}

/// A file-system error met while handling a key, with the key and the name
/// of the entry selected then (`nothing` when none was).
#[derive(Debug)]
pub struct Failure {
    pub key: Key,
    pub selected: String,
    pub error: ExplorerError,
}

/// The value of an `Output`.
pub struct OutputView {
    pub cwd: Seq<char>,
    pub command: Seq<char>,
    pub items: Seq<Seq<char>>,
}

/// The value of the browser's state.
pub struct AppView {
    pub should_exit: bool,
    pub cwd: Seq<char>,
    /// The current directory's full listing, in listing order.
    pub listing: Seq<PathView>,
    pub query: Seq<char>,
    /// The entries displayed.
    pub items: Seq<PathView>,
    pub selected: Option<usize>,
    pub output: OutputView,
}

/// The character that ends the session.
pub open spec fn quit_char() -> char {
    'Q'
}

/// The command recorded by committing a selection.
pub open spec fn commit_marker() -> Seq<char> {
    seq!['d', 'o', '-', 't', 'h', 'i', 'n', 'g']
}

/// The sentinel recorded for the selection when none was present.
pub open spec fn nothing_text() -> Seq<char> {
    seq!['n', 'o', 't', 'h', 'i', 'n', 'g']
}

/// What std's `Path::parent` gives for the path `dir`: `None` for a root
/// or an empty path.
pub uninterp spec fn path_parent(dir: Seq<char>) -> Option<Seq<char>>;

/// Relies on std's `Path::parent`, rendered by `to_string_lossy`: the path
/// without its last component, or `None` when it ends in a root or is empty.
#[verifier::external_body]
fn parent_text(dir: &str) -> (r: Option<String>)
    ensures
        match r {
            Some(p) => path_parent(dir@) == Some(p@),
            None => path_parent(dir@) is None,
        },
{
    match std::path::Path::new(dir).parent() {
        Some(p) => Some(p.to_string_lossy().to_string()),
        None => None,
    }
}

/// The path of entry `name` inside directory `dir`.
pub open spec fn child_path(dir: Seq<char>, name: Seq<char>) -> Seq<char> {
    if dir.len() > 0 && dir.last() == '/' {
        dir + name
    } else {
        dir + seq!['/'] + name
    }
}

/// The directory one level up, or `dir` itself at the root.
pub open spec fn parent_or_self(dir: Seq<char>) -> Seq<char> {
    match path_parent(dir) {
        Some(p) => p,
        None => dir,
    }
}

/// The text recorded for a committed entry: the directory, `/`, the name.
pub open spec fn committed_item(dir: Seq<char>, name: Seq<char>) -> Seq<char> {
    dir + seq!['/'] + name
}

/// `s` with the query replaced by `query`, the entries recomputed from the
/// full listing, and the first entry selected.
pub open spec fn refiltered(s: AppView, query: Seq<char>) -> AppView {
    let items = filtered(query, s.listing);
    AppView { query, items, selected: first_of(items.len()), ..s }
}

/// The query with its last character removed, if it has one.
pub open spec fn erased(query: Seq<char>) -> Seq<char> {
    if query.len() > 0 {
        query.drop_last()
    } else {
        query
    }
}

/// Committing the selection with `command`: with an entry selected, the
/// output records the command and that entry's path, and the session ends
/// when `quit` is set; with none, nothing changes.
pub open spec fn committed(s: AppView, command: Seq<char>, quit: bool) -> AppView {
    match s.selected {
        Some(i) => AppView {
            output: OutputView {
                command,
                items: seq![committed_item(s.cwd, s.items[i as int].value)],
                ..s.output
            },
            should_exit: s.should_exit || quit,
            ..s
        },
        None => s,
    }
}

/// The state after `key`, for every key. The two keys that change directory
/// leave the state as it is and make a request instead (see `requested`).
pub open spec fn step(s: AppView, key: Key) -> AppView {
    match key {
        Key::Char(c) => if c == quit_char() {
            AppView { should_exit: true, ..s }
        } else {
            refiltered(s, s.query.push(c))
        },
        Key::Esc => refiltered(s, seq![]),
        Key::Down => AppView { selected: next_of(s.selected, s.items.len()), ..s },
        Key::Up => AppView { selected: previous_of(s.selected, s.items.len()), ..s },
        Key::Home => AppView { selected: first_of(s.items.len()), ..s },
        Key::End => AppView { selected: last_of(s.items.len()), ..s },
        Key::Enter => committed(s, commit_marker(), true),
        Key::Backspace => refiltered(s, erased(s.query)),
        _ => s,
    }
}

/// The directory `key` asks to change to: for the enter-directory key, the
/// selected entry's path when it is a directory; for the parent key, the
/// parent of the current directory, or the directory itself at the root.
pub open spec fn requested(s: AppView, key: Key) -> Option<Seq<char>> {
    match key {
        Key::Right => match s.selected {
            Some(i) => if i < s.items.len() && s.items[i as int].kind == ObjectType::Directory {
                Some(child_path(s.cwd, s.items[i as int].value))
            } else {
                None
            },
            None => None,
        },
        Key::Left => Some(parent_or_self(s.cwd)),
        _ => None,
    }
}

/// Whether `key` clears the filter, so that the current directory is to be
/// listed again: the clear key, and a backspace that leaves the query empty.
pub open spec fn refreshes(s: AppView, key: Key) -> bool {
    key == Key::Esc || (key == Key::Backspace && erased(s.query).len() == 0)
}

/// The state after a directory's listing is installed: the listing in
/// listing order, the query cleared, every entry shown, the first selected.
pub open spec fn listed(s: AppView, entries: Seq<PathView>) -> AppView {
    let listing = listing_of(entries);
    refiltered(AppView { listing, ..s }, seq![])
}

/// The invariant of the browser's state: the selection names a displayed
/// entry; the displayed entries are what the filter makes of the full
/// listing for the query; the listing is in listing order and its names fit
/// the matcher.
pub open spec fn valid(s: AppView) -> bool {
    &&& selection_in(s.selected, s.items.len())
    &&& s.items == filtered(s.query, s.listing)
    &&& sorted_by_name(s.listing)
    &&& names_fit(s.listing)
}

/// The browser's state.
pub struct App {
    should_exit: bool,
    path_list: PathList,
    explorer: Explorer,
    output: Output,
    filter: FuzzyFilter,
    filter_string: String,
    listing: Vec<Path>,
    failures: Vec<Failure>,
}

impl View for App {
    type V = AppView;

    closed spec fn view(&self) -> AppView {
        AppView {
            should_exit: self.should_exit,
            cwd: self.explorer.current_dir@,
            listing: views(self.listing@),
            query: self.filter_string@,
            items: self.path_list.entries(),
            selected: self.path_list.selection(),
            output: OutputView {
                cwd: self.output.cwd@,
                command: self.output.command@,
                items: texts(self.output.items@),
            },
        }
    }
}

impl App {
    /// The failures recorded so far: each key with the selected entry's name.
    pub closed spec fn failure_log(&self) -> Seq<(Key, Seq<char>)> {
        self.failures@.map_values(|f: Failure| (f.key, f.selected@))
    }

    /// The state is valid.
    pub open spec fn wf(&self) -> bool {
        valid(self@)
    }

    /// A browser in `explorer`'s directory showing `entries` in listing
    /// order, with no filter, nothing selected and no command chosen.
    pub fn new(explorer: Explorer, entries: Vec<Path>) -> (r: App)
        requires
            names_fit(views(entries@)),
        ensures
            r.wf(),
            r@ == (AppView {
                should_exit: false,
                cwd: explorer.current_dir@,
                listing: listing_of(views(entries@)),
                query: seq![],
                items: filtered(seq![], listing_of(views(entries@))),
                selected: None,
                output: OutputView { cwd: explorer.current_dir@, command: no_op(), items: seq![] },
            }),
            r.failure_log().len() == 0,
    {
        let listing = sort_by_name(entries);
        let mut filter = FuzzyFilter::new();
        let empty = String::new();
        proof {
            lemma_names_fit_permuted(views(entries@), views(listing@));
        }
        let items = filter.apply(empty.as_str(), &listing);
        let output = Output::new(explorer.cwd());
        let r = App {
            should_exit: false,
            path_list: PathList::from_iter(items),
            explorer,
            output,
            filter,
            filter_string: empty,
            listing,
            failures: Vec::new(),
        };
        proof {
            assert(texts(r.output.items@) =~= Seq::<Seq<char>>::empty());
            assert(r.failure_log().len() == 0);
        }
        r
    }

    /// Whether the session has ended.
    pub fn should_exit(&self) -> (r: bool)
        ensures
            r == self@.should_exit,
    {
        self.should_exit
    }

    /// The query typed so far.
    pub fn filter_string(&self) -> (r: &String)
        ensures
            r@ == self@.query,
    {
        &self.filter_string
    }

    /// The displayed entries and the selection.
    pub fn path_list(&self) -> (r: &PathList)
        ensures
            r.entries() == self@.items,
            r.selection() == self@.selected,
    {
        &self.path_list
    }

    /// The session's result so far.
    pub fn output(&self) -> (r: &Output)
        ensures
            r.cwd@ == self@.output.cwd,
            r.command@ == self@.output.command,
            texts(r.items@) == self@.output.items,
    {
        &self.output
    }

    /// The current directory's text.
    pub fn cwd(&self) -> (r: String)
        ensures
            r@ == self@.cwd,
    {
        self.explorer.cwd()
    }

    /// The failures recorded so far.
    pub fn failures(&self) -> (r: &Vec<Failure>)
        ensures
            r@.map_values(|f: Failure| (f.key, f.selected@)) == self.failure_log(),
    {
        &self.failures
    }

    /// Recomputes the displayed entries from the full listing for the query
    /// and selects the first.
    fn refilter(&mut self)
        requires
            names_fit(old(self)@.listing),
        ensures
            final(self)@ == refiltered(old(self)@, old(self)@.query),
            final(self).failure_log() == old(self).failure_log(),
    {
        let items = self.filter.apply(self.filter_string.as_str(), &self.listing);
        self.path_list.replace(items);
        self.path_list.select_first();
    }

    /// Appends `c` to the query and filters the full listing with it.
    pub fn filter_paths(&mut self, c: char)
        requires
            old(self).wf(),
        ensures
            final(self).wf(),
            final(self)@ == refiltered(old(self)@, old(self)@.query.push(c)),
            final(self).failure_log() == old(self).failure_log(),
    {
        self.filter_string.push(c);
        self.refilter();
    }

    /// Removes the query's last character and filters again; an emptied
    /// query shows the full listing.
    pub fn remove_last_char_from_filter(&mut self)
        requires
            old(self).wf(),
        ensures
            final(self).wf(),
            final(self)@ == refiltered(old(self)@, erased(old(self)@.query)),
            final(self).failure_log() == old(self).failure_log(),
    {
        let _ = self.filter_string.pop();
        self.refilter();
    }

    /// Clears the query and shows the full listing, the first entry
    /// selected.
    pub fn clear_filter(&mut self)
        requires
            old(self).wf(),
        ensures
            final(self).wf(),
            final(self)@ == refiltered(old(self)@, seq![]),
            final(self).failure_log() == old(self).failure_log(),
    {
        self.filter_string = String::new();
        self.refilter();
    }

    /// Clears the selection.
    pub fn select_none(&mut self)
        requires
            old(self).wf(),
        ensures
            final(self).wf(),
            final(self)@ == (AppView { selected: None, ..old(self)@ }),
            final(self).failure_log() == old(self).failure_log(),
    {
        self.path_list.select_none();
    }

    /// Selects the next entry, held at the last.
    pub fn select_next(&mut self)
        requires
            old(self).wf(),
        ensures
            final(self).wf(),
            final(self)@ == step(old(self)@, Key::Down),
            final(self).failure_log() == old(self).failure_log(),
    {
        self.path_list.select_next();
    }

    /// Selects the previous entry, held at the first.
    pub fn select_previous(&mut self)
        requires
            old(self).wf(),
        ensures
            final(self).wf(),
            final(self)@ == step(old(self)@, Key::Up),
            final(self).failure_log() == old(self).failure_log(),
    {
        self.path_list.select_previous();
    }

    /// Selects the first entry.
    pub fn select_first(&mut self)
        requires
            old(self).wf(),
        ensures
            final(self).wf(),
            final(self)@ == step(old(self)@, Key::Home),
            final(self).failure_log() == old(self).failure_log(),
    {
        self.path_list.select_first();
    }

    /// Selects the last entry.
    pub fn select_last(&mut self)
        requires
            old(self).wf(),
        ensures
            final(self).wf(),
            final(self)@ == step(old(self)@, Key::End),
            final(self).failure_log() == old(self).failure_log(),
    {
        self.path_list.select_last();
    }

    /// Records `command` for the selected entry, whose path becomes the
    /// output's only item, and ends the session when `quit` is set; without a
    /// selection nothing changes.
    pub fn update_command(&mut self, command: String, quit: bool)
        requires
            old(self).wf(),
        ensures
            final(self).wf(),
            final(self)@ == committed(old(self)@, command@, quit),
            final(self).failure_log() == old(self).failure_log(),
    {
        match self.path_list.selected() {
            Some(i) => {
                let items = self.path_list.items();
                proof {
                    assert(views(items@)[i as int] == items@[i as int]@);
                }
                let mut t = self.explorer.cwd();
                t.push('/');
                t.append(items[i].value.as_str());
                let ghost text = t@;
                assert(text == committed_item(old(self)@.cwd, old(self)@.items[i as int].value));
                self.output.command = command;
                self.output.items = vec![t];
                proof {
                    assert(texts(self.output.items@) =~= seq![text]);
                }
                if quit {
                    self.should_exit = true;
                }
            },
            None => {},
        }
    }

    /// The directory that entering the selection leads to: the selected
    /// entry's path when it is a directory, else none.
    pub fn enter_directory(&self) -> (r: Option<String>)
        requires
            self.wf(),
        ensures
            match r {
                Some(t) => requested(self@, Key::Right) == Some(t@),
                None => requested(self@, Key::Right) is None,
            },
    {
        match self.path_list.selected_item() {
            Some(p) => {
                if p.kind == ObjectType::Directory {
                    let mut t = self.explorer.cwd();
                    let n = t.as_str().unicode_len();
                    if !(n > 0 && t.as_str().get_char(n - 1) == '/') {
                        t.push('/');
                    }
                    t.append(p.value.as_str());
                    Some(t)
                } else {
                    None
                }
            },
            None => None,
        }
    }

    /// The directory one level up, or the current one at the root.
    pub fn change_to_parent(&self) -> (r: String)
        ensures
            Some(r@) == requested(self@, Key::Left),
    {
        match parent_text(self.explorer.current_dir.as_str()) {
            Some(p) => p,
            None => self.explorer.cwd(),
        }
    }

    /// Handles one key: updates the state as `step` says, and returns the
    /// directory change the key asks for, if any.
    pub fn handle_key(&mut self, key: Key) -> (r: Request)
        requires
            old(self).wf(),
        ensures
            final(self).wf(),
            final(self)@ == step(old(self)@, key),
            final(self).failure_log() == old(self).failure_log(),
            match r {
                Request::Stay => requested(old(self)@, key) is None && !refreshes(old(self)@, key),
                Request::ChangeDirectory(t) => requested(old(self)@, key) == Some(t@),
                Request::Refresh => requested(old(self)@, key) is None && refreshes(old(self)@, key),
            },
    {
        match key {
            Key::Char(c) => {
                if c == 'Q' {
                    self.should_exit = true;
                } else {
                    self.filter_paths(c);
                }
                Request::Stay
            },
            Key::Esc => {
                self.clear_filter();
                Request::Refresh
            },
            Key::Down => {
                self.select_next();
                Request::Stay
            },
            Key::Up => {
                self.select_previous();
                Request::Stay
            },
            Key::Home => {
                self.select_first();
                Request::Stay
            },
            Key::End => {
                self.select_last();
                Request::Stay
            },
            Key::Right => match self.enter_directory() {
                Some(t) => Request::ChangeDirectory(t),
                None => Request::Stay,
            },
            Key::Left => Request::ChangeDirectory(self.change_to_parent()),
            Key::Enter => {
                let command = String::from_str("do-thing");
                proof {
                    reveal_strlit("do-thing");
                    assert(command@ =~= commit_marker());
                }
                self.update_command(command, true);
                Request::Stay
            },
            Key::Backspace => {
                self.remove_last_char_from_filter();
                if self.filter_string.as_str().is_empty() {
                    Request::Refresh
                } else {
                    Request::Stay
                }
            },
            Key::Other => Request::Stay,
        }
    }

    /// Records that the current directory is now `dir` (its canonical form),
    /// before its listing is read.
    pub fn moved_to(&mut self, dir: String)
        requires
            old(self).wf(),
        ensures
            final(self).wf(),
            final(self)@ == (AppView { cwd: dir@, ..old(self)@ }),
            final(self).failure_log() == old(self).failure_log(),
    {
        self.explorer = Explorer { current_dir: dir };
    }

    /// Installs the current directory's listing read from `entries`: listing
    /// order, no filter, every entry shown, the first selected.
    pub fn show_listing(&mut self, entries: Vec<Path>)
        requires
            old(self).wf(),
            names_fit(views(entries@)),
        ensures
            final(self).wf(),
            final(self)@ == listed(old(self)@, views(entries@)),
            final(self).failure_log() == old(self).failure_log(),
    {
        let listing = sort_by_name(entries);
        proof {
            lemma_names_fit_permuted(views(entries@), views(listing@));
        }
        self.listing = listing;
        self.filter_string = String::new();
        self.refilter();
    }

    /// Records that handling `key` failed with `error`, noting the selected
    /// entry's name, or `nothing`.
    pub fn record_failure(&mut self, key: Key, error: ExplorerError)
        requires
            old(self).wf(),
        ensures
            final(self).wf(),
            final(self)@ == old(self)@,
            final(self).failure_log() == old(self).failure_log().push(
                (
                    key,
                    match old(self)@.selected {
                        Some(i) => old(self)@.items[i as int].value,
                        None => nothing_text(),
                    },
                ),
            ),
    {
        let selected = match self.path_list.selected_item() {
            Some(p) => p.value.clone(),
            None => {
                let s = String::from_str("nothing");
                proof {
                    reveal_strlit("nothing");
                    assert(s@ =~= nothing_text());
                }
                s
            },
        };
        let ghost before = self.failures@;
        self.failures.push(Failure { key, selected, error });
        proof {
            assert(self.failures@.map_values(|f: Failure| (f.key, f.selected@)) =~= before.map_values(
                |f: Failure| (f.key, f.selected@),
            ).push((key, selected@)));
        }
    }
}

/// A permutation of entries whose names fit the matcher has names that fit.
proof fn lemma_names_fit_permuted(a: Seq<PathView>, b: Seq<PathView>)
    requires
        names_fit(a),
        b.to_multiset() == a.to_multiset(),
    ensures
        names_fit(b),
{
    broadcast use vstd::seq_lib::group_to_multiset_ensures;

    assert forall|i: int| 0 <= i < b.len() implies (#[trigger] b[i]).value.len() <= NAME_LIMIT by {
        assert(b.to_multiset().count(b[i]) > 0);
        assert(a.contains(b[i]));
    }
}

} // verus!
