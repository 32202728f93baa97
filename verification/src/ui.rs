//! The decisions of the web client's interface: the search bar with its
//! completion dropdown, the file type filter buttons, the preview of a found
//! file and the route of a search. Drawing the interface and sending the
//! requests are left to the caller, which hands over each event and carries
//! out the action it gets back.
use vstd::prelude::*;
use crate::config::default_file_types;
use vstd::string::StringExecFns;
use crate::client::{encode_filters, spec_encode_filters};
use crate::searcher::{signed_decimal, spec_signed_decimal};
use crate::text::{chars_of, join, join_with, split_whitespace, str_eq, trim, trim_ws, whitespace_words};
use crate::tokens::views;

verus! {

/// The last word of a text, or the empty text when it has none.
pub open spec fn last_word(v: Seq<char>) -> Seq<char> {
    let w = whitespace_words(v);
    if w.len() == 0 {
        Seq::empty()
    } else {
        w.last()
    }
}

/// The pattern once a suggestion replaces its last word: the other words
/// joined by spaces, a space and the suggestion, trimmed.
pub open spec fn with_suggestion(pattern: Seq<char>, s: Seq<char>) -> Seq<char> {
    let w = whitespace_words(pattern);
    let head = if w.len() == 0 { Seq::empty() } else { join_with(w.drop_last(), seq![' ']) };
    trim_ws(head + seq![' '] + s)
}

/// The state of the search bar: the typed pattern, the completion
/// suggestions, whether they are shown, and the highlighted one.
#[derive(Debug)]
pub struct SearchBar {
    pub pattern: String,
    pub suggestions: Vec<String>,
    pub show_dropdown: bool,
    pub selected_index: Option<usize>,
}

/// The text of a search bar's state.
pub struct SearchBarView {
    pub pattern: Seq<char>,
    pub suggestions: Seq<Seq<char>>,
    pub show_dropdown: bool,
    pub selected_index: Option<usize>,
}

impl View for SearchBar {
    type V = SearchBarView;

    open spec fn view(&self) -> SearchBarView {
        SearchBarView {
            pattern: self.pattern@,
            suggestions: views(self.suggestions@),
            show_dropdown: self.show_dropdown,
            selected_index: self.selected_index,
        }
    }
}

/// What happens to the search bar.
#[derive(Debug)]
pub enum SearchBarEvent {
    /// The text of the input became the given one.
    Input(String),
    /// Completions arrived; `None` when the request failed.
    Completed(Option<Vec<String>>),
    /// The Enter key was pressed.
    Enter,
    /// The down arrow key was pressed.
    ArrowDown,
    /// The up arrow key was pressed.
    ArrowUp,
    /// The suggestion at the given position was clicked.
    Pick(usize),
}

/// The text of a search bar event.
pub enum SearchBarEventView {
    Input(Seq<char>),
    Completed(Option<Seq<Seq<char>>>),
    Enter,
    ArrowDown,
    ArrowUp,
    Pick(usize),
}

impl View for SearchBarEvent {
    type V = SearchBarEventView;

    open spec fn view(&self) -> SearchBarEventView {
        match self {
            SearchBarEvent::Input(v) => SearchBarEventView::Input(v@),
            SearchBarEvent::Completed(Some(t)) => SearchBarEventView::Completed(Some(views(t@))),
            SearchBarEvent::Completed(None) => SearchBarEventView::Completed(None),
            SearchBarEvent::Enter => SearchBarEventView::Enter,
            SearchBarEvent::ArrowDown => SearchBarEventView::ArrowDown,
            SearchBarEvent::ArrowUp => SearchBarEventView::ArrowUp,
            SearchBarEvent::Pick(i) => SearchBarEventView::Pick(*i),
        }
    }
}

/// What the interface does after an event.
#[derive(Debug)]
pub enum SearchBarAction {
    Nothing,
    /// Ask for the completions of the given word.
    Complete(String),
    /// Run the search.
    Submit,
    /// Give the focus back to the input.
    Focus,
}

/// The text of a search bar action.
pub enum SearchBarActionView {
    Nothing,
    Complete(Seq<char>),
    Submit,
    Focus,
}

impl View for SearchBarAction {
    type V = SearchBarActionView;

    open spec fn view(&self) -> SearchBarActionView {
        match self {
            SearchBarAction::Nothing => SearchBarActionView::Nothing,
            SearchBarAction::Complete(w) => SearchBarActionView::Complete(w@),
            SearchBarAction::Submit => SearchBarActionView::Submit,
            SearchBarAction::Focus => SearchBarActionView::Focus,
        }
    }
}

/// The state once the suggestion at `i` replaces the last word and the
/// dropdown closes, with the focus given back to the input; nothing happens
/// when there is no such suggestion.
pub open spec fn pick(st: SearchBarView, i: int) -> (SearchBarView, SearchBarActionView) {
    if 0 <= i < st.suggestions.len() {
        (SearchBarView { pattern: with_suggestion(st.pattern, st.suggestions[i]), show_dropdown: false, ..st }, SearchBarActionView::Focus)
    } else {
        (st, SearchBarActionView::Nothing)
    }
}

/// The effect of an event on the search bar.
/// - Typing an empty text, or one that ends with a space, closes the
///   dropdown; other texts ask for the completions of their last word.
/// - Completions open the dropdown when there are some, else close it.
/// - Enter picks the highlighted suggestion when the dropdown is open and
///   one is highlighted, else submits the search.
/// - The arrow keys move the highlight down and up, cyclically.
/// - A click picks the clicked suggestion.
pub open spec fn spec_handle(st: SearchBarView, ev: SearchBarEventView) -> (SearchBarView, SearchBarActionView) {
    match ev {
        SearchBarEventView::Input(v) => if v.len() == 0 || v.last() == ' ' {
            (SearchBarView { pattern: v, suggestions: Seq::empty(), show_dropdown: false, ..st }, SearchBarActionView::Nothing)
        } else {
            (SearchBarView { pattern: v, ..st }, SearchBarActionView::Complete(last_word(v)))
        },
        SearchBarEventView::Completed(r) => match r {
            Some(t) => if t.len() > 0 {
                (SearchBarView { suggestions: t, show_dropdown: true, ..st }, SearchBarActionView::Nothing)
            } else {
                (SearchBarView { suggestions: Seq::empty(), show_dropdown: false, ..st }, SearchBarActionView::Nothing)
            },
            None => (SearchBarView { suggestions: Seq::empty(), show_dropdown: false, ..st }, SearchBarActionView::Nothing),
        },
        SearchBarEventView::Enter => if st.show_dropdown {
            match st.selected_index {
                Some(i) => pick(st, i as int),
                None => (st, SearchBarActionView::Submit),
            }
        } else {
            (st, SearchBarActionView::Submit)
        },
        SearchBarEventView::ArrowDown => {
            let n = st.suggestions.len();
            if n > 0 {
                let next = match st.selected_index {
                    Some(i) => ((i + 1) % (n as int)) as usize,
                    None => 0usize,
                };
                (SearchBarView { selected_index: Some(next), ..st }, SearchBarActionView::Nothing)
            } else {
                (st, SearchBarActionView::Nothing)
            }
        },
        SearchBarEventView::ArrowUp => {
            let n = st.suggestions.len();
            if n > 0 {
                let next = match st.selected_index {
                    Some(i) => if i == 0 { (n - 1) as usize } else { (i - 1) as usize },
                    None => (n - 1) as usize,
                };
                (SearchBarView { selected_index: Some(next), ..st }, SearchBarActionView::Nothing)
            } else {
                (st, SearchBarActionView::Nothing)
            }
        },
        SearchBarEventView::Pick(i) => pick(st, i as int),
    }
}

fn copy_strings(v: &Vec<String>) -> (res: Vec<String>)
    ensures
        views(res@) == views(v@),
{
    let mut out: Vec<String> = Vec::new();
    let mut i: usize = 0;
    while i < v.len()
        invariant
            i <= v@.len(),
            views(out@) == views(v@).take(i as int),
        decreases v@.len() - i,
    {
        let c = v[i].clone();
        let ghost before = views(out@);
        out.push(c);
        assert(views(out@) =~= before.push(v@[i as int]@));
        assert(views(v@).take(i + 1) =~= views(v@).take(i as int).push(v@[i as int]@));
        i = i + 1;
    }
    assert(views(v@).take(v@.len() as int) =~= views(v@));
    out
}

impl SearchBar {
    /// An empty search bar with no suggestion.
    pub fn new() -> (res: SearchBar)
        ensures
            res@.pattern == Seq::<char>::empty(),
            res@.suggestions == Seq::<Seq<char>>::empty(),
            !res@.show_dropdown,
            res@.selected_index is None,
    {
        let res = SearchBar { pattern: String::new(), suggestions: Vec::new(), show_dropdown: false, selected_index: None };
        assert(views(res.suggestions@) =~= Seq::<Seq<char>>::empty());
        res
    }

    /// The pattern with the suggestion `s` in place of its last word.
    fn apply_suggestion(&self, s: &str) -> (res: String)
        ensures
            res@ == with_suggestion(self.pattern@, s@),
    {
        let words = split_whitespace(self.pattern.as_str());
        let mut next = if words.len() == 0 {
            String::new()
        } else {
            proof {
                reveal_strlit(" ");
                assert(" "@ =~= seq![' ']);
                assert(views(words@.take(words@.len() - 1)) =~= views(words@).drop_last());
            }
            join(vstd::slice::slice_subrange(words.as_slice(), 0, words.len() - 1), " ")
        };
        next.append(" ");
        next.append(s);
        proof {
            reveal_strlit(" ");
            assert(" "@ =~= seq![' ']);
        }
        trim(next.as_str())
    }

    fn pick(&mut self, i: usize) -> (res: SearchBarAction)
        ensures
            (final(self)@, res@) == pick(old(self)@, i as int),
    {
        if i < self.suggestions.len() {
            let next = self.apply_suggestion(self.suggestions[i].as_str());
            self.pattern = next;
            self.show_dropdown = false;
            SearchBarAction::Focus
        } else {
            SearchBarAction::Nothing
        }
    }

    /// Applies an event to the search bar and tells what to do next (see `spec_handle`).
    pub fn handle(&mut self, event: SearchBarEvent) -> (res: SearchBarAction)
        ensures
            (final(self)@, res@) == spec_handle(old(self)@, event@),
    {
        match event {
            SearchBarEvent::Input(v) => {
                let cs = chars_of(v.as_str());
                if cs.len() == 0 || cs[cs.len() - 1] == ' ' {
                    self.pattern = v;
                    self.suggestions = Vec::new();
                    self.show_dropdown = false;
                    assert(views(self.suggestions@) =~= Seq::<Seq<char>>::empty());
                    SearchBarAction::Nothing
                } else {
                    let words = split_whitespace(v.as_str());
                    let word = if words.len() == 0 {
                        String::new()
                    } else {
                        words[words.len() - 1].clone()
                    };
                    self.pattern = v;
                    SearchBarAction::Complete(word)
                }
            },
            SearchBarEvent::Completed(r) => {
                match r {
                    Some(t) => {
                        if t.len() > 0 {
                            self.suggestions = copy_strings(&t);
                            self.show_dropdown = true;
                        } else {
                            self.suggestions = Vec::new();
                            self.show_dropdown = false;
                            assert(views(self.suggestions@) =~= Seq::<Seq<char>>::empty());
                        }
                    },
                    None => {
                        self.suggestions = Vec::new();
                        self.show_dropdown = false;
                        assert(views(self.suggestions@) =~= Seq::<Seq<char>>::empty());
                    },
                }
                SearchBarAction::Nothing
            },
            SearchBarEvent::Enter => {
                if self.show_dropdown {
                    match self.selected_index {
                        Some(i) => self.pick(i),
                        None => SearchBarAction::Submit,
                    }
                } else {
                    SearchBarAction::Submit
                }
            },
            SearchBarEvent::ArrowDown => {
                let n = self.suggestions.len();
                if n > 0 {
                    let next: usize = match self.selected_index {
                        Some(i) => {
                            let r = i % n;
                            proof {
                                vstd::arithmetic::div_mod::lemma_add_mod_noop(i as int, 1, n as int);
                                vstd::arithmetic::div_mod::lemma_add_mod_noop(r as int, 1, n as int);
                                vstd::arithmetic::div_mod::lemma_mod_twice(i as int, n as int);
                                assert(((i + 1) % (n as int)) == ((r + 1) % (n as int)));
                            }
                            (r + 1) % n
                        },
                        None => 0,
                    };
                    self.selected_index = Some(next);
                }
                SearchBarAction::Nothing
            },
            SearchBarEvent::ArrowUp => {
                let n = self.suggestions.len();
                if n > 0 {
                    let next: usize = match self.selected_index {
                        Some(i) => if i == 0 { n - 1 } else { i - 1 },
                        None => n - 1,
                    };
                    self.selected_index = Some(next);
                }
                SearchBarAction::Nothing
            },
            SearchBarEvent::Pick(i) => self.pick(i),
        }
    }
}

/// The filter states for `count` file types: all selected when the current
/// states are not one per type, else unchanged.
pub fn filters_for_types(filters: &Vec<bool>, count: usize) -> (res: Vec<bool>)
    ensures
        filters@.len() != count ==> res@ == Seq::new(count as nat, |i: int| true),
        filters@.len() == count ==> res@ == filters@,
{
    let mut out: Vec<bool> = Vec::new();
    let same = filters.len() == count;
    let mut i: usize = 0;
    while i < count
        invariant
            i <= count,
            same == (filters@.len() == count),
            out@.len() == i,
            forall|j: int| 0 <= j < i ==> out@[j] == if same { filters@[j] } else { true },
        decreases count - i,
    {
        out.push(if same { filters[i] } else { true });
        i = i + 1;
    }
    assert(same ==> out@ =~= filters@);
    assert(!same ==> out@ =~= Seq::new(count as nat, |i: int| true));
    out
}

/// Flips the state of the filter at `i`, when there is one.
pub fn toggle_filter(filters: &mut Vec<bool>, i: usize)
    ensures
        i < old(filters)@.len() ==> final(filters)@ == old(filters)@.update(i as int, !old(filters)@[i as int]),
        i >= old(filters)@.len() ==> final(filters)@ == old(filters)@,
{
    if i < filters.len() {
        let b = filters[i];
        filters.set(i, !b);
    }
}

/// Whether the filter at `i` is selected; a missing filter is not.
pub fn filter_active(filters: &Vec<bool>, i: usize) -> (res: bool)
    ensures
        res == (i < filters@.len() && filters@[i as int]),
{
    i < filters.len() && filters[i]
}

/// How a found file is previewed.
#[derive(Debug, Clone, Copy, PartialEq, Eq, Structural)]
pub enum Preview {
    Image,
    Text,
    Sound,
    Video,
    Unavailable,
}

/// The preview of a file of the named type: images, text, sounds and
/// videos are shown; other types are not.
pub open spec fn spec_preview(file_type: Seq<char>) -> Preview {
    if file_type == "images"@ {
        Preview::Image
    } else if file_type == "text"@ {
        Preview::Text
    } else if file_type == "sounds"@ {
        Preview::Sound
    } else if file_type == "videos"@ {
        Preview::Video
    } else {
        Preview::Unavailable
    }
}

/// The preview of a file of the named type (see `spec_preview`).
pub fn preview_for_type(file_type: &str) -> (res: Preview)
    ensures
        res == spec_preview(file_type@),
{
    if str_eq(file_type, "images") {
        Preview::Image
    } else if str_eq(file_type, "text") {
        Preview::Text
    } else if str_eq(file_type, "sounds") {
        Preview::Sound
    } else if str_eq(file_type, "videos") {
        Preview::Video
    } else {
        Preview::Unavailable
    }
}

/// The address that serves the content of the file `id`.
pub fn media_url(id: i64) -> (res: String)
    ensures
        res@ == "/api/media/"@ + spec_signed_decimal(id as int),
{
    let mut url = String::from_str("/api/media/");
    let n = signed_decimal(id);
    url.append(n.as_str());
    url
}

/// Where a search leads: the trimmed pattern and the encoded filters.
#[derive(Debug)]
pub struct SearchRoute {
    pub pattern: String,
    pub filters: String,
}

/// The route of a search for `pattern` with the given filter states.
pub fn search_route(pattern: &str, filters: &[bool]) -> (res: SearchRoute)
    ensures
        res.pattern@ == trim_ws(pattern@),
        res.filters@ == spec_encode_filters(filters@),
{
    SearchRoute { pattern: trim(pattern), filters: encode_filters(filters) }
}

/// Law: each kind of preview belongs to exactly one file type: images are
/// shown as images, text as text, sounds as sounds and videos as videos;
/// every other type has no preview.
pub proof fn lemma_preview_of_types(file_type: Seq<char>)
    ensures
        spec_preview(file_type) == Preview::Image <==> file_type == "images"@,
        spec_preview(file_type) == Preview::Text <==> file_type == "text"@,
        spec_preview(file_type) == Preview::Sound <==> file_type == "sounds"@,
        spec_preview(file_type) == Preview::Video <==> file_type == "videos"@,
{
    reveal_strlit("images");
    reveal_strlit("text");
    reveal_strlit("sounds");
    reveal_strlit("videos");
    assert("images"@ != "text"@ && "images"@ != "sounds"@ && "images"@ != "videos"@) by {
        assert("images"@.len() != "text"@.len());
        assert("images"@[0] != "sounds"@[0]);
        assert("images"@[0] != "videos"@[0]);
    }
    assert("text"@ != "sounds"@ && "text"@ != "videos"@) by {
        assert("text"@.len() != "sounds"@.len());
        assert("text"@.len() != "videos"@.len());
    }
    assert("sounds"@ != "videos"@) by {
        assert("sounds"@[0] != "videos"@[0]);
    }
}

/// Law: every file type of the default configuration but `web` has a
/// preview, and the four of them have four different previews.
pub proof fn lemma_default_types_previewed()
    ensures
        forall|i: int| 0 <= i < default_file_types().len() && default_file_types()[i].0 != "web"@
            ==> spec_preview(#[trigger] default_file_types()[i].0) != Preview::Unavailable,
        forall|i: int, j: int| 0 <= i < default_file_types().len() && 0 <= j < default_file_types().len() && i != j
            && spec_preview(default_file_types()[i].0) != Preview::Unavailable
            ==> spec_preview(#[trigger] default_file_types()[i].0) != spec_preview(#[trigger] default_file_types()[j].0),
{
    lemma_preview_of_types("images"@);
    lemma_preview_of_types("videos"@);
    lemma_preview_of_types("sounds"@);
    lemma_preview_of_types("web"@);
    lemma_preview_of_types("text"@);
    reveal_strlit("images");
    reveal_strlit("videos");
    reveal_strlit("sounds");
    reveal_strlit("web");
    reveal_strlit("text");
    assert("web"@.len() != "images"@.len() && "web"@.len() != "text"@.len() && "web"@.len() != "sounds"@.len()
        && "web"@.len() != "videos"@.len());
}

} // verus!
