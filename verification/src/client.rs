//! The logic of the web client: its configuration, the encoding of the file
//! type filters in a URL, completion of the search input, and how results
//! are shown.
use vstd::prelude::*;
use vstd::string::StringExecFns;
use crate::paths::{path_relative_to, relative_to, to_lowercase, unicode_lowercase};
use crate::text::{chars_of, contains_str, has_substring, join, join_with, push_char, split_whitespace, str_eq, whitespace_words};
use crate::tokens::views;

verus! {

/// The name of the client's configuration file.
pub const CLIENT_CONFIG_NAME: &'static str = "tipiak_app.toml";

/// The environment variable that lists directories holding client configuration files.
pub const CLIENT_CONFIG_PATH_ENV_KEY: &'static str = "TIPIAK_APP_CONFIG_PATH";

/// The environment variable that names the storage directory.
pub const STORAGE_DIR_ENV_KEY: &'static str = "TIPIAK_APP_STORAGE_DIR";

/// The client's configuration.
#[derive(Debug)]
pub struct Config {
    /// The directory whose files are searched.
    pub storage_dir: String,
}

impl Config {
    /// A configuration with an empty storage directory.
    pub fn new() -> (res: Config)
        ensures
            res.storage_dir@ == Seq::<char>::empty(),
    {
        Config { storage_dir: String::new() }
    }

    /// Takes over every setting of `other`.
    pub fn update(&mut self, other: &Config)
        ensures
            final(self).storage_dir@ == other.storage_dir@,
    {
        self.storage_dir = other.storage_dir.clone();
    }

    /// The configuration that layers read in order give: the last one, or
    /// an empty storage directory when there is none.
    pub fn from_layers(layers: &Vec<Config>) -> (res: Config)
        ensures
            layers@.len() == 0 ==> res.storage_dir@ == Seq::<char>::empty(),
            layers@.len() > 0 ==> res.storage_dir@ == layers@.last().storage_dir@,
    {
        let mut result = Config::new();
        let mut i: usize = 0;
        while i < layers.len()
            invariant
                i <= layers@.len(),
                i == 0 ==> result.storage_dir@ == Seq::<char>::empty(),
                i > 0 ==> result.storage_dir@ == layers@[i - 1].storage_dir@,
            decreases layers@.len() - i,
        {
            result.update(&layers[i]);
            i = i + 1;
        }
        result
    }
}

/// The character that stands for a filter state.
pub open spec fn filter_char(b: bool) -> char {
    if b { '1' } else { '0' }
}

/// The text of a list of filter states: `1` for a selected type, `0` else.
pub open spec fn spec_encode_filters(f: Seq<bool>) -> Seq<char> {
    f.map_values(|b: bool| filter_char(b))
}

/// The filter states a text stands for: `1` is selected, anything else not.
pub open spec fn spec_decode_filters(s: Seq<char>) -> Seq<bool> {
    s.map_values(|c: char| c == '1')
}

/// The text of a list of filter states.
pub fn encode_filters(filters: &[bool]) -> (res: String)
    ensures
        res@ == spec_encode_filters(filters@),
{
    let mut out = String::new();
    let mut i: usize = 0;
    while i < filters.len()
        invariant
            i <= filters@.len(),
            out@ == spec_encode_filters(filters@.take(i as int)),
        decreases filters@.len() - i,
    {
        push_char(&mut out, if filters[i] { '1' } else { '0' });
        assert(spec_encode_filters(filters@.take(i + 1)) =~= spec_encode_filters(filters@.take(i as int)).push(filter_char(filters@[i as int])));
        i = i + 1;
    }
    assert(filters@.take(filters@.len() as int) =~= filters@);
    out
}

/// The filter states a text stands for.
pub fn decode_filters(s: &str) -> (res: Vec<bool>)
    ensures
        res@ == spec_decode_filters(s@),
{
    let cs = chars_of(s);
    let mut out: Vec<bool> = Vec::new();
    let mut i: usize = 0;
    while i < cs.len()
        invariant
            cs@ == s@,
            i <= cs@.len(),
            out@ == spec_decode_filters(cs@.take(i as int)),
        decreases cs@.len() - i,
    {
        out.push(cs[i] == '1');
        assert(spec_decode_filters(cs@.take(i + 1)) =~= spec_decode_filters(cs@.take(i as int)).push(cs@[i as int] == '1'));
        i = i + 1;
    }
    assert(cs@.take(cs@.len() as int) =~= cs@);
    out
}

/// Decoding the text of filter states gives them back.
pub proof fn lemma_decode_encode_filters(f: Seq<bool>)
    ensures
        spec_decode_filters(spec_encode_filters(f)) == f,
{
    assert(spec_decode_filters(spec_encode_filters(f)) =~= f);
}

/// Encoding the filter states of a text made of `0` and `1` gives it back.
pub proof fn lemma_encode_decode_filters(s: Seq<char>)
    requires
        forall|i: int| 0 <= i < s.len() ==> #[trigger] s[i] == '0' || s[i] == '1',
    ensures
        spec_encode_filters(spec_decode_filters(s)) == s,
{
    assert(spec_encode_filters(spec_decode_filters(s)) =~= s);
}

/// The icons of the file types.
#[derive(Debug, Clone, Copy, PartialEq, Eq, Structural)]
pub enum Icon {
    Images,
    Videos,
    Sounds,
    Text,
    Web,
    Placeholder,
}

/// The icon of a file type, by its name.
pub open spec fn spec_icon_for_type(name: Seq<char>) -> Icon {
    if name == "images"@ {
        Icon::Images
    } else if name == "videos"@ {
        Icon::Videos
    } else if name == "sounds"@ {
        Icon::Sounds
    } else if name == "text"@ {
        Icon::Text
    } else if name == "web"@ {
        Icon::Web
    } else {
        Icon::Placeholder
    }
}

/// The icon of a file type, by its name; unknown types get the placeholder.
pub fn icon_for_type(file_type: &str) -> (res: Icon)
    ensures
        res == spec_icon_for_type(file_type@),
{
    if str_eq(file_type, "images") {
        Icon::Images
    } else if str_eq(file_type, "videos") {
        Icon::Videos
    } else if str_eq(file_type, "sounds") {
        Icon::Sounds
    } else if str_eq(file_type, "text") {
        Icon::Text
    } else if str_eq(file_type, "web") {
        Icon::Web
    } else {
        Icon::Placeholder
    }
}

/// Whether a token completes a pattern: some word of the lowercased pattern
/// occurs in the lowercased token.
pub open spec fn completes(pattern: Seq<char>, token: Seq<char>) -> bool {
    exists|i: int| 0 <= i < whitespace_words(unicode_lowercase(pattern)).len()
        && has_substring(unicode_lowercase(token), #[trigger] whitespace_words(unicode_lowercase(pattern))[i])
}

/// The tokens that complete a pattern, in order; none for an empty pattern.
pub open spec fn spec_completion(pattern: Seq<char>, tokens: Seq<Seq<char>>) -> Seq<Seq<char>> {
    if pattern.len() == 0 {
        Seq::empty()
    } else {
        tokens.filter(|t: Seq<char>| completes(pattern, t))
    }
}

/// Whether `token` completes `pattern` (see `completes`).
fn completes_pattern(words: &Vec<String>, pattern: Ghost<Seq<char>>, token: &str) -> (res: bool)
    requires
        views(words@) == whitespace_words(unicode_lowercase(pattern@)),
    ensures
        res == completes(pattern@, token@),
{
    let lower = to_lowercase(token);
    let mut i: usize = 0;
    while i < words.len()
        invariant
            i <= words@.len(),
            views(words@) == whitespace_words(unicode_lowercase(pattern@)),
            lower@ == unicode_lowercase(token@),
            forall|j: int| 0 <= j < i ==> !has_substring(lower@, #[trigger] views(words@)[j]),
        decreases words@.len() - i,
    {
        if contains_str(lower.as_str(), words[i].as_str()) {
            assert(has_substring(unicode_lowercase(token@), views(words@)[i as int]));
            return true;
        }
        i = i + 1;
    }
    false
}

/// The tokens that complete the search input `pattern` (see `spec_completion`).
pub fn completion(pattern: &str, tokens: &Vec<String>) -> (res: Vec<String>)
    ensures
        views(res@) == spec_completion(pattern@, views(tokens@)),
{
    if pattern.is_empty() {
        let none: Vec<String> = Vec::new();
        assert(views(none@) =~= Seq::<Seq<char>>::empty());
        return none;
    }
    let lower = to_lowercase(pattern);
    let words = split_whitespace(lower.as_str());
    let ghost ts = views(tokens@);
    let mut out: Vec<String> = Vec::new();
    let mut i: usize = 0;
    while i < tokens.len()
        invariant
            i <= tokens@.len(),
            pattern@.len() > 0,
            ts == views(tokens@),
            views(words@) == whitespace_words(unicode_lowercase(pattern@)),
            views(out@) == ts.take(i as int).filter(|t: Seq<char>| completes(pattern@, t)),
        decreases tokens@.len() - i,
    {
        proof {
            reveal_with_fuel(Seq::filter, 1);
            assert(ts.take(i + 1).drop_last() =~= ts.take(i as int));
        }
        let ghost before = views(out@);
        if completes_pattern(&words, Ghost(pattern@), tokens[i].as_str()) {
            let c = tokens[i].clone();
            out.push(c);
            assert(views(out@) =~= before.push(ts[i as int]));
        }
        i = i + 1;
    }
    assert(ts.take(tokens@.len() as int) =~= ts);
    out
}

/// The names of the selected file types, in order.
pub open spec fn selected_names(names: Seq<Seq<char>>, filters: Seq<bool>) -> Seq<Seq<char>>
    decreases names.len(),
{
    if names.len() == 0 {
        Seq::empty()
    } else {
        let r = selected_names(names.drop_last(), filters);
        if filters[names.len() - 1] {
            r.push(names.last())
        } else {
            r
        }
    }
}

/// The filter text of a search: the names of the selected file types,
/// separated by `|`. The i-th filter state selects the i-th type.
pub fn selected_file_types(names: &Vec<String>, filters: &Vec<bool>) -> (res: String)
    requires
        filters@.len() >= names@.len(),
    ensures
        res@ == join_with(selected_names(views(names@), filters@), "|"@),
{
    let ghost ns = views(names@);
    let mut picked: Vec<String> = Vec::new();
    let mut i: usize = 0;
    while i < names.len()
        invariant
            i <= names@.len(),
            filters@.len() >= names@.len(),
            ns == views(names@),
            views(picked@) == selected_names(ns.take(i as int), filters@),
        decreases names@.len() - i,
    {
        proof {
            assert(ns.take(i + 1).drop_last() =~= ns.take(i as int));
        }
        let ghost before = views(picked@);
        if filters[i] {
            let c = names[i].clone();
            picked.push(c);
            assert(views(picked@) =~= before.push(ns[i as int]));
        }
        i = i + 1;
    }
    assert(ns.take(names@.len() as int) =~= ns);
    join(picked.as_slice(), "|")
}

/// How a found file's path is shown: relative to the storage directory when
/// it lies under it, else as it is.
pub open spec fn spec_display_path(path: Seq<char>, storage_dir: Seq<char>) -> Seq<char> {
    match path_relative_to(path, storage_dir) {
        Some(r) => r,
        None => path,
    }
}

/// How a found file's path is shown (see `spec_display_path`).
pub fn display_path(path: &str, storage_dir: &str) -> (res: String)
    ensures
        res@ == spec_display_path(path@, storage_dir@),
{
    match relative_to(path, storage_dir) {
        Some(r) => r,
        None => String::from_str(path),
    }
}

} // verus!
