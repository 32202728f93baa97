//! The search engine's configuration: which extensions make up each file
//! type, and where the database lives.
use vstd::prelude::*;
use vstd::string::StringExecFns;
use crate::paths::{join_path, spec_join_path, str_views, to_lowercase, unicode_lowercase};
use crate::text::{opt_view, str_eq};

verus! {

/// The name of the configuration file.
pub const CONFIG_NAME: &'static str = "tipiak_se.toml";

/// The environment variable that lists directories holding configuration files.
pub const CONFIG_PATH_ENV_KEY: &'static str = "TIPIAK_SE_CONFIG_PATH";

/// The environment variable that names the directory of the database.
pub const DB_OVERRIDE_PATH_ENV_KEY: &'static str = "TIPIAK_SE_DB_OVERRIDE_PATH";

/// The name of the database file.
pub const DB_NAME: &'static str = "tipiak_se.db";

/// The search engine's configuration.
#[derive(Debug)]
pub struct Config {
    /// Each file type's name with the extensions of its files, lowercase.
    pub file_types: Vec<(String, Vec<String>)>,
    /// The directory of the database, when it is not the crawled root.
    pub db_override_path: Option<String>,
}

/// The text of a file type list.
pub open spec fn file_types_view(v: Seq<(String, Vec<String>)>) -> Seq<(Seq<char>, Seq<Seq<char>>)> {
    v.map_values(|e: (String, Vec<String>)| (e.0@, e.1@.map_values(|s: String| s@)))
}

/// The text of a configuration.
pub struct ConfigView {
    pub file_types: Seq<(Seq<char>, Seq<Seq<char>>)>,
    pub db_override_path: Option<Seq<char>>,
}

impl View for Config {
    type V = ConfigView;

    open spec fn view(&self) -> ConfigView {
        ConfigView { file_types: file_types_view(self.file_types@), db_override_path: opt_view(self.db_override_path) }
    }
}

/// The names of file types, in order.
pub open spec fn type_names(types: Seq<(Seq<char>, Seq<Seq<char>>)>) -> Seq<Seq<char>> {
    types.map_values(|e: (Seq<char>, Seq<Seq<char>>)| e.0)
}

/// The file types of the default configuration.
pub open spec fn default_file_types() -> Seq<(Seq<char>, Seq<Seq<char>>)> {
    seq![
        ("images"@, seq!["tiff"@, "jpeg"@, "jpg"@, "heif"@, "png"@, "webp"@]),
        ("videos"@, seq!["mp4"@, "mov"@, "avi"@]),
        ("sounds"@, seq!["mp3"@, "wav"@]),
        ("web"@, seq!["zim"@]),
        ("text"@, seq!["txt"@, "md"@, "html"@]),
    ]
}

/// The default configuration: five file types and the database in the crawled root.
pub open spec fn default_config() -> ConfigView {
    ConfigView { file_types: default_file_types(), db_override_path: None }
}

fn strings(items: &[&str]) -> (res: Vec<String>)
    ensures
        res@.map_values(|s: String| s@) == str_views(items@),
{
    let mut out: Vec<String> = Vec::new();
    let mut i: usize = 0;
    while i < items.len()
        invariant
            i <= items@.len(),
            out@.map_values(|s: String| s@) == str_views(items@).take(i as int),
        decreases items@.len() - i,
    {
        let ghost before = out@.map_values(|s: String| s@);
        out.push(String::from_str(items[i]));
        assert(out@.map_values(|s: String| s@) =~= before.push(items@[i as int]@));
        assert(str_views(items@).take(i + 1) =~= str_views(items@).take(i as int).push(items@[i as int]@));
        i = i + 1;
    }
    assert(str_views(items@).take(items@.len() as int) =~= str_views(items@));
    out
}

fn copy_strings(v: &Vec<String>) -> (res: Vec<String>)
    ensures
        res@.map_values(|s: String| s@) == v@.map_values(|s: String| s@),
{
    let mut out: Vec<String> = Vec::new();
    let mut i: usize = 0;
    while i < v.len()
        invariant
            i <= v@.len(),
            out@.map_values(|s: String| s@) == v@.map_values(|s: String| s@).take(i as int),
        decreases v@.len() - i,
    {
        let ghost before = out@.map_values(|s: String| s@);
        let c = v[i].clone();
        out.push(c);
        assert(out@.map_values(|s: String| s@) =~= before.push(v@[i as int]@));
        assert(v@.map_values(|s: String| s@).take(i + 1) =~= v@.map_values(|s: String| s@).take(i as int).push(v@[i as int]@));
        i = i + 1;
    }
    assert(v@.map_values(|s: String| s@).take(v@.len() as int) =~= v@.map_values(|s: String| s@));
    out
}

fn copy_file_types(v: &Vec<(String, Vec<String>)>) -> (res: Vec<(String, Vec<String>)>)
    ensures
        file_types_view(res@) == file_types_view(v@),
{
    let mut out: Vec<(String, Vec<String>)> = Vec::new();
    let mut i: usize = 0;
    while i < v.len()
        invariant
            i <= v@.len(),
            file_types_view(out@) == file_types_view(v@).take(i as int),
        decreases v@.len() - i,
    {
        let ghost before = file_types_view(out@);
        let name = v[i].0.clone();
        let exts = copy_strings(&v[i].1);
        out.push((name, exts));
        assert(file_types_view(out@) =~= before.push(file_types_view(v@)[i as int]));
        assert(file_types_view(v@).take(i + 1) =~= file_types_view(v@).take(i as int).push(file_types_view(v@)[i as int]));
        i = i + 1;
    }
    assert(file_types_view(v@).take(v@.len() as int) =~= file_types_view(v@));
    out
}

/// The name of the first file type whose extensions include `ext`.
pub open spec fn first_type_with(types: Seq<(Seq<char>, Seq<Seq<char>>)>, ext: Seq<char>) -> Option<Seq<char>>
    decreases types.len(),
{
    if types.len() == 0 {
        None
    } else if types[0].1.contains(ext) {
        Some(types[0].0)
    } else {
        first_type_with(types.drop_first(), ext)
    }
}

/// The file type of an extension: the first type listing it, lowercased.
pub open spec fn spec_file_type_of(c: ConfigView, ext: Seq<char>) -> Option<Seq<char>> {
    first_type_with(c.file_types, unicode_lowercase(ext))
}

/// The directory that holds the database of a crawled root.
pub open spec fn db_dir(c: ConfigView, root_dir: Seq<char>) -> Seq<char> {
    match c.db_override_path {
        Some(p) => p,
        None => root_dir,
    }
}

/// The path of the database of a crawled root.
pub open spec fn spec_db_path(c: ConfigView, root_dir: Seq<char>) -> Seq<char> {
    spec_join_path(db_dir(c, root_dir), DB_NAME@)
}

/// The database path is the database file name appended to a directory.
pub proof fn lemma_db_path_ends_with_name(c: ConfigView, root_dir: Seq<char>)
    ensures
        spec_db_path(c, root_dir).len() >= DB_NAME@.len(),
        spec_db_path(c, root_dir).skip(spec_db_path(c, root_dir).len() - DB_NAME@.len()) == DB_NAME@,
{
    let d = db_dir(c, root_dir);
    let p = spec_db_path(c, root_dir);
    if d.len() == 0 || d.last() == '/' {
        assert(p.skip(p.len() - DB_NAME@.len()) =~= DB_NAME@);
    } else {
        assert(p.skip(p.len() - DB_NAME@.len()) =~= DB_NAME@);
    }
}

/// The configuration that layers give: the last layer read replaces the
/// whole configuration; with no layer, the default one.
pub open spec fn layered(layers: Seq<ConfigView>) -> ConfigView {
    if layers.len() == 0 {
        default_config()
    } else {
        layers.last()
    }
}

/// Whether `v` is one of `list`.
fn strings_contain(list: &Vec<String>, v: &str) -> (res: bool)
    ensures
        res == list@.map_values(|s: String| s@).contains(v@),
{
    let ghost views = list@.map_values(|s: String| s@);
    let mut i: usize = 0;
    while i < list.len()
        invariant
            i <= list@.len(),
            views == list@.map_values(|s: String| s@),
            forall|j: int| 0 <= j < i ==> views[j] != v@,
        decreases list@.len() - i,
    {
        if str_eq(list[i].as_str(), v) {
            assert(views[i as int] == v@);
            return true;
        }
        i = i + 1;
    }
    false
}

impl Config {
    /// Each file type name occurs once, as in a map from names to extensions.
    pub open spec fn wf(&self) -> bool {
        type_names(self@.file_types).no_duplicates()
    }

    /// The default configuration (see `default_config`).
    pub fn default_config() -> (res: Config)
        ensures
            res@ == default_config(),
            res.wf(),
    {
        let a1 = ["tiff", "jpeg", "jpg", "heif", "png", "webp"];
        let a2 = ["mp4", "mov", "avi"];
        let a3 = ["mp3", "wav"];
        let a4 = ["zim"];
        let a5 = ["txt", "md", "html"];
        assert(str_views(a1@) =~= default_file_types()[0].1);
        assert(str_views(a2@) =~= default_file_types()[1].1);
        assert(str_views(a3@) =~= default_file_types()[2].1);
        assert(str_views(a4@) =~= default_file_types()[3].1);
        assert(str_views(a5@) =~= default_file_types()[4].1);
        let file_types = vec![
            (String::from_str("images"), strings(a1.as_slice())),
            (String::from_str("videos"), strings(a2.as_slice())),
            (String::from_str("sounds"), strings(a3.as_slice())),
            (String::from_str("web"), strings(a4.as_slice())),
            (String::from_str("text"), strings(a5.as_slice())),
        ];
        let res = Config { file_types, db_override_path: None };
        assert(res@.file_types =~= default_file_types());
        proof {
            reveal_strlit("images");
            reveal_strlit("videos");
            reveal_strlit("sounds");
            reveal_strlit("web");
            reveal_strlit("text");
            let names = type_names(default_file_types());
            assert(names =~= seq!["images"@, "videos"@, "sounds"@, "web"@, "text"@]);
            assert forall|a: int, b: int| 0 <= a < names.len() && 0 <= b < names.len() && a != b
                implies names[a] != names[b] by {
                assert(names[a][0] != names[b][0] || names[a].len() != names[b].len());
            }
        }
        res
    }

    /// A configuration as a file states it: the default file types when the
    /// file gives none.
    pub fn from_file_settings(file_types: Option<Vec<(String, Vec<String>)>>, db_override_path: Option<String>) -> (res: Config)
        requires
            file_types matches Some(t) ==> type_names(file_types_view(t@)).no_duplicates(),
        ensures
            res.wf(),
            res@.file_types == match file_types {
                Some(t) => file_types_view(t@),
                None => default_file_types(),
            },
            res@.db_override_path == opt_view(db_override_path),
    {
        let file_types = match file_types {
            Some(t) => t,
            None => Config::default_config().file_types,
        };
        Config { file_types, db_override_path }
    }

    /// Takes over every setting of `other`.
    pub fn update(&mut self, other: &Config)
        ensures
            final(self)@ == other@,
    {
        self.file_types = copy_file_types(&other.file_types);
        self.db_override_path = match &other.db_override_path {
            Some(p) => Some(p.clone()),
            None => None,
        };
    }

    /// The configuration that layers read in order give (see `layered`).
    pub fn from_layers(layers: &Vec<Config>) -> (res: Config)
        ensures
            res@ == layered(layers@.map_values(|c: Config| c@)),
            (forall|i: int| 0 <= i < layers@.len() ==> (#[trigger] layers@[i]).wf()) ==> res.wf(),
    {
        let mut result = Config::default_config();
        let mut i: usize = 0;
        while i < layers.len()
            invariant
                i <= layers@.len(),
                result@ == layered(layers@.map_values(|c: Config| c@).take(i as int)),
            decreases layers@.len() - i,
        {
            result.update(&layers[i]);
            i = i + 1;
        }
        assert(layers@.map_values(|c: Config| c@).take(layers@.len() as int) =~= layers@.map_values(|c: Config| c@));
        result
    }

    /// The names of the file types, in order.
    pub fn file_type_names(&self) -> (res: Vec<String>)
        ensures
            res@.map_values(|s: String| s@) == self@.file_types.map_values(|e: (Seq<char>, Seq<Seq<char>>)| e.0),
    {
        let mut out: Vec<String> = Vec::new();
        let mut i: usize = 0;
        while i < self.file_types.len()
            invariant
                i <= self.file_types@.len(),
                out@.map_values(|s: String| s@) == self@.file_types.map_values(|e: (Seq<char>, Seq<Seq<char>>)| e.0).take(i as int),
            decreases self.file_types@.len() - i,
        {
            let ghost before = out@.map_values(|s: String| s@);
            let c = self.file_types[i].0.clone();
            out.push(c);
            assert(out@.map_values(|s: String| s@) =~= before.push(self.file_types@[i as int].0@));
            assert(self@.file_types.map_values(|e: (Seq<char>, Seq<Seq<char>>)| e.0).take(i + 1)
                =~= self@.file_types.map_values(|e: (Seq<char>, Seq<Seq<char>>)| e.0).take(i as int).push(self.file_types@[i as int].0@));
            i = i + 1;
        }
        assert(self@.file_types.map_values(|e: (Seq<char>, Seq<Seq<char>>)| e.0).take(self.file_types@.len() as int)
            =~= self@.file_types.map_values(|e: (Seq<char>, Seq<Seq<char>>)| e.0));
        out
    }

    /// The path of the database of the crawled root `root_dir`: the database
    /// file in the override directory, or else in the root.
    pub fn get_db_path(&self, root_dir: &str) -> (res: String)
        ensures
            res@ == spec_db_path(self@, root_dir@),
    {
        match &self.db_override_path {
            Some(p) => join_path(p.as_str(), DB_NAME),
            None => join_path(root_dir, DB_NAME),
        }
    }

    /// The name of the file type of an extension (see `spec_file_type_of`).
    pub fn get_file_type_from_ext(&self, ext: &str) -> (res: Option<String>)
        ensures
            opt_view(res) == spec_file_type_of(self@, ext@),
    {
        let lower = to_lowercase(ext);
        let ghost types = self@.file_types;
        let mut i: usize = 0;
        assert(types.skip(0) =~= types);
        while i < self.file_types.len()
            invariant
                i <= self.file_types@.len(),
                types == self@.file_types,
                lower@ == unicode_lowercase(ext@),
                first_type_with(types, lower@) == first_type_with(types.skip(i as int), lower@),
            decreases self.file_types@.len() - i,
        {
            proof {
                assert(types.skip(i as int)[0] == types[i as int]);
                assert(types.skip(i as int).drop_first() =~= types.skip(i + 1));
            }
            assert(types[i as int] == (self.file_types@[i as int].0@, self.file_types@[i as int].1@.map_values(|s: String| s@)));
            if strings_contain(&self.file_types[i].1, lower.as_str()) {
                let name = self.file_types[i].0.clone();
                assert(name@ == types[i as int].0);
                return Some(name);
            }
            i = i + 1;
        }
        None
    }
}

} // verus!
