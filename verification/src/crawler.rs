//! The decisions of a crawl: whether to set up the database, which files
//! under the root to record and under which type, and what to store of
//! their tokens. Walking the directory and talking to the database are
//! left to the caller.
use vstd::prelude::*;
use vstd::string::StringExecFns;
use crate::config::{Config, ConfigView, DB_NAME, spec_file_type_of};
use crate::paths::{extension_of, path_extension};
use crate::queries::{CREATE_FILES_TABLE_QUERY, CREATE_FILE_TYPES_TABLE_QUERY, CREATE_TOKENS_TABLE_QUERY};
use crate::text::{join, join_with, str_eq, whitespace_words, split_whitespace};
use crate::tokens::{extend_unique, is_token_list, views};

verus! {

/// The script that creates the tables of a new database, in one transaction.
pub open spec fn spec_schema_sql() -> Seq<char> {
    "BEGIN;"@ + "\n"@ + CREATE_FILE_TYPES_TABLE_QUERY@ + "\n"@ + CREATE_FILES_TABLE_QUERY@ + "\n"@
        + CREATE_TOKENS_TABLE_QUERY@ + "\nCOMMIT;"@
}

/// The script that creates the tables of a new database (see `spec_schema_sql`).
pub fn schema_sql() -> (res: String)
    ensures
        res@ == spec_schema_sql(),
{
    let mut sql = String::from_str("BEGIN;");
    sql.append("\n");
    sql.append(CREATE_FILE_TYPES_TABLE_QUERY);
    sql.append("\n");
    sql.append(CREATE_FILES_TABLE_QUERY);
    sql.append("\n");
    sql.append(CREATE_TOKENS_TABLE_QUERY);
    sql.append("\nCOMMIT;");
    sql
}

/// How a crawl starts with the database.
#[derive(Debug, Clone, Copy, PartialEq, Eq, Structural)]
pub struct CrawlStart {
    /// Delete the existing database file first.
    pub remove_database: bool,
    /// Create the tables (see `schema_sql`).
    pub create_schema: bool,
}

/// How a crawl starts: a reset deletes an existing database; the tables are
/// created when there is no database left.
pub fn crawl_start(db_exists: bool, reset: bool) -> (res: CrawlStart)
    ensures
        res.remove_database == (reset && db_exists),
        res.create_schema == (!db_exists || reset),
{
    CrawlStart { remove_database: reset && db_exists, create_schema: !db_exists || reset }
}

/// What the crawler does with one entry of the directory walk.
#[derive(Debug)]
pub enum EntryAction {
    /// Not a regular file, the database itself, or a path that is not text.
    Skip,
    /// A file without extension.
    NoExtension,
    /// A file whose extension no file type lists.
    Unsupported(String),
    /// A file to record under the named file type.
    Record(String),
}

/// The views of an `EntryAction`.
pub enum EntryActionView {
    Skip,
    NoExtension,
    Unsupported(Seq<char>),
    Record(Seq<char>),
}

impl View for EntryAction {
    type V = EntryActionView;

    open spec fn view(&self) -> EntryActionView {
        match self {
            EntryAction::Skip => EntryActionView::Skip,
            EntryAction::NoExtension => EntryActionView::NoExtension,
            EntryAction::Unsupported(e) => EntryActionView::Unsupported(e@),
            EntryAction::Record(t) => EntryActionView::Record(t@),
        }
    }
}

/// What the crawler does with an entry: regular files other than the
/// database, whose path is text, are recorded under the file type of their
/// extension.
pub open spec fn spec_entry_action(c: ConfigView, is_file: bool, file_name: Seq<char>, path: Option<Seq<char>>) -> EntryActionView {
    if !is_file || file_name == DB_NAME@ || path is None {
        EntryActionView::Skip
    } else {
        match path_extension(path->Some_0) {
            None => EntryActionView::NoExtension,
            Some(ext) => match spec_file_type_of(c, ext) {
                Some(t) => EntryActionView::Record(t),
                None => EntryActionView::Unsupported(ext),
            },
        }
    }
}

/// What the crawler does with an entry of the walk (see `spec_entry_action`).
pub fn entry_action(config: &Config, is_file: bool, file_name: &str, path: Option<&str>) -> (res: EntryAction)
    ensures
        res@ == spec_entry_action(config@, is_file, file_name@, match path { Some(p) => Some(p@), None => None }),
{
    if !is_file || str_eq(file_name, DB_NAME) {
        return EntryAction::Skip;
    }
    let p = match path {
        Some(p) => p,
        None => return EntryAction::Skip,
    };
    match extension_of(p) {
        None => EntryAction::NoExtension,
        Some(ext) => match config.get_file_type_from_ext(ext.as_str()) {
            Some(t) => EntryAction::Record(t),
            None => EntryAction::Unsupported(ext),
        },
    }
}

/// The content stored for the tokens of a file: the tokens separated by
/// spaces; `None` when there is no token and nothing is stored.
pub fn tokens_content(tokens: &Vec<String>) -> (res: Option<String>)
    ensures
        match res {
            Some(c) => tokens@.len() > 0 && c@ == join_with(views(tokens@), " "@),
            None => tokens@.len() == 0,
        },
{
    if tokens.len() == 0 {
        None
    } else {
        Some(join(tokens.as_slice(), " "))
    }
}

/// The tokens stored in content rows.
pub open spec fn content_tokens(rows: Seq<Seq<char>>) -> Set<Seq<char>>
    decreases rows.len(),
{
    if rows.len() == 0 {
        Set::empty()
    } else {
        content_tokens(rows.drop_last()).union(whitespace_words(rows.last()).to_set())
    }
}

/// All the tokens stored in the content rows of the index, each once.
pub fn tokens_of_contents(rows: &Vec<String>) -> (res: Vec<String>)
    ensures
        is_token_list(res@, content_tokens(views(rows@))),
{
    let ghost rs = views(rows@);
    let mut out: Vec<String> = Vec::new();
    let mut i: usize = 0;
    assert(views(out@).to_set() =~= Set::<Seq<char>>::empty());
    while i < rows.len()
        invariant
            i <= rows@.len(),
            rs == views(rows@),
            views(out@).no_duplicates(),
            views(out@).to_set() == content_tokens(rs.take(i as int)),
        decreases rows@.len() - i,
    {
        proof {
            assert(rs.take(i + 1).drop_last() =~= rs.take(i as int));
        }
        let words = split_whitespace(rows[i].as_str());
        extend_unique(&mut out, &words);
        i = i + 1;
    }
    assert(rs.take(rows@.len() as int) =~= rs);
    out
}

/// The (path, file type) views of files found by a walk.
pub open spec fn file_views(rows: Seq<(String, String)>) -> Seq<(Seq<char>, Seq<char>)> {
    rows.map_values(|r: (String, String)| (r.0@, r.1@))
}

/// The paths of (path, file type) pairs.
pub open spec fn file_paths(rows: Seq<(Seq<char>, Seq<char>)>) -> Seq<Seq<char>> {
    rows.map_values(|r: (Seq<char>, Seq<char>)| r.0)
}

/// The files a crawl adds to the index, in walk order: each file found whose
/// canonical path is neither in the index yet (`known`) nor found earlier in
/// the walk, with the file type it was found under.
pub open spec fn spec_new_files(known: Seq<Seq<char>>, found: Seq<(Seq<char>, Seq<char>)>) -> Seq<(Seq<char>, Seq<char>)>
    decreases found.len(),
{
    if found.len() == 0 {
        Seq::empty()
    } else {
        let prev = spec_new_files(known, found.drop_last());
        let f = found.last();
        if known.contains(f.0) || file_paths(prev).contains(f.0) {
            prev
        } else {
            prev.push(f)
        }
    }
}

/// Whether one of the strings is `p`.
fn holds_string(v: &Vec<String>, p: &str) -> (res: bool)
    ensures
        res == views(v@).contains(p@),
{
    let mut i: usize = 0;
    while i < v.len()
        invariant
            i <= v@.len(),
            forall|j: int| 0 <= j < i ==> v@[j]@ != p@,
        decreases v@.len() - i,
    {
        if str_eq(v[i].as_str(), p) {
            assert(views(v@)[i as int] == p@);
            return true;
        }
        i = i + 1;
    }
    proof {
        if views(v@).contains(p@) {
            let j = choose|j: int| 0 <= j < views(v@).len() && views(v@)[j] == p@;
            assert(v@[j]@ == p@);
        }
    }
    false
}

/// Whether one of the files has path `p`.
fn holds_path(rows: &Vec<(String, String)>, p: &str) -> (res: bool)
    ensures
        res == file_paths(file_views(rows@)).contains(p@),
{
    let mut i: usize = 0;
    while i < rows.len()
        invariant
            i <= rows@.len(),
            forall|j: int| 0 <= j < i ==> rows@[j].0@ != p@,
        decreases rows@.len() - i,
    {
        if str_eq(rows[i].0.as_str(), p) {
            assert(file_paths(file_views(rows@))[i as int] == p@);
            return true;
        }
        i = i + 1;
    }
    proof {
        if file_paths(file_views(rows@)).contains(p@) {
            let j = choose|j: int| 0 <= j < file_paths(file_views(rows@)).len() && file_paths(file_views(rows@))[j] == p@;
            assert(rows@[j].0@ == p@);
        }
    }
    false
}

/// The files a crawl adds to the index (see `spec_new_files`), from the
/// paths the index holds and the (canonical path, file type) pairs of the
/// files the walk records, in walk order.
pub fn new_files(known: &Vec<String>, found: &Vec<(String, String)>) -> (res: Vec<(String, String)>)
    ensures
        file_views(res@) == spec_new_files(views(known@), file_views(found@)),
{
    let ghost k = views(known@);
    let ghost fv = file_views(found@);
    let mut rows: Vec<(String, String)> = Vec::new();
    let mut i: usize = 0;
    assert(fv.take(0) =~= Seq::<(Seq<char>, Seq<char>)>::empty());
    assert(file_views(rows@) =~= Seq::<(Seq<char>, Seq<char>)>::empty());
    while i < found.len()
        invariant
            i <= found@.len(),
            k == views(known@),
            fv == file_views(found@),
            file_views(rows@) == spec_new_files(k, fv.take(i as int)),
        decreases found@.len() - i,
    {
        proof {
            assert(fv.take(i + 1).drop_last() =~= fv.take(i as int));
            assert(fv.take(i + 1).last() == fv[i as int]);
        }
        let p = found[i].0.as_str();
        if !holds_string(known, p) && !holds_path(&rows, p) {
            let ghost before = file_views(rows@);
            rows.push((found[i].0.clone(), found[i].1.clone()));
            assert(file_views(rows@) =~= before.push(fv[i as int]));
        }
        i = i + 1;
    }
    assert(fv.take(found@.len() as int) =~= fv);
    rows
}

/// The rows a crawl adds have paths not yet known and each found once, and
/// every path found is known or added.
proof fn lemma_new_files_facts(known: Seq<Seq<char>>, found: Seq<(Seq<char>, Seq<char>)>)
    ensures
        file_paths(spec_new_files(known, found)).no_duplicates(),
        forall|i: int| 0 <= i < spec_new_files(known, found).len()
            ==> !known.contains(#[trigger] spec_new_files(known, found)[i].0)
                && found.contains(spec_new_files(known, found)[i]),
        forall|j: int| 0 <= j < found.len()
            ==> known.contains(#[trigger] found[j].0) || file_paths(spec_new_files(known, found)).contains(found[j].0),
    decreases found.len(),
{
    if found.len() > 0 {
        let init = found.drop_last();
        lemma_new_files_facts(known, init);
        let prev = spec_new_files(known, init);
        let f = found.last();
        let res = spec_new_files(known, found);
        assert forall|i: int| 0 <= i < res.len() implies !known.contains(#[trigger] res[i].0) && found.contains(res[i]) by {
            if i < prev.len() {
                assert(res[i] == prev[i]);
                assert(!known.contains(prev[i].0));
                let j = choose|j: int| 0 <= j < init.len() && init[j] == prev[i];
                assert(found[j] == init[j]);
            } else {
                assert(res[i] == f);
                assert(found[found.len() - 1] == f);
            }
        }
        if !(known.contains(f.0) || file_paths(prev).contains(f.0)) {
            assert(file_paths(res) =~= file_paths(prev).push(f.0));
            assert forall|a: int, b: int| 0 <= a < file_paths(res).len() && 0 <= b < file_paths(res).len() && a != b
                implies file_paths(res)[a] != file_paths(res)[b] by {
                if a < prev.len() && b < prev.len() {
                } else if a < prev.len() {
                    assert(file_paths(prev).contains(file_paths(prev)[a]));
                } else {
                    assert(file_paths(prev).contains(file_paths(prev)[b]));
                }
            }
        }
        assert forall|j: int| 0 <= j < found.len()
            implies known.contains(#[trigger] found[j].0) || file_paths(res).contains(found[j].0) by {
            if j < init.len() {
                assert(found[j] == init[j]);
                if !known.contains(init[j].0) {
                    let q = choose|q: int| 0 <= q < file_paths(prev).len() && file_paths(prev)[q] == init[j].0;
                    if res != prev {
                        assert(file_paths(res)[q] == file_paths(prev)[q]);
                    }
                }
            } else {
                assert(found[j] == f);
                if !known.contains(f.0) && !file_paths(prev).contains(f.0) {
                    assert(file_paths(res)[prev.len() as int] == f.0);
                }
            }
        }
    }
}

/// Law: a crawl adds each file found whose path is not known yet exactly
/// once, with a file type it was found under, and adds no known path; after
/// it, the index holds every path found and no path twice.
pub proof fn lemma_new_files_complete(known: Seq<Seq<char>>, found: Seq<(Seq<char>, Seq<char>)>)
    requires
        known.no_duplicates(),
    ensures
        ({
            let added = spec_new_files(known, found);
            let after = known + file_paths(added);
            &&& after.no_duplicates()
            &&& forall|i: int| 0 <= i < added.len() ==> found.contains(#[trigger] added[i])
            &&& forall|j: int| 0 <= j < found.len() ==> after.contains(#[trigger] found[j].0)
            &&& forall|p: Seq<char>| after.contains(p) ==> known.contains(p) || file_paths(found).contains(p)
        }),
{
    lemma_new_files_facts(known, found);
    let added = spec_new_files(known, found);
    let ap = file_paths(added);
    let after = known + ap;
    assert forall|a: int, b: int| 0 <= a < after.len() && 0 <= b < after.len() && a != b implies after[a] != after[b] by {
        if a >= known.len() && b < known.len() {
            assert(after[a] == added[a - known.len()].0);
            assert(known.contains(after[b]));
        } else if a < known.len() && b >= known.len() {
            assert(after[b] == added[b - known.len()].0);
            assert(known.contains(after[a]));
        } else if a >= known.len() && b >= known.len() {
            assert(after[a] == ap[a - known.len()] && after[b] == ap[b - known.len()]);
        }
    }
    lemma_found_in_after(known, found);
    assert forall|i: int| 0 <= i < added.len() implies found.contains(#[trigger] added[i]) by {
        assert(!known.contains(added[i].0));
    }
    assert forall|p: Seq<char>| after.contains(p) implies known.contains(p) || file_paths(found).contains(p) by {
        let q = choose|q: int| 0 <= q < after.len() && after[q] == p;
        if q < known.len() {
            assert(known[q] == p);
        } else {
            let i = q - known.len();
            assert(added[i].0 == p);
            assert(!known.contains(added[i].0));
            assert(found.contains(added[i]));
            let j = choose|j: int| 0 <= j < found.len() && found[j] == added[i];
            assert(file_paths(found)[j] == p);
        }
    }
}

/// Law: crawling again what was just crawled adds nothing: once the files a
/// crawl adds are in the index, the same walk adds no file.
pub proof fn lemma_crawl_idempotent(known: Seq<Seq<char>>, found: Seq<(Seq<char>, Seq<char>)>)
    ensures
        spec_new_files(known + file_paths(spec_new_files(known, found)), found).len() == 0,
{
    let after = known + file_paths(spec_new_files(known, found));
    lemma_found_in_after(known, found);
    lemma_nothing_new(after, found, found.len() as int);
    assert(found.take(found.len() as int) =~= found);
}

/// When every path found is known, no prefix of the walk adds a file.
proof fn lemma_nothing_new(known: Seq<Seq<char>>, found: Seq<(Seq<char>, Seq<char>)>, n: int)
    requires
        0 <= n <= found.len(),
        forall|j: int| 0 <= j < found.len() ==> known.contains(#[trigger] found[j].0),
    ensures
        spec_new_files(known, found.take(n)).len() == 0,
    decreases n,
{
    if n > 0 {
        lemma_nothing_new(known, found, n - 1);
        assert(found.take(n).drop_last() =~= found.take(n - 1));
        assert(found.take(n).last() == found[n - 1]);
    }
}

/// After a crawl, the index holds every path the walk found.
proof fn lemma_found_in_after(known: Seq<Seq<char>>, found: Seq<(Seq<char>, Seq<char>)>)
    ensures
        forall|j: int| 0 <= j < found.len()
            ==> (known + file_paths(spec_new_files(known, found))).contains(#[trigger] found[j].0),
{
    lemma_new_files_facts(known, found);
    let ap = file_paths(spec_new_files(known, found));
    let after = known + ap;
    assert forall|j: int| 0 <= j < found.len() implies after.contains(#[trigger] found[j].0) by {
        if known.contains(found[j].0) {
            let q = choose|q: int| 0 <= q < known.len() && known[q] == found[j].0;
            assert(after[q] == found[j].0);
        } else {
            assert(ap.contains(found[j].0));
            let q = choose|q: int| 0 <= q < ap.len() && ap[q] == found[j].0;
            assert(after[known.len() + q] == found[j].0);
        }
    }
}

} // verus!
