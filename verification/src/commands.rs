//! The commands of the command line client, as parsed values.
use vstd::prelude::*;
use vstd::string::StringExecFns;
use crate::searcher::{FileTypeFilters, split_on};
use crate::tokens::views;

verus! {

/// The directory a command works on: the given one, or the current directory.
pub open spec fn root_or_current(path: Option<Seq<char>>) -> Seq<char> {
    match path {
        Some(p) => p,
        None => "."@,
    }
}

fn root_of(path: &Option<String>) -> (res: String)
    ensures
        res@ == root_or_current(match path { Some(p) => Some(p@), None => None }),
{
    match path {
        Some(p) => p.clone(),
        None => String::from_str("."),
    }
}

/// Crawls a directory and tokenizes its files.
pub struct CrawlCommand {
    /// The root directory to crawl; the current directory when absent.
    pub path: Option<String>,
    /// Delete the database file first, when there is one.
    pub reset: bool,
}

impl CrawlCommand {
    /// The root directory to crawl.
    pub fn root_dir(&self) -> (res: String)
        ensures
            res@ == root_or_current(match self.path { Some(p) => Some(p@), None => None }),
    {
        root_of(&self.path)
    }
}

/// Searches files by key words.
pub struct SearchCommand {
    /// The words to search.
    pub pattern: String,
    /// The file types to search, separated by `|`, such as `images|videos`.
    pub filters: Option<String>,
    /// The root directory to search; the current directory when absent.
    pub path: Option<String>,
}

impl SearchCommand {
    /// The root directory to search.
    pub fn root_dir(&self) -> (res: String)
        ensures
            res@ == root_or_current(match self.path { Some(p) => Some(p@), None => None }),
    {
        root_of(&self.path)
    }

    /// The file type filters of the search, when given.
    pub fn file_type_filters(&self) -> (res: Option<FileTypeFilters>)
        ensures
            match res {
                Some(f) => self.filters matches Some(s) && views(f.file_type_names@) == split_on(s@, '|'),
                None => self.filters is None,
            },
    {
        match &self.filters {
            Some(f) => Some(FileTypeFilters::from_string(f.clone())),
            None => None,
        }
    }
}

/// Watches a directory and crawls it whenever a file is created in it.
pub struct WatchCommand {
    /// The root directory to watch; the current directory when absent.
    pub path: Option<String>,
}

impl WatchCommand {
    /// The root directory to watch.
    pub fn root_dir(&self) -> (res: String)
        ensures
            res@ == root_or_current(match self.path { Some(p) => Some(p@), None => None }),
    {
        root_of(&self.path)
    }
}

} // verus!
