//! Searching the index: the file type filters, the full-text match
//! expression built from the search input, and the SQL of the queries.
use vstd::prelude::*;
use vstd::string::StringExecFns;
use dyn_fmt::AsStrFormatExt;
use crate::text::{chars_of, decimal_string, join, join_with, push_char, spec_decimal};
use crate::tokens::{is_token_list, spec_tokens, tokenize_string, views};
use crate::queries::{SEARCH_FILES_QUERY, SELECT_FILE_TYPES_BY_NAMES_QUERY};

verus! {

/// Whether `s` holds no brace.
pub open spec fn brace_free(s: Seq<char>) -> bool {
    forall|i: int| 0 <= i < s.len() ==> #[trigger] s[i] != '{' && s[i] != '}'
}

/// Whether `t` holds `{}` at `i` and no other brace.
pub open spec fn hole_at(t: Seq<char>, i: int) -> bool {
    &&& 0 <= i && i + 2 <= t.len()
    &&& t[i] == '{' && t[i + 1] == '}'
    &&& brace_free(t.take(i))
    &&& brace_free(t.skip(i + 2))
}

/// `t` with its `{}` at `i` replaced by `arg`.
pub open spec fn fill_hole(t: Seq<char>, i: int, arg: Seq<char>) -> Seq<char> {
    t.take(i) + arg + t.skip(i + 2)
}

/// `AsStrFormatExt::format` of `dyn_fmt` with one argument, on a template
/// that holds one `{}` and no other brace. Claimed: the `{}` is replaced by
/// the argument and the rest is copied.
#[verifier::external_body]
fn format_one(template: &str, arg: &str) -> (res: String)
    requires
        exists|i: int| hole_at(template@, i),
    ensures
        forall|i: int| hole_at(template@, i) ==> res@ == fill_hole(template@, i, arg@),
{
    template.format([arg])
}

proof fn lemma_search_query_hole()
    ensures
        hole_at(SEARCH_FILES_QUERY@, 172),
{
    reveal_strlit("SELECT f.id, f.path, f.type_id, t.name\n    FROM tokens\n    JOIN files f ON f.id = tokens.file_id\n    LEFT JOIN file_types t\n    ON f.type_id = t.id\n    WHERE tokens MATCH ?{}\n    ORDER BY RANK;");
    let t = SEARCH_FILES_QUERY@;
    assert(t.len() == 193);
    assert(t[172] == '{' && t[173] == '}');
    assert(brace_free(t.take(172)));
    assert(brace_free(t.skip(174)));
}

proof fn lemma_file_types_query_hole()
    ensures
        hole_at(SELECT_FILE_TYPES_BY_NAMES_QUERY@, 40),
{
    reveal_strlit("SELECT * FROM file_types WHERE name IN ({});");
    let t = SELECT_FILE_TYPES_BY_NAMES_QUERY@;
    assert(t.len() == 44);
    assert(t[40] == '{' && t[41] == '}');
    assert(brace_free(t.take(40)));
    assert(brace_free(t.skip(42)));
}

/// The pieces of `s` between occurrences of `c`, as `str::split` gives them:
/// one more piece than there are occurrences, empty pieces included.
pub open spec fn split_on(s: Seq<char>, c: char) -> Seq<Seq<char>>
    decreases s.len(),
{
    if s.len() == 0 {
        seq![Seq::empty()]
    } else {
        let p = split_on(s.drop_last(), c);
        if s.last() == c {
            p.push(Seq::empty())
        } else {
            p.update(p.len() - 1, p.last().push(s.last()))
        }
    }
}

/// `split_on` always gives at least one piece.
pub proof fn lemma_split_on_len(s: Seq<char>, c: char)
    ensures
        split_on(s, c).len() >= 1,
    decreases s.len(),
{
    if s.len() > 0 {
        lemma_split_on_len(s.drop_last(), c);
    }
}

/// The pieces of `s` between occurrences of `c`.
pub fn split_char(s: &str, c: char) -> (res: Vec<String>)
    ensures
        views(res@) == split_on(s@, c),
{
    let cs = chars_of(s);
    let mut pieces: Vec<String> = Vec::new();
    let mut cur = String::new();
    let mut i: usize = 0;
    proof {
        assert(cs@.take(0) =~= Seq::<char>::empty());
    }
    while i < cs.len()
        invariant
            cs@ == s@,
            i <= cs@.len(),
            views(pieces@).push(cur@) == split_on(cs@.take(i as int), c),
        decreases cs@.len() - i,
    {
        proof {
            assert(cs@.take(i + 1).drop_last() =~= cs@.take(i as int));
            lemma_split_on_len(cs@.take(i as int), c);
        }
        let ghost prev = views(pieces@).push(cur@);
        if cs[i] == c {
            let done = cur;
            pieces.push(done);
            cur = String::new();
            assert(views(pieces@).push(cur@) =~= prev.push(Seq::<char>::empty()));
        } else {
            push_char(&mut cur, cs[i]);
            assert(views(pieces@).push(cur@) =~= prev.update(prev.len() - 1, prev.last().push(cs@[i as int])));
        }
        i = i + 1;
    }
    assert(cs@.take(cs@.len() as int) =~= cs@);
    let ghost before = views(pieces@);
    pieces.push(cur);
    assert(views(pieces@) =~= before.push(cur@));
    pieces
}

/// Joining the pieces of a split with the separator gives back the text.
pub proof fn lemma_split_join(s: Seq<char>, c: char)
    ensures
        join_with(split_on(s, c), seq![c]) == s,
    decreases s.len(),
{
    if s.len() > 0 {
        let p = split_on(s.drop_last(), c);
        lemma_split_join(s.drop_last(), c);
        lemma_split_on_len(s.drop_last(), c);
        if s.last() == c {
            assert(p.push(Seq::empty()).drop_last() =~= p);
            assert(s =~= s.drop_last() + seq![c] + Seq::<char>::empty());
        } else {
            let q = p.update(p.len() - 1, p.last().push(s.last()));
            if p.len() == 1 {
                assert(join_with(p, seq![c]) == p[0]);
                assert(s =~= p[0].push(s.last()));
            } else {
                assert(q.drop_last() =~= p.drop_last());
                assert(join_with(p, seq![c]) == join_with(p.drop_last(), seq![c]) + seq![c] + p.last());
                assert(s =~= s.drop_last().push(s.last()));
                assert(s =~= join_with(p.drop_last(), seq![c]) + seq![c] + p.last().push(s.last()));
                assert(q.last() == p.last().push(s.last()));
                assert(join_with(q, seq![c]) == join_with(q.drop_last(), seq![c]) + seq![c] + q.last());
            }
        }
    }
}

/// Splitting a text that ends with `t`, free of `c`, extends the last piece by `t`.
proof fn lemma_split_append_free(s: Seq<char>, t: Seq<char>, c: char)
    requires
        !t.contains(c),
    ensures
        split_on(s + t, c) == ({
            let p = split_on(s, c);
            p.update(p.len() - 1, p.last() + t)
        }),
    decreases t.len(),
{
    lemma_split_on_len(s, c);
    if t.len() == 0 {
        assert(s + t =~= s);
        let p = split_on(s, c);
        assert(p.update(p.len() - 1, p.last() + t) =~= p);
    } else {
        let t0 = t.drop_last();
        assert(!t0.contains(c)) by {
            if t0.contains(c) {
                let j = choose|j: int| 0 <= j < t0.len() && t0[j] == c;
                assert(t[j] == c);
            }
        }
        lemma_split_append_free(s, t0, c);
        assert((s + t).drop_last() =~= s + t0);
        assert((s + t).last() == t.last());
        assert(t.last() != c) by {
            assert(t[t.len() - 1] == t.last());
        }
        let p = split_on(s, c);
        let q = p.update(p.len() - 1, p.last() + t0);
        assert(q.last() == p.last() + t0);
        assert(q.update(q.len() - 1, q.last().push(t.last())) =~= p.update(p.len() - 1, p.last() + t)) by {
            assert((p.last() + t0).push(t.last()) =~= p.last() + t);
        }
    }
}

/// Splitting the names joined by `c` gives back the names, when no name
/// holds `c`: a filter text made from file type names reads back as them.
pub proof fn lemma_join_split(names: Seq<Seq<char>>, c: char)
    requires
        names.len() >= 1,
        forall|i: int| 0 <= i < names.len() ==> !(#[trigger] names[i]).contains(c),
    ensures
        split_on(join_with(names, seq![c]), c) == names,
    decreases names.len(),
{
    if names.len() == 1 {
        lemma_split_append_free(Seq::empty(), names[0], c);
        assert(Seq::<char>::empty() + names[0] =~= names[0]);
        assert(split_on(Seq::<char>::empty(), c) =~= seq![Seq::<char>::empty()]);
        assert(seq![Seq::<char>::empty()].update(0, Seq::<char>::empty() + names[0]) =~= names);
    } else {
        let init = names.drop_last();
        assert forall|i: int| 0 <= i < init.len() implies !(#[trigger] init[i]).contains(c) by {
            assert(init[i] == names[i]);
        }
        lemma_join_split(init, c);
        let x = join_with(init, seq![c]);
        assert(names[names.len() - 1] == names.last());
        lemma_split_append_free(x + seq![c], names.last(), c);
        assert((x + seq![c]).drop_last() =~= x);
        let p = split_on(x + seq![c], c);
        assert(p == init.push(Seq::<char>::empty()));
        assert(x + seq![c] + names.last() == join_with(names, seq![c]));
        assert(p.update(p.len() - 1, p.last() + names.last()) =~= names) by {
            assert(Seq::<char>::empty() + names.last() =~= names.last());
        }
    }
}

/// The file types that a search is restricted to, by name.
#[derive(Debug)]
pub struct FileTypeFilters {
    pub file_type_names: Vec<String>,
}

/// `"?"` repeated `n` times, separated by `", "`.
pub open spec fn placeholders(n: nat) -> Seq<char>
    decreases n,
{
    if n == 0 {
        Seq::empty()
    } else if n == 1 {
        seq!['?']
    } else {
        placeholders((n - 1) as nat) + seq![',', ' ', '?']
    }
}

/// The query that finds the file types named by `n` parameters.
pub open spec fn file_types_sql(n: nat) -> Seq<char> {
    fill_hole(SELECT_FILE_TYPES_BY_NAMES_QUERY@, 40, placeholders(n))
}

impl FileTypeFilters {
    /// The names separated by `|` in `file_types`, as `str::split` cuts them.
    pub fn from_string(file_types: String) -> (res: FileTypeFilters)
        ensures
            views(res.file_type_names@) == split_on(file_types@, '|'),
    {
        FileTypeFilters { file_type_names: split_char(file_types.as_str(), '|') }
    }

    /// The query that finds the filtered file types, with one parameter per
    /// name; `None` when no name is given.
    pub fn file_types_query(&self) -> (res: Option<String>)
        ensures
            match res {
                Some(q) => self.file_type_names@.len() > 0 && q@ == file_types_sql(self.file_type_names@.len()),
                None => self.file_type_names@.len() == 0,
            },
    {
        let n = self.file_type_names.len();
        if n == 0 {
            return None;
        }
        let mut ph = String::new();
        let mut i: usize = 0;
        proof {
            reveal_strlit("?");
            reveal_strlit(", ?");
        }
        while i < n
            invariant
                i <= n,
                n == self.file_type_names@.len(),
                ph@ == placeholders(i as nat),
                "?"@ == seq!['?'],
                ", ?"@ == seq![',', ' ', '?'],
            decreases n - i,
        {
            if i == 0 {
                ph.append("?");
            } else {
                ph.append(", ?");
            }
            i = i + 1;
        }
        proof {
            lemma_file_types_query_hole();
        }
        Some(format_one(SELECT_FILE_TYPES_BY_NAMES_QUERY, ph.as_str()))
    }
}

/// A file in the index.
#[derive(Debug)]
pub struct File {
    pub id: i64,
    pub path: String,
    pub type_id: i64,
    pub file_type_name: String,
}

/// A file type in the index.
#[derive(Debug)]
pub struct FileType {
    pub id: i64,
    pub name: String,
}

/// Why a search could not run.
#[derive(Debug, Clone, Copy, PartialEq, Eq, Structural)]
pub enum SearchError {
    /// There is no database for the searched root.
    DatabaseNotFound,
}

impl SearchError {
    /// The message of the error.
    pub fn to_string(&self) -> (res: String)
        ensures
            res@ == ".db file not found"@,
    {
        String::from_str(".db file not found")
    }
}

/// What to look up in the index for a search input.
#[derive(Debug)]
pub struct SearchQuery {
    /// The tokens of the input, each once.
    pub tokens: Vec<String>,
    /// The full-text expression: the tokens separated by ` OR `.
    pub match_expr: String,
}

/// The first step of a search: without a database the search fails; an
/// input without tokens finds nothing (`None`); else the tokens of the input
/// and the expression that matches any of them.
pub fn search(db_exists: bool, input: &str) -> (res: Result<Option<SearchQuery>, SearchError>)
    ensures
        !db_exists ==> res == Err::<Option<SearchQuery>, SearchError>(SearchError::DatabaseNotFound),
        db_exists ==> match res {
            Ok(None) => spec_tokens(input@).is_empty(),
            Ok(Some(q)) => {
                &&& !spec_tokens(input@).is_empty()
                &&& is_token_list(q.tokens@, spec_tokens(input@))
                &&& q.match_expr@ == join_with(views(q.tokens@), " OR "@)
            },
            Err(_) => false,
        },
{
    if !db_exists {
        return Err(SearchError::DatabaseNotFound);
    }
    let tokens = tokenize_string(input);
    if tokens.len() == 0 {
        proof {
            assert(views(tokens@) =~= Seq::<Seq<char>>::empty());
            assert(views(tokens@).to_set() =~= Set::<Seq<char>>::empty());
        }
        return Ok(None);
    }
    proof {
        assert(views(tokens@).to_set().contains(views(tokens@)[0]));
    }
    let match_expr = join(tokens.as_slice(), " OR ");
    Ok(Some(SearchQuery { tokens, match_expr }))
}

/// The decimal text of a signed number.
pub open spec fn spec_signed_decimal(n: int) -> Seq<char> {
    if n < 0 {
        seq!['-'] + spec_decimal((-n) as nat)
    } else {
        spec_decimal(n as nat)
    }
}

/// The decimal text of a signed number, as `i64`'s `Display` writes it.
pub fn signed_decimal(n: i64) -> (res: String)
    ensures
        res@ == spec_signed_decimal(n as int),
{
    if n < 0 {
        let m: u64 = if n == i64::MIN { 9223372036854775808u64 } else { (-n) as u64 };
        let mut s = String::new();
        push_char(&mut s, '-');
        let d = decimal_string(m);
        s.append(d.as_str());
        s
    } else {
        decimal_string(n as u64)
    }
}

/// The file type condition of a search restricted to the types `ids`.
pub open spec fn type_condition(ids: Seq<i64>) -> Seq<char> {
    " AND f.type_id IN ("@ + join_with(ids.map_values(|id: i64| spec_signed_decimal(id as int)), ", "@) + ")"@
}

/// The search query, restricted to the file types `ids` when given.
pub open spec fn spec_search_sql(ids: Option<Seq<i64>>) -> Seq<char> {
    match ids {
        Some(v) => fill_hole(SEARCH_FILES_QUERY@, 172, type_condition(v)),
        None => fill_hole(SEARCH_FILES_QUERY@, 172, Seq::empty()),
    }
}

/// The SQL of a search, restricted to the file types `type_ids` when given.
pub fn search_sql(type_ids: Option<&Vec<i64>>) -> (res: String)
    ensures
        res@ == spec_search_sql(match type_ids { Some(v) => Some(v@), None => None }),
{
    proof {
        lemma_search_query_hole();
        reveal_strlit("");
    }
    match type_ids {
        Some(ids) => {
            let mut parts: Vec<String> = Vec::new();
            let mut i: usize = 0;
            while i < ids.len()
                invariant
                    i <= ids@.len(),
                    views(parts@) == ids@.take(i as int).map_values(|id: i64| spec_signed_decimal(id as int)),
                decreases ids@.len() - i,
            {
                let ghost before = views(parts@);
                parts.push(signed_decimal(ids[i]));
                assert(views(parts@) =~= before.push(spec_signed_decimal(ids@[i as int] as int)));
                assert(ids@.take(i + 1).map_values(|id: i64| spec_signed_decimal(id as int))
                    =~= ids@.take(i as int).map_values(|id: i64| spec_signed_decimal(id as int)).push(spec_signed_decimal(ids@[i as int] as int)));
                i = i + 1;
            }
            assert(ids@.take(ids@.len() as int) =~= ids@);
            let mut cond = String::from_str(" AND f.type_id IN (");
            let list = join(parts.as_slice(), ", ");
            cond.append(list.as_str());
            cond.append(")");
            format_one(SEARCH_FILES_QUERY, cond.as_str())
        },
        None => {
            let r = format_one(SEARCH_FILES_QUERY, "");
            assert(""@ =~= Seq::<char>::empty());
            r
        },
    }
}

} // verus!
