//! Splitting text into search tokens: maximal runs of ASCII letters and
//! digits, lowercased, without English and French stop words and without
//! single digits.
use vstd::prelude::*;
use crate::text::{chars_of, join_with, lemma_runs_join, lemma_runs_where_shape, run_pred, runs_where, str_eq, string_from_chars, RunKind};

verus! {

/// The maximal runs of ASCII letters and digits in `s`, left to right.
pub open spec fn alnum_runs(s: Seq<char>) -> Seq<Seq<char>> {
    runs_where(s, run_pred(RunKind::AsciiAlnum))
}

#[verifier::external_type_specification]
#[verifier::external_body]
pub struct ExRegex(regex::Regex);

/// The compiled pattern `[a-zA-Z0-9]+`. Only `alnum_regex` makes one.
pub struct AlnumRegex {
    re: regex::Regex,
}

/// `Regex::new("[a-zA-Z0-9]+")`, which compiles: the pattern is valid.
#[verifier::external_body]
fn alnum_regex() -> (res: AlnumRegex) {
    AlnumRegex { re: regex::Regex::new(r"[a-zA-Z0-9]+").unwrap() }
}

/// `Regex::find_iter` of `[a-zA-Z0-9]+` over `text`: the successive leftmost
/// non-overlapping matches, which for this pattern are the maximal runs of
/// ASCII letters and digits.
#[verifier::external_body]
fn find_alnum_runs(re: &AlnumRegex, text: &str) -> (res: Vec<String>)
    ensures
        res@.map_values(|s: String| s@) == alnum_runs(text@),
{
    re.re.find_iter(text).map(|m| m.as_str().to_string()).collect()
}

/// The stop words that `stop_words::get` gives for a language code.
pub uninterp spec fn stop_word_list(code: Seq<char>) -> Seq<Seq<char>>;

/// `stop_words::get(code)` for the English ("en") or French ("fr") list.
/// Claimed: the result is `stop_word_list(code)`.
#[verifier::external_body]
fn stop_words_get(code: &str) -> (res: Vec<String>)
    requires
        code@ == "en"@ || code@ == "fr"@,
    ensures
        res@.map_values(|s: String| s@) == stop_word_list(code@),
{
    stop_words::get(code).iter().map(|w| w.to_string()).collect()
}

/// The English stop words followed by the French ones.
pub open spec fn spec_stop_words() -> Seq<Seq<char>> {
    stop_word_list("en"@) + stop_word_list("fr"@)
}

/// ASCII lowercase of one character.
pub open spec fn lower_char(c: char) -> char {
    if 'A' <= c && c <= 'Z' {
        (((c as u8) + 32) as u8) as char
    } else {
        c
    }
}

/// ASCII lowercase of a string; on ASCII text it is what `str::to_lowercase` gives.
pub open spec fn ascii_lower(s: Seq<char>) -> Seq<char> {
    s.map_values(|c: char| lower_char(c))
}

/// A lowercased run is kept as a token unless it is a stop word or a single digit.
pub open spec fn keeps_token(t: Seq<char>) -> bool {
    &&& !spec_stop_words().contains(t)
    &&& !(t.len() == 1 && '0' <= t[0] && t[0] <= '9')
}

/// The tokens of `s` up to order and repetition: the lowercased runs of ASCII
/// letters and digits that are kept.
pub open spec fn spec_tokens(s: Seq<char>) -> Set<Seq<char>> {
    alnum_runs(s).map_values(|r: Seq<char>| ascii_lower(r)).filter(|t: Seq<char>| keeps_token(t)).to_set()
}

/// Whether `c` is a lowercase ASCII letter or a digit.
pub open spec fn is_lower_alnum(c: char) -> bool {
    ('a' <= c && c <= 'z') || ('0' <= c && c <= '9')
}

/// Every token is made of lowercase ASCII letters and digits, is not empty,
/// is neither a stop word nor a single digit, and is the lowercase form of a
/// run of letters and digits of the text.
pub proof fn lemma_token_shape(s: Seq<char>, t: Seq<char>)
    requires
        spec_tokens(s).contains(t),
    ensures
        t.len() > 0,
        forall|j: int| 0 <= j < t.len() ==> is_lower_alnum(#[trigger] t[j]),
        keeps_token(t),
        alnum_runs(s).map_values(|r: Seq<char>| ascii_lower(r)).contains(t),
{
    let lowered = alnum_runs(s).map_values(|r: Seq<char>| ascii_lower(r));
    let kept = lowered.filter(|t: Seq<char>| keeps_token(t));
    assert(kept.contains(t));
    let i = choose|i: int| 0 <= i < kept.len() && kept[i] == t;
    lowered.lemma_filter_contains_rev(|t: Seq<char>| keeps_token(t), t);
    lowered.lemma_filter_pred(|t: Seq<char>| keeps_token(t), i);
    assert(lowered.contains(t));
    let k = choose|k: int| 0 <= k < lowered.len() && lowered[k] == t;
    lemma_runs_where_shape(s, run_pred(RunKind::AsciiAlnum));
    let r = alnum_runs(s)[k];
    assert(r.len() > 0 && forall|j: int| 0 <= j < r.len() ==> run_pred(RunKind::AsciiAlnum)(#[trigger] r[j]));
    assert(t == ascii_lower(r));
    assert forall|j: int| 0 <= j < t.len() implies is_lower_alnum(#[trigger] t[j]) by {
        assert(run_pred(RunKind::AsciiAlnum)(r[j]));
        assert(t[j] == lower_char(r[j]));
        let c = r[j];
        if 'A' <= c && c <= 'Z' {
            assert((((c as u8) + 32) as u8) as char == lower_char(c));
        }
    }
}

/// Whether `t` is in the form of a token: not empty, made of lowercase
/// ASCII letters and digits, neither a stop word nor a single digit.
pub open spec fn is_token(t: Seq<char>) -> bool {
    &&& t.len() > 0
    &&& forall|j: int| 0 <= j < t.len() ==> is_lower_alnum(#[trigger] t[j])
    &&& keeps_token(t)
}

/// Filtering a sequence whose elements all pass leaves it as it is.
proof fn lemma_filter_all(ts: Seq<Seq<char>>)
    requires
        forall|k: int| 0 <= k < ts.len() ==> keeps_token(#[trigger] ts[k]),
    ensures
        ts.filter(|t: Seq<char>| keeps_token(t)) == ts,
    decreases ts.len(),
{
    reveal_with_fuel(Seq::filter, 1);
    if ts.len() > 0 {
        let init = ts.drop_last();
        assert forall|k: int| 0 <= k < init.len() implies keeps_token(#[trigger] init[k]) by {
            assert(init[k] == ts[k]);
        }
        lemma_filter_all(init);
        assert(keeps_token(ts[ts.len() - 1]));
        assert(init.push(ts.last()) =~= ts);
    }
}

/// Law: a text made of tokens separated by spaces tokenizes back to those
/// tokens. What the crawler stores for a file (its tokens joined by spaces)
/// holds exactly the tokens it was made from, so a search for any of them
/// finds it.
pub proof fn lemma_retokenize(ts: Seq<Seq<char>>)
    requires
        forall|k: int| 0 <= k < ts.len() ==> is_token(#[trigger] ts[k]),
    ensures
        spec_tokens(join_with(ts, seq![' '])) == ts.to_set(),
{
    let p = run_pred(RunKind::AsciiAlnum);
    assert forall|k: int| 0 <= k < ts.len() implies (#[trigger] ts[k]).len() > 0 by {
        assert(is_token(ts[k]));
    }
    assert forall|k: int, i: int| 0 <= k < ts.len() && 0 <= i < ts[k].len() implies p(#[trigger] ts[k][i]) by {
        assert(is_token(ts[k]));
        assert(is_lower_alnum(ts[k][i]));
    }
    lemma_runs_join(ts, ' ', p);
    assert(alnum_runs(join_with(ts, seq![' '])) == ts);
    assert forall|k: int| 0 <= k < ts.len() implies #[trigger] ascii_lower(ts[k]) == ts[k] by {
        assert(is_token(ts[k]));
        assert forall|j: int| 0 <= j < ts[k].len() implies #[trigger] lower_char(ts[k][j]) == ts[k][j] by {
            assert(is_lower_alnum(ts[k][j]));
        }
        assert(ascii_lower(ts[k]) =~= ts[k]);
    }
    let lowered = ts.map_values(|r: Seq<char>| ascii_lower(r));
    assert(lowered =~= ts);
    assert forall|k: int| 0 <= k < ts.len() implies keeps_token(#[trigger] ts[k]) by {
        assert(is_token(ts[k]));
    }
    lemma_filter_all(ts);
}

/// The views of a vector of strings.
pub open spec fn views(v: Seq<String>) -> Seq<Seq<char>> {
    v.map_values(|s: String| s@)
}

/// A list of tokens that holds each token once, with the set of tokens it stands for.
pub open spec fn is_token_list(v: Seq<String>, set: Set<Seq<char>>) -> bool {
    &&& views(v).no_duplicates()
    &&& views(v).to_set() == set
}

/// What splitting text into tokens needs, made once and then used for many
/// texts: the stop words and the compiled pattern of a run.
pub struct TextTokenizer {
    words: Vec<String>,
    runs: AlnumRegex,
}

impl TextTokenizer {
    /// The words are the English and French stop words.
    pub closed spec fn wf(&self) -> bool {
        views(self.words@) == spec_stop_words()
    }

    /// Reads the English and French stop word lists and compiles the pattern.
    pub fn new() -> (res: TextTokenizer)
        ensures
            res.wf(),
    {
        let mut words = stop_words_get("en");
        let mut fr = stop_words_get("fr");
        let ghost en_v = views(words@);
        let ghost fr_v = views(fr@);
        words.append(&mut fr);
        proof {
            assert(views(words@) =~= en_v + fr_v);
        }
        TextTokenizer { words, runs: alnum_regex() }
    }

    /// Whether `t` is a stop word.
    pub fn contains(&self, t: &str) -> (res: bool)
        requires
            self.wf(),
        ensures
            res == spec_stop_words().contains(t@),
    {
        let mut i: usize = 0;
        while i < self.words.len()
            invariant
                i <= self.words@.len(),
                views(self.words@) == spec_stop_words(),
                forall|j: int| 0 <= j < i ==> spec_stop_words()[j] != t@,
            decreases self.words@.len() - i,
        {
            if str_eq(self.words[i].as_str(), t) {
                assert(spec_stop_words()[i as int] == t@);
                return true;
            }
            i = i + 1;
        }
        false
    }

    /// The tokens of `text`, each once.
    pub fn tokenize(&self, text: &str) -> (res: Vec<String>)
        requires
            self.wf(),
        ensures
            is_token_list(res@, spec_tokens(text@)),
    {
        let runs = find_alnum_runs(&self.runs, text);
        let ghost rs = alnum_runs(text@);
        let ghost lowered = rs.map_values(|r: Seq<char>| ascii_lower(r));
        let mut tokens: Vec<String> = Vec::new();
        let mut i: usize = 0;
        proof {
            reveal_with_fuel(Seq::filter, 1);
            assert(lowered.take(0) =~= Seq::<Seq<char>>::empty());
            assert(views(tokens@) =~= Seq::<Seq<char>>::empty());
            assert(views(tokens@).to_set() =~= lowered.take(0).filter(|t: Seq<char>| keeps_token(t)).to_set());
        }
        while i < runs.len()
            invariant
                i <= runs@.len(),
                views(runs@) == rs,
                lowered == rs.map_values(|r: Seq<char>| ascii_lower(r)),
                self.wf(),
                is_token_list(tokens@, lowered.take(i as int).filter(|t: Seq<char>| keeps_token(t)).to_set()),
            decreases runs@.len() - i,
        {
            let low = lowercase_ascii(runs[i].as_str());
            assert(low@ == lowered[i as int]);
            let keep = !self.contains(low.as_str()) && !is_single_digit(low.as_str());
            proof {
                reveal_with_fuel(Seq::filter, 1);
                assert(lowered.take(i + 1).drop_last() =~= lowered.take(i as int));
            }
            if keep {
                push_unique(&mut tokens, low);
            }
            proof {
                let prev = lowered.take(i as int).filter(|t: Seq<char>| keeps_token(t));
                let next = lowered.take(i + 1).filter(|t: Seq<char>| keeps_token(t));
                if keeps_token(lowered[i as int]) {
                    assert(next == prev.push(lowered[i as int]));
                    prev.lemma_push_to_set_commute(lowered[i as int]);
                } else {
                    assert(next == prev);
                }
            }
            i = i + 1;
        }
        proof {
            assert(lowered.take(runs@.len() as int) =~= lowered);
        }
        tokens
    }
}

/// Appends `s` unless the list already holds it.
pub fn push_unique(v: &mut Vec<String>, s: String)
    requires
        views(old(v)@).no_duplicates(),
    ensures
        views(final(v)@).no_duplicates(),
        views(final(v)@).to_set() == views(old(v)@).to_set().insert(s@),
{
    let mut i: usize = 0;
    while i < v.len()
        invariant
            i <= v@.len(),
            views(v@).no_duplicates(),
            v@ == old(v)@,
            forall|j: int| 0 <= j < i ==> v@[j]@ != s@,
        decreases v@.len() - i,
    {
        if str_eq(v[i].as_str(), s.as_str()) {
            proof {
                assert(views(v@).contains(s@)) by {
                    assert(views(v@)[i as int] == s@);
                }
                assert(views(v@).to_set().insert(s@) =~= views(v@).to_set());
            }
            return;
        }
        i = i + 1;
    }
    let ghost before = views(v@);
    v.push(s);
    proof {
        assert(views(v@) =~= before.push(s@));
        assert(!before.contains(s@)) by {
            if before.contains(s@) {
                let j = choose|j: int| 0 <= j < before.len() && before[j] == s@;
                assert(v@[j]@ == s@);
            }
        }
        assert forall|a: int, b: int| 0 <= a < views(v@).len() && 0 <= b < views(v@).len() && a != b
            implies views(v@)[a] != views(v@)[b] by {
            if a < before.len() && b < before.len() {
            } else if a < before.len() {
                assert(before.contains(before[a]));
            } else {
                assert(before.contains(before[b]));
            }
        }
        before.lemma_push_to_set_commute(s@);
    }
}

/// Adds each string of `new` that the list does not hold yet.
pub fn extend_unique(v: &mut Vec<String>, new: &Vec<String>)
    requires
        views(old(v)@).no_duplicates(),
    ensures
        views(final(v)@).no_duplicates(),
        views(final(v)@).to_set() == views(old(v)@).to_set().union(views(new@).to_set()),
{
    let ghost start = views(v@).to_set();
    let ghost all_new = views(new@);
    let mut i: usize = 0;
    assert(start.union(all_new.take(0).to_set()) =~= start);
    while i < new.len()
        invariant
            i <= new@.len(),
            views(new@) == all_new,
            views(v@).no_duplicates(),
            views(v@).to_set() == start.union(all_new.take(i as int).to_set()),
        decreases new@.len() - i,
    {
        let s = new[i].clone();
        push_unique(v, s);
        proof {
            assert(all_new.take(i + 1) =~= all_new.take(i as int).push(all_new[i as int]));
            all_new.take(i as int).lemma_push_to_set_commute(all_new[i as int]);
            assert(views(v@).to_set() =~= start.union(all_new.take(i + 1).to_set()));
        }
        i = i + 1;
    }
    assert(all_new.take(new@.len() as int) =~= all_new);
}

/// Whether `t` is a single ASCII digit.
fn is_single_digit(t: &str) -> (res: bool)
    ensures
        res == (t@.len() == 1 && '0' <= t@[0] && t@[0] <= '9'),
{
    let cs = chars_of(t);
    cs.len() == 1 && '0' <= cs[0] && cs[0] <= '9'
}

/// ASCII lowercase of `s`.
pub fn lowercase_ascii(s: &str) -> (res: String)
    ensures
        res@ == ascii_lower(s@),
{
    let cs = chars_of(s);
    let mut out: Vec<char> = Vec::new();
    let mut i: usize = 0;
    while i < cs.len()
        invariant
            i <= cs@.len(),
            cs@ == s@,
            out@ == ascii_lower(cs@.take(i as int)),
        decreases cs@.len() - i,
    {
        let c = cs[i];
        let l = if 'A' <= c && c <= 'Z' { ((c as u8) + 32) as char } else { c };
        out.push(l);
        proof {
            assert(ascii_lower(cs@.take(i + 1)) =~= ascii_lower(cs@.take(i as int)).push(lower_char(c)));
        }
        i = i + 1;
    }
    proof {
        assert(cs@.take(cs@.len() as int) =~= cs@);
    }
    string_from_chars(out.as_slice())
}

/// The tokens of `text`, each once: the lowercased maximal runs of ASCII
/// letters and digits, without stop words and single digits.
pub fn tokenize_string(text: &str) -> (res: Vec<String>)
    ensures
        is_token_list(res@, spec_tokens(text@)),
{
    let tokenizer = TextTokenizer::new();
    tokenizer.tokenize(text)
}

} // verus!
