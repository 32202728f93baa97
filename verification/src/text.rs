//! Small text conversions taken from std, with what their documentation promises.
use vstd::prelude::*;
use vstd::utf8::{decode_utf8, valid_utf8};
use vstd::string::StringExecFns;

verus! {

/// Where a byte sequence stops being UTF-8, as `std::str::Utf8Error`
/// reports it: the length of the longest valid prefix, and the length of the
/// invalid sequence that follows it (`None` when the input ends in the middle
/// of a character).
#[derive(Debug, Clone, Copy, PartialEq, Eq, Structural)]
pub struct Utf8Failure {
    pub valid_up_to: usize,
    pub error_len: Option<usize>,
}

/// The largest `n <= i` such that the first `n` bytes of `b` are valid UTF-8.
pub open spec fn valid_prefix_len(b: Seq<u8>, i: nat) -> nat
    decreases i,
{
    if i == 0 || valid_utf8(b.take(i as int)) {
        i
    } else {
        valid_prefix_len(b, (i - 1) as nat)
    }
}

/// The length `Utf8Error::error_len` gives for the bytes `b` that are not
/// valid UTF-8: that of the invalid sequence after the longest valid prefix,
/// or `None` when the bytes end in the middle of a character.
pub uninterp spec fn utf8_error_len(b: Seq<u8>) -> Option<usize>;

/// What `String::from_utf8` reports for bytes that are not valid UTF-8.
pub open spec fn spec_utf8_failure(b: Seq<u8>) -> Utf8Failure {
    Utf8Failure { valid_up_to: valid_prefix_len(b, b.len()) as usize, error_len: utf8_error_len(b) }
}

/// `String::from_utf8`: succeeds exactly on valid UTF-8 input, and the
/// resulting string holds the characters the bytes encode. On failure,
/// `Utf8Error::valid_up_to` is, as its documentation says, the largest index
/// up to which the input is valid UTF-8; `error_len` is named by `utf8_error_len`.
#[verifier::external_body]
pub fn utf8_to_string(bytes: Vec<u8>) -> (res: Result<String, Utf8Failure>)
    ensures
        res is Ok <==> valid_utf8(bytes@),
        res matches Ok(s) ==> s@ == decode_utf8(bytes@),
        res matches Err(f) ==> f.valid_up_to == valid_prefix_len(bytes@, bytes@.len()) && f.error_len == utf8_error_len(bytes@),
{
    match String::from_utf8(bytes) {
        Ok(s) => Ok(s),
        Err(e) => Err(Utf8Failure { valid_up_to: e.utf8_error().valid_up_to(), error_len: e.utf8_error().error_len() }),
    }
}

impl Utf8Failure {
    /// The message describing the failure.
    pub open spec fn spec_message(self) -> Seq<char> {
        match self.error_len {
            Some(n) => "invalid utf-8 sequence of "@ + spec_decimal(n as nat) + " bytes from index "@
                + spec_decimal(self.valid_up_to as nat),
            None => "incomplete utf-8 byte sequence from index "@ + spec_decimal(self.valid_up_to as nat),
        }
    }

    /// The message describing the failure.
    pub fn to_string(&self) -> (s: String)
        ensures
            s@ == self.spec_message(),
    {
        match self.error_len {
            Some(n) => {
                let mut s = String::from_str("invalid utf-8 sequence of ");
                s.append(decimal_string(n as u64).as_str());
                s.append(" bytes from index ");
                s.append(decimal_string(self.valid_up_to as u64).as_str());
                s
            },
            None => {
                let mut s = String::from_str("incomplete utf-8 byte sequence from index ");
                s.append(decimal_string(self.valid_up_to as u64).as_str());
                s
            },
        }
    }
}

/// `String::push`: appends one character.
#[verifier::external_body]
pub fn push_char(s: &mut String, c: char)
    ensures
        final(s)@ == old(s)@.push(c),
{
    s.push(c)
}

/// The characters of the string, in order.
pub fn chars_of(s: &str) -> (res: Vec<char>)
    ensures
        res@ == s@,
{
    broadcast use vstd::string::axiom_spec_iter, vstd::string::next_postcondition;
    let mut out: Vec<char> = Vec::new();
    for c in it: s.chars()
        invariant
            out@ == it.seq().take(it.index() as int),
    {
        out.push(c);
    }
    out
}

/// Whether the two strings hold the same characters.
pub fn str_eq(a: &str, b: &str) -> (res: bool)
    ensures
        res == (a@ == b@),
{
    let x = chars_of(a);
    let y = chars_of(b);
    if x.len() != y.len() {
        return false;
    }
    let mut i: usize = 0;
    while i < x.len()
        invariant
            x@ == a@,
            y@ == b@,
            x@.len() == y@.len(),
            i <= x@.len(),
            forall|j: int| 0 <= j < i ==> x@[j] == y@[j],
        decreases x@.len() - i,
    {
        if x[i] != y[i] {
            return false;
        }
        i = i + 1;
    }
    assert(a@ =~= b@);
    true
}

/// Whether `c` has the Unicode `White_Space` property, which is what
/// `char::is_whitespace` tests.
pub open spec fn is_whitespace_char(c: char) -> bool {
    let u = c as u32;
    ||| 0x09 <= u && u <= 0x0D
    ||| u == 0x20
    ||| u == 0x85
    ||| u == 0xA0
    ||| u == 0x1680
    ||| 0x2000 <= u && u <= 0x200A
    ||| u == 0x2028
    ||| u == 0x2029
    ||| u == 0x202F
    ||| u == 0x205F
    ||| u == 0x3000
}

/// Whether `c` is white space, as `char::is_whitespace` tells.
pub fn is_whitespace(c: char) -> (res: bool)
    ensures
        res == is_whitespace_char(c),
{
    let u = c as u32;
    (0x09 <= u && u <= 0x0D) || u == 0x20 || u == 0x85 || u == 0xA0 || u == 0x1680
        || (0x2000 <= u && u <= 0x200A) || u == 0x2028 || u == 0x2029 || u == 0x202F || u == 0x205F
        || u == 0x3000
}

/// The decimal digit character for `d`.
pub open spec fn digit_char(d: nat) -> char {
    ((48 + d) as u8) as char
}

/// The decimal representation of `n`, without leading zeros.
pub open spec fn spec_decimal(n: nat) -> Seq<char>
    decreases n,
{
    if n < 10 {
        seq![digit_char(n)]
    } else {
        spec_decimal(n / 10).push(digit_char(n % 10))
    }
}

/// The decimal representation of `n`, as `u64`'s `Display` writes it.
pub fn decimal_string(n: u64) -> (res: String)
    ensures
        res@ == spec_decimal(n as nat),
    decreases n,
{
    let d = (n % 10) as u8;
    let c = (48u8 + d) as char;
    if n < 10 {
        let mut s = String::new();
        push_char(&mut s, c);
        s
    } else {
        let mut s = decimal_string(n / 10);
        push_char(&mut s, c);
        s
    }
}

/// Builds a `String` from a sequence of characters.
pub fn string_from_chars(cs: &[char]) -> (res: String)
    ensures
        res@ == cs@,
{
    let mut s = String::new();
    let mut i: usize = 0;
    while i < cs.len()
        invariant
            i <= cs@.len(),
            s@ == cs@.take(i as int),
        decreases cs@.len() - i,
    {
        push_char(&mut s, cs[i]);
        proof {
            assert(cs@.take(i as int).push(cs@[i as int]) =~= cs@.take(i + 1));
        }
        i = i + 1;
    }
    proof {
        assert(cs@.take(cs@.len() as int) =~= cs@);
    }
    s
}

/// The views of an optional string.
pub open spec fn opt_view(o: Option<String>) -> Option<Seq<char>> {
    match o {
        Some(s) => Some(s@),
        None => None,
    }
}

/// Length of the run of characters satisfying `p` at the start of `s`.
pub open spec fn run_len(s: Seq<char>, p: spec_fn(char) -> bool) -> nat
    decreases s.len(),
{
    if s.len() == 0 || !p(s[0]) {
        0
    } else {
        1 + run_len(s.drop_first(), p)
    }
}

/// The maximal runs of characters satisfying `p` in `s`, left to right.
pub open spec fn runs_where(s: Seq<char>, p: spec_fn(char) -> bool) -> Seq<Seq<char>>
    decreases s.len(),
{
    if s.len() == 0 {
        Seq::empty()
    } else if !p(s[0]) {
        runs_where(s.drop_first(), p)
    } else {
        let n = run_len(s, p);
        proof {
            lemma_run_len(s, p);
        }
        seq![s.take(n as int)] + runs_where(s.skip(n as int), p)
    }
}

/// The run at the start of a sequence lies within it, is not empty when the
/// sequence starts with a character of the run, and holds only such characters.
pub proof fn lemma_run_len(s: Seq<char>, p: spec_fn(char) -> bool)
    ensures
        run_len(s, p) <= s.len(),
        s.len() > 0 && p(s[0]) ==> run_len(s, p) >= 1,
        forall|i: int| 0 <= i < run_len(s, p) ==> p(#[trigger] s[i]),
        run_len(s, p) < s.len() ==> !p(s[run_len(s, p) as int]),
    decreases s.len(),
{
    if s.len() > 0 && p(s[0]) {
        lemma_run_len(s.drop_first(), p);
        assert forall|i: int| 0 <= i < run_len(s, p) implies p(#[trigger] s[i]) by {
            if i > 0 {
                assert(s[i] == s.drop_first()[i - 1]);
            }
        }
        if run_len(s, p) < s.len() {
            assert(s[run_len(s, p) as int] == s.drop_first()[run_len(s.drop_first(), p) as int]);
        }
    }
}

/// Runs do not cross a separator: the runs of `a`, a character outside the
/// runs and `b` are the runs of `a` followed by those of `b`.
pub proof fn lemma_runs_concat(a: Seq<char>, sep: char, b: Seq<char>, p: spec_fn(char) -> bool)
    requires
        !p(sep),
    ensures
        runs_where(a + seq![sep] + b, p) == runs_where(a, p) + runs_where(b, p),
    decreases a.len(),
{
    let s = a + seq![sep] + b;
    if a.len() == 0 {
        assert(s.drop_first() =~= b);
        assert(runs_where(a, p) =~= Seq::<Seq<char>>::empty());
        assert(Seq::<Seq<char>>::empty() + runs_where(b, p) =~= runs_where(b, p));
    } else if !p(a[0]) {
        assert(s[0] == a[0]);
        assert(s.drop_first() =~= a.drop_first() + seq![sep] + b);
        lemma_runs_concat(a.drop_first(), sep, b, p);
    } else {
        let k = run_len(a, p);
        lemma_run_len(a, p);
        assert(s[0] == a[0]);
        assert forall|i: int| 0 <= i < k implies p(#[trigger] s[i]) by {
            assert(s[i] == a[i]);
        }
        if k < a.len() {
            assert(s[k as int] == a[k as int]);
        } else {
            assert(s[k as int] == sep);
        }
        lemma_run_len_exact(s, p, k as int);
        assert(s.take(k as int) =~= a.take(k as int));
        assert(s.skip(k as int) =~= a.skip(k as int) + seq![sep] + b);
        lemma_runs_concat(a.skip(k as int), sep, b, p);
        assert(runs_where(s, p) == seq![s.take(k as int)] + runs_where(s.skip(k as int), p));
        assert(runs_where(a, p) == seq![a.take(k as int)] + runs_where(a.skip(k as int), p));
        assert(seq![a.take(k as int)] + (runs_where(a.skip(k as int), p) + runs_where(b, p))
            =~= (seq![a.take(k as int)] + runs_where(a.skip(k as int), p)) + runs_where(b, p));
    }
}

/// A non-empty text whose characters all belong to runs is one run.
pub proof fn lemma_runs_single(t: Seq<char>, p: spec_fn(char) -> bool)
    requires
        t.len() > 0,
        forall|i: int| 0 <= i < t.len() ==> p(#[trigger] t[i]),
    ensures
        runs_where(t, p) == seq![t],
{
    lemma_run_len_exact(t, p, t.len() as int);
    assert(t.take(t.len() as int) =~= t);
    assert(runs_where(t.skip(t.len() as int), p) =~= Seq::<Seq<char>>::empty()) by {
        assert(t.skip(t.len() as int).len() == 0);
    }
    assert(runs_where(t, p) == seq![t.take(t.len() as int)] + runs_where(t.skip(t.len() as int), p));
    assert(seq![t] + Seq::<Seq<char>>::empty() =~= seq![t]);
}

/// Runs joined by a character outside the runs split back into those runs.
pub proof fn lemma_runs_join(ts: Seq<Seq<char>>, sep: char, p: spec_fn(char) -> bool)
    requires
        !p(sep),
        forall|k: int| 0 <= k < ts.len() ==> (#[trigger] ts[k]).len() > 0,
        forall|k: int, i: int| 0 <= k < ts.len() && 0 <= i < ts[k].len() ==> p(#[trigger] ts[k][i]),
    ensures
        runs_where(join_with(ts, seq![sep]), p) == ts,
    decreases ts.len(),
{
    if ts.len() == 0 {
        assert(runs_where(Seq::<char>::empty(), p) =~= Seq::<Seq<char>>::empty());
    } else if ts.len() == 1 {
        assert(ts[0].len() > 0);
        lemma_runs_single(ts[0], p);
        assert(seq![ts[0]] =~= ts);
    } else {
        let init = ts.drop_last();
        assert forall|k: int| 0 <= k < init.len() implies (#[trigger] init[k]).len() > 0 by {
            assert(init[k] == ts[k]);
        }
        assert forall|k: int, i: int| 0 <= k < init.len() && 0 <= i < init[k].len() implies p(#[trigger] init[k][i]) by {
            assert(init[k] == ts[k]);
        }
        lemma_runs_join(init, sep, p);
        let last = ts[ts.len() - 1];
        assert(last == ts.last());
        assert(last.len() > 0);
        lemma_runs_single(last, p);
        lemma_runs_concat(join_with(init, seq![sep]), sep, last, p);
        assert(init + seq![last] =~= ts);
    }
}

/// Every run is non-empty and made of characters satisfying `p`.
pub proof fn lemma_runs_where_shape(s: Seq<char>, p: spec_fn(char) -> bool)
    ensures
        forall|k: int| 0 <= k < runs_where(s, p).len() ==> {
            let r = #[trigger] runs_where(s, p)[k];
            &&& r.len() > 0
            &&& forall|j: int| 0 <= j < r.len() ==> p(#[trigger] r[j])
        },
    decreases s.len(),
{
    if s.len() == 0 {
    } else if !p(s[0]) {
        lemma_runs_where_shape(s.drop_first(), p);
        assert(runs_where(s, p) == runs_where(s.drop_first(), p));
    } else {
        let n = run_len(s, p);
        lemma_run_len(s, p);
        lemma_runs_where_shape(s.skip(n as int), p);
        let rs = runs_where(s, p);
        assert(rs == seq![s.take(n as int)] + runs_where(s.skip(n as int), p));
        assert forall|k: int| 0 <= k < rs.len() implies {
            let r = #[trigger] rs[k];
            &&& r.len() > 0
            &&& forall|j: int| 0 <= j < r.len() ==> p(#[trigger] r[j])
        } by {
            if k == 0 {
                assert(rs[0] == s.take(n as int));
                assert forall|j: int| 0 <= j < n implies p(#[trigger] s.take(n as int)[j]) by {
                    assert(s.take(n as int)[j] == s[j]);
                }
            } else {
                assert(rs[k] == runs_where(s.skip(n as int), p)[k - 1]);
            }
        }
    }
}

/// A run of `k` characters satisfying `p` that ends at the end of `s` or
/// before a character that does not is the run at the start of `s`.
pub proof fn lemma_run_len_exact(s: Seq<char>, p: spec_fn(char) -> bool, k: int)
    requires
        0 <= k <= s.len(),
        forall|i: int| 0 <= i < k ==> p(#[trigger] s[i]),
        k == s.len() || !p(s[k]),
    ensures
        run_len(s, p) == k,
    decreases k,
{
    if k > 0 {
        let t = s.drop_first();
        assert forall|i: int| 0 <= i < k - 1 implies p(#[trigger] t[i]) by {
            assert(t[i] == s[i + 1]);
        }
        if k < s.len() {
            assert(t[k - 1] == s[k]);
        }
        lemma_run_len_exact(t, p, k - 1);
    }
}

/// The kinds of character runs that text is split into.
#[derive(Debug, Clone, Copy)]
pub enum RunKind {
    /// ASCII letters and digits.
    AsciiAlnum,
    /// Characters that are not white space.
    NonWhitespace,
}

/// Whether ASCII letter or digit.
pub open spec fn is_ascii_alnum(c: char) -> bool {
    ('a' <= c && c <= 'z') || ('A' <= c && c <= 'Z') || ('0' <= c && c <= '9')
}

/// Whether `c` belongs in a run of the given kind.
pub open spec fn in_run(kind: RunKind, c: char) -> bool {
    match kind {
        RunKind::AsciiAlnum => is_ascii_alnum(c),
        RunKind::NonWhitespace => !is_whitespace_char(c),
    }
}

/// The predicate of a run kind.
pub open spec fn run_pred(kind: RunKind) -> spec_fn(char) -> bool {
    |c: char| in_run(kind, c)
}

fn in_run_exec(kind: RunKind, c: char) -> (res: bool)
    ensures
        res == in_run(kind, c),
{
    match kind {
        RunKind::AsciiAlnum => ('a' <= c && c <= 'z') || ('A' <= c && c <= 'Z') || ('0' <= c && c <= '9'),
        RunKind::NonWhitespace => !is_whitespace(c),
    }
}

/// The maximal runs of the given kind in `cs`, left to right.
pub fn runs_of(cs: &[char], kind: RunKind) -> (res: Vec<String>)
    ensures
        res@.map_values(|s: String| s@) == runs_where(cs@, run_pred(kind)),
{
    let ghost s = cs@;
    let ghost p = run_pred(kind);
    let mut out: Vec<String> = Vec::new();
    let mut i: usize = 0;
    assert(s.skip(0) =~= s);
    while i < cs.len()
        invariant
            s == cs@,
            p == run_pred(kind),
            i <= s.len(),
            runs_where(s, p) == out@.map_values(|x: String| x@) + runs_where(s.skip(i as int), p),
        decreases s.len() - i,
    {
        let ghost t = s.skip(i as int);
        if !in_run_exec(kind, cs[i]) {
            assert(t.drop_first() =~= s.skip(i + 1));
            i = i + 1;
        } else {
            let mut j: usize = i + 1;
            while j < cs.len() && in_run_exec(kind, cs[j])
                invariant
                    s == cs@,
                    p == run_pred(kind),
                    i < j <= s.len(),
                    forall|m: int| i <= m < j ==> p(#[trigger] s[m]),
                decreases s.len() - j,
            {
                j = j + 1;
            }
            proof {
                assert forall|m: int| 0 <= m < j - i implies p(#[trigger] t[m]) by {
                    assert(t[m] == s[i + m]);
                }
                if j < s.len() {
                    assert(t[j - i] == s[j as int]);
                }
                lemma_run_len_exact(t, p, j - i);
                assert(t.take(j - i) =~= s.subrange(i as int, j as int));
                assert(t.skip(j - i) =~= s.skip(j as int));
            }
            let run = string_from_chars(vstd::slice::slice_subrange(cs, i, j));
            let ghost before = out@.map_values(|x: String| x@);
            out.push(run);
            proof {
                assert(out@.map_values(|x: String| x@) =~= before.push(s.subrange(i as int, j as int)));
                assert(before + runs_where(t, p) =~= out@.map_values(|x: String| x@) + runs_where(s.skip(j as int), p));
            }
            i = j;
        }
    }
    assert(runs_where(s.skip(i as int), p) =~= Seq::<Seq<char>>::empty()) by {
        assert(s.skip(i as int).len() == 0);
    }
    assert(out@.map_values(|x: String| x@) + Seq::<Seq<char>>::empty() =~= out@.map_values(|x: String| x@));
    out
}

/// The words of `s`: the maximal runs of characters that are not white space.
pub open spec fn whitespace_words(s: Seq<char>) -> Seq<Seq<char>> {
    runs_where(s, run_pred(RunKind::NonWhitespace))
}

/// `str::split_whitespace`: the words of `s`, in order.
pub fn split_whitespace(s: &str) -> (res: Vec<String>)
    ensures
        res@.map_values(|w: String| w@) == whitespace_words(s@),
{
    let cs = chars_of(s);
    runs_of(cs.as_slice(), RunKind::NonWhitespace)
}

/// The parts joined, with `sep` between consecutive parts.
pub open spec fn join_with(parts: Seq<Seq<char>>, sep: Seq<char>) -> Seq<char>
    decreases parts.len(),
{
    if parts.len() == 0 {
        Seq::empty()
    } else if parts.len() == 1 {
        parts[0]
    } else {
        join_with(parts.drop_last(), sep) + sep + parts.last()
    }
}

/// `[String]::join`: the strings, with `sep` between consecutive ones.
pub fn join(parts: &[String], sep: &str) -> (res: String)
    ensures
        res@ == join_with(parts@.map_values(|s: String| s@), sep@),
{
    let ghost v = parts@.map_values(|s: String| s@);
    let mut out = String::new();
    let mut i: usize = 0;
    while i < parts.len()
        invariant
            i <= parts@.len(),
            v == parts@.map_values(|s: String| s@),
            out@ == join_with(v.take(i as int), sep@),
        decreases parts@.len() - i,
    {
        if i > 0 {
            out.append(sep);
        }
        out.append(parts[i].as_str());
        proof {
            assert(v.take(i + 1).drop_last() =~= v.take(i as int));
            if i == 0 {
                assert(out@ =~= v.take(1)[0]);
            }
        }
        i = i + 1;
    }
    assert(v.take(parts@.len() as int) =~= v);
    out
}

/// Whether `needle` occurs in `hay` as a contiguous piece.
pub open spec fn has_substring(hay: Seq<char>, needle: Seq<char>) -> bool {
    exists|i: int| 0 <= i && i + needle.len() <= hay.len() && #[trigger] hay.subrange(i, i + needle.len()) == needle
}

/// `str::contains` with a string pattern.
pub fn contains_str(hay: &str, needle: &str) -> (res: bool)
    ensures
        res == has_substring(hay@, needle@),
{
    let h = chars_of(hay);
    let n = chars_of(needle);
    if n.len() > h.len() {
        return false;
    }
    let mut i: usize = 0;
    let last: usize = h.len() - n.len();
    while i <= last
        invariant
            last == h@.len() - n@.len(),
            h@ == hay@,
            n@ == needle@,
            n@.len() <= h@.len(),
            i <= h@.len() - n@.len() + 1,
            forall|k: int| 0 <= k < i ==> #[trigger] h@.subrange(k, k + n@.len()) != n@,
        decreases h@.len() + 1 - i,
    {
        let mut j: usize = 0;
        while j < n.len() && h[i + j] == n[j]
            invariant
                h@ == hay@,
                n@ == needle@,
                i + n@.len() <= h@.len(),
                h@.len() == h.len(),
                n@.len() == n.len(),
                j <= n@.len(),
                forall|m: int| 0 <= m < j ==> h@[i + m] == n@[m],
            decreases n@.len() - j,
        {
            j = j + 1;
        }
        if j == n.len() {
            assert(h@.subrange(i as int, i + n@.len()) =~= n@);
            return true;
        }
        assert(h@.subrange(i as int, i + n@.len())[j as int] != n@[j as int]);
        i = i + 1;
    }
    proof {
        assert forall|k: int| 0 <= k && k + n@.len() <= h@.len() implies #[trigger] h@.subrange(k, k + n@.len()) != n@ by {
        }
    }
    false
}

/// `s` without its leading white space.
pub open spec fn trim_ws_start(s: Seq<char>) -> Seq<char>
    decreases s.len(),
{
    if s.len() > 0 && is_whitespace_char(s[0]) {
        trim_ws_start(s.drop_first())
    } else {
        s
    }
}

/// `s` without its trailing white space.
pub open spec fn trim_ws_end(s: Seq<char>) -> Seq<char>
    decreases s.len(),
{
    if s.len() > 0 && is_whitespace_char(s.last()) {
        trim_ws_end(s.drop_last())
    } else {
        s
    }
}

/// `s` without leading and trailing white space, as `str::trim` gives it.
pub open spec fn trim_ws(s: Seq<char>) -> Seq<char> {
    trim_ws_end(trim_ws_start(s))
}

/// `s` without leading and trailing white space.
pub fn trim(s: &str) -> (res: String)
    ensures
        res@ == trim_ws(s@),
{
    let cs = chars_of(s);
    let mut start: usize = 0;
    assert(cs@.skip(0) =~= cs@);
    while start < cs.len() && is_whitespace(cs[start])
        invariant
            cs@ == s@,
            start <= cs@.len(),
            trim_ws_start(cs@) == trim_ws_start(cs@.skip(start as int)),
        decreases cs@.len() - start,
    {
        assert(cs@.skip(start as int).drop_first() =~= cs@.skip(start + 1));
        start = start + 1;
    }
    let ghost ts = cs@.skip(start as int);
    let mut end: usize = cs.len();
    assert(ts =~= cs@.subrange(start as int, end as int));
    while end > start && is_whitespace(cs[end - 1])
        invariant
            start <= end <= cs@.len(),
            ts == cs@.skip(start as int),
            trim_ws_end(ts) == trim_ws_end(cs@.subrange(start as int, end as int)),
        decreases end,
    {
        assert(cs@.subrange(start as int, end as int).drop_last() =~= cs@.subrange(start as int, end - 1));
        end = end - 1;
    }
    string_from_chars(vstd::slice::slice_subrange(cs.as_slice(), start, end))
}

} // verus!
