//! The descriptive metadata of a media file (title, description, tags,
//! author) and the words it contributes to the index.
use vstd::prelude::*;
use vstd::string::StringExecFns;
use crate::text::{
    chars_of, is_whitespace, is_whitespace_char, join, join_with, opt_view, split_whitespace,
    string_from_chars, whitespace_words,
};

verus! {

/// What a media file says about itself. A field is `None` when no reader
/// found a value for it.
#[derive(Debug)]
pub struct MediaMetadata {
    pub title: Option<String>,
    pub description: Option<String>,
    pub tags: Option<String>,
    pub author: Option<String>,
}

/// The text of each field of a `MediaMetadata`.
pub struct MetadataView {
    pub title: Option<Seq<char>>,
    pub description: Option<Seq<char>>,
    pub tags: Option<Seq<char>>,
    pub author: Option<Seq<char>>,
}

impl View for MediaMetadata {
    type V = MetadataView;

    open spec fn view(&self) -> MetadataView {
        MetadataView {
            title: opt_view(self.title),
            description: opt_view(self.description),
            tags: opt_view(self.tags),
            author: opt_view(self.author),
        }
    }
}

/// The metadata with no field set.
pub open spec fn empty_metadata() -> MetadataView {
    MetadataView { title: None, description: None, tags: None, author: None }
}

/// One of the four fields of a `MediaMetadata`.
#[derive(Debug, Clone, Copy, PartialEq, Eq, Structural)]
pub enum MetadataField {
    Title,
    Description,
    Tags,
    Author,
}

/// A field's text with `value` added: `value` itself when the field was
/// empty, else the old text, a space and `value`.
pub open spec fn extended(old: Option<Seq<char>>, value: Seq<char>) -> Option<Seq<char>> {
    match old {
        Some(v) => Some(v + seq![' '] + value),
        None => Some(value),
    }
}

/// The metadata with `value` added to `field`.
pub open spec fn spec_extend(m: MetadataView, field: MetadataField, value: Seq<char>) -> MetadataView {
    match field {
        MetadataField::Title => MetadataView { title: extended(m.title, value), ..m },
        MetadataField::Description => MetadataView { description: extended(m.description, value), ..m },
        MetadataField::Tags => MetadataView { tags: extended(m.tags, value), ..m },
        MetadataField::Author => MetadataView { author: extended(m.author, value), ..m },
    }
}

/// The metadata with `field` set to `value`, replacing any earlier value.
pub open spec fn spec_set(m: MetadataView, field: MetadataField, value: Seq<char>) -> MetadataView {
    match field {
        MetadataField::Title => MetadataView { title: Some(value), ..m },
        MetadataField::Description => MetadataView { description: Some(value), ..m },
        MetadataField::Tags => MetadataView { tags: Some(value), ..m },
        MetadataField::Author => MetadataView { author: Some(value), ..m },
    }
}

/// Whether the metadata counts as empty: no author, description or tags.
pub open spec fn spec_is_null(m: MetadataView) -> bool {
    m.author is None && m.description is None && m.tags is None
}

/// Whether a word is worth indexing: at least two characters, not all of
/// them ASCII digits.
pub open spec fn valid_token(w: Seq<char>) -> bool {
    &&& w.len() >= 2
    &&& exists|i: int| 0 <= i < w.len() && !('0' <= #[trigger] w[i] && w[i] <= '9')
}

/// The words of a field's text that are worth indexing, in order.
pub open spec fn field_tokens(f: Option<Seq<char>>) -> Seq<Seq<char>> {
    match f {
        Some(s) => whitespace_words(s).filter(|w: Seq<char>| valid_token(w)),
        None => Seq::empty(),
    }
}

/// The words of the metadata worth indexing: those of the title, then of
/// the description, the tags and the author.
pub open spec fn spec_metadata_tokens(m: MetadataView) -> Seq<Seq<char>> {
    field_tokens(m.title) + field_tokens(m.description) + field_tokens(m.tags) + field_tokens(m.author)
}

/// Whether `c` is ASCII punctuation, as `char::is_ascii_punctuation` tells.
pub open spec fn is_ascii_punct(c: char) -> bool {
    ('!' <= c && c <= '/') || (':' <= c && c <= '@') || ('[' <= c && c <= '`') || ('{' <= c && c <= '~')
}

/// A word without its ASCII punctuation.
pub open spec fn strip_punct(w: Seq<char>) -> Seq<char> {
    w.filter(|c: char| !is_ascii_punct(c))
}

/// The words of `text` without ASCII punctuation, those left empty dropped.
pub open spec fn sanitized_words(text: Seq<char>) -> Seq<Seq<char>> {
    whitespace_words(text).map_values(|w: Seq<char>| strip_punct(w)).filter(|w: Seq<char>| w.len() > 0)
}

/// The words of `text` without ASCII punctuation, joined by single spaces.
pub open spec fn spec_sanitize(text: Seq<char>) -> Seq<char> {
    join_with(sanitized_words(text), seq![' '])
}

/// Whether `c` is a control character that is not white space.
pub open spec fn is_noise_char(c: char) -> bool {
    let u = c as u32;
    (u < 0x20 || (0x7F <= u && u <= 0x9F)) && !is_whitespace_char(c)
}

/// Whether text reads as written by a person: it holds an ASCII letter and
/// no control character other than white space.
pub open spec fn spec_is_human_text(t: Seq<char>) -> bool {
    &&& exists|i: int| 0 <= i < t.len() && (('a' <= #[trigger] t[i] && t[i] <= 'z') || ('A' <= t[i] && t[i] <= 'Z'))
    &&& forall|i: int| 0 <= i < t.len() ==> !is_noise_char(#[trigger] t[i])
}

/// Whether a word is worth indexing (see `valid_token`).
pub fn is_valid_token(w: &str) -> (res: bool)
    ensures
        res == valid_token(w@),
{
    let cs = chars_of(w);
    if cs.len() < 2 {
        return false;
    }
    let mut i: usize = 0;
    while i < cs.len()
        invariant
            cs@ == w@,
            cs@.len() >= 2,
            i <= cs@.len(),
            forall|j: int| 0 <= j < i ==> '0' <= #[trigger] cs@[j] && cs@[j] <= '9',
        decreases cs@.len() - i,
    {
        if !('0' <= cs[i] && cs[i] <= '9') {
            assert(!('0' <= w@[i as int] && w@[i as int] <= '9'));
            return true;
        }
        i = i + 1;
    }
    false
}

/// Whether `text` reads as written by a person (see `spec_is_human_text`).
pub fn is_indexable_human_text(text: &str) -> (res: bool)
    ensures
        res == spec_is_human_text(text@),
{
    let cs = chars_of(text);
    let mut letter = false;
    let mut i: usize = 0;
    while i < cs.len()
        invariant
            cs@ == text@,
            i <= cs@.len(),
            forall|j: int| 0 <= j < i ==> !is_noise_char(#[trigger] cs@[j]),
            letter == exists|j: int| 0 <= j < i && (('a' <= #[trigger] cs@[j] && cs@[j] <= 'z') || ('A' <= cs@[j] && cs@[j] <= 'Z')),
        decreases cs@.len() - i,
    {
        let c = cs[i];
        let u = c as u32;
        if (u < 0x20 || (0x7F <= u && u <= 0x9F)) && !is_whitespace(c) {
            assert(is_noise_char(cs@[i as int]));
            return false;
        }
        if ('a' <= c && c <= 'z') || ('A' <= c && c <= 'Z') {
            letter = true;
        }
        i = i + 1;
    }
    letter
}

/// A word without its ASCII punctuation.
fn strip_punctuation(w: &str) -> (res: String)
    ensures
        res@ == strip_punct(w@),
{
    let cs = chars_of(w);
    let mut out: Vec<char> = Vec::new();
    let mut i: usize = 0;
    while i < cs.len()
        invariant
            cs@ == w@,
            i <= cs@.len(),
            out@ == strip_punct(cs@.take(i as int)),
        decreases cs@.len() - i,
    {
        let c = cs[i];
        proof {
            reveal_with_fuel(Seq::filter, 1);
            assert(cs@.take(i + 1).drop_last() =~= cs@.take(i as int));
        }
        if !(('!' <= c && c <= '/') || (':' <= c && c <= '@') || ('[' <= c && c <= '`') || ('{' <= c && c <= '~')) {
            out.push(c);
        }
        i = i + 1;
    }
    assert(cs@.take(cs@.len() as int) =~= cs@);
    string_from_chars(out.as_slice())
}

/// The words of `text` without ASCII punctuation, joined by single spaces.
pub fn sanitize_words(text: &str) -> (res: String)
    ensures
        res@ == spec_sanitize(text@),
{
    let words = split_whitespace(text);
    let ghost ws = words@.map_values(|w: String| w@);
    let ghost stripped = ws.map_values(|w: Seq<char>| strip_punct(w));
    let mut kept: Vec<String> = Vec::new();
    let mut i: usize = 0;
    while i < words.len()
        invariant
            i <= words@.len(),
            ws == words@.map_values(|w: String| w@),
            ws == whitespace_words(text@),
            stripped == ws.map_values(|w: Seq<char>| strip_punct(w)),
            kept@.map_values(|w: String| w@) == stripped.take(i as int).filter(|w: Seq<char>| w.len() > 0),
        decreases words@.len() - i,
    {
        let s = strip_punctuation(words[i].as_str());
        proof {
            reveal_with_fuel(Seq::filter, 1);
            assert(stripped.take(i + 1).drop_last() =~= stripped.take(i as int));
        }
        let ghost before = kept@.map_values(|w: String| w@);
        if s.as_str().as_bytes().len() > 0 {
            kept.push(s);
            assert(kept@.map_values(|w: String| w@) =~= before.push(stripped[i as int]));
        }
        i = i + 1;
    }
    assert(stripped.take(words@.len() as int) =~= stripped);
    proof {
        reveal_strlit(" ");
        assert(" "@ =~= seq![' ']);
    }
    join(kept.as_slice(), " ")
}

/// Adds `value` to a field: the field becomes `value` when it was empty, else
/// its old text, a space and `value`.
pub fn extend_field(field: &mut Option<String>, value: String)
    ensures
        opt_view(*final(field)) == extended(opt_view(*old(field)), value@),
{
    match field {
        Some(v) => {
            v.append(" ");
            v.append(value.as_str());
            proof {
                reveal_strlit(" ");
            }
        },
        None => {
            *field = Some(value);
        },
    }
}

/// The words of a field's text worth indexing, added to `tokens`.
fn push_field_tokens(tokens: &mut Vec<String>, field: &Option<String>)
    ensures
        final(tokens)@.map_values(|w: String| w@) == old(tokens)@.map_values(|w: String| w@) + field_tokens(opt_view(*field)),
{
    match field {
        Some(text) => {
            let words = split_whitespace(text.as_str());
            let ghost ws = words@.map_values(|w: String| w@);
            let ghost start = tokens@.map_values(|w: String| w@);
            let mut i: usize = 0;
            while i < words.len()
                invariant
                    i <= words@.len(),
                    ws == words@.map_values(|w: String| w@),
                    tokens@.map_values(|w: String| w@) == start + ws.take(i as int).filter(|w: Seq<char>| valid_token(w)),
                decreases words@.len() - i,
            {
                proof {
                    reveal_with_fuel(Seq::filter, 1);
                    assert(ws.take(i + 1).drop_last() =~= ws.take(i as int));
                }
                let ghost before = tokens@.map_values(|w: String| w@);
                if is_valid_token(words[i].as_str()) {
                    tokens.push(words[i].clone());
                    assert(tokens@.map_values(|w: String| w@) =~= before.push(ws[i as int]));
                }
                i = i + 1;
            }
            assert(ws.take(words@.len() as int) =~= ws);
        },
        None => {
            assert(tokens@.map_values(|w: String| w@) =~= tokens@.map_values(|w: String| w@) + Seq::<Seq<char>>::empty());
        },
    }
}

impl MediaMetadata {
    /// Metadata with no field set.
    pub fn new() -> (res: MediaMetadata)
        ensures
            res@ == empty_metadata(),
    {
        MediaMetadata { title: None, description: None, tags: None, author: None }
    }

    /// Whether the metadata counts as empty: no author, description or tags.
    pub fn is_null(&self) -> (res: bool)
        ensures
            res == spec_is_null(self@),
    {
        self.author.is_none() && self.description.is_none() && self.tags.is_none() && self.author.is_none()
    }

    /// Adds `value` to `field` (see `extend_field`).
    pub fn extend(&mut self, field: MetadataField, value: String)
        ensures
            final(self)@ == spec_extend(old(self)@, field, value@),
    {
        match field {
            MetadataField::Title => extend_field(&mut self.title, value),
            MetadataField::Description => extend_field(&mut self.description, value),
            MetadataField::Tags => extend_field(&mut self.tags, value),
            MetadataField::Author => extend_field(&mut self.author, value),
        }
    }

    /// Sets `field` to `value`, replacing any earlier value.
    pub fn set(&mut self, field: MetadataField, value: String)
        ensures
            final(self)@ == spec_set(old(self)@, field, value@),
    {
        match field {
            MetadataField::Title => self.title = Some(value),
            MetadataField::Description => self.description = Some(value),
            MetadataField::Tags => self.tags = Some(value),
            MetadataField::Author => self.author = Some(value),
        }
    }

    /// The words of the metadata worth indexing: those of the title, then of
    /// the description, the tags and the author, each in order.
    pub fn tokenize(&self) -> (res: Vec<String>)
        ensures
            res@.map_values(|w: String| w@) == spec_metadata_tokens(self@),
    {
        let mut tokens: Vec<String> = Vec::new();
        assert(tokens@.map_values(|w: String| w@) =~= Seq::<Seq<char>>::empty());
        push_field_tokens(&mut tokens, &self.title);
        push_field_tokens(&mut tokens, &self.description);
        push_field_tokens(&mut tokens, &self.tags);
        push_field_tokens(&mut tokens, &self.author);
        assert(Seq::<Seq<char>>::empty() + field_tokens(self@.title) =~= field_tokens(self@.title));
        tokens
    }
}

} // verus!
