//! The tokenizers the crawler runs on each file. Each one says which files it
//! handles and turns what it reads of a file into a list of tokens, each
//! token once. Reading the file is left to the caller, which hands over what
//! was read as plain values.
use vstd::prelude::*;
use vstd::string::StringExecFns;
use crate::metadata::{comment_text, exif_comment_text, ExifField, ExifTag, Id3Fields, IptcField, IptcTag, MetadataError, string_views};
use crate::media_metadata::{MediaMetadata, MetadataField, MetadataView, spec_metadata_tokens};
use crate::paths::{file_stem_of, image_extensions, is_file_type, is_image_file, is_jpeg_file, is_markdown_file, is_mp3_file, is_audio_file, audio_extensions, is_xmp_file, jpeg_extensions, markdown_extensions, path_file_stem, path_relative_to, relative_to, spec_is_file_type, xmp_extensions};
use crate::text::{opt_view, whitespace_words};
use crate::tokens::{extend_unique, is_token_list, spec_tokens, views, TextTokenizer};
use crate::xmp::{event_views, pick_xmp_texts, picked_views, read_xml_events, xml_events, xmp_picked};
use crate::zimfile::ZimFile;

verus! {

/// A reader of files that yields search tokens.
pub trait Tokenizer {
    /// Whether this tokenizer handles files at `path`.
    fn supports(&self, path: &str) -> bool;
}

/// The text of an optional string, or the empty text.
pub open spec fn text_or_empty(o: Option<Seq<char>>) -> Seq<char> {
    match o {
        Some(t) => t,
        None => Seq::empty(),
    }
}

/// An empty token list.
fn no_tokens() -> (res: Vec<String>)
    ensures
        is_token_list(res@, Set::empty()),
{
    let v: Vec<String> = Vec::new();
    assert(views(v@).to_set() =~= Set::<Seq<char>>::empty());
    v
}

/// Adds the tokens of `text` to a token list.
fn add_tokens(tk: &TextTokenizer, tokens: &mut Vec<String>, text: &str)
    requires
        tk.wf(),
        views(old(tokens)@).no_duplicates(),
    ensures
        views(final(tokens)@).no_duplicates(),
        views(final(tokens)@).to_set() == views(old(tokens)@).to_set().union(spec_tokens(text@)),
{
    let new = tk.tokenize(text);
    extend_unique(tokens, &new);
}

/// Tokenizes the path of a file relative to the crawled root.
pub struct FilePathTokenizer;

impl Tokenizer for FilePathTokenizer {
    fn supports(&self, path: &str) -> (res: bool)
        ensures
            res,
    {
        true
    }
}

impl FilePathTokenizer {
    /// The tokens of the path of the file relative to `root_dir` (none when
    /// the file does not lie under it).
    pub fn tokenize(&self, path: &str, root_dir: &str) -> (res: Vec<String>)
        ensures
            is_token_list(res@, spec_tokens(text_or_empty(path_relative_to(path@, root_dir@)))),
    {
proof {
            reveal_strlit("");
            assert(""@ =~= Seq::<char>::empty());
        }
        match relative_to(path, root_dir) {
            Some(rel) => crate::tokens::tokenize_string(rel.as_str()),
            None => crate::tokens::tokenize_string(""),
        }
    }
}

/// Tokenizes the name of a file without its extension.
pub struct FileNameTokenizer;

impl Tokenizer for FileNameTokenizer {
    fn supports(&self, path: &str) -> (res: bool)
        ensures
            res,
    {
        true
    }
}

impl FileNameTokenizer {
    /// The tokens of the file name without its extension.
    pub fn tokenize(&self, path: &str) -> (res: Vec<String>)
        ensures
            is_token_list(res@, spec_tokens(text_or_empty(path_file_stem(path@)))),
    {
proof {
            reveal_strlit("");
            assert(""@ =~= Seq::<char>::empty());
        }
        match file_stem_of(path) {
            Some(stem) => crate::tokens::tokenize_string(stem.as_str()),
            None => crate::tokens::tokenize_string(""),
        }
    }
}

/// The number of words at the start of a text that the paragraph tokenizer reads.
pub const WORD_LIMIT: usize = 10;

/// The first `n` words of `lines`, in order: the words of each line, line
/// after line, as long as fewer than `n` were taken.
pub open spec fn first_words(lines: Seq<Seq<char>>, n: nat) -> Seq<Seq<char>>
    decreases lines.len(),
{
    if lines.len() == 0 || n == 0 {
        Seq::empty()
    } else {
        let w = whitespace_words(lines[0]);
        if w.len() >= n {
            w.take(n as int)
        } else {
            w + first_words(lines.drop_first(), (n - w.len()) as nat)
        }
    }
}

/// The tokens of the first `WORD_LIMIT` words of a text.
pub open spec fn paragraph_tokens(lines: Seq<Seq<char>>) -> Set<Seq<char>> {
    tokens_of_texts(first_words(lines, WORD_LIMIT as nat))
}

/// Tokenizes the opening paragraphs of text files.
pub struct ParagraphTokenizer;

impl Tokenizer for ParagraphTokenizer {
    fn supports(&self, path: &str) -> (res: bool)
        ensures
            res == spec_is_file_type(path@, markdown_extensions()),
    {
        is_markdown_file(path)
    }
}

impl ParagraphTokenizer {
    /// The first `WORD_LIMIT` words of the lines of a text.
    pub fn first_words(&self, lines: &Vec<String>) -> (res: Vec<String>)
        ensures
            views(res@) == first_words(views(lines@), WORD_LIMIT as nat),
    {
        let ghost ls = views(lines@);
        let mut words: Vec<String> = Vec::new();
        let mut i: usize = 0;
        assert(ls.skip(0) =~= ls);
        assert(views(words@) + first_words(ls, WORD_LIMIT as nat) =~= first_words(ls, WORD_LIMIT as nat));
        while i < lines.len() && words.len() < WORD_LIMIT
            invariant
                i <= lines@.len(),
                ls == views(lines@),
                words@.len() <= WORD_LIMIT,
                views(words@) + first_words(ls.skip(i as int), (WORD_LIMIT - words@.len()) as nat)
                    == first_words(ls, WORD_LIMIT as nat),
            decreases lines@.len() - i,
        {
            let rem: usize = WORD_LIMIT - words.len();
            let line_words = crate::text::split_whitespace(lines[i].as_str());
            let ghost lw = views(line_words@);
            let ghost before = views(words@);
            proof {
                assert(ls.skip(i as int)[0] == lines@[i as int]@);
                assert(ls.skip(i as int).drop_first() =~= ls.skip(i + 1));
            }
            let mut j: usize = 0;
            while j < line_words.len() && j < rem
                invariant
                    j <= line_words@.len(),
                    j <= rem,
                    lw == views(line_words@),
                    views(words@) == before + lw.take(j as int),
                decreases line_words@.len() - j,
            {
                let c = line_words[j].clone();
                let ghost mid = views(words@);
                words.push(c);
                assert(views(words@) =~= mid.push(lw[j as int]));
                assert(lw.take(j + 1) =~= lw.take(j as int).push(lw[j as int]));
                j = j + 1;
            }
            proof {
                if lw.len() >= rem {
                    assert(j == rem);
                    assert(words@.len() == WORD_LIMIT);
                    assert(first_words(ls.skip((i + 1) as int), 0) =~= Seq::<Seq<char>>::empty());
                    assert(views(words@) + Seq::<Seq<char>>::empty() =~= views(words@));
                } else {
                    assert(j == lw.len());
                    assert(lw.take(j as int) =~= lw);
                    assert(before + (lw + first_words(ls.skip(i + 1), (rem - lw.len()) as nat))
                        =~= (before + lw) + first_words(ls.skip(i + 1), (rem - lw.len()) as nat));
                }
            }
            i = i + 1;
        }
        proof {
            if words@.len() < WORD_LIMIT {
                assert(ls.skip(i as int).len() == 0);
            }
            assert(views(words@) + Seq::<Seq<char>>::empty() =~= views(words@));
        }
        words
    }

    /// The tokens of the first `WORD_LIMIT` words of a text.
    pub fn tokenize(&self, lines: &Vec<String>) -> (res: Vec<String>)
        ensures
            is_token_list(res@, paragraph_tokens(views(lines@))),
    {
        let words = self.first_words(lines);
        let tk = TextTokenizer::new();
        let mut tokens = no_tokens();
        add_tokens_of_texts(&tk, &mut tokens, &words);
        assert(Set::<Seq<char>>::empty().union(paragraph_tokens(views(lines@))) =~= paragraph_tokens(views(lines@)));
        tokens
    }
}

/// The heading mark and the word after it that each line of a markdown
/// file is searched for; the word is the first capture group.
pub const TITLE_PATTERN: &'static str = r"#{1,3}\s*(\w+)";

/// The first capture group of the `regex` crate's first match of `pattern`
/// in `line`, if there is a match.
pub uninterp spec fn regex_first_group(pattern: Seq<char>, line: Seq<char>) -> Option<Seq<char>>;

/// The word that `TITLE_PATTERN` captures in a line.
pub open spec fn markdown_title_word(line: Seq<char>) -> Option<Seq<char>> {
    regex_first_group(TITLE_PATTERN@, line)
}

/// A compiled pattern, with the text it was compiled from.
pub struct TitleRegex {
    re: regex::Regex,
    pattern: Ghost<Seq<char>>,
}

impl TitleRegex {
    /// The text of the pattern.
    pub closed spec fn pattern(&self) -> Seq<char> {
        self.pattern@
    }
}

/// `Regex::new(pattern)`, unwrapped: `TITLE_PATTERN` is a valid pattern,
/// so the unwrap does not panic. Claimed: the result was compiled from `pattern`.
#[verifier::external_body]
fn title_regex(pattern: &str) -> (res: TitleRegex)
    requires
        pattern@ == TITLE_PATTERN@,
    ensures
        res.pattern() == pattern@,
{
    TitleRegex { re: regex::Regex::new(pattern).unwrap(), pattern: Ghost(pattern@) }
}

/// `Regex::captures` of the compiled pattern on `line`, group 1. Claimed:
/// the result is `regex_first_group` of the pattern and the line.
#[verifier::external_body]
fn title_word(re: &TitleRegex, line: &str) -> (res: Option<String>)
    ensures
        opt_view(res) == regex_first_group(re.pattern(), line@),
{
    re.re.captures(line).and_then(|caps| caps.get(1)).map(|m| m.as_str().to_string())
}

/// The views of a list of optional strings.
pub open spec fn opt_views(v: Seq<Option<String>>) -> Seq<Option<Seq<char>>> {
    v.map_values(|o: Option<String>| opt_view(o))
}

/// The tokens of a list of optional texts.
pub open spec fn tokens_of_words(words: Seq<Option<Seq<char>>>) -> Set<Seq<char>>
    decreases words.len(),
{
    if words.len() == 0 {
        Set::empty()
    } else {
        tokens_of_words(words.drop_last()).union(spec_tokens(text_or_empty(words.last())))
    }
}

/// Tokenizes the headings of Markdown files.
pub struct MarkdownTitleTokenizer;

impl Tokenizer for MarkdownTitleTokenizer {
    fn supports(&self, path: &str) -> (res: bool)
        ensures
            res == spec_is_file_type(path@, markdown_extensions()),
    {
        is_markdown_file(path)
    }
}

impl MarkdownTitleTokenizer {
    /// The tokens of the heading words found in the lines of a file.
    pub fn tokenize_title_words(&self, words: &Vec<Option<String>>) -> (res: Vec<String>)
        ensures
            is_token_list(res@, tokens_of_words(opt_views(words@))),
    {
proof {
            reveal_strlit("");
            assert(""@ =~= Seq::<char>::empty());
        }
        let tk = TextTokenizer::new();
        let ghost ws = opt_views(words@);
        let mut tokens = no_tokens();
        let mut i: usize = 0;
        while i < words.len()
            invariant
                tk.wf(),
                i <= words@.len(),
                ws == opt_views(words@),
                views(tokens@).no_duplicates(),
                views(tokens@).to_set() == tokens_of_words(ws.take(i as int)),
                ""@ == Seq::<char>::empty(),
            decreases words@.len() - i,
        {
            proof {
                assert(ws.take(i + 1).drop_last() =~= ws.take(i as int));
            }
            match &words[i] {
                Some(w) => add_tokens(&tk, &mut tokens, w.as_str()),
                None => {
                    add_tokens(&tk, &mut tokens, "");
                },
            }
            i = i + 1;
        }
        assert(ws.take(words@.len() as int) =~= ws);
        tokens
    }

    /// The tokens of the word after the first heading mark of each line.
    pub fn tokenize(&self, lines: &Vec<String>) -> (res: Vec<String>)
        ensures
            is_token_list(res@, tokens_of_words(views(lines@).map_values(|l: Seq<char>| markdown_title_word(l)))),
    {
        let re = title_regex(TITLE_PATTERN);
        let mut words: Vec<Option<String>> = Vec::new();
        let mut i: usize = 0;
        while i < lines.len()
            invariant
                i <= lines@.len(),
                re.pattern() == TITLE_PATTERN@,
                opt_views(words@) == views(lines@).take(i as int).map_values(|l: Seq<char>| markdown_title_word(l)),
            decreases lines@.len() - i,
        {
            let w = title_word(&re, lines[i].as_str());
            let ghost before = opt_views(words@);
            words.push(w);
            assert(opt_views(words@) =~= before.push(markdown_title_word(lines@[i as int]@)));
            assert(views(lines@).take(i + 1).map_values(|l: Seq<char>| markdown_title_word(l)) =~= views(lines@).take(i as int).map_values(|l: Seq<char>| markdown_title_word(l)).push(markdown_title_word(lines@[i as int]@)));
            i = i + 1;
        }
        assert(views(lines@).take(lines@.len() as int) =~= views(lines@));
        self.tokenize_title_words(&words)
    }
}

/// The tokens of the ID3 frames of a file: artist, title, album and genre.
pub open spec fn id3_tokens(t: &Id3Fields) -> Set<Seq<char>> {
    tokens_of_words(seq![opt_view(t.artist), opt_view(t.title), opt_view(t.album), opt_view(t.genre)])
}

/// Tokenizes the ID3 tags of MP3 files.
pub struct Id3Tokenizer;

impl Tokenizer for Id3Tokenizer {
    fn supports(&self, path: &str) -> (res: bool)
        ensures
            res == spec_is_file_type(path@, seq!["mp3"@]),
    {
        is_mp3_file(path)
    }
}

impl Id3Tokenizer {
    /// The tokens of the artist, title, album and genre frames.
    pub fn tokenize(&self, tags: &Id3Fields) -> (res: Vec<String>)
        ensures
            is_token_list(res@, id3_tokens(tags)),
    {
        let words: Vec<Option<String>> = vec![tags.artist.clone(), tags.title.clone(), tags.album.clone(), tags.genre.clone()];
        assert(opt_views(words@) =~= seq![opt_view(tags.artist), opt_view(tags.title), opt_view(tags.album), opt_view(tags.genre)]);
        MarkdownTitleTokenizer.tokenize_title_words(&words)
    }
}

/// The text an EXIF field contributes tokens from: a description or an
/// artist as displayed, a user comment once decoded.
pub open spec fn exif_text(tag: ExifTag, value: Seq<char>) -> Option<Seq<char>> {
    match tag {
        ExifTag::ImageDescription | ExifTag::Artist => Some(value),
        ExifTag::UserComment => comment_text(value),
        ExifTag::Other => None,
    }
}

/// The tokens of a list of EXIF fields.
pub open spec fn exif_tokens(fields: Seq<ExifField>) -> Set<Seq<char>>
    decreases fields.len(),
{
    if fields.len() == 0 {
        Set::empty()
    } else {
        exif_tokens(fields.drop_last()).union(spec_tokens(text_or_empty(exif_text(fields.last().tag, fields.last().value@))))
    }
}

/// Tokenizes the EXIF fields of images.
pub struct ExifTokenizer;

impl Tokenizer for ExifTokenizer {
    fn supports(&self, path: &str) -> (res: bool)
        ensures
            res == spec_is_file_type(path@, image_extensions()),
    {
        is_image_file(path)
    }
}

impl ExifTokenizer {
    /// The tokens of the description, artist and user comment fields.
    pub fn tokenize(&self, fields: &Vec<ExifField>) -> (res: Vec<String>)
        ensures
            is_token_list(res@, exif_tokens(fields@)),
    {
        proof {
            reveal_strlit("");
            assert(""@ =~= Seq::<char>::empty());
        }
        let tk = TextTokenizer::new();
        let mut tokens = no_tokens();
        let mut i: usize = 0;
        while i < fields.len()
            invariant
                tk.wf(),
                i <= fields@.len(),
                views(tokens@).no_duplicates(),
                views(tokens@).to_set() == exif_tokens(fields@.take(i as int)),
                ""@ == Seq::<char>::empty(),
            decreases fields@.len() - i,
        {
            proof {
                assert(fields@.take(i + 1).drop_last() =~= fields@.take(i as int));
            }
            let f = &fields[i];
            match f.tag {
                ExifTag::ImageDescription | ExifTag::Artist => add_tokens(&tk, &mut tokens, f.value.as_str()),
                ExifTag::UserComment => match exif_comment_text(f.value.as_str()) {
                    Some(d) => add_tokens(&tk, &mut tokens, d.as_str()),
                    None => add_tokens(&tk, &mut tokens, ""),
                },
                ExifTag::Other => add_tokens(&tk, &mut tokens, ""),
            }
            i = i + 1;
        }
        assert(fields@.take(fields@.len() as int) =~= fields@);
        tokens
    }
}

/// Whether the values of an IPTC dataset are tokenized: names, headlines,
/// captions, keywords, categories, bylines and credits.
pub open spec fn iptc_tokenized(tag: IptcTag) -> bool {
    tag != IptcTag::Other
}

/// The tokens of a list of texts.
pub open spec fn tokens_of_texts(texts: Seq<Seq<char>>) -> Set<Seq<char>>
    decreases texts.len(),
{
    if texts.len() == 0 {
        Set::empty()
    } else {
        tokens_of_texts(texts.drop_last()).union(spec_tokens(texts.last()))
    }
}

/// The tokens of a list of IPTC datasets.
pub open spec fn iptc_tokens(fields: Seq<IptcField>) -> Set<Seq<char>>
    decreases fields.len(),
{
    if fields.len() == 0 {
        Set::empty()
    } else if iptc_tokenized(fields.last().tag) {
        iptc_tokens(fields.drop_last()).union(tokens_of_texts(string_views(fields.last().values@)))
    } else {
        iptc_tokens(fields.drop_last())
    }
}

/// Adds the tokens of each of `texts` to a token list.
fn add_tokens_of_texts(tk: &TextTokenizer, tokens: &mut Vec<String>, texts: &Vec<String>)
    requires
        tk.wf(),
        views(old(tokens)@).no_duplicates(),
    ensures
        views(final(tokens)@).no_duplicates(),
        views(final(tokens)@).to_set() == views(old(tokens)@).to_set().union(tokens_of_texts(string_views(texts@))),
{
    let ghost start = views(tokens@).to_set();
    let ghost ts = string_views(texts@);
    let mut i: usize = 0;
    assert(start.union(tokens_of_texts(ts.take(0))) =~= start) by {
        assert(ts.take(0) =~= Seq::<Seq<char>>::empty());
    }
    while i < texts.len()
        invariant
            tk.wf(),
            i <= texts@.len(),
            ts == string_views(texts@),
            views(tokens@).no_duplicates(),
            views(tokens@).to_set() == start.union(tokens_of_texts(ts.take(i as int))),
        decreases texts@.len() - i,
    {
        proof {
            assert(ts.take(i + 1).drop_last() =~= ts.take(i as int));
        }
        add_tokens(tk, tokens, texts[i].as_str());
        proof {
            let a = tokens_of_texts(ts.take(i as int));
            assert(start.union(a).union(spec_tokens(ts[i as int])) =~= start.union(a.union(spec_tokens(ts[i as int]))));
        }
        i = i + 1;
    }
    assert(ts.take(texts@.len() as int) =~= ts);
}

/// Tokenizes the IPTC datasets of JPEG images.
pub struct IptcTokenizer;

impl Tokenizer for IptcTokenizer {
    fn supports(&self, path: &str) -> (res: bool)
        ensures
            res == spec_is_file_type(path@, jpeg_extensions()),
    {
        is_jpeg_file(path)
    }
}

impl IptcTokenizer {
    /// The tokens of the values of the descriptive datasets.
    pub fn tokenize(&self, fields: &Vec<IptcField>) -> (res: Vec<String>)
        ensures
            is_token_list(res@, iptc_tokens(fields@)),
    {
        let tk = TextTokenizer::new();
        let mut tokens = no_tokens();
        let mut i: usize = 0;
        while i < fields.len()
            invariant
                tk.wf(),
                i <= fields@.len(),
                views(tokens@).no_duplicates(),
                views(tokens@).to_set() == iptc_tokens(fields@.take(i as int)),
            decreases fields@.len() - i,
        {
            proof {
                assert(fields@.take(i + 1).drop_last() =~= fields@.take(i as int));
            }
            let f = &fields[i];
            match f.tag {
                IptcTag::Other => {},
                _ => add_tokens_of_texts(&tk, &mut tokens, &f.values),
            }
            i = i + 1;
        }
        assert(fields@.take(fields@.len() as int) =~= fields@);
        tokens
    }
}

/// The tokens of the texts picked from XMP events.
pub open spec fn xmp_tokens(picked: Seq<(MetadataField, Seq<char>)>) -> Set<Seq<char>> {
    tokens_of_texts(picked.map_values(|p: (MetadataField, Seq<char>)| p.1))
}

/// What tokenizing an XMP packet gives: no token without a packet, an error
/// when the packet is not well-formed XML, else the tokens of its picked texts.
pub open spec fn spec_xmp_tokenize(packet: Option<Seq<char>>) -> Result<Set<Seq<char>>, MetadataError> {
    match packet {
        None => Ok(Set::empty()),
        Some(xml) => match xml_events(xml) {
            None => Err(MetadataError::InvalidXml),
            Some(events) => Ok(xmp_tokens(xmp_picked(events))),
        },
    }
}

/// Tokenizes the XMP packets of images and videos.
pub struct XmpTokenizer;

impl Tokenizer for XmpTokenizer {
    fn supports(&self, path: &str) -> (res: bool)
        ensures
            res == spec_is_file_type(path@, xmp_extensions()),
    {
        is_xmp_file(path)
    }
}

impl XmpTokenizer {
    /// The tokens of the headline, title, description, subject and creator
    /// texts of an XMP packet (see `spec_xmp_tokenize`).
    pub fn tokenize(&self, packet: Option<&str>) -> (res: Result<Vec<String>, MetadataError>)
        ensures
            match res {
                Ok(v) => spec_xmp_tokenize(match packet { Some(p) => Some(p@), None => None }) matches Ok(set) && is_token_list(v@, set),
                Err(e) => spec_xmp_tokenize(match packet { Some(p) => Some(p@), None => None }) == Err::<Set<Seq<char>>, MetadataError>(e),
            },
    {
        let xml = match packet {
            Some(x) => x,
            None => return Ok(no_tokens()),
        };
        let events = match read_xml_events(xml) {
            Some(e) => e,
            None => return Err(MetadataError::InvalidXml),
        };
        let picked = pick_xmp_texts(&events);
        let mut texts: Vec<String> = Vec::new();
        let mut i: usize = 0;
        while i < picked.len()
            invariant
                i <= picked@.len(),
                string_views(texts@) == picked_views(picked@).take(i as int).map_values(|p: (MetadataField, Seq<char>)| p.1),
            decreases picked@.len() - i,
        {
            let ghost before = string_views(texts@);
            texts.push(picked[i].1.clone());
            assert(string_views(texts@) =~= before.push(picked@[i as int].1@));
            assert(picked_views(picked@).take(i + 1).map_values(|p: (MetadataField, Seq<char>)| p.1) =~= picked_views(picked@).take(i as int).map_values(|p: (MetadataField, Seq<char>)| p.1).push(picked@[i as int].1@));
            i = i + 1;
        }
        assert(picked_views(picked@).take(picked@.len() as int) =~= picked_views(picked@));
        let tk = TextTokenizer::new();
        let mut tokens = no_tokens();
        add_tokens_of_texts(&tk, &mut tokens, &texts);
        assert(Set::<Seq<char>>::empty().union(xmp_tokens(xmp_picked(event_views(events@)))) =~= xmp_tokens(xmp_picked(event_views(events@))));
        Ok(tokens)
    }
}

/// The metadata keys of a ZIM archive whose values are tokenized.
pub open spec fn zim_token_keys() -> Seq<Seq<char>> {
    seq!["Creator"@, "Description"@, "Name"@, "Tags"@, "Title"@]
}

/// The tokens of the values of the listed metadata keys of an archive.
pub open spec fn zim_tokens(z: &ZimFile, keys: Seq<Seq<char>>) -> Set<Seq<char>>
    decreases keys.len(),
{
    if keys.len() == 0 {
        Set::empty()
    } else {
        let rest = zim_tokens(z, keys.drop_last());
        let k = keys.last();
        if zim_token_keys().contains(k) {
            rest.union(spec_tokens(text_or_empty(ZimFile::spec_metadata_str(z, k))))
        } else {
            rest
        }
    }
}

/// Tokenizes the metadata of ZIM archives.
pub struct ZimTokenizer;

impl Tokenizer for ZimTokenizer {
    fn supports(&self, path: &str) -> (res: bool)
        ensures
            res == spec_is_file_type(path@, seq!["zim"@]),
    {
        let exts = vec!["zim"];
        proof {
            assert(crate::paths::str_views(exts@) =~= seq!["zim"@]);
        }
        is_file_type(path, exts)
    }
}

impl ZimTokenizer {
    /// The tokens of the creator, description, name, tags and title metadata
    /// of an archive.
    pub fn tokenize(&self, zim: &mut ZimFile) -> (res: Vec<String>)
        requires
            old(zim).wf(),
        ensures
            final(zim).wf(),
            final(zim).same_archive(old(zim)),
            is_token_list(res@, zim_tokens(old(zim), crate::zimfile::spec_metadata_keys(old(zim).spec_dirents()))),
    {
proof {
            reveal_strlit("");
            assert(""@ =~= Seq::<char>::empty());
        }
        let keys = zim.metadata_keys();
        let ghost ks = keys@.map_values(|s: String| s@);
        let ghost z0 = *zim;
        let wanted: [&str; 5] = ["Creator", "Description", "Name", "Tags", "Title"];
        assert(crate::paths::str_views(wanted@) =~= zim_token_keys());
        let tk = TextTokenizer::new();
        let mut tokens = no_tokens();
        let mut i: usize = 0;
        while i < keys.len()
            invariant
                tk.wf(),
                i <= keys@.len(),
                ks == keys@.map_values(|s: String| s@),
                crate::paths::str_views(wanted@) == zim_token_keys(),
                zim.wf(),
                zim.same_archive(&z0),
                views(tokens@).no_duplicates(),
                views(tokens@).to_set() == zim_tokens(&z0, ks.take(i as int)),
                ""@ == Seq::<char>::empty(),
            decreases keys@.len() - i,
        {
            proof {
                assert(ks.take(i + 1).drop_last() =~= ks.take(i as int));
            }
            let key = keys[i].as_str();
            if crate::paths::list_contains(wanted.as_slice(), key) {
                let v = zim.get_metadata_str(key);
                assert(ZimFile::spec_metadata_str(zim, key@) == ZimFile::spec_metadata_str(&z0, key@));
                match v {
                    Some(value) => add_tokens(&tk, &mut tokens, value.as_str()),
                    None => add_tokens(&tk, &mut tokens, ""),
                }
            }
            i = i + 1;
        }
        assert(ks.take(keys@.len() as int) =~= ks);
        tokens
    }
}

/// The tokens of the metadata a file carries: the indexable words of each
/// metadata, in order, repeated words kept.
pub open spec fn metadata_list_tokens(ms: Seq<MetadataView>) -> Seq<Seq<char>>
    decreases ms.len(),
{
    if ms.len() == 0 {
        Seq::empty()
    } else {
        metadata_list_tokens(ms.drop_last()) + spec_metadata_tokens(ms.last())
    }
}

/// Tokenizes the metadata of images and sound files.
pub struct MetadataTokenizer;

impl Tokenizer for MetadataTokenizer {
    fn supports(&self, path: &str) -> (res: bool)
        ensures
            res == (spec_is_file_type(path@, image_extensions()) || spec_is_file_type(path@, audio_extensions())),
    {
        is_image_file(path) || is_audio_file(path)
    }
}

impl MetadataTokenizer {
    /// The indexable words of each metadata found in a file, in order.
    pub fn tokenize(&self, metadata: &Vec<MediaMetadata>) -> (res: Vec<String>)
        ensures
            views(res@) == metadata_list_tokens(metadata@.map_values(|m: MediaMetadata| m@)),
    {
        let ghost ms = metadata@.map_values(|m: MediaMetadata| m@);
        let mut out: Vec<String> = Vec::new();
        let mut i: usize = 0;
        assert(views(out@) =~= metadata_list_tokens(ms.take(0)));
        while i < metadata.len()
            invariant
                i <= metadata@.len(),
                ms == metadata@.map_values(|m: MediaMetadata| m@),
                views(out@) == metadata_list_tokens(ms.take(i as int)),
            decreases metadata@.len() - i,
        {
            proof {
                assert(ms.take(i + 1).drop_last() =~= ms.take(i as int));
            }
            let mut words = metadata[i].tokenize();
            let ghost before = views(out@);
            let ghost added = views(words@);
            out.append(&mut words);
            assert(views(out@) =~= before + added);
            i = i + 1;
        }
        assert(ms.take(metadata@.len() as int) =~= ms);
        out
    }
}

/// The tokenizers the crawler runs, by kind.
#[derive(Debug, Clone, Copy, PartialEq, Eq, Structural)]
pub enum TokenizerKind {
    FilePath,
    Paragraph,
    MarkdownTitle,
    Id3,
    Exif,
    Iptc,
    Xmp,
    Zim,
}

/// Whether a tokenizer of the given kind handles files at `path`.
pub open spec fn kind_supports(kind: TokenizerKind, path: Seq<char>) -> bool {
    match kind {
        TokenizerKind::FilePath => true,
        TokenizerKind::Paragraph | TokenizerKind::MarkdownTitle => spec_is_file_type(path, markdown_extensions()),
        TokenizerKind::Id3 => spec_is_file_type(path, seq!["mp3"@]),
        TokenizerKind::Exif => spec_is_file_type(path, image_extensions()),
        TokenizerKind::Iptc => spec_is_file_type(path, jpeg_extensions()),
        TokenizerKind::Xmp => spec_is_file_type(path, xmp_extensions()),
        TokenizerKind::Zim => spec_is_file_type(path, seq!["zim"@]),
    }
}

impl Tokenizer for TokenizerKind {
    fn supports(&self, path: &str) -> (res: bool)
        ensures
            res == kind_supports(*self, path@),
    {
        match self {
            TokenizerKind::FilePath => FilePathTokenizer.supports(path),
            TokenizerKind::Paragraph => ParagraphTokenizer.supports(path),
            TokenizerKind::MarkdownTitle => MarkdownTitleTokenizer.supports(path),
            TokenizerKind::Id3 => Id3Tokenizer.supports(path),
            TokenizerKind::Exif => ExifTokenizer.supports(path),
            TokenizerKind::Iptc => IptcTokenizer.supports(path),
            TokenizerKind::Xmp => XmpTokenizer.supports(path),
            TokenizerKind::Zim => ZimTokenizer.supports(path),
        }
    }
}

/// The tokenizers that the crawler runs, in order.
pub open spec fn registry_kinds() -> Seq<TokenizerKind> {
    seq![
        TokenizerKind::FilePath,
        TokenizerKind::Paragraph,
        TokenizerKind::MarkdownTitle,
        TokenizerKind::Id3,
        TokenizerKind::Exif,
        TokenizerKind::Iptc,
        TokenizerKind::Xmp,
        TokenizerKind::Zim,
    ]
}

/// The tokenizers the crawler runs on the files under a root directory.
pub struct TokenizerRegistry {
    pub root_dir: String,
    pub tokenizers: Vec<TokenizerKind>,
}

/// The token lists joined one after the other.
pub open spec fn concat_tokens(lists: Seq<Seq<Seq<char>>>) -> Seq<Seq<char>>
    decreases lists.len(),
{
    if lists.len() == 0 {
        Seq::empty()
    } else {
        concat_tokens(lists.drop_last()) + lists.last()
    }
}

impl TokenizerRegistry {
    /// All the tokenizers, for the files under `root_dir`.
    pub fn new(root_dir: &str) -> (res: TokenizerRegistry)
        ensures
            res.root_dir@ == root_dir@,
            res.tokenizers@ == registry_kinds(),
    {
        let tokenizers = vec![
            TokenizerKind::FilePath,
            TokenizerKind::Paragraph,
            TokenizerKind::MarkdownTitle,
            TokenizerKind::Id3,
            TokenizerKind::Exif,
            TokenizerKind::Iptc,
            TokenizerKind::Xmp,
            TokenizerKind::Zim,
        ];
        assert(tokenizers@ =~= registry_kinds());
        TokenizerRegistry { root_dir: String::from_str(root_dir), tokenizers }
    }

    /// The tokenizers that handle files at `path`, in registry order.
    pub fn tokenizers_for(&self, path: &str) -> (res: Vec<TokenizerKind>)
        ensures
            res@ == self.tokenizers@.filter(|k: TokenizerKind| kind_supports(k, path@)),
    {
        let mut out: Vec<TokenizerKind> = Vec::new();
        let mut i: usize = 0;
        while i < self.tokenizers.len()
            invariant
                i <= self.tokenizers@.len(),
                out@ == self.tokenizers@.take(i as int).filter(|k: TokenizerKind| kind_supports(k, path@)),
            decreases self.tokenizers@.len() - i,
        {
            proof {
                reveal_with_fuel(Seq::filter, 1);
                assert(self.tokenizers@.take(i + 1).drop_last() =~= self.tokenizers@.take(i as int));
            }
            let k = self.tokenizers[i];
            if k.supports(path) {
                out.push(k);
            }
            i = i + 1;
        }
        assert(self.tokenizers@.take(self.tokenizers@.len() as int) =~= self.tokenizers@);
        out
    }

    /// The tokens of a file: the lists that its tokenizers gave, one after
    /// the other.
    pub fn merge(results: Vec<Vec<String>>) -> (res: Vec<String>)
        ensures
            views(res@) == concat_tokens(results@.map_values(|v: Vec<String>| views(v@))),
    {
        let ghost all = results@.map_values(|v: Vec<String>| views(v@));
        let mut out: Vec<String> = Vec::new();
        let mut i: usize = 0;
        assert(views(out@) =~= concat_tokens(all.take(0)));
        while i < results.len()
            invariant
                i <= results@.len(),
                all == results@.map_values(|v: Vec<String>| views(v@)),
                views(out@) == concat_tokens(all.take(i as int)),
            decreases results@.len() - i,
        {
            proof {
                assert(all.take(i + 1).drop_last() =~= all.take(i as int));
            }
            let ghost before = views(out@);
            let list = &results[i];
            let mut j: usize = 0;
            while j < list.len()
                invariant
                    j <= list@.len(),
                    views(out@) == before + views(list@).take(j as int),
                decreases list@.len() - j,
            {
                let c = list[j].clone();
                let ghost mid = views(out@);
                out.push(c);
                assert(views(out@) =~= mid.push(list@[j as int]@));
                assert(views(list@).take(j + 1) =~= views(list@).take(j as int).push(list@[j as int]@));
                assert(views(out@) =~= before + views(list@).take(j + 1));
                j = j + 1;
            }
            assert(views(list@).take(list@.len() as int) =~= views(list@));
            i = i + 1;
        }
        assert(all.take(results@.len() as int) =~= all);
        out
    }
}

/// Law: the tokens of a list of optional texts are exactly the tokens of
/// each text present: a token belongs to the list's tokens when, and only
/// when, it is a token of one of the texts.
pub proof fn lemma_tokens_of_words_members(words: Seq<Option<Seq<char>>>, t: Seq<char>)
    ensures
        tokens_of_words(words).contains(t)
            <==> exists|i: int| 0 <= i < words.len() && #[trigger] spec_tokens(text_or_empty(words[i])).contains(t),
    decreases words.len(),
{
    if words.len() > 0 {
        let init = words.drop_last();
        lemma_tokens_of_words_members(init, t);
        if tokens_of_words(words).contains(t) {
            if tokens_of_words(init).contains(t) {
                let i = choose|i: int| 0 <= i < init.len() && #[trigger] spec_tokens(text_or_empty(init[i])).contains(t);
                assert(words[i] == init[i]);
            } else {
                assert(spec_tokens(text_or_empty(words[words.len() - 1])).contains(t));
            }
        }
        if exists|i: int| 0 <= i < words.len() && #[trigger] spec_tokens(text_or_empty(words[i])).contains(t) {
            let i = choose|i: int| 0 <= i < words.len() && #[trigger] spec_tokens(text_or_empty(words[i])).contains(t);
            if i < init.len() {
                assert(init[i] == words[i]);
                assert(spec_tokens(text_or_empty(init[i])).contains(t));
            }
        }
    }
}

/// Law: the ID3 tokens are the tokens of the artist, title, album and genre
/// frames together: each frame's tokens are among them, and there are no others.
pub proof fn lemma_id3_tokens_of_frames(tags: &Id3Fields)
    ensures
        id3_tokens(tags) == spec_tokens(text_or_empty(opt_view(tags.artist)))
            .union(spec_tokens(text_or_empty(opt_view(tags.title))))
            .union(spec_tokens(text_or_empty(opt_view(tags.album))))
            .union(spec_tokens(text_or_empty(opt_view(tags.genre)))),
{
    let ws = seq![opt_view(tags.artist), opt_view(tags.title), opt_view(tags.album), opt_view(tags.genre)];
    let u = spec_tokens(text_or_empty(opt_view(tags.artist)))
        .union(spec_tokens(text_or_empty(opt_view(tags.title))))
        .union(spec_tokens(text_or_empty(opt_view(tags.album))))
        .union(spec_tokens(text_or_empty(opt_view(tags.genre))));
    assert forall|t: Seq<char>| id3_tokens(tags).contains(t) <==> u.contains(t) by {
        lemma_tokens_of_words_members(ws, t);
        assert(ws[0] == opt_view(tags.artist));
        assert(ws[1] == opt_view(tags.title));
        assert(ws[2] == opt_view(tags.album));
        assert(ws[3] == opt_view(tags.genre));
    }
    assert(id3_tokens(tags) =~= u);
}

} // verus!
