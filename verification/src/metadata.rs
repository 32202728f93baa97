//! Readers of embedded media metadata (EXIF, IPTC, ID3, XMP). Each turns the
//! fields found in a file into a `MediaMetadata`; finding the fields in the
//! file is left to the caller, which hands them over as plain values.
use vstd::prelude::*;
use vstd::utf8::encode_utf8;

use crate::exif_text::{hex_string_to_bytes, spec_hex_bytes, spec_user_comment, user_comment_to_string};
use crate::media_metadata::{empty_metadata, is_indexable_human_text, sanitize_words, spec_extend, spec_is_human_text, spec_is_null, spec_sanitize, spec_set, MediaMetadata, MetadataField, MetadataView};
use crate::paths::{image_extensions, is_image_file, is_jpeg_file, is_mp3_file, jpeg_extensions, spec_is_file_type};
use crate::text::{join, join_with, opt_view};
use crate::xmp::{pick_xmp_texts, picked_views, read_xml_events, xml_events, xmp_picked};

verus! {

/// A reader of one kind of embedded metadata.
pub trait MetadataExtractor {
    /// Whether files at `path` may carry this kind of metadata.
    fn supports(&self, path: &str) -> bool;
}

/// Why metadata could not be read.
#[derive(Debug, Clone, Copy, PartialEq, Eq, Structural)]
pub enum MetadataError {
    /// The XMP packet is not well-formed XML.
    InvalidXml,
}

/// The metadata, unless it counts as empty.
pub open spec fn unless_null(m: MetadataView) -> Option<MetadataView> {
    if spec_is_null(m) {
        None
    } else {
        Some(m)
    }
}

/// The views of an optional metadata.
pub open spec fn opt_metadata_view(o: Option<MediaMetadata>) -> Option<MetadataView> {
    match o {
        Some(m) => Some(m@),
        None => None,
    }
}

fn some_unless_null(m: MediaMetadata) -> (res: Option<MediaMetadata>)
    ensures
        opt_metadata_view(res) == unless_null(m@),
{
    if !m.is_null() {
        Some(m)
    } else {
        None
    }
}

/// The EXIF tags that carry descriptive text.
#[derive(Debug, Clone, Copy, PartialEq, Eq, Structural)]
pub enum ExifTag {
    ImageDescription,
    Artist,
    UserComment,
    Other,
}

/// An EXIF field: its tag and its value as displayed with its unit.
#[derive(Debug)]
pub struct ExifField {
    pub tag: ExifTag,
    pub value: String,
}

/// The text of a user comment displayed as a hexadecimal dump.
pub open spec fn comment_text(value: Seq<char>) -> Option<Seq<char>> {
    match spec_hex_bytes(encode_utf8(value)) {
        Some(b) => spec_user_comment(b),
        None => None,
    }
}

/// The sanitized text of a field, when it is not empty.
pub open spec fn sanitized_nonempty(value: Seq<char>) -> Option<Seq<char>> {
    let v = spec_sanitize(value);
    if v.len() > 0 {
        Some(v)
    } else {
        None
    }
}

/// What one EXIF field contributes to the metadata: a description or an
/// artist sets the title or the author; a user comment that reads as human
/// text sets the description. Empty values are skipped.
pub open spec fn exif_step(m: MetadataView, tag: ExifTag, value: Seq<char>) -> MetadataView {
    match tag {
        ExifTag::ImageDescription => match sanitized_nonempty(value) {
            Some(v) => spec_set(m, MetadataField::Title, v),
            None => m,
        },
        ExifTag::Artist => match sanitized_nonempty(value) {
            Some(v) => spec_set(m, MetadataField::Author, v),
            None => m,
        },
        ExifTag::UserComment => match comment_text(value) {
            Some(d) => if spec_is_human_text(d) {
                match sanitized_nonempty(d) {
                    Some(v) => spec_set(m, MetadataField::Description, v),
                    None => m,
                }
            } else {
                m
            },
            None => m,
        },
        ExifTag::Other => m,
    }
}

/// The metadata that a list of EXIF fields gives, field after field.
pub open spec fn exif_metadata(fields: Seq<ExifField>) -> MetadataView
    decreases fields.len(),
{
    if fields.len() == 0 {
        empty_metadata()
    } else {
        exif_step(exif_metadata(fields.drop_last()), fields.last().tag, fields.last().value@)
    }
}

/// The text of a user comment displayed as a hexadecimal dump.
pub fn exif_comment_text(value: &str) -> (res: Option<String>)
    ensures
        opt_view(res) == comment_text(value@),
{
    match hex_string_to_bytes(value) {
        Some(b) => user_comment_to_string(b.as_slice()),
        None => None,
    }
}

fn sanitized_value(value: &str) -> (res: Option<String>)
    ensures
        opt_view(res) == sanitized_nonempty(value@),
{
    let v = sanitize_words(value);
    if !v.as_str().is_empty() {
        Some(v)
    } else {
        None
    }
}

/// Reads EXIF metadata.
pub struct ExifMetadataExtractor;

impl MetadataExtractor for ExifMetadataExtractor {
    fn supports(&self, path: &str) -> (res: bool)
        ensures
            res == spec_is_file_type(path@, image_extensions()),
    {
        is_image_file(path)
    }
}

impl ExifMetadataExtractor {
    /// The metadata that the EXIF fields of a file give, unless it counts as empty.
    pub fn extract(&self, fields: &Vec<ExifField>) -> (res: Option<MediaMetadata>)
        ensures
            opt_metadata_view(res) == unless_null(exif_metadata(fields@)),
    {
        let mut metadata = MediaMetadata::new();
        let mut i: usize = 0;
        while i < fields.len()
            invariant
                i <= fields@.len(),
                metadata@ == exif_metadata(fields@.take(i as int)),
            decreases fields@.len() - i,
        {
            proof {
                assert(fields@.take(i + 1).drop_last() =~= fields@.take(i as int));
            }
            let f = &fields[i];
            match f.tag {
                ExifTag::ImageDescription => {
                    if let Some(v) = sanitized_value(f.value.as_str()) {
                        metadata.set(MetadataField::Title, v);
                    }
                },
                ExifTag::Artist => {
                    if let Some(v) = sanitized_value(f.value.as_str()) {
                        metadata.set(MetadataField::Author, v);
                    }
                },
                ExifTag::UserComment => {
                    if let Some(d) = exif_comment_text(f.value.as_str()) {
                        if is_indexable_human_text(d.as_str()) {
                            if let Some(v) = sanitized_value(d.as_str()) {
                                metadata.set(MetadataField::Description, v);
                            }
                        }
                    }
                },
                ExifTag::Other => {},
            }
            i = i + 1;
        }
        assert(fields@.take(fields@.len() as int) =~= fields@);
        some_unless_null(metadata)
    }
}

/// The IPTC datasets that carry descriptive text.
#[derive(Debug, Clone, Copy, PartialEq, Eq, Structural)]
pub enum IptcTag {
    ObjectName,
    Headline,
    Caption,
    LocalCaption,
    RasterizedCaption,
    Keywords,
    SupplementalCategories,
    Category,
    SubjectReference,
    ByLine,
    ByLineTitle,
    Credit,
    Other,
}

/// An IPTC dataset: its tag and its values.
#[derive(Debug)]
pub struct IptcField {
    pub tag: IptcTag,
    pub values: Vec<String>,
}

/// The metadata field an IPTC dataset feeds: names and headlines the title,
/// captions the description, keywords and categories the tags, bylines and
/// credits the author.
pub open spec fn iptc_field(tag: IptcTag) -> Option<MetadataField> {
    match tag {
        IptcTag::ObjectName | IptcTag::Headline => Some(MetadataField::Title),
        IptcTag::Caption | IptcTag::LocalCaption | IptcTag::RasterizedCaption => Some(MetadataField::Description),
        IptcTag::Keywords | IptcTag::SupplementalCategories | IptcTag::Category | IptcTag::SubjectReference => Some(MetadataField::Tags),
        IptcTag::ByLine | IptcTag::ByLineTitle | IptcTag::Credit => Some(MetadataField::Author),
        IptcTag::Other => None,
    }
}

fn iptc_field_exec(tag: IptcTag) -> (res: Option<MetadataField>)
    ensures
        res == iptc_field(tag),
{
    match tag {
        IptcTag::ObjectName | IptcTag::Headline => Some(MetadataField::Title),
        IptcTag::Caption | IptcTag::LocalCaption | IptcTag::RasterizedCaption => Some(MetadataField::Description),
        IptcTag::Keywords | IptcTag::SupplementalCategories | IptcTag::Category | IptcTag::SubjectReference => Some(MetadataField::Tags),
        IptcTag::ByLine | IptcTag::ByLineTitle | IptcTag::Credit => Some(MetadataField::Author),
        IptcTag::Other => None,
    }
}

/// The views of a list of strings.
pub open spec fn string_views(v: Seq<String>) -> Seq<Seq<char>> {
    v.map_values(|s: String| s@)
}

/// The metadata that a list of IPTC datasets gives: the values of each
/// dataset, joined by spaces and sanitized, are added to the field it feeds.
pub open spec fn iptc_metadata(fields: Seq<IptcField>) -> MetadataView
    decreases fields.len(),
{
    if fields.len() == 0 {
        empty_metadata()
    } else {
        let m = iptc_metadata(fields.drop_last());
        let f = fields.last();
        match iptc_field(f.tag) {
            Some(field) => spec_extend(m, field, spec_sanitize(join_with(string_views(f.values@), seq![' ']))),
            None => m,
        }
    }
}

/// Reads IPTC metadata.
pub struct IptcMetadataExtractor;

impl MetadataExtractor for IptcMetadataExtractor {
    fn supports(&self, path: &str) -> (res: bool)
        ensures
            res == spec_is_file_type(path@, jpeg_extensions()),
    {
        is_jpeg_file(path)
    }
}

impl IptcMetadataExtractor {
    /// The metadata that the IPTC datasets of a file give, unless it counts as empty.
    pub fn extract(&self, fields: &Vec<IptcField>) -> (res: Option<MediaMetadata>)
        ensures
            opt_metadata_view(res) == unless_null(iptc_metadata(fields@)),
    {
        let mut metadata = MediaMetadata::new();
        let mut i: usize = 0;
        proof {
            reveal_strlit(" ");
            assert(" "@ =~= seq![' ']);
        }
        while i < fields.len()
            invariant
                i <= fields@.len(),
                " "@ == seq![' '],
                metadata@ == iptc_metadata(fields@.take(i as int)),
            decreases fields@.len() - i,
        {
            proof {
                assert(fields@.take(i + 1).drop_last() =~= fields@.take(i as int));
            }
            let f = &fields[i];
            if let Some(field) = iptc_field_exec(f.tag) {
                let joined = join(f.values.as_slice(), " ");
                metadata.extend(field, sanitize_words(joined.as_str()));
            }
            i = i + 1;
        }
        assert(fields@.take(fields@.len() as int) =~= fields@);
        some_unless_null(metadata)
    }
}

/// The ID3 frames that carry descriptive text.
#[derive(Debug)]
pub struct Id3Fields {
    pub artist: Option<String>,
    pub title: Option<String>,
    pub album: Option<String>,
    pub genre: Option<String>,
}

/// The metadata that ID3 frames give: the artist is the author, the album
/// the description and the genre the tags.
pub open spec fn id3_metadata(t: &Id3Fields) -> MetadataView {
    MetadataView {
        title: opt_view(t.title),
        description: opt_view(t.album),
        tags: opt_view(t.genre),
        author: opt_view(t.artist),
    }
}

/// Reads ID3 tags.
pub struct Id3MetadataExtractor;

impl MetadataExtractor for Id3MetadataExtractor {
    fn supports(&self, path: &str) -> (res: bool)
        ensures
            res == spec_is_file_type(path@, seq!["mp3"@]),
    {
        is_mp3_file(path)
    }
}

impl Id3MetadataExtractor {
    /// The metadata that the ID3 frames of a file give, unless it counts as empty.
    pub fn extract(&self, tags: &Id3Fields) -> (res: Option<MediaMetadata>)
        ensures
            opt_metadata_view(res) == unless_null(id3_metadata(tags)),
    {
        let metadata = MediaMetadata {
            title: tags.title.clone(),
            description: tags.album.clone(),
            tags: tags.genre.clone(),
            author: tags.artist.clone(),
        };
        proof {
            assert(metadata@ =~= id3_metadata(tags));
        }
        some_unless_null(metadata)
    }
}

/// The metadata that the picked texts of an XMP packet give, added one
/// after the other to their fields.
pub open spec fn xmp_metadata(picked: Seq<(MetadataField, Seq<char>)>) -> MetadataView
    decreases picked.len(),
{
    if picked.len() == 0 {
        empty_metadata()
    } else {
        spec_extend(xmp_metadata(picked.drop_last()), picked.last().0, picked.last().1)
    }
}

/// What reading an XMP packet gives: nothing without a packet, an error when
/// the packet is not well-formed XML, else the metadata of its picked texts
/// unless it counts as empty.
pub open spec fn spec_xmp_extract(packet: Option<Seq<char>>) -> Result<Option<MetadataView>, MetadataError> {
    match packet {
        None => Ok(None),
        Some(xml) => match xml_events(xml) {
            None => Err(MetadataError::InvalidXml),
            Some(events) => Ok(unless_null(xmp_metadata(xmp_picked(events)))),
        },
    }
}

/// Reads XMP packets.
pub struct XmpMetadataExtractor;

impl MetadataExtractor for XmpMetadataExtractor {
    fn supports(&self, path: &str) -> (res: bool)
        ensures
            res == spec_is_file_type(path@, image_extensions()),
    {
        is_image_file(path)
    }
}

impl XmpMetadataExtractor {
    /// The metadata that an XMP packet gives (see `spec_xmp_extract`).
    pub fn extract(&self, packet: Option<&str>) -> (res: Result<Option<MediaMetadata>, MetadataError>)
        ensures
            match res {
                Ok(m) => spec_xmp_extract(match packet { Some(p) => Some(p@), None => None }) == Ok::<Option<MetadataView>, MetadataError>(opt_metadata_view(m)),
                Err(e) => spec_xmp_extract(match packet { Some(p) => Some(p@), None => None }) == Err::<Option<MetadataView>, MetadataError>(e),
            },
    {
        let xml = match packet {
            Some(x) => x,
            None => return Ok(None),
        };
        let events = match read_xml_events(xml) {
            Some(e) => e,
            None => return Err(MetadataError::InvalidXml),
        };
        let picked = pick_xmp_texts(&events);
        let ghost pv = picked_views(picked@);
        let mut metadata = MediaMetadata::new();
        let mut i: usize = 0;
        while i < picked.len()
            invariant
                i <= picked@.len(),
                pv == picked_views(picked@),
                metadata@ == xmp_metadata(pv.take(i as int)),
            decreases picked@.len() - i,
        {
            proof {
                assert(pv.take(i + 1).drop_last() =~= pv.take(i as int));
            }
            let (field, text) = (picked[i].0, picked[i].1.clone());
            metadata.extend(field, text);
            i = i + 1;
        }
        assert(pv.take(picked@.len() as int) =~= pv);
        Ok(some_unless_null(metadata))
    }
}

/// The metadata readers, by kind.
#[derive(Debug, Clone, Copy, PartialEq, Eq, Structural)]
pub enum ExtractorKind {
    Exif,
    Iptc,
    Id3,
    Xmp,
}

/// Whether a reader of the given kind handles files at `path`.
pub open spec fn kind_supports(kind: ExtractorKind, path: Seq<char>) -> bool {
    match kind {
        ExtractorKind::Exif => spec_is_file_type(path, image_extensions()),
        ExtractorKind::Iptc => spec_is_file_type(path, jpeg_extensions()),
        ExtractorKind::Id3 => spec_is_file_type(path, seq!["mp3"@]),
        ExtractorKind::Xmp => spec_is_file_type(path, image_extensions()),
    }
}

impl MetadataExtractor for ExtractorKind {
    fn supports(&self, path: &str) -> (res: bool)
        ensures
            res == kind_supports(*self, path@),
    {
        match self {
            ExtractorKind::Exif => ExifMetadataExtractor.supports(path),
            ExtractorKind::Iptc => IptcMetadataExtractor.supports(path),
            ExtractorKind::Id3 => Id3MetadataExtractor.supports(path),
            ExtractorKind::Xmp => XmpMetadataExtractor.supports(path),
        }
    }
}

/// The metadata readers that the metadata tokenizer runs on a file.
pub struct MetadataExtractorRegistry {
    pub extractors: Vec<ExtractorKind>,
}

impl MetadataExtractorRegistry {
    /// The EXIF and the IPTC readers.
    pub fn new() -> (res: MetadataExtractorRegistry)
        ensures
            res.extractors@ == seq![ExtractorKind::Exif, ExtractorKind::Iptc],
    {
        MetadataExtractorRegistry { extractors: vec![ExtractorKind::Exif, ExtractorKind::Iptc] }
    }

    /// The readers that handle files at `path`, in registry order.
    pub fn extractors_for(&self, path: &str) -> (res: Vec<ExtractorKind>)
        ensures
            res@ == self.extractors@.filter(|k: ExtractorKind| kind_supports(k, path@)),
    {
        let mut out: Vec<ExtractorKind> = Vec::new();
        let mut i: usize = 0;
        while i < self.extractors.len()
            invariant
                i <= self.extractors@.len(),
                out@ == self.extractors@.take(i as int).filter(|k: ExtractorKind| kind_supports(k, path@)),
            decreases self.extractors@.len() - i,
        {
            proof {
                reveal_with_fuel(Seq::filter, 1);
                assert(self.extractors@.take(i + 1).drop_last() =~= self.extractors@.take(i as int));
            }
            let k = self.extractors[i];
            if k.supports(path) {
                out.push(k);
            }
            i = i + 1;
        }
        assert(self.extractors@.take(self.extractors@.len() as int) =~= self.extractors@);
        out
    }

    /// The metadata that the readers found, in order; readers that found
    /// none are left out.
    pub fn collect(results: Vec<Option<MediaMetadata>>) -> (res: Vec<MediaMetadata>)
        ensures
            res@.map_values(|m: MediaMetadata| m@) == somes(option_views(results@)),
    {
        let ghost all = option_views(results@);
        let mut rest = results;
        let mut out: Vec<MediaMetadata> = Vec::new();
        let ghost mut k: int = 0;
        assert(all.skip(0) =~= all);
        assert(all.take(0) =~= Seq::<Option<MetadataView>>::empty());
        assert(out@.map_values(|m: MediaMetadata| m@) =~= Seq::<MetadataView>::empty());
        while rest.len() > 0
            invariant
                0 <= k <= all.len(),
                option_views(rest@) == all.skip(k),
                out@.map_values(|m: MediaMetadata| m@) == somes(all.take(k)),
            decreases rest@.len(),
        {
            let ghost rv = option_views(rest@);
            assert(rv.len() == rest@.len());
            assert(k < all.len());
            assert(rv[0] == all.skip(k)[0]);
            assert(rv[0] == all[k]);
            let ghost old_rest = rest@;
            let o = rest.remove(0);
            proof {
                assert(rest@ =~= old_rest.subrange(1, old_rest.len() as int));
                assert forall|j: int| 0 <= j < rest@.len() implies
                    #[trigger] option_views(rest@)[j] == all.skip(k + 1)[j] by {
                    assert(rest@[j] == old_rest[j + 1]);
                    assert(rv[j + 1] == all.skip(k)[j + 1]);
                }
                assert(all.take(k + 1).drop_last() =~= all.take(k));
                assert(all.take(k + 1).last() == opt_metadata_view(o));
                assert(option_views(rest@) =~= all.skip(k + 1));
            }
            let ghost before = out@.map_values(|m: MediaMetadata| m@);
            match o {
                Some(m) => {
                    out.push(m);
                    assert(out@.map_values(|m: MediaMetadata| m@) =~= before.push(m@));
                },
                None => {},
            }
            proof {
                k = k + 1;
            }
        }
        assert(all.take(k) =~= all);
        out
    }
}

/// The views of a list of optional metadata.
pub open spec fn option_views(v: Seq<Option<MediaMetadata>>) -> Seq<Option<MetadataView>> {
    v.map_values(|o: Option<MediaMetadata>| opt_metadata_view(o))
}

/// The metadata present in a list, in order.
pub open spec fn somes(s: Seq<Option<MetadataView>>) -> Seq<MetadataView>
    decreases s.len(),
{
    if s.len() == 0 {
        Seq::empty()
    } else {
        let r = somes(s.drop_last());
        match s.last() {
            Some(m) => r.push(m),
            None => r,
        }
    }
}

/// Law: the ID3 metadata keeps each frame in its own field: the title frame
/// is the title, the album the description, the genre the tags and the
/// artist the author. It is missing exactly when the artist, album and genre
/// frames are all missing (the title does not count).
pub proof fn lemma_id3_metadata_fields(tags: &Id3Fields)
    ensures
        unless_null(id3_metadata(tags)) is None <==> (tags.artist is None && tags.album is None && tags.genre is None),
        unless_null(id3_metadata(tags)) matches Some(m) ==> {
            &&& (m.title is Some <==> tags.title is Some)
            &&& (tags.title matches Some(t) ==> m.title == Some(t@))
            &&& (m.description is Some <==> tags.album is Some)
            &&& (tags.album matches Some(a) ==> m.description == Some(a@))
            &&& (m.tags is Some <==> tags.genre is Some)
            &&& (tags.genre matches Some(g) ==> m.tags == Some(g@))
            &&& (m.author is Some <==> tags.artist is Some)
            &&& (tags.artist matches Some(a) ==> m.author == Some(a@))
        },
{
}

} // verus!
