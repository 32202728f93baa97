//! XMP packets: finding the `<x:xmpmeta>` element in the bytes of a file,
//! reading it as XML events, and picking the texts of the Dublin Core and
//! Photoshop properties that describe the file.
use vstd::prelude::*;
use vstd::slice::{slice_subrange, slice_to_vec};
use vstd::utf8::{decode_utf8, valid_utf8};
use crate::media_metadata::MetadataField;
use crate::text::{str_eq, utf8_to_string};

verus! {

/// The bytes of `<x:xmpmeta`, which opens an XMP packet.
pub open spec fn xmp_open_marker() -> Seq<u8> {
    seq![60u8, 120u8, 58u8, 120u8, 109u8, 112u8, 109u8, 101u8, 116u8, 97u8]
}

/// The bytes of `</x:xmpmeta>`, which closes an XMP packet.
pub open spec fn xmp_close_marker() -> Seq<u8> {
    seq![60u8, 47u8, 120u8, 58u8, 120u8, 109u8, 112u8, 109u8, 101u8, 116u8, 97u8, 62u8]
}

/// The most bytes of a file kept in view while looking for a packet.
pub const XMP_WINDOW_LIMIT: usize = 131072;

/// Whether `m` occurs in `w` at position `i`.
pub open spec fn occurs_at(w: Seq<u8>, m: Seq<u8>, i: int) -> bool {
    0 <= i && i + m.len() <= w.len() && w.subrange(i, i + m.len()) == m
}

/// The first position at which `m` occurs in `w`.
#[verifier::opaque]
pub open spec fn first_occurrence(w: Seq<u8>, m: Seq<u8>) -> Option<int> {
    if exists|i: int| #[trigger] occurs_at(w, m, i) {
        Some(choose|i: int| #[trigger] occurs_at(w, m, i) && forall|j: int| 0 <= j < i ==> !occurs_at(w, m, j))
    } else {
        None
    }
}

/// What a look at the bytes read so far tells.
#[derive(Debug)]
pub enum XmpSearch {
    /// No complete packet yet: read on.
    NotFound,
    /// Both markers were seen: the packet's text, or `None` when its bytes
    /// are not UTF-8 or the closing marker comes first.
    Found(Option<String>),
}

/// The outcome of a look at `w`: when both markers occur, the bytes from the
/// first opening marker through the end of the first closing marker.
pub open spec fn spec_xmp_search(w: Seq<u8>) -> Option<Option<Seq<char>>> {
    match (first_occurrence(w, xmp_open_marker()), first_occurrence(w, xmp_close_marker())) {
        (Some(start), Some(end)) => {
            let stop = end + 12;
            if start <= stop && valid_utf8(w.subrange(start, stop)) {
                Some(Some(decode_utf8(w.subrange(start, stop))))
            } else {
                Some(None)
            }
        },
        _ => None,
    }
}

/// The views of an `XmpSearch`.
pub open spec fn search_view(s: XmpSearch) -> Option<Option<Seq<char>>> {
    match s {
        XmpSearch::NotFound => None,
        XmpSearch::Found(Some(t)) => Some(Some(t@)),
        XmpSearch::Found(None) => Some(None),
    }
}

/// The first position at which `m` occurs in `w`.
pub fn find_marker(w: &[u8], m: &[u8]) -> (res: Option<usize>)
    requires
        m@.len() > 0,
    ensures
        match res {
            Some(i) => first_occurrence(w@, m@) == Some(i as int),
            None => first_occurrence(w@, m@) is None,
        },
{
    reveal(first_occurrence);
    if m.len() > w.len() {
        assert(!exists|i: int| #[trigger] occurs_at(w@, m@, i));
        return None;
    }
    let last: usize = w.len() - m.len();
    let mut i: usize = 0;
    while i <= last
        invariant
            last == w@.len() - m@.len(),
            m@.len() <= w@.len(),
            i <= last + 1,
            forall|k: int| 0 <= k < i ==> !#[trigger] occurs_at(w@, m@, k),
        decreases last + 1 - i,
    {
        let mut j: usize = 0;
        while j < m.len() && w[i + j] == m[j]
            invariant
                i + m@.len() <= w@.len(),
                w@.len() == w.len(),
                m@.len() == m.len(),
                j <= m@.len(),
                forall|t: int| 0 <= t < j ==> w@[i + t] == m@[t],
            decreases m@.len() - j,
        {
            j = j + 1;
        }
        if j == m.len() {
            proof {
                reveal(first_occurrence);
            }
            assert(w@.subrange(i as int, i + m@.len()) =~= m@);
            assert(occurs_at(w@, m@, i as int));
            proof {
                let c = choose|c: int| #[trigger] occurs_at(w@, m@, c) && forall|k: int| 0 <= k < c ==> !occurs_at(w@, m@, k);
                assert(occurs_at(w@, m@, i as int) && forall|k: int| 0 <= k < i ==> !occurs_at(w@, m@, k));
                if c < i {
                } else if c > i {
                    assert(!occurs_at(w@, m@, i as int));
                }
            }
            return Some(i);
        }
        assert(w@.subrange(i as int, i + m@.len())[j as int] != m@[j as int]);
        i = i + 1;
    }
    assert(!exists|k: int| #[trigger] occurs_at(w@, m@, k));
    None
}

/// When `m` occurs in `w`, it occurs somewhere first.
proof fn lemma_min_occurrence(w: Seq<u8>, m: Seq<u8>, k: int)
    requires
        occurs_at(w, m, k),
    ensures
        exists|i: int| #[trigger] occurs_at(w, m, i) && forall|j: int| 0 <= j < i ==> !occurs_at(w, m, j),
    decreases k,
{
    if exists|j: int| 0 <= j < k && #[trigger] occurs_at(w, m, j) {
        let j = choose|j: int| 0 <= j < k && #[trigger] occurs_at(w, m, j);
        lemma_min_occurrence(w, m, j);
    } else {
        assert(occurs_at(w, m, k) && forall|j: int| 0 <= j < k ==> !occurs_at(w, m, j));
    }
}

/// A first occurrence is an occurrence.
pub proof fn lemma_first_occurrence(w: Seq<u8>, m: Seq<u8>)
    ensures
        first_occurrence(w, m) matches Some(i) ==> occurs_at(w, m, i),
{
    reveal(first_occurrence);
    if exists|i: int| #[trigger] occurs_at(w, m, i) {
        let k = choose|i: int| #[trigger] occurs_at(w, m, i);
        lemma_min_occurrence(w, m, k);
    }
}

/// Looks for a complete XMP packet in the bytes read so far.
pub fn search_packet(w: &[u8]) -> (res: XmpSearch)
    ensures
        search_view(res) == spec_xmp_search(w@),
{
    let open: [u8; 10] = [60, 120, 58, 120, 109, 112, 109, 101, 116, 97];
    let close: [u8; 12] = [60, 47, 120, 58, 120, 109, 112, 109, 101, 116, 97, 62];
    assert(open@ =~= xmp_open_marker());
    assert(close@ =~= xmp_close_marker());
    let start = find_marker(w, open.as_slice());
    let end = find_marker(w, close.as_slice());
    proof {
        lemma_first_occurrence(w@, xmp_close_marker());
    }
    match (start, end) {
        (Some(start), Some(end)) => {
            assert(first_occurrence(w@, xmp_close_marker()) == Some(end as int));
            assert(occurs_at(w@, xmp_close_marker(), end as int));
            assert(xmp_close_marker().len() == 12);
            let n = w.len();
            assert(end + 12 <= n);
            let stop = end + 12;
            if start <= stop {
                let bytes = slice_to_vec(slice_subrange(w, start, stop));
                match utf8_to_string(bytes) {
                    Ok(text) => XmpSearch::Found(Some(text)),
                    Err(_) => XmpSearch::Found(None),
                }
            } else {
                XmpSearch::Found(None)
            }
        },
        _ => XmpSearch::NotFound,
    }
}

/// The last `limit` bytes of `w`, or all of them when there are fewer.
pub open spec fn keep_last(w: Seq<u8>, limit: int) -> Seq<u8> {
    if w.len() > limit {
        w.skip(w.len() - limit)
    } else {
        w
    }
}

/// Looks for an XMP packet in a file read chunk by chunk, keeping in view
/// the last `XMP_WINDOW_LIMIT` bytes read.
pub struct XmpScanner {
    window: Vec<u8>,
}

impl XmpScanner {
    /// The bytes in view.
    pub closed spec fn spec_window(&self) -> Seq<u8> {
        self.window@
    }

    /// A scanner that has read nothing.
    pub fn new() -> (res: XmpScanner)
        ensures
            res.spec_window() == Seq::<u8>::empty(),
    {
        XmpScanner { window: Vec::new() }
    }

    /// Adds the next chunk read from the file and looks for a packet in view.
    /// When none is complete, the view is cut down to its last
    /// `XMP_WINDOW_LIMIT` bytes.
    pub fn feed(&mut self, chunk: &[u8]) -> (res: XmpSearch)
        requires
            old(self).spec_window().len() + chunk@.len() <= usize::MAX,
        ensures
            search_view(res) == spec_xmp_search(old(self).spec_window() + chunk@),
            res is NotFound ==> final(self).spec_window() == keep_last(old(self).spec_window() + chunk@, XMP_WINDOW_LIMIT as int),
            res is NotFound ==> final(self).spec_window().len() <= XMP_WINDOW_LIMIT,
            res is Found ==> final(self).spec_window() == old(self).spec_window() + chunk@,
    {
        let mut i: usize = 0;
        let ghost start = self.window@;
        while i < chunk.len()
            invariant
                i <= chunk@.len(),
                start.len() + chunk@.len() <= usize::MAX,
                self.window@ == start + chunk@.take(i as int),
            decreases chunk@.len() - i,
        {
            self.window.push(chunk[i]);
            assert(start + chunk@.take(i + 1) =~= (start + chunk@.take(i as int)).push(chunk@[i as int]));
            i = i + 1;
        }
        assert(chunk@.take(chunk@.len() as int) =~= chunk@);
        let found = search_packet(self.window.as_slice());
        match found {
            XmpSearch::NotFound => {
                if self.window.len() > XMP_WINDOW_LIMIT {
                    let cut = self.window.len() - XMP_WINDOW_LIMIT;
                    let kept = slice_to_vec(slice_subrange(self.window.as_slice(), cut, self.window.len()));
                    self.window = kept;
                    assert(self.window@ =~= keep_last(start + chunk@, XMP_WINDOW_LIMIT as int));
                }
                XmpSearch::NotFound
            },
            XmpSearch::Found(t) => XmpSearch::Found(t),
        }
    }
}

/// An XML event, as far as XMP reading needs it.
#[derive(Debug)]
pub enum XmlEvent {
    /// An opening tag, with its qualified name.
    Start(String),
    /// A closing tag, with its qualified name.
    End(String),
    /// Character data, with line ends normalized.
    Text(String),
    /// Any other event: empty tags, comments, declarations.
    Other,
}

/// The text of an `XmlEvent`.
pub enum XmlEventView {
    Start(Seq<char>),
    End(Seq<char>),
    Text(Seq<char>),
    Other,
}

impl View for XmlEvent {
    type V = XmlEventView;

    open spec fn view(&self) -> XmlEventView {
        match self {
            XmlEvent::Start(s) => XmlEventView::Start(s@),
            XmlEvent::End(s) => XmlEventView::End(s@),
            XmlEvent::Text(s) => XmlEventView::Text(s@),
            XmlEvent::Other => XmlEventView::Other,
        }
    }
}

/// The events of `xml` up to the end of the document, as a `quick_xml`
/// reader with text trimming gives them; `None` when it reports an error.
pub uninterp spec fn xml_events(xml: Seq<char>) -> Option<Seq<XmlEventView>>;

/// The views of a list of events.
pub open spec fn event_views(v: Seq<XmlEvent>) -> Seq<XmlEventView> {
    v.map_values(|e: XmlEvent| e@)
}

/// Reads `xml` with `quick_xml::Reader::from_str`, trimming text, up to the
/// end of the document. Claimed: the result is `xml_events(xml)`.
#[verifier::external_body]
pub(crate) fn read_xml_events(xml: &str) -> (res: Option<Vec<XmlEvent>>)
    ensures
        match res {
            Some(v) => xml_events(xml@) == Some(event_views(v@)),
            None => xml_events(xml@) is None,
        },
{
    let mut reader = quick_xml::Reader::from_str(xml);
    reader.config_mut().trim_text(true);
    let mut events = Vec::new();
    loop {
        match reader.read_event() {
            Ok(quick_xml::events::Event::Start(e)) => events.push(XmlEvent::Start(e.name().as_ref().to_string())),
            Ok(quick_xml::events::Event::End(e)) => events.push(XmlEvent::End(e.name().as_ref().to_string())),
            Ok(quick_xml::events::Event::Text(e)) => events.push(XmlEvent::Text(e.xml10_content().into_owned())),
            Ok(quick_xml::events::Event::Eof) => return Some(events),
            Ok(_) => events.push(XmlEvent::Other),
            Err(_) => return None,
        }
    }
}

/// Where an XMP reader stands after some events: the elements open there,
/// outermost first, and the texts picked so far with the field each describes.
pub struct XmpWalk {
    pub stack: Seq<Seq<char>>,
    pub picked: Seq<(MetadataField, Seq<char>)>,
}

/// The field that the text of an `rdf:li` item describes, by the tag three
/// levels up (`dc:title`, `dc:description`, `dc:subject`, `dc:creator`).
pub open spec fn dc_field(parent: Seq<char>) -> Option<MetadataField> {
    if parent == "dc:title"@ {
        Some(MetadataField::Title)
    } else if parent == "dc:description"@ {
        Some(MetadataField::Description)
    } else if parent == "dc:subject"@ {
        Some(MetadataField::Tags)
    } else if parent == "dc:creator"@ {
        Some(MetadataField::Author)
    } else {
        None
    }
}

/// The tag three levels above the top of the stack, or the first tag when
/// there are fewer than three.
pub open spec fn li_parent(stack: Seq<Seq<char>>) -> Option<Seq<char>> {
    let i = if stack.len() >= 3 { stack.len() - 3 } else { 0 };
    if i < stack.len() {
        Some(stack[i])
    } else {
        None
    }
}

/// The field a non-empty text describes, given the open elements: the text
/// of a `photoshop:Headline` is a title, and the text of each `rdf:li` item
/// of a `dc:title`, `dc:description`, `dc:subject` or `dc:creator` list is
/// a title, description, tag or author.
pub open spec fn text_field(stack: Seq<Seq<char>>) -> Option<MetadataField> {
    if stack.len() == 0 {
        None
    } else if stack.last() == "photoshop:Headline"@ {
        Some(MetadataField::Title)
    } else if stack.last() == "rdf:li"@ {
        match li_parent(stack) {
            Some(p) => dc_field(p),
            None => None,
        }
    } else {
        None
    }
}

/// One event's effect on the walk: an opening tag opens an element, a
/// closing tag closes the innermost one, and a non-empty text is picked when
/// the open elements say which field it describes.
pub open spec fn xmp_step(w: XmpWalk, e: XmlEventView) -> XmpWalk {
    match e {
        XmlEventView::Start(name) => XmpWalk { stack: w.stack.push(name), picked: w.picked },
        XmlEventView::End(_) => if w.stack.len() > 0 {
            XmpWalk { stack: w.stack.drop_last(), picked: w.picked }
        } else {
            w
        },
        XmlEventView::Text(t) => if t.len() == 0 {
            w
        } else {
            match text_field(w.stack) {
                Some(f) => XmpWalk { picked: w.picked.push((f, t)), ..w },
                None => w,
            }
        },
        XmlEventView::Other => w,
    }
}

/// The walk over a list of events, from the start.
pub open spec fn xmp_walk(events: Seq<XmlEventView>) -> XmpWalk
    decreases events.len(),
{
    if events.len() == 0 {
        XmpWalk { stack: Seq::empty(), picked: Seq::empty() }
    } else {
        xmp_step(xmp_walk(events.drop_last()), events.last())
    }
}

/// The texts an XMP reader picks from a list of events, with their fields.
pub open spec fn xmp_picked(events: Seq<XmlEventView>) -> Seq<(MetadataField, Seq<char>)> {
    xmp_walk(events).picked
}

/// The events of the items of an RDF list: each an `rdf:li` element holding a text.
pub open spec fn li_events(items: Seq<Seq<char>>) -> Seq<XmlEventView>
    decreases items.len(),
{
    if items.len() == 0 {
        Seq::empty()
    } else {
        li_events(items.drop_last()) + seq![
            XmlEventView::Start("rdf:li"@),
            XmlEventView::Text(items.last()),
            XmlEventView::End("rdf:li"@),
        ]
    }
}

/// The walk over events followed by one more event.
proof fn lemma_walk_push(e: Seq<XmlEventView>, x: XmlEventView)
    ensures
        xmp_walk(e.push(x)) == xmp_step(xmp_walk(e), x),
{
    assert(e.push(x).drop_last() =~= e);
}

/// Law: every item of a Dublin Core list is picked. After the opening tags
/// of a `dc:title`, `dc:description`, `dc:subject` or `dc:creator` property
/// and of its list container, the text of each `rdf:li` item is picked, in
/// order, with the field of the property, and the open elements are back to
/// where they were after each item.
pub proof fn lemma_list_items_picked(
    prefix: Seq<XmlEventView>,
    property: Seq<char>,
    container: Seq<char>,
    items: Seq<Seq<char>>,
)
    requires
        dc_field(property) is Some,
        forall|k: int| 0 <= k < items.len() ==> (#[trigger] items[k]).len() > 0,
    ensures
        ({
            let base = prefix + seq![XmlEventView::Start(property), XmlEventView::Start(container)];
            let f = dc_field(property)->Some_0;
            &&& xmp_walk(base + li_events(items)).stack == xmp_walk(base).stack
            &&& xmp_walk(base + li_events(items)).picked
                == xmp_walk(base).picked + items.map_values(|t: Seq<char>| (f, t))
        }),
    decreases items.len(),
{
    let base = prefix + seq![XmlEventView::Start(property), XmlEventView::Start(container)];
    let f = dc_field(property)->Some_0;
    let b1 = prefix.push(XmlEventView::Start(property));
    assert(base =~= b1.push(XmlEventView::Start(container)));
    lemma_walk_push(prefix, XmlEventView::Start(property));
    lemma_walk_push(b1, XmlEventView::Start(container));
    let w = xmp_walk(base);
    assert(w.stack.len() >= 2 && w.stack[w.stack.len() - 2] == property);
    if items.len() == 0 {
        assert(base + li_events(items) =~= base);
        assert(items.map_values(|t: Seq<char>| (f, t)) =~= Seq::<(MetadataField, Seq<char>)>::empty());
        assert(w.picked + Seq::<(MetadataField, Seq<char>)>::empty() =~= w.picked);
    } else {
        let init = items.drop_last();
        assert forall|k: int| 0 <= k < init.len() implies (#[trigger] init[k]).len() > 0 by {
            assert(init[k] == items[k]);
        }
        lemma_list_items_picked(prefix, property, container, init);
        let e0 = base + li_events(init);
        let t = items.last();
        assert(t == items[items.len() - 1]);
        let s1 = XmlEventView::Start("rdf:li"@);
        let s2 = XmlEventView::Text(t);
        let s3 = XmlEventView::End("rdf:li"@);
        assert(base + li_events(items) =~= e0.push(s1).push(s2).push(s3));
        lemma_walk_push(e0, s1);
        lemma_walk_push(e0.push(s1), s2);
        lemma_walk_push(e0.push(s1).push(s2), s3);
        let w0 = xmp_walk(e0);
        let st = w0.stack.push("rdf:li"@);
        assert(st.last() == "rdf:li"@);
        reveal_strlit("rdf:li");
        reveal_strlit("photoshop:Headline");
        assert("rdf:li"@.len() != "photoshop:Headline"@.len());
        assert(st.len() >= 3);
        assert(st[st.len() - 3] == property);
        assert(li_parent(st) == Some(property));
        assert(text_field(st) == Some(f));
        assert(st.drop_last() =~= w0.stack);
        assert(items.map_values(|t: Seq<char>| (f, t)) =~= init.map_values(|t: Seq<char>| (f, t)).push((f, t)));
    }
}

/// The views of picked texts.
pub open spec fn picked_views(v: Seq<(MetadataField, String)>) -> Seq<(MetadataField, Seq<char>)> {
    v.map_values(|p: (MetadataField, String)| (p.0, p.1@))
}

/// The field that `dc_field` names for a tag.
fn dc_field_exec(parent: &str) -> (res: Option<MetadataField>)
    ensures
        res == dc_field(parent@),
{
    if str_eq(parent, "dc:title") {
        Some(MetadataField::Title)
    } else if str_eq(parent, "dc:description") {
        Some(MetadataField::Description)
    } else if str_eq(parent, "dc:subject") {
        Some(MetadataField::Tags)
    } else if str_eq(parent, "dc:creator") {
        Some(MetadataField::Author)
    } else {
        None
    }
}

/// The texts of a list of XML events that describe the file, with the field
/// each describes, in order.
pub fn pick_xmp_texts(events: &Vec<XmlEvent>) -> (res: Vec<(MetadataField, String)>)
    ensures
        picked_views(res@) == xmp_picked(event_views(events@)),
{
    let ghost evs = event_views(events@);
    let mut stack: Vec<String> = Vec::new();
    let mut picked: Vec<(MetadataField, String)> = Vec::new();
    let mut i: usize = 0;
    proof {
        assert(evs.take(0) =~= Seq::<XmlEventView>::empty());
        assert(stack@.map_values(|s: String| s@) =~= Seq::<Seq<char>>::empty());
        assert(picked_views(picked@) =~= Seq::<(MetadataField, Seq<char>)>::empty());
    }
    while i < events.len()
        invariant
            i <= events@.len(),
            evs == event_views(events@),
            ({
                let w = xmp_walk(evs.take(i as int));
                &&& stack@.map_values(|s: String| s@) == w.stack
                &&& picked_views(picked@) == w.picked
            }),
        decreases events@.len() - i,
    {
        proof {
            assert(evs.take(i + 1).drop_last() =~= evs.take(i as int));
            assert(evs.take(i + 1).last() == events@[i as int]@);
        }
        match &events[i] {
            XmlEvent::Start(name) => {
                let ghost before = stack@.map_values(|s: String| s@);
                stack.push(name.clone());
                assert(stack@.map_values(|s: String| s@) =~= before.push(name@));
            },
            XmlEvent::End(_) => {
                if stack.len() > 0 {
                    let ghost before = stack@.map_values(|s: String| s@);
                    stack.pop();
                    assert(stack@.map_values(|s: String| s@) =~= before.drop_last());
                }
            },
            XmlEvent::Text(t) => {
                if !t.as_str().is_empty() {
                    let n = stack.len();
                    let field = if n == 0 {
                        None
                    } else {
                        let ghost sv = stack@.map_values(|s: String| s@);
                        assert(sv.last() == stack@[n - 1]@);
                        if str_eq(stack[n - 1].as_str(), "photoshop:Headline") {
                            Some(MetadataField::Title)
                        } else if str_eq(stack[n - 1].as_str(), "rdf:li") {
                            let idx: usize = if n >= 3 { n - 3 } else { 0 };
                            assert(sv[idx as int] == stack@[idx as int]@);
                            dc_field_exec(stack[idx].as_str())
                        } else {
                            None
                        }
                    };
                    match field {
                        Some(f) => {
                            let ghost before = picked_views(picked@);
                            picked.push((f, t.clone()));
                            assert(picked_views(picked@) =~= before.push((f, t@)));
                        },
                        None => {},
                    }
                }
            },
            XmlEvent::Other => {},
        }
        i = i + 1;
    }
    assert(evs.take(events@.len() as int) =~= evs);
    picked
}

/// Law: each Dublin Core property names its own field, and no other tag
/// names one: `dc:title` the title, `dc:description` the description,
/// `dc:subject` the tags and `dc:creator` the author.
pub proof fn lemma_dc_properties(p: Seq<char>)
    ensures
        dc_field(p) == Some(MetadataField::Title) <==> p == "dc:title"@,
        dc_field(p) == Some(MetadataField::Description) <==> p == "dc:description"@,
        dc_field(p) == Some(MetadataField::Tags) <==> p == "dc:subject"@,
        dc_field(p) == Some(MetadataField::Author) <==> p == "dc:creator"@,
        dc_field(p) is Some <==> (p == "dc:title"@ || p == "dc:description"@ || p == "dc:subject"@ || p == "dc:creator"@),
{
    reveal_strlit("dc:title");
    reveal_strlit("dc:description");
    reveal_strlit("dc:subject");
    reveal_strlit("dc:creator");
    assert("dc:title"@ != "dc:description"@ && "dc:title"@ != "dc:subject"@ && "dc:title"@ != "dc:creator"@) by {
        assert("dc:title"@.len() != "dc:description"@.len());
        assert("dc:title"@[3] != "dc:subject"@[3]);
        assert("dc:title"@[3] != "dc:creator"@[3]);
    }
    assert("dc:description"@ != "dc:subject"@ && "dc:description"@ != "dc:creator"@) by {
        assert("dc:description"@.len() != "dc:subject"@.len());
        assert("dc:description"@.len() != "dc:creator"@.len());
    }
    assert("dc:subject"@ != "dc:creator"@) by {
        assert("dc:subject"@[3] != "dc:creator"@[3]);
    }
}

/// Law: the items of a `dc:title`, `dc:description`, `dc:subject` or
/// `dc:creator` list are picked, in order, as the title, the description,
/// the tags or the author respectively.
pub proof fn lemma_dc_lists_picked_as(
    prefix: Seq<XmlEventView>,
    property: Seq<char>,
    field: MetadataField,
    container: Seq<char>,
    items: Seq<Seq<char>>,
)
    requires
        (property == "dc:title"@ && field == MetadataField::Title)
            || (property == "dc:description"@ && field == MetadataField::Description)
            || (property == "dc:subject"@ && field == MetadataField::Tags)
            || (property == "dc:creator"@ && field == MetadataField::Author),
        forall|k: int| 0 <= k < items.len() ==> (#[trigger] items[k]).len() > 0,
    ensures
        ({
            let base = prefix + seq![XmlEventView::Start(property), XmlEventView::Start(container)];
            xmp_walk(base + li_events(items)).picked
                == xmp_walk(base).picked + items.map_values(|t: Seq<char>| (field, t))
        }),
{
    lemma_dc_properties(property);
    lemma_list_items_picked(prefix, property, container, items);
}

} // verus!
