//! Reading an AppStream catalogue: from the stream of XML tokens, the metadata
//! of each `<component>` by its id.
use crate::model::AppstreamMeta;
use crate::text::{chars_of, str_eq, string_from_chars, trim, trim_str};
use quick_xml::events::Event::{Empty, End, Eof, Start, Text};
use vstd::prelude::*;

verus! {

/// One attribute of a start tag: its key as text, and its value when that is valid UTF-8.
#[derive(Debug)]
pub struct XmlAttr {
    pub key: String,
    pub value: Option<String>,
}

/// One token of an XML document, as the reader yields it (text already trimmed).
/// An attribute that could not be read is `None`.
#[derive(Debug)]
pub enum XmlToken {
    Start { name: String, attrs: Vec<Option<XmlAttr>> },
    Empty { name: String, attrs: Vec<Option<XmlAttr>> },
    End { name: String },
    Text(String),
    Other,
}

pub type AttrView = Option<(Seq<char>, Option<Seq<char>>)>;

pub open spec fn attr_view(a: Option<XmlAttr>) -> AttrView {
    match a {
        Some(x) => Some(
            (
                x.key@,
                match x.value {
                    Some(v) => Some(v@),
                    None => None,
                },
            ),
        ),
        None => None,
    }
}

pub open spec fn attrs_view(v: Seq<Option<XmlAttr>>) -> Seq<AttrView> {
    v.map_values(|a: Option<XmlAttr>| attr_view(a))
}

pub enum TokenView {
    Start { name: Seq<char>, attrs: Seq<AttrView> },
    Empty { name: Seq<char>, attrs: Seq<AttrView> },
    End { name: Seq<char> },
    Text(Seq<char>),
    Other,
}

pub open spec fn token_view(t: XmlToken) -> TokenView {
    match t {
        XmlToken::Start { name, attrs } => TokenView::Start { name: name@, attrs: attrs_view(attrs@) },
        XmlToken::Empty { name, attrs } => TokenView::Empty { name: name@, attrs: attrs_view(attrs@) },
        XmlToken::End { name } => TokenView::End { name: name@ },
        XmlToken::Text(t) => TokenView::Text(t@),
        XmlToken::Other => TokenView::Other,
    }
}

pub struct MetaView {
    pub name: Seq<char>,
    pub summary: Seq<char>,
    pub description: Seq<char>,
    pub version: Option<Seq<char>>,
    pub license: Option<Seq<char>>,
    pub developer: Option<Seq<char>>,
    pub homepage: Option<Seq<char>>,
}

pub open spec fn ov(o: Option<String>) -> Option<Seq<char>> {
    match o {
        Some(s) => Some(s@),
        None => None,
    }
}

pub open spec fn meta_view(m: AppstreamMeta) -> MetaView {
    MetaView {
        name: m.name@,
        summary: m.summary@,
        description: m.description@,
        version: ov(m.version),
        license: ov(m.license),
        developer: ov(m.developer),
        homepage: ov(m.homepage),
    }
}

pub open spec fn empty_meta() -> MetaView {
    MetaView {
        name: seq![],
        summary: seq![],
        description: seq![],
        version: None,
        license: None,
        developer: None,
        homepage: None,
    }
}

/// The reader's state between tokens.
pub struct ScanView {
    pub in_component: bool,
    pub meta: MetaView,
    pub id: Seq<char>,
    pub current_tag: Seq<char>,
    pub in_desc: bool,
    pub in_url: bool,
    pub url_type: Seq<char>,
    pub text_buf: Seq<char>,
    pub in_releases: bool,
    pub in_developer: bool,
    pub map: Map<Seq<char>, MetaView>,
}

pub open spec fn initial_scan() -> ScanView {
    ScanView {
        in_component: false,
        meta: empty_meta(),
        id: seq![],
        current_tag: seq![],
        in_desc: false,
        in_url: false,
        url_type: seq![],
        text_buf: seq![],
        in_releases: false,
        in_developer: false,
        map: Map::empty(),
    }
}

/// The value of the first readable attribute named `key` (`None` also when that value is not UTF-8).
pub open spec fn attr_value(attrs: Seq<AttrView>, key: Seq<char>) -> Option<Seq<char>>
    decreases attrs.len(),
{
    if attrs.len() == 0 {
        None
    } else {
        match attrs[0] {
            Some((k, v)) => if k == key {
                v
            } else {
                attr_value(attrs.drop_first(), key)
            },
            None => attr_value(attrs.drop_first(), key),
        }
    }
}

/// Some readable attribute is named `key`.
pub open spec fn has_attr(attrs: Seq<AttrView>, key: Seq<char>) -> bool {
    exists|i: int| 0 <= i < attrs.len() && (#[trigger] attrs[i] matches Some((k, v)) && k == key)
}

pub open spec fn start_step(st: ScanView, name: Seq<char>, attrs: Seq<AttrView>) -> ScanView {
    if name == "component"@ {
        ScanView { in_component: true, meta: empty_meta(), id: seq![], ..st }
    } else if st.in_component {
        if !has_attr(attrs, "xml:lang"@) {
            let st2 = if name == "description"@ {
                ScanView { in_desc: true, ..st }
            } else if name == "url"@ {
                ScanView {
                    in_url: true,
                    url_type: match attr_value(attrs, "type"@) {
                        Some(t) => t,
                        None => seq![],
                    },
                    ..st
                }
            } else if name == "releases"@ {
                ScanView { in_releases: true, ..st }
            } else if name == "release"@ && st.in_releases && st.meta.version is None {
                ScanView {
                    meta: MetaView { version: attr_value(attrs, "version"@), ..st.meta },
                    ..st
                }
            } else if name == "developer"@ {
                ScanView { in_developer: true, ..st }
            } else {
                st
            };
            ScanView { current_tag: name, ..st2 }
        } else {
            ScanView { current_tag: seq![], ..st }
        }
    } else {
        st
    }
}

pub open spec fn empty_step(st: ScanView, name: Seq<char>, attrs: Seq<AttrView>) -> ScanView {
    if st.in_component && name == "release"@ && st.in_releases && st.meta.version is None {
        ScanView { meta: MetaView { version: attr_value(attrs, "version"@), ..st.meta }, ..st }
    } else {
        st
    }
}

pub open spec fn end_step(st: ScanView, name: Seq<char>) -> ScanView {
    if name == "component"@ {
        if st.id.len() > 0 {
            let m = MetaView { description: trim(st.text_buf), ..st.meta };
            ScanView {
                in_component: false,
                meta: m,
                text_buf: seq![],
                map: st.map.insert(st.id, m),
                ..st
            }
        } else {
            ScanView { in_component: false, ..st }
        }
    } else if st.in_component {
        if name == "description"@ {
            ScanView { in_desc: false, ..st }
        } else if name == "url"@ {
            ScanView { in_url: false, url_type: seq![], ..st }
        } else if name == "releases"@ {
            ScanView { in_releases: false, ..st }
        } else if name == "developer"@ {
            ScanView { in_developer: false, ..st }
        } else {
            st
        }
    } else {
        st
    }
}

pub open spec fn text_step(st: ScanView, txt: Seq<char>) -> ScanView {
    if !st.in_component {
        st
    } else if st.in_desc {
        ScanView { text_buf: st.text_buf + txt + seq![' '], ..st }
    } else if st.in_developer {
        ScanView { meta: MetaView { developer: Some(trim(txt)), ..st.meta }, ..st }
    } else if st.current_tag.len() > 0 {
        let t = trim(txt);
        let tag = st.current_tag;
        let st2 = if tag == "id"@ {
            ScanView { id: txt, ..st }
        } else if tag == "name"@ {
            ScanView { meta: MetaView { name: t, ..st.meta }, ..st }
        } else if tag == "summary"@ {
            ScanView { meta: MetaView { summary: t, ..st.meta }, ..st }
        } else if tag == "project_license"@ {
            ScanView { meta: MetaView { license: Some(t), ..st.meta }, ..st }
        } else if tag == "developer_name"@ {
            ScanView { meta: MetaView { developer: Some(t), ..st.meta }, ..st }
        } else {
            st
        };
        if st2.in_url && st2.url_type == "homepage"@ {
            ScanView { meta: MetaView { homepage: Some(t), ..st2.meta }, in_url: false, ..st2 }
        } else {
            st2
        }
    } else {
        st
    }
}

pub open spec fn scan_step(st: ScanView, tok: TokenView) -> ScanView {
    match tok {
        TokenView::Start { name, attrs } => start_step(st, name, attrs),
        TokenView::Empty { name, attrs } => empty_step(st, name, attrs),
        TokenView::End { name } => end_step(st, name),
        TokenView::Text(t) => text_step(st, t),
        TokenView::Other => st,
    }
}

pub open spec fn scan(toks: Seq<XmlToken>) -> ScanView
    decreases toks.len(),
{
    if toks.len() == 0 {
        initial_scan()
    } else {
        scan_step(scan(toks.drop_last()), token_view(toks.last()))
    }
}

/// The catalogue that a token stream describes: each component's metadata by its id.
pub open spec fn catalogue(toks: Seq<XmlToken>) -> Map<Seq<char>, MetaView> {
    scan(toks).map
}

pub open spec fn token_views(toks: Seq<XmlToken>) -> Seq<TokenView> {
    toks.map_values(|t: XmlToken| token_view(t))
}

pub open spec fn scan_views(toks: Seq<TokenView>) -> ScanView
    decreases toks.len(),
{
    if toks.len() == 0 {
        initial_scan()
    } else {
        scan_step(scan_views(toks.drop_last()), toks.last())
    }
}

/// The catalogue that the tokens of a document describe.
pub open spec fn catalogue_of_views(toks: Seq<TokenView>) -> Map<Seq<char>, MetaView> {
    scan_views(toks).map
}

proof fn lemma_scan_views(toks: Seq<XmlToken>)
    ensures
        scan(toks) == scan_views(token_views(toks)),
    decreases toks.len(),
{
    if toks.len() > 0 {
        lemma_scan_views(toks.drop_last());
        assert(token_views(toks).drop_last() =~= token_views(toks.drop_last()));
    }
}

/// One event of quick-xml's reader: a tag with its name and the raw text of
/// its attributes, an end tag, a text, or anything else.
pub enum XmlEvent {
    /// A start tag: its name and the raw text of its attributes.
    Start(String, String),
    /// An empty tag: its name and the raw text of its attributes.
    Empty(String, String),
    /// An end tag: its name.
    End(String),
    Text(String),
    Other,
}

pub enum EventView {
    Start { name: Seq<char>, attrs: Seq<char> },
    Empty { name: Seq<char>, attrs: Seq<char> },
    End { name: Seq<char> },
    Text(Seq<char>),
    Other,
}

pub open spec fn event_view(e: XmlEvent) -> EventView {
    match e {
        XmlEvent::Start(name, attrs) => EventView::Start { name: name@, attrs: attrs@ },
        XmlEvent::Empty(name, attrs) => EventView::Empty { name: name@, attrs: attrs@ },
        XmlEvent::End(name) => EventView::End { name: name@ },
        XmlEvent::Text(t) => EventView::Text(t@),
        XmlEvent::Other => EventView::Other,
    }
}

pub open spec fn event_views(v: Seq<XmlEvent>) -> Seq<EventView> {
    v.map_values(|e: XmlEvent| event_view(e))
}

/// The events that quick-xml's reader yields for the document `doc`, with
/// text trimmed, up to its end or its first error.
pub uninterp spec fn xml_events_of(doc: Seq<u8>) -> Seq<EventView>;

/// The attributes that quick-xml reads from the raw attribute text of a tag.
pub uninterp spec fn xml_attrs_of(raw: Seq<char>) -> Seq<AttrView>;

/// `quick_xml::Reader::from_reader` on the bytes, with `trim_text(true)`, then
/// `read_event` until the end or the first error; each event as an `XmlEvent`
/// (`QName` and `BytesText` as their text, `attributes_raw` for the attributes).
/// The events are named by `xml_events_of`.
#[verifier::external_body]
fn read_xml_events(doc: &[u8]) -> (r: Vec<XmlEvent>)
    ensures
        event_views(r@) == xml_events_of(doc@),
{
    let mut xml = quick_xml::Reader::from_reader(doc);
    xml.config_mut().trim_text(true);
    let mut out = Vec::new();
    loop {
        out.push(match xml.read_event() {
            Ok(Start(e)) => XmlEvent::Start(e.name().as_ref().into(), e.attributes_raw().into()),
            Ok(Empty(e)) => XmlEvent::Empty(e.name().as_ref().into(), e.attributes_raw().into()),
            Ok(End(e)) => XmlEvent::End(e.name().as_ref().into()),
            Ok(Text(e)) => XmlEvent::Text(String::from(&*e)),
            Ok(Eof) | Err(_) => return out,
            Ok(_) => XmlEvent::Other,
        });
    }
}

/// `BytesStart::from_content` on the raw attribute text, then `attributes`:
/// each attribute with its key and value, or `None` where one could not be
/// read. The attributes are named by `xml_attrs_of`.
#[verifier::external_body]
fn read_xml_attrs(raw: &str) -> (r: Vec<Option<XmlAttr>>)
    ensures
        attrs_view(r@) == xml_attrs_of(raw@),
{
    let tag = quick_xml::events::BytesStart::from_content(raw, 0);
    tag.attributes().map(|a| a.ok().map(|a| XmlAttr { key: a.key.as_ref().into(), value: Some(a.value.into()) })).collect()
}

/// The token that an event stands for, its attributes read.
pub open spec fn event_token(e: EventView) -> TokenView {
    match e {
        EventView::Start { name, attrs } => TokenView::Start { name, attrs: xml_attrs_of(attrs) },
        EventView::Empty { name, attrs } => TokenView::Empty { name, attrs: xml_attrs_of(attrs) },
        EventView::End { name } => TokenView::End { name },
        EventView::Text(t) => TokenView::Text(t),
        EventView::Other => TokenView::Other,
    }
}

/// The tokens of the document `doc`: its events, with their attributes read.
pub open spec fn xml_tokens_of(doc: Seq<u8>) -> Seq<TokenView> {
    xml_events_of(doc).map_values(|e: EventView| event_token(e))
}

fn token_of(e: &XmlEvent) -> (t: XmlToken)
    ensures
        token_view(t) == event_token(event_view(*e)),
{
    match e {
        XmlEvent::Start(name, attrs) => XmlToken::Start { name: name.clone(), attrs: read_xml_attrs(attrs.as_str()) },
        XmlEvent::Empty(name, attrs) => XmlToken::Empty { name: name.clone(), attrs: read_xml_attrs(attrs.as_str()) },
        XmlEvent::End(name) => XmlToken::End { name: name.clone() },
        XmlEvent::Text(t) => XmlToken::Text(t.clone()),
        XmlEvent::Other => XmlToken::Other,
    }
}

/// The tokens of the document `doc`.
fn read_xml_tokens(doc: &[u8]) -> (r: Vec<XmlToken>)
    ensures
        token_views(r@) == xml_tokens_of(doc@),
{
    let events = read_xml_events(doc);
    let ghost ev = event_views(events@);
    let mut out: Vec<XmlToken> = Vec::new();
    let mut i: usize = 0;
    while i < events.len()
        invariant
            i <= events.len(),
            ev == event_views(events@),
            ev == xml_events_of(doc@),
            token_views(out@) == ev.take(i as int).map_values(|e: EventView| event_token(e)),
        decreases events.len() - i,
    {
        let ghost o0 = out@;
        out.push(token_of(&events[i]));
        proof {
            assert(ev[i as int] == event_view(events@[i as int]));
            assert(ev.take(i + 1) =~= ev.take(i as int).push(ev[i as int]));
            assert(token_views(out@) =~= token_views(o0).push(token_view(out@[i as int])));
            assert(token_views(out@) =~= ev.take(i + 1).map_values(|e: EventView| event_token(e)));
        }
        i = i + 1;
    }
    assert(ev.take(events.len() as int) =~= ev);
    out
}

/// The bytes that gzip decoding of `data` gives, up to its end or its first error.
pub uninterp spec fn gunzipped(data: Seq<u8>) -> Seq<u8>;

/// `flate2::read::GzDecoder` over the bytes, read to the end with
/// `Read::read_to_end`, which keeps the bytes decoded before an error.
#[verifier::external_body]
pub(crate) fn gunzip(data: &[u8]) -> (r: Vec<u8>)
    ensures
        r@ == gunzipped(data@),
{
    let mut out = Vec::new();
    let _ = std::io::Read::read_to_end(&mut flate2::read::GzDecoder::new(data), &mut out);
    out
}

/// The map that a list of entries with distinct keys stands for.
pub open spec fn entries_map(e: Seq<(String, AppstreamMeta)>) -> Map<Seq<char>, MetaView>
    decreases e.len(),
{
    if e.len() == 0 {
        Map::empty()
    } else {
        entries_map(e.drop_last()).insert(e.last().0@, meta_view(e.last().1))
    }
}

pub open spec fn distinct_keys(e: Seq<(String, AppstreamMeta)>) -> bool {
    forall|a: int, b: int| 0 <= a < b < e.len() ==> #[trigger] e[a].0@ != #[trigger] e[b].0@
}

// ---------------------------------------------------------------------------
// Lemmas on the entry list
// ---------------------------------------------------------------------------

pub proof fn lemma_entries_map_dom(e: Seq<(String, AppstreamMeta)>)
    ensures
        forall|k: Seq<char>|
            #[trigger] entries_map(e).contains_key(k) <==> exists|a: int| 0 <= a < e.len() && e[a].0@ == k,
    decreases e.len(),
{
    if e.len() > 0 {
        lemma_entries_map_dom(e.drop_last());
        assert forall|k: Seq<char>|
            #[trigger] entries_map(e).contains_key(k) <==> exists|a: int| 0 <= a < e.len() && e[a].0@ == k by {
            if exists|a: int| 0 <= a < e.len() && e[a].0@ == k {
                let a = choose|a: int| 0 <= a < e.len() && e[a].0@ == k;
                if a < e.len() - 1 {
                    assert(e.drop_last()[a].0@ == k);
                }
            }
            if entries_map(e.drop_last()).contains_key(k) {
                let a = choose|a: int| 0 <= a < e.drop_last().len() && e.drop_last()[a].0@ == k;
                assert(e[a].0@ == k);
            }
        }
    }
}

pub proof fn lemma_entries_map_update(e: Seq<(String, AppstreamMeta)>, idx: int, entry: (String, AppstreamMeta))
    requires
        distinct_keys(e),
        0 <= idx < e.len(),
        e[idx].0@ == entry.0@,
    ensures
        entries_map(e.update(idx, entry)) == entries_map(e).insert(entry.0@, meta_view(entry.1)),
        distinct_keys(e.update(idx, entry)),
    decreases e.len(),
{
    let u = e.update(idx, entry);
    if idx == e.len() - 1 {
        assert(u.drop_last() =~= e.drop_last());
        assert(entries_map(u) =~= entries_map(e).insert(entry.0@, meta_view(entry.1)));
    } else {
        lemma_entries_map_update(e.drop_last(), idx, entry);
        assert(u.drop_last() =~= e.drop_last().update(idx, entry));
        assert(e.last().0@ != entry.0@);
        assert(entries_map(u) =~= entries_map(e).insert(entry.0@, meta_view(entry.1)));
    }
}

// ---------------------------------------------------------------------------
// Executable reader
// ---------------------------------------------------------------------------

pub open spec fn state_view(
    in_component: bool,
    meta: AppstreamMeta,
    id: Seq<char>,
    current_tag: Seq<char>,
    in_desc: bool,
    in_url: bool,
    url_type: Seq<char>,
    text_buf: Seq<char>,
    in_releases: bool,
    in_developer: bool,
    entries: Seq<(String, AppstreamMeta)>,
) -> ScanView {
    ScanView {
        in_component,
        meta: meta_view(meta),
        id,
        current_tag,
        in_desc,
        in_url,
        url_type,
        text_buf,
        in_releases,
        in_developer,
        map: entries_map(entries),
    }
}

/// The value of the first readable attribute named `key`.
pub fn attr_value_exec(attrs: &Vec<Option<XmlAttr>>, key: &str) -> (r: Option<String>)
    ensures
        ov(r) == attr_value(attrs_view(attrs@), key@),
{
    let ghost av = attrs_view(attrs@);
    let mut i: usize = 0;
    assert(av.skip(0) =~= av);
    while i < attrs.len()
        invariant
            i <= attrs.len(),
            av == attrs_view(attrs@),
            attr_value(av, key@) == attr_value(av.skip(i as int), key@),
        decreases attrs.len() - i,
    {
        proof {
            assert(av.skip(i as int).drop_first() =~= av.skip(i + 1));
            assert(av.skip(i as int)[0] == attr_view(attrs@[i as int]));
        }
        match &attrs[i] {
            Some(a) => {
                if str_eq(a.key.as_str(), key) {
                    return match &a.value {
                        Some(v) => Some(v.clone()),
                        None => None,
                    };
                }
            },
            None => {},
        }
        i = i + 1;
    }
    assert(av.skip(i as int).len() == 0);
    None
}

/// Some readable attribute is named `key`.
pub fn has_attr_exec(attrs: &Vec<Option<XmlAttr>>, key: &str) -> (r: bool)
    ensures
        r == has_attr(attrs_view(attrs@), key@),
{
    let ghost av = attrs_view(attrs@);
    let mut i: usize = 0;
    while i < attrs.len()
        invariant
            i <= attrs.len(),
            av == attrs_view(attrs@),
            forall|j: int| 0 <= j < i ==> !(#[trigger] av[j] matches Some((k, v)) && k == key@),
        decreases attrs.len() - i,
    {
        match &attrs[i] {
            Some(a) => {
                if str_eq(a.key.as_str(), key) {
                    assert(av[i as int] matches Some((k, v)) && k == key@);
                    return true;
                }
            },
            None => {},
        }
        i = i + 1;
    }
    false
}

/// Reads the metadata of every component, by id, from a token stream.
/// An id met again replaces the earlier entry.
pub fn parse_appstream_tokens(toks: &Vec<XmlToken>) -> (r: Vec<(String, AppstreamMeta)>)
    ensures
        distinct_keys(r@),
        entries_map(r@) == catalogue(toks@),
{
    let mut in_component = false;
    let mut meta = AppstreamMeta::empty();
    let mut id = String::new();
    let mut current_tag = String::new();
    let mut in_desc = false;
    let mut in_url = false;
    let mut url_type = String::new();
    let mut text_buf = String::new();
    let mut in_releases = false;
    let mut in_developer = false;
    let mut entries: Vec<(String, AppstreamMeta)> = Vec::new();
    proof {
        assert(meta_view(meta) == empty_meta());
        assert(entries_map(entries@) =~= Map::<Seq<char>, MetaView>::empty());
    }
    let mut i: usize = 0;
    while i < toks.len()
        invariant
            i <= toks.len(),
            distinct_keys(entries@),
            scan(toks@.take(i as int)) == state_view(
                in_component,
                meta,
                id@,
                current_tag@,
                in_desc,
                in_url,
                url_type@,
                text_buf@,
                in_releases,
                in_developer,
                entries@,
            ),
        decreases toks.len() - i,
    {
        proof {
            let t = toks@.take(i + 1);
            assert(t.drop_last() =~= toks@.take(i as int));
            assert(t.last() == toks@[i as int]);
        }
        let ghost st0 = scan(toks@.take(i as int));
        match &toks[i] {
            XmlToken::Start { name, attrs } => {
                if str_eq(name.as_str(), "component") {
                    in_component = true;
                    meta = AppstreamMeta::empty();
                    id = String::new();
                } else if in_component {
                    if !has_attr_exec(attrs, "xml:lang") {
                        if str_eq(name.as_str(), "description") {
                            in_desc = true;
                        } else if str_eq(name.as_str(), "url") {
                            in_url = true;
                            url_type = match attr_value_exec(attrs, "type") {
                                Some(t) => t,
                                None => String::new(),
                            };
                        } else if str_eq(name.as_str(), "releases") {
                            in_releases = true;
                        } else if str_eq(name.as_str(), "release") && in_releases
                            && meta.version.is_none() {
                            meta.version = attr_value_exec(attrs, "version");
                        } else if str_eq(name.as_str(), "developer") {
                            in_developer = true;
                        }
                        current_tag = name.clone();
                    } else {
                        current_tag = String::new();
                    }
                }
            },
            XmlToken::Empty { name, attrs } => {
                if in_component && str_eq(name.as_str(), "release") && in_releases
                    && meta.version.is_none() {
                    meta.version = attr_value_exec(attrs, "version");
                }
            },
            XmlToken::End { name } => {
                if str_eq(name.as_str(), "component") {
                    in_component = false;
                    if !id.as_str().is_empty() {
                        meta.description = string_from_chars(&trim_str(text_buf.as_str()));
                        text_buf = String::new();
                        let entry = (id.clone(), meta.clone());
                        let mut k: usize = 0;
                        while k < entries.len() && !str_eq(entries[k].0.as_str(), id.as_str())
                            invariant
                                k <= entries.len(),
                                forall|j: int| 0 <= j < k ==> #[trigger] entries@[j].0@ != id@,
                            decreases entries.len() - k,
                        {
                            k = k + 1;
                        }
                        if k < entries.len() {
                            proof {
                                lemma_entries_map_update(entries@, k as int, entry);
                            }
                            entries.set(k, entry);
                        } else {
                            proof {
                                assert forall|a: int, b: int| 0 <= a < b < entries@.len() + 1 implies #[trigger] entries@.push(entry)[a].0@
                                    != #[trigger] entries@.push(entry)[b].0@ by {
                                    if b == entries@.len() {
                                        assert(entries@[a].0@ != id@);
                                    }
                                }
                                assert(entries@.push(entry).drop_last() =~= entries@);
                            }
                            entries.push(entry);
                        }
                    }
                } else if in_component {
                    if str_eq(name.as_str(), "description") {
                        in_desc = false;
                    } else if str_eq(name.as_str(), "url") {
                        in_url = false;
                        url_type = String::new();
                    } else if str_eq(name.as_str(), "releases") {
                        in_releases = false;
                    } else if str_eq(name.as_str(), "developer") {
                        in_developer = false;
                    }
                }
            },
            XmlToken::Text(txt) => {
                if in_component {
                    if in_desc {
                        let ghost b0 = text_buf@;
                        text_buf.append(txt.as_str());
                        text_buf.append(" ");
                        proof {
                            reveal_strlit(" ");
                            assert(" "@ =~= seq![' ']);
                            assert(text_buf@ == b0 + txt@ + seq![' ']);
                        }
                    } else if in_developer {
                        meta.developer = Some(string_from_chars(&trim_str(txt.as_str())));
                    } else if !current_tag.as_str().is_empty() {
                        let trimmed = string_from_chars(&trim_str(txt.as_str()));
                        if str_eq(current_tag.as_str(), "id") {
                            id = txt.clone();
                        } else if str_eq(current_tag.as_str(), "name") {
                            meta.name = trimmed.clone();
                        } else if str_eq(current_tag.as_str(), "summary") {
                            meta.summary = trimmed.clone();
                        } else if str_eq(current_tag.as_str(), "project_license") {
                            meta.license = Some(trimmed.clone());
                        } else if str_eq(current_tag.as_str(), "developer_name") {
                            meta.developer = Some(trimmed.clone());
                        }
                        if in_url && str_eq(url_type.as_str(), "homepage") {
                            meta.homepage = Some(trimmed);
                            in_url = false;
                        }
                    }
                }
            },
            XmlToken::Other => {},
        }
        proof {
            let sv = state_view(in_component, meta, id@, current_tag@, in_desc, in_url, url_type@, text_buf@, in_releases, in_developer, entries@);
            assert(scan_step(st0, token_view(toks@[i as int])) == sv);
        }
        i = i + 1;
    }
    assert(toks@.take(toks.len() as int) =~= toks@);
    entries
}

/// Only components with an id are catalogued: every key is a non-empty id.
pub proof fn lemma_catalogue_ids_not_empty(toks: Seq<XmlToken>)
    ensures
        forall|k: Seq<char>| #[trigger] catalogue(toks).contains_key(k) ==> k.len() > 0,
    decreases toks.len(),
{
    if toks.len() > 0 {
        lemma_catalogue_ids_not_empty(toks.drop_last());
        let st = scan(toks.drop_last());
        let tv = token_view(toks.last());
        assert(scan(toks) == scan_step(st, tv));
        assert(catalogue(toks.drop_last()) == st.map);
        assert forall|k: Seq<char>| #[trigger] catalogue(toks).contains_key(k) implies k.len() > 0 by {
            assert(catalogue(toks) == scan_step(st, tv).map);
            if st.map.contains_key(k) {
                assert(catalogue(toks.drop_last()).contains_key(k));
            } else {
                match tv {
                    TokenView::Start { name, attrs } => {
                        assert(scan_step(st, tv).map == st.map);
                    },
                    TokenView::Empty { name, attrs } => {
                        assert(scan_step(st, tv).map == st.map);
                    },
                    TokenView::Text(t) => {
                        assert(scan_step(st, tv).map == st.map);
                    },
                    TokenView::Other => {},
                    TokenView::End { name } => {
                        if name == "component"@ && st.id.len() > 0 {
                            assert(k == st.id);
                        } else {
                            assert(scan_step(st, tv).map == st.map);
                        }
                    },
                }
            }
        }
    }
}

// ---------------------------------------------------------------------------
// The catalogue
// ---------------------------------------------------------------------------

/// The entry of a list with distinct keys is what its map holds for the key.
pub proof fn lemma_entries_map_at(e: Seq<(String, AppstreamMeta)>, i: int)
    requires
        distinct_keys(e),
        0 <= i < e.len(),
    ensures
        entries_map(e).contains_key(e[i].0@),
        entries_map(e)[e[i].0@] == meta_view(e[i].1),
    decreases e.len(),
{
    if i < e.len() - 1 {
        lemma_entries_map_at(e.drop_last(), i);
        assert(e.last().0@ != e[i].0@);
    }
}

/// The metadata of the applications of AppStream catalogues, by id.
pub struct Catalogue {
    entries: Vec<(String, AppstreamMeta)>,
}

impl Catalogue {
    #[verifier::type_invariant]
    spec fn keys_distinct(self) -> bool {
        distinct_keys(self.entries@)
    }

    /// The metadata by application id.
    pub closed spec fn view(self) -> Map<Seq<char>, MetaView> {
        entries_map(self.entries@)
    }

    /// The entries, each id once, in no particular order.
    pub closed spec fn list(self) -> Seq<(String, AppstreamMeta)> {
        self.entries@
    }

    /// An empty catalogue.
    pub fn new() -> (c: Self)
        ensures
            c.view() == Map::<Seq<char>, MetaView>::empty(),
    {
        let c = Catalogue { entries: Vec::new() };
        assert(entries_map(c.entries@) =~= Map::<Seq<char>, MetaView>::empty());
        c
    }

    /// The catalogue that a stream of XML tokens describes.
    pub fn from_tokens(toks: &Vec<XmlToken>) -> (c: Self)
        ensures
            c.view() == catalogue(toks@),
    {
        Catalogue { entries: parse_appstream_tokens(toks) }
    }

    /// The catalogue of an AppStream XML document.
    pub fn parse_appstream_buf(doc: &[u8]) -> (c: Self)
        ensures
            c.view() == catalogue_of_views(xml_tokens_of(doc@)),
    {
        let toks = read_xml_tokens(doc);
        proof {
            lemma_scan_views(toks@);
        }
        Self::from_tokens(&toks)
    }

    /// The catalogue of an uncompressed AppStream XML document.
    pub fn parse_appstream_xml(doc: &[u8]) -> (c: Self)
        ensures
            c.view() == catalogue_of_views(xml_tokens_of(doc@)),
    {
        Self::parse_appstream_buf(doc)
    }

    /// The catalogue of a gzip-compressed AppStream XML document: what the
    /// bytes decoded before any error describe.
    pub fn parse_appstream_xml_gz(data: &[u8]) -> (c: Self)
        ensures
            c.view() == catalogue_of_views(xml_tokens_of(gunzipped(data@))),
    {
        let doc = gunzip(data);
        Self::parse_appstream_buf(doc.as_slice())
    }

    /// The entries of the catalogue.
    pub fn entries(&self) -> (r: &Vec<(String, AppstreamMeta)>)
        ensures
            r@ == self.list(),
            distinct_keys(r@),
            entries_map(r@) == self.view(),
    {
        proof {
            use_type_invariant(self);
        }
        &self.entries
    }

    /// The metadata of the application `id`.
    pub fn get(&self, id: &str) -> (r: Option<&AppstreamMeta>)
        ensures
            match r {
                Some(m) => self.view().contains_key(id@) && self.view()[id@] == meta_view(*m),
                None => !self.view().contains_key(id@),
            },
    {
        proof {
            use_type_invariant(self);
            lemma_entries_map_dom(self.entries@);
        }
        let mut i: usize = 0;
        while i < self.entries.len()
            invariant
                i <= self.entries.len(),
                forall|j: int| 0 <= j < i ==> self.entries@[j].0@ != id@,
            decreases self.entries.len() - i,
        {
            if str_eq(self.entries[i].0.as_str(), id) {
                proof {
                    use_type_invariant(self);
                    lemma_entries_map_at(self.entries@, i as int);
                }
                return Some(&self.entries[i].1);
            }
            i = i + 1;
        }
        None
    }

    /// Adds the entries of `other`; an id that both have takes the metadata of `other`.
    pub fn merge(&mut self, other: Catalogue)
        ensures
            final(self).view() == old(self).view().union_prefer_right(other.view()),
    {
        proof {
            use_type_invariant(&*self);
            use_type_invariant(&other);
        }
        let mut entries: Vec<(String, AppstreamMeta)> = Vec::new();
        std::mem::swap(&mut entries, &mut self.entries);
        let ghost start = entries_map(entries@);
        let mut i: usize = 0;
        while i < other.entries.len()
            invariant
                i <= other.entries.len(),
                distinct_keys(entries@),
                distinct_keys(other.entries@),
                entries_map(entries@) == start.union_prefer_right(entries_map(other.entries@.take(i as int))),
            decreases other.entries.len() - i,
        {
            let id = other.entries[i].0.clone();
            let meta = other.entries[i].1.clone();
            let entry = (id, meta);
            let mut k: usize = 0;
            while k < entries.len() && !str_eq(entries[k].0.as_str(), entry.0.as_str())
                invariant
                    k <= entries.len(),
                    forall|j: int| 0 <= j < k ==> #[trigger] entries@[j].0@ != entry.0@,
                decreases entries.len() - k,
            {
                k = k + 1;
            }
            let ghost before = entries_map(entries@);
            if k < entries.len() {
                proof {
                    lemma_entries_map_update(entries@, k as int, entry);
                }
                entries.set(k, entry);
            } else {
                proof {
                    assert forall|a: int, b: int| 0 <= a < b < entries@.len() + 1 implies #[trigger] entries@.push(
                        entry,
                    )[a].0@ != #[trigger] entries@.push(entry)[b].0@ by {
                        if b == entries@.len() {
                            assert(entries@[a].0@ != entry.0@);
                        }
                    }
                    assert(entries@.push(entry).drop_last() =~= entries@);
                }
                entries.push(entry);
            }
            proof {
                let t = other.entries@.take(i + 1);
                assert(t.drop_last() =~= other.entries@.take(i as int));
                assert(t.last() == other.entries@[i as int]);
                assert(entries_map(entries@) =~= start.union_prefer_right(entries_map(t)));
            }
            i = i + 1;
        }
        proof {
            assert(other.entries@.take(other.entries.len() as int) =~= other.entries@);
        }
        self.entries = entries;
    }
}

} // verus!
