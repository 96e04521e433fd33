//! The PDS4 XML label: a `Product_Observational` root holding one
//! `Array_2D_Image` element whose children are the image model's fields.
//! XML is written and tokenized by quick-xml; which elements become fields
//! is decided here.
use crate::error::{Error, ErrorCode, Result};
use crate::io::storage_model::{entries_map, has_key, keys_sorted, lemma_entries_map_at, Entries, StorageModel};
use crate::text::{bytes_lt, chars_of, lemma_bytes_lt_irreflexive, str_eq, str_from_utf8, string_of_chars, utf8};
use quick_xml::events::{BytesEnd, BytesStart, BytesText, Event};
use quick_xml::reader::Reader;
use quick_xml::writer::Writer;
use vstd::prelude::*;
use vstd::utf8::{decode_utf8, valid_utf8};

verus! {

broadcast use vstd::utf8::group_utf8_lib;

/// Bytes of the little-endian length prefix in front of a label.
pub const HEADER_SIZE: u64 = 8;

/// The label's root element.
pub const PRODUCT_ROOT: &'static str = "Product_Observational";

/// The element whose children are the image's fields.
pub const ARRAY_NODE: &'static str = "Array_2D_Image";

// ---------------------------------------------------------------------------
// quick-xml, as this library uses it.
// ---------------------------------------------------------------------------

/// quick-xml's event writer.
#[verifier::external_type_specification]
#[verifier::external_body]
#[verifier::reject_recursive_types(W)]
pub struct ExXmlWriter<W>(Writer<W>);

/// quick-xml's pull reader.
#[verifier::external_type_specification]
#[verifier::external_body]
#[verifier::reject_recursive_types(R)]
pub struct ExXmlReader<R>(Reader<R>);

/// The bytes a quick-xml writer over a byte vector holds.
pub uninterp spec fn xml_output(w: Writer<Vec<u8>>) -> Seq<u8>;

/// What quick-xml's `escape` makes of one character: `<`, `>`, `&`, `'`,
/// `"` and carriage return become references, anything else stays.
pub open spec fn xml_escape_char(c: char) -> Seq<char> {
    if c == '<' {
        seq!['&', 'l', 't', ';']
    } else if c == '>' {
        seq!['&', 'g', 't', ';']
    } else if c == '&' {
        seq!['&', 'a', 'm', 'p', ';']
    } else if c == '\'' {
        seq!['&', 'a', 'p', 'o', 's', ';']
    } else if c == '"' {
        seq!['&', 'q', 'u', 'o', 't', ';']
    } else if c == '\r' {
        seq!['&', '#', '1', '3', ';']
    } else {
        seq![c]
    }
}

/// What quick-xml's `escape` makes of `text`: each character escaped.
pub open spec fn xml_escape(text: Seq<char>) -> Seq<char>
    decreases text.len(),
{
    if text.len() == 0 {
        Seq::empty()
    } else {
        xml_escape(text.drop_last()) + xml_escape_char(text.last())
    }
}

/// What quick-xml's `unescape` makes of `raw`: `None` when it holds an
/// unknown or malformed reference.
pub uninterp spec fn xml_unescaped(raw: Seq<char>) -> Option<Seq<char>>;

/// `quick_xml::writer::Writer::new` over an empty byte vector: the writer
/// holds no bytes and writes without indentation.
#[verifier::external_body]
fn new_xml_writer() -> (w: Writer<Vec<u8>>)
    ensures
        xml_output(w) == Seq::<u8>::empty(),
{
    Writer::new(Vec::new())
}

/// `Writer::write_event` of a start tag `BytesStart::new(name)`: the
/// writer holds `<name>` more. The message of an I/O error would come
/// back otherwise; `write_event` fails only when the inner writer's
/// `write_all` does, and the inner writer here is a `Vec<u8>`, which
/// appends and grows as needed, so none comes.
#[verifier::external_body]
fn xml_write_start(w: &mut Writer<Vec<u8>>, name: &str) -> (r: Option<String>)
    ensures
        r is None,
        xml_output(*final(w)) == xml_output(*old(w)) + start_tag(name@),
{
    match w.write_event(Event::Start(BytesStart::new(name))) {
        Ok(()) => None,
        Err(e) => Some(format!("{e}")),
    }
}

/// `Writer::write_event` of an end tag `BytesEnd::new(name)`: the writer
/// holds `</name>` more; as for the start tag, no I/O error comes from a
/// `Vec<u8>`.
#[verifier::external_body]
fn xml_write_end(w: &mut Writer<Vec<u8>>, name: &str) -> (r: Option<String>)
    ensures
        r is None,
        xml_output(*final(w)) == xml_output(*old(w)) + end_tag(name@),
{
    match w.write_event(Event::End(BytesEnd::new(name))) {
        Ok(()) => None,
        Err(e) => Some(format!("{e}")),
    }
}

/// `Writer::write_event` of text `BytesText::new(text)`, which escapes it
/// with `escape`: the writer holds the UTF-8 of [`xml_escape`] of the text
/// more; as for the start tag, no I/O error comes from a
/// `Vec<u8>`.
#[verifier::external_body]
fn xml_write_text(w: &mut Writer<Vec<u8>>, text: &str) -> (r: Option<String>)
    ensures
        r is None,
        xml_output(*final(w)) == xml_output(*old(w)) + utf8(xml_escape(text@)),
{
    match w.write_event(Event::Text(BytesText::new(text))) {
        Ok(()) => None,
        Err(e) => Some(format!("{e}")),
    }
}

/// `Writer::into_inner`: the bytes written.
#[verifier::external_body]
fn xml_writer_bytes(w: Writer<Vec<u8>>) -> (b: Vec<u8>)
    ensures
        b@ == xml_output(w),
{
    w.into_inner()
}

/// The events quick-xml's `Reader::read_event` yields on `text`, each as
/// an [`XmlToken`], up to and including the first end of the document or
/// error.
pub uninterp spec fn xml_events(text: Seq<char>) -> Seq<XmlToken>;

/// The events a quick-xml reader has yet to yield, up to and including the
/// first end of the document or error.
pub uninterp spec fn xml_pending(reader: Reader<&[u8]>) -> Seq<XmlToken>;

/// Whether an event ends the reading: the end of the document or an error.
pub open spec fn is_terminal(t: XmlToken) -> bool {
    t is Eof || t is Malformed
}

/// `Reader::from_str`: a pull reader over `text`, which will yield the
/// events of `text`. `read_event` returns `Eof` once the input is used up,
/// and every other call consumes input or fails, so the events end with
/// one terminal event, and only there. On a label that this module's
/// writer made ([`label_bytes`]) of plain element names, the reader
/// (default configuration: no trimming, end names checked) yields each
/// start and end tag by its name, and each value as text and general
/// reference events whose raw text is the escaped value and unescapes back
/// to it ([`label_tokens`], [`value_tokens_ok`]); how a value's text is cut
/// into events is left open.
#[verifier::external_body]
fn xml_reader(text: &str) -> (r: Reader<&[u8]>)
    ensures
        forall|e: Entries|
            label_writable(e) && #[trigger] label_bytes(e) == utf8(text@) ==> label_events_of(e, xml_pending(r)),
        xml_pending(r) == xml_events(text@),
        xml_pending(r).len() >= 1,
        is_terminal(xml_pending(r).last()),
        forall|i: int| 0 <= i < xml_pending(r).len() - 1 ==> !is_terminal(#[trigger] xml_pending(r)[i]),
{
    Reader::from_str(text)
}

/// `quick_xml::escape::unescape` of `raw`.
#[verifier::external_body]
fn xml_unescape(raw: &str) -> (r: Option<String>)
    ensures
        r matches Some(s) ==> xml_unescaped(raw@) == Some(s@),
        r is None ==> xml_unescaped(raw@) is None,
{
    match quick_xml::escape::unescape(raw) {
        Ok(s) => Some(s.into_owned()),
        Err(_) => None,
    }
}

/// `Reader::read_event`: the next event the reader yields, which it then
/// no longer holds.
#[verifier::external_body]
fn next_xml_event(reader: &mut Reader<&[u8]>) -> (e: XmlEvent)
    requires
        xml_pending(*old(reader)).len() > 0,
    ensures
        event_view(e) == xml_pending(*old(reader))[0],
        xml_pending(*final(reader)) == xml_pending(*old(reader)).drop_first(),
{
    match reader.read_event() {
        Ok(Event::Start(e)) => XmlEvent::Start(String::from(e.name().as_ref())),
        Ok(Event::Empty(e)) => XmlEvent::Empty(String::from(e.name().as_ref())),
        Ok(Event::End(e)) => XmlEvent::End(String::from(e.name().as_ref())),
        Ok(Event::Text(t)) => XmlEvent::Text(t.into_inner().into_owned()),
        Ok(Event::GeneralRef(r)) => XmlEvent::Reference(r.into_inner().into_owned()),
        Ok(Event::Eof) => XmlEvent::Eof,
        Ok(_) => XmlEvent::Other,
        Err(e) => XmlEvent::Malformed(format!("{e}")),
    }
}

// ---------------------------------------------------------------------------
// Writing.
// ---------------------------------------------------------------------------

/// The bytes of the start tag `<name>`.
pub open spec fn start_tag(name: Seq<char>) -> Seq<u8> {
    utf8(seq!['<'] + name + seq!['>'])
}

/// The bytes of the end tag `</name>`.
pub open spec fn end_tag(name: Seq<char>) -> Seq<u8> {
    utf8(seq!['<', '/'] + name + seq!['>'])
}

/// The first `k` fields of `e` as elements: each key's start tag, its
/// escaped value and its end tag.
pub open spec fn field_elements(e: Entries, k: nat) -> Seq<u8>
    decreases k,
{
    if k == 0 {
        Seq::empty()
    } else {
        field_elements(e, (k - 1) as nat) + start_tag(e[k - 1].0) + utf8(xml_escape(e[k - 1].1)) + end_tag(e[k - 1].0)
    }
}

/// The label of a model with field table `e`: the root and array start
/// tags, every field as an element in key order, the array and root end
/// tags.
pub open spec fn label_bytes(e: Entries) -> Seq<u8> {
    start_tag(PRODUCT_ROOT@) + start_tag(ARRAY_NODE@) + field_elements(e, e.len()) + end_tag(ARRAY_NODE@) + end_tag(
        PRODUCT_ROOT@,
    )
}

/// The failure of a label write, from the writer's message.
fn write_failure(message: String) -> (e: Error)
    ensures
        e.kind() == ErrorCode::InvalidArgument,
{
    let mut text = String::from_str("pds4: failed to write label: ");
    text.append(message.as_str());
    Error::invalid_argument(text.as_str())
}

/// Writes the label of `model` ([`label_bytes`]): every field becomes an
/// element, without checking which fields are there. A failure of the XML
/// writer would be reported as [`ErrorCode::InvalidArgument`]; writing
/// into memory, it has none.
pub fn write_label(model: &StorageModel) -> (r: Result<Vec<u8>>)
    ensures
        r matches Ok(b) && b@ == label_bytes(model.entries()),
{
    let ghost e = model.entries();
    let mut writer = new_xml_writer();
    if let Some(m) = xml_write_start(&mut writer, PRODUCT_ROOT) {
        return Err(write_failure(m));
    }
    if let Some(m) = xml_write_start(&mut writer, ARRAY_NODE) {
        return Err(write_failure(m));
    }
    let ghost head = start_tag(PRODUCT_ROOT@) + start_tag(ARRAY_NODE@);
    assert(xml_output(writer) =~= head + field_elements(e, 0));
    let n = model.field_count();
    let mut i: usize = 0;
    while i < n
        invariant
            n == e.len(),
            e == model.entries(),
            i <= n,
            xml_output(writer) == head + field_elements(e, i as nat),
        decreases n - i,
    {
        let (key, value) = model.field_at(i);
        if let Some(m) = xml_write_start(&mut writer, key) {
            return Err(write_failure(m));
        }
        if let Some(m) = xml_write_text(&mut writer, value) {
            return Err(write_failure(m));
        }
        if let Some(m) = xml_write_end(&mut writer, key) {
            return Err(write_failure(m));
        }
        i = i + 1;
        assert(xml_output(writer) =~= head + field_elements(e, i as nat));
    }
    if let Some(m) = xml_write_end(&mut writer, ARRAY_NODE) {
        return Err(write_failure(m));
    }
    if let Some(m) = xml_write_end(&mut writer, PRODUCT_ROOT) {
        return Err(write_failure(m));
    }
    let bytes = xml_writer_bytes(writer);
    assert(bytes@ =~= label_bytes(e));
    Ok(bytes)
}

// ---------------------------------------------------------------------------
// Reading.
// ---------------------------------------------------------------------------

/// One event of an XML label, as the tokenizer reports it.
pub enum XmlEvent {
    /// A start tag, by name.
    Start(String),
    /// An empty-element tag, by name.
    Empty(String),
    /// An end tag, by name.
    End(String),
    /// Character data between tags.
    Text(String),
    /// An entity or character reference, by the text between `&` and `;`.
    Reference(String),
    /// The end of the document.
    Eof,
    /// Anything else (comments, declarations, ...).
    Other,
    /// Malformed XML, with the tokenizer's message.
    Malformed(String),
}

/// An XML event as a plain value (see [`XmlEvent`]).
pub enum XmlToken {
    /// A start tag, by name.
    Start(Seq<char>),
    /// An empty-element tag, by name.
    Empty(Seq<char>),
    /// An end tag, by name.
    End(Seq<char>),
    /// Character data between tags.
    Text(Seq<char>),
    /// An entity or character reference.
    Reference(Seq<char>),
    /// The end of the document.
    Eof,
    /// Anything else.
    Other,
    /// Malformed XML.
    Malformed,
}

/// The plain value of an event.
pub open spec fn event_view(e: XmlEvent) -> XmlToken {
    match e {
        XmlEvent::Start(n) => XmlToken::Start(n@),
        XmlEvent::Empty(n) => XmlToken::Empty(n@),
        XmlEvent::End(n) => XmlToken::End(n@),
        XmlEvent::Text(t) => XmlToken::Text(t@),
        XmlEvent::Reference(r) => XmlToken::Reference(r@),
        XmlEvent::Eof => XmlToken::Eof,
        XmlEvent::Other => XmlToken::Other,
        XmlEvent::Malformed(_) => XmlToken::Malformed,
    }
}

/// Whether `c` is XML white space.
pub open spec fn is_xml_space(c: char) -> bool {
    c == ' ' || c == '\t' || c == '\r' || c == '\n'
}

/// The start of `s[a..b]` once leading XML white space is dropped.
pub open spec fn xml_skip_space(s: Seq<char>, a: int, b: int) -> int
    decreases b - a,
{
    if a < b && is_xml_space(s[a]) {
        xml_skip_space(s, a + 1, b)
    } else {
        a
    }
}

/// The end of `s[a..b]` once trailing XML white space is dropped.
pub open spec fn xml_skip_space_back(s: Seq<char>, a: int, b: int) -> int
    decreases b - a,
{
    if a < b && is_xml_space(s[b - 1]) {
        xml_skip_space_back(s, a, b - 1)
    } else {
        b
    }
}

/// `s` without leading and trailing XML white space.
pub open spec fn xml_trim(s: Seq<char>) -> Seq<char> {
    let a = xml_skip_space(s, 0, s.len() as int);
    s.subrange(a, xml_skip_space_back(s, a, s.len() as int))
}

fn char_is_xml_space(c: char) -> (b: bool)
    ensures
        b == is_xml_space(c),
{
    c == ' ' || c == '\t' || c == '\r' || c == '\n'
}

/// `text` without leading and trailing XML white space ([`xml_trim`]).
fn trim_xml_text(text: &str) -> (r: String)
    ensures
        r@ == xml_trim(text@),
{
    let s = chars_of(text);
    let b = s.len();
    let mut x: usize = 0;
    while x < b && char_is_xml_space(s[x])
        invariant
            x <= b == s@.len(),
            xml_skip_space(s@, x as int, b as int) == xml_skip_space(s@, 0, b as int),
        decreases b - x,
    {
        x = x + 1;
    }
    let mut y = b;
    while y > x && char_is_xml_space(s[y - 1])
        invariant
            x <= y <= b == s@.len(),
            xml_skip_space_back(s@, x as int, y as int) == xml_skip_space_back(s@, x as int, b as int),
        decreases y - x,
    {
        y = y - 1;
    }
    string_of_chars(vstd::slice::slice_subrange(s.as_slice(), x, y))
}

/// Where a label parse stands: whether the root and the array element were
/// seen and are open, the field element being read and its text so far,
/// and the fields read.
#[verifier::ext_equal]
pub struct LabelState {
    /// A root element was seen.
    pub seen_product: bool,
    /// Inside the root element.
    pub in_product: bool,
    /// An array element was seen inside the root.
    pub seen_array: bool,
    /// Inside the array element.
    pub in_array: bool,
    /// The field element being read.
    pub key: Option<Seq<char>>,
    /// Its text so far, each finished text segment trimmed.
    pub value: Seq<char>,
    /// The text segment being read (text and references since the last
    /// other event).
    pub segment: Seq<char>,
    /// The fields read.
    pub fields: Map<Seq<char>, Seq<char>>,
}

/// The state before any event.
pub open spec fn initial_label_state() -> LabelState {
    LabelState {
        seen_product: false,
        in_product: false,
        seen_array: false,
        in_array: false,
        key: None,
        value: Seq::empty(),
        segment: Seq::empty(),
        fields: Map::empty(),
    }
}

/// The state with its text segment finished: the raw segment (text with
/// its references still written out) is trimmed of XML white space, then
/// unescaped and added to the value; `None` when it holds an unknown or
/// malformed reference.
pub open spec fn flushed(s: LabelState) -> Option<LabelState> {
    let t = xml_trim(s.segment);
    if t.len() == 0 {
        Some(LabelState { segment: Seq::empty(), ..s })
    } else {
        match xml_unescaped(t) {
            Some(u) => Some(LabelState { value: s.value + u, segment: Seq::empty(), ..s }),
            None => None,
        }
    }
}

/// The state after event `ev`, or `None` when the XML is malformed. Text
/// and references inside a field element add to the current raw segment;
/// any other event first finishes the segment ([`flushed`]), so each
/// stretch of text between other events is trimmed before it is
/// unescaped.
pub open spec fn label_step(s0: LabelState, ev: XmlToken) -> Option<LabelState> {
    match ev {
        XmlToken::Text(t) => Some(
            if s0.in_array && s0.key is Some {
                LabelState { segment: s0.segment + t, ..s0 }
            } else {
                s0
            },
        ),
        XmlToken::Reference(name) => Some(
            if s0.in_array && s0.key is Some {
                LabelState { segment: s0.segment + seq!['&'] + name + seq![';'], ..s0 }
            } else {
                s0
            },
        ),
        XmlToken::Malformed => None,
        XmlToken::Eof => Some(s0),
        _ => match flushed(s0) {
            None => None,
            Some(s) => Some(tag_step(s, ev)),
        },
    }
}

/// The state after a tag or other non-text event `ev`, the text segment
/// being finished.
pub open spec fn tag_step(s: LabelState, ev: XmlToken) -> LabelState {
    match ev {
        XmlToken::Start(name) => if s.in_array {
            LabelState { key: Some(name), value: Seq::empty(), ..s }
        } else if s.in_product && name == ARRAY_NODE@ {
            LabelState { in_array: true, seen_array: true, ..s }
        } else if !s.in_product && name == PRODUCT_ROOT@ {
            LabelState { in_product: true, seen_product: true, ..s }
        } else {
            s
        },
        XmlToken::Empty(name) => if s.in_array {
            LabelState { fields: s.fields.insert(name, Seq::empty()), ..s }
        } else if s.in_product && name == ARRAY_NODE@ {
            LabelState { seen_array: true, ..s }
        } else if !s.in_product && name == PRODUCT_ROOT@ {
            LabelState { seen_product: true, ..s }
        } else {
            s
        },
        XmlToken::End(name) => if s.in_array && s.key == Some(name) {
            LabelState { fields: s.fields.insert(name, s.value), key: None, value: Seq::empty(), ..s }
        } else if s.in_array && name == ARRAY_NODE@ {
            LabelState { in_array: false, ..s }
        } else if s.in_product && name == PRODUCT_ROOT@ {
            LabelState { in_product: false, ..s }
        } else {
            s
        },
        _ => s,
    }
}

/// The state after the events `evs`, up to the end of the document;
/// `None` when the XML is malformed.
pub open spec fn label_run(s: LabelState, evs: Seq<XmlToken>) -> Option<LabelState>
    decreases evs.len(),
{
    if evs.len() == 0 {
        Some(s)
    } else {
        match evs[0] {
            XmlToken::Eof => Some(s),
            _ => match label_step(s, evs[0]) {
                Some(s2) => label_run(s2, evs.drop_first()),
                None => None,
            },
        }
    }
}

/// The fields of the label `text`: those its array element holds, when its
/// events parse and hold the root and the array element; `None` otherwise.
pub open spec fn label_fields(text: Seq<char>) -> Option<Map<Seq<char>, Seq<char>>> {
    match label_run(initial_label_state(), xml_events(text)) {
        Some(s) => if s.seen_product && s.seen_array {
            Some(s.fields)
        } else {
            None
        },
        None => None,
    }
}

/// A label parse in progress.
pub struct LabelParse {
    seen_product: bool,
    in_product: bool,
    seen_array: bool,
    in_array: bool,
    current_key: Option<String>,
    current_value: String,
    current_segment: String,
    model: StorageModel,
}

impl LabelParse {
    /// The state of the parse.
    pub closed spec fn state(&self) -> LabelState {
        LabelState {
            seen_product: self.seen_product,
            in_product: self.in_product,
            seen_array: self.seen_array,
            in_array: self.in_array,
            key: match self.current_key {
                Some(k) => Some(k@),
                None => None,
            },
            value: self.current_value@,
            segment: self.current_segment@,
            fields: self.model.field_map(),
        }
    }

    /// The model being filled has no children.
    pub closed spec fn wf(&self) -> bool {
        self.model.child_nodes().len() == 0
    }

    /// A parse before any event.
    pub fn new() -> (p: Self)
        ensures
            p.state() == initial_label_state(),
            p.wf(),
    {
        let p = LabelParse {
            seen_product: false,
            in_product: false,
            seen_array: false,
            in_array: false,
            current_key: None,
            current_value: String::new(),
            current_segment: String::new(),
            model: StorageModel::new(),
        };
        assert(p.state().value =~= Seq::<char>::empty());
        assert(p.state().segment =~= Seq::<char>::empty());
        p
    }

    /// Whether text now belongs to a field (inside the array, within a
    /// field element).
    pub fn reads_field_text(&self) -> (b: bool)
        ensures
            b == (self.state().in_array && self.state().key is Some),
    {
        self.in_array && self.current_key.is_some()
    }

    /// Finishes the current text segment ([`flushed`]); an unknown or
    /// malformed reference in it fails with [`ErrorCode::InvalidArgument`].
    fn flush(&mut self) -> (r: Result<()>)
        requires
            old(self).wf(),
        ensures
            final(self).wf(),
            flushed(old(self).state()) matches Some(s) ==> r is Ok && final(self).state() == s,
            flushed(old(self).state()) is None ==> (r matches Err(e) && e.kind() == ErrorCode::InvalidArgument),
    {
        let t = trim_xml_text(self.current_segment.as_str());
        self.current_segment = String::new();
        proof {
            reveal_strlit("");
        }
        if str_eq(t.as_str(), "") {
            assert(self.state() =~= flushed(old(self).state())->0);
            return Ok(());
        }
        assert(t@.len() != 0) by {
            if t@.len() == 0 {
                assert(t@ =~= ""@);
            }
        }
        match xml_unescape(t.as_str()) {
            Some(u) => {
                self.current_value.append(u.as_str());
                assert(self.state() =~= flushed(old(self).state())->0);
                Ok(())
            },
            None => Err(Error::invalid_argument("pds4: malformed XML label: unknown or malformed reference")),
        }
    }

    /// Applies one event ([`label_step`]); malformed XML fails with
    /// [`ErrorCode::InvalidArgument`].
    pub fn apply(&mut self, ev: XmlEvent) -> (r: Result<()>)
        requires
            old(self).wf(),
        ensures
            final(self).wf(),
            label_step(old(self).state(), event_view(ev)) matches Some(s) ==> r is Ok && final(self).state() == s,
            label_step(old(self).state(), event_view(ev)) is None ==> (r matches Err(e) && e.kind()
                == ErrorCode::InvalidArgument),
    {
        let ghost ev0 = event_view(ev);
        match ev {
            XmlEvent::Text(t) => {
                if self.in_array && self.current_key.is_some() {
                    self.current_segment.append(t.as_str());
                }
                assert(self.state() =~= label_step(old(self).state(), ev0)->0);
                return Ok(());
            },
            XmlEvent::Reference(name) => {
                if self.in_array && self.current_key.is_some() {
                    self.current_segment.append("&");
                    self.current_segment.append(name.as_str());
                    self.current_segment.append(";");
                    proof {
                        reveal_strlit("&");
                        reveal_strlit(";");
                    }
                }
                assert(self.state() =~= label_step(old(self).state(), ev0)->0);
                return Ok(());
            },
            XmlEvent::Eof => {
                return Ok(());
            },
            XmlEvent::Start(name) => {
                self.flush()?;
                if self.in_array {
                    self.current_key = Some(name);
                    self.current_value = String::new();
                } else if self.in_product && str_eq(name.as_str(), ARRAY_NODE) {
                    self.in_array = true;
                    self.seen_array = true;
                } else if !self.in_product && str_eq(name.as_str(), PRODUCT_ROOT) {
                    self.in_product = true;
                    self.seen_product = true;
                }
            },
            XmlEvent::Empty(name) => {
                self.flush()?;
                let ghost mid = self.model.field_map();
                if self.in_array {
                    let empty = String::new();
                    self.model.set_field(name.as_str(), empty.as_str());
                    assert(self.model.field_map() =~= mid.insert(name@, Seq::<char>::empty()));
                } else if self.in_product && str_eq(name.as_str(), ARRAY_NODE) {
                    self.seen_array = true;
                } else if !self.in_product && str_eq(name.as_str(), PRODUCT_ROOT) {
                    self.seen_product = true;
                }
            },
            XmlEvent::End(name) => {
                self.flush()?;
                let closes_field = match &self.current_key {
                    Some(k) => str_eq(k.as_str(), name.as_str()),
                    None => false,
                };
                if self.in_array && closes_field {
                    self.model.set_field(name.as_str(), self.current_value.as_str());
                    self.current_key = None;
                    self.current_value = String::new();
                } else if self.in_array && str_eq(name.as_str(), ARRAY_NODE) {
                    self.in_array = false;
                } else if self.in_product && str_eq(name.as_str(), PRODUCT_ROOT) {
                    self.in_product = false;
                }
            },
            XmlEvent::Malformed(message) => {
                let mut text = String::from_str("pds4: malformed XML label: ");
                text.append(message.as_str());
                return Err(Error::invalid_argument(text.as_str()));
            },
            _ => {
                self.flush()?;
            },
        }
        assert(self.state() =~= label_step(old(self).state(), ev0)->0);
        Ok(())
    }

    /// The model of a finished parse: fails with
    /// [`ErrorCode::InvalidArgument`] when no root or no array element was
    /// seen.
    pub fn finish(self) -> (r: Result<StorageModel>)
        requires
            self.wf(),
        ensures
            r matches Ok(m) ==> m.child_nodes().len() == 0,
            !self.state().seen_product ==> (r matches Err(e) && e.kind() == ErrorCode::InvalidArgument),
            self.state().seen_product && !self.state().seen_array ==> (r matches Err(e) && e.kind()
                == ErrorCode::InvalidArgument),
            self.state().seen_product && self.state().seen_array ==> (r matches Ok(m) && m.field_map()
                == self.state().fields),
    {
        if !self.seen_product {
            return Err(Error::invalid_argument("pds4: label has no Product_Observational root"));
        }
        if !self.seen_array {
            return Err(Error::invalid_argument("pds4: label has no Array_2D_Image element"));
        }
        Ok(self.model)
    }
}

/// Parses a label into the model of its array element's fields
/// ([`label_fields`]): each child element's text (references resolved,
/// each stretch of text between other events trimmed of XML white space)
/// is a field. Empty bytes, bytes that are not UTF-8, malformed XML, or a
/// label without the root or the array element fail with
/// [`ErrorCode::InvalidArgument`].
pub fn parse_label(label: &[u8]) -> (r: Result<StorageModel>)
    ensures
        label@.len() == 0 ==> (r matches Err(e) && e.kind() == ErrorCode::InvalidArgument),
        !valid_utf8(label@) ==> (r matches Err(e) && e.kind() == ErrorCode::InvalidArgument),
        label@.len() > 0 && valid_utf8(label@) ==> (r is Ok <==> label_fields(decode_utf8(label@)) is Some),
        r matches Ok(m) ==> m.field_map() == label_fields(decode_utf8(label@))->0 && m.child_nodes().len() == 0,
        r matches Err(e) ==> e.kind() == ErrorCode::InvalidArgument,
        forall|e: Entries|
            label_writable(e) && #[trigger] label_bytes(e) == label@ ==> (r matches Ok(m) && m.field_map()
                == entries_map(e)),
{
    proof {
        assert forall|e: Entries| label_writable(e) && #[trigger] label_bytes(e) == label@ implies label@.len() > 0
            && valid_utf8(label@) by {
            lemma_label_bytes_utf8(e);
        }
    }
    if label.len() == 0 {
        return Err(Error::invalid_argument("pds4: empty label"));
    }
    let text = match str_from_utf8(label) {
        Some(t) => t,
        None => {
            return Err(Error::invalid_argument("pds4: label is not valid UTF-8"));
        },
    };
    proof {
        assert(decode_utf8(label@) == text@) by {
            assert(decode_utf8(utf8(text@)) == text@);
        }
    }
    let mut reader = xml_reader(text);
    let ghost evs = xml_events(text@);
    proof {
        assert forall|e: Entries| label_writable(e) && #[trigger] label_bytes(e) == label@ implies label_fields(
            text@,
        ) == Some(entries_map(e)) by {
            assert(label_bytes(e) == utf8(text@));
            assert(label_events_of(e, xml_pending(reader)));
            let vs = choose|vs: Seq<Seq<XmlToken>>| #[trigger] label_tokens(e, vs) == xml_pending(reader)
                && value_tokens_ok(e, vs);
            lemma_label_tokens_run(e, vs);
        }
    }
    let mut parse = LabelParse::new();
    let ghost mut i: int = 0;
    assert(evs.subrange(0, evs.len() as int) =~= evs);
    loop
        invariant_except_break
            decode_utf8(label@) == text@,
            forall|e: Entries|
                label_writable(e) && #[trigger] label_bytes(e) == label@ ==> label_fields(text@) == Some(
                    entries_map(e),
                ),
            evs == xml_events(text@),
            0 <= i < evs.len(),
            xml_pending(reader) == evs.subrange(i, evs.len() as int),
            is_terminal(evs.last()),
            forall|j: int| 0 <= j < evs.len() - 1 ==> !is_terminal(#[trigger] evs[j]),
            parse.wf(),
            label_run(initial_label_state(), evs) == label_run(parse.state(), evs.subrange(i, evs.len() as int)),
        ensures
            label_run(initial_label_state(), evs) == Some(parse.state()),
            parse.wf(),
        decreases evs.len() - i,
    {
        let ghost sub = evs.subrange(i, evs.len() as int);
        let ghost before = parse.state();
        let ev = next_xml_event(&mut reader);
        proof {
            assert(sub[0] == evs[i]);
            assert(sub.drop_first() =~= evs.subrange(i + 1, evs.len() as int));
        }
        match ev {
            XmlEvent::Eof => {
                break;
            },
            other => {
                let ghost tok = event_view(other);
                proof {
                    assert(tok == sub[0]);
                }
                match parse.apply(other) {
                    Ok(()) => {},
                    Err(e) => {
                        proof {
                            assert(label_run(before, sub) is None);
                        }
                        return Err(e);
                    },
                }
            },
        }
        proof {
            assert(!is_terminal(evs[i]));
            i = i + 1;
        }
    }
    parse.finish()
}

// ---------------------------------------------------------------------------
// Reading back what was written.
// ---------------------------------------------------------------------------

/// Whether `c` may stand in an XML element name written here: an ASCII
/// letter or `_`, or, past the first character, also a digit, `-` or `.`.
pub open spec fn xml_name_char(c: char, first: bool) -> bool {
    ('a' <= c <= 'z') || ('A' <= c <= 'Z') || c == '_' || (!first && (('0' <= c <= '9') || c == '-' || c
        == '.'))
}

/// Whether `k` is a plain XML element name.
pub open spec fn xml_name_ok(k: Seq<char>) -> bool {
    &&& k.len() > 0
    &&& forall|i: int| 0 <= i < k.len() ==> xml_name_char(#[trigger] k[i], i == 0)
}

/// Whether `v` neither starts nor ends with XML white space.
pub open spec fn xml_ends_ok(v: Seq<char>) -> bool {
    v.len() == 0 || (!is_xml_space(v[0]) && !is_xml_space(v.last()))
}

/// Whether a field table's label reads back to it: sorted keys that are
/// plain element names, values without surrounding XML white space.
pub open spec fn label_writable(e: Entries) -> bool {
    &&& keys_sorted(e)
    &&& forall|i: int| 0 <= i < e.len() ==> xml_name_ok(#[trigger] e[i].0) && xml_ends_ok(e[i].1)
}

/// The raw text of a text or reference event, as it stands in the XML.
pub open spec fn token_raw(t: XmlToken) -> Seq<char> {
    match t {
        XmlToken::Text(s) => s,
        XmlToken::Reference(n) => seq!['&'] + n + seq![';'],
        _ => Seq::empty(),
    }
}

/// The raw text of a run of text and reference events.
pub open spec fn raw_of(ts: Seq<XmlToken>) -> Seq<char>
    decreases ts.len(),
{
    if ts.len() == 0 {
        Seq::empty()
    } else {
        token_raw(ts[0]) + raw_of(ts.drop_first())
    }
}

/// Whether `evs` are the events of the label of `e`, its values cut
/// into text and reference events in some way ([`label_tokens`],
/// [`value_tokens_ok`]).
pub open spec fn label_events_of(e: Entries, evs: Seq<XmlToken>) -> bool {
    exists|vs: Seq<Seq<XmlToken>>| #[trigger] label_tokens(e, vs) == evs && value_tokens_ok(e, vs)
}

/// Whether `t` is a text or reference event.
pub open spec fn text_like(t: XmlToken) -> bool {
    t is Text || t is Reference
}

/// The events of the first `k` field elements of `e`, the value of field
/// `i` coming as the events `vs[i]`.
pub open spec fn field_tokens(e: Entries, vs: Seq<Seq<XmlToken>>, k: nat) -> Seq<XmlToken>
    decreases k,
{
    if k == 0 {
        Seq::empty()
    } else {
        field_tokens(e, vs, (k - 1) as nat) + seq![XmlToken::Start(e[k - 1].0)] + vs[k - 1] + seq![
            XmlToken::End(e[k - 1].0),
        ]
    }
}

/// The events of the label of `e` ([`label_bytes`]), field `i`'s value
/// coming as the events `vs[i]`.
pub open spec fn label_tokens(e: Entries, vs: Seq<Seq<XmlToken>>) -> Seq<XmlToken> {
    seq![XmlToken::Start(PRODUCT_ROOT@), XmlToken::Start(ARRAY_NODE@)] + field_tokens(e, vs, e.len()) + seq![
        XmlToken::End(ARRAY_NODE@),
        XmlToken::End(PRODUCT_ROOT@),
        XmlToken::Eof,
    ]
}

/// Whether `vs[i]` are text and reference events whose raw text is the
/// escaped value of field `i` and unescapes back to that value.
pub open spec fn value_tokens_ok(e: Entries, vs: Seq<Seq<XmlToken>>) -> bool {
    &&& vs.len() == e.len()
    &&& forall|i: int|
        0 <= i < e.len() ==> {
            &&& raw_of(#[trigger] vs[i]) == xml_escape(e[i].1)
            &&& raw_of(vs[i]).len() > 0 ==> xml_unescaped(raw_of(vs[i])) == Some(e[i].1)
            &&& forall|j: int| 0 <= j < vs[i].len() ==> text_like(#[trigger] vs[i][j])
        }
}

/// The fields of the first `k` entries, a later key winning.
pub open spec fn fields_upto(e: Entries, k: nat) -> Map<Seq<char>, Seq<char>>
    decreases k,
{
    if k == 0 {
        Map::empty()
    } else {
        fields_upto(e, (k - 1) as nat).insert(e[k - 1].0, e[k - 1].1)
    }
}

/// The state inside the array element between fields, with fields `f`.
pub open spec fn between_fields(f: Map<Seq<char>, Seq<char>>) -> LabelState {
    LabelState {
        seen_product: true,
        in_product: true,
        seen_array: true,
        in_array: true,
        key: None,
        value: Seq::empty(),
        segment: Seq::empty(),
        fields: f,
    }
}

proof fn lemma_run_step(s: LabelState, t: XmlToken, rest: Seq<XmlToken>)
    requires
        !(t is Eof),
    ensures
        label_run(s, seq![t] + rest) == match label_step(s, t) {
            Some(s2) => label_run(s2, rest),
            None => None,
        },
{
    let x = seq![t] + rest;
    assert(x[0] == t);
    assert(x.drop_first() =~= rest);
}

proof fn lemma_run_text(s: LabelState, ts: Seq<XmlToken>, rest: Seq<XmlToken>)
    requires
        s.in_array,
        s.key is Some,
        forall|j: int| 0 <= j < ts.len() ==> text_like(#[trigger] ts[j]),
    ensures
        label_run(s, ts + rest) == label_run(LabelState { segment: s.segment + raw_of(ts), ..s }, rest),
    decreases ts.len(),
{
    if ts.len() == 0 {
        assert(ts + rest =~= rest);
        assert(s.segment + raw_of(ts) =~= s.segment);
    } else {
        let t = ts[0];
        let tail = ts.drop_first();
        assert(ts + rest =~= seq![t] + (tail + rest));
        lemma_run_step(s, t, tail + rest);
        let s2 = LabelState { segment: s.segment + token_raw(t), ..s };
        assert(label_step(s, t) == Some(s2));
        assert forall|j: int| 0 <= j < tail.len() implies text_like(#[trigger] tail[j]) by {
            assert(tail[j] == ts[j + 1]);
        }
        lemma_run_text(s2, tail, rest);
        assert(s2.segment + raw_of(tail) =~= s.segment + raw_of(ts));
    }
}

proof fn lemma_escape_first(v: Seq<char>)
    requires
        v.len() > 0,
    ensures
        xml_escape(v).len() > 0,
        xml_escape(v)[0] == xml_escape_char(v[0])[0],
    decreases v.len(),
{
    let c = xml_escape_char(v.last());
    assert(c.len() > 0);
    if v.len() > 1 {
        lemma_escape_first(v.drop_last());
        assert(v.drop_last()[0] == v[0]);
        let a = xml_escape(v.drop_last());
        assert(xml_escape(v) == a + c);
        assert((a + c)[0] == a[0]);
    } else {
        assert(v.drop_last().len() == 0);
        assert(xml_escape(v.drop_last()) == Seq::<char>::empty());
        assert(xml_escape(v) =~= c);
        assert(v.last() == v[0]);
    }
}

/// Escaping a value without surrounding XML white space gives text
/// without it.
proof fn lemma_escape_trim(v: Seq<char>)
    requires
        xml_ends_ok(v),
    ensures
        xml_trim(xml_escape(v)) == xml_escape(v),
{
    let x = xml_escape(v);
    if v.len() == 0 {
        assert(x.len() == 0);
        assert(x.subrange(0, 0) =~= x);
    } else {
        lemma_escape_first(v);
        assert(!is_xml_space(x[0]));
        assert(x.last() == xml_escape_char(v.last()).last());
        assert(!is_xml_space(x.last()));
        assert(xml_skip_space(x, 0, x.len() as int) == 0);
        assert(xml_skip_space_back(x, 0, x.len() as int) == x.len());
        assert(x.subrange(0, x.len() as int) =~= x);
    }
}

proof fn lemma_run_fields(
    e: Entries,
    vs: Seq<Seq<XmlToken>>,
    k: nat,
    rest: Seq<XmlToken>,
    unescape_ok: bool,
)
    requires
        k <= e.len(),
        label_writable(e),
        value_tokens_ok(e, vs),
    ensures
        label_run(between_fields(Map::empty()), field_tokens(e, vs, k) + rest) == label_run(
            between_fields(fields_upto(e, k)),
            rest,
        ),
    decreases k,
{
    if k == 0 {
        assert(field_tokens(e, vs, 0) + rest =~= rest);
    } else {
        let i = (k - 1) as int;
        let key = e[i].0;
        let v = e[i].1;
        let b = seq![XmlToken::Start(key)] + vs[i] + seq![XmlToken::End(key)];
        assert(field_tokens(e, vs, k) + rest =~= field_tokens(e, vs, (k - 1) as nat) + (b + rest));
        lemma_run_fields(e, vs, (k - 1) as nat, b + rest, unescape_ok);
        let s0 = between_fields(fields_upto(e, (k - 1) as nat));
        // The start tag.
        assert(b + rest =~= seq![XmlToken::Start(key)] + (vs[i] + (seq![XmlToken::End(key)] + rest)));
        lemma_run_step(s0, XmlToken::Start(key), vs[i] + (seq![XmlToken::End(key)] + rest));
        assert(xml_trim(Seq::<char>::empty()) =~= Seq::<char>::empty());
        assert(flushed(s0) == Some(LabelState { segment: Seq::empty(), ..s0 }));
        let s1 = LabelState { key: Some(key), value: Seq::empty(), ..s0 };
        assert(label_step(s0, XmlToken::Start(key)) == Some(s1));
        // The value.
        assert(forall|j: int| 0 <= j < vs[i].len() ==> text_like(#[trigger] vs[i][j]));
        lemma_run_text(s1, vs[i], seq![XmlToken::End(key)] + rest);
        let s2 = LabelState { segment: s1.segment + raw_of(vs[i]), ..s1 };
        assert(s2.segment =~= xml_escape(v));
        // The end tag.
        lemma_run_step(s2, XmlToken::End(key), rest);
        lemma_escape_trim(v);
        let s3 = LabelState { value: v, segment: Seq::empty(), ..s2 };
        if xml_escape(v).len() == 0 {
            assert(v.len() == 0) by {
                if v.len() > 0 {
                    lemma_escape_first(v);
                }
            }
            assert(s2.value + Seq::<char>::empty() =~= v);
            assert(flushed(s2) == Some(s3));
        } else {
            assert(raw_of(vs[i]) == xml_escape(v));
            assert(xml_unescaped(xml_escape(v)) == Some(v));
            assert(s2.value + v =~= v);
            assert(flushed(s2) == Some(s3));
        }
        assert(tag_step(s3, XmlToken::End(key)) =~= between_fields(fields_upto(e, k)));
    }
}

/// Entry `i`, the last with its key among the first `k`, is what
/// `fields_upto` holds; no other key is there.
proof fn lemma_fields_upto(e: Entries, k: nat)
    requires
        keys_sorted(e),
        k <= e.len(),
    ensures
        forall|x: Seq<char>| #[trigger] fields_upto(e, k).contains_key(x) <==> exists|i: int| 0 <= i < k && e[i].0 == x,
        forall|i: int| 0 <= i < k ==> #[trigger] fields_upto(e, k)[e[i].0] == e[i].1,
    decreases k,
{
    if k > 0 {
        lemma_fields_upto(e, (k - 1) as nat);
        let m = fields_upto(e, k);
        assert forall|x: Seq<char>| #[trigger] m.contains_key(x) <==> exists|i: int| 0 <= i < k && e[i].0 == x by {
            if m.contains_key(x) && x != e[k - 1].0 {
                assert(fields_upto(e, (k - 1) as nat).contains_key(x));
                let i = choose|i: int| 0 <= i < k - 1 && e[i].0 == x;
                assert(0 <= i < k && e[i].0 == x);
            }
            if exists|i: int| 0 <= i < k && e[i].0 == x {
                let i = choose|i: int| 0 <= i < k && e[i].0 == x;
                if i < k - 1 {
                    assert(fields_upto(e, (k - 1) as nat).contains_key(x));
                }
            }
        }
        assert forall|i: int| 0 <= i < k implies #[trigger] m[e[i].0] == e[i].1 by {
            if i < k - 1 {
                assert(bytes_lt(utf8(e[i].0), utf8(e[k - 1].0)));
                lemma_bytes_lt_irreflexive(utf8(e[i].0));
                assert(e[i].0 != e[k - 1].0);
                assert(fields_upto(e, (k - 1) as nat)[e[i].0] == e[i].1);
            }
        }
    }
}

/// The fields of a sorted table are the map it denotes.
proof fn lemma_fields_upto_map(e: Entries)
    requires
        keys_sorted(e),
    ensures
        fields_upto(e, e.len()) == entries_map(e),
{
    lemma_fields_upto(e, e.len());
    let m = fields_upto(e, e.len());
    assert forall|x: Seq<char>| #[trigger] m.contains_key(x) <==> entries_map(e).contains_key(x) by {
        if m.contains_key(x) {
            let i = choose|i: int| 0 <= i < e.len() && e[i].0 == x;
            lemma_entries_map_at(e, i);
        }
        if entries_map(e).contains_key(x) {
            assert(has_key(e, x));
            let i = choose|i: int| 0 <= i < e.len() && #[trigger] e[i].0 == x;
            assert(exists|i: int| 0 <= i < e.len() && e[i].0 == x);
        }
    }
    assert forall|x: Seq<char>| m.contains_key(x) implies #[trigger] m[x] == entries_map(e)[x] by {
        let i = choose|i: int| 0 <= i < e.len() && e[i].0 == x;
        lemma_entries_map_at(e, i);
    }
    assert(m =~= entries_map(e));
}

/// The events of the label of `e` parse back to `e`'s fields.
pub proof fn lemma_label_tokens_run(e: Entries, vs: Seq<Seq<XmlToken>>)
    requires
        label_writable(e),
        value_tokens_ok(e, vs),
    ensures
        label_run(initial_label_state(), label_tokens(e, vs)) matches Some(s) && s.seen_product && s.seen_array
            && s.fields == entries_map(e),
{
    let tail = seq![XmlToken::End(ARRAY_NODE@), XmlToken::End(PRODUCT_ROOT@), XmlToken::Eof];
    let f = field_tokens(e, vs, e.len());
    let s0 = initial_label_state();
    assert(xml_trim(Seq::<char>::empty()) =~= Seq::<char>::empty());
    assert(label_tokens(e, vs) =~= seq![XmlToken::Start(PRODUCT_ROOT@)] + (seq![XmlToken::Start(ARRAY_NODE@)]
        + (f + tail)));
    lemma_run_step(s0, XmlToken::Start(PRODUCT_ROOT@), seq![XmlToken::Start(ARRAY_NODE@)] + (f + tail));
    let s1 = LabelState { in_product: true, seen_product: true, ..s0 };
    assert(flushed(s0) == Some(LabelState { segment: Seq::empty(), ..s0 }));
    assert(LabelState { segment: Seq::empty(), ..s0 } == s0);
    assert(label_step(s0, XmlToken::Start(PRODUCT_ROOT@)) == Some(s1));
    lemma_run_step(s1, XmlToken::Start(ARRAY_NODE@), f + tail);
    assert(flushed(s1) == Some(s1));
    reveal_strlit("Array_2D_Image");
    reveal_strlit("Product_Observational");
    assert(ARRAY_NODE@ != PRODUCT_ROOT@) by {
        assert(ARRAY_NODE@.len() != PRODUCT_ROOT@.len());
    }
    assert(label_step(s1, XmlToken::Start(ARRAY_NODE@)) == Some(between_fields(Map::empty())));
    lemma_run_fields(e, vs, e.len(), tail, true);
    let s2 = between_fields(fields_upto(e, e.len()));
    lemma_run_step(s2, XmlToken::End(ARRAY_NODE@), seq![XmlToken::End(PRODUCT_ROOT@), XmlToken::Eof]);
    assert(tail =~= seq![XmlToken::End(ARRAY_NODE@)] + seq![XmlToken::End(PRODUCT_ROOT@), XmlToken::Eof]);
    assert(flushed(s2) == Some(s2));
    let s3 = LabelState { in_array: false, ..s2 };
    assert(label_step(s2, XmlToken::End(ARRAY_NODE@)) == Some(s3));
    assert(seq![XmlToken::End(PRODUCT_ROOT@), XmlToken::Eof] =~= seq![XmlToken::End(PRODUCT_ROOT@)] + seq![
        XmlToken::Eof,
    ]);
    lemma_run_step(s3, XmlToken::End(PRODUCT_ROOT@), seq![XmlToken::Eof]);
    assert(flushed(s3) == Some(s3));
    let s4 = LabelState { in_product: false, ..s3 };
    assert(label_step(s3, XmlToken::End(PRODUCT_ROOT@)) == Some(s4));
    assert(label_run(s4, seq![XmlToken::Eof]) == Some(s4));
    lemma_fields_upto_map(e);
}

/// A written label is nonempty UTF-8.
pub proof fn lemma_label_bytes_utf8(e: Entries)
    ensures
        valid_utf8(label_bytes(e)),
        label_bytes(e).len() > 0,
{
    broadcast use vstd::utf8::valid_utf8_concat;

    lemma_field_elements_utf8(e, e.len());
    let a = start_tag(PRODUCT_ROOT@);
    let b = start_tag(ARRAY_NODE@);
    let c = field_elements(e, e.len());
    let d = end_tag(ARRAY_NODE@);
    let f = end_tag(PRODUCT_ROOT@);
    vstd::utf8::encode_utf8_valid_utf8(seq!['<'] + PRODUCT_ROOT@ + seq!['>']);
    vstd::utf8::encode_utf8_valid_utf8(seq!['<'] + ARRAY_NODE@ + seq!['>']);
    vstd::utf8::encode_utf8_valid_utf8(seq!['<', '/'] + ARRAY_NODE@ + seq!['>']);
    vstd::utf8::encode_utf8_valid_utf8(seq!['<', '/'] + PRODUCT_ROOT@ + seq!['>']);
    vstd::utf8::valid_utf8_concat(a, b);
    vstd::utf8::valid_utf8_concat(a + b, c);
    vstd::utf8::valid_utf8_concat(a + b + c, d);
    vstd::utf8::valid_utf8_concat(a + b + c + d, f);
    vstd::utf8::encode_utf8_first_scalar(seq!['<'] + PRODUCT_ROOT@ + seq!['>']);
    assert(a.len() > 0);
}

proof fn lemma_field_elements_utf8(e: Entries, k: nat)
    requires
        k <= e.len(),
    ensures
        valid_utf8(field_elements(e, k)),
    decreases k,
{
    broadcast use vstd::utf8::valid_utf8_concat;

    if k == 0 {
        assert(field_elements(e, 0) =~= utf8(Seq::<char>::empty()));
        vstd::utf8::encode_utf8_valid_utf8(Seq::<char>::empty());
    } else {
        lemma_field_elements_utf8(e, (k - 1) as nat);
        let i = k - 1;
        let a = field_elements(e, (k - 1) as nat);
        let b = start_tag(e[i].0);
        let c = utf8(xml_escape(e[i].1));
        let d = end_tag(e[i].0);
        vstd::utf8::encode_utf8_valid_utf8(seq!['<'] + e[i].0 + seq!['>']);
        vstd::utf8::encode_utf8_valid_utf8(xml_escape(e[i].1));
        vstd::utf8::encode_utf8_valid_utf8(seq!['<', '/'] + e[i].0 + seq!['>']);
        vstd::utf8::valid_utf8_concat(a, b);
        vstd::utf8::valid_utf8_concat(a + b, c);
        vstd::utf8::valid_utf8_concat(a + b + c, d);
    }
}

} // verus!
