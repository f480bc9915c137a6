//! The trusted boundary to the event source and event sink, both supplied by
//! the `xml-rs` crate: the source turns bytes into lexical events and
//! guarantees well-formed nesting; the sink turns events back into bytes and
//! owns escaping and indentation.
//!
//! Both collaborators are deterministic here: the source reads from an
//! in-memory buffer, so what it yields is a function of the bytes alone, and
//! the sink writes into an in-memory buffer, so what it renders (or refuses)
//! is a function of its configuration and the events handed to it. Those
//! functions are named — `source_events`, `sink_step`, `sink_bytes` — and the
//! wrappers' contracts speak of the names, so that the parse and write entry
//! points can tie their results to their inputs exactly.

use crate::events::{
    events_model, lemma_events_model_push, opt_str_model, Attribute, EventModel, TreeEvent,
};
use crate::version::XmlVersion;
use vstd::prelude::*;
use xml::reader::XmlEvent as SourceEvent;

verus! {

// ---------------------------------------------------------------------------
// The event source.
// ---------------------------------------------------------------------------

/// A pull-based source of lexical XML events over an in-memory byte buffer.
///
/// The reader type itself cannot be declared to the verifier — its type
/// parameter carries an I/O trait bound — so it sits opaquely behind this
/// struct and is reached only through the wrappers below.
#[verifier::external_body]
pub struct EventSource {
    inner: xml::reader::EventReader<std::io::Cursor<Vec<u8>>>,
}

/// One answer of the event source: a tree-building event, an ignorable event
/// (`Skip`), or the end of the document.
pub(crate) enum RawEvent {
    DocStart { version: XmlVersion, encoding: String },
    Start { prefix: Option<String>, name: String, attributes: Vec<Attribute> },
    End { prefix: Option<String>, name: String },
    Text(String),
    CData(String),
    DocEnd,
    Skip,
}

/// What the source yields for a byte buffer, as a whole: first the sequence
/// of lexical events it delivers — each a tree-building event, or `None` for
/// an ignorable kind — and then how the stream ends: cleanly at the end of
/// the document (`None`), or on the lexical error with this message (`Some`).
/// A malformed buffer thus still delivers its well-formed prefix of events
/// before the error.
pub uninterp spec fn source_events(bytes: Seq<u8>) -> (
    Seq<Option<EventModel>>,
    Option<Seq<char>>,
);

/// What a source has still to yield: the not-yet-delivered suffix of the
/// events of `source_events` of its buffer, with the same ending.
pub uninterp spec fn source_remaining(src: EventSource) -> (
    Seq<Option<EventModel>>,
    Option<Seq<char>>,
);

/// The tree-building events of a lexical stream, in order, ignorable kinds
/// dropped.
pub open spec fn present_events(items: Seq<Option<EventModel>>) -> Seq<EventModel>
    decreases items.len(),
{
    if items.len() == 0 {
        Seq::empty()
    } else {
        (match items[0] {
            Some(e) => seq![e],
            None => Seq::<EventModel>::empty(),
        }) + present_events(items.drop_first())
    }
}

/// Whether one pulled answer stands for one item of the lexical stream.
pub(crate) open spec fn raw_matches(item: Option<EventModel>, raw: RawEvent) -> bool {
    match (item, raw) {
        (None, RawEvent::Skip) => true,
        (
            Some(EventModel::StartDocument { version, encoding }),
            RawEvent::DocStart { version: v, encoding: e },
        ) => version == v && encoding == e@,
        (
            Some(EventModel::StartElement { prefix, name, attributes }),
            RawEvent::Start { prefix: p, name: n, attributes: a },
        ) => prefix == opt_str_model(p) && name == n@ && attributes == a@.map(
            |i: int, x: Attribute| x@,
        ),
        (
            Some(EventModel::EndElement { prefix, name }),
            RawEvent::End { prefix: p, name: n },
        ) => prefix == opt_str_model(p) && name == n@,
        (Some(EventModel::Characters(s)), RawEvent::Text(t)) => s == t@,
        (Some(EventModel::CData(s)), RawEvent::CData(t)) => s == t@,
        _ => false,
    }
}

/// How many events a source has still to deliver before the stream ends.
pub open spec fn source_measure(src: EventSource) -> nat {
    source_remaining(src).0.len()
}

/// Relies on xml::reader::EventReader::new over an in-memory cursor: the new
/// source has the whole stream for its bytes still to yield.
#[verifier::external_body]
pub(crate) fn source_from_bytes(bytes: &[u8]) -> (src: EventSource)
    ensures
        source_remaining(src) == source_events(bytes@),
{
    EventSource { inner: xml::reader::EventReader::new(std::io::Cursor::new(bytes.to_vec())) }
}

/// Relies on xml::reader::EventReader::next: one pull hands over the head of
/// the remaining stream — converted by the helpers below — and once the
/// delivered events are exhausted, the stream's ending: the end of the
/// document, or the error's message, again on every later pull.
#[verifier::external_body]
pub(crate) fn source_pull(src: &mut EventSource) -> (r: Result<RawEvent, String>)
    ensures
        ({
            let (items, ending) = source_remaining(*old(src));
            if items.len() > 0 {
                r matches Ok(raw) && raw_matches(items[0], raw) && source_remaining(*final(src))
                    == (items.drop_first(), ending)
            } else {
                match ending {
                    None => r matches Ok(raw) && raw is DocEnd,
                    Some(m) => r matches Err(s) && s@ == m,
                }
            }
        }),
{
    match src.inner.next() {
        Ok(ev) => Ok(convert_event(ev)),
        Err(e) => Err(e.to_string()),
    }
}

/// A lexical event of the source, as the outside crate reports it.
#[verifier::external_type_specification]
#[verifier::external_body]
pub struct ExXmlReadEvent(xml::reader::XmlEvent);

/// One attribute of a start tag, as the outside crate reports it.
#[verifier::external_type_specification]
#[verifier::external_body]
pub struct ExOwnedAttribute(xml::attribute::OwnedAttribute);

/// Converts the outside attribute list for `source_pull`, one attribute to
/// one attribute.
#[verifier::external_body]
fn convert_attrs(attrs: Vec<xml::attribute::OwnedAttribute>) -> (r: Vec<Attribute>) {
    attrs.into_iter().map(
        |a| Attribute { prefix: a.name.prefix, name: a.name.local_name, value: a.value },
    ).collect()
}

/// Converts one lexical event for `source_pull`, one arm per outside event
/// kind, fields moved; the version maps variant to variant.
#[verifier::external_body]
fn convert_event(ev: xml::reader::XmlEvent) -> (r: RawEvent) {
    match ev {
        SourceEvent::StartDocument { version, encoding, .. } => RawEvent::DocStart {
            version: if matches!(version, xml::common::XmlVersion::Version11) { XmlVersion::Version11 } else { XmlVersion::Version10 },
            encoding,
        },
        SourceEvent::StartElement { name, attributes, .. } => RawEvent::Start { prefix: name.prefix, name: name.local_name, attributes: convert_attrs(attributes) },
        SourceEvent::EndElement { name } => RawEvent::End { prefix: name.prefix, name: name.local_name },
        SourceEvent::Characters(s) => RawEvent::Text(s),
        SourceEvent::CData(s) => RawEvent::CData(s),
        SourceEvent::EndDocument => RawEvent::DocEnd,
        _ => RawEvent::Skip,
    }
}

/// Read the whole event stream for `bytes`: when the stream ends cleanly,
/// exactly the tree-building events the source delivers, ignorable kinds
/// dropped; when it ends on a lexical error, that error's message, unchanged
/// (the well-formed prefix of events is discarded: a failed parse yields no
/// partial result).
pub(crate) fn collect_events(bytes: &[u8]) -> (r: Result<Vec<TreeEvent>, String>)
    ensures
        ({
            let (items, ending) = source_events(bytes@);
            match ending {
                None => r matches Ok(v) && events_model(v@) == present_events(items),
                Some(m) => r matches Err(s) && s@ == m,
            }
        }),
{
    let ghost total = source_events(bytes@);
    let mut src = source_from_bytes(bytes);
    let mut out: Vec<TreeEvent> = Vec::new();
    proof {
        assert(events_model(out@) =~= Seq::<EventModel>::empty());
        assert(events_model(out@) + present_events(total.0) =~= present_events(total.0));
    }
    loop
        invariant
            total == source_events(bytes@),
            source_remaining(src).1 == total.1,
            present_events(total.0) == events_model(out@) + present_events(
                source_remaining(src).0,
            ),
        decreases source_measure(src),
    {
        let ghost (items, ending) = source_remaining(src);
        let pulled = source_pull(&mut src);
        match pulled {
            Err(msg) => {
                return Err(msg);
            },
            Ok(raw) => {
                match raw {
                    RawEvent::DocEnd => {
                        proof {
                            assert(items.len() == 0);
                            assert(present_events(items) =~= Seq::<EventModel>::empty());
                            assert(events_model(out@) =~= events_model(out@) + present_events(
                                items,
                            ));
                        }
                        return Ok(out);
                    },
                    RawEvent::Skip => {
                        proof {
                            assert(items[0] is None);
                            assert(present_events(items) =~= present_events(items.drop_first()));
                        }
                    },
                    RawEvent::DocStart { version, encoding } => {
                        let ghost out0 = out@;
                        let ev = TreeEvent::StartDocument { version, encoding };
                        proof {
                            assert(items[0] == Some(ev@));
                            lemma_events_model_push(out0, ev);
                            assert(events_model(out0.push(ev)) + present_events(
                                items.drop_first(),
                            ) =~= events_model(out0) + present_events(items));
                        }
                        out.push(ev);
                    },
                    RawEvent::Start { prefix, name, attributes } => {
                        let ghost out0 = out@;
                        let ev = TreeEvent::StartElement { prefix, name, attributes };
                        proof {
                            assert(items[0] == Some(ev@));
                            lemma_events_model_push(out0, ev);
                            assert(events_model(out0.push(ev)) + present_events(
                                items.drop_first(),
                            ) =~= events_model(out0) + present_events(items));
                        }
                        out.push(ev);
                    },
                    RawEvent::End { prefix, name } => {
                        let ghost out0 = out@;
                        let ev = TreeEvent::EndElement { prefix, name };
                        proof {
                            assert(items[0] == Some(ev@));
                            lemma_events_model_push(out0, ev);
                            assert(events_model(out0.push(ev)) + present_events(
                                items.drop_first(),
                            ) =~= events_model(out0) + present_events(items));
                        }
                        out.push(ev);
                    },
                    RawEvent::Text(s) => {
                        let ghost out0 = out@;
                        let ev = TreeEvent::Characters(s);
                        proof {
                            assert(items[0] == Some(ev@));
                            lemma_events_model_push(out0, ev);
                            assert(events_model(out0.push(ev)) + present_events(
                                items.drop_first(),
                            ) =~= events_model(out0) + present_events(items));
                        }
                        out.push(ev);
                    },
                    RawEvent::CData(s) => {
                        let ghost out0 = out@;
                        let ev = TreeEvent::CData(s);
                        proof {
                            assert(items[0] == Some(ev@));
                            lemma_events_model_push(out0, ev);
                            assert(events_model(out0.push(ev)) + present_events(
                                items.drop_first(),
                            ) =~= events_model(out0) + present_events(items));
                        }
                        out.push(ev);
                    },
                }
            },
        }
    }
}

// ---------------------------------------------------------------------------
// The event sink.
// ---------------------------------------------------------------------------

/// A sink of output events writing XML text into an in-memory byte buffer.
#[verifier::external_type_specification]
#[verifier::external_body]
#[verifier::reject_recursive_types(W)]
pub struct ExEventWriter<W>(xml::writer::EventWriter<W>);

/// The sink's abstract state: its configuration and the events it has
/// accepted so far. The emitter over an in-memory buffer is deterministic, so
/// this state decides everything it does next.
#[verifier::ext_equal]
pub struct SinkState {
    pub document_decl: bool,
    pub indent_str: Seq<char>,
    pub indent: bool,
    pub accepted: Seq<EventModel>,
}

/// The abstract state of a sink value.
pub uninterp spec fn sink_state(w: xml::writer::EventWriter<Vec<u8>>) -> SinkState;

/// What the sink does with one more event in a given state: accepts it
/// (`None`), or refuses it with this message (`Some`).
pub uninterp spec fn sink_step(st: SinkState, ev: EventModel) -> Option<Seq<char>>;

/// The bytes a sink in a given state has written.
pub uninterp spec fn sink_bytes(st: SinkState) -> Seq<u8>;

/// The state of a freshly configured sink: nothing accepted yet.
pub open spec fn init_sink_state(
    document_decl: bool,
    indent_str: Seq<char>,
    indent: bool,
) -> SinkState {
    SinkState { document_decl, indent_str, indent, accepted: Seq::empty() }
}

/// The state after one more accepted event.
pub open spec fn sink_accept(st: SinkState, ev: EventModel) -> SinkState {
    SinkState { accepted: st.accepted.push(ev), ..st }
}

/// Handing the events `evs[i..]` to a sink, one by one: the state once all
/// are accepted, or the message of the first refused event.
pub open spec fn sink_drive(st: SinkState, evs: Seq<EventModel>, i: int) -> Result<
    SinkState,
    Seq<char>,
>
    decreases evs.len() - i,
{
    if i < 0 || i >= evs.len() {
        Ok(st)
    } else {
        match sink_step(st, evs[i]) {
            None => sink_drive(sink_accept(st, evs[i]), evs, i + 1),
            Some(m) => Err(m),
        }
    }
}

/// What the sink renders for a configuration and an event sequence: the
/// bytes, or the message of the first refused event, at which emission stops.
pub open spec fn sink_outcome(
    document_decl: bool,
    indent_str: Seq<char>,
    indent: bool,
    evs: Seq<EventModel>,
) -> Result<Seq<u8>, Seq<char>> {
    match sink_drive(init_sink_state(document_decl, indent_str, indent), evs, 0) {
        Ok(st) => Ok(sink_bytes(st)),
        Err(m) => Err(m),
    }
}

/// Relies on xml::writer::EmitterConfig::create_writer: a writer over an
/// empty buffer, configured for declaration emission, indentation string and
/// pretty-printing as asked. Nothing is accepted yet, nothing is written yet,
/// and a fresh sink accepts a document declaration (the emitter refuses one
/// only after a first one, and a write into an in-memory buffer cannot fail).
#[verifier::external_body]
pub(crate) fn sink_new(document_decl: bool, indent_str: &str, indent: bool) -> (w: xml::writer::EventWriter<Vec<u8>>)
    ensures
        sink_state(w) == init_sink_state(document_decl, indent_str@, indent),
        sink_bytes(sink_state(w)) == Seq::<u8>::empty(),
        forall|v: XmlVersion, e: Seq<char>|
            #![trigger sink_step(sink_state(w), EventModel::StartDocument { version: v, encoding: e })]
            sink_step(sink_state(w), EventModel::StartDocument { version: v, encoding: e })
                is None,
{
    xml::writer::EmitterConfig::new()
        .perform_indent(indent)
        .write_document_declaration(document_decl)
        .indent_string(indent_str.to_owned())
        .create_writer(Vec::new())
}

/// Relies on xml::writer::EventWriter::write for a document declaration; the
/// version maps variant to variant. The write accepts or refuses the event as
/// `sink_step` says of the sink's state.
#[verifier::external_body]
pub(crate) fn sink_declaration(w: &mut xml::writer::EventWriter<Vec<u8>>, version: &XmlVersion, encoding: &str) -> (r: Result<(), String>)
    ensures
        ({
            let ev = EventModel::StartDocument { version: *version, encoding: encoding@ };
            match sink_step(sink_state(*old(w)), ev) {
                None => r is Ok && sink_state(*final(w)) == sink_accept(sink_state(*old(w)), ev),
                Some(m) => r matches Err(s) && s@ == m,
            }
        }),
{
    w.write(xml::writer::XmlEvent::StartDocument {
        version: match version {
            XmlVersion::Version10 => xml::common::XmlVersion::Version10,
            XmlVersion::Version11 => xml::common::XmlVersion::Version11,
        },
        encoding: Some(encoding),
        standalone: None,
    }).map_err(|e| e.to_string())
}

/// Relies on xml::writer::EventWriter::write for a start tag; the attribute
/// list converts one to one. The write accepts or refuses the event as
/// `sink_step` says of the sink's state.
#[verifier::external_body]
pub(crate) fn sink_start(w: &mut xml::writer::EventWriter<Vec<u8>>, prefix: &Option<String>, name: &str, attrs: &Vec<Attribute>) -> (r: Result<(), String>)
    ensures
        ({
            let ev = EventModel::StartElement {
                prefix: opt_str_model(*prefix),
                name: name@,
                attributes: attrs@.map(|i: int, a: Attribute| a@),
            };
            match sink_step(sink_state(*old(w)), ev) {
                None => r is Ok && sink_state(*final(w)) == sink_accept(sink_state(*old(w)), ev),
                Some(m) => r matches Err(s) && s@ == m,
            }
        }),
{
    let list: Vec<xml::attribute::Attribute> = attrs.iter().map(|a| xml::attribute::Attribute {
        name: xml::name::Name { local_name: &a.name, namespace: None, prefix: a.prefix.as_deref() },
        value: &a.value,
    }).collect();
    w.write(xml::writer::XmlEvent::StartElement {
        name: xml::name::Name { local_name: name, namespace: None, prefix: prefix.as_deref() },
        attributes: std::borrow::Cow::Owned(list),
        namespace: std::borrow::Cow::Owned(xml::namespace::Namespace::empty()),
    }).map_err(|e| e.to_string())
}

/// Relies on xml::writer::EventWriter::write for a character-data event. The
/// write accepts or refuses the event as `sink_step` says of the sink's
/// state.
#[verifier::external_body]
pub(crate) fn sink_characters(w: &mut xml::writer::EventWriter<Vec<u8>>, s: &str) -> (r: Result<(), String>)
    ensures
        ({
            let ev = EventModel::Characters(s@);
            match sink_step(sink_state(*old(w)), ev) {
                None => r is Ok && sink_state(*final(w)) == sink_accept(sink_state(*old(w)), ev),
                Some(m) => r matches Err(s2) && s2@ == m,
            }
        }),
{
    w.write(xml::writer::XmlEvent::Characters(s)).map_err(|e| e.to_string())
}

/// Relies on xml::writer::EventWriter::write for a CDATA event. The write
/// accepts or refuses the event as `sink_step` says of the sink's state.
#[verifier::external_body]
pub(crate) fn sink_cdata(w: &mut xml::writer::EventWriter<Vec<u8>>, s: &str) -> (r: Result<(), String>)
    ensures
        ({
            let ev = EventModel::CData(s@);
            match sink_step(sink_state(*old(w)), ev) {
                None => r is Ok && sink_state(*final(w)) == sink_accept(sink_state(*old(w)), ev),
                Some(m) => r matches Err(s2) && s2@ == m,
            }
        }),
{
    w.write(xml::writer::XmlEvent::CData(s)).map_err(|e| e.to_string())
}

/// Relies on xml::writer::EventWriter::write for an end tag. The write
/// accepts or refuses the event as `sink_step` says of the sink's state.
#[verifier::external_body]
pub(crate) fn sink_end(w: &mut xml::writer::EventWriter<Vec<u8>>, prefix: &Option<String>, name: &str) -> (r: Result<(), String>)
    ensures
        ({
            let ev = EventModel::EndElement { prefix: opt_str_model(*prefix), name: name@ };
            match sink_step(sink_state(*old(w)), ev) {
                None => r is Ok && sink_state(*final(w)) == sink_accept(sink_state(*old(w)), ev),
                Some(m) => r matches Err(s) && s@ == m,
            }
        }),
{
    w.write(xml::writer::XmlEvent::EndElement {
        name: Some(xml::name::Name { local_name: name, namespace: None, prefix: prefix.as_deref() }),
    }).map_err(|e| e.to_string())
}

/// Relies on xml::writer::EventWriter::into_inner: the bytes the sink has
/// written for what it accepted.
#[verifier::external_body]
pub(crate) fn sink_into_bytes(w: xml::writer::EventWriter<Vec<u8>>) -> (r: Vec<u8>)
    ensures
        r@ == sink_bytes(sink_state(w)),
{
    w.into_inner()
}

/// Relies on String::from_utf8: the bytes decoded as UTF-8 when they are
/// valid UTF-8, and nothing otherwise.
#[verifier::external_body]
pub(crate) fn bytes_to_string(b: Vec<u8>) -> (r: Option<String>)
    ensures
        match r {
            Some(s) => vstd::utf8::valid_utf8(b@) && s@ == vstd::utf8::decode_utf8(b@),
            None => !vstd::utf8::valid_utf8(b@),
        },
{
    match String::from_utf8(b) {
        Ok(s) => Some(s),
        Err(_) => None,
    }
}

} // verus!
