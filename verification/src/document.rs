use crate::element::{elem_model, Element, ElemModel};
use crate::emit::emit_doc;
use crate::errors::TreexmlError;
use crate::events::{EventModel, TreeEvent};
use crate::version::XmlVersion;
use vstd::prelude::*;

verus! {

/// An XML document
#[derive(Debug, PartialEq, Eq)]
pub struct Document {
    /// Version of the XML document
    pub version: XmlVersion,
    /// Encoding of the XML document
    pub encoding: String,
    /// Root tag of the XML document
    pub root: Option<Element>,
}

/// The mathematical value of a [`Document`].
#[verifier::ext_equal]
pub struct DocModel {
    pub version: XmlVersion,
    pub encoding: Seq<char>,
    pub root: Option<ElemModel>,
}

/// The mathematical value of an optional root element.
pub open spec fn opt_elem_model(o: &Option<Element>) -> Option<ElemModel> {
    match o {
        Some(e) => Some(elem_model(e)),
        None => None,
    }
}

impl View for Document {
    type V = DocModel;

    open spec fn view(&self) -> DocModel {
        DocModel {
            version: self.version,
            encoding: self.encoding@,
            root: opt_elem_model(&self.root),
        }
    }
}

/// The value of a default document: version 1.0, UTF-8, no root.
pub open spec fn default_doc_model() -> DocModel {
    DocModel { version: XmlVersion::Version10, encoding: "UTF-8"@, root: None }
}

impl Default for Document {
    /// The default document: version 1.0, UTF-8, no root.
    fn default() -> (r: Document)
        ensures
            r@ == default_doc_model(),
    {
        Document { version: XmlVersion::Version10, encoding: "UTF-8".to_owned(), root: None }
    }
}

impl Clone for Document {
    /// A deep copy: the clone has the same mathematical value as the original.
    fn clone(&self) -> (r: Self)
        ensures
            r@ == self@,
    {
        Document {
            version: self.version,
            encoding: self.encoding.clone(),
            root: match &self.root {
                Some(e) => Some(e.clone()),
                None => None,
            },
        }
    }
}

impl Document {
    /// Create a new `Document` with default values
    pub fn new() -> (r: Document)
        ensures
            r@ == default_doc_model(),
    {
        Document::default()
    }

    /// Parse a byte buffer into an XML document.
    ///
    /// The event source's outcome for the bytes is named by
    /// [`crate::stream::source_events`]; the tree builder folds its
    /// tree-building events per [`crate::tree::parse_events_spec`]. A stream
    /// that ends on a lexical error comes back as a `ParseError` carrying the
    /// error's message unchanged — its well-formed prefix of events yields no
    /// partial document — a structural error as a `ParseError` with that
    /// error's message, and a successful parse is the folded document, which
    /// always carries a root element.
    pub fn parse(bytes: &[u8]) -> (r: Result<Document, TreexmlError>)
        ensures
            r matches Ok(d) ==> d@.root is Some,
            ({
                let (items, ending) = crate::stream::source_events(bytes@);
                match ending {
                    Some(m) => r matches Err(e) && (e matches TreexmlError::ParseError { source }
                        && source@ == m),
                    None => match crate::tree::parse_events_spec(
                        crate::stream::present_events(items),
                    ) {
                        Ok(dm) => r matches Ok(d) && d@ == dm,
                        Err(em) => r matches Err(e) && (e
                            matches TreexmlError::ParseError { source } && source@
                            == crate::tree::parse_err_message(em)),
                    },
                }
            }),
    {
        match crate::stream::collect_events(bytes) {
            Ok(events) => {
                let built = Document::from_events(&events);
                proof {
                    crate::tree::lemma_parse_ok_has_root(
                        crate::events::events_model(events@),
                    );
                }
                built
            },
            Err(msg) => Err(TreexmlError::ParseError { source: msg }),
        }
    }

    /// Write the document, pretty-printed with a declaration, appending the
    /// rendered bytes to `w`.
    pub fn write(&self, w: &mut Vec<u8>) -> (r: Result<(), TreexmlError>)
        ensures
            match crate::stream::sink_outcome(true, "  "@, true, emit_doc(self@, true)) {
                Ok(bs) => r is Ok && final(w)@ == old(w)@ + bs,
                Err(m) => final(w)@ == old(w)@ && (r matches Err(e) && (e
                    matches TreexmlError::WriteError { source } && source@ == m)),
            },
            self@.root is None ==> r is Ok,
    {
        self.write_with(w, true, "  ", true)
    }

    /// Write the document, appending the rendered bytes to `w`.
    ///
    /// The serialized event sequence is exactly
    /// [`crate::emit::emit_doc`]`(self@, document_decl)`; what the event sink
    /// renders for it — escaping and indentation are the sink's work, driven
    /// by `indent_str` and `indent` — is named by
    /// [`crate::stream::sink_outcome`]. On success exactly those bytes are
    /// appended to `w`; if the sink refuses an event, emission stops there,
    /// `w` is left unchanged and the refusal's message comes back as a
    /// `WriteError`. A document with no root always succeeds: nothing besides
    /// the optional declaration is handed to the sink, and a fresh sink
    /// accepts a declaration.
    pub fn write_with(
        &self,
        w: &mut Vec<u8>,
        document_decl: bool,
        indent_str: &'static str,
        indent: bool,
    ) -> (r: Result<(), TreexmlError>)
        ensures
            match crate::stream::sink_outcome(
                document_decl,
                indent_str@,
                indent,
                emit_doc(self@, document_decl),
            ) {
                Ok(bs) => r is Ok && final(w)@ == old(w)@ + bs,
                Err(m) => final(w)@ == old(w)@ && (r matches Err(e) && (e
                    matches TreexmlError::WriteError { source } && source@ == m)),
            },
            self@.root is None && !document_decl ==> r is Ok && final(w)@ == old(w)@,
            self@.root is None && document_decl ==> r is Ok,
    {
        let events = self.to_events(document_decl);
        let ghost evs = crate::events::events_model(events@);
        let mut sink = crate::stream::sink_new(document_decl, indent_str, indent);
        let ghost start = crate::stream::init_sink_state(document_decl, indent_str@, indent);
        proof {
            assert(start.accepted =~= evs.take(0));
            if self@.root is None && !document_decl {
                assert(evs =~= Seq::<EventModel>::empty());
            }
        }
        let mut i: usize = 0;
        while i < events.len()
            invariant
                evs == crate::events::events_model(events@),
                evs == emit_doc(self@, document_decl),
                i <= events@.len(),
                crate::stream::sink_drive(start, evs, 0) == crate::stream::sink_drive(
                    crate::stream::sink_state(sink),
                    evs,
                    i as int,
                ),
                start == crate::stream::init_sink_state(document_decl, indent_str@, indent),
                crate::stream::sink_state(sink) == (crate::stream::SinkState {
                    accepted: evs.take(i as int),
                    ..start
                }),
                crate::stream::sink_bytes(start) == Seq::<u8>::empty(),
                forall|v: XmlVersion, e: Seq<char>|
                    #![trigger crate::stream::sink_step(start, EventModel::StartDocument { version: v, encoding: e })]
                    crate::stream::sink_step(
                        start,
                        EventModel::StartDocument { version: v, encoding: e },
                    ) is None,
            decreases events@.len() - i,
        {
            proof {
                assert(evs[i as int] == events@[i as int]@);
            }
            let ghost pre = crate::stream::sink_state(sink);
            let step = match &events[i] {
                TreeEvent::StartDocument { version, encoding } => crate::stream::sink_declaration(
                    &mut sink,
                    version,
                    encoding.as_str(),
                ),
                TreeEvent::StartElement { prefix, name, attributes } => crate::stream::sink_start(
                    &mut sink,
                    prefix,
                    name.as_str(),
                    attributes,
                ),
                TreeEvent::EndElement { prefix, name } => crate::stream::sink_end(
                    &mut sink,
                    prefix,
                    name.as_str(),
                ),
                TreeEvent::Characters(s) => crate::stream::sink_characters(&mut sink, s.as_str()),
                TreeEvent::CData(s) => crate::stream::sink_cdata(&mut sink, s.as_str()),
            };
            match step {
                Ok(_) => {
                    proof {
                        assert(crate::stream::sink_step(pre, evs[i as int]) is None);
                        assert(crate::stream::sink_drive(pre, evs, i as int)
                            == crate::stream::sink_drive(
                            crate::stream::sink_state(sink),
                            evs,
                            i as int + 1,
                        ));
                        assert(evs.take(i as int + 1) =~= evs.take(i as int).push(
                            evs[i as int],
                        ));
                        assert(crate::stream::sink_state(sink)
                            == (crate::stream::SinkState {
                            accepted: evs.take(i as int + 1),
                            ..start
                        }));
                    }
                },
                Err(msg) => {
                    proof {
                        assert(crate::stream::sink_step(pre, evs[i as int]) == Some(msg@));
                        assert(crate::stream::sink_drive(pre, evs, i as int) == Err::<
                            crate::stream::SinkState,
                            Seq<char>,
                        >(msg@));
                        // A root-less document hands the sink at most the one
                        // declaration event, which a fresh sink accepts.
                        if self@.root is None {
                            assert(document_decl);
                            assert(evs =~= seq![
                                EventModel::StartDocument {
                                    version: self@.version,
                                    encoding: self@.encoding,
                                },
                            ]);
                            assert(i == 0);
                            assert(pre.accepted =~= Seq::<EventModel>::empty());
                            assert(pre =~= start);
                            assert(crate::stream::sink_step(
                                start,
                                EventModel::StartDocument {
                                    version: self@.version,
                                    encoding: self@.encoding,
                                },
                            ) is None);
                            assert(false);
                        }
                    }
                    return Err(TreexmlError::WriteError { source: msg });
                },
            }
            i += 1;
        }
        proof {
            assert(crate::stream::sink_drive(
                crate::stream::sink_state(sink),
                evs,
                events@.len() as int,
            ) == Ok::<crate::stream::SinkState, Seq<char>>(crate::stream::sink_state(sink)));
            if self@.root is None && !document_decl {
                assert(evs.take(i as int) =~= Seq::<EventModel>::empty());
                assert(crate::stream::sink_state(sink) =~= start);
            }
        }
        let mut bytes = crate::stream::sink_into_bytes(sink);
        let ghost bs = bytes@;
        let ghost before = w@;
        w.append(&mut bytes);
        proof {
            assert(w@ =~= before + bs);
            if self@.root is None && !document_decl {
                assert(w@ =~= before);
            }
        }
        Ok(())
    }

    /// The document rendered as pretty-printed XML text with a declaration:
    /// the sink's rendering of the document's event sequence, decoded as
    /// UTF-8.
    pub fn to_string(&self) -> (r: Result<String, TreexmlError>)
        ensures
            match crate::stream::sink_outcome(true, "  "@, true, emit_doc(self@, true)) {
                Ok(bs) => if vstd::utf8::valid_utf8(bs) {
                    r matches Ok(s) && s@ == vstd::utf8::decode_utf8(bs)
                } else {
                    r matches Err(e) && e is WriteError
                },
                Err(m) => r matches Err(e) && (e matches TreexmlError::WriteError { source }
                    && source@ == m),
            },
    {
        let mut buffer: Vec<u8> = Vec::new();
        match self.write(&mut buffer) {
            Ok(_) => {},
            Err(e) => {
                return Err(e);
            },
        }
        match crate::stream::bytes_to_string(buffer) {
            Some(s) => Ok(s),
            None => Err(
                TreexmlError::WriteError {
                    source: "the event sink produced bytes that are not UTF-8".to_owned(),
                },
            ),
        }
    }
}

impl Element {
    /// The element rendered as pretty-printed XML text, with no declaration:
    /// the sink's rendering of the element's event sequence, decoded as
    /// UTF-8.
    pub fn to_string(&self) -> (r: Result<String, TreexmlError>)
        ensures
            ({
                let dm = DocModel {
                    version: XmlVersion::Version10,
                    encoding: "UTF-8"@,
                    root: Some(self@),
                };
                match crate::stream::sink_outcome(false, "  "@, true, emit_doc(dm, false)) {
                    Ok(bs) => if vstd::utf8::valid_utf8(bs) {
                        r matches Ok(s) && s@ == vstd::utf8::decode_utf8(bs)
                    } else {
                        r matches Err(e) && e is WriteError
                    },
                    Err(m) => r matches Err(e) && (e matches TreexmlError::WriteError { source }
                        && source@ == m),
                }
            }),
    {
        let doc = Document {
            version: XmlVersion::Version10,
            encoding: "UTF-8".to_owned(),
            root: Some(self.clone()),
        };
        let mut buffer: Vec<u8> = Vec::new();
        match doc.write_with(&mut buffer, false, "  ", true) {
            Ok(_) => {},
            Err(e) => {
                return Err(e);
            },
        }
        match crate::stream::bytes_to_string(buffer) {
            Some(s) => Ok(s),
            None => Err(
                TreexmlError::WriteError {
                    source: "the event sink produced bytes that are not UTF-8".to_owned(),
                },
            ),
        }
    }
}

} // verus!
