use crate::version::XmlVersion;
use vstd::prelude::*;

verus! {

/// One attribute as it appears on a start-tag event: an optional namespace
/// prefix, the local name, and the value.
pub struct Attribute {
    pub prefix: Option<String>,
    pub name: String,
    pub value: String,
}

/// The mathematical value of an [`Attribute`].
#[verifier::ext_equal]
pub struct AttrModel {
    pub prefix: Option<Seq<char>>,
    pub name: Seq<char>,
    pub value: Seq<char>,
}

/// The mathematical value of an `Option<String>`.
pub open spec fn opt_str_model(o: Option<String>) -> Option<Seq<char>> {
    match o {
        Some(s) => Some(s@),
        None => None,
    }
}

impl View for Attribute {
    type V = AttrModel;

    open spec fn view(&self) -> AttrModel {
        AttrModel { prefix: opt_str_model(self.prefix), name: self.name@, value: self.value@ }
    }
}

/// One unit of the event vocabulary shared by the tree builder (which consumes
/// such events) and the tree serializer (which produces them).
///
/// Document-level events that carry no tree information (processing
/// instructions, comments, whitespace) never appear here: the event source
/// boundary already discards them.
pub enum TreeEvent {
    StartDocument { version: XmlVersion, encoding: String },
    StartElement { prefix: Option<String>, name: String, attributes: Vec<Attribute> },
    EndElement { prefix: Option<String>, name: String },
    Characters(String),
    CData(String),
}

/// The mathematical value of an [`TreeEvent`].
#[verifier::ext_equal]
pub enum EventModel {
    StartDocument { version: XmlVersion, encoding: Seq<char> },
    StartElement { prefix: Option<Seq<char>>, name: Seq<char>, attributes: Seq<AttrModel> },
    EndElement { prefix: Option<Seq<char>>, name: Seq<char> },
    Characters(Seq<char>),
    CData(Seq<char>),
}

impl View for TreeEvent {
    type V = EventModel;

    open spec fn view(&self) -> EventModel {
        match self {
            TreeEvent::StartDocument { version, encoding } => EventModel::StartDocument {
                version: *version,
                encoding: encoding@,
            },
            TreeEvent::StartElement { prefix, name, attributes } => EventModel::StartElement {
                prefix: opt_str_model(*prefix),
                name: name@,
                attributes: attributes@.map(|i: int, a: Attribute| a@),
            },
            TreeEvent::EndElement { prefix, name } => EventModel::EndElement {
                prefix: opt_str_model(*prefix),
                name: name@,
            },
            TreeEvent::Characters(s) => EventModel::Characters(s@),
            TreeEvent::CData(s) => EventModel::CData(s@),
        }
    }
}

/// The mathematical value of a sequence of events.
pub open spec fn events_model(evs: Seq<TreeEvent>) -> Seq<EventModel> {
    evs.map(|i: int, ev: TreeEvent| ev@)
}

/// Appending one event appends its model.
pub proof fn lemma_events_model_push(s: Seq<TreeEvent>, ev: TreeEvent)
    ensures
        events_model(s.push(ev)) == events_model(s).push(ev@),
{
    assert(events_model(s.push(ev)) =~= events_model(s).push(ev@));
}

/// A copy of an optional string with the same mathematical value.
pub(crate) fn clone_opt_str(o: &Option<String>) -> (r: Option<String>)
    ensures
        opt_str_model(r) == opt_str_model(*o),
{
    match o {
        Some(s) => Some(s.clone()),
        None => None,
    }
}

/// Whether two optional strings have the same mathematical value.
pub(crate) fn eq_opt_str(a: &Option<String>, b: &Option<String>) -> (r: bool)
    ensures
        r == (opt_str_model(*a) == opt_str_model(*b)),
{
    match (a, b) {
        (Some(x), Some(y)) => *x == *y,
        (None, None) => true,
        _ => false,
    }
}

} // verus!
