//! The tree builder: folds a stream of events into a document tree.
//!
//! The whole algorithm is specified by a small-step machine: `apply_event`
//! says what one event does to the build state, `run_events` folds a sequence
//! of events, and `parse_events_spec` turns the final state into a document or
//! a structural error. `Document::from_events` is the executable builder,
//! proved equal to that fold.

use crate::attrs::{attr_entries, attr_insert, attrs_insert, attrs_new};
use crate::document::{opt_elem_model, DocModel, Document};
use crate::element::{
    children_model, elem_model, elem_models, lemma_children_model, lemma_children_model_ext,
    lemma_children_model_push, ElemModel, Element,
};
use crate::errors::TreexmlError;
use crate::events::{
    clone_opt_str, eq_opt_str, events_model, opt_str_model, AttrModel, Attribute, EventModel,
    TreeEvent,
};
use crate::version::XmlVersion;
use vstd::prelude::*;
use vstd::string::StringExecFns;

verus! {

/// A tag identity: optional prefix plus local name.
#[verifier::ext_equal]
pub struct TagModel {
    pub prefix: Option<Seq<char>>,
    pub name: Seq<char>,
}

/// A closing tag that did not match the innermost open tag.
#[verifier::ext_equal]
pub struct MismatchModel {
    pub expected: TagModel,
    pub found: TagModel,
}

/// The state of the tree builder while it consumes events: the declaration
/// seen so far, the stack of open elements (outermost first), the completed
/// root, and the first mismatched close, if any.
#[verifier::ext_equal]
pub struct BuildState {
    pub version: XmlVersion,
    pub encoding: Seq<char>,
    pub stack: Seq<ElemModel>,
    pub root: Option<ElemModel>,
    pub mismatch: Option<MismatchModel>,
}

/// The state before any event: a default document and nothing open.
pub open spec fn init_build_state() -> BuildState {
    BuildState {
        version: XmlVersion::Version10,
        encoding: "UTF-8"@,
        stack: Seq::empty(),
        root: None,
        mismatch: None,
    }
}

/// The attribute-map key of one attribute event: `prefix:local` when a prefix
/// is present, the bare local name otherwise.
pub open spec fn attr_key(a: AttrModel) -> Seq<char> {
    match a.prefix {
        Some(p) => p + ":"@ + a.name,
        None => a.name,
    }
}

/// Entries after inserting the attributes `attrs[i..]`, in order, into `es`.
pub open spec fn insert_attrs(
    es: Seq<(Seq<char>, Seq<char>)>,
    attrs: Seq<AttrModel>,
    i: int,
) -> Seq<(Seq<char>, Seq<char>)>
    decreases attrs.len() - i,
{
    if i < 0 || i >= attrs.len() {
        es
    } else {
        insert_attrs(attr_insert(es, attr_key(attrs[i]), attrs[i].value), attrs, i + 1)
    }
}

/// The attribute entries a start-tag event's attribute list produces.
pub open spec fn attrs_of_list(attrs: Seq<AttrModel>) -> Seq<(Seq<char>, Seq<char>)> {
    insert_attrs(Seq::empty(), attrs, 0)
}

/// A freshly opened element: tag identity and attributes captured, everything
/// else still empty.
pub open spec fn open_elem_model(
    prefix: Option<Seq<char>>,
    name: Seq<char>,
    attrs: Seq<AttrModel>,
) -> ElemModel {
    ElemModel {
        prefix,
        name,
        attributes: attrs_of_list(attrs),
        children: Seq::empty(),
        text: None,
        cdata: None,
    }
}

/// Text accumulation: segments of the same kind concatenate, the first one
/// starting from the empty string.
pub open spec fn accumulate(t: Option<Seq<char>>, s: Seq<char>) -> Option<Seq<char>> {
    match t {
        Some(prev) => Some(prev + s),
        None => Some(s),
    }
}

/// What one event does to the build state.
///
/// - A declaration at the top level records version and encoding.
/// - A start tag opens a new element on the stack.
/// - A matching end tag closes the innermost element and hands it to its
///   parent, or makes it the root when it was outermost; a close whose tag
///   does not match the innermost open tag is a fatal structural error.
/// - Character data and CDATA accumulate on the innermost open element,
///   each in its own field.
/// - Events outside any open element that build no tree are ignored.
pub open spec fn apply_event(st: BuildState, ev: EventModel) -> BuildState {
    if st.mismatch is Some {
        st
    } else {
        match ev {
            EventModel::StartDocument { version, encoding } => {
                if st.stack.len() == 0 {
                    BuildState { version, encoding, ..st }
                } else {
                    st
                }
            },
            EventModel::StartElement { prefix, name, attributes } => BuildState {
                stack: st.stack.push(open_elem_model(prefix, name, attributes)),
                ..st
            },
            EventModel::EndElement { prefix, name } => {
                if st.stack.len() == 0 {
                    st
                } else {
                    let top = st.stack.last();
                    if top.prefix == prefix && top.name == name {
                        if st.stack.len() == 1 {
                            BuildState { stack: st.stack.drop_last(), root: Some(top), ..st }
                        } else {
                            let pi = st.stack.len() - 2;
                            let parent = st.stack[pi];
                            BuildState {
                                stack: st.stack.drop_last().update(
                                    pi,
                                    ElemModel { children: parent.children.push(top), ..parent },
                                ),
                                ..st
                            }
                        }
                    } else {
                        BuildState {
                            mismatch: Some(
                                MismatchModel {
                                    expected: TagModel { prefix: top.prefix, name: top.name },
                                    found: TagModel { prefix, name },
                                },
                            ),
                            ..st
                        }
                    }
                }
            },
            EventModel::Characters(s) => {
                if st.stack.len() == 0 {
                    st
                } else {
                    let top = st.stack.last();
                    BuildState {
                        stack: st.stack.update(
                            st.stack.len() - 1,
                            ElemModel { text: accumulate(top.text, s), ..top },
                        ),
                        ..st
                    }
                }
            },
            EventModel::CData(s) => {
                if st.stack.len() == 0 {
                    st
                } else {
                    let top = st.stack.last();
                    BuildState {
                        stack: st.stack.update(
                            st.stack.len() - 1,
                            ElemModel { cdata: accumulate(top.cdata, s), ..top },
                        ),
                        ..st
                    }
                }
            },
        }
    }
}

/// Folding a whole event sequence, first event first.
pub open spec fn run_events(st: BuildState, evs: Seq<EventModel>) -> BuildState
    decreases evs.len(),
{
    if evs.len() == 0 {
        st
    } else {
        run_events(apply_event(st, evs[0]), evs.drop_first())
    }
}

/// Folding one more event at the end applies it to the folded state.
pub proof fn lemma_run_events_push(st: BuildState, evs: Seq<EventModel>, ev: EventModel)
    ensures
        run_events(st, evs.push(ev)) == apply_event(run_events(st, evs), ev),
    decreases evs.len(),
{
    if evs.len() == 0 {
        assert(evs.push(ev)[0] == ev);
        assert(evs.push(ev).drop_first() =~= Seq::<EventModel>::empty());
        assert(run_events(st, evs.push(ev)) == run_events(apply_event(st, ev), Seq::empty()));
    } else {
        assert(evs.push(ev)[0] == evs[0]);
        assert(evs.push(ev).drop_first() =~= evs.drop_first().push(ev));
        lemma_run_events_push(apply_event(st, evs[0]), evs.drop_first(), ev);
    }
}

/// A mismatched close is fatal: no later event changes the state.
pub proof fn lemma_run_events_mismatch(st: BuildState, evs: Seq<EventModel>)
    requires
        st.mismatch is Some,
    ensures
        run_events(st, evs) == st,
    decreases evs.len(),
{
    if evs.len() > 0 {
        lemma_run_events_mismatch(st, evs.drop_first());
    }
}

/// The structural errors the tree builder can report.
pub enum ParseErrModel {
    /// A closing tag that did not match the innermost open tag.
    Mismatch(MismatchModel),
    /// The events ended while an element was still open.
    Unclosed,
    /// The events ended without any root element.
    NoRoot,
}

/// The document (or error) a finished build state denotes.
pub open spec fn finalize(st: BuildState) -> Result<DocModel, ParseErrModel> {
    if st.mismatch is Some {
        Err(ParseErrModel::Mismatch(st.mismatch->Some_0))
    } else if st.stack.len() > 0 {
        Err(ParseErrModel::Unclosed)
    } else {
        match st.root {
            Some(r) => Ok(DocModel { version: st.version, encoding: st.encoding, root: Some(r) }),
            None => Err(ParseErrModel::NoRoot),
        }
    }
}

/// What a whole event sequence parses to.
pub open spec fn parse_events_spec(evs: Seq<EventModel>) -> Result<DocModel, ParseErrModel> {
    finalize(run_events(init_build_state(), evs))
}

/// A tag rendered for an error message: `prefix:name` or the bare name.
pub open spec fn full_tag(t: TagModel) -> Seq<char> {
    match t.prefix {
        Some(p) => p + ":"@ + t.name,
        None => t.name,
    }
}

/// The message each structural error carries.
pub open spec fn parse_err_message(e: ParseErrModel) -> Seq<char> {
    match e {
        ParseErrModel::Mismatch(m) => "Unexpected closing tag: "@ + full_tag(m.found)
            + ", expected "@ + full_tag(m.expected),
        ParseErrModel::Unclosed => "Unexpected end of stream: still inside the root element"@,
        ParseErrModel::NoRoot => "Unexpected end of stream: no root element found"@,
    }
}

/// A successful parse always has a root element.
pub proof fn lemma_parse_ok_has_root(evs: Seq<EventModel>)
    ensures
        parse_events_spec(evs) matches Ok(d) ==> d.root is Some,
{
}

/// Folding a single event applies it.
pub proof fn lemma_run_events_one(st: BuildState, ev: EventModel)
    ensures
        run_events(st, seq![ev]) == apply_event(st, ev),
{
    assert(seq![ev][0] == ev);
    assert(seq![ev].drop_first() =~= Seq::<EventModel>::empty());
    assert(run_events(apply_event(st, ev), Seq::<EventModel>::empty()) == apply_event(st, ev));
}

/// Folding a concatenation folds the two parts in turn.
pub proof fn lemma_run_events_append(st: BuildState, a: Seq<EventModel>, b: Seq<EventModel>)
    ensures
        run_events(st, a + b) == run_events(run_events(st, a), b),
    decreases a.len(),
{
    if a.len() == 0 {
        assert(a + b =~= b);
    } else {
        assert((a + b)[0] == a[0]);
        assert((a + b).drop_first() =~= a.drop_first() + b);
        lemma_run_events_append(apply_event(st, a[0]), a.drop_first(), b);
    }
}

/// The attribute-map key of one attribute, as the builder computes it.
fn attr_map_key(a: &Attribute) -> (k: String)
    ensures
        k@ == attr_key(a@),
{
    match &a.prefix {
        Some(p) => {
            let mut k = p.clone();
            k.append(":");
            k.append(a.name.as_str());
            k
        },
        None => a.name.clone(),
    }
}

/// The attribute store a start-tag's attribute list produces, inserting each
/// attribute in order.
fn attrs_from_list(attributes: &Vec<Attribute>) -> (m: indexmap::IndexMap<String, String>)
    ensures
        attr_entries(m) == attrs_of_list(attributes@.map(|i: int, a: Attribute| a@)),
{
    let ghost amodels = attributes@.map(|i: int, a: Attribute| a@);
    let mut m = attrs_new();
    let mut j: usize = 0;
    while j < attributes.len()
        invariant
            j <= attributes@.len(),
            amodels == attributes@.map(|i: int, a: Attribute| a@),
            insert_attrs(attr_entries(m), amodels, j as int) == attrs_of_list(amodels),
        decreases attributes@.len() - j,
    {
        proof {
            assert(amodels[j as int] == attributes@[j as int]@);
        }
        let k = attr_map_key(&attributes[j]);
        let v = attributes[j].value.clone();
        attrs_insert(&mut m, k, v);
        j += 1;
    }
    m
}

/// The rendering of a tag in a mismatch message: `prefix:name` or the name.
fn tag_text(prefix: &Option<String>, name: &String) -> (r: String)
    ensures
        r@ == full_tag(TagModel { prefix: opt_str_model(*prefix), name: name@ }),
{
    match prefix {
        Some(p) => {
            let mut s = p.clone();
            s.append(":");
            s.append(name.as_str());
            s
        },
        None => name.clone(),
    }
}

impl Document {
    /// The tree builder: consume a stream of events and build the document
    /// they describe, or report the first structural error.
    ///
    /// The result is exactly what the specification fold
    /// [`parse_events_spec`] assigns to the events: on success, the document
    /// whose root holds children, attributes, text and CDATA in event order;
    /// on a structural error, a `ParseError` carrying that error's message.
    pub fn from_events(events: &Vec<TreeEvent>) -> (r: Result<Document, TreexmlError>)
        ensures
            match parse_events_spec(events_model(events@)) {
                Ok(dm) => r matches Ok(d) && d@ == dm,
                Err(em) => r matches Err(e) && e matches TreexmlError::ParseError { source }
                    && source@ == parse_err_message(em),
            },
    {
        let ghost evs = events_model(events@);
        let mut version = XmlVersion::Version10;
        let mut encoding: String = "UTF-8".to_owned();
        let mut stack: Vec<Element> = Vec::new();
        let mut root: Option<Element> = None;
        let mut i: usize = 0;
        proof {
            assert(evs.take(0) =~= Seq::<EventModel>::empty());
            assert(children_model(stack@) =~= Seq::<ElemModel>::empty());
        }
        while i < events.len()
            invariant
                i <= events@.len(),
                evs == events_model(events@),
                run_events(init_build_state(), evs.take(i as int)) == (BuildState {
                    version,
                    encoding: encoding@,
                    stack: children_model(stack@),
                    root: opt_elem_model(&root),
                    mismatch: None,
                }),
            decreases events@.len() - i,
        {
            let ghost pre = run_events(init_build_state(), evs.take(i as int));
            let ghost stack0 = stack@;
            proof {
                assert(evs[i as int] == events@[i as int]@);
                assert(evs.take(i as int + 1) =~= evs.take(i as int).push(evs[i as int]));
                lemma_run_events_push(init_build_state(), evs.take(i as int), evs[i as int]);
                lemma_children_model(stack0);
            }
            let ghost post = apply_event(pre, evs[i as int]);
            match &events[i] {
                TreeEvent::StartDocument { version: v, encoding: enc } => {
                    if stack.len() == 0 {
                        version = *v;
                        encoding = enc.clone();
                    }
                },
                TreeEvent::StartElement { prefix, name, attributes } => {
                    let attrs = attrs_from_list(attributes);
                    let child = Element {
                        prefix: clone_opt_str(prefix),
                        name: name.clone(),
                        attributes: attrs,
                        children: Vec::new(),
                        text: None,
                        cdata: None,
                    };
                    proof {
                        assert(elem_models(child.children@, 0) =~= Seq::<ElemModel>::empty());
                        assert(elem_model(&child) =~= open_elem_model(
                            opt_str_model(*prefix),
                            name@,
                            attributes@.map(|k: int, a: Attribute| a@),
                        ));
                        lemma_children_model_push(stack0, child);
                    }
                    stack.push(child);
                },
                TreeEvent::EndElement { prefix, name } => {
                    if stack.len() > 0 {
                        let last = stack.len() - 1;
                        proof {
                            assert(children_model(stack0)[last as int] == elem_model(
                                &stack0[last as int],
                            ));
                        }
                        let matches_top = eq_opt_str(&stack[last].prefix, prefix) && stack[
                            last
                        ].name == *name;
                        if matches_top {
                            let top = stack.pop().unwrap();
                            if stack.len() == 0 {
                                root = Some(top);
                                proof {
                                    lemma_children_model_ext(stack@, pre.stack.drop_last());
                                }
                            } else {
                                let mut parent = stack.pop().unwrap();
                                let ghost parent0 = parent;
                                proof {
                                    assert(stack0[stack0.len() - 2] == parent0);
                                    assert(children_model(stack0)[stack0.len() - 2]
                                        == elem_model(&parent0));
                                }
                                parent.children.push(top);
                                proof {
                                    lemma_children_model_push(parent0.children@, top);
                                    assert(elem_model(&parent) =~= (ElemModel {
                                        children: elem_model(&parent0).children.push(
                                            elem_model(&top),
                                        ),
                                        ..elem_model(&parent0)
                                    }));
                                }
                                stack.push(parent);
                                proof {
                                    assert(stack@ =~= stack0.drop_last().drop_last().push(
                                        parent,
                                    ));
                                    lemma_children_model_ext(stack@, post.stack);
                                }
                            }
                        } else {
                            // A close that does not match the innermost open
                            // tag is fatal: report it, never repair it.
                            let expected = tag_text(&stack[last].prefix, &stack[last].name);
                            let found = tag_text(prefix, name);
                            let mut msg = "Unexpected closing tag: ".to_owned();
                            msg.append(found.as_str());
                            msg.append(", expected ");
                            msg.append(expected.as_str());
                            proof {
                                assert(post.mismatch is Some);
                                assert(evs =~= evs.take(i as int + 1) + evs.skip(i as int + 1));
                                lemma_run_events_append(
                                    init_build_state(),
                                    evs.take(i as int + 1),
                                    evs.skip(i as int + 1),
                                );
                                lemma_run_events_mismatch(post, evs.skip(i as int + 1));
                            }
                            return Err(TreexmlError::ParseError { source: msg });
                        }
                    }
                },
                TreeEvent::Characters(s) => {
                    if stack.len() > 0 {
                        let mut top = stack.pop().unwrap();
                        let ghost top0 = top;
                        let prev = clone_opt_str(&top.text);
                        top.text = Some(
                            match prev {
                                Some(t) => t.concat(s.as_str()),
                                None => s.clone(),
                            },
                        );
                        proof {
                            assert(children_model(stack0)[stack0.len() - 1] == elem_model(
                                &top0,
                            ));
                            assert(elem_model(&top) =~= (ElemModel {
                                text: accumulate(elem_model(&top0).text, s@),
                                ..elem_model(&top0)
                            }));
                            lemma_children_model_push(stack@, top);
                        }
                        stack.push(top);
                        proof {
                            assert(stack@ =~= stack0.drop_last().push(top));
                            lemma_children_model_ext(stack@, post.stack);
                        }
                    }
                },
                TreeEvent::CData(s) => {
                    if stack.len() > 0 {
                        let mut top = stack.pop().unwrap();
                        let ghost top0 = top;
                        let prev = clone_opt_str(&top.cdata);
                        top.cdata = Some(
                            match prev {
                                Some(t) => t.concat(s.as_str()),
                                None => s.clone(),
                            },
                        );
                        proof {
                            assert(children_model(stack0)[stack0.len() - 1] == elem_model(
                                &top0,
                            ));
                            assert(elem_model(&top) =~= (ElemModel {
                                cdata: accumulate(elem_model(&top0).cdata, s@),
                                ..elem_model(&top0)
                            }));
                            lemma_children_model_push(stack@, top);
                        }
                        stack.push(top);
                        proof {
                            assert(stack@ =~= stack0.drop_last().push(top));
                            lemma_children_model_ext(stack@, post.stack);
                        }
                    }
                },
            }
            proof {
                assert(post =~= (BuildState {
                    version,
                    encoding: encoding@,
                    stack: children_model(stack@),
                    root: opt_elem_model(&root),
                    mismatch: None,
                }));
            }
            i += 1;
        }
        proof {
            assert(evs.take(events@.len() as int) =~= evs);
            lemma_children_model(stack@);
        }
        if stack.len() > 0 {
            return Err(
                TreexmlError::ParseError {
                    source: "Unexpected end of stream: still inside the root element".to_owned(),
                },
            );
        }
        match root {
            Some(rt) => Ok(Document { version, encoding, root: Some(rt) }),
            None => Err(
                TreexmlError::ParseError {
                    source: "Unexpected end of stream: no root element found".to_owned(),
                },
            ),
        }
    }
}

} // verus!
