//! The tree serializer: walks an element and re-emits it as the sequence of
//! events that rebuilds an equal tree.
//!
//! `emit_elem` is the specification: start tag with the stored attributes in
//! order, then text, then CDATA, then each child in order, then the end tag.
//! `Element::to_events` and `Document::to_events` are the executable
//! serializers, proved equal to it.

use crate::attrs::{attr_entries, attrs_entry_at, attrs_len};
use crate::document::{DocModel, Document};
use crate::element::{children_model, elem_model, lemma_children_model, ElemModel, Element};
use crate::events::{
    events_model, lemma_events_model_push, AttrModel, Attribute, EventModel, TreeEvent,
};
use vstd::prelude::*;

verus! {

/// The attribute list a start-tag event carries for stored entries: the keys
/// verbatim, with no prefix of their own.
pub open spec fn attr_event_models(entries: Seq<(Seq<char>, Seq<char>)>) -> Seq<AttrModel> {
    entries.map(|i: int, kv: (Seq<char>, Seq<char>)| AttrModel { prefix: None, name: kv.0, value: kv.1 })
}

/// The event sequence that serializes one element: its start tag (attributes
/// in stored order), its text if set, its CDATA if set, each child in order,
/// and its end tag. Tag prefixes are not re-emitted; attribute keys are
/// emitted verbatim as stored.
pub open spec fn emit_elem(m: ElemModel) -> Seq<EventModel>
    decreases m, 0int,
{
    seq![
        EventModel::StartElement {
            prefix: None,
            name: m.name,
            attributes: attr_event_models(m.attributes),
        },
    ] + (match m.text {
        Some(t) => seq![EventModel::Characters(t)],
        None => Seq::<EventModel>::empty(),
    }) + (match m.cdata {
        Some(c) => seq![EventModel::CData(c)],
        None => Seq::<EventModel>::empty(),
    }) + emit_list(m.children, 0) + seq![EventModel::EndElement { prefix: None, name: m.name }]
}

/// The events that serialize the children `s[i..]`, in order.
pub open spec fn emit_list(s: Seq<ElemModel>, i: int) -> Seq<EventModel>
    decreases s, s.len() - i,
{
    if i < 0 || i >= s.len() {
        Seq::empty()
    } else {
        emit_elem(s[i]) + emit_list(s, i + 1)
    }
}

/// The events that serialize a whole document: the declaration, when asked
/// for, then the root element, when present.
pub open spec fn emit_doc(dm: DocModel, document_decl: bool) -> Seq<EventModel> {
    (if document_decl {
        seq![EventModel::StartDocument { version: dm.version, encoding: dm.encoding }]
    } else {
        Seq::<EventModel>::empty()
    }) + (match dm.root {
        Some(r) => emit_elem(r),
        None => Seq::<EventModel>::empty(),
    })
}

impl Element {
    /// The attribute list for this element's start-tag event: the stored
    /// entries in order, keys emitted verbatim.
    fn attribute_events(&self) -> (r: Vec<Attribute>)
        ensures
            r@.map(|i: int, a: Attribute| a@) == attr_event_models(attr_entries(self.attributes)),
    {
        let ghost entries = attr_entries(self.attributes);
        let mut attrs: Vec<Attribute> = Vec::new();
        let n = attrs_len(&self.attributes);
        let mut j: usize = 0;
        while j < n
            invariant
                n == entries.len(),
                entries == attr_entries(self.attributes),
                j == attrs@.len() <= n,
                forall|t: int|
                    0 <= t < j ==> attrs@[t]@ == (AttrModel {
                        prefix: None,
                        name: entries[t].0,
                        value: entries[t].1,
                    }),
            decreases n - j,
        {
            let (k, v) = attrs_entry_at(&self.attributes, j);
            attrs.push(Attribute { prefix: None, name: k.clone(), value: v.clone() });
            j += 1;
        }
        proof {
            assert(attrs@.map(|i: int, a: Attribute| a@) =~= attr_event_models(entries));
        }
        attrs
    }

    /// Append this element's serialization to `out`.
    fn emit_into(&self, out: &mut Vec<TreeEvent>)
        ensures
            events_model(final(out)@) == events_model(old(out)@) + emit_elem(elem_model(self)),
        decreases self,
    {
        let ghost base = events_model(old(out)@);
        let ghost seg_start = seq![
            EventModel::StartElement {
                prefix: None,
                name: self.name@,
                attributes: attr_event_models(attr_entries(self.attributes)),
            },
        ];
        let ghost seg_t = match elem_model(self).text {
            Some(t) => seq![EventModel::Characters(t)],
            None => Seq::<EventModel>::empty(),
        };
        let ghost seg_c = match elem_model(self).cdata {
            Some(c) => seq![EventModel::CData(c)],
            None => Seq::<EventModel>::empty(),
        };
        let ghost seg_end = seq![
            EventModel::EndElement { prefix: None, name: self.name@ },
        ];
        let attrs = self.attribute_events();
        out.push(
            TreeEvent::StartElement {
                prefix: None,
                name: self.name.clone(),
                attributes: attrs,
            },
        );
        proof {
            assert(events_model(out@) =~~= base + seg_start);
        }
        if let Some(t) = &self.text {
            out.push(TreeEvent::Characters(t.clone()));
        }
        proof {
            assert(events_model(out@) =~~= base + seg_start + seg_t);
        }
        if let Some(c) = &self.cdata {
            out.push(TreeEvent::CData(c.clone()));
        }
        proof {
            assert(events_model(out@) =~~= base + seg_start + seg_t + seg_c);
        }
        let ghost cm = elem_model(self).children;
        let ghost mid = events_model(out@);
        proof {
            lemma_children_model(self.children@);
        }
        let mut k: usize = 0;
        while k < self.children.len()
            invariant
                k <= self.children@.len(),
                cm == children_model(self.children@),
                cm.len() == self.children@.len(),
                forall|j: int| 0 <= j < self.children@.len() ==> cm[j] == elem_model(
                    &self.children@[j],
                ),
                events_model(out@) + emit_list(cm, k as int) == mid + emit_list(cm, 0),
            decreases self.children@.len() - k,
        {
            let ghost before = events_model(out@);
            self.children[k].emit_into(out);
            proof {
                assert(emit_list(cm, k as int) == emit_elem(cm[k as int]) + emit_list(
                    cm,
                    k as int + 1,
                ));
                assert(events_model(out@) + emit_list(cm, k as int + 1) =~= before + (emit_elem(
                    cm[k as int],
                ) + emit_list(cm, k as int + 1)));
                assert(before + (emit_elem(cm[k as int]) + emit_list(cm, k as int + 1)) =~= (before
                    + emit_list(cm, k as int)));
            }
            k += 1;
        }
        proof {
            assert(emit_list(cm, self.children@.len() as int) =~= Seq::<EventModel>::empty());
            assert(events_model(out@) =~= mid + emit_list(cm, 0));
        }
        out.push(TreeEvent::EndElement { prefix: None, name: self.name.clone() });
        proof {
            assert(events_model(out@) =~~= mid + emit_list(cm, 0) + seg_end);
            assert(emit_elem(elem_model(self)) =~~= seg_start + seg_t + seg_c + emit_list(cm, 0)
                + seg_end);
            assert(events_model(out@) =~~= base + emit_elem(elem_model(self)));
        }
    }

    /// The tree serializer: the event sequence that, fed back through the
    /// tree builder, rebuilds an element equal to this one.
    pub fn to_events(&self) -> (r: Vec<TreeEvent>)
        ensures
            events_model(r@) == emit_elem(self@),
    {
        let mut out: Vec<TreeEvent> = Vec::new();
        proof {
            assert(events_model(out@) =~= Seq::<EventModel>::empty());
        }
        self.emit_into(&mut out);
        proof {
            assert(events_model(out@) =~= emit_elem(self@));
        }
        out
    }
}

impl Document {
    /// The event sequence that serializes this document: the declaration,
    /// when `document_decl` is set, then the root element, when present.
    pub fn to_events(&self, document_decl: bool) -> (r: Vec<TreeEvent>)
        ensures
            events_model(r@) == emit_doc(self@, document_decl),
    {
        let mut out: Vec<TreeEvent> = Vec::new();
        proof {
            assert(events_model(out@) =~= Seq::<EventModel>::empty());
        }
        if document_decl {
            out.push(
                TreeEvent::StartDocument { version: self.version, encoding: self.encoding.clone() },
            );
            proof {
                lemma_events_model_push(Seq::<TreeEvent>::empty(), out@[0]);
            }
        }
        match &self.root {
            Some(e) => {
                e.emit_into(&mut out);
            },
            None => {},
        }
        proof {
            assert(events_model(out@) =~= emit_doc(self@, document_decl));
        }
        out
    }
}

} // verus!
