//! The round-trip law: serializing a tree and parsing the resulting events
//! rebuilds an equal tree.

use crate::attrs::{attr_insert, entries_has_key, entries_unique};
use crate::document::DocModel;
use crate::element::{wf_elem, ElemModel};
use crate::emit::{attr_event_models, emit_doc, emit_elem, emit_list};
use crate::events::{AttrModel, EventModel};
use crate::tree::{
    apply_event, attr_key, attrs_of_list, init_build_state, insert_attrs,
    lemma_run_events_append, lemma_run_events_one, open_elem_model, parse_events_spec, run_events,
    BuildState, ParseErrModel,
};
use crate::version::XmlVersion;
use vstd::prelude::*;

verus! {

/// No tag prefix anywhere in the tree: the serializer does not re-emit
/// prefixes, so only prefix-free trees round-trip exactly.
pub open spec fn prefix_free(m: ElemModel) -> bool
    decreases m,
{
    m.prefix is None && (forall|i: int|
        0 <= i < m.children.len() ==> prefix_free(#[trigger] m.children[i]))
}

/// The constructs the round-trip supports: a well-formed tree (unique
/// attribute keys, as every attribute store has) with no tag prefixes.
pub open spec fn rt_ok(m: ElemModel) -> bool {
    wf_elem(m) && prefix_free(m)
}

/// What one completed element does to a build state: it becomes the root when
/// nothing is open, and the next child of the innermost open element
/// otherwise.
pub open spec fn add_child(st: BuildState, m: ElemModel) -> BuildState {
    if st.stack.len() == 0 {
        BuildState { root: Some(m), ..st }
    } else {
        let li = st.stack.len() - 1;
        let top = st.stack[li];
        BuildState {
            stack: st.stack.update(li, ElemModel { children: top.children.push(m), ..top }),
            ..st
        }
    }
}

/// Re-inserting the attribute events of unique entries reproduces the
/// entries.
proof fn lemma_insert_attrs_unique(entries: Seq<(Seq<char>, Seq<char>)>, i: int)
    requires
        entries_unique(entries),
        0 <= i <= entries.len(),
    ensures
        insert_attrs(entries.take(i), attr_event_models(entries), i) == entries,
    decreases entries.len() - i,
{
    let list = attr_event_models(entries);
    if i == entries.len() {
        assert(entries.take(i) =~= entries);
    } else {
        assert(list[i] == (AttrModel { prefix: None, name: entries[i].0, value: entries[i].1 }));
        assert(attr_key(list[i]) == entries[i].0);
        assert forall|j: int| 0 <= j < i implies entries.take(i)[j].0 != entries[i].0 by {
            assert(entries.take(i)[j] == entries[j]);
        }
        assert(!entries_has_key(entries.take(i), entries[i].0));
        assert(attr_insert(entries.take(i), entries[i].0, entries[i].1) =~= entries.take(i + 1));
        lemma_insert_attrs_unique(entries, i + 1);
    }
}

/// Serializing one supported element and folding those events completes that
/// element: it lands as the root or as the innermost open element's next
/// child.
proof fn lemma_emit_builds(st: BuildState, m: ElemModel)
    requires
        st.mismatch is None,
        rt_ok(m),
    ensures
        run_events(st, emit_elem(m)) == add_child(st, m),
    decreases m, 0int,
{
    let start_ev = EventModel::StartElement {
        prefix: None,
        name: m.name,
        attributes: attr_event_models(m.attributes),
    };
    let seg_t: Seq<EventModel> = match m.text {
        Some(t) => seq![EventModel::Characters(t)],
        None => Seq::empty(),
    };
    let seg_c: Seq<EventModel> = match m.cdata {
        Some(c) => seq![EventModel::CData(c)],
        None => Seq::empty(),
    };
    let el = emit_list(m.children, 0);
    let end_ev = EventModel::EndElement { prefix: None, name: m.name };

    // The serialization, split left to right.
    assert(emit_elem(m) =~= seq![start_ev] + (seg_t + (seg_c + (el + seq![end_ev]))));
    lemma_run_events_append(st, seq![start_ev], seg_t + (seg_c + (el + seq![end_ev])));
    lemma_run_events_one(st, start_ev);

    // Opening the element: its attribute events rebuild its entries.
    let opened = open_elem_model(None, m.name, attr_event_models(m.attributes));
    lemma_insert_attrs_unique(m.attributes, 0);
    assert(m.attributes.take(0) =~= Seq::<(Seq<char>, Seq<char>)>::empty());
    assert(attrs_of_list(attr_event_models(m.attributes)) == m.attributes);
    let st1 = apply_event(st, start_ev);
    assert(st1.stack =~= st.stack.push(ElemModel { attributes: m.attributes, ..opened }));

    // Text and CDATA accumulate on the opened element.
    lemma_run_events_append(st1, seg_t, seg_c + (el + seq![end_ev]));
    let st2 = run_events(st1, seg_t);
    let top2 = ElemModel { text: m.text, attributes: m.attributes, ..opened };
    if m.text is Some {
        lemma_run_events_one(st1, seg_t[0]);
        assert(seg_t =~= seq![seg_t[0]]);
    }
    assert(st2.stack =~= st.stack.push(top2));
    assert(st2 == (BuildState { stack: st.stack.push(top2), ..st }));

    lemma_run_events_append(st2, seg_c, el + seq![end_ev]);
    let st3 = run_events(st2, seg_c);
    let top3 = ElemModel { cdata: m.cdata, ..top2 };
    if m.cdata is Some {
        lemma_run_events_one(st2, seg_c[0]);
        assert(seg_c =~= seq![seg_c[0]]);
    }
    assert(st3.stack =~= st.stack.push(top3));
    assert(st3 == (BuildState { stack: st.stack.push(top3), ..st }));

    // The children land, in order, on the opened element.
    lemma_run_events_append(st3, el, seq![end_ev]);
    lemma_emit_list_builds(st3, m.children, 0);
    let st4 = run_events(st3, el);
    let top4 = ElemModel { children: m.children, ..top3 };
    assert(top3.children + m.children.skip(0) =~= m.children);
    assert(st4.stack =~= st.stack.push(top4));
    assert(st4 == (BuildState { stack: st.stack.push(top4), ..st }));

    // The end tag completes the element; it equals `m`.
    lemma_run_events_one(st4, end_ev);
    assert(top4 =~= m);
    let st5 = apply_event(st4, end_ev);
    if st.stack.len() == 0 {
        assert(st4.stack.drop_last() =~= st.stack);
        assert(st5 =~= add_child(st, m));
    } else {
        assert(st4.stack.drop_last() =~= st.stack);
        assert(st4.stack[st4.stack.len() - 2] == st.stack.last());
        assert(st5.stack =~= add_child(st, m).stack);
        assert(st5 =~= add_child(st, m));
    }
}

/// Serializing the supported elements `s[i..]` in order appends them, in
/// order, to the children of the innermost open element.
proof fn lemma_emit_list_builds(st: BuildState, s: Seq<ElemModel>, i: int)
    requires
        st.mismatch is None,
        st.stack.len() > 0,
        0 <= i <= s.len(),
        forall|j: int| 0 <= j < s.len() ==> rt_ok(#[trigger] s[j]),
    ensures
        run_events(st, emit_list(s, i)) == (BuildState {
            stack: st.stack.update(
                st.stack.len() - 1,
                ElemModel {
                    children: st.stack.last().children + s.skip(i),
                    ..st.stack.last()
                },
            ),
            ..st
        }),
    decreases s, s.len() - i,
{
    let li = st.stack.len() - 1;
    let top = st.stack.last();
    if i >= s.len() {
        assert(s.skip(i) =~= Seq::<ElemModel>::empty());
        assert(top.children + s.skip(i) =~= top.children);
        assert((ElemModel { children: top.children + s.skip(i), ..top }) =~= top);
        assert(st.stack.update(li, top) =~= st.stack);
        assert(run_events(st, emit_list(s, i)) == st);
        assert((BuildState {
            stack: st.stack.update(li, ElemModel { children: top.children + s.skip(i), ..top }),
            ..st
        }) =~= st);
    } else {
        lemma_run_events_append(st, emit_elem(s[i]), emit_list(s, i + 1));
        lemma_emit_builds(st, s[i]);
        let st1 = add_child(st, s[i]);
        lemma_emit_list_builds(st1, s, i + 1);
        assert(top.children.push(s[i]) + s.skip(i + 1) =~= top.children + s.skip(i));
        assert(run_events(st, emit_list(s, i)) =~= (BuildState {
            stack: st.stack.update(
                li,
                ElemModel { children: top.children + s.skip(i), ..top },
            ),
            ..st
        }));
    }
}

/// **Round-trip.** Serializing a document whose tree is built purely from
/// supported constructs (name, attributes, text, CDATA, children — no tag
/// prefixes) and parsing the resulting events, declaration included, yields
/// an equal document.
pub proof fn lemma_round_trip(d: DocModel)
    requires
        d.root matches Some(r) && rt_ok(r),
    ensures
        parse_events_spec(emit_doc(d, true)) == Ok::<DocModel, ParseErrModel>(d),
{
    let r = d.root->Some_0;
    let decl = EventModel::StartDocument { version: d.version, encoding: d.encoding };
    assert(emit_doc(d, true) =~= seq![decl] + emit_elem(r));
    lemma_run_events_append(init_build_state(), seq![decl], emit_elem(r));
    lemma_run_events_one(init_build_state(), decl);
    let st0 = apply_event(init_build_state(), decl);
    lemma_emit_builds(st0, r);
    assert(parse_events_spec(emit_doc(d, true)) == Ok::<DocModel, ParseErrModel>(
        DocModel { version: d.version, encoding: d.encoding, root: Some(r) },
    ));
    assert((DocModel { version: d.version, encoding: d.encoding, root: Some(r) }) =~= d);
}

/// **Round-trip of one element.** Serializing a supported element and parsing
/// the resulting events yields a default document carrying an equal tree as
/// its root.
pub proof fn lemma_round_trip_element(m: ElemModel)
    requires
        rt_ok(m),
    ensures
        parse_events_spec(emit_elem(m)) == Ok::<DocModel, ParseErrModel>(
            DocModel { version: XmlVersion::Version10, encoding: "UTF-8"@, root: Some(m) },
        ),
{
    lemma_emit_builds(init_build_state(), m);
}

} // verus!
