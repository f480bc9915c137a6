use crate::attrs::{attr_entries, attr_insert};
use crate::document::{Document, DocModel};
use crate::element::{elem_model, Element, ElemModel};
use crate::version::XmlVersion;
use vstd::prelude::*;
use vstd::string::to_string_from_display_ensures;

verus! {

/// A builder for Element
#[derive(Debug, Clone, PartialEq, Eq)]
pub struct ElementBuilder {
    /// The XML element we're working on
    element: Element,
}

impl ElementBuilder {
    /// The element the builder is working on.
    pub closed spec fn element_spec(&self) -> Element {
        self.element
    }

    /// Create a builder for an `Element` with the tag name `name`
    pub fn new<S: core::fmt::Display>(name: S) -> (r: ElementBuilder)
        ensures
            to_string_from_display_ensures::<S>(&name, r.element_spec().name),
            r.element_spec()@.prefix is None,
            r.element_spec()@.attributes == Seq::<(Seq<char>, Seq<char>)>::empty(),
            r.element_spec()@.children == Seq::<ElemModel>::empty(),
            r.element_spec()@.text is None,
            r.element_spec()@.cdata is None,
    {
        ElementBuilder { element: Element::new(name) }
    }

    /// Set the element's prefix to `prefix`
    pub fn prefix<S: core::fmt::Display>(&mut self, prefix: S) -> (r: &mut ElementBuilder)
        ensures
            *final(self) == *final(r),
            (*r).element_spec().prefix matches Some(p) && to_string_from_display_ensures::<S>(
                &prefix,
                p,
            ),
            (*r).element_spec().name == old(self).element_spec().name,
            (*r).element_spec().attributes == old(self).element_spec().attributes,
            (*r).element_spec().children == old(self).element_spec().children,
            (*r).element_spec().text == old(self).element_spec().text,
            (*r).element_spec().cdata == old(self).element_spec().cdata,
    {
        self.element.prefix = Some(prefix.to_string());
        self
    }

    /// Set the element's attribute `key` to `value`
    pub fn attr<K: core::fmt::Display, V: core::fmt::Display>(
        &mut self,
        key: K,
        value: V,
    ) -> (r: &mut ElementBuilder)
        ensures
            *final(self) == *final(r),
            exists|ks: String, vs: String|
                #![auto]
                to_string_from_display_ensures::<K>(&key, ks) && to_string_from_display_ensures::<
                    V,
                >(&value, vs) && attr_entries((*r).element_spec().attributes) == attr_insert(
                    attr_entries(old(self).element_spec().attributes),
                    ks@,
                    vs@,
                ),
            (*r).element_spec().prefix == old(self).element_spec().prefix,
            (*r).element_spec().name == old(self).element_spec().name,
            (*r).element_spec().children == old(self).element_spec().children,
            (*r).element_spec().text == old(self).element_spec().text,
            (*r).element_spec().cdata == old(self).element_spec().cdata,
    {
        let ks = key.to_string();
        let vs = value.to_string();
        crate::attrs::attrs_insert(&mut self.element.attributes, ks, vs);
        self
    }

    /// Set the element's text to `text`
    pub fn text<S: core::fmt::Display>(&mut self, text: S) -> (r: &mut ElementBuilder)
        ensures
            *final(self) == *final(r),
            (*r).element_spec().text matches Some(t) && to_string_from_display_ensures::<S>(&text, t),
            (*r).element_spec().prefix == old(self).element_spec().prefix,
            (*r).element_spec().name == old(self).element_spec().name,
            (*r).element_spec().attributes == old(self).element_spec().attributes,
            (*r).element_spec().children == old(self).element_spec().children,
            (*r).element_spec().cdata == old(self).element_spec().cdata,
    {
        self.element.text = Some(text.to_string());
        self
    }

    /// Set the element's CDATA to `cdata`
    pub fn cdata<S: core::fmt::Display>(&mut self, cdata: S) -> (r: &mut ElementBuilder)
        ensures
            *final(self) == *final(r),
            (*r).element_spec().cdata matches Some(c) && to_string_from_display_ensures::<S>(&cdata, c),
            (*r).element_spec().prefix == old(self).element_spec().prefix,
            (*r).element_spec().name == old(self).element_spec().name,
            (*r).element_spec().attributes == old(self).element_spec().attributes,
            (*r).element_spec().children == old(self).element_spec().children,
            (*r).element_spec().text == old(self).element_spec().text,
    {
        self.element.cdata = Some(cdata.to_string());
        self
    }

    /// Append children to this `Element`: each given builder's element, after
    /// any existing children, in the order of the input vector.
    pub fn children(&mut self, children: Vec<&mut ElementBuilder>) -> (r: &mut ElementBuilder)
        ensures
            *final(self) == *final(r),
            (*r).element_spec().children@.len() == old(self).element_spec().children@.len() + children@.len(),
            forall|i: int|
                0 <= i < old(self).element_spec().children@.len()
                    ==> (*r).element_spec().children@[i]
                    == old(self).element_spec().children@[i],
            forall|i: int|
                0 <= i < children@.len() ==> elem_model(
                    &(*r).element_spec().children@[old(self).element_spec().children@.len() + i],
                ) == elem_model(&children@[i].element_spec()),
            (*r).element_spec().prefix == old(self).element_spec().prefix,
            (*r).element_spec().name == old(self).element_spec().name,
            (*r).element_spec().attributes == old(self).element_spec().attributes,
            (*r).element_spec().text == old(self).element_spec().text,
            (*r).element_spec().cdata == old(self).element_spec().cdata,
    {
        let ghost base = self.element.children@;
        let mut i: usize = 0;
        while i < children.len()
            invariant
                i <= children@.len(),
                self.element.children@.len() == base.len() + i,
                forall|t: int| 0 <= t < base.len() ==> self.element.children@[t] == base[t],
                forall|t: int|
                    0 <= t < i ==> elem_model(&self.element.children@[base.len() + t])
                        == elem_model(&children@[t].element_spec()),
                self.element.prefix == old(self).element_spec().prefix,
                self.element.name == old(self).element_spec().name,
                self.element.attributes == old(self).element_spec().attributes,
                self.element.text == old(self).element_spec().text,
                self.element.cdata == old(self).element_spec().cdata,
                base == old(self).element_spec().children@,
            decreases children@.len() - i,
        {
            let child = children[i].element();
            self.element.children.push(child);
            i += 1;
        }
        self
    }

    /// Creates an `Element` from the builder
    pub fn element(&self) -> (r: Element)
        ensures
            r@ == self.element_spec()@,
    {
        self.element.clone()
    }
}

impl From<ElementBuilder> for Element {
    /// The element the builder holds.
    fn from(value: ElementBuilder) -> (r: Element)
        ensures
            r == value.element_spec(),
    {
        value.element
    }
}

impl vstd::std_specs::convert::FromSpecImpl<ElementBuilder> for Element {
    open spec fn obeys_from_spec() -> bool {
        true
    }

    open spec fn from_spec(value: ElementBuilder) -> Element {
        value.element_spec()
    }
}

impl From<Element> for ElementBuilder {
    /// A builder that starts from an existing element.
    fn from(element: Element) -> (r: ElementBuilder)
        ensures
            r.element_spec() == element,
    {
        ElementBuilder { element }
    }
}

impl vstd::std_specs::convert::FromSpecImpl<Element> for ElementBuilder {
    open spec fn obeys_from_spec() -> bool {
        true
    }

    closed spec fn from_spec(element: Element) -> ElementBuilder {
        ElementBuilder { element }
    }
}

impl Document {
    /// Create a new `Document` with an Element or ElementBuilder at its root.
    pub fn build(root: &mut ElementBuilder) -> (r: Self)
        ensures
            *final(root) == *old(root),
            r@ == (DocModel {
                version: XmlVersion::Version10,
                encoding: "UTF-8"@,
                root: Some(elem_model(&old(root).element_spec())),
            }),
    {
        let e = root.element();
        let d = Document {
            version: XmlVersion::Version10,
            encoding: "UTF-8".to_owned(),
            root: Some(e),
        };
        proof {
            assert(d@ =~= (DocModel {
                version: XmlVersion::Version10,
                encoding: "UTF-8"@,
                root: Some(elem_model(&old(root).element_spec())),
            }));
        }
        d
    }
}

} // verus!
