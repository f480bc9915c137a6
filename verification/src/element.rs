use crate::attrs::{attr_entries, attrs_clone, attrs_new, entries_unique};
use crate::errors::TreexmlError;
use vstd::prelude::*;
use vstd::string::StrSliceExecFns;

verus! {

/// An XML element
#[derive(Debug, PartialEq, Eq)]
pub struct Element {
    /// Tag prefix, used for namespacing: `xsl` in `xsl:for-each`
    pub prefix: Option<String>,
    /// Tag name: `for-each` in `xsl:for-each`
    pub name: String,
    /// Tag attributes
    pub attributes: indexmap::IndexMap<String, String>,
    /// A vector of child elements
    pub children: Vec<Element>,
    /// Contents of the element
    pub text: Option<String>,
    /// CDATA contents of the element
    pub cdata: Option<String>,
}

/// The mathematical value of an [`Element`]: the tree with every string
/// replaced by its character sequence and the attribute store by its entry
/// sequence.
#[verifier::ext_equal]
pub struct ElemModel {
    pub prefix: Option<Seq<char>>,
    pub name: Seq<char>,
    pub attributes: Seq<(Seq<char>, Seq<char>)>,
    pub children: Seq<ElemModel>,
    pub text: Option<Seq<char>>,
    pub cdata: Option<Seq<char>>,
}

pub open spec fn elem_model(e: &Element) -> ElemModel
    decreases e,
{
    ElemModel {
        prefix: crate::events::opt_str_model(e.prefix),
        name: e.name@,
        attributes: attr_entries(e.attributes),
        children: elem_models(e.children@, 0),
        text: crate::events::opt_str_model(e.text),
        cdata: crate::events::opt_str_model(e.cdata),
    }
}

pub open spec fn elem_models(s: Seq<Element>, i: int) -> Seq<ElemModel>
    decreases s, s.len() - i,
{
    if i < 0 || i >= s.len() {
        Seq::empty()
    } else {
        seq![elem_model(&s[i])] + elem_models(s, i + 1)
    }
}

/// `elem_models(s, i)` lists the models of `s[i..]`, one per element.
pub proof fn lemma_elem_models(s: Seq<Element>, i: int)
    requires
        0 <= i <= s.len(),
    ensures
        elem_models(s, i).len() == s.len() - i,
        forall|j: int|
            i <= j < s.len() ==> elem_models(s, i)[j - i] == elem_model(&s[j]),
    decreases s.len() - i,
{
    if i < s.len() {
        lemma_elem_models(s, i + 1);
    }
}

/// The models of a whole sequence of elements.
pub open spec fn children_model(s: Seq<Element>) -> Seq<ElemModel> {
    elem_models(s, 0)
}

/// `children_model(s)` lists the model of each element of `s`, in order.
pub proof fn lemma_children_model(s: Seq<Element>)
    ensures
        children_model(s).len() == s.len(),
        forall|j: int| 0 <= j < s.len() ==> children_model(s)[j] == elem_model(&s[j]),
{
    lemma_elem_models(s, 0);
    assert forall|j: int| 0 <= j < s.len() implies children_model(s)[j] == elem_model(
        &s[j],
    ) by {
        assert(elem_models(s, 0)[j - 0] == elem_model(&s[j]));
    }
}

/// Appending one element appends its model.
pub proof fn lemma_children_model_push(s: Seq<Element>, e: Element)
    ensures
        children_model(s.push(e)) == children_model(s).push(elem_model(&e)),
{
    lemma_children_model(s.push(e));
    lemma_children_model(s);
    assert(children_model(s.push(e)) =~= children_model(s).push(elem_model(&e)));
}

/// A sequence of elements whose models match `m` pointwise has `m` as its
/// model sequence.
pub proof fn lemma_children_model_ext(s: Seq<Element>, m: Seq<ElemModel>)
    requires
        s.len() == m.len(),
        forall|j: int| 0 <= j < s.len() ==> elem_model(&s[j]) == m[j],
    ensures
        children_model(s) == m,
{
    lemma_children_model(s);
    assert(children_model(s) =~= m);
}

impl View for Element {
    type V = ElemModel;

    open spec fn view(&self) -> ElemModel {
        elem_model(self)
    }
}

/// Structural well-formedness of a model: attribute keys unique, recursively.
/// Every tree reachable through this library's operations satisfies it.
pub open spec fn wf_elem(m: ElemModel) -> bool
    decreases m,
{
    entries_unique(m.attributes) && (forall|i: int|
        0 <= i < m.children.len() ==> wf_elem(#[trigger] m.children[i]))
}

impl Default for Element {
    /// The default element: an empty tag named `tag`.
    fn default() -> (r: Element)
        ensures
            r@ == (ElemModel {
                prefix: None,
                name: "tag"@,
                attributes: Seq::<(Seq<char>, Seq<char>)>::empty(),
                children: Seq::<ElemModel>::empty(),
                text: None,
                cdata: None,
            }),
    {
        Element {
            prefix: None,
            name: "tag".to_owned(),
            attributes: attrs_new(),
            children: Vec::new(),
            text: None,
            cdata: None,
        }
    }
}

impl Element {
    /// Create a new `Element` with the tag name `name`
    pub fn new<S: core::fmt::Display>(name: S) -> (r: Element)
        ensures
            vstd::string::to_string_from_display_ensures::<S>(&name, r.name),
            r@.prefix is None,
            r@.attributes == Seq::<(Seq<char>, Seq<char>)>::empty(),
            r@.children == Seq::<ElemModel>::empty(),
            r@.text is None,
            r@.cdata is None,
    {
        let mut e = Element::default();
        e.name = name.to_string();
        e
    }
}

/// The position of the first `c` in `s` at or after `i`, or `-1`.
pub open spec fn find_char_from(s: Seq<char>, c: char, i: int) -> int
    decreases s.len() - i,
{
    if i < 0 || i >= s.len() {
        -1
    } else if s[i] == c {
        i
    } else {
        find_char_from(s, c, i + 1)
    }
}

/// `find_char_from` finds exactly the first occurrence.
proof fn lemma_find_char_from(s: Seq<char>, c: char, i: int, k: int)
    requires
        0 <= i <= k <= s.len(),
        forall|j: int| i <= j < k ==> s[j] != c,
        k < s.len() ==> s[k] == c,
    ensures
        find_char_from(s, c, i) == if k < s.len() {
            k
        } else {
            -1
        },
    decreases k - i,
{
    if i < k {
        lemma_find_char_from(s, c, i + 1, k);
    }
}

/// A path split on `/` into tag-name segments: naive splitting, where empty
/// segments stand for empty tag names and are not skipped.
pub open spec fn split_path(s: Seq<char>) -> Seq<Seq<char>>
    decreases s.len(),
{
    if s.len() == 0 {
        seq![s]
    } else {
        let i = find_char_from(s, '/', 0);
        if i < 0 || i >= s.len() {
            seq![s]
        } else {
            seq![s.take(i)] + split_path(s.skip(i + 1))
        }
    }
}

/// The position of the first child named `name` at or after `i`, or `-1`.
pub open spec fn first_child_index(children: Seq<ElemModel>, name: Seq<char>, i: int) -> int
    decreases children.len() - i,
{
    if i < 0 || i >= children.len() {
        -1
    } else if children[i].name == name {
        i
    } else {
        first_child_index(children, name, i + 1)
    }
}

/// `first_child_index` finds exactly the first matching child.
proof fn lemma_first_child_index(children: Seq<ElemModel>, name: Seq<char>, i: int, k: int)
    requires
        0 <= i <= k <= children.len(),
        forall|j: int| i <= j < k ==> children[j].name != name,
        k < children.len() ==> children[k].name == name,
    ensures
        first_child_index(children, name, i) == if k < children.len() {
            k
        } else {
            -1
        },
    decreases k - i,
{
    if i < k {
        lemma_first_child_index(children, name, i + 1, k);
    }
}

/// The element a path query resolves to: at each step, the first direct child
/// whose name equals the next segment; an empty path resolves to the element
/// itself.
pub open spec fn find_spec(m: ElemModel, segs: Seq<Seq<char>>) -> Option<ElemModel>
    decreases segs.len(),
{
    if segs.len() == 0 {
        Some(m)
    } else {
        let j = first_child_index(m.children, segs[0], 0);
        if j < 0 {
            None
        } else {
            find_spec(m.children[j], segs.drop_first())
        }
    }
}

impl Clone for Element {
    /// A deep copy: the clone has the same mathematical value as the original.
    fn clone(&self) -> (r: Self)
        ensures
            r@ == self@,
        decreases self,
    {
        let mut kids: Vec<Element> = Vec::new();
        let mut i: usize = 0;
        while i < self.children.len()
            invariant
                i == kids@.len() <= self.children@.len(),
                forall|j: int| 0 <= j < i ==> elem_model(&kids@[j]) == elem_model(
                    &self.children@[j],
                ),
            decreases self.children@.len() - i,
        {
            kids.push(self.children[i].clone());
            i += 1;
        }
        let r = Element {
            prefix: match &self.prefix {
                Some(p) => Some(p.clone()),
                None => None,
            },
            name: self.name.clone(),
            attributes: attrs_clone(&self.attributes),
            children: kids,
            text: match &self.text {
                Some(t) => Some(t.clone()),
                None => None,
            },
            cdata: match &self.cdata {
                Some(c) => Some(c.clone()),
                None => None,
            },
        };
        proof {
            lemma_children_model(r.children@);
            lemma_children_model(self.children@);
            assert(elem_models(r.children@, 0) =~= elem_models(self.children@, 0));
            assert(r@ =~= self@);
        }
        r
    }
}


/// Split a path on `/` into its segments.
fn path_segments(path: &str) -> (segs: Vec<String>)
    ensures
        segs@.map(|i: int, s: String| s@) == split_path(path@),
{
    let n = path.unicode_len();
    let mut segs: Vec<String> = Vec::new();
    let mut start: usize = 0;
    let mut i: usize = 0;
    proof {
        assert(path@.skip(0) =~= path@);
        assert(segs@.map(|t: int, s2: String| s2@) =~= Seq::<Seq<char>>::empty());
        assert(Seq::<Seq<char>>::empty() + split_path(path@) =~= split_path(path@));
    }
    while i < n
        invariant
            n == path@.len(),
            start <= i <= n,
            forall|j: int| start <= j < i ==> path@[j] != '/',
            split_path(path@) == segs@.map(|t: int, s: String| s@) + split_path(
                path@.skip(start as int),
            ),
        decreases n - i,
    {
        if path.get_char(i) == '/' {
            let seg = path.substring_char(start, i).to_owned();
            proof {
                let tail = path@.skip(start as int);
                assert forall|j: int| 0 <= j < i - start implies tail[j] != '/' by {
                    assert(tail[j] == path@[start + j]);
                }
                assert(tail[i - start] == path@[i as int]);
                lemma_find_char_from(tail, '/', 0, i - start);
                assert(tail.take(i - start) =~= path@.subrange(start as int, i as int));
                assert(tail.skip(i - start + 1) =~= path@.skip(i as int + 1));
                assert(split_path(tail) == seq![path@.subrange(start as int, i as int)]
                    + split_path(path@.skip(i as int + 1)));
                assert(segs@.push(seg).map(|t: int, s: String| s@) =~= segs@.map(
                    |t: int, s: String| s@,
                ).push(seg@));
                assert(segs@.map(|t: int, s: String| s@).push(seg@) + split_path(
                    path@.skip(i as int + 1),
                ) =~= segs@.map(|t: int, s: String| s@) + (seq![
                    path@.subrange(start as int, i as int),
                ] + split_path(path@.skip(i as int + 1))));
            }
            segs.push(seg);
            start = i + 1;
        }
        i += 1;
    }
    let last = path.substring_char(start, n).to_owned();
    proof {
        let tail = path@.skip(start as int);
        assert forall|j: int| 0 <= j < tail.len() implies tail[j] != '/' by {
            assert(tail[j] == path@[start + j]);
        }
        lemma_find_char_from(tail, '/', 0, tail.len() as int);
        assert(split_path(tail) == seq![tail]);
        assert(tail =~= path@.subrange(start as int, n as int));
        assert(segs@.push(last).map(|t: int, s: String| s@) =~= segs@.map(
            |t: int, s: String| s@,
        ).push(last@));
        assert(segs@.map(|t: int, s: String| s@).push(last@) =~= segs@.map(
            |t: int, s: String| s@,
        ) + seq![tail]);
    }
    segs.push(last);
    segs
}

/// Relies on str::parse through `T`'s `FromStr` implementation, which alone
/// decides the result; nothing is assumed of it.
#[verifier::external_body]
fn parse_text<T: std::str::FromStr>(s: &str) -> (r: Option<T>) {
    match s.parse::<T>() {
        Ok(v) => Some(v),
        Err(_) => None,
    }
}

impl Element {
    /// Traverse the tree using an xpath-like string: `root/child/a`. At each
    /// step the first matching direct child is taken; failure carries the
    /// whole query string.
    pub fn find<'a>(&'a self, path: &str) -> (r: Result<&'a Element, TreexmlError>)
        ensures
            match r {
                Ok(e) => find_spec(self@, split_path(path@)) == Some(e@),
                Err(err) => find_spec(self@, split_path(path@)) is None && (err
                    matches TreexmlError::ElementNotFound { t } && t@ == path@),
            },
    {
        let segs = path_segments(path);
        let ghost seg_models = segs@.map(|i: int, s: String| s@);
        let mut cur: &Element = self;
        let mut k: usize = 0;
        proof {
            assert(seg_models.skip(0) =~= seg_models);
        }
        while k < segs.len()
            invariant
                k <= segs@.len(),
                seg_models == segs@.map(|i: int, s: String| s@),
                seg_models == split_path(path@),
                find_spec(self@, seg_models) == find_spec(elem_model(cur), seg_models.skip(
                    k as int,
                )),
            decreases segs@.len() - k,
        {
            let ghost cm = elem_model(cur).children;
            proof {
                lemma_children_model(cur.children@);
                assert(seg_models.skip(k as int)[0] == seg_models[k as int]);
            }
            let n = cur.children.len();
            let mut j: usize = 0;
            let mut hit = false;
            while j < n && !hit
                invariant
                    n == cur.children@.len(),
                    cm == children_model(cur.children@),
                    cm.len() == n,
                    forall|t: int| 0 <= t < n ==> cm[t] == elem_model(&cur.children@[t]),
                    j <= n,
                    k < segs@.len(),
                    seg_models == segs@.map(|i2: int, s2: String| s2@),
                    hit ==> j < n && cm[j as int].name == seg_models[k as int],
                    forall|t: int| 0 <= t < j ==> cm[t].name != seg_models[k as int],
                decreases n - j, (if hit { 0int } else { 1int }),
            {
                proof {
                    assert(seg_models[k as int] == segs@[k as int]@);
                }
                if cur.children[j].name == segs[k] {
                    hit = true;
                } else {
                    j += 1;
                }
            }
            if !hit {
                proof {
                    lemma_first_child_index(cm, seg_models[k as int], 0, n as int);
                    assert(find_spec(elem_model(cur), seg_models.skip(k as int)) is None);
                }
                return Err(TreexmlError::ElementNotFound { t: path.to_owned() });
            }
            proof {
                lemma_first_child_index(cm, seg_models[k as int], 0, j as int);
                assert(seg_models.skip(k as int).drop_first() =~= seg_models.skip(k as int + 1));
                assert(find_spec(elem_model(cur), seg_models.skip(k as int)) == find_spec(
                    cm[j as int],
                    seg_models.skip(k as int + 1),
                ));
            }
            cur = &cur.children[j];
            k += 1;
        }
        proof {
            assert(seg_models.skip(segs@.len() as int) =~= Seq::<Seq<char>>::empty());
        }
        Ok(cur)
    }

    /// Resolve a path, then parse the resolved element's text as `T`.
    ///
    /// No match fails with `ElementNotFound`; a match without text is
    /// `Ok(None)`; text that `T` cannot parse fails with `ValueFromStr`
    /// carrying that text. Whether the text parses is decided by `T`'s
    /// `FromStr` implementation alone.
    pub fn find_value<T: std::str::FromStr>(&self, path: &str) -> (r: Result<
        Option<T>,
        TreexmlError,
    >)
        ensures
            match find_spec(self@, split_path(path@)) {
                None => r matches Err(e) && (e matches TreexmlError::ElementNotFound { t } && t@
                    == path@),
                Some(em) => match em.text {
                    None => r matches Ok(v) && v is None,
                    Some(tx) => (r matches Ok(v) && v is Some) || (r matches Err(e) && (e
                        matches TreexmlError::ValueFromStr { t } && t@ == tx)),
                },
            },
    {
        let el = match self.find(path) {
            Ok(el) => el,
            Err(e) => {
                return Err(e);
            },
        };
        match &el.text {
            Some(text) => match parse_text::<T>(text.as_str()) {
                Some(v) => Ok(Some(v)),
                None => Err(TreexmlError::ValueFromStr { t: text.clone() }),
            },
            None => Ok(None),
        }
    }

    /// Find the first direct child satisfying `predicate`.
    pub fn find_child<P: Fn(&Element) -> bool>(&self, predicate: P) -> (r: Option<&Element>)
        requires
            forall|i: int|
                0 <= i < self.children@.len() ==> call_requires(
                    predicate,
                    (&self.children@[i],),
                ),
        ensures
            match r {
                Some(c) => exists|i: int|
                    #![auto]
                    0 <= i < self.children@.len() && *c == self.children@[i] && call_ensures(
                        predicate,
                        (&self.children@[i],),
                        true,
                    ) && (forall|j: int|
                        0 <= j < i ==> call_ensures(predicate, (&self.children@[j],), false)),
                None => forall|i: int|
                    0 <= i < self.children@.len() ==> call_ensures(
                        predicate,
                        (&self.children@[i],),
                        false,
                    ),
            },
    {
        let n = self.children.len();
        let mut j: usize = 0;
        while j < n
            invariant
                n == self.children@.len(),
                j <= n,
                forall|i: int|
                    0 <= i < n ==> call_requires(predicate, (&self.children@[i],)),
                forall|t: int|
                    0 <= t < j ==> call_ensures(predicate, (&self.children@[t],), false),
            decreases n - j,
        {
            if predicate(&self.children[j]) {
                return Some(&self.children[j]);
            }
            j += 1;
        }
        None
    }

    /// Find the first direct child satisfying `predicate`, with exclusive
    /// access to it: the element behind the returned borrow replaces the
    /// matched child; everything else is unchanged.
    pub fn find_child_mut<P: Fn(&Element) -> bool>(&mut self, predicate: P) -> (r: Option<
        &mut Element,
    >)
        requires
            forall|i: int|
                0 <= i < old(self).children@.len() ==> call_requires(
                    predicate,
                    (&old(self).children@[i],),
                ),
        ensures
            match r {
                Some(c) => final(self).prefix == old(self).prefix && final(self).name == old(
                    self,
                ).name && final(self).attributes == old(self).attributes && final(self).text
                    == old(self).text && final(self).cdata == old(self).cdata && exists|i: int|
                    #![auto]
                    0 <= i < old(self).children@.len() && *c == old(self).children@[i]
                        && call_ensures(predicate, (&old(self).children@[i],), true) && (
                    forall|j: int|
                        0 <= j < i ==> call_ensures(
                            predicate,
                            (&old(self).children@[j],),
                            false,
                        )) && final(self).children@ == old(self).children@.update(
                        i,
                        *final(c),
                    ),
                None => *final(self) == *old(self) && forall|i: int|
                    0 <= i < old(self).children@.len() ==> call_ensures(
                        predicate,
                        (&old(self).children@[i],),
                        false,
                    ),
            },
    {
        let n = self.children.len();
        let mut j: usize = 0;
        let mut hit = false;
        while j < n && !hit
            invariant
                n == self.children@.len(),
                self == old(self),
                j <= n,
                forall|i: int|
                    0 <= i < n ==> call_requires(predicate, (&self.children@[i],)),
                hit ==> j < n && call_ensures(predicate, (&self.children@[j as int],), true),
                forall|t: int|
                    0 <= t < j ==> call_ensures(predicate, (&self.children@[t],), false),
            decreases n - j, (if hit { 0int } else { 1int }),
        {
            if predicate(&self.children[j]) {
                hit = true;
            } else {
                j += 1;
            }
        }
        if hit {
            Some(&mut self.children[j])
        } else {
            None
        }
    }

    /// The direct children satisfying `predicate`, in child order.
    ///
    /// The result picks out a strictly increasing sequence of child
    /// positions: each picked child satisfied the predicate, and every child
    /// at a position that was not picked did not.
    pub fn filter_children<P: Fn(&Element) -> bool>(&self, predicate: P) -> (r: Vec<&Element>)
        requires
            forall|i: int|
                0 <= i < self.children@.len() ==> call_requires(
                    predicate,
                    (&self.children@[i],),
                ),
        ensures
            exists|picks: Seq<int>| filter_selection(self.children@, predicate, r@, picks),
    {
        let n = self.children.len();
        let mut out: Vec<&Element> = Vec::new();
        let ghost mut picks: Seq<int> = Seq::empty();
        let mut j: usize = 0;
        while j < n
            invariant
                n == self.children@.len(),
                j <= n,
                forall|i: int|
                    0 <= i < n ==> call_requires(predicate, (&self.children@[i],)),
                picks.len() == out@.len(),
                forall|k: int| 0 <= k < picks.len() ==> 0 <= #[trigger] picks[k] < j,
                forall|k: int|
                    #![trigger out@[k]]
                    0 <= k < picks.len() ==> *out@[k] == self.children@[picks[k]]
                        && call_ensures(predicate, (&self.children@[picks[k]],), true),
                forall|k: int|
                    0 <= k < picks.len() - 1 ==> #[trigger] picks[k] < picks[k + 1],
                forall|i: int|
                    0 <= i < j && !picks.contains(i) ==> call_ensures(
                        predicate,
                        (&self.children@[i],),
                        false,
                    ),
            decreases n - j,
        {
            if predicate(&self.children[j]) {
                out.push(&self.children[j]);
                proof {
                    let picks0 = picks;
                    picks = picks.push(j as int);
                    assert forall|i: int|
                        0 <= i < j + 1 && !picks.contains(i) implies call_ensures(
                        predicate,
                        (&self.children@[i],),
                        false,
                    ) by {
                        vstd::seq_lib::lemma_seq_contains_after_push(picks0, j as int, i);
                    }
                }
            } else {
                proof {
                    assert forall|i: int|
                        0 <= i < j + 1 && !picks.contains(i) implies call_ensures(
                        predicate,
                        (&self.children@[i],),
                        false,
                    ) by {
                        if i < j as int {
                            assert(call_ensures(predicate, (&self.children@[i],), false));
                        }
                    }
                }
            }
            j += 1;
        }
        proof {
            assert(filter_selection(self.children@, predicate, out@, picks));
        }
        out
    }
}

/// How a filtered view of `children` relates to the whole: `picks` lists, in
/// strictly increasing order, the positions whose children satisfied the
/// predicate and appear in `out`; every position not picked did not satisfy
/// it.
pub open spec fn filter_selection<P: Fn(&Element) -> bool>(
    children: Seq<Element>,
    predicate: P,
    out: Seq<&Element>,
    picks: Seq<int>,
) -> bool {
    &&& picks.len() == out.len()
    &&& forall|k: int| 0 <= k < picks.len() ==> 0 <= #[trigger] picks[k] < children.len()
    &&& forall|k: int|
        #![trigger out[k]]
        0 <= k < picks.len() ==> *out[k] == children[picks[k]] && call_ensures(
            predicate,
            (&children[picks[k]],),
            true,
        )
    &&& forall|k: int| 0 <= k < picks.len() - 1 ==> #[trigger] picks[k] < picks[k + 1]
    &&& forall|i: int|
        #![auto]
        0 <= i < children.len() && !picks.contains(i) ==> call_ensures(
            predicate,
            (&children[i],),
            false,
        )
}


} // verus!
