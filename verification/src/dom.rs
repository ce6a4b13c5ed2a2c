//! The document model the extraction engine walks: a tree of text and
//! element nodes, with descendant search, flattened text, attribute and
//! child access, each specified by a recursive spec function.
use vstd::prelude::*;

use crate::strutil::opt_str;
use crate::strutil::str_eq;

verus! {

/// An element node: tag name, the classes it carries, its attributes in
/// document order, and its child nodes in document order.
#[derive(Debug)]
pub struct Element {
    pub name: String,
    pub classes: Vec<String>,
    pub attrs: Vec<(String, String)>,
    pub children: Vec<DomNode>,
}

/// One node of a parsed page: a text run or an element.
#[derive(Debug)]
pub enum DomNode {
    Text(String),
    Elem(Element),
}

/// A descendant search: the shapes of node the engine looks for.
pub enum Query {
    /// Elements carrying the class.
    Class(String),
    /// Elements carrying both classes.
    Classes(String, String),
    /// Elements with the tag name.
    Tag(String),
    /// Elements whose attribute has exactly the value.
    AttrIs(String, String),
    /// Text nodes.
    AnyText,
}

/// The mathematical shape of a query, over character sequences.
pub enum QuerySpec {
    Class(Seq<char>),
    Classes(Seq<char>, Seq<char>),
    Tag(Seq<char>),
    AttrIs(Seq<char>, Seq<char>),
    AnyText,
}

impl View for Query {
    type V = QuerySpec;

    open spec fn view(&self) -> QuerySpec {
        match self {
            Query::Class(c) => QuerySpec::Class(c@),
            Query::Classes(a, b) => QuerySpec::Classes(a@, b@),
            Query::Tag(t) => QuerySpec::Tag(t@),
            Query::AttrIs(k, v) => QuerySpec::AttrIs(k@, v@),
            Query::AnyText => QuerySpec::AnyText,
        }
    }
}

pub open spec fn children_of(n: DomNode) -> Seq<DomNode> {
    match n {
        DomNode::Text(_) => Seq::empty(),
        DomNode::Elem(e) => e.children@,
    }
}

/// The flattened text of a node: text runs concatenated in document order.
pub open spec fn text_of(n: DomNode) -> Seq<char>
    decreases n,
{
    match n {
        DomNode::Text(t) => t@,
        DomNode::Elem(e) => text_of_list(e.children@),
    }
}

pub open spec fn text_of_list(s: Seq<DomNode>) -> Seq<char>
    decreases s,
{
    if s.len() == 0 {
        Seq::empty()
    } else {
        text_of(s[0]) + text_of_list(s.subrange(1, s.len() as int))
    }
}

pub open spec fn has_class(n: DomNode, c: Seq<char>) -> bool {
    match n {
        DomNode::Text(_) => false,
        DomNode::Elem(e) => exists|i: int|
            #![trigger e.classes@[i]]
            0 <= i < e.classes@.len() && e.classes@[i]@ == c,
    }
}

/// The value of the first attribute with the given key.
pub open spec fn attr_lookup(attrs: Seq<(String, String)>, k: Seq<char>) -> Option<Seq<char>>
    decreases attrs.len(),
{
    if attrs.len() == 0 {
        None
    } else if attrs[0].0@ == k {
        Some(attrs[0].1@)
    } else {
        attr_lookup(attrs.subrange(1, attrs.len() as int), k)
    }
}

pub open spec fn attr_of(n: DomNode, k: Seq<char>) -> Option<Seq<char>> {
    match n {
        DomNode::Text(_) => None,
        DomNode::Elem(e) => attr_lookup(e.attrs@, k),
    }
}

pub open spec fn query_matches(n: DomNode, q: QuerySpec) -> bool {
    match q {
        QuerySpec::Class(c) => has_class(n, c),
        QuerySpec::Classes(a, b) => has_class(n, a) && has_class(n, b),
        QuerySpec::Tag(t) => match n {
            DomNode::Elem(e) => e.name@ == t,
            DomNode::Text(_) => false,
        },
        QuerySpec::AttrIs(k, v) => attr_of(n, k) == Some(v),
        QuerySpec::AnyText => n is Text,
    }
}

/// The descendants of `n` matching `q`, in document (pre-)order.
/// The node itself is not a candidate.
pub open spec fn find_in(n: DomNode, q: QuerySpec) -> Seq<DomNode>
    decreases n,
{
    match n {
        DomNode::Text(_) => Seq::empty(),
        DomNode::Elem(e) => find_in_list(e.children@, q),
    }
}

pub open spec fn find_in_list(s: Seq<DomNode>, q: QuerySpec) -> Seq<DomNode>
    decreases s,
{
    if s.len() == 0 {
        Seq::empty()
    } else {
        (if query_matches(s[0], q) {
            seq![s[0]]
        } else {
            Seq::empty()
        }) + find_in(s[0], q) + find_in_list(s.subrange(1, s.len() as int), q)
    }
}

/// The child nodes that are elements, in document order.
pub open spec fn elems_only(s: Seq<DomNode>) -> Seq<DomNode>
    decreases s,
{
    if s.len() == 0 {
        Seq::empty()
    } else {
        (if s[0] is Elem {
            seq![s[0]]
        } else {
            Seq::empty()
        }) + elems_only(s.subrange(1, s.len() as int))
    }
}

/// The nodes a sequence of borrows points at.
pub open spec fn derefd(s: Seq<&DomNode>) -> Seq<DomNode> {
    s.map_values(|p: &DomNode| *p)
}

pub proof fn lemma_text_of_list_append(a: Seq<DomNode>, b: Seq<DomNode>)
    ensures
        text_of_list(a + b) == text_of_list(a) + text_of_list(b),
    decreases a.len(),
{
    if a.len() == 0 {
        assert(a + b =~= b);
        assert(text_of_list(a) + text_of_list(b) =~= text_of_list(b));
    } else {
        assert((a + b).subrange(1, (a + b).len() as int) =~= a.subrange(1, a.len() as int) + b);
        assert((a + b)[0] == a[0]);
        lemma_text_of_list_append(a.subrange(1, a.len() as int), b);
        assert(text_of(a[0]) + (text_of_list(a.subrange(1, a.len() as int)) + text_of_list(b))
            =~= text_of_list(a) + text_of_list(b));
    }
}

pub proof fn lemma_find_in_list_append(a: Seq<DomNode>, b: Seq<DomNode>, q: QuerySpec)
    ensures
        find_in_list(a + b, q) == find_in_list(a, q) + find_in_list(b, q),
    decreases a.len(),
{
    if a.len() == 0 {
        assert(a + b =~= b);
        assert(find_in_list(a, q) + find_in_list(b, q) =~= find_in_list(b, q));
    } else {
        assert((a + b).subrange(1, (a + b).len() as int) =~= a.subrange(1, a.len() as int) + b);
        assert((a + b)[0] == a[0]);
        lemma_find_in_list_append(a.subrange(1, a.len() as int), b, q);
        assert(find_in_list(a + b, q) =~= find_in_list(a, q) + find_in_list(b, q));
    }
}

pub proof fn lemma_elems_only_append(a: Seq<DomNode>, b: Seq<DomNode>)
    ensures
        elems_only(a + b) == elems_only(a) + elems_only(b),
    decreases a.len(),
{
    if a.len() == 0 {
        assert(a + b =~= b);
        assert(elems_only(a) + elems_only(b) =~= elems_only(b));
    } else {
        assert((a + b).subrange(1, (a + b).len() as int) =~= a.subrange(1, a.len() as int) + b);
        assert((a + b)[0] == a[0]);
        lemma_elems_only_append(a.subrange(1, a.len() as int), b);
        assert(elems_only(a + b) =~= elems_only(a) + elems_only(b));
    }
}

proof fn lemma_take_snoc(s: Seq<DomNode>, i: int)
    requires
        0 <= i < s.len(),
    ensures
        s.subrange(0, i + 1) =~= s.subrange(0, i) + seq![s[i]],
{
}

proof fn lemma_text_of_singleton(n: DomNode)
    ensures
        text_of_list(seq![n]) == text_of(n),
{
    reveal_with_fuel(text_of_list, 2);
    assert(seq![n].subrange(1, 1) =~= Seq::<DomNode>::empty());
    assert(text_of_list(seq![n]) =~= text_of(n));
}

proof fn lemma_find_in_singleton(n: DomNode, q: QuerySpec)
    ensures
        find_in_list(seq![n], q) == (if query_matches(n, q) {
            seq![n]
        } else {
            Seq::<DomNode>::empty()
        }) + find_in(n, q),
{
    reveal_with_fuel(find_in_list, 2);
    assert(seq![n].subrange(1, 1) =~= Seq::<DomNode>::empty());
    assert(find_in_list(seq![n], q) =~= (if query_matches(n, q) {
        seq![n]
    } else {
        Seq::<DomNode>::empty()
    }) + find_in(n, q));
}

proof fn lemma_elems_only_singleton(n: DomNode)
    ensures
        elems_only(seq![n]) == (if n is Elem {
            seq![n]
        } else {
            Seq::<DomNode>::empty()
        }),
{
    reveal_with_fuel(elems_only, 2);
    assert(seq![n].subrange(1, 1) =~= Seq::<DomNode>::empty());
    assert(elems_only(seq![n]) =~= (if n is Elem {
        seq![n]
    } else {
        Seq::<DomNode>::empty()
    }));
}

proof fn lemma_child_decreases(n: DomNode, i: int)
    requires
        n is Elem,
        0 <= i < n->Elem_0.children@.len(),
    ensures
        decreases_to!(n => n->Elem_0.children@[i]),
{
    assert(decreases_to!(n => n->Elem_0));
    assert(decreases_to!(n->Elem_0 => n->Elem_0.children));
    assert(decreases_to!(n->Elem_0.children => n->Elem_0.children@));
    assert(decreases_to!(n->Elem_0.children@ => n->Elem_0.children@[i]));
}

fn has_class_exec(n: &DomNode, c: &String) -> (r: bool)
    ensures
        r == has_class(*n, c@),
{
    match n {
        DomNode::Text(_) => false,
        DomNode::Elem(e) => {
            let count = e.classes.len();
            let mut i: usize = 0;
            while i < count
                invariant
                    i <= count,
                    *n == DomNode::Elem(*e),
                    count == e.classes@.len(),
                    forall|j: int| 0 <= j < i ==> e.classes@[j]@ != c@,
                decreases count - i,
            {
                if str_eq(e.classes[i].as_str(), c.as_str()) {
                    proof {
                        assert(0 <= i < e.classes@.len() && e.classes@[i as int]@ == c@);
                        assert(*n is Elem);
                        assert((*n)->Elem_0 =~= *e);
                        assert(has_class(*n, c@));
                    }
                    return true;
                }
                i += 1;
            }
            false
        },
    }
}

impl DomNode {
    /// Whether this node is a text run.
    pub fn is_text(&self) -> (r: bool)
        ensures
            r == (*self is Text),
    {
        match self {
            DomNode::Text(_) => true,
            DomNode::Elem(_) => false,
        }
    }

    /// The number of child nodes.
    pub fn child_count(&self) -> (r: usize)
        ensures
            r == children_of(*self).len(),
    {
        match self {
            DomNode::Text(_) => 0,
            DomNode::Elem(e) => e.children.len(),
        }
    }

    /// The child node at the given position.
    pub fn child<'a>(&'a self, i: usize) -> (r: &'a DomNode)
        requires
            i < children_of(*self).len(),
        ensures
            *r == children_of(*self)[i as int],
    {
        match self {
            DomNode::Text(_) => unreached(),
            DomNode::Elem(e) => &e.children[i],
        }
    }

    /// The value of the first attribute with the given key, if any.
    pub fn attr(&self, key: &str) -> (r: Option<String>)
        ensures
            opt_str(r) == attr_of(*self, key@),
    {
        match self {
            DomNode::Text(_) => None,
            DomNode::Elem(e) => {
                let count = e.attrs.len();
                proof {
                    assert(e.attrs@.subrange(0, count as int) =~= e.attrs@);
                }
                let mut i: usize = 0;
                while i < count
                    invariant
                        i <= count,
                        *self == DomNode::Elem(*e),
                        count == e.attrs@.len(),
                        attr_lookup(e.attrs@, key@) == attr_lookup(
                            e.attrs@.subrange(i as int, count as int),
                            key@,
                        ),
                    decreases count - i,
                {
                    proof {
                        assert(e.attrs@.subrange(i as int, count as int)[0] == e.attrs@[i as int]);
                        assert(e.attrs@.subrange(i as int, count as int).subrange(
                            1,
                            (count - i) as int,
                        ) =~= e.attrs@.subrange(i as int + 1, count as int));
                    }
                    if str_eq(e.attrs[i].0.as_str(), key) {
                        return Some(e.attrs[i].1.clone());
                    }
                    i += 1;
                }
                proof {
                    assert(e.attrs@.subrange(count as int, count as int).len() == 0);
                }
                None
            },
        }
    }

    /// Whether this node matches the query.
    pub fn matches(&self, q: &Query) -> (r: bool)
        ensures
            r == query_matches(*self, q@),
    {
        match q {
            Query::Class(c) => has_class_exec(self, c),
            Query::Classes(a, b) => has_class_exec(self, a) && has_class_exec(self, b),
            Query::Tag(t) => match self {
                DomNode::Elem(e) => str_eq(e.name.as_str(), t.as_str()),
                DomNode::Text(_) => false,
            },
            Query::AttrIs(k, v) => match self.attr(k.as_str()) {
                Some(val) => str_eq(val.as_str(), v.as_str()),
                None => false,
            },
            Query::AnyText => self.is_text(),
        }
    }

    /// The flattened text of this node.
    pub fn text(&self) -> (r: String)
        ensures
            r@ == text_of(*self),
        decreases *self,
    {
        match self {
            DomNode::Text(t) => t.clone(),
            DomNode::Elem(e) => {
                let count = e.children.len();
                let mut r = String::new();
                let mut i: usize = 0;
                while i < count
                    invariant
                        i <= count,
                        *self == DomNode::Elem(*e),
                        count == e.children@.len(),
                        r@ == text_of_list(e.children@.subrange(0, i as int)),
                    decreases count - i,
                {
                    proof {
                        lemma_child_decreases(*self, i as int);
                    }
                    let part = e.children[i].text();
                    r.append(part.as_str());
                    proof {
                        lemma_take_snoc(e.children@, i as int);
                        lemma_text_of_list_append(
                            e.children@.subrange(0, i as int),
                            seq![e.children@[i as int]],
                        );
                        lemma_text_of_singleton(e.children@[i as int]);
                    }
                    i += 1;
                }
                proof {
                    assert(e.children@.subrange(0, count as int) =~= e.children@);
                }
                r
            },
        }
    }

    /// All descendants matching the query, in document order.
    pub fn find<'a>(&'a self, q: &Query) -> (r: Vec<&'a DomNode>)
        ensures
            derefd(r@) == find_in(*self, q@),
    {
        let mut out: Vec<&DomNode> = Vec::new();
        proof {
            assert(derefd(out@) =~= Seq::empty());
        }
        find_into(self, q, &mut out);
        proof {
            assert(Seq::<DomNode>::empty() + find_in(*self, q@) =~= find_in(*self, q@));
        }
        out
    }

    /// The children that are elements, in document order.
    pub fn elem_children<'a>(&'a self) -> (r: Vec<&'a DomNode>)
        ensures
            derefd(r@) == elems_only(children_of(*self)),
    {
        let mut out: Vec<&DomNode> = Vec::new();
        match self {
            DomNode::Text(_) => {
                proof {
                    assert(derefd(out@) =~= elems_only(children_of(*self)));
                }
                out
            },
            DomNode::Elem(e) => {
                let count = e.children.len();
                let mut i: usize = 0;
                while i < count
                    invariant
                        i <= count,
                        count == e.children@.len(),
                        *self is Elem,
                        e.children@ == children_of(*self),
                        derefd(out@) == elems_only(e.children@.subrange(0, i as int)),
                    decreases count - i,
                {
                    let c = &e.children[i];
                    let ghost prev = out@;
                    if !c.is_text() {
                        out.push(c);
                        proof {
                            assert(derefd(out@) =~= derefd(prev) + seq![e.children@[i as int]]);
                        }
                    }
                    proof {
                        lemma_take_snoc(e.children@, i as int);
                        lemma_elems_only_append(
                            e.children@.subrange(0, i as int),
                            seq![e.children@[i as int]],
                        );
                        lemma_elems_only_singleton(e.children@[i as int]);
                        if !(e.children@[i as int] is Elem) {
                            assert(derefd(out@) =~= derefd(prev) + elems_only(
                                seq![e.children@[i as int]],
                            ));
                        }
                    }
                    i += 1;
                }
                proof {
                    assert(e.children@.subrange(0, count as int) =~= e.children@);
                }
                out
            },
        }
    }
}

fn find_into<'a>(n: &'a DomNode, q: &Query, out: &mut Vec<&'a DomNode>)
    ensures
        derefd(final(out)@) == derefd(old(out)@) + find_in(*n, q@),
    decreases *n,
{
    match n {
        DomNode::Text(_) => {
            proof {
                assert(derefd(out@) =~= derefd(out@) + find_in(*n, q@));
            }
        },
        DomNode::Elem(e) => {
            let count = e.children.len();
            let mut i: usize = 0;
            while i < count
                invariant
                    i <= count,
                    count == e.children@.len(),
                    *n == DomNode::Elem(*e),
                    derefd(out@) == derefd(old(out)@) + find_in_list(
                        e.children@.subrange(0, i as int),
                        q@,
                    ),
                decreases count - i,
            {
                let c = &e.children[i];
                let ghost mid = out@;
                if c.matches(q) {
                    out.push(c);
                    proof {
                        assert(derefd(out@) =~= derefd(mid) + seq![e.children@[i as int]]);
                    }
                }
                let ghost mid2 = out@;
                proof {
                    lemma_child_decreases(*n, i as int);
                }
                find_into(c, q, out);
                proof {
                    lemma_take_snoc(e.children@, i as int);
                    lemma_find_in_list_append(
                        e.children@.subrange(0, i as int),
                        seq![e.children@[i as int]],
                        q@,
                    );
                    let child = e.children@[i as int];
                    lemma_find_in_singleton(child, q@);
                    if query_matches(child, q@) {
                        assert(derefd(mid2) =~= derefd(mid) + seq![child]);
                    } else {
                        assert(derefd(mid2) =~= derefd(mid) + Seq::<DomNode>::empty());
                    }
                    assert(derefd(out@) =~= derefd(old(out)@) + find_in_list(
                        e.children@.subrange(0, i as int + 1),
                        q@,
                    ));
                }
                i += 1;
            }
            proof {
                assert(e.children@.subrange(0, count as int) =~= e.children@);
            }
        },
    }
}

} // verus!
