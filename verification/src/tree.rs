//! The element tree that a document is read into and written from.

use crate::scan::{first_index, lemma_first_index_is};
use vstd::prelude::*;

verus! {

/// An element of a document: its name, its attributes in the order given
/// (of two with one key the first counts), its child elements and its text.
pub struct Element {
    pub name: String,
    pub attributes: Vec<(String, String)>,
    pub children: Vec<Element>,
    pub text: Option<String>,
}

/// An element as a mathematical value.
#[verifier::ext_equal]
pub struct ElementView {
    pub name: Seq<char>,
    pub attributes: Seq<(Seq<char>, Seq<char>)>,
    pub children: Seq<ElementView>,
    pub text: Option<Seq<char>>,
}

/// The views of the attributes of a list, in order.
pub open spec fn pair_views(pairs: Seq<(String, String)>) -> Seq<(Seq<char>, Seq<char>)> {
    pairs.map_values(|p: (String, String)| (p.0@, p.1@))
}

/// The view of a text that may be absent.
pub open spec fn text_view(text: Option<String>) -> Option<Seq<char>> {
    match text {
        Some(t) => Some(t@),
        None => None,
    }
}

impl ElementView {
    /// An element with a name and nothing else.
    pub open spec fn leaf(name: Seq<char>) -> ElementView {
        ElementView { name, attributes: Seq::empty(), children: Seq::empty(), text: None }
    }

    /// An element with a name and a text.
    pub open spec fn text_leaf(name: Seq<char>, text: Seq<char>) -> ElementView {
        ElementView { name, attributes: Seq::empty(), children: Seq::empty(), text: Some(text) }
    }

    /// This element with one more child at the end.
    pub open spec fn with_child(self, child: ElementView) -> ElementView {
        ElementView { children: self.children.push(child), ..self }
    }

    /// The keys of the attributes, in order.
    pub open spec fn keys(self) -> Seq<Seq<char>> {
        self.attributes.map_values(|a: (Seq<char>, Seq<char>)| a.0)
    }

    /// The names of the children, in order.
    pub open spec fn child_names(self) -> Seq<Seq<char>> {
        self.children.map_values(|c: ElementView| c.name)
    }

    /// The value of the first attribute with the given key.
    pub open spec fn attribute(self, key: Seq<char>) -> Option<Seq<char>> {
        let i = first_index(self.keys(), key);
        if i < self.attributes.len() {
            Some(self.attributes[i].1)
        } else {
            None
        }
    }

    /// The first child with the given name.
    pub open spec fn child(self, name: Seq<char>) -> Option<ElementView> {
        let i = first_index(self.child_names(), name);
        if i < self.children.len() {
            Some(self.children[i])
        } else {
            None
        }
    }
}

impl Element {
    /// The element as a mathematical value: the view of each part, the
    /// children taken the same way.
    pub open spec fn model(self) -> ElementView
        decreases self,
    {
        ElementView {
            name: self.name@,
            attributes: pair_views(self.attributes@),
            children: Seq::new(
                self.children@.len(),
                |i: int|
                    if 0 <= i < self.children@.len() {
                        self.children@[i].model()
                    } else {
                        arbitrary()
                    },
            ),
            text: text_view(self.text),
        }
    }

    /// The view of an element, field by field.
    pub proof fn lemma_view(self)
        ensures
            self@.name == self.name@,
            self@.attributes == pair_views(self.attributes@),
            self@.text == text_view(self.text),
            self@.children.len() == self.children@.len(),
            forall|i: int|
                0 <= i < self.children@.len() ==> #[trigger] self@.children[i]
                    == self.children@[i]@,
    {
        reveal_with_fuel(Element::model, 2);
    }

    /// An element with the given name and nothing else.
    pub fn new(name: &str) -> (e: Element)
        ensures
            e@ == ElementView::leaf(name@),
    {
        let e = Element {
            name: String::from_str(name),
            attributes: Vec::new(),
            children: Vec::new(),
            text: None,
        };
        proof {
            e.lemma_view();
            assert(e@.attributes =~= Seq::empty());
            assert(e@.children =~= Seq::empty());
        }
        e
    }

    /// An element with the given name and text.
    pub fn with_text(name: &str, text: &str) -> (e: Element)
        ensures
            e@ == ElementView::text_leaf(name@, text@),
    {
        let e = Element {
            name: String::from_str(name),
            attributes: Vec::new(),
            children: Vec::new(),
            text: Some(String::from_str(text)),
        };
        proof {
            e.lemma_view();
            assert(e@.attributes =~= Seq::empty());
            assert(e@.children =~= Seq::empty());
        }
        e
    }

    /// Adds a child after those that are there.
    pub fn push_child(&mut self, child: Element)
        ensures
            final(self)@ == old(self)@.with_child(child@),
    {
        self.children.push(child);
        proof {
            self.lemma_view();
            old(self).lemma_view();
            assert(self@.children =~= old(self)@.children.push(child@));
        }
    }

    /// The value of the first attribute with the given key.
    pub fn attribute(&self, key: &str) -> (r: Option<&String>)
        ensures
            match self@.attribute(key@) {
                Some(v) => r is Some && r.unwrap()@ == v,
                None => r is None,
            },
    {
        proof {
            self.lemma_view();
        }
        let wanted = String::from_str(key);
        let mut i: usize = 0;
        while i < self.attributes.len()
            invariant
                i <= self.attributes@.len(),
                wanted@ == key@,
                self@.attributes == pair_views(self.attributes@),
                forall|j: int| 0 <= j < i ==> self@.keys()[j] != key@,
            decreases self.attributes@.len() - i,
        {
            if self.attributes[i].0 == wanted {
                proof {
                    lemma_first_index_is(self@.keys(), key@, i as int);
                }
                return Some(&self.attributes[i].1);
            }
            i += 1;
        }
        proof {
            lemma_first_index_is(self@.keys(), key@, i as int);
        }
        None
    }

    /// The first child with the given name.
    pub fn get_child(&self, name: &str) -> (r: Option<&Element>)
        ensures
            match self@.child(name@) {
                Some(c) => r is Some && r.unwrap()@ == c,
                None => r is None,
            },
    {
        proof {
            self.lemma_view();
        }
        let wanted = String::from_str(name);
        let mut i: usize = 0;
        while i < self.children.len()
            invariant
                i <= self.children@.len(),
                wanted@ == name@,
                self@.children.len() == self.children@.len(),
                forall|j: int|
                    0 <= j < self.children@.len() ==> #[trigger] self@.children[j]
                        == self.children@[j]@,
                forall|j: int| 0 <= j < i ==> self@.child_names()[j] != name@,
            decreases self.children@.len() - i,
        {
            proof {
                self.children@[i as int].lemma_view();
            }
            if self.children[i].name == wanted {
                proof {
                    lemma_first_index_is(self@.child_names(), name@, i as int);
                }
                return Some(&self.children[i]);
            }
            i += 1;
        }
        proof {
            lemma_first_index_is(self@.child_names(), name@, i as int);
        }
        None
    }
}

impl View for Element {
    type V = ElementView;

    open spec fn view(&self) -> ElementView {
        self.model()
    }
}

/// Adds to `parent` a child that holds a name and a text.
pub fn add_elem_with_text(parent: &mut Element, name: &str, text: &str)
    ensures
        final(parent)@ == old(parent)@.with_child(ElementView::text_leaf(name@, text@)),
{
    let elem = Element::with_text(name, text);
    parent.push_child(elem);
}

} // verus!
