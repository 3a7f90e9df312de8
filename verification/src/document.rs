//! The ordered element container and the render contract every encoder
//! implements.

use vstd::prelude::*;

use crate::chars::chars_to_string;
use crate::element::dump_elem;
use crate::element::ElemSpec;
use crate::element::Element;

verus! {

/// An ordered sequence of elements; order is render order.
pub struct Document {
    pub element_list: Vec<Element>,
}

impl View for Document {
    type V = Seq<ElemSpec>;

    open spec fn view(&self) -> Seq<ElemSpec> {
        self.element_list@.map_values(|e: Element| e@)
    }
}

/// Debug-dump text of the elements from index `i` on.
pub open spec fn dump_doc_from(es: Seq<ElemSpec>, i: int) -> Seq<char>
    decreases es.len() - i
    when 0 <= i <= es.len()
{
    if i == es.len() {
        Seq::empty()
    } else {
        dump_elem(es[i]) + dump_doc_from(es, i + 1)
    }
}

/// The render contract every target dialect implements: one element maps to
/// one dialect-native text fragment, and a document to their concatenation
/// in order.
pub trait TextEncoder {
    /// The text this encoder renders one element to.
    spec fn single_spec(&self, e: ElemSpec) -> Seq<char>;

    /// The text this encoder renders the elements from index `i` on to: the
    /// concatenation of each element's own text, in order.
    spec fn doc_spec(&self, es: Seq<ElemSpec>, i: int) -> Seq<char>;

    /// Renders one element as dialect-native text.
    fn encode_single(&self, element: &Element) -> (r: String)
        ensures
            r@ == self.single_spec(element@),
    ;

    /// Renders the whole document, element by element in order.
    fn encode(&self, document: &Document) -> (r: String)
        ensures
            r@ == self.doc_spec(document@, 0),
    ;
}

impl Document {
    /// An empty document.
    pub fn new() -> (d: Self)
        ensures
            d@ == Seq::<ElemSpec>::empty(),
    {
        let d = Document { element_list: Vec::new() };
        assert(d@ =~= Seq::<ElemSpec>::empty());
        d
    }

    /// Appends one element; decode builds a document by pushes alone.
    pub fn push(&mut self, element: Element)
        ensures
            final(self)@ == old(self)@.push(element@),
    {
        let ghost e = element@;
        self.element_list.push(element);
        assert(self@ =~= old(self)@.push(e));
    }

    /// The debug-dump text of the whole document, element by element.
    pub fn dump(&self) -> (r: String)
        ensures
            r@ == dump_doc_from(self@, 0),
    {
        let mut out: Vec<char> = Vec::new();
        let ghost es = self@;
        let mut i: usize = 0;
        while i < self.element_list.len()
            invariant
                0 <= i <= self.element_list@.len(),
                es == self@,
                es.len() == self.element_list@.len(),
                dump_doc_from(es, 0) == out@ + dump_doc_from(es, i as int),
            decreases self.element_list@.len() - i,
        {
            self.element_list[i].dump_into(&mut out);
            assert(es[i as int] == self.element_list@[i as int]@);
            i = i + 1;
            assert(dump_doc_from(es, 0) =~= out@ + dump_doc_from(es, i as int));
        }
        chars_to_string(&out)
    }
}

} // verus!
