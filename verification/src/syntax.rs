//! A concrete syntax tree held as plain values: each node has its grammar
//! kind, its source text, its start and end positions (zero-based row and
//! column) and its children, each child under the field name, if any, by
//! which the grammar labels it.
use vstd::prelude::*;
use crate::text::text_is;

verus! {

/// One node of a syntax tree.
#[derive(Debug)]
pub struct SyntaxNode {
    /// The grammar's name for the node (`"declaration"`, `"identifier"`, ...).
    pub kind: String,
    /// The node's source text, when it is valid UTF-8.
    pub text: Option<String>,
    pub start_row: usize,
    pub start_column: usize,
    pub end_row: usize,
    pub end_column: usize,
    /// The node's children, in source order.
    pub children: Vec<SyntaxChild>,
}

/// A child of a node, with the field name that labels it.
#[derive(Debug)]
pub struct SyntaxChild {
    pub field: Option<String>,
    pub node: SyntaxNode,
}

/// `t` is the text of some byte range of `source`: bytes that are valid
/// UTF-8, decoded.
pub open spec fn is_source_text(t: Seq<char>, source: Seq<u8>) -> bool {
    exists|a: int, b: int|
        #![trigger source.subrange(a, b)]
        0 <= a <= b <= source.len() && vstd::utf8::valid_utf8(source.subrange(a, b)) && t
            == vstd::utf8::decode_utf8(source.subrange(a, b))
}

/// Whether the child is labelled `field`.
pub open spec fn labelled(c: SyntaxChild, field: Seq<char>) -> bool {
    c.field matches Some(f) && f@ == field
}

/// The index of the first child in `cs` labelled `field`, or -1.
pub open spec fn first_with_field(cs: Seq<SyntaxChild>, field: Seq<char>) -> int
    decreases cs.len(),
{
    if cs.len() == 0 {
        -1
    } else {
        let rest = first_with_field(cs.drop_first(), field);
        if labelled(cs[0], field) {
            0
        } else if rest >= 0 {
            rest + 1
        } else {
            -1
        }
    }
}

/// `first_with_field` is the least index of a child labelled `field`.
pub proof fn lemma_first_with_field(cs: Seq<SyntaxChild>, field: Seq<char>)
    ensures
        -1 <= first_with_field(cs, field) < cs.len(),
        first_with_field(cs, field) >= 0 ==> labelled(cs[first_with_field(cs, field)], field),
        forall|j: int|
            0 <= j < cs.len() && (j < first_with_field(cs, field) || first_with_field(cs, field)
                == -1) ==> !#[trigger] labelled(cs[j], field),
    decreases cs.len(),
{
    if cs.len() > 0 {
        lemma_first_with_field(cs.drop_first(), field);
        assert forall|j: int|
            0 <= j < cs.len() && (j < first_with_field(cs, field) || first_with_field(cs, field)
                == -1) implies !#[trigger] labelled(cs[j], field) by {
            if j > 0 {
                assert(cs[j] == cs.drop_first()[j - 1]);
            }
        }
    }
}

impl SyntaxNode {
    /// The kind of the node, as characters.
    pub open spec fn kind_is(&self, kind: Seq<char>) -> bool {
        self.kind@ == kind
    }

    /// The first child labelled `field`, as `child_by_field_name` finds it.
    pub open spec fn field_child(&self, field: Seq<char>) -> Option<SyntaxNode> {
        let i = first_with_field(self.children@, field);
        if i >= 0 {
            Some(self.children@[i].node)
        } else {
            None
        }
    }

    /// Every position in the tree is below `usize::MAX`, so that its
    /// one-based line and column numbers are `usize` values too.
    pub open spec fn positions_fit(&self) -> bool
        decreases self,
    {
        &&& self.start_row < usize::MAX
        &&& self.start_column < usize::MAX
        &&& self.end_row < usize::MAX
        &&& self.end_column < usize::MAX
        &&& forall|i: int|
            0 <= i < self.children@.len() ==> (#[trigger] self.children@[i]).node.positions_fit()
    }

    /// The text of every node of the tree, where it has one, is text of
    /// `source`.
    pub open spec fn texts_from(&self, source: Seq<u8>) -> bool
        decreases self,
    {
        &&& (self.text matches Some(t) ==> is_source_text(t@, source))
        &&& forall|i: int|
            0 <= i < self.children@.len() ==> (#[trigger] self.children@[i]).node.texts_from(source)
    }

    /// A node with these parts, when each of its positions is below
    /// `usize::MAX`; none otherwise.
    pub fn from_parts(
        kind: String,
        text: Option<String>,
        start_row: usize,
        start_column: usize,
        end_row: usize,
        end_column: usize,
        children: Vec<SyntaxChild>,
    ) -> (r: Option<SyntaxNode>)
        ensures
            r is Some <==> (start_row < usize::MAX && start_column < usize::MAX && end_row
                < usize::MAX && end_column < usize::MAX),
            r matches Some(n) ==> n.kind == kind && n.text == text && n.start_row == start_row
                && n.start_column == start_column && n.end_row == end_row && n.end_column
                == end_column && n.children == children,
    {
        if start_row == usize::MAX || start_column == usize::MAX || end_row == usize::MAX
            || end_column == usize::MAX {
            None
        } else {
            Some(SyntaxNode { kind, text, start_row, start_column, end_row, end_column, children })
        }
    }

    /// Whether the node has the kind `kind`.
    pub fn is_kind(&self, kind: &str) -> (r: bool)
        ensures
            r == (self.kind@ == kind@),
    {
        text_is(self.kind.as_str(), kind)
    }

    /// The number of children.
    pub fn child_count(&self) -> (r: usize)
        ensures
            r == self.children@.len(),
    {
        self.children.len()
    }

    /// The child at `i`.
    pub fn child(&self, i: usize) -> (r: &SyntaxNode)
        requires
            i < self.children@.len(),
        ensures
            *r == self.children@[i as int].node,
    {
        &self.children[i].node
    }

    /// The first child labelled `field`.
    pub fn child_by_field_name(&self, field: &str) -> (r: Option<&SyntaxNode>)
        ensures
            match r {
                Some(c) => self.field_child(field@) == Some(*c),
                None => self.field_child(field@) is None,
            },
    {
        let mut i: usize = 0;
        while i < self.children.len()
            invariant
                i <= self.children@.len(),
                forall|j: int| 0 <= j < i ==> !#[trigger] labelled(self.children@[j], field@),
            decreases self.children.len() - i,
        {
            let is_labelled = match &self.children[i].field {
                Some(f) => text_is(f.as_str(), field),
                None => false,
            };
            if is_labelled {
                proof {
                    lemma_first_with_field(self.children@, field@);
                }
                let ghost k = first_with_field(self.children@, field@);
                assert(labelled(self.children@[i as int], field@));
                assert(k == i);
                return Some(&self.children[i].node);
            }
            i += 1;
        }
        proof {
            lemma_first_with_field(self.children@, field@);
        }
        None
    }
}

} // verus!
