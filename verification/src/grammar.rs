//! The calls into tree-sitter: loading a grammar, parsing a source file,
//! compiling and running queries, and lowering the parser's nodes into
//! `SyntaxNode` values that the rest of the library reads.
//!
//! Verus sees nothing inside the tree-sitter types declared here. A node of
//! a parse is therefore addressed by its path from the root (the index of
//! each child taken on the way down), and what tree-sitter reports of the
//! node at a path is named below as a function of the language, the source
//! text and the path: the parse, and so each of these, depends on the three
//! alone.
use vstd::prelude::*;
use crate::language::SourceLanguage;
use crate::syntax::{SyntaxChild, SyntaxNode, is_source_text};
use tree_sitter::StreamingIterator;

verus! {

/// A tree-sitter grammar (`tree_sitter::Language`), held opaque.
#[verifier::external_type_specification]
#[verifier::external_body]
pub struct ExLanguage(tree_sitter::Language);

/// A grammar the parser refused (`tree_sitter::LanguageError`), held opaque.
#[verifier::external_type_specification]
#[verifier::external_body]
pub struct ExLanguageError(tree_sitter::LanguageError);

/// A tree-sitter parser (`tree_sitter::Parser`), held opaque.
#[verifier::external_type_specification]
#[verifier::external_body]
pub struct ExParser(tree_sitter::Parser);

/// A parsed syntax tree (`tree_sitter::Tree`), held opaque.
#[verifier::external_type_specification]
#[verifier::external_body]
pub struct ExTree(tree_sitter::Tree);

/// A node of a parsed tree (`tree_sitter::Node`), held opaque.
#[verifier::external_type_specification]
#[verifier::external_body]
pub struct ExNode<'tree>(tree_sitter::Node<'tree>);

/// A compiled tree-sitter query (`tree_sitter::Query`), held opaque.
#[verifier::external_type_specification]
#[verifier::external_body]
pub struct ExQuery(tree_sitter::Query);

/// A query tree-sitter refused to compile (`tree_sitter::QueryError`), held opaque.
#[verifier::external_type_specification]
#[verifier::external_body]
pub struct ExQueryError(tree_sitter::QueryError);

/// The grammar of one of the analyzer's languages, with the language it
/// parses. Only the functions below make one, each from the grammar crate of
/// its language.
pub struct Grammar {
    language: SourceLanguage,
    inner: tree_sitter::Language,
}

impl View for Grammar {
    type V = SourceLanguage;

    /// The language the grammar parses.
    closed spec fn view(&self) -> SourceLanguage {
        self.language
    }
}

impl Grammar {
    /// The language the grammar parses.
    pub fn language(&self) -> (r: SourceLanguage)
        ensures
            r == self@,
    {
        self.language
    }
}

/// The C++ grammar (`tree_sitter_cpp::LANGUAGE`), labelled as such.
#[verifier::external_body]
fn cpp_grammar() -> (r: Grammar)
    ensures
        r@ == SourceLanguage::Cpp,
{
    Grammar { language: SourceLanguage::Cpp, inner: tree_sitter_cpp::LANGUAGE.into() }
}

/// The Python grammar (`tree_sitter_python::LANGUAGE`), labelled as such.
#[verifier::external_body]
fn python_grammar() -> (r: Grammar)
    ensures
        r@ == SourceLanguage::Python,
{
    Grammar { language: SourceLanguage::Python, inner: tree_sitter_python::LANGUAGE.into() }
}

/// The tree-sitter grammar of a language.
pub fn grammar(language: SourceLanguage) -> (r: Grammar)
    ensures
        r@ == language,
{
    match language {
        SourceLanguage::Cpp => cpp_grammar(),
        SourceLanguage::Python => python_grammar(),
    }
}

/// A new parser with no grammar (`Parser::new`).
#[verifier::external_body]
fn new_parser() -> tree_sitter::Parser {
    tree_sitter::Parser::new()
}

/// Gives the parser a grammar (`Parser::set_language`). The call fails only
/// for a grammar whose ABI version lies outside the range this tree-sitter
/// reads (13 to 15); both bundled grammars are generated at version 14, so
/// it succeeds.
#[verifier::external_body]
fn set_language(parser: &mut tree_sitter::Parser, grammar: &Grammar) -> (r: Result<
    (),
    tree_sitter::LanguageError,
>)
    ensures
        r is Ok,
{
    parser.set_language(&grammar.inner)
}

/// A parser that has been given a grammar, and no timeout or cancellation
/// flag.
pub struct GrammarParser {
    language: SourceLanguage,
    parser: tree_sitter::Parser,
}

impl View for GrammarParser {
    type V = SourceLanguage;

    /// The language of the parser's grammar.
    closed spec fn view(&self) -> SourceLanguage {
        self.language
    }
}

/// A parser for the grammar.
pub fn grammar_parser(grammar: &Grammar) -> (r: GrammarParser)
    ensures
        r@ == grammar@,
{
    let mut parser = new_parser();
    let _ = set_language(&mut parser, grammar);
    GrammarParser { language: grammar.language(), parser }
}

/// A source text with its tree under the grammar of its language.
pub struct ParsedSource {
    language: SourceLanguage,
    text: String,
    tree: tree_sitter::Tree,
}

impl View for ParsedSource {
    type V = (SourceLanguage, Seq<char>);

    /// The language and the text that were parsed.
    closed spec fn view(&self) -> (SourceLanguage, Seq<char>) {
        (self.language, self.text@)
    }
}

/// Parses a whole source text (`Parser::parse` with no earlier tree) and
/// keeps the tree with the language and the text. The call gives no tree
/// only when the parser has no grammar, or when a timeout or a cancellation
/// flag stops it; a `GrammarParser` has a grammar and neither of the others,
/// so a tree comes back.
#[verifier::external_body]
fn parse_text(parser: &mut GrammarParser, source: &str) -> (r: Option<ParsedSource>)
    ensures
        final(parser)@ == old(parser)@,
        r matches Some(p) && p@ == (old(parser)@, source@),
{
    match parser.parser.parse(source, None) {
        Some(tree) => Some(ParsedSource { language: parser.language, text: source.to_string(), tree }),
        None => None,
    }
}

/// The tree of `source` under the grammar.
pub fn parse_source(grammar: &Grammar, source: &str) -> (r: ParsedSource)
    ensures
        r@ == (grammar@, source@),
{
    let mut parser = grammar_parser(grammar);
    match parse_text(&mut parser, source) {
        Some(parsed) => parsed,
        None => vstd::pervasive::unreached(),
    }
}

/// The kind of the node at `path` in the parse of `source` under the grammar
/// of `language` (`Node::kind`).
pub uninterp spec fn kind_at(language: SourceLanguage, source: Seq<char>, path: Seq<usize>) -> Seq<char>;

/// The number of children of the node at `path` (`Node::child_count`).
pub uninterp spec fn child_count_at(language: SourceLanguage, source: Seq<char>, path: Seq<usize>) -> nat;

/// The field name that labels child `i` of the node at `path`
/// (`Node::field_name_for_child`).
pub uninterp spec fn child_field_at(
    language: SourceLanguage,
    source: Seq<char>,
    path: Seq<usize>,
    i: nat,
) -> Option<Seq<char>>;

/// The zero-based row and column where the node at `path` starts
/// (`Node::start_position`).
pub uninterp spec fn start_at(language: SourceLanguage, source: Seq<char>, path: Seq<usize>) -> (usize, usize);

/// The zero-based row and column where the node at `path` ends
/// (`Node::end_position`).
pub uninterp spec fn end_at(language: SourceLanguage, source: Seq<char>, path: Seq<usize>) -> (usize, usize);

/// The byte offset where the node at `path` starts (`Node::start_byte`).
pub uninterp spec fn start_byte_at(language: SourceLanguage, source: Seq<char>, path: Seq<usize>) -> usize;

/// The byte offset where the node at `path` ends (`Node::end_byte`).
pub uninterp spec fn end_byte_at(language: SourceLanguage, source: Seq<char>, path: Seq<usize>) -> usize;

/// The number of nodes in the subtree at `path`, its root included
/// (`Node::descendant_count`).
pub uninterp spec fn descendant_count_at(
    language: SourceLanguage,
    source: Seq<char>,
    path: Seq<usize>,
) -> usize;

/// A node of a parsed source. Its path from the root is known for the root
/// and the nodes reached from it child by child; a node that a query
/// captured has none.
pub struct SourceNode<'p, 't> {
    parsed: &'p ParsedSource,
    path: Option<Vec<usize>>,
    node: tree_sitter::Node<'t>,
}

impl<'p, 't> View for SourceNode<'p, 't> {
    type V = (SourceLanguage, Seq<char>, Option<Seq<usize>>);

    /// The language and text of the parse, and the node's path if known.
    closed spec fn view(&self) -> (SourceLanguage, Seq<char>, Option<Seq<usize>>) {
        (
            self.parsed@.0,
            self.parsed@.1,
            match self.path {
                Some(p) => Some(p@),
                None => None,
            },
        )
    }
}

/// The root node of a parsed source (`Tree::root_node`), at the empty path.
#[verifier::external_body]
fn root_of<'t>(parsed: &'t ParsedSource) -> (r: SourceNode<'t, 't>)
    ensures
        r@ == (parsed@.0, parsed@.1, Some(Seq::<usize>::empty())),
{
    SourceNode { parsed, path: Some(Vec::new()), node: parsed.tree.root_node() }
}

impl ParsedSource {
    /// The root node of the tree.
    pub fn root(&self) -> (r: SourceNode<'_, '_>)
        ensures
            r@ == (self@.0, self@.1, Some(Seq::<usize>::empty())),
    {
        root_of(self)
    }

    /// The text that was parsed.
    pub fn text(&self) -> (r: &str)
        ensures
            r@ == self@.1,
    {
        self.text.as_str()
    }
}

/// The child at `i` (`Node::child`), which is there for every `i` below
/// the child count (stated where the count is known, at a known path);
/// `path` is its path when the node's is known, the node's own followed by
/// `i`.
#[verifier::external_body]
fn child_of<'p, 't>(node: &SourceNode<'p, 't>, i: usize, path: Option<Vec<usize>>) -> (r: Option<SourceNode<'p, 't>>)
    requires
        i < u32::MAX,
        match node@.2 {
            Some(p) => i < child_count_at(node@.0, node@.1, p) && (path matches Some(q) && q@
                == p.push(i)),
            None => path is None,
        },
    ensures
        node@.2 is Some ==> r is Some,
        r matches Some(c) ==> c@.0 == node@.0 && c@.1 == node@.1,
        r matches Some(c) ==> (c@.2 is Some <==> path is Some),
        r matches Some(c) ==> (path matches Some(q) ==> c@.2 == Some(q@)),
{
    match node.node.child(i) {
        Some(c) => Some(SourceNode { parsed: node.parsed, path, node: c }),
        None => None,
    }
}

/// The grammar's name for a node's kind (`Node::kind`).
#[verifier::external_body]
fn node_kind(node: &SourceNode) -> (r: &'static str)
    ensures
        node@.2 matches Some(p) ==> r@ == kind_at(node@.0, node@.1, p),
{
    node.node.kind()
}

/// The number of children of a node (`Node::child_count`); the parser
/// counts them in 32 bits.
#[verifier::external_body]
fn node_child_count(node: &SourceNode) -> (r: usize)
    ensures
        r <= u32::MAX,
        node@.2 matches Some(p) ==> r == child_count_at(node@.0, node@.1, p),
{
    node.node.child_count()
}

/// The field name that labels the child at `i` (`Node::field_name_for_child`).
#[verifier::external_body]
fn node_field_name(node: &SourceNode, i: u32) -> (r: Option<&'static str>)
    ensures
        node@.2 matches Some(p) ==> match r {
            Some(f) => child_field_at(node@.0, node@.1, p, i as nat) == Some(f@),
            None => child_field_at(node@.0, node@.1, p, i as nat) is None,
        },
{
    node.node.field_name_for_child(i)
}

/// The zero-based row and column where the node starts (`Node::start_position`).
#[verifier::external_body]
fn node_start(node: &SourceNode) -> (r: (usize, usize))
    ensures
        node@.2 matches Some(p) ==> r == start_at(node@.0, node@.1, p),
{
    let p = node.node.start_position();
    (p.row, p.column)
}

/// The zero-based row and column where the node ends (`Node::end_position`).
#[verifier::external_body]
fn node_end(node: &SourceNode) -> (r: (usize, usize))
    ensures
        node@.2 matches Some(p) ==> r == end_at(node@.0, node@.1, p),
{
    let p = node.node.end_position();
    (p.row, p.column)
}

/// The byte offset where the node starts in the source (`Node::start_byte`).
#[verifier::external_body]
fn node_start_byte(node: &SourceNode) -> (r: usize)
    ensures
        node@.2 matches Some(p) ==> r == start_byte_at(node@.0, node@.1, p),
{
    node.node.start_byte()
}

/// The byte offset where the node ends in the source (`Node::end_byte`).
#[verifier::external_body]
fn node_end_byte(node: &SourceNode) -> (r: usize)
    ensures
        node@.2 matches Some(p) ==> r == end_byte_at(node@.0, node@.1, p),
{
    node.node.end_byte()
}

/// The number of nodes in the subtree of a node, itself included
/// (`Node::descendant_count`).
#[verifier::external_body]
fn node_descendant_count(node: &SourceNode) -> (r: usize)
    ensures
        node@.2 matches Some(p) ==> r == descendant_count_at(node@.0, node@.1, p),
{
    node.node.descendant_count()
}

/// The characters that the bytes encode, when they are valid UTF-8
/// (`std::str::from_utf8`, which accepts exactly the valid encodings).
#[verifier::external_body]
fn decode_utf8(bytes: &[u8]) -> (r: Option<String>)
    ensures
        r is Some <==> vstd::utf8::valid_utf8(bytes@),
        r matches Some(s) ==> s@ == vstd::utf8::decode_utf8(bytes@),
{
    std::str::from_utf8(bytes).ok().map(|t| t.to_string())
}

/// The text of the node at `path`: the decoding of its byte range of the
/// source, when the range lies within the source and holds valid UTF-8.
pub open spec fn text_at(language: SourceLanguage, source: Seq<char>, path: Seq<usize>) -> Option<
    Seq<char>,
> {
    let bytes = vstd::utf8::encode_utf8(source);
    let a = start_byte_at(language, source, path) as int;
    let b = end_byte_at(language, source, path) as int;
    if a <= b <= bytes.len() && vstd::utf8::valid_utf8(bytes.subrange(a, b)) {
        Some(vstd::utf8::decode_utf8(bytes.subrange(a, b)))
    } else {
        None
    }
}

/// The node's text when its byte range lies within the source and holds
/// valid UTF-8: the decoding of a range of the source.
fn node_text(node: &SourceNode) -> (r: Option<String>)
    ensures
        r matches Some(s) ==> is_source_text(s@, vstd::utf8::encode_utf8(node@.1)),
        node@.2 matches Some(p) ==> match r {
            Some(s) => text_at(node@.0, node@.1, p) == Some(s@),
            None => text_at(node@.0, node@.1, p) is None,
        },
{
    let source = node.parsed.text.as_str().as_bytes();
    let start = node_start_byte(node);
    let end = node_end_byte(node);
    if start <= end && end <= source.len() {
        let bytes = vstd::slice::slice_subrange(source, start, end);
        let r = decode_utf8(bytes);
        proof {
            if r is Some {
                assert(source@.subrange(start as int, end as int) == bytes@);
            }
        }
        r
    } else {
        None
    }
}

/// `n` is the node at `path` of the parse of `source` under the grammar of
/// `language`, lowered at most `depth` levels below it: the same kind, text
/// and positions, and as many children, each with the field name that
/// labels it and itself the lowering of the child at its path.
pub open spec fn lowered_as(
    n: SyntaxNode,
    language: SourceLanguage,
    source: Seq<char>,
    path: Seq<usize>,
    depth: nat,
) -> bool
    decreases depth,
{
    &&& n.kind@ == kind_at(language, source, path)
    &&& match n.text {
        Some(t) => text_at(language, source, path) == Some(t@),
        None => text_at(language, source, path) is None,
    }
    &&& (n.start_row, n.start_column) == start_at(language, source, path)
    &&& (n.end_row, n.end_column) == end_at(language, source, path)
    &&& n.children@.len() == child_count_at(language, source, path)
    &&& (n.children@.len() > 0 ==> depth > 0)
    &&& forall|i: int|
        0 <= i < n.children@.len() ==> {
            &&& match (#[trigger] n.children@[i]).field {
                Some(f) => child_field_at(language, source, path, i as nat) == Some(f@),
                None => child_field_at(language, source, path, i as nat) is None,
            }
            &&& (depth > 0 ==> lowered_as(
                n.children@[i].node,
                language,
                source,
                path.push(i as usize),
                (depth - 1) as nat,
            ))
        }
}

/// The subtree at `path` can be lowered within `depth` levels: no node in
/// it lies deeper, and none has a position equal to `usize::MAX`.
pub open spec fn lowerable(language: SourceLanguage, source: Seq<char>, path: Seq<usize>, depth: nat) -> bool
    decreases depth,
{
    &&& start_at(language, source, path).0 < usize::MAX
    &&& start_at(language, source, path).1 < usize::MAX
    &&& end_at(language, source, path).0 < usize::MAX
    &&& end_at(language, source, path).1 < usize::MAX
    &&& (child_count_at(language, source, path) > 0 ==> depth > 0)
    &&& forall|i: usize|
        #![trigger path.push(i)]
        i < child_count_at(language, source, path) ==> (depth > 0 ==> lowerable(
            language,
            source,
            path.push(i),
            (depth - 1) as nat,
        ))
}

/// A lowerable subtree has lowerable children one level less deep.
proof fn lemma_lowerable_child(
    language: SourceLanguage,
    source: Seq<char>,
    path: Seq<usize>,
    depth: nat,
    i: usize,
)
    requires
        lowerable(language, source, path, depth),
        i < child_count_at(language, source, path),
        depth > 0,
    ensures
        lowerable(language, source, path.push(i), (depth - 1) as nat),
{
}

/// The subtree under `node` as a `SyntaxNode`, at most `depth` levels deep
/// below it; `None` when it is deeper, or when a position is `usize::MAX`.
fn lower_node(node: &SourceNode, depth: usize) -> (r: Option<SyntaxNode>)
    ensures
        r matches Some(n) ==> n.positions_fit() && n.texts_from(vstd::utf8::encode_utf8(node@.1)),
        node@.2 matches Some(p) ==> (r is Some <==> lowerable(node@.0, node@.1, p, depth as nat)),
        node@.2 matches Some(p) ==> (r matches Some(n) ==> lowered_as(
            n,
            node@.0,
            node@.1,
            p,
            depth as nat,
        )),
    decreases depth,
{
    let ghost lang = node@.0;
    let ghost src = node@.1;
    let ghost bytes = vstd::utf8::encode_utf8(src);
    let (start_row, start_column) = node_start(node);
    let (end_row, end_column) = node_end(node);
    let count = node_child_count(node);
    let mut children: Vec<SyntaxChild> = Vec::new();
    let mut i: usize = 0;
    while i < count
        invariant
            i <= count <= u32::MAX,
            node@.2 matches Some(p) ==> count == child_count_at(lang, src, p),
            lang == node@.0,
            src == node@.1,
            bytes == vstd::utf8::encode_utf8(src),
            children@.len() == i,
            i > 0 ==> depth > 0,
            forall|j: int| 0 <= j < children@.len() ==> (#[trigger] children@[j]).node.positions_fit(),
            forall|j: int|
                0 <= j < children@.len() ==> (#[trigger] children@[j]).node.texts_from(bytes),
            node@.2 matches Some(p) ==> forall|j: int|
                0 <= j < children@.len() ==> {
                    &&& match (#[trigger] children@[j]).field {
                        Some(f) => child_field_at(lang, src, p, j as nat) == Some(f@),
                        None => child_field_at(lang, src, p, j as nat) is None,
                    }
                    &&& lowered_as(
                        children@[j].node,
                        lang,
                        src,
                        p.push(j as usize),
                        (depth as nat - 1) as nat,
                    )
                    &&& lowerable(lang, src, p.push(j as usize), (depth as nat - 1) as nat)
                },
        decreases count - i,
    {
        if depth == 0 {
            return None;
        }
        let path = match &node.path {
            Some(p) => {
                let mut q = p.clone();
                q.push(i);
                Some(q)
            },
            None => None,
        };
        let child = match child_of(node, i, path) {
            Some(c) => c,
            None => {
                return None;
            },
        };
        let field = match node_field_name(node, i as u32) {
            Some(f) => Some(String::from_str(f)),
            None => None,
        };
        match lower_node(&child, depth - 1) {
            Some(lowered) => {
                let ghost before = children@;
                children.push(SyntaxChild { field, node: lowered });
                proof {
                    assert(children@[i as int].node == lowered);
                    assert forall|j: int| 0 <= j < i implies children@[j] == before[j] by {}
                }
            },
            None => {
                proof {
                    if let Some(p) = node@.2 {
                        assert(child@.2 == Some(p.push(i)));
                        assert(!lowerable(lang, src, p.push(i), (depth as nat - 1) as nat));
                        assert(p.push(i) == p.push((i as int) as usize));
                        if lowerable(lang, src, p, depth as nat) {
                            let dd: nat = depth as nat;
                            assert(lowerable(lang, src, p, dd));
                            assert(dd > 0);
                            assert(i < child_count_at(lang, src, p));
                            lemma_lowerable_child(lang, src, p, dd, i);
                        }
                    }
                }
                return None;
            },
        }
        i += 1;
    }
    proof {
        if let Some(p) = node@.2 {
            assert forall|j: usize|
                #![trigger p.push(j)]
                j < child_count_at(lang, src, p) implies (depth > 0 ==> lowerable(
                lang,
                src,
                p.push(j),
                (depth as nat - 1) as nat,
            )) by {
                let c = children@[j as int];
                assert(lowerable(lang, src, p.push((j as int) as usize), (depth as nat - 1) as nat));
            }
        }
    }
    let text = node_text(node);
    let kind = String::from_str(node_kind(node));
    let r = SyntaxNode::from_parts(kind, text, start_row, start_column, end_row, end_column, children);
    r
}

/// The subtree under `node` as a `SyntaxNode`, with each node's text taken
/// from the source. A subtree's depth is below its number of nodes, so the
/// depth bound does not cut it short; `None` comes only from a position equal
/// to `usize::MAX`, which 32-bit parser positions reach on 32-bit targets
/// alone. For a node at a known path, the result is the lowering of the
/// subtree at that path, and there is one exactly when it can be lowered.
pub fn lower_tree(node: &SourceNode) -> (r: Option<SyntaxNode>)
    ensures
        r matches Some(n) ==> n.positions_fit() && n.texts_from(vstd::utf8::encode_utf8(node@.1)),
        node@.2 matches Some(p) ==> (r is Some <==> lowerable(
            node@.0,
            node@.1,
            p,
            descendant_count_at(node@.0, node@.1, p) as nat,
        )),
        node@.2 matches Some(p) ==> (r matches Some(n) ==> lowered_as(
            n,
            node@.0,
            node@.1,
            p,
            descendant_count_at(node@.0, node@.1, p) as nat,
        )),
{
    lower_node(node, node_descendant_count(node))
}

/// Whether tree-sitter compiles the query text for the grammar of the
/// language: the outcome of `Query::new`, which depends on the two alone.
pub uninterp spec fn query_compiles(language: SourceLanguage, query: Seq<char>) -> bool;

/// A query compiled for the grammar of a language, with the language and the
/// query's text. Only `compile_query` makes one.
pub struct CompiledQuery {
    language: SourceLanguage,
    text: String,
    inner: tree_sitter::Query,
}

impl View for CompiledQuery {
    type V = (SourceLanguage, Seq<char>);

    /// The language whose grammar the query was compiled for, and its text.
    closed spec fn view(&self) -> (SourceLanguage, Seq<char>) {
        (self.language, self.text@)
    }
}

impl CompiledQuery {
    /// The query's text.
    pub fn text(&self) -> (r: &str)
        ensures
            r@ == self@.1,
    {
        self.text.as_str()
    }

    /// The language whose grammar the query was compiled for.
    pub fn language(&self) -> (r: SourceLanguage)
        ensures
            r == self@.0,
    {
        self.language
    }
}

/// Compiles a query in tree-sitter's pattern language for a grammar
/// (`Query::new`); it succeeds exactly when `query_compiles` holds of the
/// grammar's language and the text, and keeps both with the query.
#[verifier::external_body]
pub(crate) fn compile_query(grammar: &Grammar, source: &str) -> (r: Result<
    CompiledQuery,
    tree_sitter::QueryError,
>)
    ensures
        r is Ok <==> query_compiles(grammar@, source@),
        r matches Ok(q) ==> q@ == (grammar@, source@),
{
    match tree_sitter::Query::new(&grammar.inner, source) {
        Ok(inner) => Ok(CompiledQuery { language: grammar.language, text: source.to_string(), inner }),
        Err(e) => Err(e),
    }
}

/// A node that a query captured, as tree-sitter reports it: the capture's
/// name in the query, the node's kind, and its zero-based start and end
/// rows and columns.
pub struct QueryCapture {
    pub name: String,
    pub kind: String,
    pub start_row: usize,
    pub start_column: usize,
    pub end_row: usize,
    pub end_column: usize,
}

/// The model of a capture: name, kind, start row, start column, end row,
/// end column.
pub type CaptureModel = (Seq<char>, Seq<char>, usize, usize, usize, usize);

impl View for QueryCapture {
    type V = CaptureModel;

    open spec fn view(&self) -> CaptureModel {
        (
            self.name@,
            self.kind@,
            self.start_row,
            self.start_column,
            self.end_row,
            self.end_column,
        )
    }
}

/// The matches that a query finds in a whole parse, in the order
/// tree-sitter's query cursor yields them, each as its captures: the query's
/// text compiled for the grammar of `query_language`, run over the root of
/// the parse of `source` under the grammar of `language`
/// (`QueryCursor::matches`, with the source's bytes for text predicates).
pub uninterp spec fn query_captures(
    language: SourceLanguage,
    source: Seq<char>,
    query_language: SourceLanguage,
    query: Seq<char>,
) -> Seq<Seq<CaptureModel>>;

/// The models of the captures of each match.
pub open spec fn captures_model(v: Seq<Vec<QueryCapture>>) -> Seq<Seq<CaptureModel>> {
    v.map_values(|m: Vec<QueryCapture>| m@.map_values(|c: QueryCapture| c@))
}

/// The matches of a query over a whole parse, each as its captures, in the
/// order tree-sitter's query cursor yields them (`QueryCursor::matches`):
/// what `query_captures` names. Text predicates read the parsed source, in
/// whose bytes every node's range lies.
#[verifier::external_body]
pub(crate) fn query_matches(query: &CompiledQuery, root: &SourceNode) -> (r: Vec<Vec<QueryCapture>>)
    requires
        root@.2 == Some(Seq::<usize>::empty()),
    ensures
        captures_model(r@) == query_captures(root@.0, root@.1, query@.0, query@.1),
{
    let names = query.inner.capture_names();
    let mut cursor = tree_sitter::QueryCursor::new();
    let mut matches = cursor.matches(&query.inner, root.node, root.parsed.text.as_bytes());
    let mut found = Vec::new();
    while let Some(m) = matches.next() {
        found.push(m.captures.iter().map(|c| {
            let (s, e) = (c.node.start_position(), c.node.end_position());
            let name = names[c.index as usize].to_string();
            QueryCapture { name, kind: c.node.kind().to_string(), start_row: s.row, start_column: s.column, end_row: e.row, end_column: e.column }
        }).collect());
    }
    found
}

} // verus!
