//! The first analysis pass: building the symbol table of a source file.
use vstd::prelude::*;
use crate::language::{SourceLanguage, is_cpp_extension, source_language};
use crate::symbol_table::{SymbolTable, VariableModel};
use crate::syntax::SyntaxNode;
use self::cpp::{TableModel, apply_events, node_events, table_model};

pub mod cpp;

verus! {

/// The model of a table holding only an empty global scope and an empty
/// registry.
pub open spec fn empty_table() -> TableModel {
    (
        seq![Map::<Seq<char>, VariableModel>::empty()],
        seq![Map::<Seq<char>, Seq<char>>::empty()],
        Map::<Seq<char>, VariableModel>::empty(),
    )
}

/// The model of the symbol table of a file with this tree and extension:
/// for a C++ file, the empty table after the tree's events; else empty.
pub open spec fn built_table(root: SyntaxNode, extension: Seq<char>) -> TableModel {
    if is_cpp_extension(extension) {
        apply_events(empty_table(), node_events(root))
    } else {
        empty_table()
    }
}

/// The symbol table of a source file with this extension: for a C++ file,
/// the table after the walk over its tree, whose global scope holds what is
/// declared outside any block and whose registry holds every declaration and
/// assignment; for any other file, an empty table.
pub fn build_symbol_table(root_node: &SyntaxNode, extension: &str) -> (r: SymbolTable)
    requires
        root_node.positions_fit(),
    ensures
        r.wf(),
        r.depth() == 1,
        table_model(r) == built_table(*root_node, extension@),
{
    let mut table = SymbolTable::new();
    proof {
        table.lemma_has_scope();
    }
    match source_language(extension) {
        Some(SourceLanguage::Cpp) => {
            cpp::walk_ast(root_node, &mut table);
        },
        _ => {},
    }
    table
}

} // verus!
