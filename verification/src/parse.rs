//! The parsing boundary. The library consumes a parsed module only through
//! `RawDecl`: the dependency-relevant shape of one top-level declaration.
//! Producing that shape from source text is delegated to the swc parser
//! behind trusted wrappers; everything downstream of `RawDecl` is verified.
use vstd::prelude::*;

use swc_common::BytePos;
use swc_ecma_parser::{EsSyntax, Lexer, Parser, StringInput, Syntax, TsSyntax};

verus! {

/// The dependency-relevant shape of one top-level declaration of a module:
/// an import with its source specifier, a re-export-all with its specifier,
/// a named export with its optional specifier, or any other item, which
/// contributes no dependency edge.
pub enum RawDecl {
    Import { specifier: String },
    ExportAll { specifier: String },
    ExportNamed { specifier: Option<String> },
    Other,
}

/// The mathematical shape of a `RawDecl`.
pub ghost enum RawDeclView {
    Import { specifier: Seq<char> },
    ExportAll { specifier: Seq<char> },
    ExportNamed { specifier: Option<Seq<char>> },
    Other,
}

impl DeepView for RawDecl {
    type V = RawDeclView;

    open spec fn deep_view(&self) -> RawDeclView {
        match self {
            RawDecl::Import { specifier } => RawDeclView::Import { specifier: specifier@ },
            RawDecl::ExportAll { specifier } => RawDeclView::ExportAll { specifier: specifier@ },
            RawDecl::ExportNamed { specifier } => RawDeclView::ExportNamed {
                specifier: match specifier {
                    Some(s) => Some(s@),
                    None => None,
                },
            },
            RawDecl::Other => RawDeclView::Other,
        }
    }
}

/// What parsing a source text under a given dialect yields: the sequence of
/// top-level declaration shapes, or nothing when the text does not parse.
/// Parsing is a function of the text and the dialect alone.
pub uninterp spec fn parsed_decls(src: Seq<char>, typescript: bool, jsx: bool) -> Option<
    Seq<RawDeclView>,
>;

#[verifier::external_type_specification]
#[verifier::external_body]
pub struct ExModuleItem(swc_ecma_ast::ModuleItem);

/// Relies on swc_ecma_ast's `ModuleItem` shape: one arm per declaration form,
/// moving the source specifier string out and nothing else.
#[verifier::external_body]
fn convert_item(item: swc_ecma_ast::ModuleItem) -> RawDecl {
    match item {
        swc_ecma_ast::ModuleItem::ModuleDecl(swc_ecma_ast::ModuleDecl::Import(i)) => {
            RawDecl::Import { specifier: i.src.value.to_string_lossy().into_owned() }
        },
        swc_ecma_ast::ModuleItem::ModuleDecl(swc_ecma_ast::ModuleDecl::ExportAll(e)) => {
            RawDecl::ExportAll { specifier: e.src.value.to_string_lossy().into_owned() }
        },
        swc_ecma_ast::ModuleItem::ModuleDecl(swc_ecma_ast::ModuleDecl::ExportNamed(e)) => {
            RawDecl::ExportNamed { specifier: e.src.map(|s| s.value.to_string_lossy().into_owned()) }
        },
        _ => RawDecl::Other,
    }
}

/// The source is short enough for the parser's 32-bit byte positions: a
/// character encodes to at most four UTF-8 bytes, so a text under 2^30
/// characters stays under 2^32 bytes and no position computation can wrap.
pub open spec fn fits_parser_input(s: Seq<char>) -> bool {
    s.len() < 0x4000_0000
}

/// Relies on swc_ecma_parser's `Parser::parse_module`: parsing a source
/// string under a fixed dialect depends on the text and dialect alone, so its
/// outcome is named by `parsed_decls`. Returns `None` exactly when the parser
/// reports a fatal error. The length bound keeps the `BytePos` arithmetic
/// below `u32::MAX`, so the input construction cannot panic.
#[verifier::external_body]
pub fn parse_em(source: &str, typescript: bool, jsx: bool) -> (r: Option<Vec<RawDecl>>)
    requires
        fits_parser_input(source@),
    ensures
        match r {
            Some(v) => parsed_decls(source@, typescript, jsx) == Some(v.deep_view()),
            None => parsed_decls(source@, typescript, jsx) is None,
        },
{
    let syntax = if typescript {
        Syntax::Typescript(TsSyntax { tsx: true, ..Default::default() })
    } else {
        Syntax::Es(EsSyntax { jsx, ..Default::default() })
    };
    let input = StringInput::new(source, BytePos(1), BytePos(source.len() as u32 + 1));
    let lexer = Lexer::new(syntax, Default::default(), input, None);
    let mut parser = Parser::new_from(lexer);
    match parser.parse_module() {
        Ok(m) => Some(m.body.into_iter().map(convert_item).collect()),
        Err(_) => None,
    }
}

} // verus!
