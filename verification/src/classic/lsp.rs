//! What the classic language server computes: the completions it offers and
//! the diagnosis of a document.
use vstd::prelude::*;
use crate::classic::grammar::c_module;
use crate::classic::parser::{ParseError, Parser, err_agrees};
use crate::classic::sema::{Analyzer, SemaError, cs_module, view_sema_error};
use crate::text::string_of_lit;

verus! {

/// The completions the classic server offers: label and detail.
pub open spec fn completion_list() -> Seq<(Seq<char>, Seq<char>)> {
    seq![
        ("fn"@, "Function definition"@),
        ("actor"@, "Actor definition"@),
        ("trait"@, "Trait definition"@),
        ("@matmul"@, "Matrix Multiplication"@),
    ]
}

fn push_item(v: &mut Vec<(std::string::String, std::string::String)>, label: &str, detail: &str)
    ensures
        final(v)@ == old(v)@.push((final(v)@.last().0, final(v)@.last().1)),
        final(v)@.last().0@ == label@,
        final(v)@.last().1@ == detail@,
{
    v.push((string_of_lit(label), string_of_lit(detail)));
}

/// The completions, in order.
pub fn completion_items() -> (r: Vec<(std::string::String, std::string::String)>)
    ensures
        r@.len() == completion_list().len(),
        forall|i: int| 0 <= i < r@.len() ==> (#[trigger] r@[i]).0@ == completion_list()[i].0 && r@[i].1@ == completion_list()[i].1,
{
    let mut v: Vec<(std::string::String, std::string::String)> = Vec::new();
    push_item(&mut v, "fn", "Function definition");
    push_item(&mut v, "actor", "Actor definition");
    push_item(&mut v, "trait", "Trait definition");
    push_item(&mut v, "@matmul", "Matrix Multiplication");
    v
}

/// What is wrong with a document: it does not parse, or its analysis fails.
#[derive(Debug)]
pub enum Diagnosis {
    Parse(ParseError),
    Sema(SemaError),
}

/// Parses the document that `parser` reads and analyzes it with a new
/// analyzer: the parse error, else the analysis error, else nothing.
pub fn diagnose(parser: &mut Parser) -> (r: Option<Diagnosis>)
    requires
        old(parser).wf(),
        !old(parser).aborts(),
    ensures
        match c_module(old(parser).tokens(), old(parser).source(), old(parser).position()) {
            Err(e) => r matches Some(Diagnosis::Parse(pe)) && err_agrees(pe, e),
            Ok((m, _)) => match cs_module(Analyzer::new_state(), m).1 {
                Some(e) => r matches Some(Diagnosis::Sema(se)) && view_sema_error(se) == e,
                None => r is None,
            },
        },
{
    match parser.parse_module() {
        Ok(module) => {
            let mut analyzer = Analyzer::new();
            match analyzer.analyze_module(&module) {
                Ok(()) => None,
                Err(e) => Some(Diagnosis::Sema(e)),
            }
        },
        Err(e) => Some(Diagnosis::Parse(e)),
    }
}

} // verus!
