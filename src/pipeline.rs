use vstd::prelude::*;
use crate::ast::{Statement, models};
use crate::parser::{ParseError, Parser, error_text, program, program_items};
use crate::runtime::{ExprEvaluator, FloatArith, HostAnswer, World, extends, interpret_items};
use crate::scanner::{TokenModel, scan, scan_tokens};
use crate::text::{push_str, string_of};
use crate::token::{Token, TokenType};

verus! {

/// Whether tokens of kind `k` are dropped before parsing.
pub open spec fn is_trivia(k: TokenType) -> bool {
    k == TokenType::Whitespace || k == TokenType::Newline || k == TokenType::Comment
}

/// The tokens of `ts` that are not trivia, in order.
pub open spec fn significant(ts: Seq<Token>) -> Seq<Token>
    decreases ts.len(),
{
    if ts.len() == 0 {
        Seq::empty()
    } else if is_trivia(ts.last().token_type) {
        significant(ts.drop_last())
    } else {
        significant(ts.drop_last()).push(ts.last())
    }
}

/// The tokens that are not whitespace, newlines or comments, in order.
pub fn significant_tokens(tokens: Vec<Token>) -> (r: Vec<Token>)
    ensures
        r@ == significant(tokens@),
{
    let mut r: Vec<Token> = Vec::new();
    let mut i: usize = 0;
    while i < tokens.len()
        invariant
            i <= tokens@.len(),
            r@ == significant(tokens@.subrange(0, i as int)),
        decreases tokens@.len() - i,
    {
        assert(tokens@.subrange(0, i as int + 1).drop_last() =~= tokens@.subrange(0, i as int));
        let k = tokens[i].token_type;
        if !(k == TokenType::Whitespace || k == TokenType::Newline || k == TokenType::Comment) {
            r.push(tokens[i].duplicate());
        }
        i = i + 1;
    }
    assert(tokens@.subrange(0, i as int) =~= tokens@);
    r
}

/// Parses scanned tokens, trivia dropped first.
pub fn parse_tokens(tokens: Vec<Token>) -> (r: Result<Vec<Statement>, ParseError>)
    ensures
        match program(significant(tokens@)) {
            Ok(items) => r is Ok && models(r->Ok_0@) == items,
            Err(f) => r is Err && r->Err_0.message@ == error_text(significant(tokens@), f),
        },
{
    let mut parser = Parser::new(significant_tokens(tokens));
    parser.parse()
}

/// The tokens as mathematical values.
pub open spec fn token_models(ts: Seq<Token>) -> Seq<TokenModel> {
    ts.map_values(|t: Token| t@)
}

/// The line that reports a parse error.
pub open spec fn parse_error_line(m: Seq<char>) -> Seq<char> {
    "Error parsing: "@ + m
}

/// What running `ts`, the tokens of a source text, does to `w`, the host's
/// answers read from `log` at `p`: the statements run where the program
/// parses, else the error is reported and nothing runs.
pub open spec fn run_outcome(w: World, ts: Seq<Token>, log: Seq<HostAnswer>, p: int) -> (World, int) {
    match program(significant(ts)) {
        Ok(items) => interpret_items(w, items, 0, log, p),
        Err(f) => (
            World { scopes: w.scopes, output: w.output.push(parse_error_line(error_text(significant(ts), f))) },
            p,
        ),
    }
}

/// What running `ts` did, whatever answers the host gives later.
pub open spec fn ran<F: FloatArith>(old_e: ExprEvaluator<F>, ts: Seq<Token>, new_e: ExprEvaluator<F>) -> bool {
    &&& extends(new_e.log(), old_e.log())
    &&& forall|log: Seq<HostAnswer>| #[trigger] extends(log, new_e.log())
        ==> run_outcome(old_e.world(), ts, log, old_e.log().len() as int)
            == (new_e.world(), new_e.log().len() as int)
}

/// Scans, parses and runs a source text; a parse error is reported as a
/// line of output and nothing runs.
pub fn run<F: FloatArith>(evaluator: &mut ExprEvaluator<F>, source: &String)
    requires
        old(evaluator).wf(),
        source@.len() < u32::MAX,
    ensures
        final(evaluator).wf(),
        final(evaluator).world().scopes.len() == old(evaluator).world().scopes.len(),
        exists|ts: Seq<Token>| #[trigger] token_models(ts) == scan(source@) && ran(*old(evaluator), ts, *final(evaluator)),
{
    let tokens = scan_tokens(source);
    let ghost ts = tokens@;
    match parse_tokens(tokens) {
        Ok(statements) => evaluator.interpret(&statements),
        Err(err) => {
            let mut m: Vec<char> = Vec::new();
            push_str(&mut m, "Error parsing: ");
            push_str(&mut m, err.message.as_str());
            assert(m@ =~= parse_error_line(err.message@));
            evaluator.report(string_of(&m));
            assert(extends(evaluator.log(), old(evaluator).log()));
        },
    }
    assert(token_models(ts) == scan(source@));
    assert(ran(*old(evaluator), ts, *evaluator));
}

} // verus!
