//! The recursive-descent parser.
//!
//! `build` consumes tokens from the front of the stream and produces the
//! expression nodes of one block.  `repeat` and `to` open nested blocks:
//! their opener is pushed on the matching stack and the body is parsed by a
//! recursive call, which returns when the matching closer (`]` or `end`)
//! pops the stack, or when the input runs out.  A closer that finds the
//! stack empty, or an opener of the wrong kind on top, is an unmatched
//! closer; a stack left non-empty once all tokens are consumed signals an
//! unclosed block.

use vstd::prelude::*;
use std::collections::VecDeque;
use crate::token::{Token, TokenModel};
use crate::token::token_eq;
use crate::ast::{Expression, ExprModel};
use crate::ast::{expr_model, exprs_model, lemma_exprs_deep_view};

verus! {

/// Why a parse was refused.
#[derive(Debug, PartialEq, Eq, Structural, Clone, Copy)]
pub enum ParseError {
    /// A token appeared where the grammar requires a different kind.
    UnexpectedToken,
    /// The stream ended where the grammar requires one more token.
    UnexpectedEndOfInput,
    /// A `]` or `end` found the matching stack empty or its top of the
    /// wrong kind.
    UnmatchedCloser,
    /// A `[` or `to` was never closed: the matching stack is non-empty
    /// after all tokens are consumed.
    UnclosedBlock,
}

/// What one call of the parser yields: the nodes of the block it parsed,
/// the tokens left for its caller, and the matching stack as it leaves it —
/// or the error that stopped it.
pub enum BuildOutcome {
    Parsed { exps: Seq<ExprModel>, rest: Seq<TokenModel>, stack: Seq<TokenModel> },
    Failed(ParseError),
}

/// One amount argument: the next token must be a number or a variable
/// reference.
pub open spec fn spec_build_var(ts: Seq<TokenModel>) -> Result<
    (ExprModel, Seq<TokenModel>),
    ParseError,
> {
    if ts.len() == 0 {
        Err(ParseError::UnexpectedEndOfInput)
    } else {
        match ts[0] {
            TokenModel::Number(n) => Ok((ExprModel::Number(n), ts.skip(1))),
            TokenModel::Var(x) => Ok((ExprModel::Var(x), ts.skip(1))),
            _ => Err(ParseError::UnexpectedToken),
        }
    }
}

/// One procedure name: the next token must be an identifier.
pub open spec fn spec_build_name(ts: Seq<TokenModel>) -> Result<
    (ExprModel, Seq<TokenModel>),
    ParseError,
> {
    if ts.len() == 0 {
        Err(ParseError::UnexpectedEndOfInput)
    } else {
        match ts[0] {
            TokenModel::Ident(x) => Ok((ExprModel::Ident(x), ts.skip(1))),
            _ => Err(ParseError::UnexpectedToken),
        }
    }
}

/// The greedy parameter list of a procedure definition: the run of variable
/// references before the first token of any other kind.
pub open spec fn spec_params(ts: Seq<TokenModel>) -> (Seq<ExprModel>, Seq<TokenModel>)
    decreases ts.len(),
{
    if ts.len() == 0 {
        (Seq::empty(), ts)
    } else {
        match ts[0] {
            TokenModel::Var(x) => {
                let r = spec_params(ts.skip(1));
                (seq![ExprModel::Var(x)] + r.0, r.1)
            },
            _ => (Seq::empty(), ts),
        }
    }
}

/// The greedy argument list of a procedure call: the run of numbers and
/// variable references before the first token of any other kind.
pub open spec fn spec_args(ts: Seq<TokenModel>) -> (Seq<ExprModel>, Seq<TokenModel>)
    decreases ts.len(),
{
    if ts.len() == 0 {
        (Seq::empty(), ts)
    } else {
        match ts[0] {
            TokenModel::Var(x) => {
                let r = spec_args(ts.skip(1));
                (seq![ExprModel::Var(x)] + r.0, r.1)
            },
            TokenModel::Number(n) => {
                let r = spec_args(ts.skip(1));
                (seq![ExprModel::Number(n)] + r.0, r.1)
            },
            _ => (Seq::empty(), ts),
        }
    }
}

/// A procedure call: the already-consumed identifier and its greedy
/// argument run.  A call never fails.
pub open spec fn spec_build_call(ts: Seq<TokenModel>, name: Seq<char>) -> (
    ExprModel,
    Seq<TokenModel>,
) {
    let r = spec_args(ts);
    (ExprModel::Call(Box::new(ExprModel::Ident(name)), r.0), r.1)
}

/// Popping the matching stack for a closer: the top must exist and be the
/// matching opener, else the closer is unmatched.
pub open spec fn spec_pop_stack(open: TokenModel, st: Seq<TokenModel>) -> Result<
    Seq<TokenModel>,
    ParseError,
> {
    if st.len() > 0 && st.last() == open {
        Ok(st.drop_last())
    } else {
        Err(ParseError::UnmatchedCloser)
    }
}

/// The directional node for one of the four movement keywords.
pub open spec fn dir_node(t: TokenModel, amount: ExprModel) -> ExprModel
    recommends
        t is Forward || t is Back || t is Right || t is Left,
{
    match t {
        TokenModel::Forward => ExprModel::Forward(Box::new(amount)),
        TokenModel::Back => ExprModel::Back(Box::new(amount)),
        TokenModel::Right => ExprModel::Right(Box::new(amount)),
        TokenModel::Left => ExprModel::Left(Box::new(amount)),
        _ => ExprModel::Number(0),
    }
}

/// One block of the program, parsed from the front of `ts` under the
/// matching stack `st`.  Each arm mirrors the dispatch on the leading
/// token; a closer ends the block and hands the remaining tokens back to
/// the caller.
pub open spec fn spec_build(ts: Seq<TokenModel>, st: Seq<TokenModel>) -> BuildOutcome
    decreases ts.len(), 0int,
{
    if ts.len() == 0 {
        BuildOutcome::Parsed { exps: Seq::empty(), rest: ts, stack: st }
    } else {
        let tl = ts.skip(1);
        match ts[0] {
            TokenModel::Forward | TokenModel::Back | TokenModel::Right | TokenModel::Left => {
                match spec_build_var(tl) {
                    Err(e) => BuildOutcome::Failed(e),
                    Ok(p) => spec_item_cont(dir_node(ts[0], p.0), p.1, st),
                }
            },
            TokenModel::Repeat => {
                match spec_build_repeat(tl, st) {
                    Err(e) => BuildOutcome::Failed(e),
                    Ok(p) => {
                        if p.1.len() < ts.len() {
                            spec_item_cont(p.0, p.1, p.2)
                        } else {
                            // never reached: a repeat block consumes at
                            // least its count and opening bracket
                            BuildOutcome::Failed(ParseError::UnexpectedEndOfInput)
                        }
                    },
                }
            },
            TokenModel::RBracket => {
                match spec_pop_stack(TokenModel::LBracket, st) {
                    Ok(st2) => BuildOutcome::Parsed { exps: Seq::empty(), rest: tl, stack: st2 },
                    Err(e) => BuildOutcome::Failed(e),
                }
            },
            TokenModel::To => {
                match spec_build_to(tl, st) {
                    Err(e) => BuildOutcome::Failed(e),
                    Ok(p) => {
                        if p.1.len() < ts.len() {
                            spec_item_cont(p.0, p.1, p.2)
                        } else {
                            // never reached: a definition consumes at least
                            // its name
                            BuildOutcome::Failed(ParseError::UnexpectedEndOfInput)
                        }
                    },
                }
            },
            TokenModel::End => {
                match spec_pop_stack(TokenModel::To, st) {
                    Ok(st2) => BuildOutcome::Parsed { exps: Seq::empty(), rest: tl, stack: st2 },
                    Err(e) => BuildOutcome::Failed(e),
                }
            },
            TokenModel::Ident(x) => {
                let p = spec_build_call(tl, x);
                if p.1.len() < ts.len() {
                    spec_item_cont(p.0, p.1, st)
                } else {
                    // never reached: the identifier itself was consumed
                    BuildOutcome::Failed(ParseError::UnexpectedEndOfInput)
                }
            },
            _ => BuildOutcome::Failed(ParseError::UnexpectedToken),
        }
    }
}

/// The block continues after one parsed item: the nodes of the rest of the
/// block follow it.
pub open spec fn spec_item_cont(
    item: ExprModel,
    rest: Seq<TokenModel>,
    st: Seq<TokenModel>,
) -> BuildOutcome
    decreases rest.len(), 2int,
{
    match spec_build(rest, st) {
        BuildOutcome::Parsed { exps, rest: r2, stack } => BuildOutcome::Parsed {
            exps: seq![item] + exps,
            rest: r2,
            stack,
        },
        BuildOutcome::Failed(e) => BuildOutcome::Failed(e),
    }
}

/// A repeat block, after its keyword: one count (number or variable), then
/// a literal `[` — the opener is pushed before the bracket is checked —
/// then the block body up to the matching `]`.
pub open spec fn spec_build_repeat(ts: Seq<TokenModel>, st: Seq<TokenModel>) -> Result<
    (ExprModel, Seq<TokenModel>, Seq<TokenModel>),
    ParseError,
>
    decreases ts.len(), 1int,
{
    match spec_build_var(ts) {
        Err(e) => Err(e),
        Ok(p) => {
            let st2 = st.push(TokenModel::LBracket);
            if p.1.len() == 0 {
                Err(ParseError::UnexpectedEndOfInput)
            } else if !(p.1[0] is LBracket) {
                Err(ParseError::UnexpectedToken)
            } else {
                match spec_build(p.1.skip(1), st2) {
                    BuildOutcome::Parsed { exps, rest, stack } => Ok(
                        (ExprModel::Repeat(Box::new(p.0), exps), rest, stack),
                    ),
                    BuildOutcome::Failed(e) => Err(e),
                }
            }
        },
    }
}

/// A procedure definition, after its `to`: one identifier as the name — the
/// opener is pushed once the name is read — then the greedy run of variable
/// references as parameters, then the body up to the matching `end`.
pub open spec fn spec_build_to(ts: Seq<TokenModel>, st: Seq<TokenModel>) -> Result<
    (ExprModel, Seq<TokenModel>, Seq<TokenModel>),
    ParseError,
>
    decreases ts.len(), 1int,
{
    match spec_build_name(ts) {
        Err(e) => Err(e),
        Ok(p) => {
            let st2 = st.push(TokenModel::To);
            let pr = spec_params(p.1);
            if pr.1.len() < ts.len() {
                match spec_build(pr.1, st2) {
                    BuildOutcome::Parsed { exps, rest, stack } => Ok(
                        (ExprModel::To(Box::new(p.0), pr.0, exps), rest, stack),
                    ),
                    BuildOutcome::Failed(e) => Err(e),
                }
            } else {
                // never reached: the name token was already consumed
                Err(ParseError::UnexpectedEndOfInput)
            }
        },
    }
}

/// A whole token stream parsed from an empty matching stack: the top-level
/// node sequence, or the first error; a residual stack entry means a block
/// was never closed.
pub open spec fn spec_parse_tokens(ts: Seq<TokenModel>) -> Result<Seq<ExprModel>, ParseError> {
    match spec_build(ts, Seq::empty()) {
        BuildOutcome::Parsed { exps, rest, stack } => {
            if stack.len() == 0 {
                Ok(exps)
            } else {
                Err(ParseError::UnclosedBlock)
            }
        },
        BuildOutcome::Failed(e) => Err(e),
    }
}

/// A whole program text: lexed, then parsed.
pub open spec fn spec_parse(s: Seq<char>) -> Result<Seq<ExprModel>, ParseError> {
    spec_parse_tokens(crate::lexer::lex_spec(s))
}


/// Pops the matching stack for the closer `_close` and checks that the
/// entry found is the opener `open`; an empty stack or a wrong opener is
/// an unmatched closer.
pub fn pop_stack(open: Token, _close: Token, stack: &mut Vec<Token>) -> (r: Result<
    (),
    ParseError,
>)
    ensures
        match spec_pop_stack(open.deep_view(), old(stack).deep_view()) {
            Ok(st2) => (r matches Ok(u) && final(stack).deep_view() == st2),
            Err(e) => (r matches Err(pe) && pe == e),
        },
{
    let ghost pre = stack.deep_view();
    match stack.pop() {
        Some(t) => {
            proof {
                assert(t.deep_view() == pre.last());
                assert(stack.deep_view() =~= pre.drop_last());
            }
            if token_eq(&t, &open) {
                Ok(())
            } else {
                Err(ParseError::UnmatchedCloser)
            }
        },
        None => Err(ParseError::UnmatchedCloser),
    }
}

/// Consumes one amount argument: the next token must be a number or a
/// variable reference.
pub fn build_var(tokens: &mut VecDeque<Token>) -> (r: Result<Expression, ParseError>)
    ensures
        final(tokens).deep_view().len() <= old(tokens).deep_view().len(),
        match spec_build_var(old(tokens).deep_view()) {
            Ok(p) => (r matches Ok(e) && e.deep_view() == p.0 && final(tokens).deep_view()
                == p.1),
            Err(e) => (r matches Err(pe) && pe == e),
        },
{
    let ghost pre = tokens.deep_view();
    match tokens.pop_front() {
        Some(t) => {
            proof {
                assert(t.deep_view() == pre[0]);
                assert(tokens.deep_view() =~= pre.skip(1));
            }
            match t {
                Token::Number(x) => Ok(Expression::Number(x)),
                Token::Var(x) => Ok(Expression::Var(x)),
                _ => Err(ParseError::UnexpectedToken),
            }
        },
        None => Err(ParseError::UnexpectedEndOfInput),
    }
}

/// Consumes one procedure name: the next token must be an identifier.
pub fn build_name(tokens: &mut VecDeque<Token>) -> (r: Result<Expression, ParseError>)
    ensures
        final(tokens).deep_view().len() <= old(tokens).deep_view().len(),
        match spec_build_name(old(tokens).deep_view()) {
            Ok(p) => (r matches Ok(e) && e.deep_view() == p.0 && final(tokens).deep_view()
                == p.1),
            Err(e) => (r matches Err(pe) && pe == e),
        },
{
    let ghost pre = tokens.deep_view();
    match tokens.pop_front() {
        Some(t) => {
            proof {
                assert(t.deep_view() == pre[0]);
                assert(tokens.deep_view() =~= pre.skip(1));
            }
            match t {
                Token::Ident(x) => Ok(Expression::Ident(x)),
                _ => Err(ParseError::UnexpectedToken),
            }
        },
        None => Err(ParseError::UnexpectedEndOfInput),
    }
}


/// Builds a procedure call from the already-consumed identifier `name`,
/// greedily consuming the run of numbers and variable references that
/// follows as the arguments.  A call cannot fail.
pub fn build_call(tokens: &mut VecDeque<Token>, name: String) -> (e: Expression)
    ensures
        final(tokens).deep_view().len() <= old(tokens).deep_view().len(),
        ({
            let p = spec_build_call(old(tokens).deep_view(), name@);
            e.deep_view() == p.0 && final(tokens).deep_view() == p.1
        }),
{
    let ghost entry = tokens.deep_view();
    let mut args: Vec<Expression> = Vec::new();
    proof {
        assert(args.deep_view() =~= Seq::<ExprModel>::empty());
        assert(Seq::<ExprModel>::empty() + spec_args(entry).0 =~= spec_args(entry).0);
    }
    loop
        invariant
            tokens.deep_view().len() <= entry.len(),
            spec_args(entry).0 == args.deep_view() + spec_args(tokens.deep_view()).0,
            spec_args(entry).1 == spec_args(tokens.deep_view()).1,
        ensures
            tokens.deep_view().len() == 0 || !(tokens.deep_view()[0] is Var
                || tokens.deep_view()[0] is Number),
        decreases tokens.deep_view().len(),
    {
        if tokens.len() == 0 {
            break;
        }
        let take = match &tokens[0] {
            Token::Var(_) => true,
            Token::Number(_) => true,
            _ => false,
        };
        if !take {
            break;
        }
        let ghost cur = tokens.deep_view();
        let ghost pre_args = args.deep_view();
        let t = tokens.pop_front().unwrap();
        proof {
            assert(t.deep_view() == cur[0]);
            assert(tokens.deep_view() =~= cur.skip(1));
        }
        let node = match t {
            Token::Var(x) => Expression::Var(x),
            Token::Number(n) => Expression::Number(n),
            _ => Expression::Number(0),  // never reached: the token was peeked at above
        };
        args.push(node);
        proof {
            assert(args.deep_view() =~= pre_args + seq![node.deep_view()]);
            assert(spec_args(cur).0 == seq![node.deep_view()] + spec_args(cur.skip(1)).0);
            assert((pre_args + seq![node.deep_view()]) + spec_args(cur.skip(1)).0 =~= pre_args
                + (seq![node.deep_view()] + spec_args(cur.skip(1)).0));
        }
    }
    proof {
        assert(spec_args(tokens.deep_view()).0 =~= Seq::<ExprModel>::empty());
        assert(args.deep_view() + Seq::<ExprModel>::empty() =~= args.deep_view());
        lemma_exprs_deep_view(args);
    }
    let ghost nm = name@;
    let ghost argsv = args@;
    let e = Expression::Call(Box::new(Expression::Ident(name)), args);
    proof {
        assert(exprs_model(argsv) == spec_args(entry).0);
        assert(expr_model(Expression::Ident(name)) == ExprModel::Ident(nm));
        assert(e.deep_view() == ExprModel::Call(Box::new(ExprModel::Ident(nm)), exprs_model(argsv)));
    }
    e
}


/// Builds a repeat block, after its `repeat` keyword was consumed: one
/// count, the opener pushed, a literal `[` checked, then the body parsed
/// by a recursive call to `build`, which consumes the matching `]`.
pub fn build_repeat(tokens: &mut VecDeque<Token>, stack: &mut Vec<Token>) -> (r: Result<
    Expression,
    ParseError,
>)
    ensures
        final(tokens).deep_view().len() <= old(tokens).deep_view().len(),
        match spec_build_repeat(old(tokens).deep_view(), old(stack).deep_view()) {
            Ok(p) => (r matches Ok(e) && e.deep_view() == p.0 && final(tokens).deep_view() == p.1
                && final(stack).deep_view() == p.2),
            Err(e) => (r matches Err(pe) && pe == e),
        },
    decreases tokens.deep_view().len(),
{
    let count = build_var(tokens)?;
    let ghost pre_stack = stack.deep_view();
    stack.push(Token::LBracket);
    proof {
        assert(stack.deep_view() =~= pre_stack.push(TokenModel::LBracket));
    }
    let ghost cur = tokens.deep_view();
    match tokens.pop_front() {
        Some(t) => {
            proof {
                assert(t.deep_view() == cur[0]);
                assert(tokens.deep_view() =~= cur.skip(1));
            }
            match t {
                Token::LBracket => {
                    let body = build(tokens, stack)?;
                    let ghost bodyv = body@;
                    proof {
                        lemma_exprs_deep_view(body);
                    }
                    let e = Expression::Repeat(Box::new(count), body);
                    proof {
                        assert(e.deep_view() == ExprModel::Repeat(
                            Box::new(expr_model(count)),
                            exprs_model(bodyv),
                        ));
                    }
                    Ok(e)
                },
                _ => Err(ParseError::UnexpectedToken),
            }
        },
        None => Err(ParseError::UnexpectedEndOfInput),
    }
}

/// Builds a procedure definition, after its `to` keyword was consumed: the
/// name, the opener pushed, the greedy run of variable references as
/// parameters, then the body parsed by a recursive call to `build`, which
/// consumes the matching `end`.
pub fn build_to(tokens: &mut VecDeque<Token>, stack: &mut Vec<Token>) -> (r: Result<
    Expression,
    ParseError,
>)
    ensures
        final(tokens).deep_view().len() <= old(tokens).deep_view().len(),
        match spec_build_to(old(tokens).deep_view(), old(stack).deep_view()) {
            Ok(p) => (r matches Ok(e) && e.deep_view() == p.0 && final(tokens).deep_view() == p.1
                && final(stack).deep_view() == p.2),
            Err(e) => (r matches Err(pe) && pe == e),
        },
    decreases tokens.deep_view().len(),
{
    let ident = build_name(tokens)?;
    let ghost after_name = tokens.deep_view();
    let ghost pre_stack = stack.deep_view();
    stack.push(Token::To);
    proof {
        assert(stack.deep_view() =~= pre_stack.push(TokenModel::To));
    }
    let mut params: Vec<Expression> = Vec::new();
    proof {
        assert(params.deep_view() =~= Seq::<ExprModel>::empty());
        assert(Seq::<ExprModel>::empty() + spec_params(after_name).0 =~= spec_params(
            after_name,
        ).0);
    }
    loop
        invariant
            tokens.deep_view().len() <= after_name.len(),
            spec_params(after_name).0 == params.deep_view() + spec_params(
                tokens.deep_view(),
            ).0,
            spec_params(after_name).1 == spec_params(tokens.deep_view()).1,
        ensures
            tokens.deep_view().len() == 0 || !(tokens.deep_view()[0] is Var),
        decreases tokens.deep_view().len(),
    {
        if tokens.len() == 0 {
            break;
        }
        let take = match &tokens[0] {
            Token::Var(_) => true,
            _ => false,
        };
        if !take {
            break;
        }
        let ghost cur = tokens.deep_view();
        let ghost pre_params = params.deep_view();
        let t = tokens.pop_front().unwrap();
        proof {
            assert(t.deep_view() == cur[0]);
            assert(tokens.deep_view() =~= cur.skip(1));
        }
        let node = match t {
            Token::Var(x) => Expression::Var(x),
            _ => Expression::Number(0),  // never reached: the token was peeked at above
        };
        params.push(node);
        proof {
            assert(params.deep_view() =~= pre_params + seq![node.deep_view()]);
            assert(spec_params(cur).0 == seq![node.deep_view()] + spec_params(cur.skip(1)).0);
            assert((pre_params + seq![node.deep_view()]) + spec_params(cur.skip(1)).0
                =~= pre_params + (seq![node.deep_view()] + spec_params(cur.skip(1)).0));
        }
    }
    proof {
        assert(spec_params(tokens.deep_view()).0 =~= Seq::<ExprModel>::empty());
        assert(params.deep_view() + Seq::<ExprModel>::empty() =~= params.deep_view());
        lemma_exprs_deep_view(params);
    }
    let body = build(tokens, stack)?;
    let ghost paramsv = params@;
    let ghost bodyv = body@;
    proof {
        lemma_exprs_deep_view(body);
    }
    let e = Expression::To(Box::new(ident), params, body);
    proof {
        assert(e.deep_view() == ExprModel::To(
            Box::new(expr_model(ident)),
            exprs_model(paramsv),
            exprs_model(bodyv),
        ));
    }
    Ok(e)
}

/// Parses one block: consumes tokens from the front until the stream is
/// exhausted or a closer hands control back to the enclosing block, and
/// returns the nodes parsed at this level.
pub fn build(tokens: &mut VecDeque<Token>, stack: &mut Vec<Token>) -> (r: Result<
    Vec<Expression>,
    ParseError,
>)
    ensures
        final(tokens).deep_view().len() <= old(tokens).deep_view().len(),
        match spec_build(old(tokens).deep_view(), old(stack).deep_view()) {
            BuildOutcome::Parsed { exps, rest, stack: st2 } => (r matches Ok(v) && v.deep_view()
                == exps && final(tokens).deep_view() == rest && final(stack).deep_view() == st2),
            BuildOutcome::Failed(e) => (r matches Err(pe) && pe == e),
        },
    decreases tokens.deep_view().len(),
{
    let ghost entry = tokens.deep_view();
    if tokens.len() == 0 {
        let empty: Vec<Expression> = Vec::new();
        proof {
            assert(empty.deep_view() =~= Seq::<ExprModel>::empty());
        }
        return Ok(empty);
    }
    let next = tokens.pop_front().unwrap();
    proof {
        assert(next.deep_view() == entry[0]);
        assert(tokens.deep_view() =~= entry.skip(1));
    }
    let item: Expression = match next {
        Token::Forward => Expression::Forward(Box::new(build_var(tokens)?)),
        Token::Back => Expression::Back(Box::new(build_var(tokens)?)),
        Token::Right => Expression::Right(Box::new(build_var(tokens)?)),
        Token::Left => Expression::Left(Box::new(build_var(tokens)?)),
        Token::Repeat => build_repeat(tokens, stack)?,
        Token::RBracket => {
            pop_stack(Token::LBracket, Token::RBracket, stack)?;
            let empty: Vec<Expression> = Vec::new();
            proof {
                assert(empty.deep_view() =~= Seq::<ExprModel>::empty());
            }
            return Ok(empty);
        },
        Token::To => build_to(tokens, stack)?,
        Token::End => {
            pop_stack(Token::To, Token::End, stack)?;
            let empty: Vec<Expression> = Vec::new();
            proof {
                assert(empty.deep_view() =~= Seq::<ExprModel>::empty());
            }
            return Ok(empty);
        },
        Token::Ident(x) => build_call(tokens, x),
        _ => {
            return Err(ParseError::UnexpectedToken);
        },
    };
    let ghost itemv = item.deep_view();
    let ghost mid = tokens.deep_view();
    let ghost mid_stack = stack.deep_view();
    let mut rest = build(tokens, stack)?;
    let ghost restv = rest.deep_view();
    rest.insert(0, item);
    proof {
        assert(rest.deep_view() =~= seq![itemv] + restv);
    }
    Ok(rest)
}


/// Parses a whole token stream from an empty matching stack: the top-level
/// expression sequence of the program, or the first error met.  A stack
/// entry left over once every token is consumed is a block that was never
/// closed.
pub fn parse(tokens: VecDeque<Token>) -> (r: Result<Vec<Expression>, ParseError>)
    ensures
        match spec_parse_tokens(tokens.deep_view()) {
            Ok(exps) => (r matches Ok(v) && v.deep_view() == exps),
            Err(e) => (r matches Err(pe) && pe == e),
        },
{
    let mut toks = tokens;
    let mut stack: Vec<Token> = Vec::new();
    proof {
        assert(stack.deep_view() =~= Seq::<TokenModel>::empty());
    }
    let exps = build(&mut toks, &mut stack)?;
    if stack.len() == 0 {
        Ok(exps)
    } else {
        Err(ParseError::UnclosedBlock)
    }
}

/// Lexes and parses a whole program text.
pub fn parse_program(input: &str) -> (r: Result<Vec<Expression>, ParseError>)
    ensures
        match spec_parse(input@) {
            Ok(exps) => (r matches Ok(v) && v.deep_view() == exps),
            Err(e) => (r matches Err(pe) && pe == e),
        },
{
    let tokens = crate::lexer::lex(input);
    parse(tokens)
}

} // verus!
