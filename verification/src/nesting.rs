//! The laws of bracket and `to`/`end` nesting.
//!
//! `walk` reads a token sequence left to right, pushing on each `[` or `to`
//! and popping on each matching `]` or `end`; it returns the residual stack,
//! or nothing when a closer finds no matching opener.  `balanced` programs
//! are those whose walk ends with an empty stack.  The lemmas below tie the
//! walk to the parser: a balanced program never fails for a nesting reason,
//! an unmatched closer is reported exactly on walks that fail, and an
//! unclosed block exactly on walks that end with openers left over.

use vstd::prelude::*;
use crate::token::TokenModel;
use crate::ast::ExprModel;
use crate::parser::{
    spec_build, spec_build_var, spec_build_name, spec_build_repeat, spec_build_to, spec_params,
    spec_args, BuildOutcome, ParseError, spec_parse_tokens,
};

verus! {

/// A token that neither opens nor closes a block.
pub open spec fn neutral_token(t: TokenModel) -> bool {
    !(t is LBracket || t is To || t is RBracket || t is End)
}

/// The nesting walk of a token sequence from stack `st`: push on each
/// opener, pop on each matching closer, fail on a closer with no matching
/// opener on top.
pub open spec fn walk(ts: Seq<TokenModel>, st: Seq<TokenModel>) -> Option<Seq<TokenModel>>
    decreases ts.len(),
{
    if ts.len() == 0 {
        Some(st)
    } else {
        let tl = ts.skip(1);
        match ts[0] {
            TokenModel::LBracket => walk(tl, st.push(TokenModel::LBracket)),
            TokenModel::To => walk(tl, st.push(TokenModel::To)),
            TokenModel::RBracket => {
                if st.len() > 0 && st.last() == TokenModel::LBracket {
                    walk(tl, st.drop_last())
                } else {
                    None
                }
            },
            TokenModel::End => {
                if st.len() > 0 && st.last() == TokenModel::To {
                    walk(tl, st.drop_last())
                } else {
                    None
                }
            },
            _ => walk(tl, st),
        }
    }
}

/// A balanced program: every `[` has its `]`, every `to` its `end`,
/// correctly nested, and nothing closes a block that was never opened.
pub open spec fn balanced(ts: Seq<TokenModel>) -> bool {
    walk(ts, Seq::empty()) == Some(Seq::<TokenModel>::empty())
}

/// A token that opens or closes nothing moves the walk one step on without
/// touching the stack.
proof fn lemma_walk_step_neutral(ts: Seq<TokenModel>, st: Seq<TokenModel>)
    requires
        ts.len() > 0,
        neutral_token(ts[0]),
    ensures
        walk(ts, st) == walk(ts.skip(1), st),
{
}

/// The walk of a concatenation runs the first part, then the second from
/// where the first left the stack; a failed first part fails the whole.
proof fn lemma_walk_append(a: Seq<TokenModel>, b: Seq<TokenModel>, st: Seq<TokenModel>)
    ensures
        walk(a + b, st) == (match walk(a, st) {
            Some(m) => walk(b, m),
            None => None::<Seq<TokenModel>>,
        }),
    decreases a.len(),
{
    if a.len() == 0 {
        assert(a + b =~= b);
    } else {
        assert((a + b)[0] == a[0]);
        assert((a + b).skip(1) =~= a.skip(1) + b);
        match a[0] {
            TokenModel::LBracket => {
                lemma_walk_append(a.skip(1), b, st.push(TokenModel::LBracket));
            },
            TokenModel::To => {
                lemma_walk_append(a.skip(1), b, st.push(TokenModel::To));
            },
            TokenModel::RBracket => {
                if st.len() > 0 && st.last() == TokenModel::LBracket {
                    lemma_walk_append(a.skip(1), b, st.drop_last());
                }
            },
            TokenModel::End => {
                if st.len() > 0 && st.last() == TokenModel::To {
                    lemma_walk_append(a.skip(1), b, st.drop_last());
                }
            },
            _ => {
                lemma_walk_append(a.skip(1), b, st);
            },
        }
    }
}

/// A greedy parameter run leaves a suffix of its input and walks through
/// without touching the stack: parameters are variable references, which
/// are neutral.
proof fn lemma_params_walk(ts: Seq<TokenModel>, st: Seq<TokenModel>)
    ensures
        ({
            let r = spec_params(ts);
            &&& r.1.len() <= ts.len()
            &&& r.1 == ts.skip(ts.len() - r.1.len())
            &&& walk(ts.take(ts.len() - r.1.len()), st) == Some(st)
        }),
    decreases ts.len(),
{
    let r = spec_params(ts);
    if ts.len() > 0 && ts[0] is Var {
        lemma_params_walk(ts.skip(1), st);
        let r1 = spec_params(ts.skip(1));
        let k1 = ts.skip(1).len() - r1.1.len();
        let k = k1 + 1;
        assert(r.1 == r1.1);
        assert(ts.skip(1).skip(k1) =~= ts.skip(k));
        assert(ts.take(k)[0] == ts[0]);
        assert(ts.take(k).skip(1) =~= ts.skip(1).take(k1));
        lemma_walk_step_neutral(ts.take(k), st);
    } else {
        assert(r.1 == ts);
        assert(ts.take(0) =~= Seq::<TokenModel>::empty());
        assert(ts.skip(0) =~= ts);
    }
}

/// A greedy argument run leaves a suffix of its input and walks through
/// without touching the stack: arguments are numbers and variable
/// references, which are neutral.
proof fn lemma_args_walk(ts: Seq<TokenModel>, st: Seq<TokenModel>)
    ensures
        ({
            let r = spec_args(ts);
            &&& r.1.len() <= ts.len()
            &&& r.1 == ts.skip(ts.len() - r.1.len())
            &&& walk(ts.take(ts.len() - r.1.len()), st) == Some(st)
        }),
    decreases ts.len(),
{
    let r = spec_args(ts);
    if ts.len() > 0 && (ts[0] is Var || ts[0] is Number) {
        lemma_args_walk(ts.skip(1), st);
        let r1 = spec_args(ts.skip(1));
        let k1 = ts.skip(1).len() - r1.1.len();
        let k = k1 + 1;
        assert(r.1 == r1.1);
        assert(ts.skip(1).skip(k1) =~= ts.skip(k));
        assert(ts.take(k)[0] == ts[0]);
        assert(ts.take(k).skip(1) =~= ts.skip(1).take(k1));
        lemma_walk_step_neutral(ts.take(k), st);
    } else {
        assert(r.1 == ts);
        assert(ts.take(0) =~= Seq::<TokenModel>::empty());
        assert(ts.skip(0) =~= ts);
    }
}


/// How one parser call moves the nesting walk.  On success the tokens it
/// consumed walk from `st` to exactly the stack it returns, the tokens it
/// leaves are a suffix of its input, and when it stops early at a closer it
/// has popped exactly one entry of `st`.  On failure it never reports an
/// unclosed block, and it reports an unmatched closer only on inputs whose
/// walk fails.
#[verifier::rlimit(100)]
pub proof fn lemma_build_walk(ts: Seq<TokenModel>, st: Seq<TokenModel>)
    ensures
        match spec_build(ts, st) {
            BuildOutcome::Parsed { exps, rest, stack } => {
                &&& rest.len() <= ts.len()
                &&& rest == ts.skip(ts.len() - rest.len())
                &&& walk(ts.take(ts.len() - rest.len()), st) == Some(stack)
                &&& (rest.len() > 0 ==> st.len() > 0 && stack == st.drop_last())
            },
            BuildOutcome::Failed(e) => {
                &&& e != ParseError::UnclosedBlock
                &&& (e == ParseError::UnmatchedCloser ==> walk(ts, st) is None)
            },
        },
    decreases ts.len(), 0int,
{
    if ts.len() == 0 {
        assert(ts.skip(0) =~= ts);
        assert(ts.take(0) =~= Seq::<TokenModel>::empty());
    } else {
        let tl = ts.skip(1);
        let t0 = ts[0];
        if t0 is Forward || t0 is Back || t0 is Right || t0 is Left {
            match spec_build_var(tl) {
                Err(e) => {},
                Ok(p) => {
                    assert(p.1 == tl.skip(1));
                    assert(tl.skip(1) =~= ts.skip(2));
                    lemma_build_walk(ts.skip(2), st);
                    let two = ts.take(2);
                    assert(two[0] == ts[0]);
                    assert(two.skip(1) =~= ts.skip(1).take(1));
                    assert(two.skip(1)[0] == tl[0]);
                    lemma_walk_step_neutral(two, st);
                    lemma_walk_step_neutral(two.skip(1), st);
                    assert(two.skip(1).skip(1) =~= Seq::<TokenModel>::empty());
                    assert(walk(two, st) == Some(st));
                    match spec_build(ts.skip(2), st) {
                        BuildOutcome::Parsed { exps: exps2, rest: rest2, stack: st3 } => {
                            let k2 = ts.skip(2).len() - rest2.len();
                            let k = 2 + k2;
                            assert(ts.skip(2).skip(k2) =~= ts.skip(k));
                            assert(ts.take(k) =~= two + ts.skip(2).take(k2));
                            lemma_walk_append(two, ts.skip(2).take(k2), st);
                        },
                        BuildOutcome::Failed(e2) => {
                            if e2 == ParseError::UnmatchedCloser {
                                lemma_walk_append(two, ts.skip(2), st);
                                assert(two + ts.skip(2) =~= ts);
                            }
                        },
                    }
                },
            }
        } else if t0 is Repeat {
            lemma_build_repeat_walk(tl, st);
            match spec_build_repeat(tl, st) {
                Err(e) => {
                    if e == ParseError::UnmatchedCloser {
                        lemma_walk_step_neutral(ts, st);
                    }
                },
                Ok(p) => {
                    let kh = tl.len() - p.1.len();
                    let k0 = 1 + kh;
                    assert(tl.skip(kh) =~= ts.skip(k0));
                    assert(ts.take(k0)[0] == ts[0]);
                    assert(ts.take(k0).skip(1) =~= tl.take(kh));
                    lemma_walk_step_neutral(ts.take(k0), st);
                    assert(walk(ts.take(k0), st) == Some(p.2));
                    lemma_build_walk(p.1, p.2);
                    match spec_build(p.1, p.2) {
                        BuildOutcome::Parsed { exps: exps2, rest: rest2, stack: st3 } => {
                            let k2 = p.1.len() - rest2.len();
                            let k = k0 + k2;
                            assert(ts.skip(k0).skip(k2) =~= ts.skip(k));
                            assert(ts.take(k) =~= ts.take(k0) + ts.skip(k0).take(k2));
                            lemma_walk_append(ts.take(k0), ts.skip(k0).take(k2), st);
                            if rest2.len() > 0 {
                                assert(p.1.len() > 0);
                                assert(p.2 == st);
                            }
                        },
                        BuildOutcome::Failed(e2) => {
                            if e2 == ParseError::UnmatchedCloser {
                                lemma_walk_append(ts.take(k0), ts.skip(k0), st);
                                assert(ts.take(k0) + ts.skip(k0) =~= ts);
                            }
                        },
                    }
                },
            }
        } else if t0 is RBracket {
            if st.len() > 0 && st.last() == TokenModel::LBracket {
                assert(ts.take(1)[0] == ts[0]);
                assert(ts.take(1).skip(1) =~= Seq::<TokenModel>::empty());
                assert(walk(ts.take(1).skip(1), st.drop_last()) == Some(st.drop_last()));
                assert(walk(ts.take(1), st) == Some(st.drop_last()));
            }
        } else if t0 is To {
            lemma_build_to_walk(tl, st);
            match spec_build_to(tl, st) {
                Err(e) => {},
                Ok(p) => {
                    let kh = tl.len() - p.1.len();
                    let k0 = 1 + kh;
                    assert(tl.skip(kh) =~= ts.skip(k0));
                    assert(ts.take(k0)[0] == ts[0]);
                    assert(ts.take(k0).skip(1) =~= tl.take(kh));
                    assert(walk(ts.take(k0), st) == walk(tl.take(kh), st.push(TokenModel::To)));
                    assert(walk(ts.take(k0), st) == Some(p.2));
                    lemma_build_walk(p.1, p.2);
                    match spec_build(p.1, p.2) {
                        BuildOutcome::Parsed { exps: exps2, rest: rest2, stack: st3 } => {
                            let k2 = p.1.len() - rest2.len();
                            let k = k0 + k2;
                            assert(ts.skip(k0).skip(k2) =~= ts.skip(k));
                            assert(ts.take(k) =~= ts.take(k0) + ts.skip(k0).take(k2));
                            lemma_walk_append(ts.take(k0), ts.skip(k0).take(k2), st);
                            if rest2.len() > 0 {
                                assert(p.1.len() > 0);
                                assert(p.2 == st);
                            }
                        },
                        BuildOutcome::Failed(e2) => {
                            if e2 == ParseError::UnmatchedCloser {
                                lemma_walk_append(ts.take(k0), ts.skip(k0), st);
                                assert(ts.take(k0) + ts.skip(k0) =~= ts);
                            }
                        },
                    }
                },
            }
        } else if t0 is End {
            if st.len() > 0 && st.last() == TokenModel::To {
                assert(ts.take(1)[0] == ts[0]);
                assert(ts.take(1).skip(1) =~= Seq::<TokenModel>::empty());
                assert(walk(ts.take(1).skip(1), st.drop_last()) == Some(st.drop_last()));
                assert(walk(ts.take(1), st) == Some(st.drop_last()));
            }
        } else if t0 is Ident {
            let p = spec_args(tl);
            lemma_args_walk(tl, st);
            let ka = tl.len() - p.1.len();
            let k0 = 1 + ka;
            assert(tl.skip(ka) =~= ts.skip(k0));
            assert(ts.take(k0)[0] == ts[0]);
            assert(ts.take(k0).skip(1) =~= tl.take(ka));
            lemma_walk_step_neutral(ts.take(k0), st);
            assert(walk(ts.take(k0), st) == Some(st));
            lemma_build_walk(p.1, st);
            match spec_build(p.1, st) {
                BuildOutcome::Parsed { exps: exps2, rest: rest2, stack: st3 } => {
                    let k2 = p.1.len() - rest2.len();
                    let k = k0 + k2;
                    assert(ts.skip(k0).skip(k2) =~= ts.skip(k));
                    assert(ts.take(k) =~= ts.take(k0) + ts.skip(k0).take(k2));
                    lemma_walk_append(ts.take(k0), ts.skip(k0).take(k2), st);
                },
                BuildOutcome::Failed(e2) => {
                    if e2 == ParseError::UnmatchedCloser {
                        lemma_walk_append(ts.take(k0), ts.skip(k0), st);
                        assert(ts.take(k0) + ts.skip(k0) =~= ts);
                    }
                },
            }
        } else {
        }
    }
}

/// The walk effect of a repeat block after its keyword: its count is
/// neutral, its `[` pushes, and its body walks from the pushed stack to the
/// stack it returns.
proof fn lemma_build_repeat_walk(ts: Seq<TokenModel>, st: Seq<TokenModel>)
    ensures
        match spec_build_repeat(ts, st) {
            Ok(p) => {
                &&& p.1.len() + 2 <= ts.len()
                &&& p.1 == ts.skip(ts.len() - p.1.len())
                &&& walk(ts.take(ts.len() - p.1.len()), st) == Some(p.2)
                &&& (p.1.len() > 0 ==> p.2 == st)
            },
            Err(e) => {
                &&& e != ParseError::UnclosedBlock
                &&& (e == ParseError::UnmatchedCloser ==> walk(ts, st) is None)
            },
        },
    decreases ts.len(), 1int,
{
    match spec_build_var(ts) {
        Err(e) => {},
        Ok(pv) => {
            assert(pv.1 == ts.skip(1));
            if pv.1.len() == 0 {
            } else if !(pv.1[0] is LBracket) {
            } else {
                let st2 = st.push(TokenModel::LBracket);
                assert(pv.1[0] == ts[1]);
                assert(ts.skip(1).skip(1) =~= ts.skip(2));
                lemma_build_walk(ts.skip(2), st2);
                let two = ts.take(2);
                assert(two[0] == ts[0]);
                assert(two.skip(1) =~= ts.skip(1).take(1));
                assert(two.skip(1)[0] == ts[1]);
                lemma_walk_step_neutral(two, st);
                assert(two.skip(1).skip(1) =~= Seq::<TokenModel>::empty());
                assert(walk(two.skip(1), st) == walk(two.skip(1).skip(1), st2));
                assert(walk(two, st) == Some(st2));
                match spec_build(ts.skip(2), st2) {
                    BuildOutcome::Parsed { exps, rest: brest, stack: bst } => {
                        let kb = ts.skip(2).len() - brest.len();
                        let kh = 2 + kb;
                        assert(ts.skip(2).skip(kb) =~= ts.skip(kh));
                        assert(ts.take(kh) =~= two + ts.skip(2).take(kb));
                        lemma_walk_append(two, ts.skip(2).take(kb), st);
                        if brest.len() > 0 {
                            assert(bst == st2.drop_last());
                            assert(st2.drop_last() =~= st);
                        }
                    },
                    BuildOutcome::Failed(e) => {
                        if e == ParseError::UnmatchedCloser {
                            lemma_walk_append(two, ts.skip(2), st);
                            assert(two + ts.skip(2) =~= ts);
                        }
                    },
                }
            }
        },
    }
}

/// The walk effect of a procedure definition after its `to`, whose push the
/// walk has already made at the keyword: name and parameters are neutral,
/// and the body walks from the pushed stack to the stack it returns.
proof fn lemma_build_to_walk(ts: Seq<TokenModel>, st: Seq<TokenModel>)
    ensures
        match spec_build_to(ts, st) {
            Ok(p) => {
                &&& p.1.len() + 1 <= ts.len()
                &&& p.1 == ts.skip(ts.len() - p.1.len())
                &&& walk(ts.take(ts.len() - p.1.len()), st.push(TokenModel::To)) == Some(p.2)
                &&& (p.1.len() > 0 ==> p.2 == st)
            },
            Err(e) => {
                &&& e != ParseError::UnclosedBlock
                &&& (e == ParseError::UnmatchedCloser ==> walk(ts, st.push(TokenModel::To))
                    is None)
            },
        },
    decreases ts.len(), 1int,
{
    match spec_build_name(ts) {
        Err(e) => {},
        Ok(pn) => {
            assert(pn.1 == ts.skip(1));
            let stp = st.push(TokenModel::To);
            let pr = spec_params(pn.1);
            lemma_params_walk(pn.1, stp);
            let kp = pn.1.len() - pr.1.len();
            let k1 = 1 + kp;
            assert(ts.skip(1).skip(kp) =~= ts.skip(k1));
            assert(ts.take(k1)[0] == ts[0]);
            assert(ts.take(k1).skip(1) =~= pn.1.take(kp));
            lemma_walk_step_neutral(ts.take(k1), stp);
            assert(walk(ts.take(k1), stp) == Some(stp));
            lemma_build_walk(pr.1, stp);
            match spec_build(pr.1, stp) {
                BuildOutcome::Parsed { exps, rest: brest, stack: bst } => {
                    let kb = pr.1.len() - brest.len();
                    let kh = k1 + kb;
                    assert(ts.skip(k1).skip(kb) =~= ts.skip(kh));
                    assert(ts.take(kh) =~= ts.take(k1) + ts.skip(k1).take(kb));
                    lemma_walk_append(ts.take(k1), ts.skip(k1).take(kb), stp);
                    if brest.len() > 0 {
                        assert(bst == stp.drop_last());
                        assert(stp.drop_last() =~= st);
                    }
                },
                BuildOutcome::Failed(e) => {
                    if e == ParseError::UnmatchedCloser {
                        lemma_walk_append(ts.take(k1), ts.skip(k1), stp);
                        assert(ts.take(k1) + ts.skip(k1) =~= ts);
                    }
                },
            }
        },
    }
}


/// A balanced program is never refused for a nesting reason: parsing it
/// either succeeds — with the matching stack empty, which is what success
/// means — or fails on a grammar error (an unexpected token or a truncated
/// command), never with an unmatched closer or an unclosed block.
pub proof fn lemma_balanced_parse(ts: Seq<TokenModel>)
    requires
        balanced(ts),
    ensures
        match spec_build(ts, Seq::empty()) {
            BuildOutcome::Parsed { exps, rest, stack } => stack.len() == 0 && rest.len() == 0
                && spec_parse_tokens(ts) == Ok::<Seq<ExprModel>, ParseError>(exps),
            BuildOutcome::Failed(e) => e == ParseError::UnexpectedToken || e
                == ParseError::UnexpectedEndOfInput,
        },
{
    lemma_build_walk(ts, Seq::empty());
    match spec_build(ts, Seq::<TokenModel>::empty()) {
        BuildOutcome::Parsed { exps, rest, stack } => {
            assert(rest.len() == 0);
            assert(ts.take(ts.len() - rest.len()) =~= ts);
        },
        BuildOutcome::Failed(e) => {},
    }
}

/// The converse: whenever parsing succeeds, the program was balanced.
pub proof fn lemma_parse_ok_balanced(ts: Seq<TokenModel>)
    ensures
        spec_parse_tokens(ts) is Ok ==> balanced(ts),
{
    lemma_build_walk(ts, Seq::empty());
    if spec_parse_tokens(ts) is Ok {
        match spec_build(ts, Seq::<TokenModel>::empty()) {
            BuildOutcome::Parsed { exps, rest, stack } => {
                assert(rest.len() == 0);
                assert(ts.take(ts.len() - rest.len()) =~= ts);
                assert(stack =~= Seq::<TokenModel>::empty());
            },
            BuildOutcome::Failed(e) => {},
        }
    }
}

/// An unmatched closer is reported exactly on programs whose nesting walk
/// fails: parsing reports it only when some `]` or `end` closes a block
/// that was never opened (or of the wrong kind), and on every such program
/// the parse fails — with that error, unless a grammar error cuts the
/// parse short first.
pub proof fn lemma_unmatched_closer(ts: Seq<TokenModel>)
    ensures
        (spec_parse_tokens(ts) matches Err(e) && e == ParseError::UnmatchedCloser) ==> (walk(
            ts,
            Seq::empty(),
        ) is None),
        (walk(ts, Seq::empty()) is None) ==> (spec_parse_tokens(ts) matches Err(e) && (e
            == ParseError::UnmatchedCloser || e == ParseError::UnexpectedToken || e
            == ParseError::UnexpectedEndOfInput)),
{
    lemma_build_walk(ts, Seq::empty());
    match spec_build(ts, Seq::<TokenModel>::empty()) {
        BuildOutcome::Parsed { exps, rest, stack } => {
            assert(rest.len() == 0);
            assert(ts.take(ts.len() - rest.len()) =~= ts);
        },
        BuildOutcome::Failed(e) => {},
    }
}

/// An unclosed block is reported exactly on programs whose nesting walk
/// leaves openers behind: parsing reports it only when some `[` or `to` is
/// never closed, and on every such program the parse fails — with that
/// error, unless a grammar error cuts the parse short first.
pub proof fn lemma_unclosed_block(ts: Seq<TokenModel>)
    ensures
        (spec_parse_tokens(ts) matches Err(e) && e == ParseError::UnclosedBlock) ==> (walk(
            ts,
            Seq::empty(),
        ) matches Some(m) && m.len() > 0),
        (walk(ts, Seq::empty()) matches Some(m) && m.len() > 0) ==> (spec_parse_tokens(ts)
            matches Err(e) && (e == ParseError::UnclosedBlock || e == ParseError::UnexpectedToken
            || e == ParseError::UnexpectedEndOfInput)),
{
    lemma_build_walk(ts, Seq::empty());
    match spec_build(ts, Seq::<TokenModel>::empty()) {
        BuildOutcome::Parsed { exps, rest, stack } => {
            assert(rest.len() == 0);
            assert(ts.take(ts.len() - rest.len()) =~= ts);
        },
        BuildOutcome::Failed(e) => {},
    }
}

} // verus!
