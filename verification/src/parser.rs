//! The parser of the ladder type syntax: from tokens to type terms, in a context that
//! names the types and variables.

use vstd::prelude::*;
use crate::term::{TypeTerm, TermV, EntryV, KindV, PairV, FieldV, ContextEntry, TypeKind, ConstraintPair, StructMember, EnumVariant};
use crate::dict::TypeID;
use crate::lexer::{InputRegionTag, LexError, TokenV, LadderTypeToken, LexOutcome, LexStateV, spec_lex, LadderTypeLexer};
use crate::context::{CtxV, ContextPtr, ctx_size, spec_typeid, spec_add_typename, spec_add_variable, spec_enter};

verus! {

/// What went wrong while parsing.
#[derive(PartialEq, Eq, Structural, Clone, Copy, Debug)]
pub enum ParseError {
    LexError(LexError),
    UnexpectedClose,
    UnexpectedLadder,
    UnexpectedEnd,
    UnexpectedToken,
}

/// What a parse warning is about.
#[derive(Debug)]
pub enum ParseInfoType {
    UnknownTypeName(String),
}

/// A parse warning and the region it is about.
#[derive(Debug)]
pub struct ParseInfo {
    pub char_range: InputRegionTag,
    pub info: ParseInfoType,
}

/// A token with its region.
pub type TokV = (InputRegionTag, Result<TokenV, LexError>);

/// The result of a parse step: the region and term, or the region and the error.
pub type PResV = Result<(InputRegionTag, TermV), (InputRegionTag, ParseError)>;

/// The state of the parser: the index of the next token, the context, the warnings.
pub struct PState {
    pub i: nat,
    pub ctx: CtxV,
    pub warns: Seq<(InputRegionTag, Seq<char>)>,
}

/// The tokens of `s` from position `pos`; `None` where the lexer fails.
pub open spec fn spec_tokens(s: Seq<char>, pos: nat) -> Option<Seq<TokV>>
    decreases s.len() + 3 - pos,
{
    match spec_lex(s, pos, LexStateV::Any, pos) {
        LexOutcome::Fails => None,
        LexOutcome::Done { pos: p, begin, tok } => match tok {
            None => Some(Seq::empty()),
            Some(t) => if pos < p && p <= s.len() + 2 {
                match spec_tokens(s, p) {
                    Some(rest) => Some(seq![(InputRegionTag { begin: begin as usize, end: p as usize }, t)] + rest),
                    None => None,
                }
            } else {
                None
            },
        },
    }
}

pub open spec fn dflt() -> InputRegionTag {
    InputRegionTag { begin: 0, end: 0 }
}

pub open spec fn rmax(a: InputRegionTag, b: InputRegionTag) -> InputRegionTag {
    InputRegionTag {
        begin: if a.begin < b.begin { a.begin } else { b.begin },
        end: if a.end < b.end { b.end } else { a.end },
    }
}

/// The token at index `i`, if any.
pub open spec fn tok_at(toks: Seq<TokV>, i: nat) -> Option<TokV> {
    if i < toks.len() { Some(toks[i as int]) } else { None }
}

/// The outcome of a parse function: `None` where the parser panics or the context
/// would overflow.
pub type POut = Option<(PState, PResV)>;

pub open spec fn with_i(st: PState, i: nat) -> PState {
    PState { i, ..st }
}

/// `top := ladder (('-->' | '-morph->') top)?`
pub open spec fn spec_parse_top(toks: Seq<TokV>, st: PState) -> POut
    decreases toks.len() - st.i, 3nat,
{
    match spec_parse_ladder(toks, st) {
        None => None,
        Some((st1, Err(e))) => Some((st1, Err(e))),
        Some((st1, Ok((r1, t1)))) => {
            if st1.i <= st.i || st1.i > toks.len() {
                None
            } else {
                match tok_at(toks, st1.i) {
                    Some((_, Ok(TokenV::ArrowFunc))) => match spec_parse_top(toks, with_i(st1, st1.i + 1)) {
                        None => None,
                        Some((st2, Err(e))) => Some((st2, Err(e))),
                        Some((st2, Ok((r2, t2)))) => Some((st2, Ok((rmax(r1, r2), TermV::Func(seq![t1, t2]))))),
                    },
                    Some((_, Ok(TokenV::ArrowMorph))) => match spec_parse_top(toks, with_i(st1, st1.i + 1)) {
                        None => None,
                        Some((st2, Err(e))) => Some((st2, Err(e))),
                        Some((st2, Ok((r2, t2)))) => Some((st2, Ok((rmax(r1, r2), TermV::Morph(Box::new(t1), Box::new(t2)))))),
                    },
                    Some((range, Err(err))) => Some((st1, Err((range, ParseError::LexError(err))))),
                    _ => Some((st1, Ok((r1, t1)))),
                }
            }
        },
    }
}

/// `ladder := rung ('~' rung)*`
pub open spec fn spec_parse_ladder(toks: Seq<TokV>, st: PState) -> POut
    decreases toks.len() - st.i, 2nat,
{
    match spec_parse_rung(toks, st) {
        None => None,
        Some((st1, Err(e))) => Some((st1, Err(e))),
        Some((st1, Ok((rt, t)))) => {
            if st1.i <= st.i || st1.i > toks.len() {
                None
            } else {
                spec_parse_ladder_rest(toks, st1, seq![t], rmax(dflt(), rt))
            }
        },
    }
}

/// The rungs after the first: `('~' rung)*`.
pub open spec fn spec_parse_ladder_rest(toks: Seq<TokV>, st: PState, rungs: Seq<TermV>, r: InputRegionTag) -> POut
    decreases toks.len() - st.i, 5nat,
{
    match tok_at(toks, st.i) {
        Some((rtok, Ok(TokenV::Ladder))) => {
            let r2 = rmax(r, rtok);
            match spec_parse_rung(toks, with_i(st, st.i + 1)) {
                None => None,
                Some((st1, Err(e))) => Some((st1, Err(e))),
                Some((st1, Ok((rt, t)))) => if st1.i <= st.i || st1.i > toks.len() {
                    None
                } else {
                    spec_parse_ladder_rest(toks, st1, rungs.push(t), rmax(r2, rt))
                },
            }
        },
        Some((rtok, Err(lexerr))) => Some((st, Err((rtok, ParseError::LexError(lexerr))))),
        _ => if rungs.len() == 1 {
            Some((st, Ok((r, rungs[0]))))
        } else {
            Some((st, Ok((r, TermV::Ladder(rungs)))))
        },
    }
}

/// A symbol: a known name, or a new type name (with a warning).
pub open spec fn spec_parse_symbol(st: PState, rtok: InputRegionTag, s: Seq<char>) -> POut {
    if ctx_size(st.ctx) + 1 >= u64::MAX {
        None
    } else {
        let warns = if spec_typeid(st.ctx, s) is None { st.warns.push((rtok, s)) } else { st.warns };
        match spec_typeid(st.ctx, s) {
            Some(TypeID::Fun(id)) => Some((PState { warns, ..st }, Ok((dflt(), TermV::Id(id))))),
            Some(TypeID::Var(id)) => Some((PState { warns, ..st }, Ok((dflt(), TermV::Var(id))))),
            None => {
                let (c2, id) = spec_add_typename(st.ctx, s);
                Some((PState { ctx: c2, warns, ..st }, Ok((dflt(), TermV::Id(id)))))
            },
        }
    }
}

/// `rung := univ | app | seq | struct | '(' ladder ')' | symbol | char | num`
pub open spec fn spec_parse_rung(toks: Seq<TokV>, st: PState) -> POut
    decreases toks.len() - st.i, 1nat,
{
    match tok_at(toks, st.i) {
        None => Some((st, Err((dflt(), ParseError::UnexpectedEnd)))),
        Some((rtok, tok)) => {
            let st1 = with_i(st, st.i + 1);
            match tok {
                Ok(TokenV::Univ) => spec_parse_univ(toks, st1),
                Ok(TokenV::OpenSpec) => spec_parse_app(toks, st1, Seq::empty()),
                Ok(TokenV::OpenSeq) => spec_parse_seq(toks, st1),
                Ok(TokenV::OpenStruct) => spec_parse_struct(toks, st1),
                Ok(TokenV::Open) => match spec_parse_ladder(toks, st1) {
                    None => None,
                    Some((st2, Err(e))) => Some((st2, Err(e))),
                    Some((st2, Ok((rt, t)))) => match tok_at(toks, st2.i) {
                        Some((_, Ok(TokenV::Close))) => Some((with_i(st2, st2.i + 1), Ok((rt, t)))),
                        Some((rtok2, Ok(_))) => Some((with_i(st2, st2.i + 1), Err((rtok2, ParseError::UnexpectedToken)))),
                        Some((rtok2, Err(err))) => Some((with_i(st2, st2.i + 1), Err((rtok2, ParseError::LexError(err))))),
                        None => Some((st2, Err((rt, ParseError::UnexpectedEnd)))),
                    },
                },
                Ok(TokenV::Close) | Ok(TokenV::CloseSpec) | Ok(TokenV::CloseSeq) | Ok(TokenV::CloseStruct) =>
                    Some((st1, Err((dflt(), ParseError::UnexpectedClose)))),
                Ok(TokenV::StructSep) | Ok(TokenV::EnumSep) | Ok(TokenV::AssignType) | Ok(TokenV::SubType)
                | Ok(TokenV::TraitType) | Ok(TokenV::ParallelType) | Ok(TokenV::ArrowFunc) | Ok(TokenV::ArrowMorph) =>
                    Some((st1, Err((rtok, ParseError::UnexpectedToken)))),
                Ok(TokenV::Ladder) => Some((st1, Err((rtok, ParseError::UnexpectedLadder)))),
                Ok(TokenV::Symbol(s)) => spec_parse_symbol(st1, rtok, s),
                Ok(TokenV::Char(c)) => Some((st1, Ok((rtok, TermV::Char(c))))),
                Ok(TokenV::Num(n)) => Some((st1, Ok((rtok, TermV::Num(n))))),
                Err(err) => Some((st1, Err((rtok, ParseError::LexError(err))))),
            }
        },
    }
}

/// `app := '<' top* '>'`, after the opening bracket; `args` are the arguments so far.
pub open spec fn spec_parse_app(toks: Seq<TokV>, st: PState, args: Seq<TermV>) -> POut
    decreases toks.len() - st.i, 4nat,
{
    match tok_at(toks, st.i) {
        None => Some((st, Err((dflt(), ParseError::UnexpectedEnd)))),
        Some((_, Ok(TokenV::CloseSpec))) => Some((with_i(st, st.i + 1), Ok((dflt(), TermV::Spec(args))))),
        Some(_) => match spec_parse_top(toks, st) {
            None => None,
            Some((st1, Err(e))) => Some((st1, Err(e))),
            Some((st1, Ok((_, a)))) => if st1.i <= st.i || st1.i > toks.len() {
                None
            } else {
                spec_parse_app(toks, st1, args.push(a))
            },
        },
    }
}

/// `seq := '[' ('~' top)? top ']'`, after the opening bracket.
pub open spec fn spec_parse_seq(toks: Seq<TokV>, st: PState) -> POut
    decreases toks.len() - st.i, 5nat,
{
    match tok_at(toks, st.i) {
        Some((range, Ok(TokenV::Ladder))) => match spec_parse_top(toks, with_i(st, st.i + 1)) {
            None => None,
            Some((st1, Err(e))) => Some((st1, Err(e))),
            Some((st1, Ok((_, sr)))) => if st1.i <= st.i || st1.i > toks.len() {
                None
            } else {
                spec_parse_seq_item(toks, st1, Some(Box::new(sr)), range)
            },
        },
        _ => spec_parse_seq_item(toks, st, None, dflt()),
    }
}

/// The item of a sequence type and the closing bracket.
pub open spec fn spec_parse_seq_item(toks: Seq<TokV>, st: PState, seq_repr: Option<Box<TermV>>, r: InputRegionTag) -> POut
    decreases toks.len() - st.i, 4nat,
{
    match tok_at(toks, st.i) {
        None => Some((st, Err((r, ParseError::UnexpectedEnd)))),
        Some((range, Ok(TokenV::CloseSeq))) => Some((st, Err((range, ParseError::UnexpectedClose)))),
        Some(_) => match spec_parse_top(toks, st) {
            None => None,
            Some((st1, Err(e))) => Some((st1, Err(e))),
            Some((st1, Ok((r_item, item)))) => {
                let r2 = rmax(r, r_item);
                match tok_at(toks, st1.i) {
                    Some((next_range, Ok(TokenV::CloseSeq))) =>
                        Some((with_i(st1, st1.i + 1), Ok((rmax(r2, next_range), TermV::Sequence { repr: seq_repr, item: Box::new(item) })))),
                    Some((next_range, Ok(_))) => Some((with_i(st1, st1.i + 1), Err((next_range, ParseError::UnexpectedToken)))),
                    Some((next_range, Err(err))) => Some((with_i(st1, st1.i + 1), Err((next_range, ParseError::LexError(err))))),
                    None => Some((st1, Err((r2, ParseError::UnexpectedEnd)))),
                }
            },
        },
    }
}

/// Whether a parse step made progress within the tokens.
pub open spec fn progressed(toks: Seq<TokV>, before: nat, after: nat) -> bool {
    before < after && after <= toks.len()
}

/// `struct := '{' ('~' top)? (symbol ':' top ';')* '}'` or with `'|' symbol ':' top`
/// variants, after the opening brace.
pub open spec fn spec_parse_struct(toks: Seq<TokV>, st: PState) -> POut
    decreases toks.len() - st.i, 5nat,
{
    match tok_at(toks, st.i) {
        Some((range, Ok(TokenV::Ladder))) => match spec_parse_top(toks, with_i(st, st.i + 1)) {
            None => None,
            Some((st1, Err(e))) => Some((st1, Err(e))),
            Some((st1, Ok((_, sr)))) => if !progressed(toks, st.i, st1.i) {
                None
            } else {
                spec_parse_struct_loop(toks, st1, Some(Box::new(sr)), false, Seq::empty(), Seq::empty(), range)
            },
        },
        _ => spec_parse_struct_loop(toks, st, None, false, Seq::empty(), Seq::empty(), dflt()),
    }
}

/// After a field name: the `:` that must follow it.
pub open spec fn spec_expect_assign(toks: Seq<TokV>, st: PState, r: InputRegionTag) -> Option<(PState, Result<(), (InputRegionTag, ParseError)>)> {
    match tok_at(toks, st.i) {
        Some((_, Ok(TokenV::AssignType))) => Some((with_i(st, st.i + 1), Ok(()))),
        Some((rtok, Err(err))) => Some((with_i(st, st.i + 1), Err((rtok, ParseError::LexError(err))))),
        Some((rtok, _)) => Some((with_i(st, st.i + 1), Err((rtok, ParseError::UnexpectedToken)))),
        None => Some((st, Err((r, ParseError::UnexpectedEnd)))),
    }
}

/// The fields of a struct or the variants of an enum, up to the closing brace.
pub open spec fn spec_parse_struct_loop(
    toks: Seq<TokV>,
    st: PState,
    repr: Option<Box<TermV>>,
    is_enum: bool,
    variants: Seq<FieldV>,
    members: Seq<FieldV>,
    r: InputRegionTag,
) -> POut
    decreases toks.len() - st.i, 4nat,
{
    match tok_at(toks, st.i) {
        None => Some((st, Err((r, ParseError::UnexpectedEnd)))),
        Some((r_tok, tok)) => {
            let r1 = rmax(r, r_tok);
            match tok {
                Ok(TokenV::CloseStruct) => {
                    let st1 = with_i(st, st.i + 1);
                    if is_enum {
                        Some((st1, Ok((r1, TermV::Enum { repr, variants }))))
                    } else {
                        Some((st1, Ok((r1, TermV::Struct { repr, members }))))
                    }
                },
                Ok(TokenV::EnumSep) => match tok_at(toks, st.i + 1) {
                    Some((rtok, Ok(TokenV::Symbol(sym)))) => {
                        let r2 = rmax(r1, rtok);
                        match spec_expect_assign(toks, with_i(st, st.i + 2), r2) {
                            None => None,
                            Some((st2, Err(e))) => Some((st2, Err(e))),
                            Some((st2, Ok(()))) => match spec_parse_top(toks, st2) {
                                None => None,
                                Some((st3, Err(e))) => Some((st3, Err(e))),
                                Some((st3, Ok((rty, ty)))) => if !progressed(toks, st.i, st3.i) {
                                    None
                                } else {
                                    spec_parse_struct_loop(toks, st3, repr, true, variants.push(FieldV { symbol: sym, ty }), members, rmax(r2, rty))
                                },
                            },
                        }
                    },
                    Some((rtok, Err(err))) => Some((with_i(st, st.i + 2), Err((rtok, ParseError::LexError(err))))),
                    Some((rtok, _)) => Some((with_i(st, st.i + 2), Err((rtok, ParseError::UnexpectedToken)))),
                    None => Some((with_i(st, st.i + 1), Err((r1, ParseError::UnexpectedEnd)))),
                },
                Ok(TokenV::Symbol(sym)) => if is_enum {
                    Some((st, Err((r_tok, ParseError::UnexpectedToken))))
                } else {
                    match spec_expect_assign(toks, with_i(st, st.i + 1), r1) {
                        None => None,
                        Some((st2, Err(e))) => Some((st2, Err(e))),
                        Some((st2, Ok(()))) => match spec_parse_top(toks, st2) {
                            None => None,
                            Some((st3, Err(e))) => Some((st3, Err(e))),
                            Some((st3, Ok((rty, ty)))) => {
                                let r2 = rmax(r1, rty);
                                match tok_at(toks, st3.i) {
                                    Some((_, Ok(TokenV::StructSep))) => if !progressed(toks, st.i, st3.i + 1) {
                                        None
                                    } else {
                                        spec_parse_struct_loop(toks, with_i(st3, st3.i + 1), repr, is_enum, variants, members.push(FieldV { symbol: sym, ty }), r2)
                                    },
                                    Some((rtok, Err(err))) => Some((with_i(st3, st3.i + 1), Err((rtok, ParseError::LexError(err))))),
                                    Some((rtok, _)) => Some((with_i(st3, st3.i + 1), Err((rtok, ParseError::UnexpectedToken)))),
                                    None => Some((st3, Err((r2, ParseError::UnexpectedEnd)))),
                                }
                            },
                        },
                    }
                },
                Ok(_) => Some((st, Err((r1, ParseError::UnexpectedToken)))),
                Err(err) => Some((st, Err((r1, ParseError::LexError(err))))),
            }
        },
    }
}

/// `univ := '∀' (symbol (':' top)? '∀'?)* ('(' top rel top ')')* top`, after the first
/// `∀`; parsed in a new scope that is left at the end.
pub open spec fn spec_parse_univ(toks: Seq<TokV>, st: PState) -> POut
    decreases toks.len() - st.i, 8nat,
{
    if st.ctx.sub_count >= u64::MAX {
        None
    } else {
        match spec_parse_univ_vars(toks, PState { ctx: spec_enter(st.ctx), ..st }, Seq::empty(), dflt()) {
            None => None,
            Some((st2, res)) => match st2.ctx.parent {
                Some(p) => Some((PState { ctx: *p, ..st2 }, res)),
                None => None,
            },
        }
    }
}

/// The variables of a universal type.
pub open spec fn spec_parse_univ_vars(toks: Seq<TokV>, st: PState, gamma: Seq<EntryV>, r: InputRegionTag) -> POut
    decreases toks.len() - st.i, 7nat,
{
    match tok_at(toks, st.i) {
        None => spec_parse_univ_bounds(toks, st, gamma, Seq::empty(), r),
        Some((rtok, tok)) => {
            let r1 = rmax(r, rtok);
            let st1 = with_i(st, st.i + 1);
            match tok {
                Ok(TokenV::Symbol(sym)) => match tok_at(toks, st1.i) {
                    Some((_, Ok(TokenV::AssignType))) => match spec_parse_top(toks, with_i(st1, st1.i + 1)) {
                        None => None,
                        Some((st2, Err(e))) => Some((st2, Err(e))),
                        Some((st2, Ok((rt, t)))) => {
                            let r2 = rmax(r1, rt);
                            let g2 = gamma.push(EntryV { symbol: sym, kind: KindV::Value(Box::new(t)) });
                            let (c3, _) = spec_add_variable(st2.ctx, sym, KindV::Value(Box::new(t)));
                            let st3 = PState { ctx: c3, ..st2 };
                            if !progressed(toks, st.i, st3.i) {
                                None
                            } else {
                                match tok_at(toks, st3.i) {
                                    Some((_, Ok(TokenV::Univ))) => spec_parse_univ_vars(toks, with_i(st3, st3.i + 1), g2, r2),
                                    _ => spec_parse_univ_bounds(toks, st3, g2, Seq::empty(), r2),
                                }
                            }
                        },
                    },
                    Some((_, Ok(TokenV::Univ))) => {
                        let g2 = gamma.push(EntryV { symbol: sym, kind: KindV::Type });
                        let (c3, _) = spec_add_variable(st1.ctx, sym, KindV::Type);
                        spec_parse_univ_vars(toks, PState { ctx: c3, i: st1.i + 1, ..st1 }, g2, r1)
                    },
                    Some((_, Ok(_))) => {
                        let g2 = gamma.push(EntryV { symbol: sym, kind: KindV::Type });
                        let (c3, _) = spec_add_variable(st1.ctx, sym, KindV::Type);
                        spec_parse_univ_bounds(toks, PState { ctx: c3, ..st1 }, g2, Seq::empty(), r1)
                    },
                    Some((rtok2, Err(err))) => Some((st1, Err((rtok2, ParseError::LexError(err))))),
                    None => spec_parse_univ_bounds(toks, st1, gamma, Seq::empty(), r1),
                },
                Ok(_) => Some((st1, Err((rtok, ParseError::UnexpectedToken)))),
                Err(err) => Some((st1, Err((rtok, ParseError::LexError(err))))),
            }
        },
    }
}

/// The bounds of a universal type, then its body.
pub open spec fn spec_parse_univ_bounds(toks: Seq<TokV>, st: PState, gamma: Seq<EntryV>, bounds: Seq<PairV>, r: InputRegionTag) -> POut
    decreases toks.len() - st.i, 6nat,
{
    match tok_at(toks, st.i) {
        Some((_, Ok(TokenV::Open))) => match spec_parse_top(toks, with_i(st, st.i + 1)) {
            None => None,
            Some((st1, Err(e))) => Some((st1, Err(e))),
            Some((st1, Ok((rlhs, lhs)))) => if !progressed(toks, st.i, st1.i) {
                None
            } else {
                let r1 = rmax(r, rlhs);
                let rel = tok_at(toks, st1.i);
                let st2 = if rel is Some { with_i(st1, st1.i + 1) } else { st1 };
                match spec_parse_top(toks, st2) {
                    None => None,
                    Some((st3, Err(e))) => Some((st3, Err(e))),
                    Some((st3, Ok((rrhs, rhs)))) => {
                        let r2 = rmax(r1, rrhs);
                        let pair = match rel {
                            Some((_, Ok(TokenV::SubType))) => Some(PairV::Subtype(lhs, rhs)),
                            Some((_, Ok(TokenV::TraitType))) => Some(PairV::Trait(lhs, rhs)),
                            Some((_, Ok(TokenV::ParallelType))) => Some(PairV::Parallel(lhs, rhs)),
                            _ => None,
                        };
                        match pair {
                            None => None,
                            Some(pr) => match tok_at(toks, st3.i) {
                                Some((rtok2, Ok(TokenV::Close))) => if !progressed(toks, st.i, st3.i + 1) {
                                    None
                                } else {
                                    spec_parse_univ_bounds(toks, with_i(st3, st3.i + 1), gamma, bounds.push(pr), rmax(r2, rtok2))
                                },
                                Some((rtok2, Ok(_))) => Some((with_i(st3, st3.i + 1), Err((rtok2, ParseError::UnexpectedToken)))),
                                Some((rtok2, Err(err))) => Some((with_i(st3, st3.i + 1), Err((rtok2, ParseError::LexError(err))))),
                                None => Some((st3, Err((r2, ParseError::UnexpectedEnd)))),
                            },
                        }
                    },
                }
            },
        },
        Some((rtok, Err(err))) => Some((st, Err((rtok, ParseError::LexError(err))))),
        _ => match spec_parse_top(toks, st) {
            None => None,
            Some((st1, Err(e))) => Some((st1, Err(e))),
            Some((st1, Ok((rt, t)))) => Some((st1, Ok((rmax(r, rt), TermV::Univ { gamma, bounds, tau: Box::new(t) })))),
        },
    }
}

/// The tokens, the context and the warnings after parsing a whole string: the term, or
/// the error; a token left over after the term is an error too.
pub open spec fn spec_parse_str(s: Seq<char>, ctx: CtxV, warns: Seq<(InputRegionTag, Seq<char>)>) -> Option<(CtxV, Seq<(InputRegionTag, Seq<char>)>, Result<TermV, (InputRegionTag, ParseError)>)> {
    match spec_tokens(s, 0) {
        None => None,
        Some(toks) => match spec_parse_top(toks, PState { i: 0, ctx, warns }) {
            None => None,
            Some((st, Err(e))) => Some((st.ctx, st.warns, Err(e))),
            Some((st, Ok((_, t)))) => if st.i < toks.len() {
                Some((st.ctx, st.warns, Err((toks[st.i as int].0, ParseError::UnexpectedToken))))
            } else {
                Some((st.ctx, st.warns, Ok(t)))
            },
        },
    }
}

//------------------------------------------------------------------
// Executable parser
//------------------------------------------------------------------

/// A token with its region.
pub type Tok = (InputRegionTag, Result<LadderTypeToken, LexError>);

/// The result of a parse step.
pub type PRes = Result<(InputRegionTag, TypeTerm), (InputRegionTag, ParseError)>;

pub open spec fn tok_view(t: Tok) -> TokV {
    (t.0, match t.1 {
        Ok(x) => Ok(x@),
        Err(e) => Err(e),
    })
}

pub open spec fn toks_view(s: Seq<Tok>) -> Seq<TokV> {
    s.map_values(|t: Tok| tok_view(t))
}

pub open spec fn pres_view(r: PRes) -> PResV {
    match r {
        Ok((g, t)) => Ok((g, t@)),
        Err(e) => Err(e),
    }
}

pub open spec fn warn_view(w: ParseInfo) -> (InputRegionTag, Seq<char>) {
    (w.char_range, match w.info {
        ParseInfoType::UnknownTypeName(s) => s@,
    })
}

pub open spec fn warns_view(s: Seq<ParseInfo>) -> Seq<(InputRegionTag, Seq<char>)> {
    s.map_values(|w: ParseInfo| warn_view(w))
}

pub open spec fn ps(i: usize, ctx: CtxV, warns: Seq<ParseInfo>) -> PState {
    PState { i: i as nat, ctx, warns: warns_view(warns) }
}

/// The tokens of a string.
pub fn tokenize(s: &str) -> (r: Vec<Tok>)
    requires
        s@.len() + 8 < usize::MAX,
        spec_tokens(s@, 0) is Some,
    ensures
        spec_tokens(s@, 0) == Some(toks_view(r@)),
{
    let mut lx = LadderTypeLexer::from_str(s);
    let mut out: Vec<Tok> = Vec::new();
    let ghost target = spec_tokens(s@, 0);
    assert(toks_view(out@) =~= Seq::<TokV>::empty());
    assert(target == Some(toks_view(out@) + spec_tokens(s@, lx.spec_position() as nat).unwrap()));
    loop
        invariant
            lx.wf(),
            lx.input() == s@,
            spec_tokens(s@, lx.spec_position() as nat) is Some,
            target == Some(toks_view(out@) + spec_tokens(s@, lx.spec_position() as nat).unwrap()),
            target == spec_tokens(s@, 0),
        decreases s@.len() + 3 - lx.spec_position(),
    {
        let ghost p0 = lx.spec_position() as nat;
        let ghost rest = spec_tokens(s@, p0).unwrap();
        match lx.next() {
            None => {
                assert(rest =~= Seq::<TokV>::empty());
                assert(toks_view(out@) + rest =~= toks_view(out@));
                return out;
            },
            Some(t) => {
                let ghost tv = tok_view(t);
                assert(rest == seq![tv] + spec_tokens(s@, lx.spec_position() as nat).unwrap());
                let ghost o0 = out@;
                out.push(t);
                assert(toks_view(out@) =~= toks_view(o0).push(tv));
                assert(toks_view(o0) + rest =~= toks_view(out@) + spec_tokens(s@, lx.spec_position() as nat).unwrap());
            },
        }
    }
}


proof fn lemma_warns_push(w: Seq<ParseInfo>, x: ParseInfo)
    ensures
        warns_view(w.push(x)) == warns_view(w).push(warn_view(x)),
{
    assert(warns_view(w.push(x)) =~= warns_view(w).push(warn_view(x)));
}

proof fn lemma_two_terms(a: TypeTerm, b: TypeTerm)
    ensures
        crate::term::terms_view(seq![a, b]) == seq![a@, b@],
{
    crate::term::lemma_terms_view(seq![a, b]);
    assert(crate::term::terms_view(seq![a, b]) =~= seq![a@, b@]);
}

/// A symbol token: the identifier the context has for it, or a new type name, with a
/// warning about the unknown name.
fn parse_symbol(i1: usize, rtok: InputRegionTag, sym: &String, ctx: &mut ContextPtr, warns: &mut Vec<ParseInfo>) -> (r: (usize, PRes))
    requires
        spec_parse_symbol(ps(i1, old(ctx)@, old(warns)@), rtok, sym@) is Some,
    ensures
        spec_parse_symbol(ps(i1, old(ctx)@, old(warns)@), rtok, sym@) == Some((ps(r.0, final(ctx)@, final(warns)@), pres_view(r.1))),
{
    let id = ctx.get_typeid(sym.as_str());
    if id.is_none() {
        let ghost w0 = warns@;
        let info = ParseInfo { char_range: rtok, info: ParseInfoType::UnknownTypeName(sym.clone()) };
        proof { lemma_warns_push(w0, info); }
        warns.push(info);
    }
    match id {
        Some(TypeID::Fun(x)) => (i1, Ok((InputRegionTag::default_region(), TypeTerm::Id(x)))),
        Some(TypeID::Var(x)) => (i1, Ok((InputRegionTag::default_region(), TypeTerm::Var(x)))),
        None => {
            let x = ctx.add_typename(sym.as_str());
            (i1, Ok((InputRegionTag::default_region(), TypeTerm::Id(x))))
        },
    }
}

/// `top := ladder (('-->' | '-morph->') top)?`
fn parse_top(toks: &Vec<Tok>, i: usize, ctx: &mut ContextPtr, warns: &mut Vec<ParseInfo>) -> (r: (usize, PRes))
    requires
        spec_parse_top(toks_view(toks@), ps(i, old(ctx)@, old(warns)@)) is Some,
    ensures
        spec_parse_top(toks_view(toks@), ps(i, old(ctx)@, old(warns)@)) == Some((ps(r.0, final(ctx)@, final(warns)@), pres_view(r.1))),
    decreases toks.len() - i, 3nat,
{
    let ghost tv = toks_view(toks@);
    assert(tv.len() == toks.len());
    let (i1, res1) = parse_ladder(toks, i, ctx, warns);
    match res1 {
        Err(e) => (i1, Err(e)),
        Ok((r1, t1)) => {
            if i1 < toks.len() {
                assert(tv[i1 as int] == tok_view(toks@[i1 as int]));
                let rt = toks[i1].0;
                match &toks[i1].1 {
                    Ok(LadderTypeToken::ArrowFunc) => {
                        let (i2, res2) = parse_top(toks, i1 + 1, ctx, warns);
                        match res2 {
                            Err(e) => (i2, Err(e)),
                            Ok((r2, t2)) => {
                                proof { lemma_two_terms(t1, t2); }
                                let mut v: Vec<TypeTerm> = Vec::new();
                                v.push(t1);
                                v.push(t2);
                                assert(v@ =~= seq![t1, t2]);
                                (i2, Ok((InputRegionTag::max(r1, r2), TypeTerm::Func(v))))
                            },
                        }
                    },
                    Ok(LadderTypeToken::ArrowMorph) => {
                        let (i2, res2) = parse_top(toks, i1 + 1, ctx, warns);
                        match res2 {
                            Err(e) => (i2, Err(e)),
                            Ok((r2, t2)) => (i2, Ok((InputRegionTag::max(r1, r2), TypeTerm::Morph(Box::new(t1), Box::new(t2))))),
                        }
                    },
                    Err(err) => (i1, Err((rt, ParseError::LexError(*err)))),
                    _ => (i1, Ok((r1, t1))),
                }
            } else {
                (i1, Ok((r1, t1)))
            }
        },
    }
}

/// `ladder := rung ('~' rung)*`
fn parse_ladder(toks: &Vec<Tok>, i: usize, ctx: &mut ContextPtr, warns: &mut Vec<ParseInfo>) -> (r: (usize, PRes))
    requires
        spec_parse_ladder(toks_view(toks@), ps(i, old(ctx)@, old(warns)@)) is Some,
    ensures
        spec_parse_ladder(toks_view(toks@), ps(i, old(ctx)@, old(warns)@)) == Some((ps(r.0, final(ctx)@, final(warns)@), pres_view(r.1))),
    decreases toks.len() - i, 2nat,
{
    let (i1, res) = parse_rung(toks, i, ctx, warns);
    match res {
        Err(e) => (i1, Err(e)),
        Ok((rt, t)) => {
            let mut rungs: Vec<TypeTerm> = Vec::new();
            proof { crate::term::lemma_terms_view_push(rungs@, t); }
            rungs.push(t);
            assert(crate::term::terms_view(rungs@) =~= seq![t@]) by {
                crate::term::lemma_terms_view(rungs@);
            }
            let r = InputRegionTag::max(InputRegionTag::default_region(), rt);
            parse_ladder_rest(toks, i1, ctx, warns, rungs, r)
        },
    }
}

/// The rungs after the first.
fn parse_ladder_rest(toks: &Vec<Tok>, i: usize, ctx: &mut ContextPtr, warns: &mut Vec<ParseInfo>, rungs: Vec<TypeTerm>, r: InputRegionTag) -> (res: (usize, PRes))
    requires
        spec_parse_ladder_rest(toks_view(toks@), ps(i, old(ctx)@, old(warns)@), crate::term::terms_view(rungs@), r) is Some,
    ensures
        spec_parse_ladder_rest(toks_view(toks@), ps(i, old(ctx)@, old(warns)@), crate::term::terms_view(rungs@), r) == Some((ps(res.0, final(ctx)@, final(warns)@), pres_view(res.1))),
    decreases toks.len() - i, 5nat,
{
    let ghost tv = toks_view(toks@);
    assert(tv.len() == toks.len());
    proof { crate::term::lemma_terms_view(rungs@); }
    let mut rungs = rungs;
    if i < toks.len() {
        assert(tv[i as int] == tok_view(toks@[i as int]));
        let rtok = toks[i].0;
        match &toks[i].1 {
            Ok(LadderTypeToken::Ladder) => {
                let r2 = InputRegionTag::max(r, rtok);
                let (i1, res) = parse_rung(toks, i + 1, ctx, warns);
                match res {
                    Err(e) => { return (i1, Err(e)); },
                    Ok((rt, t)) => {
                        proof { crate::term::lemma_terms_view_push(rungs@, t); }
                        rungs.push(t);
                        return parse_ladder_rest(toks, i1, ctx, warns, rungs, InputRegionTag::max(r2, rt));
                    },
                }
            },
            Err(lexerr) => { return (i, Err((rtok, ParseError::LexError(*lexerr)))); },
            _ => {},
        }
    }
    if rungs.len() == 1 {
        let t = rungs.pop().unwrap();
        (i, Ok((r, t)))
    } else {
        (i, Ok((r, TypeTerm::Ladder(rungs))))
    }
}

/// `rung := univ | app | seq | struct | '(' ladder ')' | symbol | char | num`
fn parse_rung(toks: &Vec<Tok>, i: usize, ctx: &mut ContextPtr, warns: &mut Vec<ParseInfo>) -> (r: (usize, PRes))
    requires
        spec_parse_rung(toks_view(toks@), ps(i, old(ctx)@, old(warns)@)) is Some,
    ensures
        spec_parse_rung(toks_view(toks@), ps(i, old(ctx)@, old(warns)@)) == Some((ps(r.0, final(ctx)@, final(warns)@), pres_view(r.1))),
    decreases toks.len() - i, 1nat,
{
    let ghost tv = toks_view(toks@);
    assert(tv.len() == toks.len());
    if i >= toks.len() {
        return (i, Err((InputRegionTag::default_region(), ParseError::UnexpectedEnd)));
    }
    assert(tv[i as int] == tok_view(toks@[i as int]));
    let rtok = toks[i].0;
    let i1 = i + 1;
    match &toks[i].1 {
        Ok(LadderTypeToken::Univ) => parse_univ(toks, i1, ctx, warns),
        Ok(LadderTypeToken::OpenSpec) => {
            let args: Vec<TypeTerm> = Vec::new();
            assert(crate::term::terms_view(args@) =~= Seq::<TermV>::empty());
            parse_app(toks, i1, ctx, warns, args)
        },
        Ok(LadderTypeToken::OpenSeq) => parse_seq(toks, i1, ctx, warns),
        Ok(LadderTypeToken::OpenStruct) => parse_struct(toks, i1, ctx, warns),
        Ok(LadderTypeToken::Open) => parse_paren(toks, i1, ctx, warns),
        Ok(LadderTypeToken::Close) | Ok(LadderTypeToken::CloseSpec) | Ok(LadderTypeToken::CloseSeq) | Ok(LadderTypeToken::CloseStruct) =>
            (i1, Err((InputRegionTag::default_region(), ParseError::UnexpectedClose))),
        Ok(LadderTypeToken::StructSep) | Ok(LadderTypeToken::EnumSep) | Ok(LadderTypeToken::AssignType) | Ok(LadderTypeToken::SubType)
        | Ok(LadderTypeToken::TraitType) | Ok(LadderTypeToken::ParallelType) | Ok(LadderTypeToken::ArrowFunc) | Ok(LadderTypeToken::ArrowMorph) =>
            (i1, Err((rtok, ParseError::UnexpectedToken))),
        Ok(LadderTypeToken::Ladder) => (i1, Err((rtok, ParseError::UnexpectedLadder))),
        Ok(LadderTypeToken::Symbol(s)) => parse_symbol(i1, rtok, s, ctx, warns),
        Ok(LadderTypeToken::Char(c)) => (i1, Ok((rtok, TypeTerm::Char(*c)))),
        Ok(LadderTypeToken::Num(n)) => (i1, Ok((rtok, TypeTerm::Num(*n)))),
        Err(err) => (i1, Err((rtok, ParseError::LexError(*err)))),
    }
}

/// `'(' ladder ')'`, after the opening parenthesis.
fn parse_paren(toks: &Vec<Tok>, i1: usize, ctx: &mut ContextPtr, warns: &mut Vec<ParseInfo>) -> (r: (usize, PRes))
    requires
        1 <= i1 <= toks.len(),
        toks_view(toks@)[i1 - 1].1 == Ok::<TokenV, LexError>(TokenV::Open),
        spec_parse_rung(toks_view(toks@), ps((i1 - 1) as usize, old(ctx)@, old(warns)@)) is Some,
    ensures
        spec_parse_rung(toks_view(toks@), ps((i1 - 1) as usize, old(ctx)@, old(warns)@)) == Some((ps(r.0, final(ctx)@, final(warns)@), pres_view(r.1))),
    decreases toks.len() - (i1 - 1), 0nat,
{
    let ghost tv = toks_view(toks@);
    assert(tv.len() == toks.len());
    let ghost st = ps((i1 - 1) as usize, ctx@, warns@);
    assert(with_i(st, st.i + 1) == ps(i1, ctx@, warns@));
    let (i2, res) = parse_ladder(toks, i1, ctx, warns);
    match res {
        Err(e) => (i2, Err(e)),
        Ok((rt, t)) => {
            if i2 < toks.len() {
                assert(tv[i2 as int] == tok_view(toks@[i2 as int]));
                let rtok2 = toks[i2].0;
                match &toks[i2].1 {
                    Ok(LadderTypeToken::Close) => (i2 + 1, Ok((rt, t))),
                    Ok(_) => (i2 + 1, Err((rtok2, ParseError::UnexpectedToken))),
                    Err(err) => (i2 + 1, Err((rtok2, ParseError::LexError(*err)))),
                }
            } else {
                (i2, Err((rt, ParseError::UnexpectedEnd)))
            }
        },
    }
}

/// `app := '<' top* '>'`, after the opening bracket; `args` are the arguments so far.
fn parse_app(toks: &Vec<Tok>, i: usize, ctx: &mut ContextPtr, warns: &mut Vec<ParseInfo>, args: Vec<TypeTerm>) -> (r: (usize, PRes))
    requires
        spec_parse_app(toks_view(toks@), ps(i, old(ctx)@, old(warns)@), crate::term::terms_view(args@)) is Some,
    ensures
        spec_parse_app(toks_view(toks@), ps(i, old(ctx)@, old(warns)@), crate::term::terms_view(args@)) == Some((ps(r.0, final(ctx)@, final(warns)@), pres_view(r.1))),
    decreases toks.len() - i, 4nat,
{
    let ghost tv = toks_view(toks@);
    assert(tv.len() == toks.len());
    let mut args = args;
    if i >= toks.len() {
        return (i, Err((InputRegionTag::default_region(), ParseError::UnexpectedEnd)));
    }
    assert(tv[i as int] == tok_view(toks@[i as int]));
    match &toks[i].1 {
        Ok(LadderTypeToken::CloseSpec) => {
            return (i + 1, Ok((InputRegionTag::default_region(), TypeTerm::Spec(args))));
        },
        _ => {},
    }
    let (i1, res) = parse_top(toks, i, ctx, warns);
    match res {
        Err(e) => (i1, Err(e)),
        Ok((_, a)) => {
            proof { crate::term::lemma_terms_view_push(args@, a); }
            args.push(a);
            parse_app(toks, i1, ctx, warns, args)
        },
    }
}

/// `seq := '[' ('~' top)? top ']'`, after the opening bracket.
fn parse_seq(toks: &Vec<Tok>, i: usize, ctx: &mut ContextPtr, warns: &mut Vec<ParseInfo>) -> (r: (usize, PRes))
    requires
        spec_parse_seq(toks_view(toks@), ps(i, old(ctx)@, old(warns)@)) is Some,
    ensures
        spec_parse_seq(toks_view(toks@), ps(i, old(ctx)@, old(warns)@)) == Some((ps(r.0, final(ctx)@, final(warns)@), pres_view(r.1))),
    decreases toks.len() - i, 5nat,
{
    let ghost tv = toks_view(toks@);
    assert(tv.len() == toks.len());
    if i < toks.len() {
        assert(tv[i as int] == tok_view(toks@[i as int]));
        let range = toks[i].0;
        match &toks[i].1 {
            Ok(LadderTypeToken::Ladder) => {
                let (i1, res) = parse_top(toks, i + 1, ctx, warns);
                match res {
                    Err(e) => { return (i1, Err(e)); },
                    Ok((_, sr)) => {
                        let repr = Some(Box::new(sr));
                        proof { crate::term::lemma_opt_view(repr); }
                        return parse_seq_item(toks, i1, ctx, warns, repr, range);
                    },
                }
            },
            _ => {},
        }
    }
    proof { crate::term::lemma_opt_view(None); }
    parse_seq_item(toks, i, ctx, warns, None, InputRegionTag::default_region())
}

/// The item of a sequence type and the closing bracket.
fn parse_seq_item(toks: &Vec<Tok>, i: usize, ctx: &mut ContextPtr, warns: &mut Vec<ParseInfo>, seq_repr: Option<Box<TypeTerm>>, r: InputRegionTag) -> (res: (usize, PRes))
    requires
        spec_parse_seq_item(toks_view(toks@), ps(i, old(ctx)@, old(warns)@), crate::term::opt_view(seq_repr), r) is Some,
    ensures
        spec_parse_seq_item(toks_view(toks@), ps(i, old(ctx)@, old(warns)@), crate::term::opt_view(seq_repr), r) == Some((ps(res.0, final(ctx)@, final(warns)@), pres_view(res.1))),
    decreases toks.len() - i, 4nat,
{
    let ghost tv = toks_view(toks@);
    assert(tv.len() == toks.len());
    if i >= toks.len() {
        return (i, Err((r, ParseError::UnexpectedEnd)));
    }
    assert(tv[i as int] == tok_view(toks@[i as int]));
    let range = toks[i].0;
    match &toks[i].1 {
        Ok(LadderTypeToken::CloseSeq) => {
            return (i, Err((range, ParseError::UnexpectedClose)));
        },
        _ => {},
    }
    let (i1, res) = parse_top(toks, i, ctx, warns);
    match res {
        Err(e) => (i1, Err(e)),
        Ok((r_item, item)) => {
            let r2 = InputRegionTag::max(r, r_item);
            if i1 < toks.len() {
                assert(tv[i1 as int] == tok_view(toks@[i1 as int]));
                let next_range = toks[i1].0;
                match &toks[i1].1 {
                    Ok(LadderTypeToken::CloseSeq) => (i1 + 1, Ok((InputRegionTag::max(r2, next_range), TypeTerm::Sequence { seq_repr, item: Box::new(item) }))),
                    Ok(_) => (i1 + 1, Err((next_range, ParseError::UnexpectedToken))),
                    Err(err) => (i1 + 1, Err((next_range, ParseError::LexError(*err)))),
                }
            } else {
                (i1, Err((r2, ParseError::UnexpectedEnd)))
            }
        },
    }
}

/// `struct := '{' ('~' top)? ... '}'`, after the opening brace.
fn parse_struct(toks: &Vec<Tok>, i: usize, ctx: &mut ContextPtr, warns: &mut Vec<ParseInfo>) -> (r: (usize, PRes))
    requires
        spec_parse_struct(toks_view(toks@), ps(i, old(ctx)@, old(warns)@)) is Some,
    ensures
        spec_parse_struct(toks_view(toks@), ps(i, old(ctx)@, old(warns)@)) == Some((ps(r.0, final(ctx)@, final(warns)@), pres_view(r.1))),
    decreases toks.len() - i, 5nat,
{
    let ghost tv = toks_view(toks@);
    assert(tv.len() == toks.len());
    let variants: Vec<EnumVariant> = Vec::new();
    let members: Vec<StructMember> = Vec::new();
    assert(crate::term::variants_view(variants@) =~= Seq::<FieldV>::empty());
    assert(crate::term::members_view(members@) =~= Seq::<FieldV>::empty());
    if i < toks.len() {
        assert(tv[i as int] == tok_view(toks@[i as int]));
        let range = toks[i].0;
        match &toks[i].1 {
            Ok(LadderTypeToken::Ladder) => {
                let (i1, res) = parse_top(toks, i + 1, ctx, warns);
                match res {
                    Err(e) => { return (i1, Err(e)); },
                    Ok((_, sr)) => {
                        let repr = Some(Box::new(sr));
                        proof { crate::term::lemma_opt_view(repr); }
                        return parse_struct_loop(toks, i1, ctx, warns, repr, false, variants, members, range);
                    },
                }
            },
            _ => {},
        }
    }
    proof { crate::term::lemma_opt_view(None); }
    parse_struct_loop(toks, i, ctx, warns, None, false, variants, members, InputRegionTag::default_region())
}

/// After a field name: the `:` that must follow it.
fn expect_assign(toks: &Vec<Tok>, i: usize, r: InputRegionTag, ctx: &ContextPtr, warns: &Vec<ParseInfo>) -> (res: (usize, Result<(), (InputRegionTag, ParseError)>))
    ensures
        spec_expect_assign(toks_view(toks@), ps(i, ctx@, warns@), r) == Some((ps(res.0, ctx@, warns@), res.1)),
{
    let ghost tv = toks_view(toks@);
    assert(tv.len() == toks.len());
    if i < toks.len() {
        assert(tv[i as int] == tok_view(toks@[i as int]));
        let rtok = toks[i].0;
        match &toks[i].1 {
            Ok(LadderTypeToken::AssignType) => (i + 1, Ok(())),
            Err(err) => (i + 1, Err((rtok, ParseError::LexError(*err)))),
            _ => (i + 1, Err((rtok, ParseError::UnexpectedToken))),
        }
    } else {
        (i, Err((r, ParseError::UnexpectedEnd)))
    }
}

/// The fields of a struct or the variants of an enum, up to the closing brace.
fn parse_struct_loop(
    toks: &Vec<Tok>,
    i: usize,
    ctx: &mut ContextPtr,
    warns: &mut Vec<ParseInfo>,
    repr: Option<Box<TypeTerm>>,
    is_enum: bool,
    variants: Vec<EnumVariant>,
    members: Vec<StructMember>,
    r: InputRegionTag,
) -> (res: (usize, PRes))
    requires
        spec_parse_struct_loop(toks_view(toks@), ps(i, old(ctx)@, old(warns)@), crate::term::opt_view(repr), is_enum,
            crate::term::variants_view(variants@), crate::term::members_view(members@), r) is Some,
    ensures
        spec_parse_struct_loop(toks_view(toks@), ps(i, old(ctx)@, old(warns)@), crate::term::opt_view(repr), is_enum,
            crate::term::variants_view(variants@), crate::term::members_view(members@), r)
            == Some((ps(res.0, final(ctx)@, final(warns)@), pres_view(res.1))),
    decreases toks.len() - i, 4nat,
{
    let ghost tv = toks_view(toks@);
    assert(tv.len() == toks.len());
    if i >= toks.len() {
        return (i, Err((r, ParseError::UnexpectedEnd)));
    }
    assert(tv[i as int] == tok_view(toks@[i as int]));
    let r_tok = toks[i].0;
    let r1 = InputRegionTag::max(r, r_tok);
    match &toks[i].1 {
        Ok(LadderTypeToken::CloseStruct) => {
            if is_enum {
                (i + 1, Ok((r1, TypeTerm::Enum { enum_repr: repr, variants })))
            } else {
                (i + 1, Ok((r1, TypeTerm::Struct { struct_repr: repr, members })))
            }
        },
        Ok(LadderTypeToken::EnumSep) => parse_struct_variant(toks, i, ctx, warns, repr, is_enum, variants, members, r),
        Ok(LadderTypeToken::Symbol(sym)) => {
            if is_enum {
                (i, Err((r_tok, ParseError::UnexpectedToken)))
            } else {
                parse_struct_member(toks, i, ctx, warns, repr, variants, members, r)
            }
        },
        Ok(_) => (i, Err((r1, ParseError::UnexpectedToken))),
        Err(err) => (i, Err((r1, ParseError::LexError(*err)))),
    }
}

/// A variant `'|' symbol ':' top` of an enum, at the `|`.
fn parse_struct_variant(
    toks: &Vec<Tok>,
    i: usize,
    ctx: &mut ContextPtr,
    warns: &mut Vec<ParseInfo>,
    repr: Option<Box<TypeTerm>>,
    is_enum: bool,
    variants: Vec<EnumVariant>,
    members: Vec<StructMember>,
    r: InputRegionTag,
) -> (res: (usize, PRes))
    requires
        i < toks.len(),
        toks_view(toks@)[i as int].1 == Ok::<TokenV, LexError>(TokenV::EnumSep),
        spec_parse_struct_loop(toks_view(toks@), ps(i, old(ctx)@, old(warns)@), crate::term::opt_view(repr), is_enum,
            crate::term::variants_view(variants@), crate::term::members_view(members@), r) is Some,
    ensures
        spec_parse_struct_loop(toks_view(toks@), ps(i, old(ctx)@, old(warns)@), crate::term::opt_view(repr), is_enum,
            crate::term::variants_view(variants@), crate::term::members_view(members@), r)
            == Some((ps(res.0, final(ctx)@, final(warns)@), pres_view(res.1))),
    decreases toks.len() - i, 3nat,
{
    let ghost tv = toks_view(toks@);
    assert(tv.len() == toks.len());
    assert(tv[i as int] == tok_view(toks@[i as int]));
    let r1 = InputRegionTag::max(r, toks[i].0);
    let mut variants = variants;
    if i + 1 >= toks.len() {
        return (i + 1, Err((r1, ParseError::UnexpectedEnd)));
    }
    assert(tv[i + 1] == tok_view(toks@[i + 1]));
    let rtok = toks[i + 1].0;
    match &toks[i + 1].1 {
        Ok(LadderTypeToken::Symbol(sym)) => {
            let symbol = sym.clone();
            let r2 = InputRegionTag::max(r1, rtok);
            let (i2, ea) = expect_assign(toks, i + 2, r2, ctx, warns);
            match ea {
                Err(e) => (i2, Err(e)),
                Ok(()) => {
                    let (i3, res) = parse_top(toks, i2, ctx, warns);
                    match res {
                        Err(e) => (i3, Err(e)),
                        Ok((rty, ty)) => {
                            let v = EnumVariant { symbol, ty };
                            proof { crate::term::lemma_variants_view_push(variants@, v); }
                            variants.push(v);
                            parse_struct_loop(toks, i3, ctx, warns, repr, true, variants, members, InputRegionTag::max(r2, rty))
                        },
                    }
                },
            }
        },
        Err(err) => (i + 2, Err((rtok, ParseError::LexError(*err)))),
        _ => (i + 2, Err((rtok, ParseError::UnexpectedToken))),
    }
}

/// A member `symbol ':' top ';'` of a struct, at the symbol.
fn parse_struct_member(
    toks: &Vec<Tok>,
    i: usize,
    ctx: &mut ContextPtr,
    warns: &mut Vec<ParseInfo>,
    repr: Option<Box<TypeTerm>>,
    variants: Vec<EnumVariant>,
    members: Vec<StructMember>,
    r: InputRegionTag,
) -> (res: (usize, PRes))
    requires
        i < toks.len(),
        toks_view(toks@)[i as int].1 is Ok,
        toks_view(toks@)[i as int].1->Ok_0 is Symbol,
        spec_parse_struct_loop(toks_view(toks@), ps(i, old(ctx)@, old(warns)@), crate::term::opt_view(repr), false,
            crate::term::variants_view(variants@), crate::term::members_view(members@), r) is Some,
    ensures
        spec_parse_struct_loop(toks_view(toks@), ps(i, old(ctx)@, old(warns)@), crate::term::opt_view(repr), false,
            crate::term::variants_view(variants@), crate::term::members_view(members@), r)
            == Some((ps(res.0, final(ctx)@, final(warns)@), pres_view(res.1))),
    decreases toks.len() - i, 3nat,
{
    let ghost tv = toks_view(toks@);
    assert(tv.len() == toks.len());
    assert(tv[i as int] == tok_view(toks@[i as int]));
    let r1 = InputRegionTag::max(r, toks[i].0);
    let mut members = members;
    let symbol: String = match &toks[i].1 {
        Ok(LadderTypeToken::Symbol(sym)) => sym.clone(),
        _ => {
            proof { assert(false); }
            String::new()
        },
    };
    let (i2, ea) = expect_assign(toks, i + 1, r1, ctx, warns);
    match ea {
        Err(e) => (i2, Err(e)),
        Ok(()) => {
            let (i3, res) = parse_top(toks, i2, ctx, warns);
            match res {
                Err(e) => (i3, Err(e)),
                Ok((rty, ty)) => {
                    let r2 = InputRegionTag::max(r1, rty);
                    if i3 < toks.len() {
                        assert(tv[i3 as int] == tok_view(toks@[i3 as int]));
                        let rtok = toks[i3].0;
                        match &toks[i3].1 {
                            Ok(LadderTypeToken::StructSep) => {
                                let m = StructMember { symbol, ty };
                                proof { crate::term::lemma_members_view_push(members@, m); }
                                members.push(m);
                                parse_struct_loop(toks, i3 + 1, ctx, warns, repr, false, variants, members, r2)
                            },
                            Err(err) => (i3 + 1, Err((rtok, ParseError::LexError(*err)))),
                            _ => (i3 + 1, Err((rtok, ParseError::UnexpectedToken))),
                        }
                    } else {
                        (i3, Err((r2, ParseError::UnexpectedEnd)))
                    }
                },
            }
        },
    }
}

/// `univ`, after the first `∀`: parsed in a new scope that is left at the end.
fn parse_univ(toks: &Vec<Tok>, i: usize, ctx: &mut ContextPtr, warns: &mut Vec<ParseInfo>) -> (r: (usize, PRes))
    requires
        spec_parse_univ(toks_view(toks@), ps(i, old(ctx)@, old(warns)@)) is Some,
    ensures
        spec_parse_univ(toks_view(toks@), ps(i, old(ctx)@, old(warns)@)) == Some((ps(r.0, final(ctx)@, final(warns)@), pres_view(r.1))),
    decreases toks.len() - i, 8nat,
{
    ctx.enter_scope();
    let gamma: Vec<ContextEntry> = Vec::new();
    assert(crate::term::entries_view(gamma@) =~= Seq::<EntryV>::empty());
    let (i2, res) = parse_univ_vars(toks, i, ctx, warns, gamma, InputRegionTag::default_region());
    ctx.leave_scope();
    (i2, res)
}

/// The variables of a universal type.
fn parse_univ_vars(toks: &Vec<Tok>, i: usize, ctx: &mut ContextPtr, warns: &mut Vec<ParseInfo>, gamma: Vec<ContextEntry>, r: InputRegionTag) -> (res: (usize, PRes))
    requires
        spec_parse_univ_vars(toks_view(toks@), ps(i, old(ctx)@, old(warns)@), crate::term::entries_view(gamma@), r) is Some,
    ensures
        spec_parse_univ_vars(toks_view(toks@), ps(i, old(ctx)@, old(warns)@), crate::term::entries_view(gamma@), r)
            == Some((ps(res.0, final(ctx)@, final(warns)@), pres_view(res.1))),
    decreases toks.len() - i, 7nat,
{
    let ghost tv = toks_view(toks@);
    assert(tv.len() == toks.len());
    let bounds: Vec<ConstraintPair> = Vec::new();
    assert(crate::term::pairs_view(bounds@) =~= Seq::<PairV>::empty());
    if i >= toks.len() {
        return parse_univ_bounds(toks, i, ctx, warns, gamma, bounds, r);
    }
    assert(tv[i as int] == tok_view(toks@[i as int]));
    let rtok = toks[i].0;
    let r1 = InputRegionTag::max(r, rtok);
    let i1 = i + 1;
    match &toks[i].1 {
        Ok(LadderTypeToken::Symbol(sym)) => parse_univ_var(toks, i, ctx, warns, gamma, r),
        Ok(_) => (i1, Err((rtok, ParseError::UnexpectedToken))),
        Err(err) => (i1, Err((rtok, ParseError::LexError(*err)))),
    }
}

/// One variable of a universal type, at its symbol.
fn parse_univ_var(toks: &Vec<Tok>, i: usize, ctx: &mut ContextPtr, warns: &mut Vec<ParseInfo>, gamma: Vec<ContextEntry>, r: InputRegionTag) -> (res: (usize, PRes))
    requires
        i < toks.len(),
        toks_view(toks@)[i as int].1 is Ok,
        toks_view(toks@)[i as int].1->Ok_0 is Symbol,
        spec_parse_univ_vars(toks_view(toks@), ps(i, old(ctx)@, old(warns)@), crate::term::entries_view(gamma@), r) is Some,
    ensures
        spec_parse_univ_vars(toks_view(toks@), ps(i, old(ctx)@, old(warns)@), crate::term::entries_view(gamma@), r)
            == Some((ps(res.0, final(ctx)@, final(warns)@), pres_view(res.1))),
    decreases toks.len() - i, 6nat,
{
    let ghost tv = toks_view(toks@);
    assert(tv.len() == toks.len());
    assert(tv[i as int] == tok_view(toks@[i as int]));
    let mut gamma = gamma;
    let bounds: Vec<ConstraintPair> = Vec::new();
    assert(crate::term::pairs_view(bounds@) =~= Seq::<PairV>::empty());
    let r1 = InputRegionTag::max(r, toks[i].0);
    let i1 = i + 1;
    let symbol: String = match &toks[i].1 {
        Ok(LadderTypeToken::Symbol(sym)) => sym.clone(),
        _ => {
            proof { assert(false); }
            String::new()
        },
    };
    if i1 >= toks.len() {
        return parse_univ_bounds(toks, i1, ctx, warns, gamma, bounds, r1);
    }
    assert(tv[i1 as int] == tok_view(toks@[i1 as int]));
    let rtok2 = toks[i1].0;
    match &toks[i1].1 {
        Ok(LadderTypeToken::AssignType) => {
            let (i2, res) = parse_top(toks, i1 + 1, ctx, warns);
            match res {
                Err(e) => (i2, Err(e)),
                Ok((rt, t)) => {
                    let r2 = InputRegionTag::max(r1, rt);
                    let t2 = t.copy();
                    let e = ContextEntry { symbol: symbol.clone(), kind: TypeKind::Value(t) };
                    proof { crate::term::lemma_entries_view_push(gamma@, e); }
                    gamma.push(e);
                    ctx.add_variable(symbol.as_str(), TypeKind::Value(t2));
                    if i2 < toks.len() {
                        assert(tv[i2 as int] == tok_view(toks@[i2 as int]));
                        match &toks[i2].1 {
                            Ok(LadderTypeToken::Univ) => {
                                return parse_univ_vars(toks, i2 + 1, ctx, warns, gamma, r2);
                            },
                            _ => {},
                        }
                    }
                    parse_univ_bounds(toks, i2, ctx, warns, gamma, bounds, r2)
                },
            }
        },
        Ok(LadderTypeToken::Univ) => {
            let e = ContextEntry { symbol: symbol.clone(), kind: TypeKind::Type };
            proof { crate::term::lemma_entries_view_push(gamma@, e); }
            gamma.push(e);
            ctx.add_variable(symbol.as_str(), TypeKind::Type);
            parse_univ_vars(toks, i1 + 1, ctx, warns, gamma, r1)
        },
        Ok(_) => {
            let e = ContextEntry { symbol: symbol.clone(), kind: TypeKind::Type };
            proof { crate::term::lemma_entries_view_push(gamma@, e); }
            gamma.push(e);
            ctx.add_variable(symbol.as_str(), TypeKind::Type);
            parse_univ_bounds(toks, i1, ctx, warns, gamma, bounds, r1)
        },
        Err(err) => (i1, Err((rtok2, ParseError::LexError(*err)))),
    }
}

/// The bounds of a universal type, then its body.
fn parse_univ_bounds(toks: &Vec<Tok>, i: usize, ctx: &mut ContextPtr, warns: &mut Vec<ParseInfo>, gamma: Vec<ContextEntry>, bounds: Vec<ConstraintPair>, r: InputRegionTag) -> (res: (usize, PRes))
    requires
        spec_parse_univ_bounds(toks_view(toks@), ps(i, old(ctx)@, old(warns)@), crate::term::entries_view(gamma@), crate::term::pairs_view(bounds@), r) is Some,
    ensures
        spec_parse_univ_bounds(toks_view(toks@), ps(i, old(ctx)@, old(warns)@), crate::term::entries_view(gamma@), crate::term::pairs_view(bounds@), r)
            == Some((ps(res.0, final(ctx)@, final(warns)@), pres_view(res.1))),
    decreases toks.len() - i, 5nat,
{
    let ghost tv = toks_view(toks@);
    assert(tv.len() == toks.len());
    if i < toks.len() {
        assert(tv[i as int] == tok_view(toks@[i as int]));
        let rtok = toks[i].0;
        match &toks[i].1 {
            Ok(LadderTypeToken::Open) => {
                return parse_univ_bound(toks, i, ctx, warns, gamma, bounds, r);
            },
            Err(err) => {
                return (i, Err((rtok, ParseError::LexError(*err))));
            },
            _ => {},
        }
    }
    let (i1, res) = parse_top(toks, i, ctx, warns);
    match res {
        Err(e) => (i1, Err(e)),
        Ok((rt, t)) => (i1, Ok((InputRegionTag::max(r, rt), TypeTerm::Univ { gamma, bounds, tau: Box::new(t) }))),
    }
}

/// One bound `'(' top rel top ')'` of a universal type, at the opening parenthesis.
fn parse_univ_bound(toks: &Vec<Tok>, i: usize, ctx: &mut ContextPtr, warns: &mut Vec<ParseInfo>, gamma: Vec<ContextEntry>, bounds: Vec<ConstraintPair>, r: InputRegionTag) -> (res: (usize, PRes))
    requires
        i < toks.len(),
        toks_view(toks@)[i as int].1 == Ok::<TokenV, LexError>(TokenV::Open),
        spec_parse_univ_bounds(toks_view(toks@), ps(i, old(ctx)@, old(warns)@), crate::term::entries_view(gamma@), crate::term::pairs_view(bounds@), r) is Some,
    ensures
        spec_parse_univ_bounds(toks_view(toks@), ps(i, old(ctx)@, old(warns)@), crate::term::entries_view(gamma@), crate::term::pairs_view(bounds@), r)
            == Some((ps(res.0, final(ctx)@, final(warns)@), pres_view(res.1))),
    decreases toks.len() - i, 4nat,
{
    let ghost tv = toks_view(toks@);
    assert(tv.len() == toks.len());
    let mut bounds = bounds;
    let (i1, res) = parse_top(toks, i + 1, ctx, warns);
    match res {
        Err(e) => (i1, Err(e)),
        Ok((rlhs, lhs)) => {
            let r1 = InputRegionTag::max(r, rlhs);
            let has_rel = i1 < toks.len();
            let i2 = if has_rel { i1 + 1 } else { i1 };
            let (i3, res2) = parse_top(toks, i2, ctx, warns);
            match res2 {
                Err(e) => (i3, Err(e)),
                Ok((rrhs, rhs)) => {
                    let r2 = InputRegionTag::max(r1, rrhs);
                    let pair: Option<ConstraintPair> = if has_rel {
                        assert(tv[i1 as int] == tok_view(toks@[i1 as int]));
                        match &toks[i1].1 {
                            Ok(LadderTypeToken::SubType) => Some(ConstraintPair::Subtype(lhs, rhs)),
                            Ok(LadderTypeToken::TraitType) => Some(ConstraintPair::Trait(lhs, rhs)),
                            Ok(LadderTypeToken::ParallelType) => Some(ConstraintPair::Parallel(lhs, rhs)),
                            _ => None,
                        }
                    } else {
                        None
                    };
                    match pair {
                        None => {
                            proof { assert(false); }
                            (i3, Err((r2, ParseError::UnexpectedToken)))
                        },
                        Some(pr) => {
                            if i3 < toks.len() {
                                assert(tv[i3 as int] == tok_view(toks@[i3 as int]));
                                let rtok2 = toks[i3].0;
                                match &toks[i3].1 {
                                    Ok(LadderTypeToken::Close) => {
                                        proof { crate::term::lemma_pairs_view_push(bounds@, pr); }
                                        bounds.push(pr);
                                        parse_univ_bounds(toks, i3 + 1, ctx, warns, gamma, bounds, InputRegionTag::max(r2, rtok2))
                                    },
                                    Ok(_) => (i3 + 1, Err((rtok2, ParseError::UnexpectedToken))),
                                    Err(err) => (i3 + 1, Err((rtok2, ParseError::LexError(*err)))),
                                }
                            } else {
                                (i3, Err((r2, ParseError::UnexpectedEnd)))
                            }
                        },
                    }
                },
            }
        },
    }
}

/// The model of a parse result.
pub open spec fn parse_result_view(r: Result<TypeTerm, (InputRegionTag, ParseError)>) -> Result<TermV, (InputRegionTag, ParseError)> {
    match r {
        Ok(t) => Ok(t@),
        Err(e) => Err(e),
    }
}

impl ContextPtr {
    /// Parses a type term from `s`, naming its types and variables in this context: a
    /// name that the context does not know becomes a new type name, and `warnings` gets
    /// a note about it.  A token left over after the term is an error.
    pub fn parse_warn(&mut self, s: &str, warnings: &mut Vec<ParseInfo>) -> (r: Result<TypeTerm, (InputRegionTag, ParseError)>)
        requires
            s@.len() + 8 < usize::MAX,
            spec_parse_str(s@, old(self)@, warns_view(old(warnings)@)) is Some,
        ensures
            spec_parse_str(s@, old(self)@, warns_view(old(warnings)@))
                == Some((final(self)@, warns_view(final(warnings)@), parse_result_view(r))),
    {
        let toks = tokenize(s);
        let ghost tv = toks_view(toks@);
        assert(tv.len() == toks.len());
        let (i, res) = parse_top(&toks, 0, self, warnings);
        match res {
            Err(e) => Err(e),
            Ok((_, t)) => {
                if i < toks.len() {
                    assert(tv[i as int] == tok_view(toks@[i as int]));
                    Err((toks[i].0, ParseError::UnexpectedToken))
                } else {
                    Ok(t)
                }
            },
        }
    }

    /// Parses a type term from `s`, as `parse_warn` does, dropping the warnings.
    pub fn parse(&mut self, s: &str) -> (r: Result<TypeTerm, (InputRegionTag, ParseError)>)
        requires
            s@.len() + 8 < usize::MAX,
            spec_parse_str(s@, old(self)@, Seq::empty()) is Some,
        ensures
            spec_parse_str(s@, old(self)@, Seq::empty()) matches Some((c, _, res)) && final(self)@ == c && res == parse_result_view(r),
    {
        let mut warnings: Vec<ParseInfo> = Vec::new();
        assert(warns_view(warnings@) =~= Seq::empty());
        self.parse_warn(s, &mut warnings)
    }
}

} // verus!
