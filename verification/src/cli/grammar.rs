//! The grammar of the command language, as a parser on sequences of
//! characters.
//!
//! The parser is streaming: where it needs a character past the end of the
//! input to decide, it answers `Incomplete`, so that a prompt can ask for
//! more.  Whitespace may stand between any two tokens.
//!
//! ```text
//! statement := "let" id ":" type "=" expr ";" | "set" id "=" expr ";"
//!            | "init" ";" | "check" expr ";"
//! type      := "Feature" | "F" | "usize" | "Lit" | "Li" | "Lex" | "UG" | "La"
//!            | "Wksp" | "Stage" | "Deriv" | "SO"
//!            | "[" type "]" | "{" type "}" | "<" types ">"
//! expr      := id | "\"" featurechar+ "\"" | digit+
//!            | "[" exprs "]" | "{" exprs "}" | "<" exprs ">"
//! comment   := "#" up to the end of the line
//! ```

use vstd::prelude::*;

use crate::cli::errors::Context;
use crate::cli::parsers::{ExprModel, RawValueModel, StatementModel};
use crate::cli::{
    derivation_type_model, lexical_array_type_model, lexical_item_token_type_model,
    lexical_item_type_model, lexicon_type_model, stage_type_model, universal_grammar_type_model,
    workspace_type_model, TypeModel,
};

verus! {

/// Where a parse failed: the position, and the contexts it was in, innermost
/// first, each with the position where it started.
pub struct ErrModel {
    pub at: int,
    pub contexts: Seq<(int, Context)>,
}

/// The outcome of a parser on models: a result and the position after it;
/// a need for more input; or a failure.
pub enum PModel<M> {
    Done(M, int),
    Incomplete,
    Fail(ErrModel),
}

/// Failure at `p`, in no context.
pub open spec fn fail_at<M>(p: int) -> PModel<M> {
    PModel::Fail(ErrModel { at: p, contexts: Seq::empty() })
}

/// A failure within the context `c` that started at `p`.
pub open spec fn ctx<M>(m: PModel<M>, p: int, c: Context) -> PModel<M> {
    match m {
        PModel::Fail(e) => PModel::Fail(ErrModel { at: e.at, contexts: e.contexts.push((p, c)) }),
        _ => m,
    }
}

/// Of two failures, the one that got further; the first on a tie.
pub open spec fn further(e1: ErrModel, e2: ErrModel) -> ErrModel {
    if e2.at > e1.at {
        e2
    } else {
        e1
    }
}

/// The first of two parsers that does not fail; where both fail, the
/// failure that got further.  A need for more input stops the choice.
pub open spec fn alt<M>(a: PModel<M>, b: PModel<M>) -> PModel<M> {
    match a {
        PModel::Fail(e1) => match b {
            PModel::Fail(e2) => PModel::Fail(further(e1, e2)),
            _ => b,
        },
        _ => a,
    }
}

/// A parser tried after failures that got as far as `e`.
pub open spec fn alt_from<M>(e: ErrModel, m: PModel<M>) -> PModel<M> {
    match m {
        PModel::Fail(e2) => PModel::Fail(further(e, e2)),
        _ => m,
    }
}

/// Trying one more parser that fails carries its failure along.
pub proof fn lemma_alt_step<M>(e: ErrModel, b: PModel<M>, c: PModel<M>)
    requires
        b is Fail,
    ensures
        alt_from(e, alt(b, c)) == alt_from(further(e, b->Fail_0), c),
{
}

/// A result of one kind taken as a result of another, where it is no result.
pub open spec fn pass<A, B>(m: PModel<A>) -> PModel<B> {
    match m {
        PModel::Done(_, p) => fail_at(p),
        PModel::Incomplete => PModel::Incomplete,
        PModel::Fail(e) => PModel::Fail(e),
    }
}

/// Whitespace.
pub open spec fn is_space(c: char) -> bool {
    c == ' ' || c == '\t' || c == '\r' || c == '\n'
}

/// The classes of characters that tokens are made of.
#[derive(Clone, Copy)]
pub enum CharClass {
    /// Letters and `_`, which start an identifier.
    IdStart,
    /// Letters, digits and `_`.
    IdRest,
    /// Letters, digits, `*`, `=` and `'`.
    FeatureChar,
    /// Decimal digits.
    Digit,
}

/// Whether `c` is of the class `k`.
pub open spec fn in_class(c: char, k: CharClass) -> bool {
    let letter = ('a' <= c && c <= 'z') || ('A' <= c && c <= 'Z');
    let digit = '0' <= c && c <= '9';
    match k {
        CharClass::IdStart => letter || c == '_',
        CharClass::IdRest => letter || digit || c == '_',
        CharClass::FeatureChar => letter || digit || c == '*' || c == '=' || c == '\'',
        CharClass::Digit => digit,
    }
}

/// The first position from `p` on that holds no character of the class (or
/// the end).
pub open spec fn scan_end(s: Seq<char>, p: int, k: CharClass) -> int
    decreases s.len() - p,
{
    if p < 0 || p >= s.len() || !in_class(s[p], k) {
        p
    } else {
        scan_end(s, p + 1, k)
    }
}

/// The first position from `p` on that holds no whitespace (or the end).
pub open spec fn space_end(s: Seq<char>, p: int) -> int
    decreases s.len() - p,
{
    if p < 0 || p >= s.len() || !is_space(s[p]) {
        p
    } else {
        space_end(s, p + 1)
    }
}

/// Whitespace, possibly none; more input is needed where it runs to the end.
pub open spec fn ws(s: Seq<char>, p: int) -> PModel<()> {
    let q = space_end(s, p);
    if q >= s.len() {
        PModel::Incomplete
    } else {
        PModel::Done((), q)
    }
}

/// The token `t`.
pub open spec fn tag(s: Seq<char>, p: int, t: Seq<char>) -> PModel<()> {
    if p + t.len() <= s.len() {
        if s.subrange(p, p + t.len()) == t {
            PModel::Done((), p + t.len())
        } else {
            fail_at(p)
        }
    } else if s.subrange(p, s.len() as int) == t.subrange(0, s.len() - p) {
        PModel::Incomplete
    } else {
        fail_at(p)
    }
}

/// Whitespace, then the token `t`.
pub open spec fn ws_tag(s: Seq<char>, p: int, t: Seq<char>) -> PModel<()> {
    match ws(s, p) {
        PModel::Done(_, q) => tag(s, q, t),
        PModel::Incomplete => PModel::Incomplete,
        PModel::Fail(e) => PModel::Fail(e),
    }
}

/// One or more characters of the class.
pub open spec fn run1(s: Seq<char>, p: int, k: CharClass) -> PModel<()> {
    if p >= s.len() {
        PModel::Incomplete
    } else if !in_class(s[p], k) {
        fail_at(p)
    } else {
        let q = scan_end(s, p + 1, k);
        if q >= s.len() {
            PModel::Incomplete
        } else {
            PModel::Done((), q)
        }
    }
}

/// Zero or more characters of the class.
pub open spec fn run0(s: Seq<char>, p: int, k: CharClass) -> PModel<()> {
    let q = scan_end(s, p, k);
    if q >= s.len() {
        PModel::Incomplete
    } else {
        PModel::Done((), q)
    }
}

/// An identifier: letters and `_`, then letters, digits and `_`.
pub open spec fn ident(s: Seq<char>, p: int) -> PModel<Seq<char>> {
    match ctx(run1(s, p, CharClass::IdStart), p, Context::Id) {
        PModel::Done(_, q) => match run0(s, q, CharClass::IdRest) {
            PModel::Done(_, r) => PModel::Done(s.subrange(p, r), r),
            PModel::Incomplete => PModel::Incomplete,
            PModel::Fail(e) => PModel::Fail(e),
        },
        PModel::Incomplete => PModel::Incomplete,
        PModel::Fail(e) => PModel::Fail(e),
    }
}

/// The number that a string of decimal digits writes.
pub open spec fn digits_value(d: Seq<char>) -> nat
    decreases d.len(),
{
    if d.len() == 0 {
        0
    } else {
        digits_value(d.drop_last()) * 10 + ((d.last() as nat) - ('0' as nat)) as nat
    }
}

/// A type keyword: the token `word`, which stands for the type `t`.
pub open spec fn keyword_type(s: Seq<char>, p: int, word: Seq<char>, c: Context, t: TypeModel) -> PModel<
    TypeModel,
> {
    match ctx(tag(s, p, word), p, c) {
        PModel::Done(_, q) => PModel::Done(t, q),
        PModel::Incomplete => PModel::Incomplete,
        PModel::Fail(e) => PModel::Fail(e),
    }
}

/// `Feature` or `F`.
pub open spec fn feature_type(s: Seq<char>, p: int) -> PModel<TypeModel> {
    ctx(
        alt(
            keyword_type(s, p, "Feature"@, Context::FeatureType, TypeModel::Feature),
            keyword_type(s, p, "F"@, Context::FeatureType, TypeModel::Feature),
        ),
        p,
        Context::FeatureType,
    )
}

/// The `k`-th way a type can be written.
pub open spec fn type_alt(s: Seq<char>, p: int, k: int) -> PModel<TypeModel>
    decreases s.len() - p, 1int, 0int,
{
    if k == 0 {
        feature_type(s, p)
    } else if k == 1 {
        keyword_type(s, p, "usize"@, Context::UsizeType, TypeModel::Usize)
    } else if k == 2 {
        keyword_type(s, p, "Lit"@, Context::LexicalItemTokenType, lexical_item_token_type_model())
    } else if k == 3 {
        keyword_type(s, p, "Li"@, Context::LexicalItemType, lexical_item_type_model())
    } else if k == 4 {
        keyword_type(s, p, "Lex"@, Context::LexiconType, lexicon_type_model())
    } else if k == 5 {
        keyword_type(s, p, "UG"@, Context::UniversalGrammarType, universal_grammar_type_model())
    } else if k == 6 {
        keyword_type(s, p, "La"@, Context::LexicalArrayType, lexical_array_type_model())
    } else if k == 7 {
        keyword_type(s, p, "Wksp"@, Context::WorkspaceType, workspace_type_model())
    } else if k == 8 {
        keyword_type(s, p, "Stage"@, Context::StageType, stage_type_model())
    } else if k == 9 {
        keyword_type(s, p, "Deriv"@, Context::DerivationType, derivation_type_model())
    } else if k == 10 {
        keyword_type(s, p, "SO"@, Context::SOType, TypeModel::SO)
    } else if k == 11 {
        bracket_type(s, p, '[', ']', Context::VecType, Context::VecTypeLeft, Context::VecTypeRight)
    } else if k == 12 {
        bracket_type(s, p, '{', '}', Context::SetType, Context::SetTypeLeft, Context::SetTypeRight)
    } else {
        tuple_type(s, p)
    }
}

/// The number of ways a type can be written.
pub open spec fn type_alt_count() -> int {
    14
}

/// The ways from the `k`-th on, tried in order.
pub open spec fn type_alts(s: Seq<char>, p: int, k: int) -> PModel<TypeModel>
    decreases s.len() - p, 2int, type_alt_count() - k,
{
    if k >= type_alt_count() - 1 {
        type_alt(s, p, k)
    } else {
        alt(type_alt(s, p, k), type_alts(s, p, k + 1))
    }
}

/// A type.
pub open spec fn parse_type(s: Seq<char>, p: int) -> PModel<TypeModel>
    decreases s.len() - p, 3int, 0int,
{
    ctx(type_alts(s, p, 0), p, Context::Type)
}

/// `[T]` (with `[` and `]`) or `{T}` (with `{` and `}`).
pub open spec fn bracket_type(
    s: Seq<char>,
    p: int,
    left: char,
    right: char,
    c: Context,
    cl: Context,
    cr: Context,
) -> PModel<TypeModel>
    decreases s.len() - p, 0int, 0int,
{
    ctx(
        match ctx(tag(s, p, seq![left]), p, cl) {
            PModel::Done(_, q) => match ws(s, q) {
                PModel::Done(_, q2) => if q2 > p {
                    match parse_type(s, q2) {
                        PModel::Done(t, r) => match ctx(ws_tag(s, r, seq![right]), r, cr) {
                            PModel::Done(_, e) => PModel::Done(
                                if left == '[' {
                                    TypeModel::Vec(Box::new(t))
                                } else {
                                    TypeModel::SetOf(Box::new(t))
                                },
                                e,
                            ),
                            PModel::Incomplete => PModel::Incomplete,
                            PModel::Fail(x) => PModel::Fail(x),
                        },
                        PModel::Incomplete => PModel::Incomplete,
                        PModel::Fail(x) => PModel::Fail(x),
                    }
                } else {
                    fail_at(p)
                },
                PModel::Incomplete => PModel::Incomplete,
                PModel::Fail(x) => PModel::Fail(x),
            },
            PModel::Incomplete => PModel::Incomplete,
            PModel::Fail(x) => PModel::Fail(x),
        },
        p,
        c,
    )
}

/// `<T1, ..., Tn>`.
pub open spec fn tuple_type(s: Seq<char>, p: int) -> PModel<TypeModel>
    decreases s.len() - p, 0int, 0int,
{
    ctx(
        match ctx(tag(s, p, "<"@), p, Context::TupleTypeLeft) {
            PModel::Done(_, q) => if q > p {
                match type_list(s, q) {
                    PModel::Done(ts, r) => match ctx(ws_tag(s, r, ">"@), r, Context::TupleTypeRight) {
                        PModel::Done(_, e) => PModel::Done(TypeModel::Tuple(ts), e),
                        PModel::Incomplete => PModel::Incomplete,
                        PModel::Fail(x) => PModel::Fail(x),
                    },
                    PModel::Incomplete => PModel::Incomplete,
                    PModel::Fail(x) => PModel::Fail(x),
                }
            } else {
                fail_at(p)
            },
            PModel::Incomplete => PModel::Incomplete,
            PModel::Fail(x) => PModel::Fail(x),
        },
        p,
        Context::TupleType,
    )
}

/// Types separated by commas, possibly none.
pub open spec fn type_list(s: Seq<char>, p: int) -> PModel<Seq<TypeModel>>
    decreases s.len() - p, 4int, 0int,
{
    match ws(s, p) {
        PModel::Done(_, q) => if q >= p {
            match parse_type(s, q) {
                PModel::Done(t, r) => if p < r <= s.len() {
                    match type_list_rest(s, r) {
                        PModel::Done(ts, e) => PModel::Done(seq![t] + ts, e),
                        PModel::Incomplete => PModel::Incomplete,
                        PModel::Fail(x) => PModel::Fail(x),
                    }
                } else {
                    fail_at(p)
                },
                PModel::Incomplete => PModel::Incomplete,
                PModel::Fail(_) => PModel::Done(seq![], p),
            }
        } else {
            fail_at(p)
        },
        PModel::Incomplete => PModel::Incomplete,
        PModel::Fail(_) => PModel::Done(seq![], p),
    }
}

/// More types, each after a comma.
pub open spec fn type_list_rest(s: Seq<char>, p: int) -> PModel<Seq<TypeModel>>
    decreases s.len() - p, 0int, 0int,
{
    match ws_tag(s, p, ","@) {
        PModel::Done(_, q) => match ws(s, q) {
            PModel::Done(_, q2) => if q2 > p {
                match parse_type(s, q2) {
                    PModel::Done(t, r) => if p < r <= s.len() {
                        match type_list_rest(s, r) {
                            PModel::Done(ts, e) => PModel::Done(seq![t] + ts, e),
                            PModel::Incomplete => PModel::Incomplete,
                            PModel::Fail(x) => PModel::Fail(x),
                        }
                    } else {
                        fail_at(p)
                    },
                    PModel::Incomplete => PModel::Incomplete,
                    PModel::Fail(_) => PModel::Done(seq![], p),
                }
            } else {
                fail_at(p)
            },
            PModel::Incomplete => PModel::Incomplete,
            PModel::Fail(_) => PModel::Done(seq![], p),
        },
        PModel::Incomplete => PModel::Incomplete,
        PModel::Fail(_) => PModel::Done(seq![], p),
    }
}

/// A feature value: a quoted string of feature characters.
pub open spec fn feature_value(s: Seq<char>, p: int) -> PModel<RawValueModel> {
    match tag(s, p, "\""@) {
        PModel::Done(_, q) => match ctx(run1(s, q, CharClass::FeatureChar), q, Context::Feature) {
            PModel::Done(_, r) => match tag(s, r, "\""@) {
                PModel::Done(_, e) => PModel::Done(RawValueModel::Feature(s.subrange(q, r)), e),
                PModel::Incomplete => PModel::Incomplete,
                PModel::Fail(x) => PModel::Fail(x),
            },
            PModel::Incomplete => PModel::Incomplete,
            PModel::Fail(x) => PModel::Fail(x),
        },
        PModel::Incomplete => PModel::Incomplete,
        PModel::Fail(x) => PModel::Fail(x),
    }
}

/// A number value: decimal digits, whose number fits in `usize`.
pub open spec fn usize_value(s: Seq<char>, p: int) -> PModel<RawValueModel> {
    match ctx(run1(s, p, CharClass::Digit), p, Context::Usize) {
        PModel::Done(_, q) => if digits_value(s.subrange(p, q)) <= usize::MAX {
            PModel::Done(RawValueModel::Usize(digits_value(s.subrange(p, q)) as usize), q)
        } else {
            ctx(fail_at(p), p, Context::Usize)
        },
        PModel::Incomplete => PModel::Incomplete,
        PModel::Fail(x) => PModel::Fail(x),
    }
}

/// An expression: a variable or a value.
pub open spec fn expr(s: Seq<char>, p: int) -> PModel<ExprModel>
    decreases s.len() - p, 2int,
{
    ctx(
        alt(
            ctx(
                match ident(s, p) {
                    PModel::Done(id, q) => PModel::Done(ExprModel::Var(id), q),
                    PModel::Incomplete => PModel::Incomplete,
                    PModel::Fail(x) => PModel::Fail(x),
                },
                p,
                Context::Var,
            ),
            match value(s, p) {
                PModel::Done(v, q) => PModel::Done(ExprModel::Value(v), q),
                PModel::Incomplete => PModel::Incomplete,
                PModel::Fail(x) => PModel::Fail(x),
            },
        ),
        p,
        Context::Expr,
    )
}

/// A value: a feature, a number, a vector, a set or a tuple.
pub open spec fn value(s: Seq<char>, p: int) -> PModel<RawValueModel>
    decreases s.len() - p, 1int,
{
    ctx(
        alt(
            feature_value(s, p),
            alt(
                usize_value(s, p),
                alt(
                    bracket_value(s, p, '[', ']', Context::Vec, Context::VecLeft, Context::VecRight),
                    alt(
                        bracket_value(s, p, '{', '}', Context::SetOf, Context::SetLeft, Context::SetRight),
                        bracket_value(s, p, '<', '>', Context::Tuple, Context::TupleLeft, Context::TupleRight),
                    ),
                ),
            ),
        ),
        p,
        Context::Value,
    )
}

/// A vector `[...]`, a set `{...}` or a tuple `<...>` of expressions.
pub open spec fn bracket_value(
    s: Seq<char>,
    p: int,
    left: char,
    right: char,
    c: Context,
    cl: Context,
    cr: Context,
) -> PModel<RawValueModel>
    decreases s.len() - p, 0int,
{
    ctx(
        match ctx(tag(s, p, seq![left]), p, cl) {
            PModel::Done(_, q) => if q > p {
                match expr_list(s, q) {
                    PModel::Done(es, r) => match ctx(ws_tag(s, r, seq![right]), r, cr) {
                        PModel::Done(_, e) => PModel::Done(
                            if left == '[' {
                                RawValueModel::Vec(es)
                            } else if left == '{' {
                                RawValueModel::SetOf(es)
                            } else {
                                RawValueModel::Tuple(es)
                            },
                            e,
                        ),
                        PModel::Incomplete => PModel::Incomplete,
                        PModel::Fail(x) => PModel::Fail(x),
                    },
                    PModel::Incomplete => PModel::Incomplete,
                    PModel::Fail(x) => PModel::Fail(x),
                }
            } else {
                fail_at(p)
            },
            PModel::Incomplete => PModel::Incomplete,
            PModel::Fail(x) => PModel::Fail(x),
        },
        p,
        c,
    )
}

/// Expressions separated by commas, possibly none.
pub open spec fn expr_list(s: Seq<char>, p: int) -> PModel<Seq<ExprModel>>
    decreases s.len() - p, 3int,
{
    match ws(s, p) {
        PModel::Done(_, q) => if q >= p {
            match expr(s, q) {
                PModel::Done(t, r) => if p < r <= s.len() {
                    match expr_list_rest(s, r) {
                        PModel::Done(ts, e) => PModel::Done(seq![t] + ts, e),
                        PModel::Incomplete => PModel::Incomplete,
                        PModel::Fail(x) => PModel::Fail(x),
                    }
                } else {
                    fail_at(p)
                },
                PModel::Incomplete => PModel::Incomplete,
                PModel::Fail(_) => PModel::Done(seq![], p),
            }
        } else {
            fail_at(p)
        },
        PModel::Incomplete => PModel::Incomplete,
        PModel::Fail(_) => PModel::Done(seq![], p),
    }
}

/// More expressions, each after a comma.
pub open spec fn expr_list_rest(s: Seq<char>, p: int) -> PModel<Seq<ExprModel>>
    decreases s.len() - p, 0int,
{
    match ws_tag(s, p, ","@) {
        PModel::Done(_, q) => match ws(s, q) {
            PModel::Done(_, q2) => if q2 > p {
                match expr(s, q2) {
                    PModel::Done(t, r) => if p < r <= s.len() {
                        match expr_list_rest(s, r) {
                            PModel::Done(ts, e) => PModel::Done(seq![t] + ts, e),
                            PModel::Incomplete => PModel::Incomplete,
                            PModel::Fail(x) => PModel::Fail(x),
                        }
                    } else {
                        fail_at(p)
                    },
                    PModel::Incomplete => PModel::Incomplete,
                    PModel::Fail(_) => PModel::Done(seq![], p),
                }
            } else {
                fail_at(p)
            },
            PModel::Incomplete => PModel::Incomplete,
            PModel::Fail(_) => PModel::Done(seq![], p),
        },
        PModel::Incomplete => PModel::Incomplete,
        PModel::Fail(_) => PModel::Done(seq![], p),
    }
}

/// `let id: T = expr;`
pub open spec fn let_stmt(s: Seq<char>, p: int) -> PModel<StatementModel> {
    ctx(
        match ctx(tag(s, p, "let"@), p, Context::LetLet) {
            PModel::Done(_, q) => match ws(s, q) {
                PModel::Done(_, q1) => match ident(s, q1) {
                    PModel::Done(id, q2) => match ctx(ws_tag(s, q2, ":"@), q2, Context::LetColon) {
                        PModel::Done(_, q3) => match ws(s, q3) {
                            PModel::Done(_, q4) => match parse_type(s, q4) {
                                PModel::Done(t, q5) => match ctx(ws_tag(s, q5, "="@), q5, Context::LetEquals) {
                                    PModel::Done(_, q6) => match ws(s, q6) {
                                        PModel::Done(_, q7) => match expr(s, q7) {
                                            PModel::Done(e, q8) => match ctx(
                                                ws_tag(s, q8, ";"@),
                                                q8,
                                                Context::LetSemicolon,
                                            ) {
                                                PModel::Done(_, q9) => PModel::Done(StatementModel::Let(id, t, e), q9),
                                                PModel::Incomplete => PModel::Incomplete,
                                                PModel::Fail(x) => PModel::Fail(x),
                                            },
                                            PModel::Incomplete => PModel::Incomplete,
                                            PModel::Fail(x) => PModel::Fail(x),
                                        },
                                        PModel::Incomplete => PModel::Incomplete,
                                        PModel::Fail(x) => PModel::Fail(x),
                                    },
                                    PModel::Incomplete => PModel::Incomplete,
                                    PModel::Fail(x) => PModel::Fail(x),
                                },
                                PModel::Incomplete => PModel::Incomplete,
                                PModel::Fail(x) => PModel::Fail(x),
                            },
                            PModel::Incomplete => PModel::Incomplete,
                            PModel::Fail(x) => PModel::Fail(x),
                        },
                        PModel::Incomplete => PModel::Incomplete,
                        PModel::Fail(x) => PModel::Fail(x),
                    },
                    PModel::Incomplete => PModel::Incomplete,
                    PModel::Fail(x) => PModel::Fail(x),
                },
                PModel::Incomplete => PModel::Incomplete,
                PModel::Fail(x) => PModel::Fail(x),
            },
            PModel::Incomplete => PModel::Incomplete,
            PModel::Fail(x) => PModel::Fail(x),
        },
        p,
        Context::Let,
    )
}

/// `set id = expr;`
pub open spec fn set_stmt(s: Seq<char>, p: int) -> PModel<StatementModel> {
    ctx(
        match ctx(tag(s, p, "set"@), p, Context::SetSet) {
            PModel::Done(_, q) => match ws(s, q) {
                PModel::Done(_, q1) => match ident(s, q1) {
                    PModel::Done(id, q2) => match ctx(ws_tag(s, q2, "="@), q2, Context::SetEquals) {
                        PModel::Done(_, q3) => match ws(s, q3) {
                            PModel::Done(_, q4) => match expr(s, q4) {
                                PModel::Done(e, q5) => match ctx(ws_tag(s, q5, ";"@), q5, Context::SetSemicolon) {
                                    PModel::Done(_, q6) => PModel::Done(StatementModel::SetGlobal(id, e), q6),
                                    PModel::Incomplete => PModel::Incomplete,
                                    PModel::Fail(x) => PModel::Fail(x),
                                },
                                PModel::Incomplete => PModel::Incomplete,
                                PModel::Fail(x) => PModel::Fail(x),
                            },
                            PModel::Incomplete => PModel::Incomplete,
                            PModel::Fail(x) => PModel::Fail(x),
                        },
                        PModel::Incomplete => PModel::Incomplete,
                        PModel::Fail(x) => PModel::Fail(x),
                    },
                    PModel::Incomplete => PModel::Incomplete,
                    PModel::Fail(x) => PModel::Fail(x),
                },
                PModel::Incomplete => PModel::Incomplete,
                PModel::Fail(x) => PModel::Fail(x),
            },
            PModel::Incomplete => PModel::Incomplete,
            PModel::Fail(x) => PModel::Fail(x),
        },
        p,
        Context::SetOf,
    )
}

/// `init;`
pub open spec fn init_stmt(s: Seq<char>, p: int) -> PModel<StatementModel> {
    ctx(
        match ctx(tag(s, p, "init"@), p, Context::InitInit) {
            PModel::Done(_, q) => match ctx(ws_tag(s, q, ";"@), q, Context::InitSemicolon) {
                PModel::Done(_, r) => PModel::Done(StatementModel::Init, r),
                PModel::Incomplete => PModel::Incomplete,
                PModel::Fail(x) => PModel::Fail(x),
            },
            PModel::Incomplete => PModel::Incomplete,
            PModel::Fail(x) => PModel::Fail(x),
        },
        p,
        Context::Init,
    )
}

/// `check expr;`
pub open spec fn check_stmt(s: Seq<char>, p: int) -> PModel<StatementModel> {
    ctx(
        match ctx(tag(s, p, "check"@), p, Context::CheckCheck) {
            PModel::Done(_, q) => match ws(s, q) {
                PModel::Done(_, q1) => match expr(s, q1) {
                    PModel::Done(e, q2) => match ctx(ws_tag(s, q2, ";"@), q2, Context::CheckSemicolon) {
                        PModel::Done(_, q3) => PModel::Done(StatementModel::Check(e), q3),
                        PModel::Incomplete => PModel::Incomplete,
                        PModel::Fail(x) => PModel::Fail(x),
                    },
                    PModel::Incomplete => PModel::Incomplete,
                    PModel::Fail(x) => PModel::Fail(x),
                },
                PModel::Incomplete => PModel::Incomplete,
                PModel::Fail(x) => PModel::Fail(x),
            },
            PModel::Incomplete => PModel::Incomplete,
            PModel::Fail(x) => PModel::Fail(x),
        },
        p,
        Context::Check,
    )
}

/// A statement.
pub open spec fn statement(s: Seq<char>, p: int) -> PModel<StatementModel> {
    ctx(alt(let_stmt(s, p), alt(set_stmt(s, p), alt(init_stmt(s, p), check_stmt(s, p)))), p, Context::Statement)
}

/// The first position from `p` on that holds a line break (`\r` or `\n`),
/// or the end.
pub open spec fn break_pos(s: Seq<char>, p: int) -> int
    decreases s.len() - p,
{
    if p < 0 || p >= s.len() || s[p] == '\r' || s[p] == '\n' {
        p
    } else {
        break_pos(s, p + 1)
    }
}

/// The rest of a line, up to its line break (`\n`, or `\r\n`); more input is
/// needed where no line break follows.
pub open spec fn rest_of_line(s: Seq<char>, p: int) -> PModel<()> {
    let i = break_pos(s, p);
    if i >= s.len() {
        PModel::Incomplete
    } else if s[i] == '\n' {
        PModel::Done((), i)
    } else if i + 1 >= s.len() {
        PModel::Incomplete
    } else if s[i + 1] == '\n' {
        PModel::Done((), i)
    } else {
        fail_at(p)
    }
}

/// A comment: `#` and the rest of the line.
pub open spec fn comment(s: Seq<char>, p: int) -> PModel<()> {
    match ctx(tag(s, p, "#"@), p, Context::Comment) {
        PModel::Done(_, q) => rest_of_line(s, q),
        PModel::Incomplete => PModel::Incomplete,
        PModel::Fail(x) => PModel::Fail(x),
    }
}

/// A line: a statement, or a comment (`None`).
pub open spec fn line(s: Seq<char>, p: int) -> PModel<Option<StatementModel>> {
    alt(
        match statement(s, p) {
            PModel::Done(st, q) => PModel::Done(Some(st), q),
            PModel::Incomplete => PModel::Incomplete,
            PModel::Fail(x) => PModel::Fail(x),
        },
        match comment(s, p) {
            PModel::Done(_, q) => PModel::Done(None, q),
            PModel::Incomplete => PModel::Incomplete,
            PModel::Fail(x) => PModel::Fail(x),
        },
    )
}

/// What reading the next statement gives, on models.
pub enum ActionModel {
    Statement(StatementModel),
    MaybeStatement,
    NoStatement,
    SyntaxError(ErrModel),
}

/// The next statement from position `p` on, and the position after it:
/// whitespace and comments are skipped; at the end of the input there is no
/// statement; where the input stops within a statement, more is needed.
pub open spec fn next_statement(s: Seq<char>, p: int) -> (ActionModel, int)
    decreases s.len() - p,
{
    let q = space_end(s, p);
    if q >= s.len() {
        (ActionModel::NoStatement, p)
    } else {
        match line(s, q) {
            PModel::Done(Some(st), r) => (ActionModel::Statement(st), r),
            PModel::Done(None, r) => if r > p {
                next_statement(s, r)
            } else {
                (ActionModel::NoStatement, p)
            },
            PModel::Incomplete => (ActionModel::MaybeStatement, p),
            PModel::Fail(e) => (ActionModel::SyntaxError(e), p),
        }
    }
}

} // verus!
