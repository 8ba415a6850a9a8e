//! The syntax of the command language, and its parser.

use vstd::prelude::*;
use vstd::std_specs::iter::IteratorSpec;

use crate::cli::errors::Context;
use crate::cli::grammar::{
    alt, alt_from, bracket_type, bracket_value, break_pos, check_stmt, comment, ctx, expr,
    expr_list, expr_list_rest, init_stmt, let_stmt, line, next_statement, rest_of_line, set_stmt,
    statement, value, ActionModel, digits_value, fail_at, feature_type, feature_value, further,
    ident, in_class, is_space, keyword_type, lemma_alt_step, parse_type, run0, run1, scan_end,
    space_end, tag, tuple_type, type_alt, type_alt_count, type_alts, type_list, type_list_rest,
    usize_value, ws, ws_tag, CharClass, ErrModel, PModel,
};
use crate::cli::{
    derivation_type, lemma_types_view, lexical_array_type, lexical_item_token_type, lexical_item_type,
    lexicon_type, stage_type, types_view, universal_grammar_type, workspace_type, Type, TypeModel,
};

verus! {

/// Value representation, as parsed.
pub enum Value {
    Feature(String),
    Vec(Vec<Expr>),
    SetOf(Vec<Expr>),
    Tuple(Vec<Expr>),
    Usize(usize),
}

/// Expression representation, as parsed.
pub enum Expr {
    Value(Value),
    Var(String),
}

/// Statement representation, as parsed.
pub enum Statement {
    /// `let id: T = expr;`
    Let(String, Type, Expr),
    /// `set id = expr;`
    SetGlobal(String, Expr),
    /// `init;`
    Init,
    /// `check expr;`
    Check(Expr),
}

/// The model of a parsed value.
pub enum RawValueModel {
    Feature(Seq<char>),
    Vec(Seq<ExprModel>),
    SetOf(Seq<ExprModel>),
    Tuple(Seq<ExprModel>),
    Usize(usize),
}

/// The model of an expression.
pub enum ExprModel {
    Value(RawValueModel),
    Var(Seq<char>),
}

/// The model of a statement.
pub enum StatementModel {
    Let(Seq<char>, TypeModel, ExprModel),
    SetGlobal(Seq<char>, ExprModel),
    Init,
    Check(ExprModel),
}

/// The models of the first `n` expressions of `s`.
pub open spec fn exprs_view_prefix(s: Seq<Expr>, n: nat) -> Seq<ExprModel>
    decreases s, n,
{
    if n == 0 || n > s.len() {
        Seq::empty()
    } else {
        exprs_view_prefix(s, (n - 1) as nat).push(expr_view(s[n - 1]))
    }
}

/// The model of a parsed value.
pub open spec fn raw_value_view(v: Value) -> RawValueModel
    decreases v, 0nat,
{
    match v {
        Value::Feature(s) => RawValueModel::Feature(s@),
        Value::Vec(es) => RawValueModel::Vec(exprs_view_prefix(es@, es@.len())),
        Value::SetOf(es) => RawValueModel::SetOf(exprs_view_prefix(es@, es@.len())),
        Value::Tuple(es) => RawValueModel::Tuple(exprs_view_prefix(es@, es@.len())),
        Value::Usize(x) => RawValueModel::Usize(x),
    }
}

/// The model of an expression.
pub open spec fn expr_view(e: Expr) -> ExprModel
    decreases e, 0nat,
{
    match e {
        Expr::Value(v) => ExprModel::Value(raw_value_view(v)),
        Expr::Var(s) => ExprModel::Var(s@),
    }
}

/// The models of a vector of expressions.
pub open spec fn exprs_view(s: Seq<Expr>) -> Seq<ExprModel> {
    exprs_view_prefix(s, s.len())
}

pub proof fn lemma_exprs_view_prefix(s: Seq<Expr>, n: nat)
    requires
        n <= s.len(),
    ensures
        exprs_view_prefix(s, n).len() == n,
        forall|i: int| 0 <= i < n ==> #[trigger] exprs_view_prefix(s, n)[i] == expr_view(s[i]),
    decreases n,
{
    if n > 0 {
        lemma_exprs_view_prefix(s, (n - 1) as nat);
    }
}

/// The models of a vector of expressions are taken element by element.
pub proof fn lemma_exprs_view(s: Seq<Expr>)
    ensures
        exprs_view(s).len() == s.len(),
        forall|i: int| 0 <= i < s.len() ==> #[trigger] exprs_view(s)[i] == expr_view(s[i]),
{
    lemma_exprs_view_prefix(s, s.len());
}

impl View for Value {
    type V = RawValueModel;

    open spec fn view(&self) -> RawValueModel {
        raw_value_view(*self)
    }
}

impl View for Expr {
    type V = ExprModel;

    open spec fn view(&self) -> ExprModel {
        expr_view(*self)
    }
}

impl View for Statement {
    type V = StatementModel;

    open spec fn view(&self) -> StatementModel {
        match *self {
            Statement::Let(id, t, e) => StatementModel::Let(id@, t@, e@),
            Statement::SetGlobal(id, e) => StatementModel::SetGlobal(id@, e@),
            Statement::Init => StatementModel::Init,
            Statement::Check(e) => StatementModel::Check(e@),
        }
    }
}

/// Where a parse failed: the position, and the contexts it was in, innermost
/// first, each with the position where it started.
pub struct ParseError {
    pub at: usize,
    pub contexts: Vec<(usize, Context)>,
}

impl View for ParseError {
    type V = ErrModel;

    open spec fn view(&self) -> ErrModel {
        ErrModel {
            at: self.at as int,
            contexts: self.contexts@.map_values(|x: (usize, Context)| (x.0 as int, x.1)),
        }
    }
}

/// The outcome of a parser: a result and the position after it; a need for
/// more input; or a failure.
pub enum Parsed<T> {
    Done(T, usize),
    Incomplete,
    Fail(ParseError),
}

/// The outcome on models, with `f` giving the model of a result.
pub open spec fn pview<T, M>(r: Parsed<T>, f: spec_fn(T) -> M) -> PModel<M> {
    match r {
        Parsed::Done(t, p) => PModel::Done(f(t), p as int),
        Parsed::Incomplete => PModel::Incomplete,
        Parsed::Fail(e) => PModel::Fail(e@),
    }
}

/// The position after a result is within the input.
pub open spec fn within<T>(r: Parsed<T>, n: nat) -> bool {
    match r {
        Parsed::Done(_, q) => q <= n,
        _ => true,
    }
}

/// The position after a result is past `p`.
pub open spec fn advances<T>(r: Parsed<T>, p: int) -> bool {
    match r {
        Parsed::Done(_, q) => q > p,
        _ => true,
    }
}

/// The model of a unit result.
pub open spec fn unit_view(u: ()) -> () {
    u
}

/// Failure at `p`, in no context.
fn err_at(p: usize) -> (e: ParseError)
    ensures
        e@ == (ErrModel { at: p as int, contexts: Seq::empty() }),
{
    let e = ParseError { at: p, contexts: Vec::new() };
    assert(e@.contexts =~= Seq::<(int, Context)>::empty());
    e
}

/// A failure, within one more context.
fn push_ctx(e: ParseError, p: usize, c: Context) -> (r: ParseError)
    ensures
        r@ == (ErrModel { at: e@.at, contexts: e@.contexts.push((p as int, c)) }),
{
    let ParseError { at, mut contexts } = e;
    let ghost old_contexts = contexts@;
    contexts.push((p, c));
    let r = ParseError { at, contexts };
    assert(r@.contexts =~= e@.contexts.push((p as int, c)));
    r
}

/// Of two failures, the one that got further; the first on a tie.
fn further_err(e1: ParseError, e2: ParseError) -> (r: ParseError)
    ensures
        r@ == further(e1@, e2@),
{
    if e2.at > e1.at {
        e2
    } else {
        e1
    }
}

/// A result within one more context, where it is a failure.
fn with_ctx<T>(r: Parsed<T>, p: usize, c: Context) -> (o: Parsed<T>)
    ensures
        forall|f: spec_fn(T) -> TypeModel| #[trigger] pview(o, f) == ctx(pview(r, f), p as int, c),
        forall|f: spec_fn(T) -> ExprModel| #[trigger] pview(o, f) == ctx(pview(r, f), p as int, c),
        forall|f: spec_fn(T) -> RawValueModel| #[trigger] pview(o, f) == ctx(pview(r, f), p as int, c),
        forall|f: spec_fn(T) -> StatementModel| #[trigger] pview(o, f) == ctx(pview(r, f), p as int, c),
        forall|f: spec_fn(T) -> Seq<char>| #[trigger] pview(o, f) == ctx(pview(r, f), p as int, c),
        forall|f: spec_fn(T) -> ()| #[trigger] pview(o, f) == ctx(pview(r, f), p as int, c),
        forall|n: nat| within(r, n) ==> #[trigger] within(o, n),
{
    match r {
        Parsed::Fail(e) => Parsed::Fail(push_ctx(e, p, c)),
        other => other,
    }
}

/// Whether `c` is whitespace.
fn is_space_char(c: char) -> (r: bool)
    ensures
        r == is_space(c),
{
    c == ' ' || c == '\t' || c == '\r' || c == '\n'
}

/// Whether `c` is of the class `k`.
fn in_class_char(c: char, k: CharClass) -> (r: bool)
    ensures
        r == in_class(c, k),
{
    let letter = ('a' <= c && c <= 'z') || ('A' <= c && c <= 'Z');
    let digit = '0' <= c && c <= '9';
    match k {
        CharClass::IdStart => letter || c == '_',
        CharClass::IdRest => letter || digit || c == '_',
        CharClass::FeatureChar => letter || digit || c == '*' || c == '=' || c == '\'',
        CharClass::Digit => digit,
    }
}

/// The first position from `p` on that holds no whitespace (or the end).
fn skip_space(s: &Vec<char>, p: usize) -> (q: usize)
    requires
        p <= s.len(),
    ensures
        q as int == space_end(s@, p as int),
        p <= q <= s.len(),
{
    let mut i = p;
    while i < s.len() && is_space_char(s[i])
        invariant
            p <= i <= s.len(),
            space_end(s@, i as int) == space_end(s@, p as int),
        decreases s.len() - i,
    {
        i = i + 1;
    }
    i
}

/// The first position from `p` on that holds no character of the class (or
/// the end).
fn skip_class(s: &Vec<char>, p: usize, k: CharClass) -> (q: usize)
    requires
        p <= s.len(),
    ensures
        q as int == scan_end(s@, p as int, k),
        p <= q <= s.len(),
{
    let mut i = p;
    while i < s.len() && in_class_char(s[i], k)
        invariant
            p <= i <= s.len(),
            scan_end(s@, i as int, k) == scan_end(s@, p as int, k),
        decreases s.len() - i,
    {
        i = i + 1;
    }
    i
}

/// Whitespace, possibly none.
///
/// See [`ws`].
fn ws_exec(s: &Vec<char>, p: usize) -> (r: Parsed<()>)
    requires
        p <= s.len(),
    ensures
        pview(r, |u: ()| u) == ws(s@, p as int),
        within(r, s.len() as nat),
        r matches Parsed::Done(_, q) ==> p <= q,
{
    let q = skip_space(s, p);
    if q >= s.len() {
        Parsed::Incomplete
    } else {
        Parsed::Done((), q)
    }
}

/// The token `t`.
///
/// See [`tag`].
fn tag_exec(s: &Vec<char>, p: usize, t: &str) -> (r: Parsed<()>)
    requires
        p <= s.len(),
    ensures
        r matches Parsed::Done(_, q) ==> q == p + t@.len(),
        pview(r, |u: ()| u) == tag(s@, p as int, t@),
        within(r, s.len() as nat),
{
    let n = t.unicode_len();
    let mut k: usize = 0;
    while k < n
        invariant
            k <= n,
            n == t@.len(),
            p <= s.len(),
            p + k <= s.len(),
            s@.subrange(p as int, p + k) == t@.subrange(0, k as int),
        decreases n - k,
    {
        if p + k == s.len() {
            assert(s@.subrange(p as int, s.len() as int) == t@.subrange(0, s.len() - p));
            return Parsed::Incomplete;
        }
        if s[p + k] != t.get_char(k) {
            proof {
                if p + n <= s.len() {
                    assert(s@.subrange(p as int, p + n)[k as int] != t@[k as int]);
                } else {
                    assert(s@.subrange(p as int, s.len() as int)[k as int] != t@.subrange(0, s.len() - p)[k as int]);
                }
            }
            return Parsed::Fail(err_at(p));
        }
        assert(s@.subrange(p as int, p + k + 1) =~= s@.subrange(p as int, p + k).push(s@[p + k]));
        assert(t@.subrange(0, k + 1) =~= t@.subrange(0, k as int).push(t@[k as int]));
        k = k + 1;
    }
    assert(t@.subrange(0, n as int) =~= t@);
    Parsed::Done((), p + n)
}

/// The one-character token `c`.
fn tag_char(s: &Vec<char>, p: usize, c: char) -> (r: Parsed<()>)
    requires
        p <= s.len(),
    ensures
        r matches Parsed::Done(_, q) ==> q == p + 1,
        pview(r, |u: ()| u) == tag(s@, p as int, seq![c]),
        within(r, s.len() as nat),
{
    if p == s.len() {
        assert(s@.subrange(p as int, s.len() as int) =~= seq![c].subrange(0, 0));
        Parsed::Incomplete
    } else if s[p] == c {
        assert(s@.subrange(p as int, p + 1) =~= seq![c]);
        Parsed::Done((), p + 1)
    } else {
        assert(s@.subrange(p as int, p + 1)[0] != seq![c][0]);
        Parsed::Fail(err_at(p))
    }
}

/// Whitespace, then the token `t`.
fn ws_tag_exec(s: &Vec<char>, p: usize, t: &str) -> (r: Parsed<()>)
    requires
        p <= s.len(),
    ensures
        r matches Parsed::Done(_, q) ==> q >= p + t@.len(),
        pview(r, |u: ()| u) == ws_tag(s@, p as int, t@),
        within(r, s.len() as nat),
{
    match ws_exec(s, p) {
        Parsed::Done(_, q) => tag_exec(s, q, t),
        Parsed::Incomplete => Parsed::Incomplete,
        Parsed::Fail(e) => Parsed::Fail(e),
    }
}

/// Whitespace, then the one-character token `c`.
fn ws_tag_char(s: &Vec<char>, p: usize, c: char) -> (r: Parsed<()>)
    requires
        p <= s.len(),
    ensures
        r matches Parsed::Done(_, q) ==> q >= p + 1,
        pview(r, |u: ()| u) == ws_tag(s@, p as int, seq![c]),
        within(r, s.len() as nat),
{
    match ws_exec(s, p) {
        Parsed::Done(_, q) => tag_char(s, q, c),
        Parsed::Incomplete => Parsed::Incomplete,
        Parsed::Fail(e) => Parsed::Fail(e),
    }
}

/// One or more characters of the class.
fn run1_exec(s: &Vec<char>, p: usize, k: CharClass) -> (r: Parsed<()>)
    requires
        p <= s.len(),
    ensures
        pview(r, |u: ()| u) == run1(s@, p as int, k),
        r matches Parsed::Done(_, q) ==> p < q < s.len(),
{
    if p >= s.len() {
        Parsed::Incomplete
    } else if !in_class_char(s[p], k) {
        Parsed::Fail(err_at(p))
    } else {
        let q = skip_class(s, p + 1, k);
        if q >= s.len() {
            Parsed::Incomplete
        } else {
            Parsed::Done((), q)
        }
    }
}

/// Zero or more characters of the class.
fn run0_exec(s: &Vec<char>, p: usize, k: CharClass) -> (r: Parsed<()>)
    requires
        p <= s.len(),
    ensures
        pview(r, |u: ()| u) == run0(s@, p as int, k),
        r matches Parsed::Done(_, q) ==> p <= q < s.len(),
{
    let q = skip_class(s, p, k);
    if q >= s.len() {
        Parsed::Incomplete
    } else {
        Parsed::Done((), q)
    }
}

/// The characters `p..q` of the text.
fn text_part(s: &Vec<char>, text: &str, p: usize, q: usize) -> (r: String)
    requires
        s@ == text@,
        p <= q <= s.len(),
    ensures
        r@ == s@.subrange(p as int, q as int),
{
    text.substring_char(p, q).to_owned()
}

/// An identifier.
///
/// See [`ident`].
fn ident_exec(s: &Vec<char>, text: &str, p: usize) -> (r: Parsed<String>)
    requires
        p <= s.len(),
        s@ == text@,
    ensures
        pview(r, |x: String| x@) == ident(s@, p as int),
        r matches Parsed::Done(_, q) ==> p < q < s.len(),
{
    let first = with_ctx(run1_exec(s, p, CharClass::IdStart), p, Context::Id);
    assert(pview(first, |u: ()| u) == ctx(run1(s@, p as int, CharClass::IdStart), p as int, Context::Id));
    match first {
        Parsed::Done(_, q) => {
            match run0_exec(s, q, CharClass::IdRest) {
                Parsed::Done(_, r) => Parsed::Done(text_part(s, text, p, r), r),
                Parsed::Incomplete => Parsed::Incomplete,
                Parsed::Fail(e) => Parsed::Fail(e),
            }
        },
        Parsed::Incomplete => Parsed::Incomplete,
        Parsed::Fail(e) => Parsed::Fail(e),
    }
}

/// A longer string of digits writes a number at least as large.
proof fn lemma_digits_value_grows(d: Seq<char>, x: char)
    requires
        '0' <= x <= '9',
    ensures
        digits_value(d.push(x)) >= digits_value(d),
        digits_value(d.push(x)) == digits_value(d) * 10 + ((x as nat) - ('0' as nat)),
{
    assert(d.push(x).drop_last() =~= d);
}

/// The number that the digits `p..q` write, where it fits in `usize`.
fn digits_number(s: &Vec<char>, p: usize, q: usize) -> (r: Option<usize>)
    requires
        p <= q <= s.len(),
        forall|i: int| p <= i < q ==> '0' <= #[trigger] s@[i] <= '9',
    ensures
        match r {
            Some(v) => v == digits_value(s@.subrange(p as int, q as int)),
            None => digits_value(s@.subrange(p as int, q as int)) > usize::MAX,
        },
{
    let mut v: usize = 0;
    let mut i = p;
    assert(s@.subrange(p as int, p as int) =~= Seq::<char>::empty());
    while i < q
        invariant
            p <= i <= q <= s.len(),
            forall|j: int| p <= j < q ==> '0' <= #[trigger] s@[j] <= '9',
            v == digits_value(s@.subrange(p as int, i as int)),
        decreases q - i,
    {
        let c = s[i];
        let d = (c as u32 - '0' as u32) as usize;
        proof {
            assert(s@.subrange(p as int, i + 1) =~= s@.subrange(p as int, i as int).push(c));
            lemma_digits_value_grows(s@.subrange(p as int, i as int), c);
        }
        if v > (usize::MAX - d) / 10 {
            proof {
                assert(v * 10 + d > usize::MAX) by (nonlinear_arith)
                    requires
                        v > (usize::MAX - d) / 10,
                        d <= 9,
                ;
                lemma_digits_value_mono(s@, p as int, (i + 1) as int, q as int);
            }
            return None;
        }
        assert(v * 10 + d <= usize::MAX) by (nonlinear_arith)
            requires
                v <= (usize::MAX - d) / 10,
                d <= 9,
        ;
        v = v * 10 + d;
        i = i + 1;
    }
    Some(v)
}

/// A string of digits writes a number at least as large as any prefix of it
/// writes.
proof fn lemma_digits_value_mono(s: Seq<char>, p: int, i: int, q: int)
    requires
        0 <= p <= i <= q <= s.len(),
        forall|j: int| p <= j < q ==> '0' <= #[trigger] s[j] <= '9',
    ensures
        digits_value(s.subrange(p, i)) <= digits_value(s.subrange(p, q)),
    decreases q - i,
{
    if i < q {
        lemma_digits_value_mono(s, p, i, q - 1);
        assert(s.subrange(p, q) =~= s.subrange(p, q - 1).push(s[q - 1]));
        lemma_digits_value_grows(s.subrange(p, q - 1), s[q - 1]);
    }
}

/// A feature value.
///
/// See [`feature_value`].
fn feature_value_exec(s: &Vec<char>, text: &str, p: usize) -> (r: Parsed<Value>)
    requires
        p <= s.len(),
        s@ == text@,
    ensures
        advances(r, p as int),
        pview(r, |v: Value| v@) == feature_value(s@, p as int),
        within(r, s.len() as nat),
{
    proof {
        reveal_strlit("\"");
    }
    match tag_exec(s, p, "\"") {
        Parsed::Done(_, q) => {
            let body = with_ctx(run1_exec(s, q, CharClass::FeatureChar), q, Context::Feature);
            assert(pview(body, |u: ()| u) == ctx(run1(s@, q as int, CharClass::FeatureChar), q as int, Context::Feature));
            match body {
                Parsed::Done(_, r) => {
                    match tag_exec(s, r, "\"") {
                        Parsed::Done(_, e) => {
                            let v = Value::Feature(text_part(s, text, q, r));
                            assert(v@ == RawValueModel::Feature(s@.subrange(q as int, r as int)));
                            Parsed::Done(v, e)
                        },
                        Parsed::Incomplete => Parsed::Incomplete,
                        Parsed::Fail(x) => Parsed::Fail(x),
                    }
                },
                Parsed::Incomplete => Parsed::Incomplete,
                Parsed::Fail(x) => Parsed::Fail(x),
            }
        },
        Parsed::Incomplete => Parsed::Incomplete,
        Parsed::Fail(x) => Parsed::Fail(x),
    }
}

/// A number value.
///
/// See [`usize_value`].
fn usize_value_exec(s: &Vec<char>, p: usize) -> (r: Parsed<Value>)
    requires
        p <= s.len(),
    ensures
        advances(r, p as int),
        pview(r, |v: Value| v@) == usize_value(s@, p as int),
        within(r, s.len() as nat),
{
    let digits = with_ctx(run1_exec(s, p, CharClass::Digit), p, Context::Usize);
    assert(pview(digits, |u: ()| u) == ctx(run1(s@, p as int, CharClass::Digit), p as int, Context::Usize));
    match digits {
        Parsed::Done(_, q) => {
            proof {
                assert(run1(s@, p as int, CharClass::Digit) == PModel::Done((), q as int));
                assert forall|i: int| p <= i < q implies '0' <= #[trigger] s@[i] <= '9' by {
                    if i > p {
                        lemma_scan_end_class(s@, (p + 1) as int, CharClass::Digit, i);
                    }
                }
            }
            match digits_number(s, p, q) {
                Some(v) => {
                    let x = Value::Usize(v);
                    assert(x@ == RawValueModel::Usize(v));
                    Parsed::Done(x, q)
                },
                None => Parsed::Fail(push_ctx(err_at(p), p, Context::Usize)),
            }
        },
        Parsed::Incomplete => Parsed::Incomplete,
        Parsed::Fail(x) => Parsed::Fail(x),
    }
}

/// Every position before where a scan stops holds a character of the class.
proof fn lemma_scan_end_class(s: Seq<char>, p: int, k: CharClass, i: int)
    requires
        0 <= p,
        p <= i < scan_end(s, p, k),
    ensures
        in_class(s[i], k),
    decreases s.len() - p,
{
    if i > p {
        lemma_scan_end_class(s, p + 1, k, i);
    }
}

/// A type keyword.
///
/// See [`keyword_type`].
fn keyword_type_exec(s: &Vec<char>, p: usize, word: &str, c: Context, t: Type) -> (r: Parsed<Type>)
    requires
        p <= s.len(),
        word@.len() > 0,
    ensures
        advances(r, p as int),
        pview(r, |x: Type| x@) == keyword_type(s@, p as int, word@, c, t@),
        within(r, s.len() as nat),
{
    let m = with_ctx(tag_exec(s, p, word), p, c);
    assert(pview(m, |u: ()| u) == ctx(tag(s@, p as int, word@), p as int, c));
    match m {
        Parsed::Done(_, q) => Parsed::Done(t, q),
        Parsed::Incomplete => Parsed::Incomplete,
        Parsed::Fail(e) => Parsed::Fail(e),
    }
}

/// `Feature` or `F`.
///
/// See [`feature_type`].
fn feature_type_exec(s: &Vec<char>, p: usize) -> (r: Parsed<Type>)
    requires
        p <= s.len(),
    ensures
        advances(r, p as int),
        pview(r, |x: Type| x@) == feature_type(s@, p as int),
        within(r, s.len() as nat),
{
    let ghost t = TypeModel::Feature;
    proof {
        reveal_strlit("Feature");
        reveal_strlit("F");
    }
    let a = keyword_type_exec(s, p, "Feature", Context::FeatureType, Type::Feature);
    let m = match a {
        Parsed::Fail(e1) => {
            let b = keyword_type_exec(s, p, "F", Context::FeatureType, Type::Feature);
            match b {
                Parsed::Fail(e2) => Parsed::Fail(further_err(e1, e2)),
                other => other,
            }
        },
        other => other,
    };
    assert(pview(m, |x: Type| x@) == alt(
        keyword_type(s@, p as int, "Feature"@, Context::FeatureType, t),
        keyword_type(s@, p as int, "F"@, Context::FeatureType, t),
    ));
    with_ctx(m, p, Context::FeatureType)
}

/// The `k`-th way a type can be written.
///
/// See [`type_alt`].
fn type_alt_exec(s: &Vec<char>, p: usize, k: usize) -> (r: Parsed<Type>)
    requires
        p <= s.len(),
    ensures
        advances(r, p as int),
        pview(r, |x: Type| x@) == type_alt(s@, p as int, k as int),
        within(r, s.len() as nat),
    decreases s.len() - p, 1int, 0int,
{
    proof {
        reveal_strlit("usize");
        reveal_strlit("Lit");
        reveal_strlit("Li");
        reveal_strlit("Lex");
        reveal_strlit("UG");
        reveal_strlit("La");
        reveal_strlit("Wksp");
        reveal_strlit("Stage");
        reveal_strlit("Deriv");
        reveal_strlit("SO");
    }
    if k == 0 {
        feature_type_exec(s, p)
    } else if k == 1 {
        keyword_type_exec(s, p, "usize", Context::UsizeType, Type::Usize)
    } else if k == 2 {
        keyword_type_exec(s, p, "Lit", Context::LexicalItemTokenType, lexical_item_token_type())
    } else if k == 3 {
        keyword_type_exec(s, p, "Li", Context::LexicalItemType, lexical_item_type())
    } else if k == 4 {
        keyword_type_exec(s, p, "Lex", Context::LexiconType, lexicon_type())
    } else if k == 5 {
        keyword_type_exec(s, p, "UG", Context::UniversalGrammarType, universal_grammar_type())
    } else if k == 6 {
        keyword_type_exec(s, p, "La", Context::LexicalArrayType, lexical_array_type())
    } else if k == 7 {
        keyword_type_exec(s, p, "Wksp", Context::WorkspaceType, workspace_type())
    } else if k == 8 {
        keyword_type_exec(s, p, "Stage", Context::StageType, stage_type())
    } else if k == 9 {
        keyword_type_exec(s, p, "Deriv", Context::DerivationType, derivation_type())
    } else if k == 10 {
        keyword_type_exec(s, p, "SO", Context::SOType, Type::SO)
    } else if k == 11 {
        bracket_type_exec(s, p, '[', ']', Context::VecType, Context::VecTypeLeft, Context::VecTypeRight)
    } else if k == 12 {
        bracket_type_exec(s, p, '{', '}', Context::SetType, Context::SetTypeLeft, Context::SetTypeRight)
    } else {
        tuple_type_exec(s, p)
    }
}

/// A type.
///
/// See [`parse_type`].
pub fn parse_type_exec(s: &Vec<char>, p: usize) -> (r: Parsed<Type>)
    requires
        p <= s.len(),
    ensures
        advances(r, p as int),
        pview(r, |x: Type| x@) == parse_type(s@, p as int),
        within(r, s.len() as nat),
    decreases s.len() - p, 3int, 0int,
{
    let first = type_alt_exec(s, p, 0);
    let mut err = match first {
        Parsed::Fail(e) => e,
        other => {
            return with_ctx(other, p, Context::Type);
        },
    };
    let mut k: usize = 1;
    while k < 13
        invariant
            1 <= k <= 13,
            p <= s.len(),
            type_alts(s@, p as int, 0) == alt_from(err@, type_alts(s@, p as int, k as int)),
        decreases 13 - k,
    {
        let r = type_alt_exec(s, p, k);
        match r {
            Parsed::Fail(e2) => {
                proof {
                    lemma_alt_step(err@, type_alt(s@, p as int, k as int), type_alts(s@, p as int, k + 1));
                }
                err = further_err(err, e2);
            },
            other => {
                assert(pview(other, |x: Type| x@) == type_alts(s@, p as int, 0));
                return with_ctx(other, p, Context::Type);
            },
        }
        k = k + 1;
    }
    let r = type_alt_exec(s, p, 13);
    let m = match r {
        Parsed::Fail(e2) => Parsed::Fail(further_err(err, e2)),
        other => other,
    };
    assert(pview(m, |x: Type| x@) == type_alts(s@, p as int, 0));
    with_ctx(m, p, Context::Type)
}

/// `[T]` or `{T}`.
///
/// See [`bracket_type`].
fn bracket_type_exec(
    s: &Vec<char>,
    p: usize,
    left: char,
    right: char,
    c: Context,
    cl: Context,
    cr: Context,
) -> (r: Parsed<Type>)
    requires
        p <= s.len(),
    ensures
        advances(r, p as int),
        pview(r, |x: Type| x@) == bracket_type(s@, p as int, left, right, c, cl, cr),
        within(r, s.len() as nat),
    decreases s.len() - p, 0int, 0int,
{
    let open = with_ctx(tag_char(s, p, left), p, cl);
    assert(pview(open, |u: ()| u) == ctx(tag(s@, p as int, seq![left]), p as int, cl));
    let m: Parsed<Type> = match open {
        Parsed::Done(_, q) => match ws_exec(s, q) {
            Parsed::Done(_, q2) => if q2 > p {
                match parse_type_exec(s, q2) {
                    Parsed::Done(t, r) => {
                        let close = with_ctx(ws_tag_char(s, r, right), r, cr);
                        assert(pview(close, |u: ()| u) == ctx(ws_tag(s@, r as int, seq![right]), r as int, cr));
                        match close {
                            Parsed::Done(_, e) => {
                                let x = if left == '[' {
                                    Type::Vec(Box::new(t))
                                } else {
                                    Type::SetOf(Box::new(t))
                                };
                                Parsed::Done(x, e)
                            },
                            Parsed::Incomplete => Parsed::Incomplete,
                            Parsed::Fail(x) => Parsed::Fail(x),
                        }
                    },
                    Parsed::Incomplete => Parsed::Incomplete,
                    Parsed::Fail(x) => Parsed::Fail(x),
                }
            } else {
                Parsed::Fail(err_at(p))
            },
            Parsed::Incomplete => Parsed::Incomplete,
            Parsed::Fail(x) => Parsed::Fail(x),
        },
        Parsed::Incomplete => Parsed::Incomplete,
        Parsed::Fail(x) => Parsed::Fail(x),
    };
    with_ctx(m, p, c)
}

/// `<T1, ..., Tn>`.
///
/// See [`tuple_type`].
fn tuple_type_exec(s: &Vec<char>, p: usize) -> (r: Parsed<Type>)
    requires
        p <= s.len(),
    ensures
        advances(r, p as int),
        pview(r, |x: Type| x@) == tuple_type(s@, p as int),
        within(r, s.len() as nat),
    decreases s.len() - p, 0int, 0int,
{
    let open = with_ctx(tag_exec(s, p, "<"), p, Context::TupleTypeLeft);
    assert(pview(open, |u: ()| u) == ctx(tag(s@, p as int, "<"@), p as int, Context::TupleTypeLeft));
    let m: Parsed<Type> = match open {
        Parsed::Done(_, q) => if q > p {
            match type_list_exec(s, q) {
                Parsed::Done(ts, r) => {
                    let close = with_ctx(ws_tag_exec(s, r, ">"), r, Context::TupleTypeRight);
                    assert(pview(close, |u: ()| u) == ctx(ws_tag(s@, r as int, ">"@), r as int, Context::TupleTypeRight));
                    match close {
                        Parsed::Done(_, e) => {
                            let x = Type::Tuple(ts);
                            assert(x@ == TypeModel::Tuple(types_view(ts@)));
                            Parsed::Done(x, e)
                        },
                        Parsed::Incomplete => Parsed::Incomplete,
                        Parsed::Fail(x) => Parsed::Fail(x),
                    }
                },
                Parsed::Incomplete => Parsed::Incomplete,
                Parsed::Fail(x) => Parsed::Fail(x),
            }
        } else {
            Parsed::Fail(err_at(p))
        },
        Parsed::Incomplete => Parsed::Incomplete,
        Parsed::Fail(x) => Parsed::Fail(x),
    };
    with_ctx(m, p, Context::TupleType)
}

/// The models of a vector of types with one more at the front.
proof fn lemma_types_view_insert_front(ts: Seq<Type>, t: Type)
    ensures
        types_view(ts.insert(0, t)) == seq![t@] + types_view(ts),
{
    lemma_types_view(ts);
    lemma_types_view(ts.insert(0, t));
    assert(types_view(ts.insert(0, t)) =~= seq![t@] + types_view(ts));
}

/// Types separated by commas.
///
/// See [`type_list`].
fn type_list_exec(s: &Vec<char>, p: usize) -> (r: Parsed<Vec<Type>>)
    requires
        p <= s.len(),
    ensures
        r matches Parsed::Done(_, q) ==> p <= q,
        pview(r, |v: Vec<Type>| types_view(v@)) == type_list(s@, p as int),
        within(r, s.len() as nat),
    decreases s.len() - p, 4int, 0int,
{
    match ws_exec(s, p) {
        Parsed::Done(_, q) => {
            match parse_type_exec(s, q) {
                Parsed::Done(t, r) => if p < r {
                    match type_list_rest_exec(s, r) {
                        Parsed::Done(ts, e) => {
                            let mut ts = ts;
                            proof {
                                lemma_types_view_insert_front(ts@, t);
                            }
                            ts.insert(0, t);
                            Parsed::Done(ts, e)
                        },
                        Parsed::Incomplete => Parsed::Incomplete,
                        Parsed::Fail(x) => Parsed::Fail(x),
                    }
                } else {
                    Parsed::Fail(err_at(p))
                },
                Parsed::Incomplete => Parsed::Incomplete,
                Parsed::Fail(_) => {
                    let v: Vec<Type> = Vec::new();
                    assert(types_view(v@) =~= Seq::<TypeModel>::empty());
                    Parsed::Done(v, p)
                },
            }
        },
        Parsed::Incomplete => Parsed::Incomplete,
        Parsed::Fail(_) => {
            let v: Vec<Type> = Vec::new();
            assert(types_view(v@) =~= Seq::<TypeModel>::empty());
            Parsed::Done(v, p)
        },
    }
}

/// More types, each after a comma.
///
/// See [`type_list_rest`].
fn type_list_rest_exec(s: &Vec<char>, p: usize) -> (r: Parsed<Vec<Type>>)
    requires
        p <= s.len(),
    ensures
        r matches Parsed::Done(_, q) ==> p <= q,
        pview(r, |v: Vec<Type>| types_view(v@)) == type_list_rest(s@, p as int),
        within(r, s.len() as nat),
    decreases s.len() - p, 0int, 0int,
{
    let empty: Vec<Type> = Vec::new();
    assert(types_view(empty@) =~= Seq::<TypeModel>::empty());
    match ws_tag_exec(s, p, ",") {
        Parsed::Done(_, q) => match ws_exec(s, q) {
            Parsed::Done(_, q2) => if q2 > p {
                match parse_type_exec(s, q2) {
                    Parsed::Done(t, r) => if p < r {
                        match type_list_rest_exec(s, r) {
                            Parsed::Done(ts, e) => {
                                let mut ts = ts;
                                proof {
                                    lemma_types_view_insert_front(ts@, t);
                                }
                                ts.insert(0, t);
                                Parsed::Done(ts, e)
                            },
                            Parsed::Incomplete => Parsed::Incomplete,
                            Parsed::Fail(x) => Parsed::Fail(x),
                        }
                    } else {
                        Parsed::Fail(err_at(p))
                    },
                    Parsed::Incomplete => Parsed::Incomplete,
                    Parsed::Fail(_) => Parsed::Done(empty, p),
                }
            } else {
                Parsed::Fail(err_at(p))
            },
            Parsed::Incomplete => Parsed::Incomplete,
            Parsed::Fail(_) => Parsed::Done(empty, p),
        },
        Parsed::Incomplete => Parsed::Incomplete,
        Parsed::Fail(_) => Parsed::Done(empty, p),
    }
}

/// A value.
///
/// See [`value`].
fn value_exec(s: &Vec<char>, text: &str, p: usize) -> (r: Parsed<Value>)
    requires
        p <= s.len(),
        s@ == text@,
    ensures
        advances(r, p as int),
        pview(r, |v: Value| v@) == value(s@, p as int),
        within(r, s.len() as nat),
    decreases s.len() - p, 1int,
{
    let ghost sa = feature_value(s@, p as int);
    let ghost sb = usize_value(s@, p as int);
    let ghost sc = bracket_value(s@, p as int, '[', ']', Context::Vec, Context::VecLeft, Context::VecRight);
    let ghost sd = bracket_value(s@, p as int, '{', '}', Context::SetOf, Context::SetLeft, Context::SetRight);
    let ghost se = bracket_value(s@, p as int, '<', '>', Context::Tuple, Context::TupleLeft, Context::TupleRight);
    assert(value(s@, p as int) == ctx(alt(sa, alt(sb, alt(sc, alt(sd, se)))), p as int, Context::Value));
    let a = feature_value_exec(s, text, p);
    let e1 = match a {
        Parsed::Fail(e) => e,
        other => {
            return with_ctx(other, p, Context::Value);
        },
    };
    let b = usize_value_exec(s, p);
    let e2 = match b {
        Parsed::Fail(e) => {
            proof {
                lemma_alt_step(e1@, sb, alt(sc, alt(sd, se)));
            }
            further_err(e1, e)
        },
        other => {
            return with_ctx(other, p, Context::Value);
        },
    };
    let c = bracket_value_exec(s, text, p, '[', ']', Context::Vec, Context::VecLeft, Context::VecRight);
    let e3 = match c {
        Parsed::Fail(e) => {
            proof {
                lemma_alt_step(e2@, sc, alt(sd, se));
            }
            further_err(e2, e)
        },
        other => {
            return with_ctx(other, p, Context::Value);
        },
    };
    let d = bracket_value_exec(s, text, p, '{', '}', Context::SetOf, Context::SetLeft, Context::SetRight);
    let e4 = match d {
        Parsed::Fail(e) => {
            proof {
                lemma_alt_step(e3@, sd, se);
            }
            further_err(e3, e)
        },
        other => {
            return with_ctx(other, p, Context::Value);
        },
    };
    let e = bracket_value_exec(s, text, p, '<', '>', Context::Tuple, Context::TupleLeft, Context::TupleRight);
    let m = match e {
        Parsed::Fail(x) => Parsed::Fail(further_err(e4, x)),
        other => other,
    };
    with_ctx(m, p, Context::Value)
}

/// An expression: a variable or a value.
///
/// See [`expr`].
pub fn expr_exec(s: &Vec<char>, text: &str, p: usize) -> (r: Parsed<Expr>)
    requires
        p <= s.len(),
        s@ == text@,
    ensures
        advances(r, p as int),
        pview(r, |e: Expr| e@) == expr(s@, p as int),
        within(r, s.len() as nat),
    decreases s.len() - p, 2int,
{
    let ghost sv = match ident(s@, p as int) {
        PModel::Done(id, q) => PModel::Done(ExprModel::Var(id), q),
        PModel::Incomplete => PModel::Incomplete,
        PModel::Fail(x) => PModel::Fail(x),
    };
    let ghost sw = match value(s@, p as int) {
        PModel::Done(v, q) => PModel::Done(ExprModel::Value(v), q),
        PModel::Incomplete => PModel::Incomplete,
        PModel::Fail(x) => PModel::Fail(x),
    };
    assert(expr(s@, p as int) == ctx(alt(ctx(sv, p as int, Context::Var), sw), p as int, Context::Expr));
    let var: Parsed<Expr> = match ident_exec(s, text, p) {
        Parsed::Done(id, q) => {
            let x = Expr::Var(id);
            assert(x@ == ExprModel::Var(id@));
            Parsed::Done(x, q)
        },
        Parsed::Incomplete => Parsed::Incomplete,
        Parsed::Fail(x) => Parsed::Fail(x),
    };
    assert(pview(var, |e: Expr| e@) == sv);
    let a = with_ctx(var, p, Context::Var);
    assert(pview(a, |e: Expr| e@) == ctx(sv, p as int, Context::Var));
    let m = match a {
        Parsed::Fail(e1) => {
            let v: Parsed<Expr> = match value_exec(s, text, p) {
                Parsed::Done(x, q) => {
                    let y = Expr::Value(x);
                    assert(y@ == ExprModel::Value(x@));
                    Parsed::Done(y, q)
                },
                Parsed::Incomplete => Parsed::Incomplete,
                Parsed::Fail(x) => Parsed::Fail(x),
            };
            assert(pview(v, |e: Expr| e@) == sw);
            match v {
                Parsed::Fail(e2) => Parsed::Fail(further_err(e1, e2)),
                other => other,
            }
        },
        other => other,
    };
    assert(pview(m, |e: Expr| e@) == alt(ctx(sv, p as int, Context::Var), sw));
    with_ctx(m, p, Context::Expr)
}

/// A vector, a set or a tuple of expressions.
///
/// See [`bracket_value`].
fn bracket_value_exec(
    s: &Vec<char>,
    text: &str,
    p: usize,
    left: char,
    right: char,
    c: Context,
    cl: Context,
    cr: Context,
) -> (r: Parsed<Value>)
    requires
        p <= s.len(),
        s@ == text@,
    ensures
        advances(r, p as int),
        pview(r, |v: Value| v@) == bracket_value(s@, p as int, left, right, c, cl, cr),
        within(r, s.len() as nat),
    decreases s.len() - p, 0int,
{
    let open = with_ctx(tag_char(s, p, left), p, cl);
    assert(pview(open, |u: ()| u) == ctx(tag(s@, p as int, seq![left]), p as int, cl));
    let m: Parsed<Value> = match open {
        Parsed::Done(_, q) => if q > p {
            match expr_list_exec(s, text, q) {
                Parsed::Done(es, r) => {
                    let close = with_ctx(ws_tag_char(s, r, right), r, cr);
                    assert(pview(close, |u: ()| u) == ctx(ws_tag(s@, r as int, seq![right]), r as int, cr));
                    match close {
                        Parsed::Done(_, e) => {
                            let x = if left == '[' {
                                Value::Vec(es)
                            } else if left == '{' {
                                Value::SetOf(es)
                            } else {
                                Value::Tuple(es)
                            };
                            Parsed::Done(x, e)
                        },
                        Parsed::Incomplete => Parsed::Incomplete,
                        Parsed::Fail(x) => Parsed::Fail(x),
                    }
                },
                Parsed::Incomplete => Parsed::Incomplete,
                Parsed::Fail(x) => Parsed::Fail(x),
            }
        } else {
            Parsed::Fail(err_at(p))
        },
        Parsed::Incomplete => Parsed::Incomplete,
        Parsed::Fail(x) => Parsed::Fail(x),
    };
    with_ctx(m, p, c)
}

/// The models of a vector of expressions with one more at the front.
proof fn lemma_exprs_view_insert_front(es: Seq<Expr>, e: Expr)
    ensures
        exprs_view(es.insert(0, e)) == seq![e@] + exprs_view(es),
{
    lemma_exprs_view(es);
    lemma_exprs_view(es.insert(0, e));
    assert(exprs_view(es.insert(0, e)) =~= seq![e@] + exprs_view(es));
}

/// Expressions separated by commas.
///
/// See [`expr_list`].
fn expr_list_exec(s: &Vec<char>, text: &str, p: usize) -> (r: Parsed<Vec<Expr>>)
    requires
        p <= s.len(),
        s@ == text@,
    ensures
        r matches Parsed::Done(_, q) ==> p <= q,
        pview(r, |v: Vec<Expr>| exprs_view(v@)) == expr_list(s@, p as int),
        within(r, s.len() as nat),
    decreases s.len() - p, 3int,
{
    let empty: Vec<Expr> = Vec::new();
    assert(exprs_view(empty@) =~= Seq::<ExprModel>::empty());
    match ws_exec(s, p) {
        Parsed::Done(_, q) => {
            match expr_exec(s, text, q) {
                Parsed::Done(t, r) => if p < r {
                    match expr_list_rest_exec(s, text, r) {
                        Parsed::Done(ts, e) => {
                            let mut ts = ts;
                            proof {
                                lemma_exprs_view_insert_front(ts@, t);
                            }
                            ts.insert(0, t);
                            Parsed::Done(ts, e)
                        },
                        Parsed::Incomplete => Parsed::Incomplete,
                        Parsed::Fail(x) => Parsed::Fail(x),
                    }
                } else {
                    Parsed::Fail(err_at(p))
                },
                Parsed::Incomplete => Parsed::Incomplete,
                Parsed::Fail(_) => Parsed::Done(empty, p),
            }
        },
        Parsed::Incomplete => Parsed::Incomplete,
        Parsed::Fail(_) => Parsed::Done(empty, p),
    }
}

/// More expressions, each after a comma.
///
/// See [`expr_list_rest`].
fn expr_list_rest_exec(s: &Vec<char>, text: &str, p: usize) -> (r: Parsed<Vec<Expr>>)
    requires
        p <= s.len(),
        s@ == text@,
    ensures
        r matches Parsed::Done(_, q) ==> p <= q,
        pview(r, |v: Vec<Expr>| exprs_view(v@)) == expr_list_rest(s@, p as int),
        within(r, s.len() as nat),
    decreases s.len() - p, 0int,
{
    let empty: Vec<Expr> = Vec::new();
    assert(exprs_view(empty@) =~= Seq::<ExprModel>::empty());
    match ws_tag_exec(s, p, ",") {
        Parsed::Done(_, q) => match ws_exec(s, q) {
            Parsed::Done(_, q2) => if q2 > p {
                match expr_exec(s, text, q2) {
                    Parsed::Done(t, r) => if p < r {
                        match expr_list_rest_exec(s, text, r) {
                            Parsed::Done(ts, e) => {
                                let mut ts = ts;
                                proof {
                                    lemma_exprs_view_insert_front(ts@, t);
                                }
                                ts.insert(0, t);
                                Parsed::Done(ts, e)
                            },
                            Parsed::Incomplete => Parsed::Incomplete,
                            Parsed::Fail(x) => Parsed::Fail(x),
                        }
                    } else {
                        Parsed::Fail(err_at(p))
                    },
                    Parsed::Incomplete => Parsed::Incomplete,
                    Parsed::Fail(_) => Parsed::Done(empty, p),
                }
            } else {
                Parsed::Fail(err_at(p))
            },
            Parsed::Incomplete => Parsed::Incomplete,
            Parsed::Fail(_) => Parsed::Done(empty, p),
        },
        Parsed::Incomplete => Parsed::Incomplete,
        Parsed::Fail(_) => Parsed::Done(empty, p),
    }
}

/// `let id: T = expr;`
///
/// See [`let_stmt`].
fn let_stmt_exec(s: &Vec<char>, text: &str, p: usize) -> (r: Parsed<Statement>)
    requires
        p <= s.len(),
        s@ == text@,
    ensures
        advances(r, p as int),
        pview(r, |x: Statement| x@) == let_stmt(s@, p as int),
        within(r, s.len() as nat),
{
    proof {
        reveal_strlit("let");
    }
    let kw = with_ctx(tag_exec(s, p, "let"), p, Context::LetLet);
    assert(pview(kw, |u: ()| u) == ctx(tag(s@, p as int, "let"@), p as int, Context::LetLet));
    let m: Parsed<Statement> = match kw {
        Parsed::Done(_, q) => match ws_exec(s, q) {
            Parsed::Done(_, q1) => match ident_exec(s, text, q1) {
                Parsed::Done(id, q2) => {
                    let colon = with_ctx(ws_tag_exec(s, q2, ":"), q2, Context::LetColon);
                    assert(pview(colon, |u: ()| u) == ctx(ws_tag(s@, q2 as int, ":"@), q2 as int, Context::LetColon));
                    match colon {
                        Parsed::Done(_, q3) => match ws_exec(s, q3) {
                            Parsed::Done(_, q4) => match parse_type_exec(s, q4) {
                                Parsed::Done(t, q5) => {
                                    let eq = with_ctx(ws_tag_exec(s, q5, "="), q5, Context::LetEquals);
                                    assert(pview(eq, |u: ()| u) == ctx(ws_tag(s@, q5 as int, "="@), q5 as int, Context::LetEquals));
                                    match eq {
                                        Parsed::Done(_, q6) => match ws_exec(s, q6) {
                                            Parsed::Done(_, q7) => match expr_exec(s, text, q7) {
                                                Parsed::Done(e, q8) => {
                                                    let semi = with_ctx(ws_tag_exec(s, q8, ";"), q8, Context::LetSemicolon);
                                                    assert(pview(semi, |u: ()| u) == ctx(ws_tag(s@, q8 as int, ";"@), q8 as int, Context::LetSemicolon));
                                                    match semi {
                                                        Parsed::Done(_, q9) => {
                                                            let st = Statement::Let(id, t, e);
                                                            Parsed::Done(st, q9)
                                                        },
                                                        Parsed::Incomplete => Parsed::Incomplete,
                                                        Parsed::Fail(x) => Parsed::Fail(x),
                                                    }
                                                },
                                                Parsed::Incomplete => Parsed::Incomplete,
                                                Parsed::Fail(x) => Parsed::Fail(x),
                                            },
                                            Parsed::Incomplete => Parsed::Incomplete,
                                            Parsed::Fail(x) => Parsed::Fail(x),
                                        },
                                        Parsed::Incomplete => Parsed::Incomplete,
                                        Parsed::Fail(x) => Parsed::Fail(x),
                                    }
                                },
                                Parsed::Incomplete => Parsed::Incomplete,
                                Parsed::Fail(x) => Parsed::Fail(x),
                            },
                            Parsed::Incomplete => Parsed::Incomplete,
                            Parsed::Fail(x) => Parsed::Fail(x),
                        },
                        Parsed::Incomplete => Parsed::Incomplete,
                        Parsed::Fail(x) => Parsed::Fail(x),
                    }
                },
                Parsed::Incomplete => Parsed::Incomplete,
                Parsed::Fail(x) => Parsed::Fail(x),
            },
            Parsed::Incomplete => Parsed::Incomplete,
            Parsed::Fail(x) => Parsed::Fail(x),
        },
        Parsed::Incomplete => Parsed::Incomplete,
        Parsed::Fail(x) => Parsed::Fail(x),
    };
    with_ctx(m, p, Context::Let)
}

/// `set id = expr;`
///
/// See [`set_stmt`].
fn set_stmt_exec(s: &Vec<char>, text: &str, p: usize) -> (r: Parsed<Statement>)
    requires
        p <= s.len(),
        s@ == text@,
    ensures
        advances(r, p as int),
        pview(r, |x: Statement| x@) == set_stmt(s@, p as int),
        within(r, s.len() as nat),
{
    proof {
        reveal_strlit("set");
    }
    let kw = with_ctx(tag_exec(s, p, "set"), p, Context::SetSet);
    assert(pview(kw, |u: ()| u) == ctx(tag(s@, p as int, "set"@), p as int, Context::SetSet));
    let m: Parsed<Statement> = match kw {
        Parsed::Done(_, q) => match ws_exec(s, q) {
            Parsed::Done(_, q1) => match ident_exec(s, text, q1) {
                Parsed::Done(id, q2) => {
                    let eq = with_ctx(ws_tag_exec(s, q2, "="), q2, Context::SetEquals);
                    assert(pview(eq, |u: ()| u) == ctx(ws_tag(s@, q2 as int, "="@), q2 as int, Context::SetEquals));
                    match eq {
                        Parsed::Done(_, q3) => match ws_exec(s, q3) {
                            Parsed::Done(_, q4) => match expr_exec(s, text, q4) {
                                Parsed::Done(e, q5) => {
                                    let semi = with_ctx(ws_tag_exec(s, q5, ";"), q5, Context::SetSemicolon);
                                    assert(pview(semi, |u: ()| u) == ctx(ws_tag(s@, q5 as int, ";"@), q5 as int, Context::SetSemicolon));
                                    match semi {
                                        Parsed::Done(_, q6) => Parsed::Done(Statement::SetGlobal(id, e), q6),
                                        Parsed::Incomplete => Parsed::Incomplete,
                                        Parsed::Fail(x) => Parsed::Fail(x),
                                    }
                                },
                                Parsed::Incomplete => Parsed::Incomplete,
                                Parsed::Fail(x) => Parsed::Fail(x),
                            },
                            Parsed::Incomplete => Parsed::Incomplete,
                            Parsed::Fail(x) => Parsed::Fail(x),
                        },
                        Parsed::Incomplete => Parsed::Incomplete,
                        Parsed::Fail(x) => Parsed::Fail(x),
                    }
                },
                Parsed::Incomplete => Parsed::Incomplete,
                Parsed::Fail(x) => Parsed::Fail(x),
            },
            Parsed::Incomplete => Parsed::Incomplete,
            Parsed::Fail(x) => Parsed::Fail(x),
        },
        Parsed::Incomplete => Parsed::Incomplete,
        Parsed::Fail(x) => Parsed::Fail(x),
    };
    with_ctx(m, p, Context::SetOf)
}

/// `init;`
///
/// See [`init_stmt`].
fn init_stmt_exec(s: &Vec<char>, p: usize) -> (r: Parsed<Statement>)
    requires
        p <= s.len(),
    ensures
        advances(r, p as int),
        pview(r, |x: Statement| x@) == init_stmt(s@, p as int),
        within(r, s.len() as nat),
{
    proof {
        reveal_strlit("init");
    }
    let kw = with_ctx(tag_exec(s, p, "init"), p, Context::InitInit);
    assert(pview(kw, |u: ()| u) == ctx(tag(s@, p as int, "init"@), p as int, Context::InitInit));
    let m: Parsed<Statement> = match kw {
        Parsed::Done(_, q) => {
            let semi = with_ctx(ws_tag_exec(s, q, ";"), q, Context::InitSemicolon);
            assert(pview(semi, |u: ()| u) == ctx(ws_tag(s@, q as int, ";"@), q as int, Context::InitSemicolon));
            match semi {
                Parsed::Done(_, r) => Parsed::Done(Statement::Init, r),
                Parsed::Incomplete => Parsed::Incomplete,
                Parsed::Fail(x) => Parsed::Fail(x),
            }
        },
        Parsed::Incomplete => Parsed::Incomplete,
        Parsed::Fail(x) => Parsed::Fail(x),
    };
    with_ctx(m, p, Context::Init)
}

/// `check expr;`
///
/// See [`check_stmt`].
fn check_stmt_exec(s: &Vec<char>, text: &str, p: usize) -> (r: Parsed<Statement>)
    requires
        p <= s.len(),
        s@ == text@,
    ensures
        advances(r, p as int),
        pview(r, |x: Statement| x@) == check_stmt(s@, p as int),
        within(r, s.len() as nat),
{
    proof {
        reveal_strlit("check");
    }
    let kw = with_ctx(tag_exec(s, p, "check"), p, Context::CheckCheck);
    assert(pview(kw, |u: ()| u) == ctx(tag(s@, p as int, "check"@), p as int, Context::CheckCheck));
    let m: Parsed<Statement> = match kw {
        Parsed::Done(_, q) => match ws_exec(s, q) {
            Parsed::Done(_, q1) => match expr_exec(s, text, q1) {
                Parsed::Done(e, q2) => {
                    let semi = with_ctx(ws_tag_exec(s, q2, ";"), q2, Context::CheckSemicolon);
                    assert(pview(semi, |u: ()| u) == ctx(ws_tag(s@, q2 as int, ";"@), q2 as int, Context::CheckSemicolon));
                    match semi {
                        Parsed::Done(_, q3) => Parsed::Done(Statement::Check(e), q3),
                        Parsed::Incomplete => Parsed::Incomplete,
                        Parsed::Fail(x) => Parsed::Fail(x),
                    }
                },
                Parsed::Incomplete => Parsed::Incomplete,
                Parsed::Fail(x) => Parsed::Fail(x),
            },
            Parsed::Incomplete => Parsed::Incomplete,
            Parsed::Fail(x) => Parsed::Fail(x),
        },
        Parsed::Incomplete => Parsed::Incomplete,
        Parsed::Fail(x) => Parsed::Fail(x),
    };
    with_ctx(m, p, Context::Check)
}

/// A statement.
///
/// See [`statement`].
fn statement_exec(s: &Vec<char>, text: &str, p: usize) -> (r: Parsed<Statement>)
    requires
        p <= s.len(),
        s@ == text@,
    ensures
        advances(r, p as int),
        pview(r, |x: Statement| x@) == statement(s@, p as int),
        within(r, s.len() as nat),
{
    let ghost sa = let_stmt(s@, p as int);
    let ghost sb = set_stmt(s@, p as int);
    let ghost sc = init_stmt(s@, p as int);
    let ghost sd = check_stmt(s@, p as int);
    let a = let_stmt_exec(s, text, p);
    let e1 = match a {
        Parsed::Fail(e) => e,
        other => {
            return with_ctx(other, p, Context::Statement);
        },
    };
    let b = set_stmt_exec(s, text, p);
    let e2 = match b {
        Parsed::Fail(e) => {
            proof {
                lemma_alt_step(e1@, sb, alt(sc, sd));
            }
            further_err(e1, e)
        },
        other => {
            return with_ctx(other, p, Context::Statement);
        },
    };
    let c = init_stmt_exec(s, p);
    let e3 = match c {
        Parsed::Fail(e) => {
            proof {
                lemma_alt_step(e2@, sc, sd);
            }
            further_err(e2, e)
        },
        other => {
            return with_ctx(other, p, Context::Statement);
        },
    };
    let d = check_stmt_exec(s, text, p);
    let m = match d {
        Parsed::Fail(x) => Parsed::Fail(further_err(e3, x)),
        other => other,
    };
    with_ctx(m, p, Context::Statement)
}

/// The first position from `p` on that holds a line break, or the end.
fn find_break(s: &Vec<char>, p: usize) -> (q: usize)
    requires
        p <= s.len(),
    ensures
        q as int == break_pos(s@, p as int),
        p <= q <= s.len(),
{
    let mut i = p;
    while i < s.len() && s[i] != '\r' && s[i] != '\n'
        invariant
            p <= i <= s.len(),
            break_pos(s@, i as int) == break_pos(s@, p as int),
        decreases s.len() - i,
    {
        i = i + 1;
    }
    i
}

/// A comment.
///
/// See [`comment`].
fn comment_exec(s: &Vec<char>, p: usize) -> (r: Parsed<()>)
    requires
        p <= s.len(),
    ensures
        pview(r, |u: ()| u) == comment(s@, p as int),
        r matches Parsed::Done(_, q) ==> p < q <= s.len(),
{
    let hash = with_ctx(tag_exec(s, p, "#"), p, Context::Comment);
    assert(pview(hash, |u: ()| u) == ctx(tag(s@, p as int, "#"@), p as int, Context::Comment));
    match hash {
        Parsed::Done(_, q) => {
            proof {
                reveal_strlit("#");
            }
            let i = find_break(s, q);
            assert(rest_of_line(s@, q as int) == comment(s@, p as int));
            if i >= s.len() {
                Parsed::Incomplete
            } else if s[i] == '\n' {
                Parsed::Done((), i)
            } else if i + 1 >= s.len() {
                Parsed::Incomplete
            } else if s[i + 1] == '\n' {
                Parsed::Done((), i)
            } else {
                Parsed::Fail(err_at(q))
            }
        },
        Parsed::Incomplete => Parsed::Incomplete,
        Parsed::Fail(x) => Parsed::Fail(x),
    }
}

/// A line: a statement, or a comment (`None`).
///
/// See [`line`].
fn line_exec(s: &Vec<char>, text: &str, p: usize) -> (r: Parsed<Option<Statement>>)
    requires
        p <= s.len(),
        s@ == text@,
    ensures
        pview(
            r,
            |x: Option<Statement>|
                match x {
                    Some(st) => Some(st@),
                    None => None,
                },
        ) == line(s@, p as int),
        r matches Parsed::Done(_, q) ==> p < q <= s.len(),
{
    let ghost f = |x: Option<Statement>|
        match x {
            Some(st) => Some(st@),
            None => None,
        };
    let ghost sa = match statement(s@, p as int) {
        PModel::Done(st, q) => PModel::Done(Some(st), q),
        PModel::Incomplete => PModel::Incomplete,
        PModel::Fail(x) => PModel::Fail(x),
    };
    let ghost sb = match comment(s@, p as int) {
        PModel::Done(_, q) => PModel::Done(None::<StatementModel>, q),
        PModel::Incomplete => PModel::Incomplete,
        PModel::Fail(x) => PModel::Fail(x),
    };
    assert(line(s@, p as int) == alt(sa, sb));
    let a: Parsed<Option<Statement>> = match statement_exec(s, text, p) {
        Parsed::Done(st, q) => Parsed::Done(Some(st), q),
        Parsed::Incomplete => Parsed::Incomplete,
        Parsed::Fail(x) => Parsed::Fail(x),
    };
    assert(pview(a, f) == sa);
    let r = match a {
        Parsed::Fail(e1) => {
            let b: Parsed<Option<Statement>> = match comment_exec(s, p) {
                Parsed::Done(_, q) => Parsed::Done(None, q),
                Parsed::Incomplete => Parsed::Incomplete,
                Parsed::Fail(x) => Parsed::Fail(x),
            };
            assert(pview(b, f) == sb);
            match b {
                Parsed::Fail(e2) => Parsed::Fail(further_err(e1, e2)),
                other => other,
            }
        },
        other => other,
    };
    r
}

/// What reading the next statement gives.
pub enum StatementsAction {
    /// A statement.
    Statement(Statement),
    /// Maybe a statement: more input is needed to tell.
    MaybeStatement,
    /// No statement: the input has ended.
    NoStatement,
    /// No statement: the input does not parse.
    SyntaxError(ParseError),
}

/// The model of what reading the next statement gives.
pub open spec fn action_view(a: StatementsAction) -> ActionModel {
    match a {
        StatementsAction::Statement(st) => ActionModel::Statement(st@),
        StatementsAction::MaybeStatement => ActionModel::MaybeStatement,
        StatementsAction::NoStatement => ActionModel::NoStatement,
        StatementsAction::SyntaxError(e) => ActionModel::SyntaxError(e@),
    }
}

/// The characters of a text.
fn chars_of(s: &str) -> (r: Vec<char>)
    ensures
        r@ == s@,
{
    broadcast use vstd::string::group_string_axioms;

    let mut it = s.chars();
    let mut out: Vec<char> = Vec::new();
    loop
        invariant
            out@ + it.remaining() == s@,
            it.obeys_prophetic_iter_laws(),
            it.decrease() is Some,
        decreases it.decrease()->Some_0,
    {
        match it.next() {
            Some(c) => {
                out.push(c);
                assert(out@ + it.remaining() =~= s@);
            },
            None => {
                assert(out@ =~= s@);
                return out;
            },
        }
    }
}

/// The statements of a text, read one at a time.
pub struct Statements {
    text: String,
    chars: Vec<char>,
    pos: usize,
}

impl Statements {
    #[verifier::type_invariant]
    closed spec fn wf(&self) -> bool {
        self.chars@ == self.text@ && self.pos <= self.chars.len()
    }

    /// The characters of the text.
    pub closed spec fn input(&self) -> Seq<char> {
        self.chars@
    }

    /// Where the next statement is looked for.
    pub closed spec fn position(&self) -> int {
        self.pos as int
    }

    /// The statements of `s`, from its start.
    pub fn make(s: &str) -> (r: Statements)
        ensures
            r.input() == s@,
            r.position() == 0,
    {
        let chars = chars_of(s);
        Statements { text: s.to_owned(), chars, pos: 0 }
    }

    /// The next statement: whitespace and comments are skipped; at the end
    /// of the input there is none; where the input stops within a statement,
    /// more input is needed.
    ///
    /// See [`next_statement`].
    #[verifier::rlimit(40)]
    pub fn next(&mut self) -> (r: StatementsAction)
        ensures
            final(self).input() == old(self).input(),
            (action_view(r), final(self).position()) == next_statement(old(self).input(), old(self).position()),
    {
        proof {
            use_type_invariant(&*self);
        }
        let ghost start = self.pos as int;
        loop
            invariant
                self.chars@ == self.text@,
                self.pos <= self.chars.len(),
                self.chars@ == old(self).chars@,
                start == old(self).pos as int,
                next_statement(self.chars@, start) == next_statement(self.chars@, self.pos as int),
            decreases self.chars.len() - self.pos,
        {
            let q = skip_space(&self.chars, self.pos);
            if q >= self.chars.len() {
                assert(next_statement(self.chars@, self.pos as int) == (ActionModel::NoStatement, self.pos as int));
                return StatementsAction::NoStatement;
            }
            let ghost lm = line(self.chars@, q as int);
            let ghost here = self.pos as int;
            assert(next_statement(self.chars@, here) == match lm {
                PModel::Done(Some(st), r) => (ActionModel::Statement(st), r),
                PModel::Done(None, r) => if r > here {
                    next_statement(self.chars@, r)
                } else {
                    (ActionModel::NoStatement, here)
                },
                PModel::Incomplete => (ActionModel::MaybeStatement, here),
                PModel::Fail(e) => (ActionModel::SyntaxError(e), here),
            });
            let l = line_exec(&self.chars, self.text.as_str(), q);
            match l {
                Parsed::Done(Some(st), r) => {
                    assert(lm == PModel::Done(Some(st@), r as int));
                    self.pos = r;
                    return StatementsAction::Statement(st);
                },
                Parsed::Done(None, r) => {
                    assert(lm == PModel::<Option<StatementModel>>::Done(None, r as int));
                    self.pos = r;
                },
                Parsed::Incomplete => {
                    assert(lm == PModel::<Option<StatementModel>>::Incomplete);
                    return StatementsAction::MaybeStatement;
                },
                Parsed::Fail(e) => {
                    assert(lm == PModel::<Option<StatementModel>>::Fail(e@));
                    return StatementsAction::SyntaxError(e);
                },
            }
        }
    }
}

} // verus!
