//! The contexts of the parser, and the messages that name them.

use vstd::prelude::*;

verus! {

/// What the parser was parsing.
#[derive(Clone, Copy, Debug)]
pub enum Context {
    FeatureType,
    VecType, VecTypeLeft, VecTypeRight,
    SetType, SetTypeLeft, SetTypeRight,
    TupleType, TupleTypeLeft, TupleTypeRight,
    LexicalItemType,
    LexicalItemTokenType,
    LexiconType,
    UniversalGrammarType,
    LexicalArrayType,
    WorkspaceType,
    StageType,
    DerivationType,
    UsizeType,
    SOType,
    Type,

    Feature,
    Vec, VecLeft, VecRight,
    SetOf, SetLeft, SetRight,
    Tuple, TupleLeft, TupleRight,
    Usize,
    Value, Var,
    Expr,

    Id,

    Let, LetLet, LetColon, LetEquals, LetSemicolon,
    SetStmt, SetSet, SetEquals, SetSemicolon,
    Init, InitInit, InitSemicolon,
    Check, CheckCheck, CheckSemicolon,
    Statement,

    Comment,
}

/// What a context names.
pub open spec fn context_text(ctx: Context) -> Seq<char> {
    match ctx {
        Context::FeatureType => "the type keyword `Feature`, or `F`"@,
        Context::VecType => "a vector type"@,
        Context::VecTypeLeft => "a left bracket (\'[\')"@,
        Context::VecTypeRight => "a right bracket (\']\')"@,
        Context::SetType => "a set type"@,
        Context::SetTypeLeft => "a left brace (\'{\')"@,
        Context::SetTypeRight => "a right brace (\'}\')"@,
        Context::TupleType => "a tuple type"@,
        Context::TupleTypeLeft => "a less-than sign (\'<\')"@,
        Context::TupleTypeRight => "a greater-than sign (\'>\')"@,
        Context::LexicalItemType => "the type keyword `Li`"@,
        Context::LexicalItemTokenType => "the type keyword `Lit`"@,
        Context::LexiconType => "the type keyword `Lex`"@,
        Context::UniversalGrammarType => "the type keyword `UG`"@,
        Context::LexicalArrayType => "the type keyword `La`"@,
        Context::WorkspaceType => "the type keyword `Wksp`"@,
        Context::StageType => "the type keyword `Stage`"@,
        Context::DerivationType => "the type keyword `Deriv`"@,
        Context::UsizeType => "the type keyword `usize`"@,
        Context::SOType => "the type keyword `SO`"@,
        Context::Type => "type annotation"@,
        Context::Feature => "a feature"@,
        Context::Vec => "a vector"@,
        Context::VecLeft => "a left bracket (\'[\')"@,
        Context::VecRight => "a right bracket (\']\')"@,
        Context::SetOf => "a set"@,
        Context::SetLeft => "a left brace (\'{\')"@,
        Context::SetRight => "a right brace (\'}\')"@,
        Context::Tuple => "a tuple"@,
        Context::TupleLeft => "a less-than sign (\'<\')"@,
        Context::TupleRight => "a greater-than sign (\'>\')"@,
        Context::Usize => "a `usize`"@,
        Context::Value => "a value"@,
        Context::Var => "a variable"@,
        Context::Expr => "an expression"@,
        Context::Id => "an identifier"@,
        Context::Let => "a let statement"@,
        Context::LetLet => "the keyword `let`"@,
        Context::LetColon => "a colon (\':\')"@,
        Context::LetEquals => "an equals sign (\'=\')"@,
        Context::LetSemicolon => "a semicolon (\';\')"@,
        Context::SetStmt => "a set statement"@,
        Context::SetSet => "the keyword `set`"@,
        Context::SetEquals => "an equals sign (\'=\')"@,
        Context::SetSemicolon => "a semicolon (\';\')"@,
        Context::Init => "an init statement"@,
        Context::InitInit => "the keyword `init`"@,
        Context::InitSemicolon => "a semicolon (\';\')"@,
        Context::Check => "a check statement"@,
        Context::CheckCheck => "the keyword `check`"@,
        Context::CheckSemicolon => "a semicolon (\';\')"@,
        Context::Statement => "a statement"@,
        Context::Comment => "a comment"@,
    }
}

/// The message for a context: what failed to parse, or, for the contexts
/// around it, what the parser tried to parse there.
pub open spec fn message_text(is_fail: bool, ctx: Context) -> Seq<char> {
    (if is_fail {
        "Failed to parse"@
    } else {
        "Tried to parse this as"@
    }) + " "@ + context_text(ctx)
}

/// The text that a context names.
fn context_str(ctx: Context) -> (r: &'static str)
    ensures
        r@ == context_text(ctx),
{
    match ctx {
        Context::FeatureType => "the type keyword `Feature`, or `F`",
        Context::VecType => "a vector type",
        Context::VecTypeLeft => "a left bracket (\'[\')",
        Context::VecTypeRight => "a right bracket (\']\')",
        Context::SetType => "a set type",
        Context::SetTypeLeft => "a left brace (\'{\')",
        Context::SetTypeRight => "a right brace (\'}\')",
        Context::TupleType => "a tuple type",
        Context::TupleTypeLeft => "a less-than sign (\'<\')",
        Context::TupleTypeRight => "a greater-than sign (\'>\')",
        Context::LexicalItemType => "the type keyword `Li`",
        Context::LexicalItemTokenType => "the type keyword `Lit`",
        Context::LexiconType => "the type keyword `Lex`",
        Context::UniversalGrammarType => "the type keyword `UG`",
        Context::LexicalArrayType => "the type keyword `La`",
        Context::WorkspaceType => "the type keyword `Wksp`",
        Context::StageType => "the type keyword `Stage`",
        Context::DerivationType => "the type keyword `Deriv`",
        Context::UsizeType => "the type keyword `usize`",
        Context::SOType => "the type keyword `SO`",
        Context::Type => "type annotation",
        Context::Feature => "a feature",
        Context::Vec => "a vector",
        Context::VecLeft => "a left bracket (\'[\')",
        Context::VecRight => "a right bracket (\']\')",
        Context::SetOf => "a set",
        Context::SetLeft => "a left brace (\'{\')",
        Context::SetRight => "a right brace (\'}\')",
        Context::Tuple => "a tuple",
        Context::TupleLeft => "a less-than sign (\'<\')",
        Context::TupleRight => "a greater-than sign (\'>\')",
        Context::Usize => "a `usize`",
        Context::Value => "a value",
        Context::Var => "a variable",
        Context::Expr => "an expression",
        Context::Id => "an identifier",
        Context::Let => "a let statement",
        Context::LetLet => "the keyword `let`",
        Context::LetColon => "a colon (\':\')",
        Context::LetEquals => "an equals sign (\'=\')",
        Context::LetSemicolon => "a semicolon (\';\')",
        Context::SetStmt => "a set statement",
        Context::SetSet => "the keyword `set`",
        Context::SetEquals => "an equals sign (\'=\')",
        Context::SetSemicolon => "a semicolon (\';\')",
        Context::Init => "an init statement",
        Context::InitInit => "the keyword `init`",
        Context::InitSemicolon => "a semicolon (\';\')",
        Context::Check => "a check statement",
        Context::CheckCheck => "the keyword `check`",
        Context::CheckSemicolon => "a semicolon (\';\')",
        Context::Statement => "a statement",
        Context::Comment => "a comment",
    }
}

/// The message for a context.
///
/// See [`message_text`].
pub fn make_message(is_fail: bool, ctx: Context) -> (r: String)
    ensures
        r@ == message_text(is_fail, ctx),
{
    let mut r = String::from_str(if is_fail {
        "Failed to parse"
    } else {
        "Tried to parse this as"
    });
    r.append(" ");
    r.append(context_str(ctx));
    r
}

} // verus!
