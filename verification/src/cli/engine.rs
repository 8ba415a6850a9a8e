//! The engine that runs statements: it keeps the bindings, the lexicon, UG
//! and the I-language, and says what each statement did.

use vstd::prelude::*;

use crate::cli::conv::{
    to_derivation, to_derivation_model, to_lexicon, to_lexicon_model, to_ug, to_ug_model,
};
use crate::cli::eval::{eval, eval_model};
use crate::cli::parsers::{Expr, ExprModel, Statement, StatementModel};
use crate::cli::tyck::{tyck, tyck_model};
use crate::cli::{
    derivation_type, derivation_type_model, lexicon_type, lexicon_type_model, universal_grammar_type,
    universal_grammar_type_model, Env, Type, TypeModel, Value, ValueModel,
};
use crate::deriv::li::LiModel;
use crate::deriv::{
    derivation_model, derivation_transfers_defined, try_is_derivation, ILanguage, Lexicon,
    UniversalGrammar,
};
use crate::labels::BasicTriggers;

verus! {

/// Why a statement failed.
pub enum EngineError {
    /// `let`: the expression does not have the type.
    LetType(Type),
    /// `let`: a variable of the expression is unbound.
    LetEval,
    /// `set`: only `lex` and `ug` can be set.
    SetUnknown(String),
    /// `set`: the expression does not have the type of the global.
    SetType,
    /// `set`: a variable of the expression is unbound.
    SetEval,
    /// `set`: the value does not make a lexicon or UG.
    SetConversion,
    /// `init`: the lexicon or UG has not been set.
    InitNotReady,
    /// `check`: the I-language has not been initialized.
    CheckNotInitialized,
    /// `check`: the expression is not a derivation.
    CheckType,
    /// `check`: a variable of the expression is unbound.
    CheckEval,
    /// `check`: the value does not make a derivation.
    CheckConversion,
}

/// What a statement did.
pub enum Report {
    /// `let` bound the name to the value; `replaced` is the value it was
    /// bound to before, if any.
    Bound { id: String, value: Value, replaced: Option<Value> },
    /// `set lex` set the lexicon.
    LexiconSet,
    /// `set ug` set Universal Grammar.
    UgSet,
    /// `init` formed the I-language.
    Initialized,
    /// `check` checked a derivation: whether it is one, or `None` where a
    /// Transfer that the check makes is undefined.
    Checked(Option<bool>),
}

/// The models of Universal Grammar's feature sets: phonological, syntactic
/// and semantic.
pub type UgModel = (Set<Seq<char>>, Set<Seq<char>>, Set<Seq<char>>);

/// The state of the command language.
pub struct Engine {
    map: Env,
    lex: Option<Lexicon>,
    ug: Option<UniversalGrammar<BasicTriggers>>,
    il: Option<ILanguage<BasicTriggers>>,
}

/// The models of a UG.
pub open spec fn ug_view(ug: UniversalGrammar<BasicTriggers>) -> UgModel {
    (ug.phon_f@, ug.syn_f@, ug.sem_f@)
}

/// What `set lex = expr;` does: it fails on an expression that is not a
/// lexicon `{Li}`, has an unbound variable, or whose value makes no lexicon,
/// and leaves the lexicon; else it sets the lexicon to the value's.
pub open spec fn set_lex_post(
    env: Map<Seq<char>, (TypeModel, ValueModel)>,
    before: Option<Set<LiModel>>,
    after: Option<Set<LiModel>>,
    e: ExprModel,
    r: Result<Report, EngineError>,
) -> bool {
    if !tyck_model(lexicon_type_model(), e, env) {
        r matches Err(EngineError::SetType) && after == before
    } else if eval_model(e, env) is None {
        r matches Err(EngineError::SetEval) && after == before
    } else if to_lexicon_model(eval_model(e, env)->Some_0) is None {
        r matches Err(EngineError::SetConversion) && after == before
    } else {
        r matches Ok(Report::LexiconSet) && after == to_lexicon_model(eval_model(e, env)->Some_0)
    }
}

/// What `set ug = expr;` does: as `set lex`, for UG `<{F}, {F}, {F}>`.
pub open spec fn set_ug_post(
    env: Map<Seq<char>, (TypeModel, ValueModel)>,
    before: Option<UgModel>,
    after: Option<UgModel>,
    e: ExprModel,
    r: Result<Report, EngineError>,
) -> bool {
    if !tyck_model(universal_grammar_type_model(), e, env) {
        r matches Err(EngineError::SetType) && after == before
    } else if eval_model(e, env) is None {
        r matches Err(EngineError::SetEval) && after == before
    } else if to_ug_model(eval_model(e, env)->Some_0) is None {
        r matches Err(EngineError::SetConversion) && after == before
    } else {
        r matches Ok(Report::UgSet) && after == to_ug_model(eval_model(e, env)->Some_0)
    }
}

/// What `let id: t = e;` does: it fails on an expression that does not have
/// the type, or has an unbound variable, and leaves the bindings; else it
/// binds the name to the typed value, and reports the value it replaced.
pub open spec fn bind_post(
    before: Map<Seq<char>, (TypeModel, ValueModel)>,
    after: Map<Seq<char>, (TypeModel, ValueModel)>,
    id: Seq<char>,
    t: TypeModel,
    e: ExprModel,
    r: Result<Report, EngineError>,
) -> bool {
    if !tyck_model(t, e, before) {
        r matches Err(EngineError::LetType(u)) && u@ == t && after == before
    } else if eval_model(e, before) is None {
        r matches Err(EngineError::LetEval) && after == before
    } else {
        r matches Ok(Report::Bound { id: i, value: v, replaced: w }) && i@ == id && Some(v@) == eval_model(
            e,
            before,
        ) && after == before.insert(id, (t, v@)) && match w {
            None => !before.contains_key(id),
            Some(w) => before.contains_key(id) && before[id].1 == w@,
        }
    }
}

/// What `init;` does: it fails where the lexicon or UG is not set, and
/// changes nothing; else it forms the I-language of the two and clears
/// them.
pub open spec fn init_post(
    lex: Option<Set<LiModel>>,
    ug: Option<UgModel>,
    il: Option<(Set<LiModel>, UgModel)>,
    lex2: Option<Set<LiModel>>,
    ug2: Option<UgModel>,
    il2: Option<(Set<LiModel>, UgModel)>,
    r: Result<Report, EngineError>,
) -> bool {
    if lex is None || ug is None {
        r matches Err(EngineError::InitNotReady) && lex2 == lex && ug2 == ug && il2 == il
    } else {
        r matches Ok(Report::Initialized) && il2 == Some((lex->Some_0, ug->Some_0)) && lex2 is None
            && ug2 is None
    }
}

/// What `check e;` does: it fails where there is no I-language, or the
/// expression is not a derivation `[Stage]`, has an unbound variable, or its
/// value makes no derivation; else it reports whether the stages are a
/// derivation from the lexicon (`None` where a Transfer that the check makes
/// is undefined).
pub open spec fn check_post(
    il: Option<(Set<LiModel>, UgModel)>,
    env: Map<Seq<char>, (TypeModel, ValueModel)>,
    e: ExprModel,
    r: Result<Report, EngineError>,
) -> bool {
    if il is None {
        r matches Err(EngineError::CheckNotInitialized)
    } else if !tyck_model(derivation_type_model(), e, env) {
        r matches Err(EngineError::CheckType)
    } else if eval_model(e, env) is None {
        r matches Err(EngineError::CheckEval)
    } else if to_derivation_model(eval_model(e, env)->Some_0) is None {
        r matches Err(EngineError::CheckConversion)
    } else {
        let lex = il->Some_0.0;
        let d = to_derivation_model(eval_model(e, env)->Some_0)->Some_0;
        r matches Ok(Report::Checked(c)) && c == if derivation_transfers_defined::<BasicTriggers>(lex, d) {
            Some(derivation_model::<BasicTriggers>(lex, d))
        } else {
            None
        }
    }
}

impl Engine {
    /// The bindings.
    pub closed spec fn env(&self) -> Map<Seq<char>, (TypeModel, ValueModel)> {
        self.map@
    }

    /// The lexicon that was set and not yet used by `init`.
    pub closed spec fn lex(&self) -> Option<Set<LiModel>> {
        match self.lex {
            Some(l) => Some(l@),
            None => None,
        }
    }

    /// The UG that was set and not yet used by `init`.
    pub closed spec fn ug(&self) -> Option<UgModel> {
        match self.ug {
            Some(u) => Some(ug_view(u)),
            None => None,
        }
    }

    /// The lexicon and UG of the I-language, once initialized.
    pub closed spec fn il(&self) -> Option<(Set<LiModel>, UgModel)> {
        match self.il {
            Some(il) => Some((il.lex@, ug_view(il.ug))),
            None => None,
        }
    }

    /// A new engine: no bindings, no lexicon, no UG, no I-language.
    pub fn new() -> (r: Engine)
        ensures
            r.env() == Map::<Seq<char>, (TypeModel, ValueModel)>::empty(),
            r.lex() is None,
            r.ug() is None,
            r.il() is None,
    {
        Engine { map: Env::new(), lex: None, ug: None, il: None }
    }

    /// `let id: ty = expr;`: bind the name to the value of the expression,
    /// where it has the type.
    pub fn bind(&mut self, id: String, ty: Type, expr: Expr) -> (r: Result<Report, EngineError>)
        ensures
            final(self).lex() == old(self).lex(),
            final(self).ug() == old(self).ug(),
            final(self).il() == old(self).il(),
            bind_post(old(self).env(), final(self).env(), id@, ty@, expr@, r),
    {
        if tyck(&ty, &expr, &self.map).is_err() {
            return Err(EngineError::LetType(ty));
        }
        let val = match eval(expr, &self.map) {
            Ok(val) => val,
            Err(_) => {
                return Err(EngineError::LetEval);
            },
        };
        let shown = val.dup();
        let shown_id = id.clone();
        let replaced = self.map.insert(id, ty, val);
        Ok(Report::Bound { id: shown_id, value: shown, replaced })
    }

    /// `set lex = expr;`.
    fn set_lex(&mut self, expr: Expr) -> (r: Result<Report, EngineError>)
        ensures
            final(self).env() == old(self).env(),
            final(self).il() == old(self).il(),
            final(self).ug() == old(self).ug(),
            set_lex_post(old(self).env(), old(self).lex(), final(self).lex(), expr@, r),
    {
        if tyck(&lexicon_type(), &expr, &self.map).is_err() {
            return Err(EngineError::SetType);
        }
        let val = match eval(expr, &self.map) {
            Ok(val) => val,
            Err(_) => {
                return Err(EngineError::SetEval);
            },
        };
        let lexicon = match to_lexicon(val) {
            Ok(lexicon) => lexicon,
            Err(_) => {
                return Err(EngineError::SetConversion);
            },
        };
        self.lex = Some(lexicon);
        Ok(Report::LexiconSet)
    }

    /// `set ug = expr;`.
    fn set_ug(&mut self, expr: Expr) -> (r: Result<Report, EngineError>)
        ensures
            final(self).env() == old(self).env(),
            final(self).il() == old(self).il(),
            final(self).lex() == old(self).lex(),
            set_ug_post(old(self).env(), old(self).ug(), final(self).ug(), expr@, r),
    {
        if tyck(&universal_grammar_type(), &expr, &self.map).is_err() {
            return Err(EngineError::SetType);
        }
        let val = match eval(expr, &self.map) {
            Ok(val) => val,
            Err(_) => {
                return Err(EngineError::SetEval);
            },
        };
        let ug = match to_ug::<BasicTriggers>(val) {
            Ok(ug) => ug,
            Err(_) => {
                return Err(EngineError::SetConversion);
            },
        };
        self.ug = Some(ug);
        Ok(Report::UgSet)
    }

    /// `set id = expr;`: set the lexicon (`lex`) or Universal Grammar
    /// (`ug`) to the value of the expression.
    pub fn set(&mut self, id: String, expr: Expr) -> (r: Result<Report, EngineError>)
        ensures
            final(self).env() == old(self).env(),
            final(self).il() == old(self).il(),
            id@ != "lex"@ && id@ != "ug"@ ==> (r matches Err(EngineError::SetUnknown(i)) && i@ == id@
                && final(self).lex() == old(self).lex() && final(self).ug() == old(self).ug()),
            id@ == "lex"@ ==> final(self).ug() == old(self).ug() && set_lex_post(
                old(self).env(),
                old(self).lex(),
                final(self).lex(),
                expr@,
                r,
            ),
            id@ == "ug"@ ==> final(self).lex() == old(self).lex() && set_ug_post(
                old(self).env(),
                old(self).ug(),
                final(self).ug(),
                expr@,
                r,
            ),
    {
        proof {
            reveal_strlit("lex");
            reveal_strlit("ug");
            assert("lex"@.len() == 3);
            assert("ug"@.len() == 2);
            assert("lex"@ != "ug"@);
        }
        let lex_name = String::from_str("lex");
        let ug_name = String::from_str("ug");
        if id == lex_name {
            self.set_lex(expr)
        } else if id == ug_name {
            self.set_ug(expr)
        } else {
            Err(EngineError::SetUnknown(id))
        }
    }

    /// `init;`: form the I-language from the lexicon and UG that were set.
    pub fn init(&mut self) -> (r: Result<Report, EngineError>)
        ensures
            final(self).env() == old(self).env(),
            init_post(
                old(self).lex(),
                old(self).ug(),
                old(self).il(),
                final(self).lex(),
                final(self).ug(),
                final(self).il(),
                r,
            ),
    {
        if self.lex.is_none() || self.ug.is_none() {
            return Err(EngineError::InitNotReady);
        }
        let lex = self.lex.take();
        let ug = self.ug.take();
        match (lex, ug) {
            (Some(lex), Some(ug)) => {
                self.il = Some(ILanguage { lex, ug, realize_map: Vec::new() });
                Ok(Report::Initialized)
            },
            _ => Err(EngineError::InitNotReady),
        }
    }

    /// `check expr;`: check whether the value of the expression is a
    /// derivation from the I-language.
    pub fn check(&self, expr: Expr) -> (r: Result<Report, EngineError>)
        ensures
            check_post(self.il(), self.env(), expr@, r),
    {
        let il = match &self.il {
            Some(il) => il,
            None => {
                return Err(EngineError::CheckNotInitialized);
            },
        };
        if tyck(&derivation_type(), &expr, &self.map).is_err() {
            return Err(EngineError::CheckType);
        }
        let val = match eval(expr, &self.map) {
            Ok(val) => val,
            Err(_) => {
                return Err(EngineError::CheckEval);
            },
        };
        let derivation = match to_derivation(val) {
            Ok(d) => d,
            Err(_) => {
                return Err(EngineError::CheckConversion);
            },
        };
        Ok(Report::Checked(try_is_derivation::<BasicTriggers>(il, &derivation)))
    }

    /// Run a statement.
    pub fn process(&mut self, stmt: Statement) -> (r: Result<Report, EngineError>)
        ensures
            match stmt@ {
                StatementModel::Let(id, t, e) => bind_post(old(self).env(), final(self).env(), id, t, e, r)
                    && final(self).lex() == old(self).lex() && final(self).ug() == old(self).ug()
                    && final(self).il() == old(self).il(),
                StatementModel::SetGlobal(id, e) => final(self).env() == old(self).env() && final(self).il() == old(self).il() && (id != "lex"@ && id != "ug"@ ==> (r matches Err(
                    EngineError::SetUnknown(i),
                ) && i@ == id && final(self).lex() == old(self).lex() && final(self).ug() == old(self).ug())) && (id == "lex"@ ==> final(self).ug() == old(self).ug() && set_lex_post(
                    old(self).env(),
                    old(self).lex(),
                    final(self).lex(),
                    e,
                    r,
                )) && (id == "ug"@ ==> final(self).lex() == old(self).lex() && set_ug_post(
                    old(self).env(),
                    old(self).ug(),
                    final(self).ug(),
                    e,
                    r,
                )),
                StatementModel::Init => final(self).env() == old(self).env() && init_post(
                    old(self).lex(),
                    old(self).ug(),
                    old(self).il(),
                    final(self).lex(),
                    final(self).ug(),
                    final(self).il(),
                    r,
                ),
                StatementModel::Check(e) => check_post(old(self).il(), old(self).env(), e, r)
                    && final(self).env() == old(self).env() && final(self).lex() == old(self).lex()
                    && final(self).ug() == old(self).ug() && final(self).il() == old(self).il(),
            },
    {
        match stmt {
            Statement::Let(id, ty, expr) => self.bind(id, ty, expr),
            Statement::SetGlobal(id, expr) => self.set(id, expr),
            Statement::Init => self.init(),
            Statement::Check(expr) => self.check(expr),
        }
    }
}

} // verus!
