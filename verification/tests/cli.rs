use cands::cli::conv::{to_derivation, to_feature, to_lexical_item, to_lexical_item_token, to_lexicon, to_so, to_stage, to_ug, to_usize};
use cands::cli::engine::{Engine, EngineError, Report};
use cands::cli::errors::{make_message, Context};
use cands::cli::eval::eval;
use cands::cli::parsers::{Expr, Statement, Statements, StatementsAction, Value as RawValue};
use cands::cli::tyck::tyck;
use cands::cli::{derivation_type, lexical_item_token_type, lexical_item_type, Env, Type, Value};
use cands::deriv::so::SyntacticObject;
use cands::feature::Feature;
use cands::labels::BasicTriggers;

/// Run every statement of the text; the outcomes in order, and the last
/// action that ended the run.
fn run(engine: &mut Engine, text: &str) -> (Vec<Result<Report, EngineError>>, StatementsAction) {
    let mut stmts = Statements::make(text);
    let mut out = vec![];
    loop {
        match stmts.next() {
            StatementsAction::Statement(st) => out.push(engine.process(st)),
            other => return (out, other),
        }
    }
}

fn one(engine: &mut Engine, text: &str) -> Result<Report, EngineError> {
    let (mut out, end) = run(engine, text);
    assert!(matches!(end, StatementsAction::NoStatement));
    assert_eq!(out.len(), 1);
    out.remove(0)
}

fn parse_one(text: &str) -> Statement {
    let mut stmts = Statements::make(text);
    match stmts.next() {
        StatementsAction::Statement(st) => st,
        _ => panic!("no statement"),
    }
}

#[test]
fn let_binds_a_feature() {
    let mut e = Engine::new();
    match one(&mut e, "let acc: Feature = \"acc\";") {
        Ok(Report::Bound { id, value: Value::Feature(f), replaced: None }) => {
            assert_eq!(id, "acc");
            assert_eq!(f.0, "acc");
        }
        _ => panic!("not bound"),
    }
}

#[test]
fn let_rejects_a_number_as_feature() {
    let mut e = Engine::new();
    match one(&mut e, "let acc: Feature = 123;") {
        Err(EngineError::LetType(t)) => assert_eq!(t.to_string(), "F"),
        _ => panic!("no type error"),
    }
}

#[test]
fn f_abbreviates_feature() {
    let mut e = Engine::new();
    assert!(matches!(one(&mut e, "let acc: F = \"acc\";"), Ok(Report::Bound { .. })));
}

#[test]
fn rebinding_reports_the_old_value() {
    let mut e = Engine::new();
    let (out, _) = run(&mut e, "let x: F = \"nom\";\nlet x: F = \"acc\";");
    assert_eq!(out.len(), 2);
    match &out[1] {
        Ok(Report::Bound { replaced: Some(Value::Feature(f)), .. }) => assert_eq!(f.0, "nom"),
        _ => panic!("no replaced value"),
    }
}

#[test]
fn comments_are_skipped() {
    let mut e = Engine::new();
    let (out, end) = run(&mut e, "# This is a comment\nlet x: F = \"nom\"; # This is also a comment\n");
    assert_eq!(out.len(), 1);
    assert!(matches!(end, StatementsAction::NoStatement));
}

#[test]
fn numbers() {
    let mut e = Engine::new();
    assert!(matches!(one(&mut e, "let x: usize = 12;"), Ok(Report::Bound { value: Value::Usize(12), .. })));
    let (out, end) = run(&mut e, "let x: usize = -12;");
    assert!(out.is_empty());
    match end {
        StatementsAction::SyntaxError(err) => {
            assert!(!err.contexts.is_empty());
            assert!(matches!(err.contexts.last().unwrap().1, Context::Statement));
        }
        _ => panic!("no syntax error"),
    }
    let (out, end) = run(&mut e, "let x: usize = 99999999999999999999999;");
    assert!(out.is_empty());
    assert!(matches!(end, StatementsAction::SyntaxError(_)));
}

#[test]
fn vectors_and_sets() {
    let mut e = Engine::new();
    assert!(one(&mut e, "let fvec: [F] = [ \"nom\", \"acc\", \"gen\", \"dat\" ];").is_ok());
    assert!(one(&mut e, "let fset: {F} = { \"sg\", \"du\", \"pl\", \"paucal\" };").is_ok());
    match one(&mut e, "let fvec: [F] = [ \"nom\", 123 ];") {
        Err(EngineError::LetType(t)) => assert_eq!(t.to_string(), "[F]"),
        _ => panic!("no type error"),
    }
    assert!(one(&mut e, "let fvec: [F] = [];").is_ok());
    assert!(one(&mut e, "let fset: {F} = {};").is_ok());
    assert!(matches!(one(&mut e, "let fset: [F] = { \"sg\" };"), Err(EngineError::LetType(_))));
}

#[test]
fn tuples() {
    let mut e = Engine::new();
    assert!(one(&mut e, "let pair: <F, F> = < \"nom\", \"acc\" >;").is_ok());
    assert!(one(&mut e, "let feature_and_integer: <F, usize> = < \"me\", 12 >;").is_ok());
    match one(&mut e, "let feature_and_integer: <F, usize> = < 12, \"me\" >;") {
        Err(EngineError::LetType(t)) => assert_eq!(t.to_string(), "<F, usize>"),
        _ => panic!("no type error"),
    }
}

#[test]
fn syntactic_objects() {
    let mut e = Engine::new();
    assert!(one(&mut e, "let mary: SO = < < {}, { \"D\" }, [ \"Mary\" ] >, 1 >;").is_ok());
    assert!(one(&mut e, "let VP: SO = { < < {}, { \"V\", \"=D\" }, [ \"V\" ] >, 1 >, mary };").is_ok());
    assert!(one(&mut e, "let T: SO = < VP, [ \"Mary\" ], {} >;").is_ok());
    assert!(matches!(one(&mut e, "let bad: SO = 12;"), Err(EngineError::LetType(_))));
    assert!(matches!(one(&mut e, "let bad: SO = unknown;"), Err(EngineError::LetType(_))));
}

#[test]
fn checking_a_derivation() {
    let mut e = Engine::new();
    let script = "
        let me: Li = < { \"me'\" }, { \"D\" }, [ \"me\" ] >;
        let HELP: Li = < { \"help'\" }, { \"V\", \"=D\" }, [ \"HELP\" ] >;
        set lex = { me, HELP };
        set ug = < { \"HELP\", \"me\" }, { \"D\", \"V\", \"=D\" }, { \"help'\", \"me'\" } >;
        init;
        let me1: Lit = < me, 1 >;
        let HELP1: Lit = < HELP, 1 >;
        let la1: La = { me1, HELP1 };
        let w1: Wksp = {};
        let s1: Stage = < la1, w1 >;
        let d1: Deriv = [ s1 ];
        check d1;
    ";
    let (out, end) = run(&mut e, script);
    assert!(matches!(end, StatementsAction::NoStatement));
    assert_eq!(out.len(), 12);
    assert!(out[..11].iter().all(|r| r.is_ok()));
    assert!(matches!(out[11], Ok(Report::Checked(Some(true)))));
}

#[test]
fn merge_step_through_the_language() {
    let mut e = Engine::new();
    let script = "
        let me: Li = < {}, { \"D\" }, [ \"me\" ] >;
        let HELP: Li = < {}, { \"V\", \"=D\" }, [ \"HELP\" ] >;
        set lex = { me, HELP };
        set ug = < {}, {}, {} >;
        init;
        let me1: Lit = < me, 1 >;
        let HELP1: Lit = < HELP, 1 >;
        check [ < { me1, HELP1 }, {} >, < { HELP1 }, { me1 } >, < {}, { HELP1, me1 } >, < {}, { { HELP1, me1 } } > ];
        check [ < { me1, HELP1 }, {} >, < { HELP1 }, { me1 } >, < {}, { HELP1, me1 } >, < {}, { { me1, HELP1 } } > ];
    ";
    let (out, _) = run(&mut e, script);
    assert_eq!(out.len(), 9);
    assert!(matches!(out[7], Ok(Report::Checked(Some(true)))));
    assert!(matches!(out[8], Ok(Report::Checked(Some(true)))));
}

#[test]
fn engine_errors() {
    let mut e = Engine::new();
    assert!(matches!(one(&mut e, "init;"), Err(EngineError::InitNotReady)));
    assert!(matches!(one(&mut e, "check [];"), Err(EngineError::CheckNotInitialized)));
    match one(&mut e, "set foo = {};") {
        Err(EngineError::SetUnknown(id)) => assert_eq!(id, "foo"),
        _ => panic!("no error"),
    }
    assert!(matches!(one(&mut e, "set lex = 12;"), Err(EngineError::SetType)));
    assert!(matches!(one(&mut e, "set lex = x;"), Err(EngineError::SetType)));
    assert!(matches!(one(&mut e, "set ug = < {}, {} >;"), Err(EngineError::SetType)));
    assert!(matches!(one(&mut e, "let x: usize = y;"), Err(EngineError::LetType(_))));
    assert!(one(&mut e, "set lex = {};").is_ok());
    assert!(one(&mut e, "set ug = < {}, {}, {} >;").is_ok());
    assert!(matches!(one(&mut e, "init;"), Ok(Report::Initialized)));
    assert!(matches!(one(&mut e, "init;"), Err(EngineError::InitNotReady)));
    assert!(matches!(one(&mut e, "check 12;"), Err(EngineError::CheckType)));
    assert!(matches!(one(&mut e, "check [];"), Ok(Report::Checked(Some(false)))));
}

#[test]
fn incomplete_input_asks_for_more() {
    let mut e = Engine::new();
    for text in ["l", "let", "let x: F", "let x: F = \"a\"", "check [ <", "# a comment"] {
        let (out, end) = run(&mut e, text);
        assert!(out.is_empty());
        assert!(matches!(end, StatementsAction::MaybeStatement), "{}", text);
    }
    let (out, end) = run(&mut e, "   ");
    assert!(out.is_empty());
    assert!(matches!(end, StatementsAction::NoStatement));
}

#[test]
fn syntax_errors_name_their_contexts() {
    let mut e = Engine::new();
    let (_, end) = run(&mut e, "let x F = \"a\";");
    match end {
        StatementsAction::SyntaxError(err) => {
            assert_eq!(err.at, 6);
            let innermost = err.contexts[0].1;
            assert!(matches!(innermost, Context::LetColon));
        }
        _ => panic!("no syntax error"),
    }
}

#[test]
fn parsed_statements() {
    match parse_one("let x: <F, [usize], {SO}> = y;") {
        Statement::Let(id, ty, Expr::Var(v)) => {
            assert_eq!(id, "x");
            assert_eq!(ty.to_string(), "<F, [usize], {SO}>");
            assert_eq!(v, "y");
        }
        _ => panic!("wrong statement"),
    }
    match parse_one("set lex={me,HELP};") {
        Statement::SetGlobal(id, Expr::Value(RawValue::SetOf(es))) => {
            assert_eq!(id, "lex");
            assert_eq!(es.len(), 2);
        }
        _ => panic!("wrong statement"),
    }
    assert!(matches!(parse_one("init ;"), Statement::Init));
    assert!(matches!(parse_one("check d1;"), Statement::Check(Expr::Var(_))));
}

#[test]
fn type_texts() {
    assert_eq!(lexical_item_type().to_string(), "<{F}, {F}, [F]>");
    assert_eq!(lexical_item_token_type().to_string(), "<<{F}, {F}, [F]>, usize>");
    assert_eq!(derivation_type().to_string(), "[<{<<{F}, {F}, [F]>, usize>}, {SO}>]");
    assert!(lexical_item_type().same_as(&lexical_item_type()));
    assert!(!lexical_item_type().same_as(&Type::SO));
}

#[test]
fn messages() {
    assert_eq!(make_message(true, Context::LetColon), "Failed to parse a colon (':')");
    assert_eq!(make_message(false, Context::Statement), "Tried to parse this as a statement");
    assert_eq!(make_message(true, Context::FeatureType), "Failed to parse the type keyword `Feature`, or `F`");
}

fn f(s: &str) -> Value {
    Value::Feature(Feature::new(s.to_string()))
}

fn li_value(syn: &[&str], phon: &[&str]) -> Value {
    Value::Tuple(vec![
        Value::SetOf(vec![]),
        Value::SetOf(syn.iter().map(|s| f(s)).collect()),
        Value::Vec(phon.iter().map(|s| f(s)).collect()),
    ])
}

#[test]
fn conversions() {
    assert_eq!(to_feature(f("a")).ok().unwrap().0, "a");
    assert!(to_feature(Value::Usize(1)).is_err());
    assert_eq!(to_usize(Value::Usize(7)).ok().unwrap(), 7);
    assert!(to_usize(f("a")).is_err());
    let li = to_lexical_item(li_value(&["D", "D"], &["me", "me"])).ok().unwrap();
    assert_eq!(li.syn.len(), 1);
    assert_eq!(li.phon.len(), 1);
    assert!(li.shorthand.is_none());
    assert!(to_lexical_item(Value::Tuple(vec![])).is_err());
    let lit = to_lexical_item_token(Value::Tuple(vec![li_value(&["D"], &["me"]), Value::Usize(3)])).ok().unwrap();
    assert_eq!(lit.k, 3);
    assert!(to_lexical_item_token(Value::Tuple(vec![li_value(&["D"], &["me"]), f("x")])).is_err());
    let lex = to_lexicon(Value::SetOf(vec![li_value(&["D"], &["me"]), li_value(&["D"], &["me"])])).ok().unwrap();
    assert_eq!(lex.len(), 1);
    let ug = to_ug::<BasicTriggers>(Value::Tuple(vec![Value::SetOf(vec![f("a")]), Value::SetOf(vec![]), Value::SetOf(vec![])])).ok().unwrap();
    assert_eq!(ug.phon_f.len(), 1);
    let tok = Value::Tuple(vec![li_value(&["D"], &["me"]), Value::Usize(1)]);
    let tok2 = Value::Tuple(vec![li_value(&["V"], &["see"]), Value::Usize(1)]);
    match to_so(Value::SetOf(vec![tok2.dup(), tok.dup(), tok2.dup()])).ok().unwrap() {
        SyntacticObject::SoSet(v) => assert_eq!(v.len(), 2),
        _ => panic!("not a set"),
    }
    match to_so(Value::Tuple(vec![tok.dup(), Value::Vec(vec![f("me")]), Value::SetOf(vec![])])).ok().unwrap() {
        SyntacticObject::Transfer { pf, .. } => assert_eq!(pf.len(), 1),
        _ => panic!("not transferred"),
    }
    assert!(to_so(Value::Usize(1)).is_err());
    let st = to_stage(Value::Tuple(vec![Value::SetOf(vec![tok.dup()]), Value::SetOf(vec![])])).ok().unwrap();
    assert_eq!(st.la.0.len(), 1);
    assert!(to_derivation(Value::Vec(vec![Value::Tuple(vec![Value::SetOf(vec![]), Value::SetOf(vec![])])])).ok().unwrap().len() == 1);
    assert!(to_derivation(Value::SetOf(vec![])).is_err());
}

#[test]
fn typing_and_evaluation() {
    let env = Env::new();
    let e = Expr::Value(RawValue::Vec(vec![Expr::Value(RawValue::Feature(format!("a")))]));
    assert!(tyck(&Type::Vec(Box::new(Type::Feature)), &e, &env).is_ok());
    assert!(tyck(&Type::SetOf(Box::new(Type::Feature)), &e, &env).is_err());
    match eval(e, &env).ok().unwrap() {
        Value::Vec(vs) => assert_eq!(vs.len(), 1),
        _ => panic!("not a vector"),
    }
    assert!(eval(Expr::Var(format!("nothing")), &env).is_err());
}

#[test]
fn lex_and_ug_can_be_set_in_either_order() {
    let defs = "
        let me: Li = < { \"me'\" }, { \"D\" }, [ \"me\" ] >;
        let HELP: Li = < { \"help'\" }, { \"V\", \"=D\" }, [ \"HELP\" ] >;
    ";
    let lex = "set lex = { me, HELP };";
    let ug = "set ug = < { \"HELP\", \"me\" }, { \"D\", \"V\", \"=D\" }, { \"help'\", \"me'\" } >;";
    let rest = "
        init;
        let me1: Lit = < me, 1 >;
        let HELP1: Lit = < HELP, 1 >;
        check [ < { me1, HELP1 }, {} >, < { HELP1 }, { me1 } > ];
    ";
    let mut a = Engine::new();
    let (out_a, _) = run(&mut a, &format!("{}{}{}{}", defs, lex, ug, rest));
    let mut b = Engine::new();
    let (out_b, _) = run(&mut b, &format!("{}{}{}{}", defs, ug, lex, rest));
    assert_eq!(out_a.len(), out_b.len());
    assert!(matches!(out_a[2], Ok(Report::LexiconSet)));
    assert!(matches!(out_a[3], Ok(Report::UgSet)));
    assert!(matches!(out_b[2], Ok(Report::UgSet)));
    assert!(matches!(out_b[3], Ok(Report::LexiconSet)));
    assert!(matches!(out_a[4], Ok(Report::Initialized)));
    assert!(matches!(out_b[4], Ok(Report::Initialized)));
    assert!(matches!(out_a[7], Ok(Report::Checked(Some(true)))));
    assert!(matches!(out_b[7], Ok(Report::Checked(Some(true)))));
}
