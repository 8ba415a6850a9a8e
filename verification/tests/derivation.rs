use cands::conv::{converges, converges_ci, converges_sm};
use cands::deriv::li::LexicalItem;
use cands::deriv::lit::LexicalItemToken;
use cands::deriv::so::{so_dup, so_eq, so_equiv_exec, SyntacticObject};
use cands::deriv::{is_derivation, try_is_derivation, ILanguage, LexicalArray, Stage, UniversalGrammar, Workspace};
use cands::feature::{Feature, FeatureSet};
use cands::labels::{label_of, BasicTriggers, Triggers};
use cands::ops::{
    cyclic_transfer, is_strong_phase, select, token_based_merge, transfer, triggered_merge, triggered_merge_with_f,
    MergeError, SelectError,
};
use cands::utils::{Elem, FiniteSet};

fn f(s: &str) -> Feature {
    Feature::new(s.to_string())
}

fn fset(items: &[&str]) -> FeatureSet {
    let mut s = FeatureSet::new();
    for i in items {
        s.insert(f(i));
    }
    s
}

fn li(sem: &[&str], syn: &[&str], phon: &[&str], shorthand: &str) -> LexicalItem {
    LexicalItem::new(fset(sem), fset(syn), fset(phon), Some(shorthand.to_string()))
}

fn lit(l: LexicalItem, k: usize) -> LexicalItemToken {
    LexicalItemToken::new(l, k)
}

fn so(l: LexicalItemToken) -> SyntacticObject {
    SyntacticObject::LexicalItemToken(l)
}

fn set(v: Vec<SyntacticObject>) -> SyntacticObject {
    SyntacticObject::SoSet(v)
}

fn transferred(x: SyntacticObject, pf: &[&str], lf: &[&str]) -> SyntacticObject {
    SyntacticObject::Transfer { so: Box::new(x), pf: pf.iter().map(|s| f(s)).collect(), lf: fset(lf) }
}

fn la(v: Vec<LexicalItemToken>) -> LexicalArray {
    let mut s = FiniteSet::new();
    for x in v {
        s.insert(x);
    }
    LexicalArray::new(s)
}

fn ws(v: Vec<SyntacticObject>) -> Workspace {
    let mut s = FiniteSet::new();
    for x in v {
        s.insert(x);
    }
    Workspace::new(s)
}

fn stage(l: Vec<LexicalItemToken>, w: Vec<SyntacticObject>) -> Stage {
    Stage { la: la(l), w: ws(w) }
}

fn me() -> LexicalItem {
    li(&["me'"], &["D", "1", "sg", "acc"], &["me"], "me")
}
fn help() -> LexicalItem {
    li(&["help'"], &["V", "=D"], &["HELP"], "HELP")
}
fn strong_light_verb() -> LexicalItem {
    li(&[], &["v*", "=V", "=D", "acc"], &["v*"], "v*")
}
fn she() -> LexicalItem {
    li(&["she'"], &["D", "3", "sg", "nom"], &["she"], "she")
}
fn past() -> LexicalItem {
    li(&[], &["T", "=v*", "EPP", "nom"], &["PAST"], "PAST")
}

/// Tense whose feature `epp` is written in lower case, which is no trigger
/// feature.
fn past_lower_epp() -> LexicalItem {
    li(&[], &["T", "=v*", "epp", "nom"], &["PAST"], "PAST")
}
fn nullcomp() -> LexicalItem {
    li(&[], &["C", "=T"], &["C"], "C")
}

fn object() -> LexicalItemToken {
    lit(me(), 1)
}
fn root() -> LexicalItemToken {
    lit(help(), 1)
}
fn light_verb() -> LexicalItemToken {
    lit(strong_light_verb(), 1)
}
fn subject() -> LexicalItemToken {
    lit(she(), 1)
}
fn tense() -> LexicalItemToken {
    lit(past(), 1)
}
fn comp() -> LexicalItemToken {
    lit(nullcomp(), 1)
}

fn il() -> ILanguage<BasicTriggers> {
    let mut lex = FiniteSet::new();
    for l in [me(), help(), strong_light_verb(), she(), past(), nullcomp()] {
        lex.insert(l);
    }
    let ug = UniversalGrammar::<BasicTriggers>::new(
        fset(&["me", "HELP", "v*", "she", "PAST", "C"]),
        fset(&["D", "V", "v*", "T", "C", "=D", "=V", "=v*", "=T", "1", "3", "sg", "nom", "acc", "EPP"]),
        fset(&["me'", "help'", "she'"]),
    );
    ILanguage { lex, ug, realize_map: vec![] }
}

fn vp() -> SyntacticObject {
    set(vec![so(root()), so(object())])
}
fn vbar() -> SyntacticObject {
    set(vec![so(light_verb()), vp()])
}
fn small_vp() -> SyntacticObject {
    set(vec![vbar(), so(subject())])
}
fn vp_transferred() -> SyntacticObject {
    transferred(vp(), &["HELP", "me"], &["help'", "me'"])
}
fn small_vp_cyclic() -> SyntacticObject {
    set(vec![set(vec![so(light_verb()), vp_transferred()]), so(subject())])
}
fn tbar() -> SyntacticObject {
    set(vec![so(tense()), small_vp_cyclic()])
}
fn tp() -> SyntacticObject {
    set(vec![tbar(), so(subject())])
}
fn cp() -> SyntacticObject {
    set(vec![so(comp()), tp()])
}

fn stages() -> Vec<Stage> {
    vec![
        stage(vec![object(), root(), light_verb(), subject(), tense(), comp()], vec![]),
        stage(vec![root(), light_verb(), subject(), tense(), comp()], vec![so(object())]),
        stage(vec![light_verb(), subject(), tense(), comp()], vec![so(root()), so(object())]),
        stage(vec![light_verb(), subject(), tense(), comp()], vec![vp()]),
        stage(vec![subject(), tense(), comp()], vec![so(light_verb()), vp()]),
        stage(vec![subject(), tense(), comp()], vec![vbar()]),
        stage(vec![tense(), comp()], vec![so(subject()), vbar()]),
        stage(vec![tense(), comp()], vec![small_vp()]),
        stage(vec![tense(), comp()], vec![small_vp_cyclic()]),
        stage(vec![comp()], vec![so(tense()), small_vp_cyclic()]),
        stage(vec![comp()], vec![tbar()]),
        stage(vec![comp()], vec![tp()]),
        stage(vec![], vec![so(comp()), tp()]),
        stage(vec![], vec![cp()]),
        stage(
            vec![],
            vec![transferred(cp(), &["C", "she", "PAST", "v*", "HELP", "me"], &["she'", "help'", "me'"])],
        ),
    ]
}

#[test]
fn select_word() {}

#[test]
fn derivation_of_she_helped_me() {
    let il = il();
    let st = stages();
    assert_eq!(try_is_derivation(&il, &st), Some(true));
    assert!(is_derivation(&il, &st));
    assert!(converges(&st));
    assert!(converges_ci(&st));
    assert!(converges_sm(&st));
}

#[test]
fn every_prefix_of_a_derivation_is_one() {
    let il = il();
    let st = stages();
    for k in 1..=st.len() {
        assert_eq!(try_is_derivation(&il, &st[..k]), Some(true));
    }
    assert!(!converges(&st[..14]));
}

#[test]
fn derivation_rejections() {
    let il = il();
    let st = stages();
    assert_eq!(try_is_derivation(&il, &[]), Some(false));
    // The first workspace must be empty.
    assert_eq!(try_is_derivation(&il, &st[1..3]), Some(false));
    // A token of a lexical item outside the lexicon.
    let stranger = lit(li(&[], &["N"], &["cat"], "cat"), 1);
    let bad = vec![stage(vec![stranger], vec![])];
    assert_eq!(try_is_derivation(&il, &bad), Some(false));
    // Two stages that no operation relates.
    let skip = vec![stages().remove(0), stages().remove(2)];
    assert_eq!(try_is_derivation(&il, &skip), Some(false));
    // A merge in the wrong order is no step.
    let wrong = vec![stages().remove(2), stage(vec![light_verb(), subject(), tense(), comp()], vec![set(vec![so(object()), so(root())])])];
    assert!(!is_derivation(&il, &wrong));
    assert!(!converges(&[]));
}

#[test]
fn select_moves_token() {
    let s = stages().remove(0);
    let t = select(object(), s).ok().unwrap();
    assert!(t.same_as(&stages().remove(1)));
    let s2 = stages().remove(1);
    assert!(matches!(select(object(), s2), Err(SelectError::NotInLexicalArray)));
}

#[test]
fn merge_forms_pairs() {
    let w = ws(vec![so(root()), so(object())]);
    let m = token_based_merge(so(root()), so(object()), &w).ok().unwrap();
    assert!(so_eq(&m, &vp()));
    assert!(matches!(token_based_merge(so(root()), so(root()), &w), Err(MergeError::NotDistinct)));
    let m2 = triggered_merge::<BasicTriggers>(so(root()), so(object()), &w).ok().unwrap();
    assert!(so_eq(&m2, &vp()));
    assert!(m2.immediately_contains(&so(root())) && m2.immediately_contains(&so(object())));
    assert!(matches!(
        triggered_merge::<BasicTriggers>(so(object()), so(root()), &w),
        Err(MergeError::NoTriggerOnA)
    ));
    assert!(matches!(
        triggered_merge::<BasicTriggers>(so(root()), so(light_verb()), &w),
        Err(MergeError::TriggerOnB)
    ));
    assert!(matches!(
        triggered_merge::<BasicTriggers>(so(root()), so(root()), &w),
        Err(MergeError::NotDistinct)
    ));
    let wf = triggered_merge_with_f::<BasicTriggers>(so(root()), f("D"), &w).ok().unwrap();
    assert!(!wf.immediately_contains(&so(root())));
    assert!(wf.contains(&so(root())));
    assert!(matches!(
        triggered_merge_with_f::<BasicTriggers>(so(object()), f("D"), &w),
        Err(MergeError::NoTriggerOnA)
    ));
}

#[test]
fn labels_and_phases() {
    let w = ws(vec![vbar()]);
    let vb = vbar();
    let l = label_of::<BasicTriggers>(&vb, &w).ok().unwrap();
    assert!(l.elem_eq(&light_verb()));
    assert!(is_strong_phase::<BasicTriggers>(&vbar(), &w));
    let w2 = ws(vec![vp()]);
    assert!(!is_strong_phase::<BasicTriggers>(&vp(), &w2));
    let v = vp();
    let lv = label_of::<BasicTriggers>(&v, &w2).ok().unwrap();
    assert!(lv.elem_eq(&root()));
}

#[test]
fn transfer_of_the_clause() {
    let w = ws(vec![cp()]);
    let t = transfer::<BasicTriggers>(&cp(), cp(), &w);
    let expected = transferred(cp(), &["C", "she", "PAST", "v*", "HELP", "me"], &["she'", "help'", "me'"]);
    assert!(so_eq(&t, &expected));
    assert!(!t.immediately_contains(&cp()));
    assert!(t.contains(&cp()));
}

#[test]
fn cyclic_transfer_of_the_verb_phrase() {
    let w = ws(vec![small_vp()]);
    let r = cyclic_transfer::<BasicTriggers>(small_vp(), &w).ok().unwrap();
    assert!(so_eq(&r, &small_vp_cyclic()));
}

#[test]
fn convergence_needs_one_transferred_root() {
    let st = stages();
    assert!(converges(&st[14..]));
    assert!(!converges(&st[13..14]));
    assert!(!converges(&st[..1]));
}

#[test]
fn lower_case_epp_triggers_nothing() {
    // With `epp` in place of `EPP`, tense has no trigger left once it has
    // merged with the verb phrase, so the subject cannot move to its
    // specifier.
    let mut lex = FiniteSet::new();
    for l in [me(), help(), strong_light_verb(), she(), past_lower_epp(), nullcomp()] {
        lex.insert(l);
    }
    let ug = UniversalGrammar::<BasicTriggers>::new(fset(&[]), fset(&[]), fset(&[]));
    let il = ILanguage { lex, ug, realize_map: vec![] };
    let t = lit(past_lower_epp(), 1);
    let tbar = set(vec![so(t.elem_dup()), small_vp_cyclic()]);
    let before = stage(vec![comp()], vec![set(vec![so(t.elem_dup()), small_vp_cyclic()])]);
    let after = stage(vec![comp()], vec![set(vec![tbar, so(subject())])]);
    assert_eq!(try_is_derivation(&il, &[stage(vec![], vec![]), before.dup()]), Some(false));
    let w = ws(vec![set(vec![so(t.elem_dup()), small_vp_cyclic()])]);
    assert!(matches!(
        triggered_merge::<BasicTriggers>(set(vec![so(t), small_vp_cyclic()]), so(subject()), &w),
        Err(MergeError::NoTriggerOnA)
    ));
    assert!(!after.same_as(&before));
}

fn li0(sem: &[&str], syn: &[&str], phon: &[&str]) -> LexicalItem {
    LexicalItem::new(fset(sem), fset(syn), fset(phon), None)
}

#[test]
fn test1() {
    let mary = || li0(&["Mary"], &["D"], &["Mary"]);
    let dances = || li0(&["dances"], &["V"], &["dances"]);
    let vstar = || li0(&["v*"], &["v*", "=V", "=D"], &[]);
    let pres = || li0(&["PRES"], &["T", "=v*"], &[]);
    let c = || li0(&["C"], &["C", "=T"], &[]);

    let mut lex = FiniteSet::new();
    for l in [mary(), dances(), vstar(), pres(), c()] {
        lex.insert(l);
    }
    let ug = UniversalGrammar::<BasicTriggers>::new(
        fset(&["Mary", "dances", ""]),
        fset(&["D", "V", "v*", "T", "C", "=D", "=V", "=v*", "=T"]),
        fset(&["Mary", "dances", "v*", "PRES", "C"]),
    );
    let il = ILanguage { lex, ug, realize_map: vec![] };

    let l_mary = || lit(mary(), 1);
    let l_dances = || lit(dances(), 2);
    let l_vstar = || lit(vstar(), 3);
    let l_pres = || lit(pres(), 4);
    let l_c = || lit(c(), 5);

    let vp = || set(vec![so(l_dances()), so(l_vstar())]);
    let vstar_p = || set(vec![vp(), so(l_mary())]);
    let tp = || set(vec![so(l_pres()), vstar_p()]);
    let cp = || set(vec![so(l_c()), tp()]);

    let stages = vec![
        stage(vec![l_mary(), l_dances(), l_vstar(), l_pres(), l_c()], vec![]),
        stage(vec![l_mary(), l_vstar(), l_pres(), l_c()], vec![so(l_dances())]),
        stage(vec![l_mary(), l_pres(), l_c()], vec![so(l_dances()), so(l_vstar())]),
        stage(vec![l_mary(), l_pres(), l_c()], vec![vp()]),
        stage(vec![l_pres(), l_c()], vec![vp(), so(l_mary())]),
        stage(vec![l_pres(), l_c()], vec![vstar_p()]),
        stage(vec![l_c()], vec![so(l_pres()), vstar_p()]),
        stage(vec![l_c()], vec![tp()]),
        stage(vec![], vec![so(l_c()), tp()]),
        stage(vec![], vec![cp()]),
        stage(
            vec![],
            vec![transferred(cp(), &["Mary", "dances"], &["C", "PRES", "v*", "dances", "Mary"])],
        ),
    ];

    assert!(is_derivation(&il, &stages));
    assert!(converges(&stages));
}

#[test]
fn set_triggers_lose_one_feature() {
    // HELP has the trigger =D; merged with me, the pair keeps none of it.
    let w = ws(vec![vp()]);
    let t_root = BasicTriggers::triggers(&so(root()), &w).ok().unwrap();
    assert!(t_root.same_as(&fset(&["=D"])));
    let t_vp = BasicTriggers::triggers(&vp(), &w).ok().unwrap();
    assert!(t_vp.same_as(&fset(&[])));
    // v* has =V and =D; with the verb phrase it keeps =D.
    let w2 = ws(vec![vbar()]);
    let t_vbar = BasicTriggers::triggers(&vbar(), &w2).ok().unwrap();
    assert!(t_vbar.same_as(&fset(&["=D"])));
    // A set of three has no triggers.
    let three = set(vec![so(root()), so(object()), so(subject())]);
    assert!(BasicTriggers::triggers(&three, &ws(vec![so_dup(&three)])).is_err());
}

#[test]
fn merge_in_either_order_gives_one_set() {
    let w = ws(vec![so(root()), so(object())]);
    let ab = token_based_merge(so(root()), so(object()), &w).ok().unwrap();
    let ba = token_based_merge(so(object()), so(root()), &w).ok().unwrap();
    assert!(so_equiv_exec(&ab, &ba));
    assert!(!so_eq(&ab, &ba));
    assert!(!vp().contains(&vp()));
    assert!(!cp().contains(&cp()));
}
