use cands::deriv::li::LexicalItem;
use cands::deriv::lit::LexicalItemToken;
use cands::deriv::so::{pied_pipes_to, so_eq, so_equiv_exec, update_goal_copies, SyntacticObject};
use cands::deriv::occur::Occurrence;
use cands::deriv::Workspace;
use cands::feature::{Feature, FeatureSet};
use cands::utils::{Elem, FiniteSet};

fn fset(items: &[&str]) -> FeatureSet {
    let mut s = FeatureSet::new();
    for i in items {
        s.insert(Feature::new(i.to_string()));
    }
    s
}

fn li(sem: &[&str], syn: &[&str], phon: &[&str], shorthand: Option<&str>) -> LexicalItem {
    LexicalItem::new(fset(sem), fset(syn), fset(phon), shorthand.map(|s| s.to_string()))
}

fn li_short(name: &str) -> LexicalItem {
    li(&[], &[], &[], Some(name))
}

fn lit(l: LexicalItem, k: usize) -> LexicalItemToken {
    LexicalItemToken::new(l, k)
}

fn so_lit(l: LexicalItemToken) -> SyntacticObject {
    SyntacticObject::LexicalItemToken(l)
}

fn so_set(v: Vec<SyntacticObject>) -> SyntacticObject {
    SyntacticObject::SoSet(v)
}

/// A token of the lexical item with only the shorthand `name`.
fn tok(name: &str) -> SyntacticObject {
    so_lit(lit(li_short(name), 1))
}

/// A token of the lexical item with only the phonological feature `name`.
fn phon_tok(name: &str) -> SyntacticObject {
    so_lit(lit(li(&[], &[], &[name], None), 1))
}

fn ws(v: Vec<SyntacticObject>) -> Workspace {
    let mut s = FiniteSet::new();
    for x in v {
        s.insert(x);
    }
    Workspace::new(s)
}

#[test]
fn li_alex() {
    let li1 = li(&[], &["N"], &["Alex"], None);
    let li2 = LexicalItem { sem: fset(&[]), syn: fset(&["N"]), phon: fset(&["Alex"]), shorthand: None };
    assert!(li1.elem_eq(&li2));
}

#[test]
fn li_alex_with_shorthand() {
    let li1 = li(&[], &["N"], &["Alex"], Some("Alex"));
    let li2 = LexicalItem {
        sem: fset(&[]),
        syn: fset(&["N"]),
        phon: fset(&["Alex"]),
        shorthand: Some(format!("Alex")),
    };
    assert!(li1.elem_eq(&li2));
}

#[test]
fn empty_with_shorthand() {
    let li1 = li_short("Alex");
    let li2 = LexicalItem { sem: fset(&[]), syn: fset(&[]), phon: fset(&[]), shorthand: Some(format!("Alex")) };
    assert!(li1.elem_eq(&li2));
}

#[test]
fn li_display_alex() {
    let l = li(&[], &["N"], &["Alex"], None);
    assert_eq!(l.to_string(), "{ sem: {}; syn: {N}; phon: {Alex} }");
}

#[test]
fn li_display_alex_with_shorthand() {
    let l = li(&[], &["N"], &["Alex"], Some("Alex"));
    assert_eq!(l.to_string(), "Alex");
}

#[test]
fn lit_alex() {
    let lit1 = lit(li(&[], &["N"], &["Alex"], None), 12345);
    let li2 = LexicalItem::new(fset(&[]), fset(&["N"]), fset(&["Alex"]), None);
    let lit2 = LexicalItemToken::new(li2, 12345);
    assert!(lit1.elem_eq(&lit2));
}

#[test]
fn lit_alex_with_shorthand() {
    let lit1 = lit(li(&[], &["N"], &["Alex"], Some("Alex")), 12345);
    let li2 = LexicalItem::new(fset(&[]), fset(&["N"]), fset(&["Alex"]), Some(format!("Alex")));
    let lit2 = LexicalItemToken::new(li2, 12345);
    assert!(lit1.elem_eq(&lit2));
}

#[test]
fn lit_display_alex() {
    let l = lit(li(&[], &["N"], &["Alex"], None), 12345);
    assert_eq!(l.to_string(), "{ sem: {}; syn: {N}; phon: {Alex} }12345");
}

#[test]
fn lit_display_alex_with_shorthand() {
    let l = lit(li(&[], &["N"], &["Alex"], Some("Alex")), 12345);
    assert_eq!(l.to_string(), "Alex12345");
}

#[test]
fn display() {
    println!("{}", phon_tok("Alex").to_string());
    println!("{}", so_set(vec![]).to_string());
    println!("{}", so_set(vec![phon_tok("Alex")]).to_string());
    println!("{}", so_set(vec![phon_tok("Alex"), phon_tok("danced")]).to_string());
    println!("{}", so_set(vec![phon_tok("Alex"), phon_tok("never"), phon_tok("danced")]).to_string());
    println!(
        "{}",
        so_set(vec![
            so_set(vec![phon_tok("Alpha"), phon_tok("Beta"), phon_tok("Gamma")]),
            so_set(vec![phon_tok("never"), phon_tok("ever"), phon_tok("ever")]),
            so_set(vec![
                phon_tok("danced"),
                phon_tok("like"),
                phon_tok("there\'s"),
                phon_tok("no"),
                phon_tok("tomorrow"),
            ]),
        ])
        .to_string()
    );
    println!(
        "{}",
        so_set(vec![
            so_set(vec![
                phon_tok("the"),
                so_set(vec![
                    phon_tok("person"),
                    so_set(vec![phon_tok("Q"), so_set(vec![phon_tok("you"), phon_tok("love")])]),
                ]),
            ]),
            so_set(vec![
                phon_tok("Pres"),
                so_set(vec![
                    phon_tok("v"),
                    so_set(vec![phon_tok("wrote"), so_set(vec![phon_tok("this"), phon_tok("book")])]),
                ]),
            ]),
        ])
        .to_string()
    );
}

#[test]
fn display_shapes() {
    assert_eq!(tok("Alex").to_string(), "Alex1");
    assert_eq!(so_set(vec![]).to_string(), "Ø");
    assert_eq!(so_set(vec![tok("Alex")]).to_string(), " ═─ Alex1");
    assert_eq!(so_set(vec![tok("Alex"), tok("danced")]).to_string(), " ╔─ Alex1\n ╚─ danced1");
    assert_eq!(
        so_set(vec![tok("Alex"), tok("never"), tok("danced")]).to_string(),
        " ╔─ Alex1\n ╠─ never1\n ╚─ danced1"
    );
    assert_eq!(
        so_set(vec![tok("A"), so_set(vec![tok("B"), tok("C")])]).to_string(),
        " ╔─ A1\n ╚─╦─ B1\n   ╚─ C1"
    );
}

#[test]
fn display_transfer() {
    let mut lf = FeatureSet::new();
    lf.insert(Feature::new(format!("b")));
    lf.insert(Feature::new(format!("a")));
    let t = SyntacticObject::Transfer {
        so: Box::new(tok("A")),
        pf: vec![Feature::new(format!("x")), Feature::new(format!("y"))],
        lf,
    };
    let text = "PF: [x y]; LF: {a, b}";
    let bars: String = std::iter::repeat("━").take(text.len() + 2).collect();
    assert_eq!(t.to_string(), format!(" ┏{}┓\n ┃ {} ┃\n ┗{}┛", bars, text, bars));
}

/// The tree [ A [ [ B C D ] E [ [ F G ] H I ] ] ].
fn get_so() -> SyntacticObject {
    so_set(vec![
        tok("A"),
        so_set(vec![
            so_set(vec![tok("B"), tok("C"), tok("D")]),
            tok("E"),
            so_set(vec![so_set(vec![tok("F"), tok("G")]), tok("H"), tok("I")]),
        ]),
    ])
}

#[test]
fn lit_immediately_contains() {
    let so = tok("A");
    assert!(!so.immediately_contains(&tok("A")));
    assert!(!so.immediately_contains(&tok("A")));
    assert!(!so.immediately_contains(&so_set(vec![])));
    assert!(!so.immediately_contains(&so_set(vec![tok("A")])));
    assert!(!so.immediately_contains(&so_set(vec![tok("A"), tok("B"), tok("C")])));
}

#[test]
fn set_immediately_contains() {
    let so = get_so();
    for other in [
        tok("A"),
        so_set(vec![
            so_set(vec![tok("B"), tok("C"), tok("D")]),
            tok("E"),
            so_set(vec![so_set(vec![tok("F"), tok("G")]), tok("H"), tok("I")]),
        ]),
    ] {
        assert!(so.contains(&other));
    }
    assert!(!so.immediately_contains(&so));
}

#[test]
fn immediately_contains_children_only() {
    let so = get_so();
    assert!(so.immediately_contains(&tok("A")));
    assert!(!so.immediately_contains(&tok("E")));
    assert!(so.contains(&tok("E")));
}

#[test]
fn lit_contains() {
    let so = tok("A");
    assert!(!so.contains(&tok("A")));
    assert!(!so.contains(&tok("A")));
    assert!(!so.contains(&so_set(vec![])));
    assert!(!so.contains(&so_set(vec![tok("A")])));
    assert!(!so.contains(&so_set(vec![tok("A"), tok("B"), tok("C")])));
}

#[test]
fn set_contains() {
    let so = get_so();
    for ch in "ABCDEFGHI".chars() {
        assert!(so.contains(&tok(&ch.to_string())));
    }
    for other in [
        so_set(vec![tok("B"), tok("C"), tok("D")]),
        so_set(vec![tok("F"), tok("G")]),
        so_set(vec![so_set(vec![tok("F"), tok("G")]), tok("H"), tok("I")]),
        so_set(vec![
            so_set(vec![tok("B"), tok("C"), tok("D")]),
            tok("E"),
            so_set(vec![so_set(vec![tok("F"), tok("G")]), tok("H"), tok("I")]),
        ]),
    ] {
        assert!(so.contains(&other));
    }
    assert!(!so.contains(&so));
}

#[test]
fn containment_is_transitive() {
    let c = get_so();
    let b = so_set(vec![so_set(vec![tok("F"), tok("G")]), tok("H"), tok("I")]);
    let a = tok("F");
    assert!(c.contains(&b));
    assert!(b.contains(&a));
    assert!(c.contains(&a));
}

#[test]
fn is_root() {
    let w1 = ws(vec![tok("A"), so_set(vec![tok("B"), tok("C")])]);
    let w2 = ws(vec![tok("B")]);
    assert!(tok("A").is_root(&w1));
    assert!(!tok("A").is_root(&w2));
    assert!(!tok("B").is_root(&w1));
    assert!(tok("B").is_root(&w2));
    assert!(so_set(vec![tok("B"), tok("C")]).is_root(&w1));
    assert!(!so_set(vec![tok("B"), tok("C")]).is_root(&w2));
}

#[test]
fn sisters_with() {
    let under1 = so_set(vec![tok("A"), tok("B")]);
    let under2 = so_set(vec![tok("B"), tok("C")]);
    let under3 = so_set(vec![tok("B"), so_set(vec![tok("B"), tok("C")])]);
    let under4 = so_set(vec![tok("A"), so_set(vec![tok("B"), so_set(vec![tok("B"), tok("C")])])]);

    let sis1 = tok("A");
    let sis2 = tok("B");
    let sis3 = tok("C");
    let sis4 = so_set(vec![tok("B"), tok("C")]);

    assert!(sis1.sisters_with(&sis2, &under1));
    assert!(sis2.sisters_with(&sis3, &under2));
    assert!(sis2.sisters_with(&sis4, &under3));
    assert!(sis1.sisters_with(&under3, &under4));

    assert!(sis2.sisters_with(&sis1, &under1));
    assert!(sis3.sisters_with(&sis2, &under2));
    assert!(sis4.sisters_with(&sis2, &under3));
    assert!(under3.sisters_with(&sis1, &under4));

    assert!(!sis2.sisters_with(&sis4, &under4));
    assert!(!sis4.sisters_with(&sis2, &under4));
}

#[test]
fn so_c_commands1() {
    let a = tok("A");
    let b = tok("B");
    let ab = so_set(vec![tok("A"), tok("B")]);
    assert!(a.c_commands(&b, &ab));
    assert!(b.c_commands(&a, &ab));
}

#[test]
fn so_c_commands2() {
    let a = tok("A");
    let bc = so_set(vec![tok("B"), tok("C")]);
    let c = tok("C");
    let ab = so_set(vec![tok("A"), tok("B")]);
    let a_bc = so_set(vec![tok("A"), so_set(vec![tok("B"), tok("C")])]);
    let ab_c = so_set(vec![so_set(vec![tok("A"), tok("B")]), tok("C")]);

    assert!(a.c_commands(&bc, &a_bc));
    assert!(bc.c_commands(&a, &a_bc));
    assert!(ab.c_commands(&c, &ab_c));
    assert!(c.c_commands(&ab, &ab_c));

    assert!(a.c_commands(&c, &a_bc));
    assert!(!c.c_commands(&a, &a_bc));
    assert!(c.c_commands(&a, &ab_c));
    assert!(!a.c_commands(&c, &ab_c));
}

#[test]
fn asymmetric_c_command() {
    let a_bc = so_set(vec![tok("A"), so_set(vec![tok("B"), tok("C")])]);
    assert!(tok("A").asymmetrically_c_commands(&tok("C"), &a_bc));
    assert!(!tok("C").asymmetrically_c_commands(&tok("A"), &a_bc));
    let bc = so_set(vec![tok("B"), tok("C")]);
    assert!(!tok("A").asymmetrically_c_commands(&bc, &a_bc));
}

#[test]
fn binary_branching() {
    assert!(get_so().is_binary_branching() == false);
    assert!(so_set(vec![tok("A"), so_set(vec![tok("B"), tok("C")])]).is_binary_branching());
    assert!(tok("A").is_binary_branching());
    assert!(tok("A").is_lexical_item_token());
    assert!(!tok("A").is_set());
    assert!(so_set(vec![]).is_set());
    assert!(tok("A").is_minimal_projection());
}

#[test]
fn make() {}

fn count(v: &[SyntacticObject], x: &SyntacticObject) -> usize {
    v.iter().filter(|y| so_eq(y, x)).count()
}

fn walk_equals_multiset(v: &[SyntacticObject], expected: &[(SyntacticObject, usize)]) -> bool {
    let total: usize = expected.iter().map(|(_, n)| *n).sum();
    v.len() == total && expected.iter().all(|(x, n)| count(v, x) == *n)
}

#[test]
fn contained_sos1() {
    let so = phon_tok("John");
    let v = so.contained_sos(false, true).to_vec();
    assert!(walk_equals_multiset(&v, &[]));
}

#[test]
fn contained_sos2() {
    let so = so_set(vec![phon_tok("John"), phon_tok("eat")]);
    let v = so.contained_sos(false, true).to_vec();
    assert!(walk_equals_multiset(&v, &[(phon_tok("John"), 1), (phon_tok("eat"), 1)]));
}

#[test]
fn contained_sos3() {
    let so = so_set(vec![
        phon_tok("John"),
        so_set(vec![phon_tok("was"), so_set(vec![phon_tok("helped"), phon_tok("John")])]),
    ]);
    let v = so.contained_sos(false, true).to_vec();
    assert!(walk_equals_multiset(
        &v,
        &[
            (phon_tok("helped"), 1),
            (phon_tok("John"), 2),
            (so_set(vec![phon_tok("helped"), phon_tok("John")]), 1),
            (phon_tok("was"), 1),
            (so_set(vec![phon_tok("was"), so_set(vec![phon_tok("helped"), phon_tok("John")])]), 1),
        ]
    ));
}

#[test]
fn contained_sos_order_and_transfer() {
    let inner = so_set(vec![tok("A"), tok("B")]);
    let t = SyntacticObject::Transfer { so: Box::new(inner), pf: vec![], lf: FeatureSet::new() };
    let so = so_set(vec![tok("C"), t]);
    let with_self = so.contained_sos(true, true).to_vec();
    assert!(so_eq(&with_self[0], &so));
    assert_eq!(with_self.len(), 6);
    let without_transfer = so.contained_sos(false, false).to_vec();
    assert_eq!(without_transfer.len(), 2);
}

#[test]
fn sets_are_the_same_in_any_order() {
    let ab = so_set(vec![tok("A"), tok("B")]);
    let ba = so_set(vec![tok("B"), tok("A")]);
    let abb = so_set(vec![tok("A"), tok("B"), tok("B")]);
    let ac = so_set(vec![tok("A"), tok("C")]);
    assert!(so_equiv_exec(&ab, &ba));
    assert!(so_equiv_exec(&ba, &ab));
    assert!(so_equiv_exec(&ab, &abb));
    assert!(!so_equiv_exec(&ab, &ac));
    assert!(!so_eq(&ab, &ba));
    let nested1 = so_set(vec![tok("C"), so_set(vec![tok("A"), tok("B")])]);
    let nested2 = so_set(vec![so_set(vec![tok("B"), tok("A")]), tok("C")]);
    assert!(so_equiv_exec(&nested1, &nested2));
    assert!(!so_equiv_exec(&tok("A"), &so_set(vec![tok("A")])));
    assert!(so_equiv_exec(&tok("A"), &tok("A")));
}

#[test]
fn goal_copies_are_updated_in_sets() {
    let old = tok("A");
    let new = tok("Z");
    let tree = so_set(vec![tok("A"), so_set(vec![tok("B"), tok("A")])]);
    let updated = update_goal_copies(tree, &old, &new);
    let expected = so_set(vec![tok("Z"), so_set(vec![tok("B"), tok("Z")])]);
    assert!(so_eq(&updated, &expected));
    let whole = update_goal_copies(tok("A"), &old, &new);
    assert!(so_eq(&whole, &new));
    let untouched = update_goal_copies(tok("C"), &old, &new);
    assert!(so_eq(&untouched, &tok("C")));
}

#[test]
fn pied_piping_reaches_containing_objects() {
    let a = tok("A");
    let ab = so_set(vec![tok("A"), tok("B")]);
    assert!(pied_pipes_to(&a, &a));
    assert!(pied_pipes_to(&a, &ab));
    assert!(!pied_pipes_to(&ab, &a));
    assert!(!pied_pipes_to(&tok("C"), &ab));
}

#[test]
fn occurrences_sisters_and_c_command() {
    let a = tok("A");
    let b = tok("B");
    let c = tok("C");
    let bc = so_set(vec![tok("B"), tok("C")]);
    let d = so_set(vec![tok("A"), so_set(vec![tok("B"), tok("C")])]);

    let occs = d.iter_contained_as_occ();
    assert_eq!(occs.len(), 4);
    assert_eq!(occs[0].position.len(), 2);
    assert!(so_eq(occs[0].position[1], &a));
    assert!(so_eq(occs[1].position[1], &bc));
    assert_eq!(occs[2].position.len(), 3);
    assert!(so_eq(occs[2].position[2], &b));
    assert!(so_eq(occs[3].position[2], &c));
    assert!(occs.iter().all(|o| o.check()));
    assert!(tok("A").iter_contained_as_occ().is_empty());

    let a_p = Occurrence { position: vec![&d, &a] };
    let bc_p = Occurrence { position: vec![&d, &bc] };
    let b_p = Occurrence { position: vec![&d, &bc, &b] };
    let c_p = Occurrence { position: vec![&d, &bc, &c] };

    assert!(a_p.sisters_with(&bc_p, &d));
    assert!(bc_p.sisters_with(&a_p, &d));
    assert!(b_p.sisters_with(&c_p, &bc));
    assert!(!b_p.sisters_with(&c_p, &d));
    assert!(!a_p.sisters_with(&a_p, &d));
    assert!(!a_p.sisters_with(&b_p, &d));

    assert!(a_p.c_commands(&bc_p, &d));
    assert!(a_p.c_commands(&b_p, &d));
    assert!(a_p.c_commands(&c_p, &d));
    assert!(bc_p.c_commands(&a_p, &d));
    assert!(!b_p.c_commands(&a_p, &d));
    assert!(!a_p.c_commands(&a_p, &d));

    assert!(a_p.asymmetrically_c_commands(&b_p, &d));
    assert!(!a_p.asymmetrically_c_commands(&bc_p, &d));
    assert!(!b_p.asymmetrically_c_commands(&a_p, &d));
}
