use cands::feature::{Feature, FeatureSet};
use cands::utils::FiniteSet;

fn f(s: &str) -> Feature {
    Feature::new(s.to_string())
}

fn fset(items: &[&str]) -> FeatureSet {
    let mut s = FeatureSet::new();
    for i in items {
        s.insert(f(i));
    }
    s
}

fn uset(items: &[usize]) -> FiniteSet<usize> {
    let mut s = FiniteSet::new();
    for i in items {
        s.insert(*i);
    }
    s
}

#[test]
fn empty_fset() {
    let set1 = fset(&[]);
    let set2 = FeatureSet::new();
    assert!(set1.same_as(&set2));
}

#[test]
fn feature_three_elems() {
    let set1 = fset(&["alpha", "beta", "gamma"]);
    let mut set2 = FeatureSet::new();
    set2.insert(f("alpha"));
    set2.insert(f("beta"));
    set2.insert(f("gamma"));
    assert!(set1.same_as(&set2));
}

#[test]
fn feature_dedup() {
    let set1 = fset(&["alpha", "alpha", "beta"]);
    let mut set2 = FeatureSet::new();
    set2.insert(f("alpha"));
    set2.insert(f("beta"));
    assert!(set1.same_as(&set2));
}

#[test]
fn empty_usize_set() {
    let set1 = uset(&[]);
    let set2: FiniteSet<usize> = FiniteSet::new();
    assert!(set1.same_as(&set2));
}

#[test]
fn utils_three_elems() {
    let set1 = uset(&[12, 13, 14]);
    let mut set2 = FiniteSet::new();
    set2.insert(12);
    set2.insert(13);
    set2.insert(14);
    assert!(set1.same_as(&set2));
}

#[test]
fn utils_dedup() {
    let set1 = uset(&[12, 13, 13]);
    let mut set2 = FiniteSet::new();
    set2.insert(12);
    set2.insert(13);
    assert!(set1.same_as(&set2));
}

#[test]
fn feature_set_order_is_lexicographic() {
    let s = fset(&["gamma", "alpha", "beta", "Zeta"]);
    let v: Vec<String> = s.to_vec().into_iter().map(|x| x.0).collect();
    assert_eq!(v, vec!["Zeta", "alpha", "beta", "gamma"]);
    assert_eq!(s.len(), 4);
}

#[test]
fn feature_set_insert_remove() {
    let mut s = fset(&["a", "b"]);
    assert!(!s.insert(f("a")));
    assert!(s.insert(f("c")));
    assert!(s.contains(&f("c")));
    assert!(s.remove(&f("a")));
    assert!(!s.remove(&f("a")));
    assert!(!s.contains(&f("a")));
    assert!(s.same_as(&fset(&["b", "c"])));
    let mut t = fset(&["x"]);
    t.extend(&s);
    assert!(t.same_as(&fset(&["b", "c", "x"])));
}

#[test]
fn set_equality_ignores_insertion_order() {
    assert!(uset(&[3, 1, 2]).same_as(&uset(&[1, 2, 3])));
    assert!(!uset(&[1, 2]).same_as(&uset(&[1, 2, 3])));
    assert!(fset(&["b", "a"]).same_as(&fset(&["a", "b"])));
}

#[test]
fn features() {
    assert!(f("=V").is_catsel());
    assert!(!f("V").is_catsel());
    assert_eq!(f("=V").drop_prefix().0, "V");
    assert!(f("a").less_than(&f("b")));
    assert!(!f("b").less_than(&f("a")));
    assert_eq!(cands::feature::wh_feature().0, "wh");
    assert_eq!(cands::feature::epp_feature().0, "EPP");
    assert_eq!(cands::feature::comp_feature().0, "C");
    assert_eq!(cands::feature::strong_light_verb_feature().0, "v*");
}
