//! Lexical items.

use vstd::prelude::*;

use crate::feature::{canon, FeatureSet};
use crate::text::{append_joined, features_view, join};
use crate::utils::Elem;

verus! {

/// The model of a lexical item: its three feature sets and its shorthand.
pub struct LiModel {
    pub sem: Set<Seq<char>>,
    pub syn: Set<Seq<char>>,
    pub phon: Set<Seq<char>>,
    pub shorthand: Option<Seq<char>>,
}

/// Lexical item.
///
/// From Definition 2 in C&S 2016, p. 44: a lexical item is a triple of
/// semantic, syntactic and phonological features.  It may carry a shorthand
/// that is used when it is displayed.
pub struct LexicalItem {
    /// Semantic features.
    pub sem: FeatureSet,
    /// Syntactic features.
    pub syn: FeatureSet,
    /// Phonological features.
    pub phon: FeatureSet,
    /// Optional shorthand.
    pub shorthand: Option<String>,
}

/// The model of an optional string.
pub open spec fn opt_str_view(s: Option<String>) -> Option<Seq<char>> {
    match s {
        Some(t) => Some(t@),
        None => None,
    }
}

impl View for LexicalItem {
    type V = LiModel;

    open spec fn view(&self) -> LiModel {
        LiModel {
            sem: self.sem@,
            syn: self.syn@,
            phon: self.phon@,
            shorthand: opt_str_view(self.shorthand),
        }
    }
}

impl LexicalItem {
    pub fn new(
        sem: FeatureSet,
        syn: FeatureSet,
        phon: FeatureSet,
        shorthand: Option<String>,
    ) -> (r: Self)
        ensures
            r@ == (LiModel { sem: sem@, syn: syn@, phon: phon@, shorthand: opt_str_view(shorthand) }),
    {
        LexicalItem { sem, syn, phon, shorthand }
    }
}

/// The text of a lexical item: its shorthand where it has one, else its three
/// feature sets, each listed in increasing order.
pub open spec fn li_display(m: LiModel) -> Seq<char> {
    match m.shorthand {
        Some(s) => s,
        None => "{ sem: {"@ + join(canon(m.sem), ", "@) + "}; syn: {"@ + join(canon(m.syn), ", "@)
            + "}; phon: {"@ + join(canon(m.phon), ", "@) + "} }"@,
    }
}

/// Append the features of `s` in increasing order, separated by commas.
pub(crate) fn append_feature_set(out: &mut String, s: &FeatureSet)
    ensures
        final(out)@ == old(out)@ + join(canon(s@), ", "@),
{
    let v = s.to_vec();
    assert(features_view(v@) == canon(s@));
    append_joined(out, &v, ", ");
}

impl LexicalItem {
    /// The text that displays the lexical item.
    pub fn to_string(&self) -> (r: String)
        ensures
            r@ == li_display(self@),
    {
        match &self.shorthand {
            Some(s) => s.clone(),
            None => {
                let mut out = String::new();
                out.append("{ sem: {");
                append_feature_set(&mut out, &self.sem);
                out.append("}; syn: {");
                append_feature_set(&mut out, &self.syn);
                out.append("}; phon: {");
                append_feature_set(&mut out, &self.phon);
                out.append("} }");
                out
            },
        }
    }
}

impl Elem for LexicalItem {
    fn elem_eq(&self, other: &Self) -> (r: bool) {
        let sh = match (&self.shorthand, &other.shorthand) {
            (None, None) => true,
            (Some(a), Some(b)) => *a == *b,
            _ => false,
        };
        sh && self.sem.same_as(&other.sem) && self.syn.same_as(&other.syn) && self.phon.same_as(
            &other.phon,
        )
    }

    fn elem_dup(&self) -> (r: Self) {
        let shorthand = match &self.shorthand {
            None => None,
            Some(s) => Some(s.clone()),
        };
        LexicalItem {
            sem: self.sem.clone(),
            syn: self.syn.clone(),
            phon: self.phon.clone(),
            shorthand,
        }
    }
}

} // verus!
