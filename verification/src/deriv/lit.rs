//! Lexical item tokens.

use vstd::prelude::*;

use crate::deriv::li::{li_display, LexicalItem, LiModel};
use crate::text::{append_decimal, decimal};
use crate::utils::Elem;

verus! {

/// The model of a lexical item token.
pub struct LitModel {
    pub li: LiModel,
    pub k: usize,
}

/// Lexical item token.
///
/// From Definition 5 in C&S 2016, p. 45: a pair of a lexical item and an
/// integer.
pub struct LexicalItemToken {
    pub li: LexicalItem,
    pub k: usize,
}

impl View for LexicalItemToken {
    type V = LitModel;

    open spec fn view(&self) -> LitModel {
        LitModel { li: self.li@, k: self.k }
    }
}

impl LexicalItemToken {
    pub fn new(li: LexicalItem, k: usize) -> (r: Self)
        ensures
            r@ == (LitModel { li: li@, k }),
    {
        LexicalItemToken { li, k }
    }
}

/// The text of a lexical item token: that of its lexical item, followed by
/// its index in decimal.
pub open spec fn lit_display(m: LitModel) -> Seq<char> {
    li_display(m.li) + decimal(m.k as nat)
}

impl LexicalItemToken {
    /// The text that displays the lexical item token.
    pub fn to_string(&self) -> (r: String)
        ensures
            r@ == lit_display(self@),
    {
        let mut out = self.li.to_string();
        append_decimal(&mut out, self.k);
        out
    }
}

impl Elem for LexicalItemToken {
    fn elem_eq(&self, other: &Self) -> (r: bool) {
        self.k == other.k && self.li.elem_eq(&other.li)
    }

    fn elem_dup(&self) -> (r: Self) {
        LexicalItemToken { li: self.li.elem_dup(), k: self.k }
    }
}

} // verus!
