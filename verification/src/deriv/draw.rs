//! Drawing syntactic objects as trees.
//!
//! A set is drawn with its members below one another, joined on the left
//! by a bracket; a transferred object is drawn as a box that holds its PF and
//! LF representations:
//!
//! ```text
//!  ╔─ Alex1
//!  ╚═─ danced1
//! ```

use vstd::prelude::*;
use vstd::utf8::encode_utf8;

use crate::deriv::li::append_feature_set;
use crate::deriv::lit::{lit_display, LexicalItemToken};
use crate::deriv::so::{fvec_view, lemma_so_seq_view, so_seq_view, so_view, SoModel, SyntacticObject};
use crate::feature::{canon, Feature, FeatureSet};
use crate::text::{append_joined, features_view, join};

verus! {

/// `s` repeated `k` times.
pub open spec fn repeat(s: Seq<char>, k: nat) -> Seq<char>
    decreases k,
{
    if k == 0 {
        Seq::empty()
    } else {
        repeat(s, (k - 1) as nat) + s
    }
}

/// The text inside the box of a transferred object.
pub open spec fn pf_lf_text(pf: Seq<Seq<char>>, lf: Set<Seq<char>>) -> Seq<char> {
    "PF: ["@ + join(pf, " "@) + "]; LF: {"@ + join(canon(lf), ", "@) + "}"@
}

/// The width of the box of a transferred object: the number of bytes of its
/// text, plus two.
pub open spec fn box_width(t: Seq<char>) -> nat {
    (encode_utf8(t).len() as usize) as nat + 2
}

/// A line break where `newline` holds.
pub open spec fn line_end(newline: bool) -> Seq<char> {
    if newline {
        "\n"@
    } else {
        Seq::empty()
    }
}

/// The drawing of `so`, whose first line starts with `p1` and whose other
/// lines start with `p2`; it ends with a line break where `newline` holds.
/// `first` marks the object at the top of the drawing.
pub open spec fn so_display(so: SoModel, p1: Seq<char>, p2: Seq<char>, newline: bool, first: bool) -> Seq<char>
    decreases so, 0int,
{
    match so {
        SoModel::Lit(l) => p1 + (if first {
            Seq::empty()
        } else {
            "─ "@
        }) + lit_display(l) + line_end(newline),
        SoModel::SoSet(s) => if s.len() == 0 {
            p1 + (if first {
                Seq::empty()
            } else {
                "─ "@
            }) + "Ø"@ + line_end(newline)
        } else if s.len() == 1 {
            so_display(
                s[0],
                p1 + (if first {
                    " "@
                } else {
                    "─"@
                }) + "═"@,
                p2 + (if first {
                    " "@
                } else {
                    "─"@
                }) + " "@,
                newline,
                false,
            )
        } else {
            so_display(
                s[0],
                p1 + (if first {
                    " ╔"@
                } else {
                    "─╦"@
                }),
                p2 + " ║"@,
                true,
                false,
            ) + so_display_middle(s, 1, s.len() - 1, p2) + so_display(
                s[s.len() - 1],
                p2 + " ╚"@,
                p2 + "  "@,
                newline,
                false,
            )
        },
        SoModel::Transfer { so, pf, lf } => {
            let t = pf_lf_text(pf, lf);
            let bars = repeat("━"@, box_width(t));
            p1 + (if first {
                " ┏"@
            } else {
                "─┳"@
            }) + bars + "┓\n"@ + p2 + " ┃ "@ + t + " ┃\n"@ + p2 + " ┗"@ + bars + "┛"@ + line_end(
                newline,
            )
        },
        SoModel::WithFeature { so, .. } => so_display(*so, p1, p2, newline, first),
    }
}

/// The drawings of the members `lo` to `hi` (not included) of a set, each
/// on lines of their own.
pub open spec fn so_display_middle(s: Seq<SoModel>, lo: int, hi: int, p2: Seq<char>) -> Seq<char>
    decreases s, hi - lo,
{
    if lo >= hi || lo < 0 || hi > s.len() {
        Seq::empty()
    } else {
        so_display(s[lo], p2 + " ╠"@, p2 + " ║"@, true, false) + so_display_middle(s, lo + 1, hi, p2)
    }
}

/// The drawing of a syntactic object on its own.
pub open spec fn so_text(so: SoModel) -> Seq<char> {
    so_display(so, Seq::empty(), Seq::empty(), false, true)
}

/// A string made of `a` followed by `b`.
fn concat2(a: &str, b: &str) -> (r: String)
    ensures
        r@ == a@ + b@,
{
    let mut r = String::from_str(a);
    r.append(b);
    r
}

/// Append `s` `k` times.
fn append_repeated(out: &mut String, s: &str, k: usize)
    ensures
        final(out)@ == old(out)@ + repeat(s@, k as nat),
{
    let mut i: usize = 0;
    while i < k
        invariant
            i <= k,
            out@ == old(out)@ + repeat(s@, i as nat),
        decreases k - i,
    {
        out.append(s);
        i = i + 1;
    }
}

/// Append a line break where `newline` holds.
fn append_line_end(out: &mut String, newline: bool)
    ensures
        final(out)@ == old(out)@ + line_end(newline),
{
    if newline {
        out.append("\n");
    } else {
        assert(old(out)@ + line_end(newline) =~= old(out)@);
    }
}

/// Append the drawing of a lexical item token.
fn fmt_leaf(lit: &LexicalItemToken, prefix1: &str, newline: bool, first: bool, out: &mut String)
    ensures
        final(out)@ == old(out)@ + prefix1@ + (if first {
            Seq::empty()
        } else {
            "─ "@
        }) + lit_display(lit@) + line_end(newline),
{
    out.append(prefix1);
    if !first {
        out.append("─ ");
    }
    let t = lit.to_string();
    out.append(t.as_str());
    append_line_end(out, newline);
    assert(final(out)@ =~= old(out)@ + prefix1@ + (if first {
        Seq::empty()
    } else {
        "─ "@
    }) + lit_display(lit@) + line_end(newline));
}

/// Append the box that draws a transferred object.
fn fmt_transfer_box(
    pf: &Vec<Feature>,
    lf: &FeatureSet,
    prefix1: &str,
    prefix2: &str,
    newline: bool,
    first: bool,
    out: &mut String,
)
    ensures
        final(out)@ == old(out)@ + ({
            let t = pf_lf_text(fvec_view(pf@), lf@);
            let bars = repeat("━"@, box_width(t));
            prefix1@ + (if first {
                " ┏"@
            } else {
                "─┳"@
            }) + bars + "┓\n"@ + prefix2@ + " ┃ "@ + t + " ┃\n"@ + prefix2@ + " ┗"@ + bars + "┛"@
                + line_end(newline)
        }),
{
    let mut t = String::new();
    t.append("PF: [");
    append_joined(&mut t, pf, " ");
    t.append("]; LF: {");
    append_feature_set(&mut t, lf);
    t.append("}");
    assert(features_view(pf@) == fvec_view(pf@));
    assert(t@ =~= pf_lf_text(fvec_view(pf@), lf@));
    let n = t.as_str().len();
    let mut bars = String::new();
    append_repeated(&mut bars, "━", n);
    bars.append("━━");
    assert(repeat("━"@, n as nat + 2) =~= repeat("━"@, n as nat) + "━━"@) by {
        reveal_strlit("━");
        reveal_strlit("━━");
        assert(repeat("━"@, n as nat + 1) == repeat("━"@, n as nat) + "━"@);
    }
    out.append(prefix1);
    if first {
        out.append(" ┏");
    } else {
        out.append("─┳");
    }
    out.append(bars.as_str());
    out.append("┓\n");
    out.append(prefix2);
    out.append(" ┃ ");
    out.append(t.as_str());
    out.append(" ┃\n");
    out.append(prefix2);
    out.append(" ┗");
    out.append(bars.as_str());
    out.append("┛");
    append_line_end(out, newline);
    let ghost tt = pf_lf_text(fvec_view(pf@), lf@);
    let ghost bb = repeat("━"@, box_width(tt));
    assert(bars@ == bb);
    assert(final(out)@ =~= old(out)@ + (prefix1@ + (if first {
        " ┏"@
    } else {
        "─┳"@
    }) + bb + "┓\n"@ + prefix2@ + " ┃ "@ + tt + " ┃\n"@ + prefix2@ + " ┗"@ + bb + "┛"@
        + line_end(newline)));
}

impl SyntacticObject {
    /// Append the drawing of the object, whose first line starts with
    /// `prefix1` and whose other lines start with `prefix2`.
    #[verifier::rlimit(40)]
    fn fmt_with_prefix(&self, prefix1: &str, prefix2: &str, newline: bool, first: bool, out: &mut String)
        ensures
            final(out)@ == old(out)@ + so_display(self@, prefix1@, prefix2@, newline, first),
        decreases self,
    {
        match self {
            SyntacticObject::LexicalItemToken(lit) => {
                fmt_leaf(lit, prefix1, newline, first, out);
            },
            SyntacticObject::SoSet(v) => {
                proof {
                    lemma_so_seq_view(v@);
                }
                let ghost s = so_seq_view(v@);
                assert(self@ == SoModel::SoSet(s));
                if v.len() == 0 {
                    out.append(prefix1);
                    if !first {
                        out.append("─ ");
                    }
                    out.append("Ø");
                    append_line_end(out, newline);
                    assert(final(out)@ =~= old(out)@ + so_display(self@, prefix1@, prefix2@, newline, first));
                } else if v.len() == 1 {
                    let mut np1 = String::from_str(prefix1);
                    let mut np2 = String::from_str(prefix2);
                    if first {
                        np1.append(" ");
                        np2.append(" ");
                    } else {
                        np1.append("─");
                        np2.append("─");
                    }
                    np1.append("═");
                    np2.append(" ");
                    proof {
                        assert(decreases_to!(*self => self->SoSet_0));
                    }
                    v[0].fmt_with_prefix(np1.as_str(), np2.as_str(), newline, false, out);
                } else {
                    let np1 = if first {
                        concat2(prefix1, " ╔")
                    } else {
                        concat2(prefix1, "─╦")
                    };
                    let np2 = concat2(prefix2, " ║");
                    proof {
                        assert(decreases_to!(*self => self->SoSet_0));
                    }
                    let ghost o0 = out@;
                    v[0].fmt_with_prefix(np1.as_str(), np2.as_str(), true, false, out);
                    let ghost o1 = out@;
                    let hi = v.len() - 1;
                    let mp1 = concat2(prefix2, " ╠");
                    let mp2 = concat2(prefix2, " ║");
                    let mut i: usize = 1;
                    while i < hi
                        invariant
                            1 <= i <= hi,
                            hi == v.len() - 1,
                            *self == SyntacticObject::SoSet(*v),
                            s == so_seq_view(v@),
                            s.len() == v.len(),
                            forall|j: int| 0 <= j < v.len() ==> #[trigger] s[j] == so_view(v@[j]),
                            mp1@ == prefix2@ + " ╠"@,
                            mp2@ == prefix2@ + " ║"@,
                            o1 + so_display_middle(s, 1, hi as int, prefix2@) == out@
                                + so_display_middle(s, i as int, hi as int, prefix2@),
                        decreases hi - i,
                    {
                        proof {
                            assert(decreases_to!(*self => self->SoSet_0));
                        }
                        let ghost before = out@;
                        v[i].fmt_with_prefix(mp1.as_str(), mp2.as_str(), true, false, out);
                        assert(so_display_middle(s, i as int, hi as int, prefix2@) == so_display(
                            s[i as int],
                            prefix2@ + " ╠"@,
                            prefix2@ + " ║"@,
                            true,
                            false,
                        ) + so_display_middle(s, i + 1, hi as int, prefix2@));
                        assert(before + so_display_middle(s, i as int, hi as int, prefix2@) =~= out@
                            + so_display_middle(s, i + 1, hi as int, prefix2@));
                        i = i + 1;
                    }
                    assert(out@ + so_display_middle(s, i as int, hi as int, prefix2@) =~= out@);
                    let ghost o2 = out@;
                    let lp1 = concat2(prefix2, " ╚");
                    let lp2 = concat2(prefix2, "  ");
                    v[v.len() - 1].fmt_with_prefix(lp1.as_str(), lp2.as_str(), newline, false, out);
                    assert(final(out)@ =~= old(out)@ + so_display(self@, prefix1@, prefix2@, newline, first));
                }
            },
            SyntacticObject::Transfer { so, pf, lf } => {
                fmt_transfer_box(pf, lf, prefix1, prefix2, newline, first, out);
            },
            SyntacticObject::WithFeature { so, .. } => {
                so.fmt_with_prefix(prefix1, prefix2, newline, first, out);
            },
        }
    }

    /// The drawing of the syntactic object.
    pub fn to_string(&self) -> (r: String)
        ensures
            r@ == so_text(self@),
    {
        let mut out = String::new();
        proof {
            reveal_strlit("");
        }
        assert(""@ =~= Seq::<char>::empty());
        self.fmt_with_prefix("", "", false, true, &mut out);
        assert(out@ =~= so_text(self@));
        out
    }
}

} // verus!
