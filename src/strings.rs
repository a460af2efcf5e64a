use vstd::prelude::*;
use vstd::utf8::encode_utf8;
use crate::sort::{
    sort_by_callback, total_preorder, reports, sorted_by, spec_comparison_of, CallbackReply,
    Comparison,
};

verus! {

/// Lexicographic comparison of `a` and `b` from position `i` on: the first
/// differing byte decides, and a proper prefix comes first.
pub open spec fn lex_cmp_from(a: Seq<u8>, b: Seq<u8>, i: nat) -> Comparison
    decreases a.len() - i,
{
    if i >= a.len() {
        if i >= b.len() {
            Comparison::Equal
        } else {
            Comparison::Less
        }
    } else if i >= b.len() {
        Comparison::Greater
    } else if a[i as int] < b[i as int] {
        Comparison::Less
    } else if a[i as int] > b[i as int] {
        Comparison::Greater
    } else {
        lex_cmp_from(a, b, i + 1)
    }
}

/// Lexicographic comparison of two byte sequences.
pub open spec fn lex_cmp(a: Seq<u8>, b: Seq<u8>) -> Comparison {
    lex_cmp_from(a, b, 0)
}

/// `a` sorts no later than `b`: their UTF-8 bytes, compared
/// lexicographically, do not put `a` after `b`.
pub open spec fn text_le(a: String, b: String) -> bool {
    lex_cmp(encode_utf8(a@), encode_utf8(b@)) != Comparison::Greater
}

proof fn lemma_lex_flip(a: Seq<u8>, b: Seq<u8>, i: nat)
    ensures
        lex_cmp_from(a, b, i) == Comparison::Greater <==> lex_cmp_from(b, a, i) == Comparison::Less,
        lex_cmp_from(a, b, i) == Comparison::Equal <==> lex_cmp_from(b, a, i) == Comparison::Equal,
    decreases a.len() - i,
{
    if i < a.len() && i < b.len() && a[i as int] == b[i as int] {
        lemma_lex_flip(a, b, i + 1);
    }
}

proof fn lemma_lex_le_trans(a: Seq<u8>, b: Seq<u8>, c: Seq<u8>, i: nat)
    requires
        lex_cmp_from(a, b, i) != Comparison::Greater,
        lex_cmp_from(b, c, i) != Comparison::Greater,
    ensures
        lex_cmp_from(a, c, i) != Comparison::Greater,
    decreases a.len() - i,
{
    if i < a.len() && i < b.len() && i < c.len() && a[i as int] == b[i as int] && b[i as int]
        == c[i as int] {
        lemma_lex_le_trans(a, b, c, i + 1);
    }
}

/// `text_le` is a total preorder, and so is its converse.
pub proof fn lemma_text_order()
    ensures
        total_preorder(|a: String, b: String| text_le(a, b)),
        total_preorder(|a: String, b: String| text_le(b, a)),
{
    assert forall|a: String, b: String| text_le(a, b) || text_le(b, a) by {
        lemma_lex_flip(encode_utf8(a@), encode_utf8(b@), 0);
    }
    assert forall|a: String, b: String, c: String| text_le(a, b) && text_le(b, c) implies text_le(
        a,
        c,
    ) by {
        lemma_lex_le_trans(encode_utf8(a@), encode_utf8(b@), encode_utf8(c@), 0);
    }
}

/// Compares the UTF-8 bytes of `a` and `b` lexicographically.
pub fn compare_text(a: &String, b: &String) -> (r: Comparison)
    ensures
        r == lex_cmp(encode_utf8(a@), encode_utf8(b@)),
{
    let x = a.as_str().as_bytes();
    let y = b.as_str().as_bytes();
    let mut i: usize = 0;
    while i < x.len() && i < y.len() && x[i] == y[i]
        invariant
            i <= x@.len(),
            i <= y@.len(),
            x@ == encode_utf8(a@),
            y@ == encode_utf8(b@),
            lex_cmp(x@, y@) == lex_cmp_from(x@, y@, i as nat),
        decreases x@.len() - i,
    {
        i = i + 1;
    }
    if i >= x.len() {
        if i >= y.len() {
            Comparison::Equal
        } else {
            Comparison::Less
        }
    } else if i >= y.len() {
        Comparison::Greater
    } else if x[i] < y[i] {
        Comparison::Less
    } else {
        Comparison::Greater
    }
}

/// The reply that stands for an ordering decision.
pub open spec fn reply_for(c: Comparison) -> CallbackReply {
    match c {
        Comparison::Less => CallbackReply::Negative,
        Comparison::Equal => CallbackReply::Zero,
        Comparison::Greater => CallbackReply::Positive,
    }
}

fn text_reply(a: &String, b: &String, ascending: bool) -> (r: CallbackReply)
    ensures
        r == reply_for(
            if ascending {
                lex_cmp(encode_utf8(a@), encode_utf8(b@))
            } else {
                lex_cmp(encode_utf8(b@), encode_utf8(a@))
            },
        ),
{
    let c = if ascending {
        compare_text(a, b)
    } else {
        compare_text(b, a)
    };
    match c {
        Comparison::Less => CallbackReply::Negative,
        Comparison::Equal => CallbackReply::Zero,
        Comparison::Greater => CallbackReply::Positive,
    }
}

/// Sorts strings by their UTF-8 bytes, ascending or descending. The result
/// is a permutation of `strings`.
pub fn sort_strings(strings: Vec<String>, ascending: bool) -> (r: Vec<String>)
    ensures
        r@.to_multiset() == strings@.to_multiset(),
        r@.len() == strings@.len(),
        ascending ==> sorted_by(r@, |a: String, b: String| text_le(a, b)),
        !ascending ==> sorted_by(r@, |a: String, b: String| text_le(b, a)),
{
    let compare = |a: &String, b: &String| -> (r: CallbackReply)
        ensures
            r == reply_for(
                if ascending {
                    lex_cmp(encode_utf8(a@), encode_utf8(b@))
                } else {
                    lex_cmp(encode_utf8(b@), encode_utf8(a@))
                },
            ),
        { text_reply(a, b, ascending) };
    let r = sort_by_callback(strings, compare);
    proof {
        lemma_text_order();
        let le = if ascending {
            |a: String, b: String| text_le(a, b)
        } else {
            |a: String, b: String| text_le(b, a)
        };
        assert forall|a: String, b: String, rep: CallbackReply| #[trigger]
            compare.ensures((&a, &b), rep) implies (le(a, b) <==> spec_comparison_of(rep)
            != Comparison::Greater) by {}
        assert(reports(compare, le));
        assert(sorted_by(r@, le));
    }
    r
}

} // verus!
