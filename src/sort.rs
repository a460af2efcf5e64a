use vstd::prelude::*;
use vstd::multiset::Multiset;

verus! {

broadcast use vstd::seq_lib::group_to_multiset_ensures;

/// What a host comparison callback handed back for one pair `(a, b)`.
pub enum CallbackReply {
    /// A number below zero: `a` goes first.
    Negative,
    /// Zero.
    Zero,
    /// A number above zero: `b` goes first.
    Positive,
    /// A value that is not a number.
    NotNumeric,
    /// The callback raised a failure.
    Failed,
}

/// The ordering decision for one compared pair.
#[derive(Clone, Copy, Debug, PartialEq, Eq, Structural)]
pub enum Comparison {
    Less,
    Equal,
    Greater,
}

/// A negative reply orders `a` first, a positive one `b` first; zero, a
/// non-numeric reply and a failure all count as equal.
pub open spec fn spec_comparison_of(reply: CallbackReply) -> Comparison {
    match reply {
        CallbackReply::Negative => Comparison::Less,
        CallbackReply::Positive => Comparison::Greater,
        _ => Comparison::Equal,
    }
}

/// The ordering decision that a callback reply stands for.
pub fn comparison_of(reply: &CallbackReply) -> (r: Comparison)
    ensures
        r == spec_comparison_of(*reply),
{
    match reply {
        CallbackReply::Negative => Comparison::Less,
        CallbackReply::Positive => Comparison::Greater,
        _ => Comparison::Equal,
    }
}

/// `le` is total and transitive.
pub open spec fn total_preorder<T>(le: spec_fn(T, T) -> bool) -> bool {
    &&& forall|a: T, b: T| #[trigger] le(a, b) || le(b, a)
    &&& forall|a: T, b: T, c: T| #[trigger] le(a, b) && #[trigger] le(b, c) ==> le(a, c)
}

/// Every reply that `compare` can give on `(a, b)` orders `b` first exactly
/// when `le(a, b)` fails.
pub open spec fn reports<T, F: Fn(&T, &T) -> CallbackReply>(
    compare: F,
    le: spec_fn(T, T) -> bool,
) -> bool {
    forall|a: T, b: T, r: CallbackReply| #[trigger]
        compare.ensures((&a, &b), r) ==> (le(a, b) <==> spec_comparison_of(r)
            != Comparison::Greater)
}

/// `s` is in order under `le`.
pub open spec fn sorted_by<T>(s: Seq<T>, le: spec_fn(T, T) -> bool) -> bool {
    forall|i: int, j: int| 0 <= i < j < s.len() ==> #[trigger] le(s[i], s[j])
}

/// No reply of `compare` ever orders the second element first: it fails,
/// or reports "less" or "equal", on every pair.
pub open spec fn never_greater<T, F: Fn(&T, &T) -> CallbackReply>(compare: F) -> bool {
    forall|a: T, b: T, r: CallbackReply| #[trigger]
        compare.ensures((&a, &b), r) ==> spec_comparison_of(r) != Comparison::Greater
}

/// `compare` replied on `(a, b)` that `b` goes first.
pub open spec fn gave_greater<T, F: Fn(&T, &T) -> CallbackReply>(compare: F, a: T, b: T) -> bool {
    exists|r: CallbackReply| #[trigger]
        compare.ensures((&a, &b), r) && spec_comparison_of(r) == Comparison::Greater
}

/// `compare` replied on `(a, b)` that `b` need not go first.
pub open spec fn gave_not_greater<T, F: Fn(&T, &T) -> CallbackReply>(
    compare: F,
    a: T,
    b: T,
) -> bool {
    exists|r: CallbackReply| #[trigger]
        compare.ensures((&a, &b), r) && spec_comparison_of(r) != Comparison::Greater
}

proof fn lemma_insert_keeps_order<T, F: Fn(&T, &T) -> CallbackReply>(
    compare: F,
    s: Seq<T>,
    j: int,
    x: T,
    le: spec_fn(T, T) -> bool,
)
    requires
        0 <= j <= s.len(),
        total_preorder(le),
        reports(compare, le),
        sorted_by(s, le),
        forall|k: int| j <= k < s.len() ==> #[trigger] gave_greater(compare, s[k], x),
        j > 0 ==> gave_not_greater(compare, s[j - 1], x),
    ensures
        sorted_by(s.insert(j, x), le),
{
    let t = s.insert(j, x);
    if j > 0 {
        let r = choose|r: CallbackReply| #[trigger]
            compare.ensures((&s[j - 1], &x), r) && spec_comparison_of(r) != Comparison::Greater;
        assert(le(s[j - 1], x));
    }
    assert forall|p: int, q: int| 0 <= p < q < t.len() implies #[trigger] le(t[p], t[q]) by {
        if p < j && q == j {
            if p < j - 1 {
                assert(le(s[p], s[j - 1]));
            }
        } else if p == j {
            assert(gave_greater(compare, s[q - 1], x));
            let r = choose|r: CallbackReply| #[trigger]
                compare.ensures((&s[q - 1], &x), r) && spec_comparison_of(r)
                    == Comparison::Greater;
            assert(!le(s[q - 1], x));
            assert(le(x, s[q - 1]) || le(s[q - 1], x));
        } else if q < j {
            assert(le(s[p], s[q]));
        } else if p < j {
            assert(le(s[p], s[q - 1]));
        } else {
            assert(le(s[p - 1], s[q - 1]));
        }
    }
}

/// Sorts `values` with a caller-supplied comparison callback (insertion
/// sort). Each call passes two elements in their current relative order.
/// Whatever the callback replies, the result is a permutation of `values`;
/// whenever its replies agree with a total preorder, the result is in that
/// order. A callback that never orders the second element first (one that
/// always fails, say) leaves `values` as they are.
pub fn sort_by_callback<T, F: Fn(&T, &T) -> CallbackReply>(values: Vec<T>, compare: F) -> (r: Vec<
    T,
>)
    requires
        forall|a: &T, b: &T| #[trigger] compare.requires((a, b)),
    ensures
        r@.to_multiset() == values@.to_multiset(),
        r@.len() == values@.len(),
        forall|le: spec_fn(T, T) -> bool|
            total_preorder(le) && reports(compare, le) ==> #[trigger] sorted_by(r@, le),
        never_greater(compare) ==> r@ == values@,
{
    let mut rest = values;
    let mut sorted: Vec<T> = Vec::new();
    let ghost mut done: int = 0;
    while rest.len() > 0
        invariant
            0 <= done <= values@.len(),
            rest@ == values@.subrange(done, values@.len() as int),
            never_greater(compare) ==> sorted@ == values@.subrange(0, done),
            forall|a: &T, b: &T| #[trigger] compare.requires((a, b)),
            sorted@.to_multiset().add(rest@.to_multiset()) == values@.to_multiset(),
            forall|le: spec_fn(T, T) -> bool|
                total_preorder(le) && reports(compare, le) ==> #[trigger] sorted_by(sorted@, le),
        decreases rest@.len(),
    {
        let ghost rest_before = rest@;
        let x = rest.remove(0);
        let mut j: usize = sorted.len();
        loop
            invariant
                forall|a: &T, b: &T| #[trigger] compare.requires((a, b)),
                j <= sorted@.len(),
                forall|k: int| j <= k < sorted@.len() ==> #[trigger] gave_greater(compare, sorted@[k], x),
            ensures
                j <= sorted@.len(),
                forall|k: int| j <= k < sorted@.len() ==> #[trigger] gave_greater(compare, sorted@[k], x),
                j > 0 ==> gave_not_greater(compare, sorted@[j as int - 1], x),
            decreases j,
        {
            if j == 0 {
                break;
            }
            let reply = compare(&sorted[j - 1], &x);
            if comparison_of(&reply) == Comparison::Greater {
                assert(gave_greater(compare, sorted@[j - 1], x));
                j = j - 1;
            } else {
                assert(gave_not_greater(compare, sorted@[j - 1], x));
                break;
            }
        }
        let ghost sorted_before = sorted@;
        assert forall|le: spec_fn(T, T) -> bool|
            total_preorder(le) && reports(compare, le) implies #[trigger] sorted_by(
            sorted_before.insert(j as int, x),
            le,
        ) by {
            lemma_insert_keeps_order(compare, sorted_before, j as int, x, le);
        }
        proof {
            if never_greater(compare) && j < sorted@.len() {
                assert(gave_greater(compare, sorted_before[j as int], x));
                let r = choose|r: CallbackReply| #[trigger]
                    compare.ensures((&sorted_before[j as int], &x), r) && spec_comparison_of(r)
                        == Comparison::Greater;
            }
        }
        sorted.insert(j, x);
        assert(rest_before.remove(0) == rest@);
        proof {
            if never_greater(compare) {
                assert(sorted@ =~= values@.subrange(0, done + 1));
            }
            assert(rest@ =~= values@.subrange(done + 1, values@.len() as int));
            done = done + 1;
        }
    }
    assert(done == values@.len());
    assert(values@.subrange(0, done) =~= values@);
    assert(rest@.to_multiset() =~= Multiset::empty());
    assert(sorted@.to_multiset().len() == values@.to_multiset().len());
    sorted
}

} // verus!
