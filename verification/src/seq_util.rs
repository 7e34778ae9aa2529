//! Small sequence combinators used by the specifications.
use vstd::prelude::*;

verus! {

/// The present values of a sequence of options, in order.
pub open spec fn filter_some<T>(s: Seq<Option<T>>) -> Seq<T>
    decreases s.len(),
{
    if s.len() == 0 {
        seq![]
    } else {
        filter_some(s.drop_last()) + match s.last() {
            Some(x) => seq![x],
            None => seq![],
        }
    }
}

pub proof fn lemma_filter_some_take<T>(s: Seq<Option<T>>, k: int)
    requires
        0 <= k < s.len(),
    ensures
        filter_some(s.take(k + 1)) == filter_some(s.take(k)) + match s[k] {
            Some(x) => seq![x],
            None => seq![],
        },
{
    assert(s.take(k + 1).drop_last() =~= s.take(k));
    assert(s.take(k + 1).last() == s[k]);
}

/// Concatenation of a sequence of sequences, in order.
pub open spec fn concat_all<T>(s: Seq<Seq<T>>) -> Seq<T>
    decreases s.len(),
{
    if s.len() == 0 {
        seq![]
    } else {
        concat_all(s.drop_last()) + s.last()
    }
}

pub proof fn lemma_concat_all_take<T>(s: Seq<Seq<T>>, k: int)
    requires
        0 <= k < s.len(),
    ensures
        concat_all(s.take(k + 1)) == concat_all(s.take(k)) + s[k],
{
    assert(s.take(k + 1).drop_last() =~= s.take(k));
    assert(s.take(k + 1).last() == s[k]);
}

/// Every kept value comes from some present entry, and every present entry is kept.
pub proof fn lemma_filter_some_members<T>(s: Seq<Option<T>>)
    ensures
        forall|k: int|
            0 <= k < filter_some(s).len() ==> exists|i: int| 0 <= i < s.len() && s[i] == Some(#[trigger] filter_some(s)[k]),
        forall|i: int|
            0 <= i < s.len() && (#[trigger] s[i]) is Some ==> exists|k: int|
                0 <= k < filter_some(s).len() && Some(filter_some(s)[k]) == s[i],
    decreases s.len(),
{
    if s.len() > 0 {
        let init = s.drop_last();
        lemma_filter_some_members(init);
        let f0 = filter_some(init);
        let f = filter_some(s);
        assert forall|k: int| 0 <= k < f.len() implies exists|i: int| 0 <= i < s.len() && s[i] == Some(
            #[trigger] f[k],
        ) by {
            if k < f0.len() {
                assert(f[k] == f0[k]);
                let i = choose|i: int| 0 <= i < init.len() && init[i] == Some(f0[k]);
                assert(s[i] == init[i]);
            } else {
                assert(s[s.len() - 1] == Some(f[k]));
            }
        }
        assert forall|i: int| 0 <= i < s.len() && (#[trigger] s[i]) is Some implies exists|k: int|
            0 <= k < f.len() && Some(f[k]) == s[i] by {
            if i < s.len() - 1 {
                assert(init[i] == s[i]);
                let k = choose|k: int| 0 <= k < f0.len() && Some(f0[k]) == init[i];
                assert(f[k] == f0[k]);
            } else {
                assert(Some(f[f0.len() as int]) == s[i]);
            }
        }
    }
}

} // verus!
