//! Removing repeated items from a list, keeping the last of each.
use vstd::prelude::*;
use crate::text::{str_eq, str_views};

verus! {

/// Values that can be compared for sameness.
pub trait SameValue: Sized {
    spec fn same_spec(&self, other: &Self) -> bool;

    fn same(&self, other: &Self) -> (r: bool)
        ensures
            r == self.same_spec(other),
    ;
}

impl SameValue for String {
    open spec fn same_spec(&self, other: &Self) -> bool {
        self@ == other@
    }

    fn same(&self, other: &Self) -> (r: bool) {
        *self == *other
    }
}

impl<'a> SameValue for &'a str {
    open spec fn same_spec(&self, other: &Self) -> bool {
        (*self)@ == (*other)@
    }

    fn same(&self, other: &Self) -> (r: bool) {
        str_eq(*self, *other)
    }
}

impl SameValue for u64 {
    open spec fn same_spec(&self, other: &Self) -> bool {
        *self == *other
    }

    fn same(&self, other: &Self) -> (r: bool) {
        *self == *other
    }
}

/// Some later item is the same as the first.
pub open spec fn repeated_later<T: SameValue>(s: Seq<T>) -> bool {
    exists|j: int| 0 < j < s.len() && s[0].same_spec(&s[j])
}

/// The items of `s` that have no same item after them, in order.
pub open spec fn dedup_spec<T: SameValue>(s: Seq<T>) -> Seq<T>
    decreases s.len(),
{
    if s.len() == 0 {
        s
    } else if repeated_later(s) {
        dedup_spec(s.drop_first())
    } else {
        seq![s[0]] + dedup_spec(s.drop_first())
    }
}

/// Removes every item that has a same item after it: the last of each
/// group stays, in the order of the list.
pub fn dedup<T: SameValue>(list: &mut Vec<T>)
    ensures
        final(list)@ == dedup_spec(old(list)@),
{
    let ghost s = list@;
    let mut out: Vec<T> = Vec::new();
    let mut rest: Vec<T> = Vec::new();
    std::mem::swap(&mut rest, list);
    let mut i: usize = 0;
    let n = rest.len();
    assert(s.skip(0) =~= s);
    while rest.len() > 0
        invariant
            i + rest@.len() == s.len(),
            s.len() == n,
            rest@ == s.skip(i as int),
            out@ + dedup_spec(s.skip(i as int)) == dedup_spec(s),
        decreases rest@.len(),
    {
        let x = rest.remove(0);
        let mut later = false;
        let mut j: usize = 0;
        while j < rest.len()
            invariant
                j <= rest@.len(),
                later == exists|k: int| 0 <= k < j && x.same_spec(&rest@[k]),
            decreases rest@.len() - j,
        {
            if x.same(&rest[j]) {
                later = true;
            }
            j = j + 1;
        }
        proof {
            let t = s.skip(i as int);
            assert(t[0] == x);
            assert(t.drop_first() =~= rest@);
            assert(later == repeated_later(t)) by {
                if later {
                    let k = choose|k: int| 0 <= k < j && x.same_spec(&rest@[k]);
                    assert(t[k + 1] == rest@[k]);
                }
                if repeated_later(t) {
                    let k = choose|k: int| 0 < k < t.len() && t[0].same_spec(&t[k]);
                    assert(rest@[k - 1] == t[k]);
                }
            }
            assert(s.skip(i + 1) =~= t.drop_first());
        }
        if !later {
            let ghost old_out = out@;
            out.push(x);
            assert(out@ + dedup_spec(s.skip(i + 1)) =~= old_out + (seq![x] + dedup_spec(
                s.skip(i + 1),
            )));
        }
        i = i + 1;
    }
    assert(dedup_spec(s.skip(i as int)) =~= Seq::<T>::empty());
    assert(out@ =~= dedup_spec(s));
    *list = out;
}

/// No item of `s` has a same item after it.
pub open spec fn no_later_repeats<T: SameValue>(s: Seq<T>) -> bool {
    forall|i: int, j: int| 0 <= i < j < s.len() ==> !s[i].same_spec(&s[j])
}

proof fn lemma_dedup_subseq<T: SameValue>(s: Seq<T>, x: T)
    requires
        dedup_spec(s).contains(x),
    ensures
        exists|k: int| 0 <= k < s.len() && s[k] == x && !(exists|j: int| k < j < s.len() && x.same_spec(&#[trigger] s[j])),
    decreases s.len(),
{
    if s.len() > 0 {
        if repeated_later(s) {
            lemma_dedup_subseq(s.drop_first(), x);
            let k = choose|k: int|
                0 <= k < s.drop_first().len() && s.drop_first()[k] == x && !(exists|j: int|
                    k < j < s.drop_first().len() && x.same_spec(&#[trigger] s.drop_first()[j]));
            assert(s[k + 1] == x);
            assert forall|j: int| k + 1 < j < s.len() implies !x.same_spec(&#[trigger] s[j]) by {
                assert(s[j] == s.drop_first()[j - 1]);
            }
        } else {
            if x == s[0] {
                assert forall|j: int| 0 < j < s.len() implies !x.same_spec(&#[trigger] s[j]) by {}
            } else {
                assert(dedup_spec(s) == seq![s[0]] + dedup_spec(s.drop_first()));
                let i = choose|i: int| 0 <= i < dedup_spec(s).len() && dedup_spec(s)[i] == x;
                assert(dedup_spec(s.drop_first())[i - 1] == x);
                lemma_dedup_subseq(s.drop_first(), x);
                let k = choose|k: int|
                    0 <= k < s.drop_first().len() && s.drop_first()[k] == x && !(exists|j: int|
                        k < j < s.drop_first().len() && x.same_spec(&#[trigger] s.drop_first()[j]));
                assert(s[k + 1] == x);
                assert forall|j: int| k + 1 < j < s.len() implies !x.same_spec(&#[trigger] s[j]) by {
                    assert(s[j] == s.drop_first()[j - 1]);
                }
            }
        }
    }
}

/// What `dedup` leaves has no item with a same item after it.
pub proof fn lemma_dedup_no_later_repeats<T: SameValue>(s: Seq<T>)
    ensures
        no_later_repeats(dedup_spec(s)),
    decreases s.len(),
{
    if s.len() > 0 {
        lemma_dedup_no_later_repeats(s.drop_first());
        if !repeated_later(s) {
            let d = dedup_spec(s);
            let r = dedup_spec(s.drop_first());
            assert(d == seq![s[0]] + r);
            assert forall|i: int, j: int| 0 <= i < j < d.len() implies !d[i].same_spec(&d[j]) by {
                if i == 0 {
                    assert(d[j] == r[j - 1]);
                    assert(r.contains(r[j - 1]));
                    lemma_dedup_subseq(s.drop_first(), r[j - 1]);
                    let k = choose|k: int|
                        0 <= k < s.drop_first().len() && s.drop_first()[k] == r[j - 1] && !(exists|
                            m: int,
                        |
                            k < m < s.drop_first().len() && r[j - 1].same_spec(
                                &#[trigger] s.drop_first()[m],
                            ));
                    assert(s[k + 1] == d[j]);
                } else {
                    assert(d[i] == r[i - 1] && d[j] == r[j - 1]);
                }
            }
        }
    }
}


/// `dedup_spec` on the characters of strings: the items with no equal item
/// after them, in order.
pub open spec fn dedup_views(s: Seq<Seq<char>>) -> Seq<Seq<char>>
    decreases s.len(),
{
    if s.len() == 0 {
        s
    } else if exists|j: int| 0 < j < s.len() && s[0] == #[trigger] s[j] {
        dedup_views(s.drop_first())
    } else {
        seq![s[0]] + dedup_views(s.drop_first())
    }
}

/// `dedup` on strings keeps exactly the strings that `dedup_views` keeps.
pub proof fn lemma_dedup_views(s: Seq<String>)
    ensures
        str_views(dedup_spec(s)) == dedup_views(str_views(s)),
    decreases s.len(),
{
    let v = str_views(s);
    if s.len() > 0 {
        lemma_dedup_views(s.drop_first());
        assert(str_views(s.drop_first()) =~= v.drop_first());
        assert(repeated_later(s) <==> exists|j: int| 0 < j < v.len() && v[0] == #[trigger] v[j]) by {
            if repeated_later(s) {
                let j = choose|j: int| 0 < j < s.len() && s[0].same_spec(&s[j]);
                assert(v[0] == v[j]);
            }
            if exists|j: int| 0 < j < v.len() && v[0] == #[trigger] v[j] {
                let j = choose|j: int| 0 < j < v.len() && v[0] == #[trigger] v[j];
                assert(s[0].same_spec(&s[j]));
            }
        }
        if !repeated_later(s) {
            assert(str_views(seq![s[0]] + dedup_spec(s.drop_first())) =~= seq![v[0]] + str_views(
                dedup_spec(s.drop_first()),
            ));
        }
    }
}

/// What `dedup_views` keeps is among the items, and every item is kept
/// once: the result holds the same items, none twice.
pub proof fn lemma_dedup_views_items(s: Seq<Seq<char>>)
    ensures
        forall|t: Seq<char>| dedup_views(s).contains(t) <==> s.contains(t),
        dedup_views(s).no_duplicates(),
    decreases s.len(),
{
    if s.len() > 0 {
        let r = dedup_views(s.drop_first());
        lemma_dedup_views_items(s.drop_first());
        if exists|j: int| 0 < j < s.len() && s[0] == #[trigger] s[j] {
            let j = choose|j: int| 0 < j < s.len() && s[0] == #[trigger] s[j];
            assert forall|t: Seq<char>| r.contains(t) <==> s.contains(t) by {
                if s.contains(t) {
                    let k = choose|k: int| 0 <= k < s.len() && s[k] == t;
                    if k == 0 {
                        assert(s.drop_first()[j - 1] == t);
                    } else {
                        assert(s.drop_first()[k - 1] == t);
                    }
                    assert(s.drop_first().contains(t));
                }
                if r.contains(t) {
                    assert(s.drop_first().contains(t));
                    let k = choose|k: int| 0 <= k < s.drop_first().len() && s.drop_first()[k] == t;
                    assert(s[k + 1] == t);
                }
            }
            assert(dedup_views(s) == r);
        } else {
            let d = seq![s[0]] + r;
            assert(dedup_views(s) == d);
            assert forall|t: Seq<char>| d.contains(t) <==> s.contains(t) by {
                if s.contains(t) {
                    let k = choose|k: int| 0 <= k < s.len() && s[k] == t;
                    if k == 0 {
                        assert(d[0] == t);
                    } else {
                        assert(s.drop_first()[k - 1] == t);
                        assert(s.drop_first().contains(t));
                        assert(r.contains(t));
                        let m = choose|m: int| 0 <= m < r.len() && r[m] == t;
                        assert(d[m + 1] == t);
                    }
                }
                if d.contains(t) {
                    let k = choose|k: int| 0 <= k < d.len() && d[k] == t;
                    if k > 0 {
                        assert(r[k - 1] == t);
                        assert(r.contains(t));
                        assert(s.drop_first().contains(t));
                        let m = choose|m: int| 0 <= m < s.drop_first().len() && s.drop_first()[m] == t;
                        assert(s[m + 1] == t);
                    }
                }
            }
            assert(!r.contains(s[0])) by {
                if r.contains(s[0]) {
                    assert(s.drop_first().contains(s[0]));
                    let m = choose|m: int| 0 <= m < s.drop_first().len() && s.drop_first()[m] == s[0];
                    assert(s[m + 1] == s[0]);
                    assert(0 < m + 1 < s.len() && s[0] == s[m + 1]);
                }
            }
            assert forall|i: int, j: int| 0 <= i < d.len() && 0 <= j < d.len() && i != j implies d[i]
                != d[j] by {
                if i == 0 {
                    assert(d[j] == r[j - 1]);
                } else if j == 0 {
                    assert(d[i] == r[i - 1]);
                } else {
                    assert(d[i] == r[i - 1] && d[j] == r[j - 1]);
                }
            }
        }
    }
}

} // verus!
