//! Command-line flag handling: removing a bare flag, or a flag and the
//! argument that follows it, from an argument list.
use vstd::prelude::*;
use crate::text::{str_eq, str_views};

verus! {

proof fn lemma_filter_keeps_all(s: Seq<Seq<char>>, pred: spec_fn(Seq<char>) -> bool)
    requires
        forall|i: int| 0 <= i < s.len() ==> pred(#[trigger] s[i]),
    ensures
        s.filter(pred) == s,
    decreases s.len(),
{
    reveal(Seq::filter);
    if s.len() > 0 {
        lemma_filter_keeps_all(s.drop_last(), pred);
        assert(pred(s[s.len() - 1]));
        assert(s.drop_last().push(s.last()) =~= s);
    }
}

/// Removes every argument equal to `flag`, keeping the others in order, and
/// reports whether any was removed.
pub fn take_flag(args: &mut Vec<String>, flag: &str) -> (found: bool)
    ensures
        str_views(final(args)@) == str_views(old(args)@).filter(|a: Seq<char>| a != flag@),
        found == str_views(old(args)@).contains(flag@),
        !found ==> str_views(final(args)@) == str_views(old(args)@),
{
    let ghost orig = str_views(args@);
    let mut kept: Vec<String> = Vec::new();
    let mut found = false;
    let mut i: usize = 0;
    while i < args.len()
        invariant
            orig == str_views(args@),
            i <= args.len(),
            str_views(kept@) == orig.take(i as int).filter(|a: Seq<char>| a != flag@),
            found == orig.take(i as int).contains(flag@),
        decreases args.len() - i,
    {
        let same = str_eq(args[i].as_str(), flag);
        proof {
            reveal(Seq::filter);
            assert(orig.take(i + 1).drop_last() =~= orig.take(i as int));
            assert(orig.take(i + 1).last() == args@[i as int]@);
        }
        if same {
            found = true;
            assert(orig.take(i + 1)[i as int] == flag@);
        } else {
            kept.push(args[i].clone());
            assert(str_views(kept@) =~= str_views(kept@).drop_last().push(args@[i as int]@));
            proof {
                if orig.take(i + 1).contains(flag@) {
                    let j = choose|j: int| 0 <= j < i + 1 && #[trigger] orig.take(i + 1)[j] == flag@;
                    assert(orig.take(i as int)[j] == flag@);
                }
            }
        }
        proof {
            if found && !same {
                let j = choose|j: int| 0 <= j < i && #[trigger] orig.take(i as int)[j] == flag@;
                assert(orig.take(i + 1)[j] == flag@);
            }
        }
        i = i + 1;
    }
    assert(orig.take(i as int) =~= orig);
    proof {
        if !found {
            assert forall|j: int| 0 <= j < orig.len() implies orig[j] != flag@ by {
                if orig[j] == flag@ {
                    assert(orig.contains(flag@));
                }
            }
            lemma_filter_keeps_all(orig, |a: Seq<char>| a != flag@);
        }
    }
    *args = kept;
    found
}

/// The position of the first argument equal to `flag`, or the number of
/// arguments when there is none.
pub open spec fn first_occurrence(args: Seq<Seq<char>>, flag: Seq<char>) -> int
    decreases args.len(),
{
    if args.len() == 0 {
        0
    } else if args[0] == flag {
        0
    } else {
        1 + first_occurrence(args.drop_first(), flag)
    }
}

proof fn lemma_first_occurrence(args: Seq<Seq<char>>, flag: Seq<char>, k: int)
    requires
        0 <= k <= args.len(),
        forall|j: int| 0 <= j < k ==> args[j] != flag,
        k < args.len() ==> args[k] == flag,
    ensures
        first_occurrence(args, flag) == k,
    decreases args.len(),
{
    if args.len() > 0 && k > 0 {
        assert forall|j: int| 0 <= j < k - 1 implies args.drop_first()[j] != flag by {
            assert(args.drop_first()[j] == args[j + 1]);
        }
        lemma_first_occurrence(args.drop_first(), flag, k - 1);
    }
}

/// What taking a flag with its argument gives: the argument after the first
/// occurrence of the flag and the arguments without both, when an argument
/// follows that occurrence.
pub open spec fn taken_flag(args: Seq<Seq<char>>, flag: Seq<char>) -> Option<(Seq<char>, Seq<Seq<char>>)> {
    let k = first_occurrence(args, flag);
    if k + 1 < args.len() {
        Some((args[k + 1], args.remove(k + 1).remove(k)))
    } else {
        None
    }
}

/// Finds the first argument equal to `flag`; when an argument follows it,
/// removes both and returns the one that followed. When the flag is absent,
/// or its first occurrence is the last argument, nothing changes and `None`
/// comes back.
pub fn take_flag_with_arg(args: &mut Vec<String>, flag: &str) -> (r: Option<String>)
    ensures
        match r {
            Some(v) => exists|k: int|
                #![trigger old(args)@[k]]
                0 <= k && k + 1 < old(args)@.len() && old(args)@[k]@ == flag@ && (forall|j: int|
                    0 <= j < k ==> old(args)@[j]@ != flag@) && v@ == old(args)@[k + 1]@
                    && final(args)@ == old(args)@.remove(k + 1).remove(k),
            None => (forall|j: int| 0 <= j < old(args)@.len() - 1 ==> old(args)@[j]@ != flag@)
                && final(args)@ == old(args)@,
        },
        match taken_flag(str_views(old(args)@), flag@) {
            Some((v, rest)) => r matches Some(x) && x@ == v && str_views(final(args)@) == rest,
            None => r is None && final(args)@ == old(args)@,
        },
{
    let ghost orig = str_views(args@);
    let mut i: usize = 0;
    while i < args.len()
        invariant
            i <= args.len(),
            args@ == old(args)@,
            orig == str_views(old(args)@),
            forall|j: int| 0 <= j < i ==> args@[j]@ != flag@,
        decreases args.len() - i,
    {
        if str_eq(args[i].as_str(), flag) {
            if i + 1 < args.len() {
                let ghost before = args@;
                let next = args.remove(i + 1);
                args.remove(i);
                assert(before == old(args)@);
                assert(old(args)@[i as int]@ == flag@);
                assert(next@ == old(args)@[i + 1]@);
                proof {
                    assert forall|j: int| 0 <= j < i implies orig[j] != flag@ by {
                        assert(orig[j] == old(args)@[j]@);
                    }
                    lemma_first_occurrence(orig, flag@, i as int);
                    assert(str_views(args@) =~= orig.remove(i + 1).remove(i as int));
                }
                return Some(next);
            } else {
                assert(args@ == old(args)@);
                proof {
                    assert forall|j: int| 0 <= j < i implies orig[j] != flag@ by {
                        assert(orig[j] == old(args)@[j]@);
                    }
                    lemma_first_occurrence(orig, flag@, i as int);
                }
                return None;
            }
        }
        i = i + 1;
    }
    proof {
        assert forall|j: int| 0 <= j < i implies orig[j] != flag@ by {
            assert(orig[j] == old(args)@[j]@);
        }
        lemma_first_occurrence(orig, flag@, i as int);
    }
    None
}


proof fn lemma_first_occurrence_bounds(args: Seq<Seq<char>>, flag: Seq<char>)
    ensures
        0 <= first_occurrence(args, flag) <= args.len(),
    decreases args.len(),
{
    if args.len() > 0 {
        lemma_first_occurrence_bounds(args.drop_first(), flag);
    }
}

/// Taking a flag with its argument removes two arguments.
pub proof fn lemma_taken_flag_len(args: Seq<Seq<char>>, flag: Seq<char>)
    ensures
        taken_flag(args, flag) matches Some((v, rest)) ==> rest.len() == args.len() - 2,
{
    lemma_first_occurrence_bounds(args, flag);
}

/// The values of a flag given any number of times, under a long or a short
/// name (the long one is looked for first each time), and the arguments
/// left.
pub open spec fn collect_flag_values(args: Seq<Seq<char>>, long: Seq<char>, short: Seq<char>) -> (
    Seq<Seq<char>>,
    Seq<Seq<char>>,
)
    decreases args.len(),
{
    match taken_flag(args, long) {
        Some((v, rest)) => {
            proof {
                lemma_taken_flag_len(args, long);
            }
            let (vs, r) = collect_flag_values(rest, long, short);
            (seq![v] + vs, r)
        },
        None => match taken_flag(args, short) {
            Some((v, rest)) => {
                proof {
                    lemma_taken_flag_len(args, short);
                }
                let (vs, r) = collect_flag_values(rest, long, short);
                (seq![v] + vs, r)
            },
            None => (Seq::empty(), args),
        },
    }
}

/// Takes the values of a flag given any number of times, under a long or a
/// short name, in the order they are found.
pub fn take_flag_values(args: &mut Vec<String>, long: &str, short: &str) -> (values: Vec<String>)
    ensures
        (str_views(values@), str_views(final(args)@)) == collect_flag_values(
            str_views(old(args)@),
            long@,
            short@,
        ),
{
    let ghost orig = str_views(args@);
    let mut values: Vec<String> = Vec::new();
    loop
        invariant
            orig == str_views(old(args)@),
            collect_flag_values(orig, long@, short@) == (
                str_views(values@) + collect_flag_values(str_views(args@), long@, short@).0,
                collect_flag_values(str_views(args@), long@, short@).1,
            ),
        decreases args@.len(),
    {
        let ghost before = str_views(args@);
        let mut v = take_flag_with_arg(args, long);
        if v.is_none() {
            v = take_flag_with_arg(args, short);
        }
        proof {
            lemma_taken_flag_len(before, long@);
            lemma_taken_flag_len(before, short@);
        }
        match v {
            Some(x) => {
                let ghost prev = str_views(values@);
                values.push(x);
                assert(str_views(values@) =~= prev.push(x@));
                assert(str_views(values@) + collect_flag_values(str_views(args@), long@, short@).0 =~= prev
                    + (seq![x@] + collect_flag_values(str_views(args@), long@, short@).0));
            },
            None => {
                assert(collect_flag_values(str_views(args@), long@, short@) == (
                    Seq::<Seq<char>>::empty(),
                    str_views(args@),
                ));
                assert(str_views(values@) + Seq::<Seq<char>>::empty() =~= str_views(values@));
                return values;
            },
        }
    }
}

} // verus!
