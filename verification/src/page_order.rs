//! Orderings of pages, built from orderings of their parts.
use vstd::prelude::*;
use std::cmp::Ordering;
use crate::file_server::{code_points, leading_number, page_before};
use crate::sorting::{keys_lt, lemma_seq_lt_asymmetric, lemma_seq_lt_irreflexive, lemma_seq_lt_total, seq_lt};

verus! {

/// `o1`, or `o2` where `o1` is `Equal`: the second ordering breaks ties of
/// the first.
pub open spec fn chained(o1: Ordering, o2: Ordering) -> Ordering {
    match o1 {
        Ordering::Equal => o2,
        _ => o1,
    }
}

/// Chains two orderings: the second breaks ties of the first.
pub fn chain_ordering(o1: Ordering, o2: Ordering) -> (o: Ordering)
    ensures
        o == chained(o1, o2),
{
    match o1 {
        Ordering::Equal => o2,
        _ => o1,
    }
}


/// The ordering of two values given which is smaller and which larger.
pub open spec fn ordering_of(lt: bool, gt: bool) -> Ordering {
    if lt {
        Ordering::Less
    } else if gt {
        Ordering::Greater
    } else {
        Ordering::Equal
    }
}

/// `Equal` is neutral on either side of a chain.
pub proof fn lemma_chain_equal_is_neutral(o: Ordering)
    ensures
        chained(Ordering::Equal, o) == o,
        chained(o, Ordering::Equal) == o,
{
}

/// Chaining the comparisons of the parts of two pairs compares the pairs
/// lexicographically: each comparison is given by whether the left value is
/// smaller and whether it is larger, which never hold together, and the pair
/// is smaller where its first part is, or where the first parts are equal and
/// its second part is.
pub proof fn lemma_chain_is_lexicographic(lt1: bool, gt1: bool, lt2: bool, gt2: bool)
    requires
        !(lt1 && gt1),
        !(lt2 && gt2),
    ensures
        chained(ordering_of(lt1, gt1), ordering_of(lt2, gt2)) == ordering_of(
            lt1 || (!lt1 && !gt1 && lt2),
            gt1 || (!lt1 && !gt1 && gt2),
        ),
{
}

/// Whether the key (number, name, position) of one page is lexicographically
/// smaller than that of another, names compared by their code points.
pub open spec fn page_key_lt(n1: int, s1: Seq<i64>, p1: int, n2: int, s2: Seq<i64>, p2: int) -> bool {
    n1 < n2 || (n1 == n2 && (seq_lt(s1, s2) || (s1 == s2 && p1 < p2)))
}

/// The chain that orders pages, number then name then position, compares
/// their keys lexicographically.
pub proof fn lemma_page_chain_is_lexicographic(n1: int, s1: Seq<i64>, p1: int, n2: int, s2: Seq<i64>, p2: int)
    ensures
        chained(
            ordering_of(n1 < n2, n1 > n2),
            chained(ordering_of(seq_lt(s1, s2), seq_lt(s2, s1)), ordering_of(p1 < p2, p1 > p2)),
        ) == ordering_of(page_key_lt(n1, s1, p1, n2, s2, p2), page_key_lt(n2, s2, p2, n1, s1, p1)),
{
    lemma_seq_lt_total(s1, s2);
    lemma_seq_lt_irreflexive(s1);
    if seq_lt(s1, s2) {
        lemma_seq_lt_asymmetric(s1, s2);
    }
    lemma_chain_is_lexicographic(seq_lt(s1, s2), seq_lt(s2, s1), p1 < p2, p1 > p2);
}

fn compare_numbers(a: usize, b: usize) -> (o: Ordering)
    ensures
        o == ordering_of(a < b, a > b),
{
    if a < b {
        Ordering::Less
    } else if a > b {
        Ordering::Greater
    } else {
        Ordering::Equal
    }
}

fn compare_names(a: &Vec<i64>, b: &Vec<i64>) -> (o: Ordering)
    ensures
        o == ordering_of(seq_lt(a@, b@), seq_lt(b@, a@)),
        o == Ordering::Equal <==> a@ == b@,
{
    proof {
        lemma_seq_lt_total(a@, b@);
        lemma_seq_lt_irreflexive(a@);
        if seq_lt(a@, b@) {
            lemma_seq_lt_asymmetric(a@, b@);
        }
    }
    if keys_lt(a, b) {
        Ordering::Less
    } else if keys_lt(b, a) {
        Ordering::Greater
    } else {
        Ordering::Equal
    }
}

/// Compares two pages by number, then name, then position.
fn compare_pages(numbers: &Vec<usize>, points: &Vec<Vec<i64>>, i: usize, j: usize, Ghost(names): Ghost<Seq<Seq<char>>>) -> (o: Ordering)
    requires
        i < numbers.len(),
        j < numbers.len(),
        numbers.len() == points.len(),
        names.len() == numbers.len(),
        forall|k: int| 0 <= k < numbers.len() ==> numbers@[k] == leading_number(#[trigger] names[k]),
        forall|k: int| 0 <= k < points.len() ==> points@[k]@ == code_points(#[trigger] names[k]),
    ensures
        (o == Ordering::Less) == page_before(names, i, j),
{
    let by_number = compare_numbers(numbers[i], numbers[j]);
    let by_name = compare_names(&points[i], &points[j]);
    let by_position = compare_numbers(i, j);
    chain_ordering(by_number, chain_ordering(by_name, by_position))
}

/// Whether page `i` comes before page `j`.
pub fn page_precedes(numbers: &Vec<usize>, points: &Vec<Vec<i64>>, i: usize, j: usize, Ghost(names): Ghost<Seq<Seq<char>>>) -> (b: bool)
    requires
        i < numbers.len(),
        j < numbers.len(),
        numbers.len() == points.len(),
        names.len() == numbers.len(),
        forall|k: int| 0 <= k < numbers.len() ==> numbers@[k] == leading_number(#[trigger] names[k]),
        forall|k: int| 0 <= k < points.len() ==> points@[k]@ == code_points(#[trigger] names[k]),
    ensures
        b == page_before(names, i, j),
{
    match compare_pages(numbers, points, i, j, Ghost(names)) {
        Ordering::Less => true,
        Ordering::Equal => false,
        Ordering::Greater => false,
    }
}

} // verus!
