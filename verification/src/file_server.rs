//! The pages of a comic archive: which entries are images and the order in
//! which they are read.
use vstd::prelude::*;
use crate::page_order::page_precedes;
use crate::sorting::{lemma_seq_lt_asymmetric, lemma_seq_lt_irreflexive, lemma_seq_lt_total, lemma_seq_lt_transitive, seq_lt};
use crate::text::{all_digits, chars_of, decimal_value, digit_value, is_digit, str_views};

verus! {

/// The extensions of image files.
pub const IMAGE_EXTENSIONS: [&'static str; 5] = ["jpg", "png", "jpeg", "gif", "svg"];

/// `s` ends with `t`.
pub open spec fn ends_with(s: Seq<char>, t: Seq<char>) -> bool {
    t.len() <= s.len() && s.subrange(s.len() - t.len(), s.len() as int) == t
}

/// A name is an image's when it ends with one of the image extensions
/// (letter case counts).
pub open spec fn is_image_name(name: Seq<char>) -> bool {
    exists|k: int| 0 <= k < 5 && ends_with(name, #[trigger] IMAGE_EXTENSIONS[k]@)
}

fn chars_end_with(s: &Vec<char>, t: &Vec<char>) -> (r: bool)
    ensures
        r == ends_with(s@, t@),
{
    if t.len() > s.len() {
        return false;
    }
    let off = s.len() - t.len();
    let mut i: usize = 0;
    while i < t.len()
        invariant
            i <= t.len(),
            off + t.len() == s.len(),
            forall|j: int| 0 <= j < i ==> s@[off + j] == t@[j],
        decreases t.len() - i,
    {
        if s[off + i] != t[i] {
            assert(s@.subrange(off as int, s@.len() as int)[i as int] != t@[i as int]);
            return false;
        }
        i = i + 1;
    }
    assert(s@.subrange(off as int, s@.len() as int) =~= t@);
    true
}

/// Whether a file name is an image's.
pub fn is_image(name: &str) -> (b: bool)
    ensures
        b == is_image_name(name@),
{
    let c = chars_of(name);
    let mut k: usize = 0;
    while k < 5
        invariant
            k <= 5,
            c@ == name@,
            forall|j: int| 0 <= j < k ==> !ends_with(name@, #[trigger] IMAGE_EXTENSIONS[j]@),
        decreases 5 - k,
    {
        let ext = chars_of(IMAGE_EXTENSIONS[k]);
        if chars_end_with(&c, &ext) {
            return true;
        }
        k = k + 1;
    }
    false
}

/// The digits at the front of `s`.
pub open spec fn leading_digits(s: Seq<char>) -> Seq<char>
    decreases s.len(),
{
    if s.len() > 0 && is_digit(s[0]) {
        seq![s[0]] + leading_digits(s.drop_first())
    } else {
        Seq::empty()
    }
}

/// The number at the front of a name; 0 where there is none or it does not
/// fit a `usize`.
pub open spec fn leading_number(s: Seq<char>) -> nat {
    let v = decimal_value(leading_digits(s));
    if v <= usize::MAX {
        v as nat
    } else {
        0
    }
}

proof fn lemma_leading_digits(s: Seq<char>, k: int)
    requires
        0 <= k <= s.len(),
        forall|j: int| 0 <= j < k ==> is_digit(s[j]),
        k < s.len() ==> !is_digit(s[k]),
    ensures
        leading_digits(s) == s.take(k),
    decreases s.len(),
{
    if k > 0 {
        assert forall|j: int| 0 <= j < k - 1 implies is_digit(s.drop_first()[j]) by {
            assert(s.drop_first()[j] == s[j + 1]);
        }
        lemma_leading_digits(s.drop_first(), k - 1);
        assert(seq![s[0]] + s.drop_first().take(k - 1) =~= s.take(k));
    } else {
        assert(s.take(0) =~= Seq::<char>::empty());
    }
}

proof fn lemma_decimal_grows(s: Seq<char>, k: int)
    requires
        all_digits(s),
        0 <= k <= s.len(),
    ensures
        decimal_value(s.take(k)) <= decimal_value(s),
        decimal_value(s.take(k)) >= 0,
    decreases s.len(),
{
    if s.len() > 0 {
        if k < s.len() {
            assert(s.drop_last().take(k) =~= s.take(k));
            lemma_decimal_grows(s.drop_last(), k);
        } else {
            assert(s.take(k) =~= s);
            lemma_decimal_grows(s.drop_last(), k - 1);
            assert(s.drop_last().take(k - 1) =~= s.drop_last());
        }
    } else {
        assert(s.take(k) =~= s);
    }
}

fn is_ascii_digit(ch: char) -> (b: bool)
    ensures
        b == is_digit(ch),
{
    let u = ch as u32;
    48 <= u && u <= 57
}

/// The number made of the digits at the front of a name; 0 where there are
/// none or they are too many for a `usize`.
pub fn get_leading_number(string: &str) -> (n: usize)
    ensures
        n == leading_number(string@),
{
    let c = chars_of(string);
    let mut k: usize = 0;
    while k < c.len() && is_ascii_digit(c[k])
        invariant
            k <= c.len(),
            c@ == string@,
            forall|j: int| 0 <= j < k ==> is_digit(c@[j]),
        decreases c.len() - k,
    {
        k = k + 1;
    }
    proof {
        lemma_leading_digits(c@, k as int);
    }
    let ghost digits = c@.take(k as int);
    let mut value: usize = 0;
    let mut i: usize = 0;
    while i < k
        invariant
            i <= k <= c.len(),
            digits == c@.take(k as int),
            leading_digits(string@) == digits,
            all_digits(digits),
            value == decimal_value(digits.take(i as int)),
        decreases k - i,
    {
        proof {
            assert(digits.take(i + 1).drop_last() =~= digits.take(i as int));
            assert(digits.take(i + 1).last() == c@[i as int]);
            lemma_decimal_grows(digits, i + 1);
        }
        assert(digits[i as int] == c@[i as int]);
        assert(is_digit(digits[i as int]));
        let d: usize = (c[i] as u32 - 48) as usize;
        assert(d == digit_value(c@[i as int]));
        assert(decimal_value(digits.take(i + 1)) == decimal_value(digits.take(i as int)) * 10 + d);
        if value > (usize::MAX - d) / 10 {
            proof {
                lemma_decimal_grows(digits, i + 1);
                assert(decimal_value(digits.take(i + 1)) == value * 10 + d) by (nonlinear_arith)
                    requires
                        decimal_value(digits.take(i + 1)) == decimal_value(digits.take(i as int)) * 10 + d,
                        value == decimal_value(digits.take(i as int)),
                ;
                assert(value * 10 + d > usize::MAX) by (nonlinear_arith)
                    requires
                        value > (usize::MAX - d) / 10,
                        d <= 9,
                ;
                lemma_decimal_grows(digits, k as int);
                assert(digits.take(k as int) =~= digits);
            }
            return 0;
        }
        proof {
            assert(value * 10 + d <= usize::MAX) by (nonlinear_arith)
                requires
                    value <= (usize::MAX - d) / 10,
                    d <= 9,
            ;
        }
        value = value * 10 + d;
        i = i + 1;
    }
    assert(digits.take(k as int) =~= digits);
    value
}

/// The code points of a name, by which names are compared.
pub open spec fn code_points(s: Seq<char>) -> Seq<i64> {
    s.map_values(|c: char| (c as u32) as i64)
}

/// Page `i` comes before page `j`: by the number at the front of the name,
/// then by the name, then by the position in the archive.
pub open spec fn page_lt(names: Seq<Seq<char>>, i: int, j: int) -> bool {
    let a = names[i];
    let b = names[j];
    ||| leading_number(a) < leading_number(b)
    ||| leading_number(a) == leading_number(b) && seq_lt(code_points(a), code_points(b))
    ||| leading_number(a) == leading_number(b) && code_points(a) == code_points(b) && i < j
}

/// `page_lt` on positions.
pub open spec fn page_before(names: Seq<Seq<char>>, i: usize, j: usize) -> bool {
    page_lt(names, i as int, j as int)
}

proof fn lemma_page_lt_order(names: Seq<Seq<char>>, i: int, j: int, k: int)
    ensures
        !page_lt(names, i, i),
        i != j ==> page_lt(names, i, j) || page_lt(names, j, i),
        page_lt(names, i, j) ==> !page_lt(names, j, i),
        page_lt(names, i, j) && page_lt(names, j, k) ==> page_lt(names, i, k),
{
    let (a, b, c) = (code_points(names[i]), code_points(names[j]), code_points(names[k]));
    lemma_seq_lt_irreflexive(a);
    lemma_seq_lt_total(a, b);
    if seq_lt(a, b) {
        lemma_seq_lt_asymmetric(a, b);
    }
    if seq_lt(b, a) {
        lemma_seq_lt_asymmetric(b, a);
    }
    if seq_lt(a, b) && seq_lt(b, c) {
        lemma_seq_lt_transitive(a, b, c);
    }
    if a == b && seq_lt(b, c) {
    }
}

/// A zip entry that is a page: a file whose name is an image's.
pub open spec fn is_page(files: Seq<(Seq<char>, bool)>, i: int) -> bool {
    0 <= i < files.len() && files[i].1 && is_image_name(files[i].0)
}

pub open spec fn entry_views(files: Seq<(String, bool)>) -> Seq<(Seq<char>, bool)> {
    files.map_values(|f: (String, bool)| (f.0@, f.1))
}

pub open spec fn entry_names(files: Seq<(Seq<char>, bool)>) -> Seq<Seq<char>> {
    files.map_values(|f: (Seq<char>, bool)| f.0)
}

/// `pages` lists each page of the archive once, in reading order.
pub open spec fn in_reading_order(files: Seq<(Seq<char>, bool)>, pages: Seq<usize>) -> bool {
    &&& forall|k: int| 0 <= k < pages.len() ==> is_page(files, #[trigger] pages[k] as int)
    &&& forall|i: int| is_page(files, i) ==> pages.contains(i as usize)
    &&& forall|a: int, b: int|
        0 <= a < b < pages.len() ==> page_lt(entry_names(files), #[trigger] pages[a] as int, #[trigger] pages[b] as int)
}

fn code_points_of(s: &str) -> (v: Vec<i64>)
    ensures
        v@ == code_points(s@),
{
    let c = chars_of(s);
    let mut v: Vec<i64> = Vec::new();
    let mut i: usize = 0;
    while i < c.len()
        invariant
            i <= c.len(),
            c@ == s@,
            v@ == code_points(c@.take(i as int)),
        decreases c.len() - i,
    {
        v.push((c[i] as u32) as i64);
        assert(code_points(c@.take(i + 1)) =~= code_points(c@.take(i as int)).push((c@[i as int] as u32) as i64));
        i = i + 1;
    }
    assert(c@.take(i as int) =~= c@);
    v
}

/// The pages of an archive in reading order, given each entry's name and
/// whether it is a file: the files whose names are images', ordered by the
/// number at the front of the name, then by name, then by position.
pub fn comic_pages(files: &Vec<(String, bool)>) -> (pages: Vec<usize>)
    ensures
        in_reading_order(entry_views(files@), pages@),
{
    let ghost fv = entry_views(files@);
    let ghost names = entry_names(fv);
    let mut numbers: Vec<usize> = Vec::new();
    let mut points: Vec<Vec<i64>> = Vec::new();
    let mut k: usize = 0;
    while k < files.len()
        invariant
            k <= files.len(),
            fv == entry_views(files@),
            names == entry_names(fv),
            numbers.len() == k,
            points.len() == k,
            forall|m: int| 0 <= m < k ==> numbers@[m] == leading_number(#[trigger] names[m]),
            forall|m: int| 0 <= m < k ==> points@[m]@ == code_points(#[trigger] names[m]),
        decreases files.len() - k,
    {
        assert(names[k as int] == files@[k as int].0@);
        numbers.push(get_leading_number(files[k].0.as_str()));
        points.push(code_points_of(files[k].0.as_str()));
        k = k + 1;
    }
    let mut pages: Vec<usize> = Vec::new();
    let mut i: usize = 0;
    while i < files.len()
        invariant
            i <= files.len(),
            fv == entry_views(files@),
            names == entry_names(fv),
            names.len() == files.len(),
            numbers.len() == files.len(),
            points.len() == files.len(),
            forall|m: int| 0 <= m < numbers.len() ==> numbers@[m] == leading_number(#[trigger] names[m]),
            forall|m: int| 0 <= m < points.len() ==> points@[m]@ == code_points(#[trigger] names[m]),
            forall|q: int| 0 <= q < pages.len() ==> is_page(fv, #[trigger] pages@[q] as int) && pages@[q] < i,
            forall|m: int| 0 <= m < i && is_page(fv, m) ==> pages@.contains(m as usize),
            forall|a: int, b: int|
                0 <= a < b < pages.len() ==> page_lt(names, #[trigger] pages@[a] as int, #[trigger] pages@[b] as int),
        decreases files.len() - i,
    {
        assert(fv[i as int] == (files@[i as int].0@, files@[i as int].1));
        if files[i].1 && is_image(files[i].0.as_str()) {
            let mut pos: usize = 0;
            while pos < pages.len() && !page_precedes(&numbers, &points, i, pages[pos], Ghost(names))
                invariant
                    pos <= pages.len(),
                    i < files.len(),
                    names.len() == files.len(),
                    numbers.len() == files.len(),
                    points.len() == files.len(),
                    forall|m: int| 0 <= m < numbers.len() ==> numbers@[m] == leading_number(#[trigger] names[m]),
                    forall|m: int| 0 <= m < points.len() ==> points@[m]@ == code_points(#[trigger] names[m]),
                    forall|q: int| 0 <= q < pages.len() ==> #[trigger] pages@[q] < i,
                    forall|q: int| 0 <= q < pos ==> page_lt(names, #[trigger] pages@[q] as int, i as int),
                decreases pages.len() - pos,
            {
                proof {
                    lemma_page_lt_order(names, pages@[pos as int] as int, i as int, 0);
                }
                pos = pos + 1;
            }
            let ghost before = pages@;
            proof {
                if pos < pages.len() {
                    lemma_page_lt_order(names, pages@[pos as int] as int, i as int, 0);
                    assert(page_lt(names, i as int, pages@[pos as int] as int));
                }
            }
            pages.insert(pos, i);
            proof {
                assert(pages@ == before.insert(pos as int, i));
                assert forall|a: int, b: int| 0 <= a < b < pages.len() implies page_lt(
                    names,
                    #[trigger] pages@[a] as int,
                    #[trigger] pages@[b] as int,
                ) by {
                    if b < pos {
                        assert(pages@[a] == before[a] && pages@[b] == before[b]);
                    } else if b == pos {
                        assert(pages@[a] == before[a]);
                    } else if a == pos {
                        assert(pages@[b] == before[b - 1]);
                        if b - 1 > pos {
                            assert(page_lt(names, before[pos as int] as int, before[b - 1] as int));
                            lemma_page_lt_order(names, i as int, before[pos as int] as int, before[b - 1] as int);
                        }
                    } else if a < pos {
                        assert(pages@[a] == before[a] && pages@[b] == before[b - 1]);
                        assert(page_lt(names, before[a] as int, i as int));
                        assert(page_lt(names, i as int, before[pos as int] as int));
                        if b - 1 > pos {
                            assert(page_lt(names, before[pos as int] as int, before[b - 1] as int));
                            lemma_page_lt_order(names, i as int, before[pos as int] as int, before[b - 1] as int);
                        }
                        lemma_page_lt_order(names, before[a] as int, i as int, before[b - 1] as int);
                    } else {
                        assert(pages@[a] == before[a - 1] && pages@[b] == before[b - 1]);
                    }
                }
                assert forall|m: int| 0 <= m < i + 1 && is_page(fv, m) implies pages@.contains(m as usize) by {
                    if m == i {
                        assert(pages@[pos as int] == i);
                    } else {
                        assert(before.contains(m as usize));
                        let q = choose|q: int| 0 <= q < before.len() && before[q] == m as usize;
                        if q < pos {
                            assert(pages@[q] == before[q]);
                        } else {
                            assert(pages@[q + 1] == before[q]);
                        }
                    }
                }
                assert forall|q: int| 0 <= q < pages.len() implies is_page(fv, #[trigger] pages@[q] as int) && pages@[q] < i + 1 by {
                    if q < pos {
                        assert(pages@[q] == before[q]);
                    } else if q > pos {
                        assert(pages@[q] == before[q - 1]);
                    }
                }
            }
        }
        i = i + 1;
    }
    pages
}

} // verus!
