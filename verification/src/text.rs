//! Character-level helpers on strings: equality, prefixes, substring search,
//! trimming, splitting and decimal parsing, each with its mathematical meaning.
use vstd::prelude::*;

verus! {

/// The character views of a sequence of strings.
pub open spec fn str_views(v: Seq<String>) -> Seq<Seq<char>> {
    v.map_values(|s: String| s@)
}

/// The characters of `s`, in order.
pub(crate) fn chars_of(s: &str) -> (res: Vec<char>)
    ensures
        res@ == s@,
{
    broadcast use vstd::string::axiom_spec_iter;
    let mut res: Vec<char> = Vec::new();
    for c in it: s.chars()
        invariant
            res.len() == it.index(),
            forall|i: int| 0 <= i < res.len() ==> res@[i] == it.seq()[i],
            it.seq() == s@,
    {
        res.push(c);
    }
    assert(res@ =~= s@);
    res
}

/// Calls `String::from_iter` on characters: the string made of exactly `v`.
#[verifier::external_body]
pub(crate) fn string_of(v: &[char]) -> (res: String)
    ensures
        res@ == v@,
{
    v.iter().collect()
}

/// Calls `String::push`: appends one character.
#[verifier::external_body]
pub(crate) fn push_char(s: &mut String, c: char)
    ensures
        final(s)@ == old(s)@.push(c),
{
    s.push(c)
}

/// What `str::to_lowercase` returns for a string: its Unicode lowercase
/// mapping, which lowers each character on its own but for a capital sigma,
/// lowered by the letters around it.
pub uninterp spec fn lowercase(s: Seq<char>) -> Seq<char>;

/// Calls `str::to_lowercase`. Its result is named by `lowercase`, a function of
/// the characters of the argument alone; the full Unicode mapping is not written out.
#[verifier::external_body]
pub(crate) fn to_lowercase(s: &str) -> (res: String)
    ensures
        res@ == lowercase(s@),
{
    s.to_lowercase()
}

/// Two character vectors hold the same characters.
pub fn chars_eq(a: &Vec<char>, b: &Vec<char>) -> (r: bool)
    ensures
        r == (a@ == b@),
{
    if a.len() != b.len() {
        return false;
    }
    let mut i: usize = 0;
    while i < a.len()
        invariant
            a.len() == b.len(),
            i <= a.len(),
            forall|j: int| 0 <= j < i ==> a@[j] == b@[j],
        decreases a.len() - i,
    {
        if a[i] != b[i] {
            return false;
        }
        i = i + 1;
    }
    assert(a@ =~= b@);
    true
}

/// String equality by characters.
pub fn str_eq(a: &str, b: &str) -> (r: bool)
    ensures
        r == (a@ == b@),
{
    let ca = chars_of(a);
    let cb = chars_of(b);
    chars_eq(&ca, &cb)
}

/// `needle` occurs in `hay` starting at position `i`.
pub open spec fn occurs_at(hay: Seq<char>, needle: Seq<char>, i: int) -> bool {
    0 <= i && i + needle.len() <= hay.len() && hay.subrange(i, i + needle.len()) == needle
}

/// `needle` occurs somewhere in `hay` (the empty needle occurs everywhere).
pub open spec fn is_substring(needle: Seq<char>, hay: Seq<char>) -> bool {
    exists|i: int| occurs_at(hay, needle, i)
}

fn occurs_at_exec(hay: &Vec<char>, needle: &Vec<char>, i: usize) -> (r: bool)
    requires
        i + needle.len() <= hay.len(),
    ensures
        r == occurs_at(hay@, needle@, i as int),
{
    let mut k: usize = 0;
    while k < needle.len()
        invariant
            i + needle.len() <= hay.len(),
            k <= needle.len(),
            forall|j: int| 0 <= j < k ==> hay@[i + j] == needle@[j],
        decreases needle.len() - k,
    {
        if hay[i + k] != needle[k] {
            assert(hay@.subrange(i as int, i + needle.len())[k as int] != needle@[k as int]);
            return false;
        }
        k = k + 1;
    }
    assert(hay@.subrange(i as int, i + needle.len()) =~= needle@);
    true
}

/// Substring search on characters: does `needle` occur in `hay`?
pub fn contains_chars(hay: &Vec<char>, needle: &Vec<char>) -> (r: bool)
    ensures
        r == is_substring(needle@, hay@),
{
    if needle.len() > hay.len() {
        assert forall|i: int| !occurs_at(hay@, needle@, i) by {}
        return false;
    }
    let last = hay.len() - needle.len();
    let mut i: usize = 0;
    loop
        invariant
            last == hay.len() - needle.len(),
            needle.len() <= hay.len(),
            i <= last,
            forall|j: int| 0 <= j < i ==> !occurs_at(hay@, needle@, j),
        ensures
            forall|j: int| 0 <= j <= last ==> !occurs_at(hay@, needle@, j),
        decreases last - i,
    {
        let here = occurs_at_exec(hay, needle, i);
        if here {
            return true;
        }
        if i == last {
            break;
        }
        i = i + 1;
    }
    false
}

/// `str::contains` with a string pattern.
pub fn str_contains(hay: &str, needle: &str) -> (r: bool)
    ensures
        r == is_substring(needle@, hay@),
{
    let h = chars_of(hay);
    let n = chars_of(needle);
    contains_chars(&h, &n)
}

/// The characters that Rust's `char::is_whitespace` accepts: those with the
/// Unicode `White_Space` property.
pub open spec fn is_white_space(c: char) -> bool {
    let u = c as u32;
    ||| 0x9 <= u <= 0xd
    ||| u == 0x20
    ||| u == 0x85
    ||| u == 0xa0
    ||| u == 0x1680
    ||| 0x2000 <= u <= 0x200a
    ||| u == 0x2028
    ||| u == 0x2029
    ||| u == 0x202f
    ||| u == 0x205f
    ||| u == 0x3000
}

pub fn is_white_space_exec(c: char) -> (r: bool)
    ensures
        r == is_white_space(c),
{
    let u = c as u32;
    (0x9 <= u && u <= 0xd) || u == 0x20 || u == 0x85 || u == 0xa0 || u == 0x1680 || (0x2000 <= u
        && u <= 0x200a) || u == 0x2028 || u == 0x2029 || u == 0x202f || u == 0x205f || u == 0x3000
}

/// The number of white-space characters at the front of `s`.
pub open spec fn leading_white(s: Seq<char>) -> nat
    decreases s.len(),
{
    if s.len() > 0 && is_white_space(s[0]) {
        1 + leading_white(s.drop_first())
    } else {
        0
    }
}

/// The number of white-space characters at the back of `s`.
pub open spec fn trailing_white(s: Seq<char>) -> nat
    decreases s.len(),
{
    if s.len() > 0 && is_white_space(s.last()) {
        1 + trailing_white(s.drop_last())
    } else {
        0
    }
}

/// What `str::trim` returns: `s` without its leading and trailing white space.
pub open spec fn trim(s: Seq<char>) -> Seq<char> {
    let front = s.skip(leading_white(s) as int);
    front.take(front.len() - trailing_white(front))
}

proof fn lemma_leading_white_bound(s: Seq<char>)
    ensures
        leading_white(s) <= s.len(),
        forall|j: int| 0 <= j < leading_white(s) ==> is_white_space(s[j]),
        leading_white(s) < s.len() ==> !is_white_space(s[leading_white(s) as int]),
    decreases s.len(),
{
    if s.len() > 0 && is_white_space(s[0]) {
        lemma_leading_white_bound(s.drop_first());
        assert forall|j: int| 0 <= j < leading_white(s) implies is_white_space(s[j]) by {
            if j > 0 {
                assert(s[j] == s.drop_first()[j - 1]);
            }
        }
    }
}

proof fn lemma_trailing_white_bound(s: Seq<char>)
    ensures
        trailing_white(s) <= s.len(),
        forall|j: int| s.len() - trailing_white(s) <= j < s.len() ==> is_white_space(s[j]),
        trailing_white(s) < s.len() ==> !is_white_space(
            s[s.len() - trailing_white(s) - 1],
        ),
    decreases s.len(),
{
    if s.len() > 0 && is_white_space(s.last()) {
        lemma_trailing_white_bound(s.drop_last());
        assert forall|j: int| s.len() - trailing_white(s) <= j < s.len() implies is_white_space(
            s[j],
        ) by {
            if j < s.len() - 1 {
                assert(s[j] == s.drop_last()[j]);
            }
        }
    }
}

proof fn lemma_leading_white_unique(s: Seq<char>, k: int)
    requires
        0 <= k <= s.len(),
        forall|j: int| 0 <= j < k ==> is_white_space(s[j]),
        k < s.len() ==> !is_white_space(s[k]),
    ensures
        leading_white(s) == k,
    decreases s.len(),
{
    if k > 0 {
        lemma_leading_white_unique(s.drop_first(), k - 1);
    }
}

proof fn lemma_trailing_white_unique(s: Seq<char>, k: int)
    requires
        0 <= k <= s.len(),
        forall|j: int| s.len() - k <= j < s.len() ==> is_white_space(s[j]),
        k < s.len() ==> !is_white_space(s[s.len() - k - 1]),
    ensures
        trailing_white(s) == k,
    decreases s.len(),
{
    if k > 0 {
        assert forall|j: int|
            s.drop_last().len() - (k - 1) <= j < s.drop_last().len() implies is_white_space(
            s.drop_last()[j],
        ) by {
            assert(s.drop_last()[j] == s[j]);
        }
        lemma_trailing_white_unique(s.drop_last(), k - 1);
    }
}

/// `str::trim`: removes leading and trailing Unicode white space.
pub fn trim_str(s: &str) -> (res: String)
    ensures
        res@ == trim(s@),
{
    let c = chars_of(s);
    let mut lo: usize = 0;
    while lo < c.len() && is_white_space_exec(c[lo])
        invariant
            lo <= c.len(),
            forall|j: int| 0 <= j < lo ==> is_white_space(c@[j]),
        decreases c.len() - lo,
    {
        lo = lo + 1;
    }
    proof {
        lemma_leading_white_unique(c@, lo as int);
    }
    let mut hi: usize = c.len();
    while hi > lo && is_white_space_exec(c[hi - 1])
        invariant
            lo <= hi <= c.len(),
            forall|j: int| hi <= j < c.len() ==> is_white_space(c@[j]),
        decreases hi,
    {
        hi = hi - 1;
    }
    let ghost front = c@.skip(lo as int);
    proof {
        assert forall|j: int| front.len() - (c.len() - hi) <= j < front.len() implies is_white_space(
            front[j],
        ) by {
            assert(front[j] == c@[lo + j]);
        }
        if hi > lo {
            assert(front[front.len() - (c.len() - hi) - 1] == c@[hi - 1]);
        }
        lemma_trailing_white_unique(front, (c.len() - hi) as int);
    }
    let mut out: Vec<char> = Vec::new();
    let mut k: usize = lo;
    while k < hi
        invariant
            lo <= k <= hi <= c.len(),
            out@ == c@.subrange(lo as int, k as int),
        decreases hi - k,
    {
        out.push(c[k]);
        assert(c@.subrange(lo as int, k + 1) =~= c@.subrange(lo as int, k as int).push(c@[k as int]));
        k = k + 1;
    }
    assert(out@ =~= trim(s@));
    string_of(out.as_slice())
}

// ---------------------------------------------------------------------------
// Decimal numbers, as Rust's `FromStr` for the integer types reads them.
/// An ASCII decimal digit (what `char::to_digit(10)` accepts).
pub open spec fn is_digit(c: char) -> bool {
    48 <= (c as u32) && (c as u32) <= 57
}

pub open spec fn digit_value(c: char) -> int {
    (c as u32) - 48
}

pub open spec fn all_digits(s: Seq<char>) -> bool {
    forall|i: int| 0 <= i < s.len() ==> is_digit(s[i])
}

/// The value of a string of decimal digits.
pub open spec fn decimal_value(s: Seq<char>) -> int
    decreases s.len(),
{
    if s.len() == 0 {
        0
    } else {
        decimal_value(s.drop_last()) * 10 + digit_value(s.last())
    }
}

/// What `FromStr` for an integer type with range `lo..=hi` returns: an optional
/// `+` (or `-` when the type is signed), then at least one ASCII digit and
/// nothing else, with a value inside the range.
pub open spec fn parse_int(s: Seq<char>, signed: bool, lo: int, hi: int) -> Option<int> {
    let neg = s.len() > 0 && s[0] == '-' && signed;
    let digits = if s.len() > 0 && (s[0] == '+' || (s[0] == '-' && signed)) {
        s.drop_first()
    } else {
        s
    };
    if digits.len() > 0 && all_digits(digits) {
        let v = if neg {
            -decimal_value(digits)
        } else {
            decimal_value(digits)
        };
        if lo <= v && v <= hi {
            Some(v)
        } else {
            None
        }
    } else {
        None
    }
}

proof fn lemma_decimal_nonneg(s: Seq<char>)
    requires
        all_digits(s),
    ensures
        decimal_value(s) >= 0,
    decreases s.len(),
{
    if s.len() > 0 {
        lemma_decimal_nonneg(s.drop_last());
    }
}

proof fn lemma_decimal_mono(s: Seq<char>, k: int)
    requires
        all_digits(s),
        0 <= k <= s.len(),
    ensures
        decimal_value(s.take(k)) <= decimal_value(s),
    decreases s.len(),
{
    if k < s.len() {
        assert(s.drop_last().take(k) =~= s.take(k));
        lemma_decimal_mono(s.drop_last(), k);
        lemma_decimal_nonneg(s.drop_last());
    } else {
        assert(s.take(k) =~= s);
    }
}

/// The value of the digits of `c` from `start` to the end, if they are all
/// digits, at least one, and the value is at most `bound`.
fn parse_magnitude(c: &Vec<char>, start: usize, bound: u64) -> (r: Option<u64>)
    requires
        start <= c.len(),
        bound >= 9,
    ensures
        ({
            let d = c@.skip(start as int);
            match r {
                Some(v) => d.len() > 0 && all_digits(d) && v == decimal_value(d) && v <= bound,
                None => !(d.len() > 0 && all_digits(d) && decimal_value(d) <= bound),
            }
        }),
{
    let ghost d = c@.skip(start as int);
    if start == c.len() {
        return None;
    }
    let mut v: u64 = 0;
    let mut i: usize = start;
    while i < c.len()
        invariant
            start <= i <= c.len(),
            d == c@.skip(start as int),
            all_digits(d.take(i - start)),
            v == decimal_value(d.take(i - start)),
            v <= bound,
            bound >= 9,
        decreases c.len() - i,
    {
        let ch = c[i];
        let cu = ch as u32;
        if !(48 <= cu && cu <= 57) {
            assert(d[i - start] == ch);
            return None;
        }
        let dv = (cu - 48) as u64;
        assert(d.take(i + 1 - start).drop_last() =~= d.take(i - start));
        assert(d.take(i + 1 - start).last() == ch);
        if v > (bound - dv) / 10 {
            proof {
                assert(all_digits(d.take(i + 1 - start)));
                assert(decimal_value(d.take(i + 1 - start)) == v * 10 + dv);
                assert(v * 10 + dv > bound) by (nonlinear_arith)
                    requires
                        v > (bound - dv) / 10,
                        dv <= 9,
                        dv <= bound || true,
                ;
                if all_digits(d) {
                    lemma_decimal_mono(d, i + 1 - start);
                }
            }
            return None;
        }
        assert(v * 10 + dv <= bound) by (nonlinear_arith)
            requires
                v <= (bound - dv) / 10,
                dv <= bound,
        ;
        v = v * 10 + dv;
        i = i + 1;
    }
    assert(d.take(i - start) =~= d);
    Some(v)
}

/// `str::parse::<i64>`.
pub fn parse_i64(s: &str) -> (r: Option<i64>)
    ensures
        r matches Some(v) ==> parse_int(s@, true, i64::MIN as int, i64::MAX as int) == Some(
            v as int,
        ),
        r is None ==> parse_int(s@, true, i64::MIN as int, i64::MAX as int) is None,
{
    let c = chars_of(s);
    if c.len() > 0 && c[0] == '-' {
        if c.len() == 1 {
            return None;
        }
        match parse_magnitude(&c, 1, 0x8000_0000_0000_0000u64) {
            Some(m) => {
                if m == 0x8000_0000_0000_0000u64 {
                    Some(i64::MIN)
                } else {
                    Some(-(m as i64))
                }
            },
            None => None,
        }
    } else {
        let start: usize = if c.len() > 0 && c[0] == '+' {
            1
        } else {
            0
        };
        assert(start == 0 ==> c@.skip(0) =~= c@);
        match parse_magnitude(&c, start, 0x7fff_ffff_ffff_ffffu64) {
            Some(m) => Some(m as i64),
            None => None,
        }
    }
}

/// `str::parse::<i32>`.
pub fn parse_i32(s: &str) -> (r: Option<i32>)
    ensures
        r matches Some(v) ==> parse_int(s@, true, i32::MIN as int, i32::MAX as int) == Some(
            v as int,
        ),
        r is None ==> parse_int(s@, true, i32::MIN as int, i32::MAX as int) is None,
{
    let c = chars_of(s);
    if c.len() > 0 && c[0] == '-' {
        if c.len() == 1 {
            return None;
        }
        match parse_magnitude(&c, 1, 0x8000_0000u64) {
            Some(m) => Some((0 - (m as i64)) as i32),
            None => None,
        }
    } else {
        let start: usize = if c.len() > 0 && c[0] == '+' {
            1
        } else {
            0
        };
        assert(start == 0 ==> c@.skip(0) =~= c@);
        match parse_magnitude(&c, start, 0x7fff_ffffu64) {
            Some(m) => Some(m as i32),
            None => None,
        }
    }
}

/// `str::parse::<usize>`.
pub fn parse_usize(s: &str) -> (r: Option<usize>)
    ensures
        r matches Some(v) ==> parse_int(s@, false, 0, usize::MAX as int) == Some(v as int),
        r is None ==> parse_int(s@, false, 0, usize::MAX as int) is None,
{
    let c = chars_of(s);
    let start: usize = if c.len() > 0 && c[0] == '+' {
        1
    } else {
        0
    };
    if start == 1 && c.len() == 1 {
        return None;
    }
    assert(start == 0 ==> c@.skip(0) =~= c@);
    match parse_magnitude(&c, start, usize::MAX as u64) {
        Some(m) => Some(m as usize),
        None => None,
    }
}

/// What `str::parse::<bool>` returns: exactly `true` or `false`.
pub open spec fn parse_bool_spec(s: Seq<char>) -> Option<bool> {
    if s == "true"@ {
        Some(true)
    } else if s == "false"@ {
        Some(false)
    } else {
        None
    }
}

/// `str::parse::<bool>`.
pub fn parse_bool(s: &str) -> (r: Option<bool>)
    ensures
        r == parse_bool_spec(s@),
{
    if str_eq(s, "true") {
        Some(true)
    } else if str_eq(s, "false") {
        Some(false)
    } else {
        None
    }
}

/// The pieces of `s` between occurrences of `sep` (as `str::split` with a
/// character pattern yields them): always at least one piece.
pub open spec fn split_on(s: Seq<char>, sep: char) -> Seq<Seq<char>>
    decreases s.len(),
{
    if s.len() == 0 {
        seq![Seq::<char>::empty()]
    } else {
        let prev = split_on(s.drop_last(), sep);
        if s.last() == sep {
            prev.push(Seq::<char>::empty())
        } else {
            prev.update(prev.len() - 1, prev.last().push(s.last()))
        }
    }
}

proof fn lemma_split_nonempty(s: Seq<char>, sep: char)
    ensures
        split_on(s, sep).len() >= 1,
    decreases s.len(),
{
    if s.len() > 0 {
        lemma_split_nonempty(s.drop_last(), sep);
    }
}

/// `str::split` with a character separator, collected.
pub fn split_chars(s: &str, sep: char) -> (res: Vec<String>)
    ensures
        str_views(res@) == split_on(s@, sep),
{
    let c = chars_of(s);
    let mut pieces: Vec<String> = Vec::new();
    let mut cur: Vec<char> = Vec::new();
    let mut i: usize = 0;
    while i < c.len()
        invariant
            i <= c.len(),
            ({
                let sp = split_on(c@.take(i as int), sep);
                &&& str_views(pieces@) == sp.drop_last()
                &&& cur@ == sp.last()
            }),
        decreases c.len() - i,
    {
        proof {
            lemma_split_nonempty(c@.take(i as int), sep);
            assert(c@.take(i + 1).drop_last() =~= c@.take(i as int));
        }
        if c[i] == sep {
            let piece = string_of(cur.as_slice());
            let ghost old_p = pieces@;
            pieces.push(piece);
            assert(str_views(pieces@) =~= str_views(old_p).push(piece@));
            cur = Vec::new();
            proof {
                let sp = split_on(c@.take(i as int), sep);
                assert(str_views(pieces@) =~= sp);
                assert(split_on(c@.take(i + 1), sep) == sp.push(Seq::<char>::empty()));
                assert(sp.push(Seq::<char>::empty()).drop_last() =~= sp);
            }
        } else {
            cur.push(c[i]);
            proof {
                let sp = split_on(c@.take(i as int), sep);
                let sp2 = sp.update(sp.len() - 1, sp.last().push(c@[i as int]));
                assert(split_on(c@.take(i + 1), sep) == sp2);
                assert(sp2.drop_last() =~= sp.drop_last());
            }
        }
        i = i + 1;
    }
    let last = string_of(cur.as_slice());
    let ghost old_p = pieces@;
    pieces.push(last);
    assert(str_views(pieces@) =~= str_views(old_p).push(last@));
    proof {
        lemma_split_nonempty(c@.take(i as int), sep);
        assert(c@.take(i as int) =~= c@);
        let sp = split_on(c@, sep);
        assert(str_views(pieces@) =~= sp);
    }
    pieces
}

/// What a sequence with one more item contains.
pub proof fn lemma_push_contains<A>(s: Seq<A>, x: A)
    ensures
        forall|t: A| #[trigger] s.push(x).contains(t) <==> (s.contains(t) || t == x),
{
    assert forall|t: A| #[trigger] s.push(x).contains(t) <==> (s.contains(t) || t == x) by {
        if s.push(x).contains(t) {
            let k = choose|k: int| 0 <= k < s.push(x).len() && #[trigger] s.push(x)[k] == t;
            if k < s.len() {
                assert(s[k] == t);
            }
        }
        if s.contains(t) {
            let k = choose|k: int| 0 <= k < s.len() && #[trigger] s[k] == t;
            assert(s.push(x)[k] == t);
        }
        if t == x {
            assert(s.push(x)[s.len() as int] == t);
        }
    }
}

/// What a concatenation contains.
pub proof fn lemma_concat_contains<A>(a: Seq<A>, b: Seq<A>)
    ensures
        forall|t: A| #[trigger] (a + b).contains(t) <==> (a.contains(t) || b.contains(t)),
{
    assert forall|t: A| #[trigger] (a + b).contains(t) <==> (a.contains(t) || b.contains(t)) by {
        if (a + b).contains(t) {
            let k = choose|k: int| 0 <= k < (a + b).len() && #[trigger] (a + b)[k] == t;
            if k < a.len() {
                assert(a[k] == t);
            } else {
                assert(b[k - a.len()] == t);
            }
        }
        if a.contains(t) {
            let k = choose|k: int| 0 <= k < a.len() && #[trigger] a[k] == t;
            assert((a + b)[k] == t);
        }
        if b.contains(t) {
            let k = choose|k: int| 0 <= k < b.len() && #[trigger] b[k] == t;
            assert((a + b)[a.len() + k] == t);
        }
    }
}

/// The characters of `c` from `lo` up to `hi`.
pub fn sub_chars(c: &Vec<char>, lo: usize, hi: usize) -> (r: Vec<char>)
    requires
        lo <= hi <= c@.len(),
    ensures
        r@ == c@.subrange(lo as int, hi as int),
{
    let mut r: Vec<char> = Vec::new();
    let mut i: usize = lo;
    while i < hi
        invariant
            lo <= i <= hi <= c@.len(),
            r@ == c@.subrange(lo as int, i as int),
        decreases hi - i,
    {
        r.push(c[i]);
        assert(r@ =~= c@.subrange(lo as int, i + 1));
        i = i + 1;
    }
    r
}

/// Concatenation of a sequence of strings.
pub open spec fn concat_all(v: Seq<Seq<char>>) -> Seq<char>
    decreases v.len(),
{
    if v.len() == 0 {
        Seq::<char>::empty()
    } else {
        concat_all(v.drop_last()) + v.last()
    }
}

/// Copies of a vector of strings, each equal to the string it copies.
pub fn copy_strings(v: &Vec<String>) -> (res: Vec<String>)
    ensures
        res@ == v@,
{
    let mut out: Vec<String> = Vec::new();
    let mut i: usize = 0;
    while i < v.len()
        invariant
            i <= v.len(),
            out@ == v@.take(i as int),
        decreases v.len() - i,
    {
        out.push(v[i].clone());
        assert(out@ =~= v@.take(i + 1));
        i = i + 1;
    }
    assert(v@.take(i as int) =~= v@);
    out
}

/// Does the list hold a string with these characters?
pub fn contains_str(v: &Vec<String>, s: &str) -> (r: bool)
    ensures
        r == str_views(v@).contains(s@),
{
    let mut i: usize = 0;
    while i < v.len()
        invariant
            i <= v.len(),
            forall|j: int| 0 <= j < i ==> v@[j]@ != s@,
        decreases v.len() - i,
    {
        if str_eq(v[i].as_str(), s) {
            assert(str_views(v@)[i as int] == s@);
            return true;
        }
        i = i + 1;
    }
    proof {
        if str_views(v@).contains(s@) {
            let j = choose|j: int| 0 <= j < str_views(v@).len() && str_views(v@)[j] == s@;
            assert(v@[j]@ == s@);
        }
    }
    false
}

} // verus!

verus! {

/// The decimal digit character for `d`, which is below ten.
pub open spec fn digit_char(d: nat) -> char {
    if d == 0 { '0' } else if d == 1 { '1' } else if d == 2 { '2' } else if d == 3 { '3' }
    else if d == 4 { '4' } else if d == 5 { '5' } else if d == 6 { '6' } else if d == 7 { '7' }
    else if d == 8 { '8' } else { '9' }
}

/// The decimal digits of `n`, most significant first, with no leading zero.
pub open spec fn nat_text(n: nat) -> Seq<char>
    decreases n,
{
    if n < 10 {
        seq![digit_char(n)]
    } else {
        nat_text(n / 10).push(digit_char(n % 10))
    }
}

/// The decimal text of an integer, with a `-` before a negative one, as
/// `i64::to_string` writes it.
pub open spec fn int_text(n: int) -> Seq<char> {
    if n < 0 {
        seq!['-'] + nat_text((-n) as nat)
    } else {
        nat_text(n as nat)
    }
}

fn digit_of(d: u64) -> (c: char)
    requires
        d < 10,
    ensures
        c == digit_char(d as nat),
{
    if d == 0 { '0' } else if d == 1 { '1' } else if d == 2 { '2' } else if d == 3 { '3' }
    else if d == 4 { '4' } else if d == 5 { '5' } else if d == 6 { '6' } else if d == 7 { '7' }
    else if d == 8 { '8' } else { '9' }
}

fn u64_digits(n: u64) -> (v: Vec<char>)
    ensures
        v@ == nat_text(n as nat),
    decreases n,
{
    if n < 10 {
        let mut v: Vec<char> = Vec::new();
        v.push(digit_of(n));
        v
    } else {
        let mut v = u64_digits(n / 10);
        v.push(digit_of(n % 10));
        v
    }
}

/// The decimal text of `n`.
pub fn i64_text(n: i64) -> (s: String)
    ensures
        s@ == int_text(n as int),
{
    if n < 0 {
        let wide: i128 = n as i128;
        let m: u64 = (0 - wide) as u64;
        let mut v: Vec<char> = Vec::new();
        v.push('-');
        let d = u64_digits(m);
        let mut i: usize = 0;
        while i < d.len()
            invariant
                i <= d.len(),
                v@ == seq!['-'] + d@.take(i as int),
            decreases d.len() - i,
        {
            v.push(d[i]);
            assert(d@.take(i + 1) =~= d@.take(i as int).push(d@[i as int]));
            i = i + 1;
        }
        assert(d@.take(i as int) =~= d@);
        string_of(v.as_slice())
    } else {
        let d = u64_digits(n as u64);
        string_of(d.as_slice())
    }
}

} // verus!
