//! String helpers: character-level utilities the library proves itself, and
//! a small trusted boundary for what only the standard library computes
//! (Unicode lower-casing, decimal formatting, collecting characters).

use vstd::prelude::*;
use vstd::string::StrSliceExecFns;

verus! {

/// What `str::to_lowercase` returns; the result depends on the characters
/// alone.
pub uninterp spec fn lower_of(s: Seq<char>) -> Seq<char>;

/// Relies on `str::to_lowercase`: the result is a function of the input
/// characters alone, and an empty string stays empty.
#[verifier::external_body]
pub fn lowercase(s: &str) -> (r: String)
    ensures
        r@ == lower_of(s@),
        s@.len() == 0 ==> r@.len() == 0,
{
    s.to_lowercase()
}

/// The decimal digit character for a value below ten.
pub open spec fn digit_char(d: int) -> char {
    if d == 0 {
        '0'
    } else if d == 1 {
        '1'
    } else if d == 2 {
        '2'
    } else if d == 3 {
        '3'
    } else if d == 4 {
        '4'
    } else if d == 5 {
        '5'
    } else if d == 6 {
        '6'
    } else if d == 7 {
        '7'
    } else if d == 8 {
        '8'
    } else {
        '9'
    }
}

/// The decimal digits of a number, most significant first.
pub open spec fn dec_digits(n: nat) -> Seq<char>
    decreases n,
{
    if n < 10 {
        seq![digit_char(n as int)]
    } else {
        dec_digits(n / 10).push(digit_char((n % 10) as int))
    }
}

/// One decimal digit, as its character.
fn digit_to_char(d: u64) -> (c: char)
    requires
        d < 10,
    ensures
        c == digit_char(d as int),
{
    if d == 0 {
        '0'
    } else if d == 1 {
        '1'
    } else if d == 2 {
        '2'
    } else if d == 3 {
        '3'
    } else if d == 4 {
        '4'
    } else if d == 5 {
        '5'
    } else if d == 6 {
        '6'
    } else if d == 7 {
        '7'
    } else if d == 8 {
        '8'
    } else {
        '9'
    }
}

/// The number's decimal digits, most significant first: the digits are
/// peeled off low-order first and then reversed.
pub fn u64_to_string(n: u64) -> (r: String)
    ensures
        r@ == dec_digits(n as nat),
{
    let mut digits: Vec<char> = Vec::new();
    let mut m: u64 = n;
    proof {
        assert(digits@.reverse() =~= Seq::<char>::empty());
        assert(dec_digits(n as nat) =~= dec_digits(n as nat) + Seq::<char>::empty());
    }
    while m >= 10
        invariant
            dec_digits(n as nat) == dec_digits(m as nat) + digits@.reverse(),
        decreases m,
    {
        let d = digit_to_char(m % 10);
        proof {
            assert(dec_digits(m as nat) == dec_digits((m as nat) / 10).push(
                digit_char(((m as nat) % 10) as int),
            ));
            assert(digits@.push(d).reverse() =~= seq![d] + digits@.reverse());
            assert(dec_digits((m as nat) / 10) + (seq![d] + digits@.reverse())
                =~= (dec_digits((m as nat) / 10).push(d)) + digits@.reverse());
        }
        digits.push(d);
        m = m / 10;
    }
    let d0 = digit_to_char(m);
    proof {
        assert(dec_digits(m as nat) == seq![digit_char(m as int)]);
        assert(digits@.push(d0).reverse() =~= seq![d0] + digits@.reverse());
        assert(seq![d0] + digits@.reverse() =~= dec_digits(m as nat) + digits@.reverse());
    }
    digits.push(d0);
    let k = digits.len();
    let mut out: Vec<char> = Vec::new();
    let mut i: usize = 0;
    proof {
        assert(out@ =~= digits@.reverse().take(0));
    }
    while i < k
        invariant
            k == digits@.len(),
            0 <= i <= k,
            dec_digits(n as nat) == digits@.reverse(),
            out@ == digits@.reverse().take(i as int),
        decreases k - i,
    {
        out.push(digits[k - 1 - i]);
        proof {
            assert(digits@.reverse()[i as int] == digits@[k - 1 - i]);
            assert(out@ =~= digits@.reverse().take(i + 1));
        }
        i = i + 1;
    }
    proof {
        assert(digits@.reverse().take(k as int) =~= digits@.reverse());
    }
    chars_to_string(&out)
}

/// Relies on `String`'s `FromIterator` over characters: collecting yields
/// exactly the characters pushed.
#[verifier::external_body]
pub fn chars_to_string(v: &Vec<char>) -> (r: String)
    ensures
        r@ == v@,
{
    v.iter().collect()
}

/// The characters of a string slice, as a vector.
pub fn str_chars(s: &str) -> (r: Vec<char>)
    ensures
        r@ == s@,
{
    let n = s.unicode_len();
    let mut r: Vec<char> = Vec::new();
    let mut i: usize = 0;
    while i < n
        invariant
            n == s@.len(),
            0 <= i <= n,
            r@ == s@.subrange(0, i as int),
        decreases n - i,
    {
        r.push(s.get_char(i));
        proof {
            assert(r@ =~= s@.subrange(0, i + 1));
        }
        i = i + 1;
    }
    proof {
        assert(r@ =~= s@);
    }
    r
}

/// Whether two string slices hold the same characters.
pub fn str_eq(a: &str, b: &str) -> (r: bool)
    ensures
        r == (a@ == b@),
{
    let na = a.unicode_len();
    let nb = b.unicode_len();
    if na != nb {
        proof {
            assert(a@ != b@);
        }
        return false;
    }
    let mut i: usize = 0;
    while i < na
        invariant
            na == a@.len(),
            na == b@.len(),
            0 <= i <= na,
            forall|j: int| 0 <= j < i ==> a@[j] == b@[j],
        decreases na - i,
    {
        if a.get_char(i) != b.get_char(i) {
            proof {
                assert(a@[i as int] != b@[i as int]);
            }
            return false;
        }
        i = i + 1;
    }
    proof {
        assert(a@ =~= b@);
    }
    true
}

/// The number as a string, for positions and counts that fit in `u32`.
pub fn u32_to_string(n: u32) -> (r: String)
    ensures
        r@ == dec_digits(n as nat),
{
    u64_to_string(n as u64)
}


/// The characters that `str::trim` removes: Unicode white space.
pub open spec fn is_space(c: char) -> bool {
    c == ' ' || c == '\t' || c == '\n' || c == '\r' || c == '\u{b}' || c == '\u{c}' || c
        == '\u{85}' || c == '\u{a0}' || c == '\u{1680}' || ('\u{2000}' <= c && c <= '\u{200a}')
        || c == '\u{2028}' || c == '\u{2029}' || c == '\u{202f}' || c == '\u{205f}' || c
        == '\u{3000}'
}

/// Whether a character is Unicode white space.
pub fn is_space_char(c: char) -> (r: bool)
    ensures
        r == is_space(c),
{
    c == ' ' || c == '\t' || c == '\n' || c == '\r' || c == '\u{b}' || c == '\u{c}' || c
        == '\u{85}' || c == '\u{a0}' || c == '\u{1680}' || ('\u{2000}' <= c && c <= '\u{200a}')
        || c == '\u{2028}' || c == '\u{2029}' || c == '\u{202f}' || c == '\u{205f}' || c
        == '\u{3000}'
}

/// The string with its leading characters satisfying `p` removed.
pub open spec fn trim_start_by(s: Seq<char>, p: spec_fn(char) -> bool) -> Seq<char>
    decreases s.len(),
{
    if s.len() > 0 && p(s[0]) {
        trim_start_by(s.drop_first(), p)
    } else {
        s
    }
}

/// The string with its trailing characters satisfying `p` removed.
pub open spec fn trim_end_by(s: Seq<char>, p: spec_fn(char) -> bool) -> Seq<char>
    decreases s.len(),
{
    if s.len() > 0 && p(s.last()) {
        trim_end_by(s.drop_last(), p)
    } else {
        s
    }
}

/// The string trimmed on both sides of characters satisfying `p`.
pub open spec fn trim_by(s: Seq<char>, p: spec_fn(char) -> bool) -> Seq<char> {
    trim_end_by(trim_start_by(s, p), p)
}

pub proof fn lemma_trim_start_by(s: Seq<char>, p: spec_fn(char) -> bool, lo: int)
    requires
        0 <= lo <= s.len(),
        forall|j: int| 0 <= j < lo ==> p(#[trigger] s[j]),
        lo == s.len() || !p(s[lo]),
    ensures
        trim_start_by(s, p) == s.skip(lo),
    decreases lo,
{
    if lo == 0 {
        assert(s.skip(0) =~= s);
    } else {
        assert(p(s[0]));
        lemma_trim_start_by(s.drop_first(), p, lo - 1);
        assert(s.drop_first().skip(lo - 1) =~= s.skip(lo));
    }
}

pub proof fn lemma_trim_end_by(s: Seq<char>, p: spec_fn(char) -> bool, hi: int)
    requires
        0 <= hi <= s.len(),
        forall|j: int| hi <= j < s.len() ==> p(#[trigger] s[j]),
        hi == 0 || !p(s[hi - 1]),
    ensures
        trim_end_by(s, p) == s.take(hi),
    decreases s.len() - hi,
{
    if hi == s.len() {
        assert(s.take(hi) =~= s);
    } else {
        assert(p(s.last()));
        lemma_trim_end_by(s.drop_last(), p, hi);
        assert(s.drop_last().take(hi) =~= s.take(hi));
    }
}

/// Bounds `lo <= hi` in `v` such that trimming characters satisfying the
/// predicate yields exactly `v[lo..hi]`; here for white space.
pub proof fn lemma_trim_by_bounds(s: Seq<char>, p: spec_fn(char) -> bool, lo: int, hi: int)
    requires
        0 <= lo <= hi <= s.len(),
        forall|j: int| 0 <= j < lo ==> p(#[trigger] s[j]),
        forall|j: int| hi <= j < s.len() ==> p(#[trigger] s[j]),
        lo == hi || (!p(s[lo]) && !p(s[hi - 1])),
    ensures
        trim_by(s, p) == s.subrange(lo, hi),
{
    if lo == hi {
        if lo == s.len() {
            lemma_trim_start_by(s, p, lo);
        } else {
            if p(s[lo]) {
                let k = choose|k: int| lo <= k < s.len() && !p(#[trigger] s[k]);
                assert(forall|j: int| lo <= j < s.len() ==> p(#[trigger] s[j]));
                lemma_trim_start_by(s, p, s.len() as int);
                assert(s.skip(s.len() as int) =~= s.subrange(lo, hi));
            } else {
                lemma_trim_start_by(s, p, lo);
                let t = s.skip(lo);
                lemma_trim_end_by(t, p, 0);
                assert(t.take(0) =~= s.subrange(lo, hi));
            }
        }
        if lo == s.len() || p(s[lo]) {
            let t = trim_start_by(s, p);
            lemma_trim_end_by(t, p, if t.len() > 0 {
                t.len() as int
            } else {
                0
            });
        }
    } else {
        lemma_trim_start_by(s, p, lo);
        let t = s.skip(lo);
        assert(forall|j: int| hi - lo <= j < t.len() ==> p(#[trigger] t[j]));
        assert(!p(t[hi - lo - 1]));
        lemma_trim_end_by(t, p, hi - lo);
        assert(t.take(hi - lo) =~= s.subrange(lo, hi));
    }
}

/// What trimming removes around a name: white space, then double quotes,
/// then single quotes.
pub open spec fn spec_clean_name(s: Seq<char>) -> Seq<char> {
    trim_by(trim_by(trim_by(s, |c: char| is_space(c)), |c: char| c == '"'), |c: char| c == '\'')
}

/// Cleans an identifier: trims white space, then surrounding double
/// quotes, then surrounding single quotes.
pub fn clean_name(name: &str) -> (r: String)
    ensures
        r@ == spec_clean_name(name@),
{
    let v = str_chars(name);
    let ghost s0 = name@;
    let mut lo: usize = 0;
    let mut hi: usize = v.len();
    trim_pass(&v, &mut lo, &mut hi, 0);
    proof {
        lemma_trim_by_bounds(s0, |c: char| is_space(c), lo as int, hi as int);
    }
    let ghost s1 = trim_by(s0, |c: char| is_space(c));
    let lo1 = lo;
    trim_pass(&v, &mut lo, &mut hi, 1);
    proof {
        lemma_trim_by_bounds(s1, |c: char| c == '"', lo - lo1, hi - lo1);
        assert(s1.subrange(lo - lo1, hi - lo1) =~= s0.subrange(lo as int, hi as int));
    }
    let ghost s2 = trim_by(s1, |c: char| c == '"');
    let lo2 = lo;
    trim_pass(&v, &mut lo, &mut hi, 2);
    proof {
        lemma_trim_by_bounds(s2, |c: char| c == '\'', lo - lo2, hi - lo2);
        assert(s2.subrange(lo - lo2, hi - lo2) =~= s0.subrange(lo as int, hi as int));
    }
    let mut out: Vec<char> = Vec::new();
    let mut i: usize = lo;
    while i < hi
        invariant
            v@ == s0,
            0 <= lo <= i <= hi <= s0.len(),
            out@ == s0.subrange(lo as int, i as int),
        decreases hi - i,
    {
        out.push(v[i]);
        proof {
            assert(out@ =~= s0.subrange(lo as int, i + 1));
        }
        i = i + 1;
    }
    proof {
        assert(out@ =~= s0.subrange(lo as int, hi as int));
    }
    chars_to_string(&out)
}

/// Narrows `[lo, hi)` in `v` past the characters of one trimming class:
/// white space, double quotes or single quotes.
pub(crate) fn trim_pass(v: &Vec<char>, lo: &mut usize, hi: &mut usize, class: u8)
    requires
        0 <= *old(lo) <= *old(hi) <= v@.len(),
    ensures
        *old(lo) <= *final(lo) <= *final(hi) <= *old(hi),
        ({
            let p = trim_class(class);
            let t = v@.subrange(*old(lo) as int, *old(hi) as int);
            &&& forall|j: int| *old(lo) <= j < *final(lo) ==> p(#[trigger] v@[j])
            &&& forall|j: int| *final(hi) <= j < *old(hi) ==> p(#[trigger] v@[j])
            &&& *final(lo) == *final(hi) || (!p(v@[*final(lo) as int]) && !p(
                v@[*final(hi) - 1],
            ))
        }),
{
    while *lo < *hi && trim_class_char(v[*lo], class)
        invariant
            0 <= *old(lo) <= *lo <= *hi <= v@.len(),
            *hi == *old(hi),
            forall|j: int| *old(lo) <= j < *lo ==> (trim_class(class))(#[trigger] v@[j]),
        decreases *hi - *lo,
    {
        *lo = *lo + 1;
    }
    while *hi > *lo && trim_class_char(v[*hi - 1], class)
        invariant
            0 <= *old(lo) <= *lo <= *hi <= v@.len(),
            *hi <= *old(hi),
            forall|j: int| *old(lo) <= j < *lo ==> (trim_class(class))(#[trigger] v@[j]),
            forall|j: int| *hi <= j < *old(hi) ==> (trim_class(class))(#[trigger] v@[j]),
            *lo == *hi || !(trim_class(class))(v@[*lo as int]),
        decreases *hi - *lo,
    {
        *hi = *hi - 1;
    }
}

/// The predicate of a trimming class.
pub open spec fn trim_class(class: u8) -> spec_fn(char) -> bool {
    if class == 0 {
        |c: char| is_space(c)
    } else if class == 1 {
        |c: char| c == '"'
    } else {
        |c: char| c == '\''
    }
}

/// Whether a character belongs to a trimming class.
fn trim_class_char(c: char, class: u8) -> (r: bool)
    ensures
        r == (trim_class(class))(c),
{
    if class == 0 {
        is_space_char(c)
    } else if class == 1 {
        c == '"'
    } else {
        c == '\''
    }
}

} // verus!
