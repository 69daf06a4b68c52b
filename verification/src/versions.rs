//! Dependency version handling: parsing dot-separated versions, the
//! major.minor compatibility rule, ordering, and choosing the best package
//! file for a declared dependency.

use vstd::prelude::*;

use crate::strutil::chars_to_string;

verus! {

/// Whether a character is a decimal digit.
pub open spec fn is_digit(c: char) -> bool {
    '0' <= c && c <= '9'
}

pub open spec fn digit_val(c: char) -> int {
    c as int - '0' as int
}

/// Whether a string is one or more decimal digits.
pub open spec fn all_digits(s: Seq<char>) -> bool {
    forall|i: int| 0 <= i < s.len() ==> is_digit(#[trigger] s[i])
}

/// The numeric value of a digit string, most significant first.
pub open spec fn digits_val(s: Seq<char>) -> int
    decreases s.len(),
{
    if s.len() == 0 {
        0
    } else {
        digits_val(s.drop_last()) * 10 + digit_val(s.last())
    }
}

/// What `str::parse::<u64>` accepts of a version part: plain digits whose
/// value fits in a `u64`.
pub open spec fn spec_parse_part(s: Seq<char>) -> Option<u64> {
    if s.len() > 0 && all_digits(s) && digits_val(s) <= u64::MAX {
        Some(digits_val(s) as u64)
    } else {
        None
    }
}

/// The digits of a part read so far, before the next separator.
pub open spec fn head_part(s: Seq<char>) -> Seq<char>
    decreases s.len(),
{
    if s.len() == 0 || s[0] == '.' {
        Seq::empty()
    } else {
        seq![s[0]] + head_part(s.drop_first())
    }
}

pub proof fn lemma_head_part_len(s: Seq<char>)
    ensures
        head_part(s).len() <= s.len(),
        head_part(s).len() < s.len() || !s.contains('.'),
        forall|i: int| 0 <= i < head_part(s).len() ==> head_part(s)[i] == s[i] && s[i] != '.',
        head_part(s).len() < s.len() ==> s[head_part(s).len() as int] == '.',
    decreases s.len(),
{
    if s.len() > 0 && s[0] != '.' {
        lemma_head_part_len(s.drop_first());
        assert forall|i: int| 0 <= i < head_part(s).len() implies head_part(s)[i] == s[i] && s[i]
            != '.' by {
            if i > 0 {
                assert(head_part(s.drop_first())[i - 1] == s.drop_first()[i - 1]);
            }
        }
        if !s.contains('.') {
            assert(!s.drop_first().contains('.')) by {
                if s.drop_first().contains('.') {
                    let i = choose|i: int|
                        0 <= i < s.drop_first().len() && s.drop_first()[i] == '.';
                    assert(s[i + 1] == '.');
                }
            }
        }
    }
}

/// The dot-separated parts of a version string.
pub open spec fn split_parts(s: Seq<char>) -> Seq<Seq<char>>
    decreases s.len(),
    via split_parts_dec
{
    if !s.contains('.') {
        seq![s]
    } else {
        seq![head_part(s)] + split_parts(s.skip((head_part(s).len() + 1) as int))
    }
}

#[via_fn]
proof fn split_parts_dec(s: Seq<char>) {
    if s.contains('.') {
        lemma_head_part_len(s);
    }
}

/// The parts that parse as numbers, in order; the rest are dropped.
pub open spec fn numeric_parts(parts: Seq<Seq<char>>) -> Seq<u64>
    decreases parts.len(),
{
    if parts.len() == 0 {
        Seq::empty()
    } else {
        match spec_parse_part(parts[0]) {
            Some(v) => seq![v] + numeric_parts(parts.drop_first()),
            None => numeric_parts(parts.drop_first()),
        }
    }
}

/// What `parse_version` returns for a version string.
pub open spec fn spec_parse_version(s: Seq<char>) -> Seq<u64> {
    numeric_parts(split_parts(s))
}

/// A part taken from a version, zero-padded past the end.
pub open spec fn part_at(parts: Seq<u64>, i: int) -> u64 {
    if 0 <= i < parts.len() {
        parts[i]
    } else {
        0
    }
}

/// The major.minor compatibility rule: the actual version is compatible
/// when its first two components meet or exceed the required ones.
pub open spec fn spec_compatible(req: Seq<u64>, act: Seq<u64>) -> bool {
    if req.len() == 0 {
        true
    } else if part_at(act, 0) > req[0] {
        true
    } else if part_at(act, 0) < req[0] {
        false
    } else if req.len() == 1 {
        true
    } else if part_at(act, 1) > req[1] {
        true
    } else if part_at(act, 1) < req[1] {
        false
    } else {
        true
    }
}

/// Lexicographic numeric comparison of two padded part lists, from a given
/// position on; `Less` means the first version is the greater one, so that
/// ascending order by this comparison is descending order of versions.
pub open spec fn spec_compare_from(a: Seq<u64>, b: Seq<u64>, i: int) -> core::cmp::Ordering
    decreases (if i <= a.len() || i <= b.len() {
        (a.len() + b.len() + 2 - i) as int
    } else {
        0
    }),
{
    if i >= a.len() && i >= b.len() {
        core::cmp::Ordering::Equal
    } else if part_at(b, i) < part_at(a, i) {
        core::cmp::Ordering::Less
    } else if part_at(b, i) > part_at(a, i) {
        core::cmp::Ordering::Greater
    } else {
        spec_compare_from(a, b, i + 1)
    }
}

/// What `compare_versions` returns: higher versions order first.
pub open spec fn spec_compare(a: Seq<u64>, b: Seq<u64>) -> core::cmp::Ordering {
    spec_compare_from(a, b, 0)
}

/// Parses a version string into its numeric parts; parts that are not
/// plain numbers are dropped.
pub fn parse_version(version: &str) -> (r: Vec<u64>)
    ensures
        r@ == spec_parse_version(version@),
{
    let chars = crate::strutil::str_chars(version);
    let n = chars.len();
    let mut r: Vec<u64> = Vec::new();
    let ghost whole = version@;
    let mut start: usize = 0;
    let mut i: usize = 0;
    let mut acc: u64 = 0;
    let mut ok: bool = true;
    proof {
        assert(whole.skip(0) =~= whole);
    }
    while i < n
        invariant
            chars@ == whole,
            n == whole.len(),
            0 <= start <= i <= n,
            forall|j: int| start <= j < i ==> whole[j] != '.',
            ok ==> all_digits(whole.subrange(start as int, i as int)) && digits_val(
                whole.subrange(start as int, i as int),
            ) == acc,
            !ok ==> spec_parse_part(head_part(whole.skip(start as int))) is None,
            r@ + numeric_parts(split_parts(whole.skip(start as int))) == spec_parse_version(
                whole,
            ),
        decreases n - i,
    {
        let c = chars[i];
        let ghost part = whole.subrange(start as int, i as int);
        let ghost r_pre = r@;
        if c == '.' {
            proof {
                lemma_split_at_dot(whole, start as int, i as int);
            }
            let ghost rest = split_parts(whole.skip(i + 1));
            proof {
                assert((seq![part] + rest)[0] == part);
                assert((seq![part] + rest).drop_first() =~= rest);
                if ok && i > start {
                    assert(spec_parse_part(part) == Some(acc));
                } else if ok {
                    assert(part.len() == 0);
                } else {
                    assert(head_part(whole.skip(start as int)) == part);
                }
            }
            if ok && i > start {
                r.push(acc);
                proof {
                    assert(r@ =~= r_pre + seq![acc]);
                    assert(numeric_parts(seq![part] + rest) == seq![acc] + numeric_parts(rest));
                    assert((r_pre + seq![acc]) + numeric_parts(rest) =~= r_pre + (seq![acc]
                        + numeric_parts(rest)));
                }
            } else {
                proof {
                    assert(numeric_parts(seq![part] + rest) == numeric_parts(rest));
                }
            }
            proof {
                assert(whole.skip(start as int).skip((part.len() + 1) as int) =~= whole.skip(
                    i + 1,
                ));
                assert(whole.subrange(i + 1, i + 1).len() == 0);
            }
            start = i + 1;
            acc = 0;
            ok = true;
        } else {
            if ok && '0' <= c && c <= '9' {
                let d = (c as u32) - ('0' as u32);
                let ghost part2 = whole.subrange(start as int, i + 1);
                proof {
                    assert(part2.drop_last() =~= part);
                    assert(part2.last() == c);
                }
                let r1 = acc.checked_mul(10);
                match r1 {
                    Some(t) => {
                        match t.checked_add(d as u64) {
                            Some(v) => {
                                acc = v;
                            },
                            None => {
                                ok = false;
                                proof {
                                    lemma_overflow_part(
                                        whole,
                                        start as int,
                                        i as int,
                                        c,
                                        acc,
                                        d as int,
                                    );
                                }
                            },
                        }
                    },
                    None => {
                        ok = false;
                        proof {
                            lemma_overflow_part(whole, start as int, i as int, c, acc, d as int);
                        }
                    },
                }
            } else if ok {
                ok = false;
                proof {
                    lemma_nondigit_part(whole, start as int, i as int, c);
                }
            }
        }
        i = i + 1;
    }
    let ghost p = whole.skip(start as int);
    let ghost r_pre = r@;
    proof {
        lemma_last_part(whole, start as int);
        assert(seq![p].drop_first() =~= Seq::<Seq<char>>::empty());
        assert(numeric_parts(Seq::<Seq<char>>::empty()) == Seq::<u64>::empty());
        if ok {
            assert(p =~= whole.subrange(start as int, n as int));
        } else {
            assert(head_part(p) == p);
        }
        assert(seq![p][0] == p);
    }
    if ok && i > start {
        proof {
            assert(spec_parse_part(p) == Some(acc));
            assert(numeric_parts(seq![p]) == seq![acc] + Seq::<u64>::empty());
            assert(seq![acc] + Seq::<u64>::empty() =~= seq![acc]);
        }
        r.push(acc);
        proof {
            assert(r@ =~= r_pre + seq![acc]);
        }
    } else {
        proof {
            assert(spec_parse_part(p) is None);
            assert(numeric_parts(seq![p]) == Seq::<u64>::empty());
            assert(r_pre + Seq::<u64>::empty() =~= r_pre);
        }
    }
    r
}

/// In the middle of a string, a part ends exactly at the next dot.
proof fn lemma_split_at_dot(whole: Seq<char>, start: int, i: int)
    requires
        0 <= start <= i < whole.len(),
        whole[i] == '.',
        forall|j: int| start <= j < i ==> whole[j] != '.',
    ensures
        whole.skip(start).contains('.'),
        head_part(whole.skip(start)) == whole.subrange(start, i),
        split_parts(whole.skip(start)) == seq![whole.subrange(start, i)] + split_parts(
            whole.skip(i + 1),
        ),
{
    let t = whole.skip(start);
    assert(t[i - start] == '.');
    assert(t.contains('.'));
    lemma_head_part_stops(t, i - start);
    assert(head_part(t) =~= whole.subrange(start, i));
    assert(t.skip((head_part(t).len() + 1) as int) =~= whole.skip(i + 1));
}

/// A head part runs to the first dot.
proof fn lemma_head_part_stops(t: Seq<char>, d: int)
    requires
        0 <= d < t.len(),
        t[d] == '.',
        forall|j: int| 0 <= j < d ==> t[j] != '.',
    ensures
        head_part(t) == t.subrange(0, d),
    decreases d,
{
    if d == 0 {
        assert(head_part(t) =~= t.subrange(0, 0));
    } else {
        assert(t.drop_first()[d - 1] == '.');
        lemma_head_part_stops(t.drop_first(), d - 1);
        assert(head_part(t) =~= t.subrange(0, d)) by {
            assert(head_part(t.drop_first()) == t.drop_first().subrange(0, d - 1));
            assert(seq![t[0]] + t.drop_first().subrange(0, d - 1) =~= t.subrange(0, d));
        }
    }
}

/// Past the last dot, the rest of the string is one single part.
proof fn lemma_last_part(whole: Seq<char>, start: int)
    requires
        0 <= start <= whole.len(),
        forall|j: int| start <= j < whole.len() ==> whole[j] != '.',
    ensures
        !whole.skip(start).contains('.'),
        split_parts(whole.skip(start)) == seq![whole.skip(start)],
        head_part(whole.skip(start)) == whole.skip(start),
{
    let t = whole.skip(start);
    assert(forall|j: int| 0 <= j < t.len() ==> t[j] != '.');
    assert(!t.contains('.'));
    lemma_head_part_all(t);
}

proof fn lemma_head_part_all(t: Seq<char>)
    requires
        forall|j: int| 0 <= j < t.len() ==> t[j] != '.',
    ensures
        head_part(t) == t,
    decreases t.len(),
{
    if t.len() > 0 {
        lemma_head_part_all(t.drop_first());
        assert(head_part(t) =~= t) by {
            assert(seq![t[0]] + t.drop_first() =~= t);
        }
    }
}

/// A non-digit inside a part makes the part non-numeric.
proof fn lemma_nondigit_part(whole: Seq<char>, start: int, i: int, c: char)
    requires
        0 <= start <= i < whole.len(),
        whole[i] == c,
        c != '.',
        !(('0' <= c && c <= '9')),
        forall|j: int| start <= j < i ==> whole[j] != '.',
    ensures
        spec_parse_part(head_part(whole.skip(start))) is None,
{
    let h = head_part(whole.skip(start));
    lemma_head_part_len(whole.skip(start));
    assert(h.len() > i - start) by {
        if h.len() <= i - start {
            if h.len() < whole.skip(start).len() {
                assert(whole.skip(start)[h.len() as int] == '.');
                assert(whole[start + h.len()] == '.');
                assert(false);
            } else {
                assert(i - start < whole.skip(start).len());
                assert(false);
            }
        }
    }
    assert(h[i - start] == whole.skip(start)[i - start]);
    assert(h[i - start] == c);
    assert(!all_digits(h));
}

/// An overflowing value makes the part non-numeric: the digits seen so far
/// followed by one more digit already exceed what fits.
proof fn lemma_overflow_part(whole: Seq<char>, start: int, i: int, c: char, acc: u64, d: int)
    requires
        0 <= start <= i < whole.len(),
        whole[i] == c,
        '0' <= c && c <= '9',
        d == digit_val(c),
        forall|j: int| start <= j < i ==> whole[j] != '.',
        all_digits(whole.subrange(start, i)),
        digits_val(whole.subrange(start, i)) == acc,
        acc * 10 + d > u64::MAX,
    ensures
        spec_parse_part(head_part(whole.skip(start))) is None,
{
    let h = head_part(whole.skip(start));
    lemma_head_part_len(whole.skip(start));
    assert(h.len() > i - start) by {
        if h.len() <= i - start {
            if h.len() < whole.skip(start).len() {
                assert(whole[start + h.len()] == '.');
                assert(false);
            } else {
                assert(false);
            }
        }
    }
    assert forall|j: int| 0 <= j < h.len() implies h[j] == whole[start + j] by {
        assert(head_part(whole.skip(start))[j] == whole.skip(start)[j]);
        assert(whole.skip(start)[j] == whole[start + j]);
    }
    let p1 = h.subrange(0, i - start + 1);
    assert(p1.len() == i - start + 1);
    assert(p1.drop_last() =~= whole.subrange(start, i));
    assert(p1.last() == h[i - start]);
    assert(p1.last() == c);
    assert(digits_val(p1) == digits_val(p1.drop_last()) * 10 + digit_val(p1.last()));
    assert(digits_val(p1.drop_last()) == acc);
    assert(digits_val(p1) == acc * 10 + d);
    if all_digits(h) && digits_val(h) <= u64::MAX {
        lemma_digits_val_prefix_le(h, i - start + 1);
        assert(digits_val(p1) <= digits_val(h));
        assert(false);
    }
}

/// The value of a digit string is at least the value of any of its
/// prefixes.
proof fn lemma_digits_val_prefix_le(s: Seq<char>, k: int)
    requires
        all_digits(s),
        0 <= k <= s.len(),
    ensures
        digits_val(s.subrange(0, k)) <= digits_val(s),
        digits_val(s) >= 0,
    decreases s.len(),
{
    if s.len() == 0 {
        assert(s.subrange(0, k) =~= s);
    } else {
        assert(all_digits(s.drop_last()));
        lemma_digits_val_prefix_le(s.drop_last(), if k <= s.len() - 1 {
            k
        } else {
            s.len() - 1
        });
        if k <= s.len() - 1 {
            assert(s.subrange(0, k) =~= s.drop_last().subrange(0, k));
            assert(digits_val(s.drop_last()) * 10 + digit_val(s.last()) >= digits_val(
                s.drop_last(),
            ));
        } else {
            assert(s.subrange(0, k) =~= s);
        }
    }
}

/// Whether the actual version satisfies the required one in major.minor.
pub fn is_version_compatible(required: &str, actual: &str) -> (r: bool)
    ensures
        r == spec_compatible(spec_parse_version(required@), spec_parse_version(actual@)),
{
    let req = parse_version(required);
    let act = parse_version(actual);
    if req.len() == 0 {
        return true;
    }
    let a0: u64 = if act.len() > 0 {
        act[0]
    } else {
        0
    };
    if a0 > req[0] {
        return true;
    }
    if a0 < req[0] {
        return false;
    }
    if req.len() == 1 {
        return true;
    }
    let a1: u64 = if act.len() > 1 {
        act[1]
    } else {
        0
    };
    if a1 > req[1] {
        return true;
    }
    if a1 < req[1] {
        return false;
    }
    true
}

/// Compares two version strings; the higher version orders first.
pub fn compare_versions(a: &str, b: &str) -> (r: core::cmp::Ordering)
    ensures
        r == spec_compare(spec_parse_version(a@), spec_parse_version(b@)),
{
    let ap = parse_version(a);
    let bp = parse_version(b);
    let na = ap.len();
    let nb = bp.len();
    let max: usize = if na > nb {
        na
    } else {
        nb
    };
    let mut i: usize = 0;
    while i < max
        invariant
            na == ap@.len(),
            nb == bp@.len(),
            max == if na > nb {
                na
            } else {
                nb
            },
            0 <= i <= max,
            ap@ == spec_parse_version(a@),
            bp@ == spec_parse_version(b@),
            spec_compare_from(ap@, bp@, 0) == spec_compare_from(ap@, bp@, i as int),
        decreases max - i,
    {
        let av: u64 = if i < na {
            ap[i]
        } else {
            0
        };
        let bv: u64 = if i < nb {
            bp[i]
        } else {
            0
        };
        proof {
            assert(part_at(ap@, i as int) == av);
            assert(part_at(bp@, i as int) == bv);
        }
        if bv < av {
            proof {
                assert(spec_compare_from(ap@, bp@, i as int) == core::cmp::Ordering::Less);
            }
            return core::cmp::Ordering::Less;
        }
        if bv > av {
            proof {
                assert(spec_compare_from(ap@, bp@, i as int) == core::cmp::Ordering::Greater);
            }
            return core::cmp::Ordering::Greater;
        }
        i = i + 1;
    }
    proof {
        assert(spec_compare_from(ap@, bp@, i as int) == core::cmp::Ordering::Equal);
    }
    core::cmp::Ordering::Equal
}


/// Composition of lexicographic comparisons: comparing from one position,
/// a strictly greater version beats anything no greater than what it beat,
/// and equal versions compare alike against any third.
pub proof fn lemma_compare_from_trans(a: Seq<u64>, b: Seq<u64>, c: Seq<u64>, i: int)
    ensures
        (spec_compare_from(a, b, i) == core::cmp::Ordering::Less && spec_compare_from(b, c, i)
            != core::cmp::Ordering::Greater) ==> spec_compare_from(a, c, i)
            == core::cmp::Ordering::Less,
        (spec_compare_from(a, b, i) != core::cmp::Ordering::Greater && spec_compare_from(b, c, i)
            == core::cmp::Ordering::Less) ==> spec_compare_from(a, c, i)
            == core::cmp::Ordering::Less,
        (spec_compare_from(a, b, i) == core::cmp::Ordering::Equal && spec_compare_from(b, c, i)
            == core::cmp::Ordering::Equal) ==> spec_compare_from(a, c, i)
            == core::cmp::Ordering::Equal,
    decreases (if i <= a.len() || i <= b.len() || i <= c.len() {
        (a.len() + b.len() + c.len() + 3 - i) as int
    } else {
        0
    }),
{
    if i >= a.len() && i >= b.len() && i >= c.len() {
    } else {
        lemma_compare_from_trans(a, b, c, i + 1);
    }
}

/// A version list compares equal to itself from any position.
pub proof fn lemma_compare_from_refl(a: Seq<u64>, i: int)
    ensures
        spec_compare_from(a, a, i) == core::cmp::Ordering::Equal,
    decreases (if i <= a.len() {
        (a.len() + 1 - i) as int
    } else {
        0
    }),
{
    if i < a.len() {
        lemma_compare_from_refl(a, i + 1);
    }
}

/// Swapping the sides of a comparison swaps its outcome.
pub proof fn lemma_compare_from_antisym(a: Seq<u64>, b: Seq<u64>, i: int)
    ensures
        (spec_compare_from(a, b, i) == core::cmp::Ordering::Less) <==> (spec_compare_from(b, a, i)
            == core::cmp::Ordering::Greater),
        (spec_compare_from(a, b, i) == core::cmp::Ordering::Equal) <==> (spec_compare_from(b, a, i)
            == core::cmp::Ordering::Equal),
    decreases (if i <= a.len() || i <= b.len() {
        (a.len() + b.len() + 2 - i) as int
    } else {
        0
    }),
{
    if !(i >= a.len() && i >= b.len()) {
        lemma_compare_from_antisym(a, b, i + 1);
    }
}

/// The prefix that a dependency's package files carry:
/// `publisher_name_`.
pub open spec fn spec_app_prefix(publisher: Seq<char>, name: Seq<char>) -> Seq<char> {
    publisher + seq!['_'] + name + seq!['_']
}

/// The version text between the prefix and the `.app` suffix.
pub open spec fn spec_version_of(f: Seq<char>, pre: Seq<char>) -> Seq<char> {
    f.subrange(pre.len() as int, f.len() - 4)
}

/// Whether a file name offers the wanted dependency in a compatible
/// version.
pub open spec fn spec_candidate(f: Seq<char>, pre: Seq<char>, req: Seq<u64>) -> bool {
    &&& f.len() >= pre.len() + 4
    &&& f.subrange(0, pre.len() as int) == pre
    &&& f.subrange(f.len() - 4, f.len() as int) == ".app"@
    &&& spec_compatible(req, spec_parse_version(spec_version_of(f, pre)))
}

/// Checks one file name against the prefix, suffix and compatibility rule;
/// a candidate yields its version text.
fn candidate_version(f: &String, pre: &Vec<char>, required_version: &str) -> (r: Option<String>)
    ensures
        match r {
            Some(v) => spec_candidate(f@, pre@, spec_parse_version(required_version@)) && v@
                == spec_version_of(f@, pre@),
            None => !spec_candidate(f@, pre@, spec_parse_version(required_version@)),
        },
{
    let fc = crate::strutil::str_chars(f.as_str());
    let n = fc.len();
    let np = pre.len();
    if n < 4 || n - 4 < np {
        return None;
    }
    let mut i: usize = 0;
    while i < np
        invariant
            fc@ == f@,
            pre@.len() == np,
            n == f@.len(),
            n >= np + 4,
            0 <= i <= np,
            forall|j: int| 0 <= j < i ==> fc@[j] == pre@[j],
        decreases np - i,
    {
        if fc[i] != pre[i] {
            proof {
                assert(f@.subrange(0, np as int)[i as int] != pre@[i as int]);
            }
            return None;
        }
        i = i + 1;
    }
    proof {
        assert(f@.subrange(0, np as int) =~= pre@);
        reveal_strlit(".app");
    }
    if !(fc[n - 4] == '.' && fc[n - 3] == 'a' && fc[n - 2] == 'p' && fc[n - 1] == 'p') {
        proof {
            assert(f@.subrange(n - 4, n as int)[0] == f@[n - 4]);
            assert(f@.subrange(n - 4, n as int)[1] == f@[n - 3]);
            assert(f@.subrange(n - 4, n as int)[2] == f@[n - 2]);
            assert(f@.subrange(n - 4, n as int)[3] == f@[n - 1]);
        }
        return None;
    }
    proof {
        assert(f@.subrange(n - 4, n as int) =~= ".app"@);
    }
    let mut vchars: Vec<char> = Vec::new();
    let mut k: usize = np;
    while k < n - 4
        invariant
            fc@ == f@,
            n == f@.len(),
            n >= np + 4,
            np <= k <= n - 4,
            vchars@ == f@.subrange(np as int, k as int),
        decreases n - 4 - k,
    {
        vchars.push(fc[k]);
        proof {
            assert(vchars@ =~= f@.subrange(np as int, k + 1));
        }
        k = k + 1;
    }
    let vs = chars_to_string(&vchars);
    proof {
        assert(vs@ == spec_version_of(f@, pre@));
    }
    if is_version_compatible(required_version, vs.as_str()) {
        Some(vs)
    } else {
        None
    }
}

/// Picks the package file with the greatest compatible version for a
/// dependency; among files of equal version the earliest wins. Nothing is
/// returned when no file name is a compatible candidate.
pub fn select_best_app(
    file_names: &Vec<String>,
    publisher: &str,
    name: &str,
    required_version: &str,
) -> (r: Option<usize>)
    ensures
        ({
            let pre = spec_app_prefix(publisher@, name@);
            let req = spec_parse_version(required_version@);
            match r {
                Some(i) => {
                    &&& (i as int) < file_names@.len()
                    &&& spec_candidate(file_names@[i as int]@, pre, req)
                    &&& forall|j: int|
                        0 <= j < file_names@.len() && spec_candidate(
                            #[trigger] file_names@[j]@,
                            pre,
                            req,
                        ) ==> spec_compare(
                            spec_parse_version(spec_version_of(file_names@[i as int]@, pre)),
                            spec_parse_version(spec_version_of(file_names@[j]@, pre)),
                        ) != core::cmp::Ordering::Greater
                    &&& forall|j: int|
                        0 <= j < i && spec_candidate(#[trigger] file_names@[j]@, pre, req)
                            ==> spec_compare(
                            spec_parse_version(spec_version_of(file_names@[i as int]@, pre)),
                            spec_parse_version(spec_version_of(file_names@[j]@, pre)),
                        ) == core::cmp::Ordering::Less
                },
                None => forall|j: int|
                    0 <= j < file_names@.len() ==> !spec_candidate(
                        #[trigger] file_names@[j]@,
                        pre,
                        req,
                    ),
            }
        }),
{
    let mut pre: Vec<char> = crate::strutil::str_chars(publisher);
    pre.push('_');
    let namec = crate::strutil::str_chars(name);
    let mut t: usize = 0;
    while t < namec.len()
        invariant
            namec@ == name@,
            0 <= t <= namec@.len(),
            pre@ == publisher@ + seq!['_'] + name@.subrange(0, t as int),
        decreases namec@.len() - t,
    {
        pre.push(namec[t]);
        proof {
            assert(pre@ =~= publisher@ + seq!['_'] + name@.subrange(0, t + 1));
        }
        t = t + 1;
    }
    pre.push('_');
    proof {
        assert(name@.subrange(0, name@.len() as int) =~= name@);
        assert(pre@ =~= spec_app_prefix(publisher@, name@));
    }
    let ghost gpre = spec_app_prefix(publisher@, name@);
    let ghost req = spec_parse_version(required_version@);
    let n = file_names.len();
    let mut best_idx: usize = 0;
    let mut best_version: Option<String> = None;
    let mut j: usize = 0;
    while j < n
        invariant
            pre@ == gpre,
            req == spec_parse_version(required_version@),
            n == file_names@.len(),
            0 <= j <= n,
            match best_version {
                Some(bv) => {
                    &&& (best_idx as int) < j
                    &&& spec_candidate(file_names@[best_idx as int]@, gpre, req)
                    &&& bv@ == spec_version_of(file_names@[best_idx as int]@, gpre)
                    &&& forall|k: int|
                        0 <= k < j && spec_candidate(#[trigger] file_names@[k]@, gpre, req)
                            ==> spec_compare(
                            spec_parse_version(spec_version_of(file_names@[best_idx as int]@, gpre)),
                            spec_parse_version(spec_version_of(file_names@[k]@, gpre)),
                        ) != core::cmp::Ordering::Greater
                    &&& forall|k: int|
                        0 <= k < best_idx && spec_candidate(#[trigger] file_names@[k]@, gpre, req)
                            ==> spec_compare(
                            spec_parse_version(spec_version_of(file_names@[best_idx as int]@, gpre)),
                            spec_parse_version(spec_version_of(file_names@[k]@, gpre)),
                        ) == core::cmp::Ordering::Less
                },
                None => forall|k: int|
                    0 <= k < j ==> !spec_candidate(#[trigger] file_names@[k]@, gpre, req),
            },
        decreases n - j,
    {
        let cand = candidate_version(&file_names[j], &pre, required_version);
        let ghost vj = spec_parse_version(spec_version_of(file_names@[j as int]@, gpre));
        match cand {
            Some(vs) => {
                match &best_version {
                    None => {
                        proof {
                            lemma_compare_from_refl(vj, 0);
                        }
                        best_idx = j;
                        best_version = Some(vs);
                    },
                    Some(bv) => {
                        let ghost vb = spec_parse_version(
                            spec_version_of(file_names@[best_idx as int]@, gpre),
                        );
                        let ord = compare_versions(vs.as_str(), bv.as_str());
                        proof {
                            lemma_compare_from_refl(vj, 0);
                            lemma_compare_from_antisym(vj, vb, 0);
                        }
                        if matches!(ord, core::cmp::Ordering::Less) {
                            proof {
                                let vi = vj;
                                assert forall|k: int|
                                    0 <= k < j && spec_candidate(
                                        #[trigger] file_names@[k]@,
                                        gpre,
                                        req,
                                    ) implies spec_compare(
                                    vi,
                                    spec_parse_version(spec_version_of(file_names@[k]@, gpre)),
                                ) == core::cmp::Ordering::Less by {
                                    lemma_compare_from_trans(
                                        vi,
                                        vb,
                                        spec_parse_version(spec_version_of(file_names@[k]@, gpre)),
                                        0,
                                    );
                                }
                            }
                            best_idx = j;
                            best_version = Some(vs);
                        }
                    },
                }
            },
            None => {},
        }
        j = j + 1;
    }
    if best_version.is_some() {
        Some(best_idx)
    } else {
        None
    }
}


/// A dependency declared by the workspace: its app name, publisher and
/// required version.
pub struct AppDependency {
    pub name: String,
    pub publisher: String,
    pub version: String,
}

/// The identity of a dependency package.
pub struct AppMetadata {
    pub id: String,
    pub name: String,
    pub publisher: String,
    pub version: String,
}

/// A procedure of an external object.
pub struct ExternalMethod {
    pub name: String,
}

/// An object a dependency package ships, with its callable methods.
pub struct ExternalObject {
    pub name: String,
    pub object_type: crate::graph::ObjectType,
    pub methods: Vec<ExternalMethod>,
}

/// A dependency package, read into plain values: its identity and its
/// objects.
pub struct ParsedAppPackage {
    pub metadata: AppMetadata,
    pub objects: Vec<ExternalObject>,
}

/// A declared dependency together with the package file chosen for it
/// and that package's content.
pub struct ResolvedDependency {
    pub dependency: AppDependency,
    pub app_path: String,
    pub package: ParsedAppPackage,
}

} // verus!
