//! URI and path text conversion: `file://` URIs with the five escape
//! sequences the transport decodes and encodes.

use vstd::prelude::*;

use crate::extract::spec_starts_with;
use crate::strutil::{chars_to_string, str_chars};

verus! {

/// The decoded character of an escape sequence beginning at the front of
/// the text, if one begins there.
pub open spec fn spec_escape_at(s: Seq<char>) -> Option<char> {
    if s.len() >= 3 && s[0] == '%' {
        if s[1] == '2' && s[2] == '0' {
            Some(' ')
        } else if s[1] == '2' && s[2] == '8' {
            Some('(')
        } else if s[1] == '2' && s[2] == '9' {
            Some(')')
        } else if s[1] == '5' && s[2] == 'B' {
            Some('[')
        } else if s[1] == '5' && s[2] == 'D' {
            Some(']')
        } else {
            None
        }
    } else {
        None
    }
}

/// The text with the five escape sequences decoded, left to right.
pub open spec fn spec_pct_decode(s: Seq<char>) -> Seq<char>
    decreases s.len(),
{
    if s.len() == 0 {
        Seq::empty()
    } else {
        match spec_escape_at(s) {
            Some(c) => seq![c] + spec_pct_decode(s.skip(3)),
            None => seq![s[0]] + spec_pct_decode(s.skip(1)),
        }
    }
}

/// The escape sequence of one character, itself when none applies.
pub open spec fn spec_encode_char(c: char) -> Seq<char> {
    if c == ' ' {
        "%20"@
    } else if c == '(' {
        "%28"@
    } else if c == ')' {
        "%29"@
    } else if c == '[' {
        "%5B"@
    } else if c == ']' {
        "%5D"@
    } else {
        seq![c]
    }
}

/// The text with the five special characters escaped.
pub open spec fn spec_pct_encode(s: Seq<char>) -> Seq<char>
    decreases s.len(),
{
    if s.len() == 0 {
        Seq::empty()
    } else {
        spec_encode_char(s[0]) + spec_pct_encode(s.drop_first())
    }
}

/// Turns a `file://` URI into a path: the scheme is stripped and the
/// escape sequences are decoded; anything else is no file URI.
pub fn uri_to_path(uri: &str) -> (r: Option<String>)
    ensures
        match r {
            Some(p) => spec_starts_with(uri@, "file:///"@) && p@ == spec_pct_decode(
                uri@.skip(7),
            ),
            None => !spec_starts_with(uri@, "file:///"@),
        },
{
    let v = str_chars(uri);
    let n = v.len();
    proof {
        reveal_strlit("file:///");
    }
    if n < 8 {
        return None;
    }
    if !crate::parser::prefix_matches(&v, "file:///") {
        return None;
    }
    let ghost s = uri@;
    let mut out: Vec<char> = Vec::new();
    let mut i: usize = 7;
    proof {
        assert(spec_pct_decode(s.skip(7)) =~= Seq::<char>::empty() + spec_pct_decode(s.skip(7)));
    }
    while i < n
        invariant
            v@ == s,
            n == s.len(),
            7 <= i <= n,
            out@ + spec_pct_decode(s.skip(i as int)) == spec_pct_decode(s.skip(7)),
        decreases n - i,
    {
        let ghost rest = s.skip(i as int);
        let ghost out_pre = out@;
        proof {
            assert(rest[0] == s[i as int]);
            if n - i >= 3 {
                assert(rest[1] == s[i + 1] && rest[2] == s[i + 2]);
            }
        }
        let decoded: Option<char> = if n - i >= 3 && v[i] == '%' {
            if v[i + 1] == '2' && v[i + 2] == '0' {
                Some(' ')
            } else if v[i + 1] == '2' && v[i + 2] == '8' {
                Some('(')
            } else if v[i + 1] == '2' && v[i + 2] == '9' {
                Some(')')
            } else if v[i + 1] == '5' && v[i + 2] == 'B' {
                Some('[')
            } else if v[i + 1] == '5' && v[i + 2] == 'D' {
                Some(']')
            } else {
                None
            }
        } else {
            None
        };
        match decoded {
            Some(c) => {
                out.push(c);
                proof {
                    assert(spec_escape_at(rest) == Some(c));
                    assert(rest.skip(3) =~= s.skip(i + 3));
                    assert(out@ =~= out_pre + seq![c]);
                    assert((out_pre + seq![c]) + spec_pct_decode(s.skip(i + 3)) =~= out_pre + (
                    seq![c] + spec_pct_decode(s.skip(i + 3))));
                }
                i = i + 3;
            },
            None => {
                out.push(v[i]);
                proof {
                    assert(spec_escape_at(rest) is None);
                    assert(rest.skip(1) =~= s.skip(i + 1));
                    assert(out@ =~= out_pre + seq![s[i as int]]);
                    assert((out_pre + seq![s[i as int]]) + spec_pct_decode(s.skip(i + 1))
                        =~= out_pre + (seq![s[i as int]] + spec_pct_decode(s.skip(i + 1))));
                }
                i = i + 1;
            },
        }
    }
    proof {
        assert(s.skip(n as int).len() == 0);
        assert(out@ + Seq::<char>::empty() =~= out@);
    }
    Some(chars_to_string(&out))
}

/// Turns a path into a `file://` URI, escaping the five special
/// characters.
pub fn path_to_uri(path: &str) -> (r: String)
    ensures
        r@ == "file://"@ + spec_pct_encode(path@),
{
    let v = str_chars(path);
    let n = v.len();
    let ghost s = path@;
    let mut out: Vec<char> = Vec::new();
    proof {
        reveal_strlit("file://");
        reveal_strlit("%20");
        reveal_strlit("%28");
        reveal_strlit("%29");
        reveal_strlit("%5B");
        reveal_strlit("%5D");
    }
    let prefix = str_chars("file://");
    let mut k: usize = 0;
    while k < prefix.len()
        invariant
            prefix@ == "file://"@,
            0 <= k <= prefix@.len(),
            out@ == "file://"@.subrange(0, k as int),
        decreases prefix@.len() - k,
    {
        out.push(prefix[k]);
        proof {
            assert(out@ =~= "file://"@.subrange(0, k + 1));
        }
        k = k + 1;
    }
    proof {
        assert(out@ =~= "file://"@);
        assert(s.subrange(0, 0) =~= Seq::<char>::empty());
        assert(spec_pct_encode(Seq::<char>::empty()) == Seq::<char>::empty());
        assert(out@ + Seq::<char>::empty() =~= out@);
    }
    let mut i: usize = 0;
    while i < n
        invariant
            v@ == s,
            n == s.len(),
            0 <= i <= n,
            out@ == "file://"@ + spec_pct_encode(s.subrange(0, i as int)),
        decreases n - i,
    {
        let ghost out_pre = out@;
        let c = v[i];
        if c == ' ' {
            out.push('%');
            out.push('2');
            out.push('0');
        } else if c == '(' {
            out.push('%');
            out.push('2');
            out.push('8');
        } else if c == ')' {
            out.push('%');
            out.push('2');
            out.push('9');
        } else if c == '[' {
            out.push('%');
            out.push('5');
            out.push('B');
        } else if c == ']' {
            out.push('%');
            out.push('5');
            out.push('D');
        } else {
            out.push(c);
        }
        proof {
            reveal_strlit("%20");
            reveal_strlit("%28");
            reveal_strlit("%29");
            reveal_strlit("%5B");
            reveal_strlit("%5D");
            assert(out@ =~= out_pre + spec_encode_char(s[i as int]));
            lemma_encode_snoc(s, i as int);
            assert(out@ =~= "file://"@ + spec_pct_encode(s.subrange(0, i + 1)));
        }
        i = i + 1;
    }
    proof {
        assert(s.subrange(0, n as int) =~= s);
    }
    chars_to_string(&out)
}

/// Encoding one more character appends its escape.
proof fn lemma_encode_snoc(s: Seq<char>, i: int)
    requires
        0 <= i < s.len(),
    ensures
        spec_pct_encode(s.subrange(0, i + 1)) == spec_pct_encode(s.subrange(0, i))
            + spec_encode_char(s[i]),
    decreases i,
{
    if i == 0 {
        assert(s.subrange(0, 1)[0] == s[0]);
        assert(s.subrange(0, 1).drop_first() =~= s.subrange(0, 0));
        assert(spec_pct_encode(s.subrange(0, 0)) == Seq::<char>::empty());
        assert(spec_pct_encode(s.subrange(0, 1)) =~= Seq::<char>::empty() + spec_encode_char(
            s[0],
        ) + Seq::<char>::empty());
        assert(Seq::<char>::empty() + spec_encode_char(s[0]) + Seq::<char>::empty()
            =~= spec_pct_encode(s.subrange(0, 0)) + spec_encode_char(s[0]));
    } else {
        assert(s.subrange(0, i + 1)[0] == s[0]);
        assert(s.subrange(0, i + 1).drop_first() =~= s.drop_first().subrange(0, i));
        assert(s.subrange(0, i).drop_first() =~= s.drop_first().subrange(0, i - 1));
        assert(s.subrange(0, i)[0] == s[0]);
        lemma_encode_snoc(s.drop_first(), i - 1);
        assert(s.drop_first()[i - 1] == s[i]);
        assert(spec_encode_char(s[0]) + (spec_pct_encode(s.drop_first().subrange(0, i - 1))
            + spec_encode_char(s[i])) =~= (spec_encode_char(s[0]) + spec_pct_encode(
            s.drop_first().subrange(0, i - 1),
        )) + spec_encode_char(s[i]));
    }
}

} // verus!
