//! The extractor's output types and the string-level parsing of variable
//! type specifications.

use vstd::prelude::*;

use crate::graph::{DefinitionKind, ObjectType, TextRange};
use crate::strutil::{
    chars_to_string, is_space, spec_clean_name, str_chars, trim_by, clean_name,
};

verus! {

/// Everything extracted from one AL file.
pub struct ParsedFile {
    /// The kind of the file's object header, when one was found.
    pub object_type: Option<ObjectType>,
    /// The object's name, when one was found.
    pub object_name: Option<String>,
    /// Procedure and trigger definitions.
    pub definitions: Vec<ParsedDefinition>,
    /// Call sites.
    pub calls: Vec<ParsedCall>,
    /// Variable declarations.
    pub variables: Vec<ParsedVariable>,
}

/// A definition found in the source, with the metrics measured on its
/// subtree and, for an event subscriber, its declared target.
pub struct ParsedDefinition {
    pub name: String,
    pub range: TextRange,
    pub kind: DefinitionKind,
    pub complexity: u32,
    pub line_count: u32,
    pub parameter_count: u32,
    pub event_target_object: Option<String>,
    pub event_target_procedure: Option<String>,
}

/// A call found in the source.
pub struct ParsedCall {
    /// The receiver before the dot, absent for bare calls.
    pub object: Option<String>,
    /// The method called.
    pub method: String,
    /// The extent of the call expression.
    pub range: TextRange,
    /// The procedure or trigger the call stands in, when known.
    pub containing_procedure: Option<String>,
}

/// A variable declaration found in the source.
pub struct ParsedVariable {
    /// The variable's name.
    pub name: String,
    /// The name of its type's object, or the bare type text.
    pub ty_name: String,
    /// The recognized type keyword, for object-typed variables.
    pub ty_kind: Option<String>,
    /// The procedure the declaration stands in, when known.
    pub containing_procedure: Option<String>,
}

/// The first position of a character in a string.
pub open spec fn spec_find_char(s: Seq<char>, c: char) -> Option<int>
    decreases s.len(),
{
    if s.len() == 0 {
        None
    } else if s[0] == c {
        Some(0)
    } else {
        match spec_find_char(s.drop_first(), c) {
            Some(i) => Some(i + 1),
            None => None,
        }
    }
}

/// What `extract_quoted_name` returns: the text between the first pair of
/// double quotes; unquoted text is cleaned instead; empty text is nothing.
pub open spec fn spec_extract_quoted_name(text: Seq<char>) -> Option<Seq<char>> {
    let tr = trim_by(text, |c: char| is_space(c));
    if tr.len() > 0 && tr[0] == '"' {
        match spec_find_char(tr.drop_first(), '"') {
            Some(e) => Some(tr.subrange(1, e + 1)),
            None => Some(spec_clean_name(tr)),
        }
    } else if tr.len() > 0 {
        Some(spec_clean_name(tr))
    } else {
        None
    }
}

/// Extracts an object name from a type tail: `"Customer"` yields
/// `Customer`; an unquoted tail is cleaned; an empty tail yields nothing.
pub fn extract_quoted_name(text: &str) -> (r: Option<String>)
    ensures
        match r {
            Some(v) => spec_extract_quoted_name(text@) == Some(v@),
            None => spec_extract_quoted_name(text@) is None,
        },
{
    let v = str_chars(text);
    let ghost s0 = text@;
    let mut lo: usize = 0;
    let mut hi: usize = v.len();
    crate::strutil::trim_pass(&v, &mut lo, &mut hi, 0);
    proof {
        crate::strutil::lemma_trim_by_bounds(s0, |c: char| is_space(c), lo as int, hi as int);
    }
    let ghost tr = trim_by(s0, |c: char| is_space(c));
    if lo == hi {
        proof {
            assert(tr.len() == 0);
        }
        return None;
    }
    if v[lo] == '"' {
        // look for the closing quote after the first
        let mut k: usize = lo + 1;
        while k < hi
            invariant
                v@ == s0,
                s0 == text@,
                lo < hi <= s0.len(),
                tr == trim_by(s0, |c: char| is_space(c)),
                tr == s0.subrange(lo as int, hi as int),
                s0[lo as int] == '"',
                lo + 1 <= k <= hi,
                forall|j: int| lo + 1 <= j < k ==> s0[j] != '"',
            decreases hi - k,
        {
            if v[k] == '"' {
                proof {
                    lemma_find_char_at(tr.drop_first(), '"', k - lo - 1);
                    assert(tr.drop_first() =~= s0.subrange(lo + 1, hi as int));
                }
                let mut out: Vec<char> = Vec::new();
                let mut t: usize = lo + 1;
                while t < k
                    invariant
                        v@ == s0,
                        lo + 1 <= t <= k < s0.len(),
                        out@ == s0.subrange(lo + 1, t as int),
                    decreases k - t,
                {
                    out.push(v[t]);
                    proof {
                        assert(out@ =~= s0.subrange(lo + 1, t + 1));
                    }
                    t = t + 1;
                }
                proof {
                    assert(tr.subrange(1, (k - lo - 1) + 1) =~= s0.subrange(lo + 1, k as int));
                }
                return Some(chars_to_string(&out));
            }
            k = k + 1;
        }
        proof {
            lemma_find_char_none(tr.drop_first(), '"');
            assert(tr.drop_first() =~= s0.subrange(lo + 1, hi as int));
        }
        Some(clean_name_range(&v, lo, hi, Ghost(tr)))
    } else {
        Some(clean_name_range(&v, lo, hi, Ghost(tr)))
    }
}

/// A character at a known first position pins down the search.
pub(crate) proof fn lemma_find_char_at(s: Seq<char>, c: char, i: int)
    requires
        0 <= i < s.len(),
        s[i] == c,
        forall|j: int| 0 <= j < i ==> s[j] != c,
    ensures
        spec_find_char(s, c) == Some(i),
    decreases i,
{
    if i > 0 {
        lemma_find_char_at(s.drop_first(), c, i - 1);
    }
}

/// No occurrence means no position.
pub(crate) proof fn lemma_find_char_none(s: Seq<char>, c: char)
    requires
        forall|j: int| 0 <= j < s.len() ==> s[j] != c,
    ensures
        spec_find_char(s, c) is None,
    decreases s.len(),
{
    if s.len() > 0 {
        lemma_find_char_none(s.drop_first(), c);
    }
}

/// Cleans the already white-space-trimmed text `v[lo..hi]`.
fn clean_name_range(v: &Vec<char>, lo: usize, hi: usize, tr: Ghost<Seq<char>>) -> (r: String)
    requires
        0 <= lo <= hi <= v@.len(),
        tr@ == v@.subrange(lo as int, hi as int),
    ensures
        r@ == spec_clean_name(tr@),
{
    let mut out: Vec<char> = Vec::new();
    let mut t: usize = lo;
    while t < hi
        invariant
            0 <= lo <= t <= hi <= v@.len(),
            out@ == v@.subrange(lo as int, t as int),
        decreases hi - t,
    {
        out.push(v[t]);
        proof {
            assert(out@ =~= v@.subrange(lo as int, t + 1));
        }
        t = t + 1;
    }
    proof {
        assert(out@ =~= tr@);
    }
    let text = chars_to_string(&out);
    let r = clean_name(text.as_str());
    proof {
        assert(spec_clean_name(tr@) == spec_clean_name(text@));
    }
    r
}

/// The type keywords that bind a variable to an object.
pub open spec fn spec_type_patterns() -> Seq<Seq<char>> {
    seq![
        "Record"@,
        "Codeunit"@,
        "Page"@,
        "Report"@,
        "Query"@,
        "XmlPort"@,
        "Enum"@,
        "Interface"@,
    ]
}

/// What `parse_type_specification` returns, trying the keywords from a
/// given position in the pattern list onward.
pub open spec fn spec_parse_type_from(tr: Seq<char>, i: int) -> (Option<Seq<char>>, Seq<char>)
    decreases spec_type_patterns().len() - i,
{
    if i < 0 || i >= spec_type_patterns().len() {
        (None, spec_clean_name(tr))
    } else {
        let pat = spec_type_patterns()[i];
        if tr.len() >= pat.len() && tr.subrange(0, pat.len() as int) == pat {
            let rest = trim_by(tr.skip(pat.len() as int), |c: char| is_space(c));
            match spec_extract_quoted_name(rest) {
                Some(n) => (Some(pat), n),
                None => spec_parse_type_from(tr, i + 1),
            }
        } else {
            spec_parse_type_from(tr, i + 1)
        }
    }
}

/// What `parse_type_specification` returns: the recognized keyword and
/// the object name, or the cleaned text when no keyword applies.
pub open spec fn spec_parse_type_specification(text: Seq<char>) -> (Option<Seq<char>>, Seq<char>) {
    spec_parse_type_from(trim_by(text, |c: char| is_space(c)), 0)
}

/// Splits a type specification such as `Record "Customer"` into its
/// keyword and object name; anything unrecognized is returned cleaned,
/// with no keyword.
pub fn parse_type_specification(type_text: &str) -> (r: (Option<String>, String))
    ensures
        ({
            let (sk, sn) = spec_parse_type_specification(type_text@);
            &&& match r.0 {
                Some(k) => sk == Some(k@),
                None => sk is None,
            }
            &&& r.1@ == sn
        }),
{
    let v = str_chars(type_text);
    let ghost s0 = type_text@;
    let mut lo: usize = 0;
    let mut hi: usize = v.len();
    crate::strutil::trim_pass(&v, &mut lo, &mut hi, 0);
    proof {
        crate::strutil::lemma_trim_by_bounds(s0, |c: char| is_space(c), lo as int, hi as int);
    }
    let ghost tr = trim_by(s0, |c: char| is_space(c));
    let mut trimmed_chars: Vec<char> = Vec::new();
    let mut t: usize = lo;
    while t < hi
        invariant
            v@ == s0,
            0 <= lo <= t <= hi <= s0.len(),
            trimmed_chars@ == s0.subrange(lo as int, t as int),
        decreases hi - t,
    {
        trimmed_chars.push(v[t]);
        proof {
            assert(trimmed_chars@ =~= s0.subrange(lo as int, t + 1));
        }
        t = t + 1;
    }
    proof {
        assert(trimmed_chars@ =~= tr);
    }
    let trimmed = chars_to_string(&trimmed_chars);
    let patterns: [&'static str; 8] = [
        "Record",
        "Codeunit",
        "Page",
        "Report",
        "Query",
        "XmlPort",
        "Enum",
        "Interface",
    ];
    proof {
        reveal_strlit("Record");
        reveal_strlit("Codeunit");
        reveal_strlit("Page");
        reveal_strlit("Report");
        reveal_strlit("Query");
        reveal_strlit("XmlPort");
        reveal_strlit("Enum");
        reveal_strlit("Interface");
        assert(patterns@.map_values(|p: &'static str| p@) =~= spec_type_patterns());
    }
    let mut i: usize = 0;
    while i < 8
        invariant
            trimmed_chars@ == tr,
            trimmed@ == tr,
            tr == trim_by(type_text@, |c: char| is_space(c)),
            0 <= i <= 8,
            spec_type_patterns().len() == 8,
            forall|j: int|
                0 <= j < 8 ==> (#[trigger] patterns@[j])@ == spec_type_patterns()[j],
            spec_parse_type_from(tr, 0) == spec_parse_type_from(tr, i as int),
        decreases 8 - i,
    {
        let pat = patterns[i];
        let pn = pat.unicode_len();
        if pn <= trimmed_chars.len() && prefix_matches(&trimmed_chars, pat) {
            let ghost rest0 = tr.skip(pn as int);
            let mut rlo: usize = pn;
            let mut rhi: usize = trimmed_chars.len();
            crate::strutil::trim_pass(&trimmed_chars, &mut rlo, &mut rhi, 0);
            proof {
                crate::strutil::lemma_trim_by_bounds(
                    rest0,
                    |c: char| is_space(c),
                    rlo - pn,
                    rhi - pn,
                );
                assert(rest0.subrange(rlo - pn, rhi - pn) =~= tr.subrange(
                    rlo as int,
                    rhi as int,
                ));
            }
            let mut rest_chars: Vec<char> = Vec::new();
            let mut u: usize = rlo;
            while u < rhi
                invariant
                    trimmed_chars@ == tr,
                    0 <= rlo <= u <= rhi <= tr.len(),
                    rest_chars@ == tr.subrange(rlo as int, u as int),
                decreases rhi - u,
            {
                rest_chars.push(trimmed_chars[u]);
                proof {
                    assert(rest_chars@ =~= tr.subrange(rlo as int, u + 1));
                }
                u = u + 1;
            }
            proof {
                assert(rest_chars@ =~= tr.subrange(rlo as int, rhi as int));
            }
            let rest = chars_to_string(&rest_chars);
            match extract_quoted_name(rest.as_str()) {
                Some(n) => {
                    return (Some(pat.to_owned()), n);
                },
                None => {},
            }
        }
        i = i + 1;
    }
    let cleaned = clean_name(trimmed.as_str());
    (None, cleaned)
}

/// Whether a pattern is a prefix of the characters.
pub(crate) fn prefix_matches(v: &Vec<char>, pat: &str) -> (r: bool)
    requires
        pat@.len() <= v@.len(),
    ensures
        r == (v@.subrange(0, pat@.len() as int) == pat@),
{
    let n = pat.unicode_len();
    let mut i: usize = 0;
    while i < n
        invariant
            n == pat@.len() <= v@.len(),
            0 <= i <= n,
            forall|j: int| 0 <= j < i ==> v@[j] == pat@[j],
        decreases n - i,
    {
        if v[i] != pat.get_char(i) {
            proof {
                assert(v@.subrange(0, n as int)[i as int] != pat@[i as int]);
            }
            return false;
        }
        i = i + 1;
    }
    proof {
        assert(v@.subrange(0, n as int) =~= pat@);
    }
    true
}

} // verus!
