//! Name normalization for matching AL object names: identifiers that
//! differ only in quoting, spacing, dashes or case refer to the same
//! object.

use vstd::prelude::*;

use crate::graph::{CallGraph, CallSite, Definition, QualifiedName};
use crate::strutil::{chars_to_string, is_space, lower_of, lowercase, str_chars, trim_by};

verus! {

/// Resolves call sites against a graph, without knowing their callers.
pub struct Resolver<'a> {
    graph: &'a CallGraph,
}

impl<'a> Resolver<'a> {
    /// The graph resolved against.
    pub closed spec fn spec_graph(self) -> CallGraph {
        *self.graph
    }

    pub fn new(graph: &'a CallGraph) -> (r: Resolver<'a>)
        ensures
            r.spec_graph() == *graph,
    {
        Resolver { graph }
    }

    /// The qualified name a call targets when its receiver is taken as
    /// written; an unqualified call cannot be resolved without its
    /// caller.
    pub fn resolve_call_to_qname(&self, call: &CallSite) -> (r: Option<QualifiedName>)
        ensures
            match call.callee_object {
                Some(obj) => r == Some(
                    QualifiedName { object: obj, procedure: call.callee_method },
                ),
                None => r is None,
            },
    {
        match call.callee_object {
            Some(obj) => Some(QualifiedName { object: obj, procedure: call.callee_method }),
            None => None,
        }
    }

    /// The definition a call targets, when the receiver names one.
    pub fn resolve_call(&self, call: &CallSite) -> (r: Option<Definition>)
        requires
            self.spec_graph().wf(),
        ensures
            match call.callee_object {
                Some(obj) => {
                    let qk = crate::spec_qkey(obj, call.callee_method);
                    match r {
                        Some(d) => self.spec_graph().defs().contains_key(qk) && d
                            == self.spec_graph().defs()[qk],
                        None => !self.spec_graph().defs().contains_key(qk),
                    }
                },
                None => r is None,
            },
    {
        match self.resolve_call_to_qname(call) {
            Some(qname) => {
                match self.graph.get_definition(&qname) {
                    Some(d) => Some(*d),
                    None => None,
                }
            },
            None => None,
        }
    }

    /// Every definition whose own name is the given method name.
    pub fn find_matching_definitions(&self, method_name: &str) -> (r: Vec<Definition>)
        requires
            self.spec_graph().wf(),
        ensures
            ({
                let g = self.spec_graph();
                r@ == g.defs_kv().map_values(|p: (u64, Definition)| p.1).filter(
                    |d: Definition| (d.name as int) < g.strings().len() && g.strings()[
                        d.name as int
                    ] == method_name@,
                )
            }),
    {
        let g = self.graph;
        let defs = g.definitions_vec();
        let ghost dl = defs@;
        let ghost pred = |d: Definition|
            (d.name as int) < g.strings().len() && g.strings()[d.name as int] == method_name@;
        let mut r: Vec<Definition> = Vec::new();
        let n = defs.len();
        let mut t: usize = 0;
        proof {
            reveal(Seq::filter);
            assert(dl.take(0) =~= Seq::<Definition>::empty());
        }
        while t < n
            invariant
                g.wf(),
                defs@ == dl,
                n == dl.len(),
                0 <= t <= n,
                pred == (|d: Definition|
                    (d.name as int) < g.strings().len() && g.strings()[d.name as int]
                        == method_name@),
                r@ == dl.take(t as int).filter(pred),
            decreases n - t,
        {
            proof {
                reveal(Seq::filter);
                assert(dl.take(t + 1).drop_last() =~= dl.take(t as int));
                assert(dl.take(t + 1).last() == dl[t as int]);
            }
            let hit = match g.resolve(defs[t].name) {
                Some(nm) => crate::strutil::str_eq(nm, method_name),
                None => false,
            };
            if hit {
                r.push(defs[t]);
            }
            t = t + 1;
        }
        proof {
            assert(dl.take(n as int) =~= dl);
        }
        r
    }
}

/// The characters that normalization removes from the inside of a name.
pub open spec fn keeps_char(c: char) -> bool {
    c != ' ' && c != '-'
}

/// What `normalize_object_name` returns: the name trimmed of white space
/// and surrounding double quotes, with spaces and dashes removed, in lower
/// case.
pub open spec fn spec_normalize_object_name(s: Seq<char>) -> Seq<char> {
    lower_of(
        trim_by(trim_by(s, |c: char| is_space(c)), |c: char| c == '"').filter(
            |c: char| keeps_char(c),
        ),
    )
}

/// Normalizes an object name for matching: trims white space and
/// surrounding double quotes, removes spaces and dashes, lower-cases.
pub fn normalize_object_name(name: &str) -> (r: String)
    ensures
        r@ == spec_normalize_object_name(name@),
{
    let v = str_chars(name);
    let ghost s0 = name@;
    let mut lo: usize = 0;
    let mut hi: usize = v.len();
    crate::strutil::trim_pass(&v, &mut lo, &mut hi, 0);
    proof {
        crate::strutil::lemma_trim_by_bounds(s0, |c: char| is_space(c), lo as int, hi as int);
    }
    let ghost s1 = trim_by(s0, |c: char| is_space(c));
    let lo1 = lo;
    crate::strutil::trim_pass(&v, &mut lo, &mut hi, 1);
    proof {
        crate::strutil::lemma_trim_by_bounds(s1, |c: char| c == '"', lo - lo1, hi - lo1);
        assert(s1.subrange(lo - lo1, hi - lo1) =~= s0.subrange(lo as int, hi as int));
    }
    let ghost s2 = trim_by(s1, |c: char| c == '"');
    let mut out: Vec<char> = Vec::new();
    let mut i: usize = lo;
    proof {
        reveal(Seq::filter);
        assert(s0.subrange(lo as int, lo as int) =~= Seq::<char>::empty());
        assert(Seq::<char>::empty().filter(|c: char| keeps_char(c)) =~= Seq::<char>::empty());
    }
    while i < hi
        invariant
            v@ == s0,
            0 <= lo <= i <= hi <= s0.len(),
            out@ == s0.subrange(lo as int, i as int).filter(|c: char| keeps_char(c)),
        decreases hi - i,
    {
        let c = v[i];
        proof {
            reveal(Seq::filter);
            assert(s0.subrange(lo as int, i + 1).drop_last() =~= s0.subrange(lo as int, i as int));
            assert(s0.subrange(lo as int, i + 1).last() == s0[i as int]);
        }
        if c != ' ' && c != '-' {
            out.push(c);
        }
        i = i + 1;
    }
    proof {
        assert(s0.subrange(lo as int, hi as int) == s2);
    }
    let kept = chars_to_string(&out);
    lowercase(kept.as_str())
}

/// Whether two object names refer to the same object once normalized.
pub fn names_match(name1: &str, name2: &str) -> (r: bool)
    ensures
        r == (spec_normalize_object_name(name1@) == spec_normalize_object_name(name2@)),
{
    let n1 = normalize_object_name(name1);
    let n2 = normalize_object_name(name2);
    n1 == n2
}

} // verus!
