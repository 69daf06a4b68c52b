//! Code-quality analysis: cyclomatic complexity, method length and
//! parameter counts per definition, a quality score on a 0 to 10 scale
//! kept in hundredths, findings against fixed thresholds, and summary
//! totals.

use vstd::prelude::*;
use vstd::string::StringExecFns;

use crate::strutil::{dec_digits, u32_to_string};
use crate::syntax::{
    calculate_complexity, capped, count_parameters, spec_complexity, spec_count_params,
    spec_line_one_based, spec_span_lines, FieldTag, NodeKind, SyntaxNode,
};

verus! {

/// The metrics of one procedure or trigger. The quality score is kept in
/// hundredths of a point, from 0 to 1000.
pub struct ProcedureMetrics {
    pub object_type: String,
    pub object_name: String,
    pub procedure_name: String,
    pub file: String,
    pub line: u32,
    pub complexity: u32,
    pub line_count: u32,
    pub parameter_count: u32,
    pub quality_score_centi: u32,
}

/// One finding of the analysis.
pub struct Finding {
    pub category: String,
    pub severity: String,
    pub location: String,
    pub procedure: String,
    pub description: String,
}

/// Summary totals over all metrics; averages are the totals divided by
/// the count.
pub struct AnalysisSummary {
    pub total_procedures: usize,
    pub complexity_total: u64,
    pub quality_score_centi_total: u64,
    pub critical_findings: usize,
    pub warning_findings: usize,
}

/// The whole analysis of a project.
pub struct AnalysisResult {
    pub metrics: Vec<ProcedureMetrics>,
    pub findings: Vec<Finding>,
    pub summary: AnalysisSummary,
}

/// The complexity penalty, in hundredths.
pub open spec fn spec_complexity_penalty(c: int) -> int {
    if c > 4 {
        160 + (c - 4) * 120
    } else if c > 2 {
        (c - 2) * 80
    } else {
        0
    }
}

/// The method-length penalty, in hundredths.
pub open spec fn spec_length_penalty(l: int) -> int {
    if l > 15 {
        150 + (l - 15) * 15
    } else if l > 10 {
        (l - 10) * 30
    } else {
        0
    }
}

/// The parameter-count penalty, in hundredths.
pub open spec fn spec_params_penalty(p: int) -> int {
    if p > 4 {
        100 + (p - 4) * 80
    } else if p > 2 {
        (p - 2) * 50
    } else {
        0
    }
}

/// The quality score in hundredths: ten points minus the three penalties,
/// floored at zero.
pub open spec fn spec_quality_centi(c: int, l: int, p: int) -> int {
    let s = 1000 - spec_complexity_penalty(c) - spec_length_penalty(l) - spec_params_penalty(p);
    if s < 0 {
        0
    } else {
        s
    }
}

/// Computes the quality score of a definition, in hundredths of a point.
pub fn calculate_quality_score(complexity: u32, line_count: u32, params: u32) -> (r: u32)
    ensures
        r == spec_quality_centi(complexity as int, line_count as int, params as int),
        r <= 1000,
{
    let c = complexity as u64;
    let l = line_count as u64;
    let p = params as u64;
    let pen_c: u64 = if c > 4 {
        160 + (c - 4) * 120
    } else if c > 2 {
        (c - 2) * 80
    } else {
        0
    };
    let pen_l: u64 = if l > 15 {
        150 + (l - 15) * 15
    } else if l > 10 {
        (l - 10) * 30
    } else {
        0
    };
    let pen_p: u64 = if p > 4 {
        100 + (p - 4) * 80
    } else if p > 2 {
        (p - 2) * 50
    } else {
        0
    };
    if pen_c + pen_l + pen_p >= 1000 {
        0
    } else {
        (1000 - pen_c - pen_l - pen_p) as u32
    }
}

/// A finding, by value.
pub open spec fn finding_view(f: Finding) -> (
    Seq<char>,
    Seq<char>,
    Seq<char>,
    Seq<char>,
    Seq<char>,
) {
    (f.category@, f.severity@, f.location@, f.procedure@, f.description@)
}

/// `file:line`.
pub open spec fn spec_location(file: Seq<char>, line: nat) -> Seq<char> {
    file + seq![':'] + dec_digits(line)
}

/// `object.procedure`.
pub open spec fn spec_procedure_label(obj: Seq<char>, name: Seq<char>) -> Seq<char> {
    obj + seq!['.'] + name
}

/// A threshold message: the lead text, the measured value, the middle
/// text and the threshold.
pub open spec fn spec_threshold_msg(
    lead: Seq<char>,
    value: nat,
    middle: Seq<char>,
    threshold: nat,
) -> Seq<char> {
    lead + dec_digits(value) + middle + dec_digits(threshold)
}

/// The metric fields findings are computed from.
pub open spec fn metrics_view(m: ProcedureMetrics) -> (Seq<char>, Seq<char>, Seq<char>, nat, nat, nat, nat) {
    (m.object_name@, m.procedure_name@, m.file@, m.line as nat, m.complexity as nat,
    m.line_count as nat, m.parameter_count as nat)
}

/// The findings one metric generates: at most one complexity finding, one
/// length finding and one parameter finding, critical before warning.
pub open spec fn spec_findings_of(m: ProcedureMetrics) -> Seq<
    (Seq<char>, Seq<char>, Seq<char>, Seq<char>, Seq<char>),
> {
    let loc = spec_location(m.file@, m.line as nat);
    let label = spec_procedure_label(m.object_name@, m.procedure_name@);
    let comp: Seq<(Seq<char>, Seq<char>, Seq<char>, Seq<char>, Seq<char>)> = if m.complexity
        >= 10 {
        seq![
            (
                "high_complexity"@,
                "critical"@,
                loc,
                label,
                spec_threshold_msg(
                    "Cyclomatic complexity "@,
                    m.complexity as nat,
                    " exceeds critical threshold of "@,
                    10,
                ),
            ),
        ]
    } else if m.complexity >= 5 {
        seq![
            (
                "high_complexity"@,
                "warning"@,
                loc,
                label,
                spec_threshold_msg(
                    "Cyclomatic complexity "@,
                    m.complexity as nat,
                    " exceeds warning threshold of "@,
                    5,
                ),
            ),
        ]
    } else {
        Seq::empty()
    };
    let length: Seq<(Seq<char>, Seq<char>, Seq<char>, Seq<char>, Seq<char>)> = if m.line_count
        >= 50 {
        seq![
            (
                "long_method"@,
                "critical"@,
                loc,
                label,
                spec_threshold_msg(
                    "Method length "@,
                    m.line_count as nat,
                    " lines exceeds critical threshold of "@,
                    50,
                ),
            ),
        ]
    } else if m.line_count >= 20 {
        seq![
            (
                "long_method"@,
                "warning"@,
                loc,
                label,
                spec_threshold_msg(
                    "Method length "@,
                    m.line_count as nat,
                    " lines exceeds warning threshold of "@,
                    20,
                ),
            ),
        ]
    } else {
        Seq::empty()
    };
    let params: Seq<(Seq<char>, Seq<char>, Seq<char>, Seq<char>, Seq<char>)> = if m
        .parameter_count >= 7 {
        seq![
            (
                "too_many_parameters"@,
                "critical"@,
                loc,
                label,
                spec_threshold_msg(
                    "Parameter count "@,
                    m.parameter_count as nat,
                    " exceeds critical threshold of "@,
                    7,
                ),
            ),
        ]
    } else if m.parameter_count >= 4 {
        seq![
            (
                "too_many_parameters"@,
                "warning"@,
                loc,
                label,
                spec_threshold_msg(
                    "Parameter count "@,
                    m.parameter_count as nat,
                    " exceeds warning threshold of "@,
                    4,
                ),
            ),
        ]
    } else {
        Seq::empty()
    };
    comp + length + params
}

/// Builds `file:line`.
fn location_label(file: &str, line: u32) -> (r: String)
    ensures
        r@ == spec_location(file@, line as nat),
{
    let mut s = file.to_owned();
    s.append(":");
    let num = u32_to_string(line);
    s.append(num.as_str());
    proof {
        reveal_strlit(":");
        assert(":"@ =~= seq![':']);
        assert(s@ =~= spec_location(file@, line as nat));
    }
    s
}

/// Builds `object.procedure`.
fn procedure_label(obj: &str, name: &str) -> (r: String)
    ensures
        r@ == spec_procedure_label(obj@, name@),
{
    let mut s = obj.to_owned();
    s.append(".");
    s.append(name);
    proof {
        reveal_strlit(".");
        assert("."@ =~= seq!['.']);
        assert(s@ =~= spec_procedure_label(obj@, name@));
    }
    s
}

/// Builds a threshold message.
fn threshold_msg(lead: &str, value: u32, middle: &str, threshold: u32) -> (r: String)
    ensures
        r@ == spec_threshold_msg(lead@, value as nat, middle@, threshold as nat),
{
    let mut s = lead.to_owned();
    let v = u32_to_string(value);
    s.append(v.as_str());
    s.append(middle);
    let t = u32_to_string(threshold);
    s.append(t.as_str());
    proof {
        assert(s@ =~= spec_threshold_msg(lead@, value as nat, middle@, threshold as nat));
    }
    s
}

/// Generates the findings of one metric: complexity at five and ten,
/// length at twenty and fifty, parameters at four and seven; the higher
/// threshold is critical, the lower a warning.
pub fn generate_findings(metrics: &ProcedureMetrics) -> (r: Vec<Finding>)
    ensures
        r@.map_values(|f: Finding| finding_view(f)) == spec_findings_of(*metrics),
{
    let mut findings: Vec<Finding> = Vec::new();
    let location = location_label(metrics.file.as_str(), metrics.line);
    let procedure = procedure_label(
        metrics.object_name.as_str(),
        metrics.procedure_name.as_str(),
    );
    if metrics.complexity >= 10 {
        findings.push(
            Finding {
                category: str_owned("high_complexity"),
                severity: str_owned("critical"),
                location: str_clone(&location),
                procedure: str_clone(&procedure),
                description: threshold_msg(
                    "Cyclomatic complexity ",
                    metrics.complexity,
                    " exceeds critical threshold of ",
                    10,
                ),
            },
        );
    } else if metrics.complexity >= 5 {
        findings.push(
            Finding {
                category: str_owned("high_complexity"),
                severity: str_owned("warning"),
                location: str_clone(&location),
                procedure: str_clone(&procedure),
                description: threshold_msg(
                    "Cyclomatic complexity ",
                    metrics.complexity,
                    " exceeds warning threshold of ",
                    5,
                ),
            },
        );
    }
    if metrics.line_count >= 50 {
        findings.push(
            Finding {
                category: str_owned("long_method"),
                severity: str_owned("critical"),
                location: str_clone(&location),
                procedure: str_clone(&procedure),
                description: threshold_msg(
                    "Method length ",
                    metrics.line_count,
                    " lines exceeds critical threshold of ",
                    50,
                ),
            },
        );
    } else if metrics.line_count >= 20 {
        findings.push(
            Finding {
                category: str_owned("long_method"),
                severity: str_owned("warning"),
                location: str_clone(&location),
                procedure: str_clone(&procedure),
                description: threshold_msg(
                    "Method length ",
                    metrics.line_count,
                    " lines exceeds warning threshold of ",
                    20,
                ),
            },
        );
    }
    if metrics.parameter_count >= 7 {
        findings.push(
            Finding {
                category: str_owned("too_many_parameters"),
                severity: str_owned("critical"),
                location,
                procedure,
                description: threshold_msg(
                    "Parameter count ",
                    metrics.parameter_count,
                    " exceeds critical threshold of ",
                    7,
                ),
            },
        );
    } else if metrics.parameter_count >= 4 {
        findings.push(
            Finding {
                category: str_owned("too_many_parameters"),
                severity: str_owned("warning"),
                location,
                procedure,
                description: threshold_msg(
                    "Parameter count ",
                    metrics.parameter_count,
                    " exceeds warning threshold of ",
                    4,
                ),
            },
        );
    }
    proof {
        reveal_strlit("high_complexity");
        reveal_strlit("long_method");
        reveal_strlit("too_many_parameters");
        reveal_strlit("critical");
        reveal_strlit("warning");
        reveal_strlit("Cyclomatic complexity ");
        reveal_strlit(" exceeds critical threshold of ");
        reveal_strlit(" exceeds warning threshold of ");
        reveal_strlit("Method length ");
        reveal_strlit(" lines exceeds critical threshold of ");
        reveal_strlit(" lines exceeds warning threshold of ");
        reveal_strlit("Parameter count ");
        assert(findings@.map_values(|f: Finding| finding_view(f)) =~= spec_findings_of(
            *metrics,
        ));
    }
    findings
}

/// An owned copy of a literal.
fn str_owned(s: &str) -> (r: String)
    ensures
        r@ == s@,
{
    s.to_owned()
}

/// A copy of a string.
fn str_clone(s: &String) -> (r: String)
    ensures
        r@ == s@,
{
    s.clone()
}

/// The summed complexity of a metric list.
pub open spec fn spec_complexity_total(s: Seq<ProcedureMetrics>) -> int
    decreases s.len(),
{
    if s.len() == 0 {
        0
    } else {
        spec_complexity_total(s.drop_last()) + s.last().complexity
    }
}

/// The summed quality score of a metric list, in hundredths.
pub open spec fn spec_quality_total(s: Seq<ProcedureMetrics>) -> int
    decreases s.len(),
{
    if s.len() == 0 {
        0
    } else {
        spec_quality_total(s.drop_last()) + s.last().quality_score_centi
    }
}

/// The number of findings of a severity.
pub open spec fn spec_severity_count(s: Seq<Finding>, sev: Seq<char>) -> int {
    s.filter(|f: Finding| f.severity@ == sev).len() as int
}

/// Builds the summary: the procedure count, the complexity and quality
/// totals, and the finding counts by severity.
pub fn build_summary(metrics: &Vec<ProcedureMetrics>, findings: &Vec<Finding>) -> (r:
    AnalysisSummary)
    requires
        metrics@.len() <= 0xFFFF_FFFF,
        forall|i: int|
            0 <= i < metrics@.len() ==> (#[trigger] metrics@[i]).quality_score_centi <= 1000,
    ensures
        r.total_procedures == metrics@.len(),
        r.complexity_total == spec_complexity_total(metrics@),
        r.quality_score_centi_total == spec_quality_total(metrics@),
        r.critical_findings == spec_severity_count(findings@, "critical"@),
        r.warning_findings == spec_severity_count(findings@, "warning"@),
{
    let n = metrics.len();
    let mut complexity_total: u64 = 0;
    let mut quality_total: u64 = 0;
    let mut i: usize = 0;
    proof {
        assert(metrics@.subrange(0, 0) =~= Seq::<ProcedureMetrics>::empty());
    }
    while i < n
        invariant
            n == metrics@.len() <= 0xFFFF_FFFF,
            forall|j: int|
                0 <= j < metrics@.len() ==> (#[trigger] metrics@[j]).quality_score_centi <= 1000,
            0 <= i <= n,
            complexity_total == spec_complexity_total(metrics@.subrange(0, i as int)),
            quality_total == spec_quality_total(metrics@.subrange(0, i as int)),
            complexity_total <= i * 0xFFFF_FFFF,
            quality_total <= i * 1000,
        decreases n - i,
    {
        proof {
            assert(metrics@.subrange(0, i + 1).drop_last() =~= metrics@.subrange(0, i as int));
            assert(metrics@.subrange(0, i + 1).last() == metrics@[i as int]);
            assert((i + 1) * 0xFFFF_FFFF == i * 0xFFFF_FFFF + 0xFFFF_FFFF) by (nonlinear_arith);
            assert((i + 1) * 1000 == i * 1000 + 1000) by (nonlinear_arith);
            assert(i * 0xFFFF_FFFF <= 0xFFFF_FFFF * 0xFFFF_FFFF) by (nonlinear_arith)
                requires
                    0 <= i <= 0xFFFF_FFFF,
            ;
            assert(i * 1000 <= 0xFFFF_FFFFu64 * 1000) by (nonlinear_arith)
                requires
                    0 <= i <= 0xFFFF_FFFF,
            ;
        }
        complexity_total = complexity_total + (metrics[i].complexity as u64);
        quality_total = quality_total + (metrics[i].quality_score_centi as u64);
        i = i + 1;
    }
    proof {
        assert(metrics@.subrange(0, n as int) =~= metrics@);
    }
    let mut critical: usize = 0;
    let mut warning: usize = 0;
    let fn_ = findings.len();
    let mut k: usize = 0;
    proof {
        reveal(Seq::filter);
        assert(findings@.subrange(0, 0) =~= Seq::<Finding>::empty());
    }
    while k < fn_
        invariant
            fn_ == findings@.len(),
            0 <= k <= fn_,
            critical == spec_severity_count(findings@.subrange(0, k as int), "critical"@),
            warning == spec_severity_count(findings@.subrange(0, k as int), "warning"@),
            critical <= k,
            warning <= k,
        decreases fn_ - k,
    {
        proof {
            reveal(Seq::filter);
            reveal_strlit("critical");
            reveal_strlit("warning");
            assert("critical"@.len() == 8);
            assert("warning"@.len() == 7);
            assert("critical"@ != "warning"@);
            assert(findings@.subrange(0, k + 1).drop_last() =~= findings@.subrange(0, k as int));
            assert(findings@.subrange(0, k + 1).last() == findings@[k as int]);
        }
        let crit = str_owned("critical");
        let warn = str_owned("warning");
        if findings[k].severity == crit {
            critical = critical + 1;
        } else if findings[k].severity == warn {
            warning = warning + 1;
        }
        k = k + 1;
    }
    proof {
        assert(findings@.subrange(0, fn_ as int) =~= findings@);
    }
    AnalysisSummary {
        total_procedures: n,
        complexity_total,
        quality_score_centi_total: quality_total,
        critical_findings: critical,
        warning_findings: warning,
    }
}


/// A metric record, by value.
pub open spec fn pm_view(m: ProcedureMetrics) -> (
    Seq<char>,
    Seq<char>,
    Seq<char>,
    Seq<char>,
    u32,
    u32,
    u32,
    u32,
    u32,
) {
    (
        m.object_type@,
        m.object_name@,
        m.procedure_name@,
        m.file@,
        m.line,
        m.complexity,
        m.line_count,
        m.parameter_count,
        m.quality_score_centi,
    )
}

/// A name with surrounding double quotes removed.
pub open spec fn spec_trim_quotes(s: Seq<char>) -> Seq<char> {
    crate::strutil::trim_by(s, |c: char| c == '"')
}

/// The fallback token of a definition node's kind.
pub open spec fn spec_kind_token(k: NodeKind) -> Seq<char> {
    match k {
        NodeKind::Procedure => "procedure"@,
        NodeKind::TriggerDeclaration => "trigger_declaration"@,
        NodeKind::NamedTrigger => "named_trigger"@,
        _ => "onrun_trigger"@,
    }
}

/// The displayed name of a definition node: its name field, the first
/// token of a named trigger, or the node kind's own token.
pub open spec fn spec_metric_name(n: SyntaxNode) -> Seq<char> {
    match crate::syntax::spec_child_by_field(n.children@, FieldTag::Name) {
        Some(nm) => spec_trim_quotes(nm.text@),
        None => if (n.kind is NamedTrigger || n.kind is OnRunTrigger) && n.children@.len() > 0 {
            spec_trim_quotes(n.children@[0].text@)
        } else {
            spec_kind_token(n.kind)
        },
    }
}

/// What one node contributes to the header state of the metrics walk: an
/// object declaration names the type always and the object when its name
/// field is present.
pub open spec fn spec_mstate_own(st: (Seq<char>, Seq<char>), n: SyntaxNode) -> (
    Seq<char>,
    Seq<char>,
) {
    match crate::extract::spec_object_decl_type(n.kind) {
        Some(ot) => {
            let name = match crate::syntax::spec_child_by_field(
                n.children@,
                FieldTag::ObjectName,
            ) {
                Some(c) => spec_trim_quotes(c.text@),
                None => st.1,
            };
            (ot.spec_name(), name)
        },
        None => st,
    }
}

/// Whether a node is a definition the metrics walk measures.
pub open spec fn spec_is_metric_node(k: NodeKind) -> bool {
    k is Procedure || k is TriggerDeclaration || k is NamedTrigger || k is OnRunTrigger
}

/// What one node contributes to the metric list.
pub open spec fn spec_metric_own(st: (Seq<char>, Seq<char>), n: SyntaxNode, file: Seq<char>) -> Seq<
    (Seq<char>, Seq<char>, Seq<char>, Seq<char>, u32, u32, u32, u32, u32),
> {
    if spec_is_metric_node(n.kind) {
        let c = capped(spec_complexity(n)) as u32;
        let lc = spec_span_lines(n.range) as u32;
        let pc = spec_count_params(n) as u32;
        seq![
            (
                st.0,
                st.1,
                spec_metric_name(n),
                file,
                spec_line_one_based(n.range) as u32,
                c,
                lc,
                pc,
                spec_quality_centi(c as int, lc as int, pc as int) as u32,
            ),
        ]
    } else {
        Seq::empty()
    }
}

/// The metrics walk over a subtree: the header state threads through the
/// walk in source order, and each measured definition is emitted with the
/// state at its point.
pub open spec fn spec_mwalk(st: (Seq<char>, Seq<char>), n: SyntaxNode, file: Seq<char>) -> (
    (Seq<char>, Seq<char>),
    Seq<(Seq<char>, Seq<char>, Seq<char>, Seq<char>, u32, u32, u32, u32, u32)>,
)
    decreases n,
{
    let st1 = spec_mstate_own(st, n);
    let own = spec_metric_own(st1, n, file);
    let r = spec_mwalk_seq(st1, n.children@, file);
    (r.0, own + r.1)
}

pub open spec fn spec_mwalk_seq(
    st: (Seq<char>, Seq<char>),
    s: Seq<SyntaxNode>,
    file: Seq<char>,
) -> (
    (Seq<char>, Seq<char>),
    Seq<(Seq<char>, Seq<char>, Seq<char>, Seq<char>, u32, u32, u32, u32, u32)>,
)
    decreases s,
{
    if s.len() == 0 {
        (st, Seq::empty())
    } else {
        let r1 = spec_mwalk(st, s[0], file);
        let r2 = spec_mwalk_seq(r1.0, s.drop_first(), file);
        (r2.0, r1.1 + r2.1)
    }
}

/// Removes surrounding double quotes.
fn trim_quotes(s: &str) -> (r: String)
    ensures
        r@ == spec_trim_quotes(s@),
{
    let v = crate::strutil::str_chars(s);
    let mut lo: usize = 0;
    let mut hi: usize = v.len();
    crate::strutil::trim_pass(&v, &mut lo, &mut hi, 1);
    proof {
        crate::strutil::lemma_trim_by_bounds(s@, |c: char| c == '"', lo as int, hi as int);
    }
    let mut out: Vec<char> = Vec::new();
    let mut i: usize = lo;
    while i < hi
        invariant
            v@ == s@,
            0 <= lo <= i <= hi <= s@.len(),
            out@ == s@.subrange(lo as int, i as int),
        decreases hi - i,
    {
        out.push(v[i]);
        proof {
            assert(out@ =~= s@.subrange(lo as int, i + 1));
        }
        i = i + 1;
    }
    proof {
        assert(out@ =~= s@.subrange(lo as int, hi as int));
    }
    crate::strutil::chars_to_string(&out)
}

/// The displayed name of a definition node.
fn metric_name(n: &SyntaxNode) -> (r: String)
    ensures
        r@ == spec_metric_name(*n),
{
    match n.child_by_field(FieldTag::Name) {
        Some(nm) => trim_quotes(nm.text.as_str()),
        None => {
            if (matches!(n.kind, NodeKind::NamedTrigger) || matches!(
                n.kind,
                NodeKind::OnRunTrigger,
            )) && n.children.len() > 0 {
                trim_quotes(n.children[0].text.as_str())
            } else {
                proof {
                    reveal_strlit("procedure");
                    reveal_strlit("trigger_declaration");
                    reveal_strlit("named_trigger");
                    reveal_strlit("onrun_trigger");
                }
                match n.kind {
                    NodeKind::Procedure => str_owned("procedure"),
                    NodeKind::TriggerDeclaration => str_owned("trigger_declaration"),
                    NodeKind::NamedTrigger => str_owned("named_trigger"),
                    _ => str_owned("onrun_trigger"),
                }
            }
        },
    }
}

/// Walks a subtree and collects one metric record per procedure or
/// trigger, with the object header threaded in source order.
pub fn walk_metrics(
    n: &SyntaxNode,
    object_type: &mut String,
    object_name: &mut String,
    out: &mut Vec<ProcedureMetrics>,
    file: &str,
)
    ensures
        ({
            let r = spec_mwalk((old(object_type)@, old(object_name)@), *n, file@);
            &&& (final(object_type)@, final(object_name)@) == r.0
            &&& final(out)@.map_values(|m: ProcedureMetrics| pm_view(m)) == old(out)@.map_values(
                |m: ProcedureMetrics| pm_view(m),
            ) + r.1
        }),
    decreases *n,
{
    let ghost st0 = (old(object_type)@, old(object_name)@);
    let ghost out0 = old(out)@.map_values(|m: ProcedureMetrics| pm_view(m));
    match crate::extract::object_decl_type(n.kind) {
        Some(ot) => {
            match n.child_by_field(FieldTag::ObjectName) {
                Some(c) => {
                    *object_name = trim_quotes(c.text.as_str());
                },
                None => {},
            }
            *object_type = str_owned(ot.as_str());
        },
        None => {},
    }
    proof {
        assert((object_type@, object_name@) == spec_mstate_own(st0, *n));
    }
    let is_metric = matches!(
        n.kind,
        NodeKind::Procedure | NodeKind::TriggerDeclaration | NodeKind::NamedTrigger
        | NodeKind::OnRunTrigger
    );
    if is_metric {
        let name = metric_name(n);
        let complexity = calculate_complexity(n);
        let line_count: u32 = if n.range.end.line >= n.range.start.line {
            let d = n.range.end.line - n.range.start.line;
            if d == 0xFFFF_FFFFu32 {
                d
            } else {
                d + 1
            }
        } else {
            1
        };
        let param_count = count_parameters(n);
        let quality = calculate_quality_score(complexity, line_count, param_count);
        let line: u32 = if n.range.start.line == 0xFFFF_FFFFu32 {
            0xFFFF_FFFFu32
        } else {
            n.range.start.line + 1
        };
        out.push(
            ProcedureMetrics {
                object_type: str_clone(object_type),
                object_name: str_clone(object_name),
                procedure_name: name,
                file: file.to_owned(),
                line,
                complexity,
                line_count,
                parameter_count: param_count,
                quality_score_centi: quality,
            },
        );
    }
    proof {
        assert(out@.map_values(|m: ProcedureMetrics| pm_view(m)) =~= out0 + spec_metric_own(
            (object_type@, object_name@),
            *n,
            file@,
        ));
    }
    let ghost st1 = (object_type@, object_name@);
    let ghost cs = n.children@;
    proof {
        assert(cs.skip(0) =~= cs);
    }
    let m = n.children.len();
    let mut i: usize = 0;
    while i < m
        invariant
            cs == n.children@,
            m == cs.len(),
            0 <= i <= m,
            ({
                let r = spec_mwalk_seq((object_type@, object_name@), cs.skip(i as int), file@);
                let rw = spec_mwalk(st0, *n, file@);
                &&& r.0 == rw.0
                &&& out@.map_values(|mm: ProcedureMetrics| pm_view(mm)) + r.1 == out0 + rw.1
            }),
        decreases m - i,
    {
        let ghost hdr_before = (object_type@, object_name@);
        let ghost out_before = out@.map_values(|mm: ProcedureMetrics| pm_view(mm));
        proof {
            assert(decreases_to!(*n => n.children@[i as int]));
            assert(cs.skip(i as int)[0] == cs[i as int]);
            assert(cs.skip(i as int).drop_first() =~= cs.skip(i + 1));
        }
        walk_metrics(&n.children[i], object_type, object_name, out, file);
        proof {
            let r1 = spec_mwalk(hdr_before, cs[i as int], file@);
            let r2 = spec_mwalk_seq(r1.0, cs.skip(i + 1), file@);
            assert(spec_mwalk_seq(hdr_before, cs.skip(i as int), file@) == (
                r2.0,
                r1.1 + r2.1,
            ));
            assert((out_before + r1.1) + r2.1 =~= out_before + (r1.1 + r2.1));
        }
        i = i + 1;
    }
    proof {
        assert(cs.skip(m as int).len() == 0);
        assert(out@.map_values(|mm: ProcedureMetrics| pm_view(mm)) + Seq::<
            (Seq<char>, Seq<char>, Seq<char>, Seq<char>, u32, u32, u32, u32, u32),
        >::empty() =~= out@.map_values(|mm: ProcedureMetrics| pm_view(mm)));
    }
}

/// The metrics of one file's tree, measured from an empty header state.
pub fn extract_metrics_from_tree(root: &SyntaxNode, file: &str) -> (r: Vec<ProcedureMetrics>)
    ensures
        r@.map_values(|m: ProcedureMetrics| pm_view(m)) == spec_mwalk(
            (Seq::empty(), Seq::empty()),
            *root,
            file@,
        ).1,
{
    let mut object_type = String::new();
    let mut object_name = String::new();
    let mut out: Vec<ProcedureMetrics> = Vec::new();
    proof {
        assert(out@.map_values(|m: ProcedureMetrics| pm_view(m)) =~= Seq::<
            (Seq<char>, Seq<char>, Seq<char>, Seq<char>, u32, u32, u32, u32, u32),
        >::empty());
    }
    walk_metrics(root, &mut object_type, &mut object_name, &mut out, file);
    proof {
        assert(Seq::<(Seq<char>, Seq<char>, Seq<char>, Seq<char>, u32, u32, u32, u32, u32)>::empty()
            + spec_mwalk((Seq::empty(), Seq::empty()), *root, file@).1 =~= spec_mwalk(
            (Seq::empty(), Seq::empty()),
            *root,
            file@,
        ).1);
    }
    out
}

} // verus!
