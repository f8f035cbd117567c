//! Checking an assembled script: it is parsed and linted, and what is
//! found is turned into diagnostics that point back at the host source.

use crate::script::spans_in;
use crate::text::clone_strings;
use crate::script::Script;
use crate::token::Span;
use selene_lib::lints;
use selene_lib::standard_library::v1;
use selene_lib::standard_library::StandardLibrary;
use selene_lib::CheckerConfig;
use vstd::prelude::*;
use vstd::string::StringExecFns;

verus! {

/// How serious a lint finding is.
#[derive(Clone, Copy, Debug, PartialEq, Eq, Structural)]
pub enum Severity {
    /// The configuration allows what was found: it is not reported.
    Allow,
    Error,
    Warning,
}

/// How serious a diagnostic is.
#[derive(Clone, Copy, Debug, PartialEq, Eq, Structural)]
pub enum Level {
    Error,
    Warning,
}

/// Why a script could not be parsed.
#[derive(Debug)]
pub enum ParseFailure {
    /// A token stands where it cannot: its text and the offsets at which
    /// it starts and ends in the checked body.
    UnexpectedToken { token: String, start: usize, end: usize },
    /// The script cannot be split into tokens.
    Other,
}

/// What the lint engine found: how serious it is, what it says, its stable
/// code, further notes, and the offsets in the checked body that it is
/// about.
#[derive(Debug)]
pub struct LintFinding {
    pub severity: Severity,
    pub message: String,
    pub code: String,
    pub notes: Vec<String>,
    pub start: usize,
    pub end: usize,
}

impl LintFinding {
    /// The finding with the given parts, about the offsets from `range.0`
    /// to `range.1`.
    pub fn new(
        severity: Severity,
        message: String,
        code: &str,
        notes: Vec<String>,
        range: (u32, u32),
    ) -> (r: Self)
        ensures
            r.severity == severity,
            r.message == message,
            r.code@ == code@,
            r.notes == notes,
            r.start == range.0,
            r.end == range.1,
    {
        LintFinding {
            severity,
            message,
            code: String::from_str(code),
            notes,
            start: range.0 as usize,
            end: range.1 as usize,
        }
    }
}

/// What a finding is, as a value.
pub struct LintFindingView {
    pub severity: Severity,
    pub message: Seq<char>,
    pub code: Seq<char>,
    pub notes: Seq<Seq<char>>,
    pub start: usize,
    pub end: usize,
}

impl View for LintFinding {
    type V = LintFindingView;

    open spec fn view(&self) -> LintFindingView {
        LintFindingView {
            severity: self.severity,
            message: self.message@,
            code: self.code@,
            notes: self.notes.deep_view(),
            start: self.start,
            end: self.end,
        }
    }
}

/// The values of a run of findings.
pub open spec fn finding_views(s: Seq<LintFinding>) -> Seq<LintFindingView> {
    s.map_values(|f: LintFinding| f@)
}

/// A message for the host: how serious it is, what it says, the host
/// locations that it points at, and further notes.
#[derive(Debug)]
pub struct Diagnostic {
    pub level: Level,
    pub message: String,
    pub spans: Vec<Span>,
    pub notes: Vec<String>,
}

/// What a diagnostic is, as a value.
pub struct DiagnosticView {
    pub level: Level,
    pub message: Seq<char>,
    pub spans: Seq<Span>,
    pub notes: Seq<Seq<char>>,
}

impl View for Diagnostic {
    type V = DiagnosticView;

    open spec fn view(&self) -> DiagnosticView {
        DiagnosticView {
            level: self.level,
            message: self.message@,
            spans: self.spans@,
            notes: self.notes.deep_view(),
        }
    }
}

/// The values of a run of diagnostics.
pub open spec fn diagnostic_views(s: Seq<Diagnostic>) -> Seq<DiagnosticView> {
    s.map_values(|d: Diagnostic| d@)
}

/// The level at which a finding is reported. A warning is reported as an
/// error where the host cannot show warnings, and what is allowed is not
/// reported.
pub open spec fn level_of(severity: Severity, warnings: bool) -> Option<Level> {
    match severity {
        Severity::Allow => None,
        Severity::Error => Some(Level::Error),
        Severity::Warning => if warnings {
            Some(Level::Warning)
        } else {
            Some(Level::Error)
        },
    }
}

/// The level at which a finding is reported, if it is.
pub fn convert_level(severity: Severity, warnings: bool) -> (r: Option<Level>)
    ensures
        r == level_of(severity, warnings),
{
    match severity {
        Severity::Allow => None,
        Severity::Error => Some(Level::Error),
        Severity::Warning => if warnings {
            Some(Level::Warning)
        } else {
            Some(Level::Error)
        },
    }
}

/// The message of a lint finding.
pub open spec fn lint_message(message: Seq<char>, code: Seq<char>) -> Seq<char> {
    "in script: "@ + message + " ("@ + code + ")"@
}

/// The message of a failure to parse.
pub open spec fn parse_message(message: Seq<char>) -> Seq<char> {
    lint_message(message, "parse_error"@)
}

/// What is said of a token that stands where it cannot.
pub open spec fn unexpected_token_text(token: Seq<char>) -> Seq<char> {
    "unexpected token `"@ + token + "`"@
}

/// The diagnostic of a finding, given the locations that its offsets map to.
pub open spec fn finding_diagnostic(spans: Seq<Span>, f: LintFindingView, warnings: bool) -> Option<
    DiagnosticView,
> {
    match level_of(f.severity, warnings) {
        Some(level) => Some(
            DiagnosticView { level, message: lint_message(f.message, f.code), spans, notes: f.notes },
        ),
        None => None,
    }
}

/// What a failure is, as a value: the text and offsets of the token that
/// stands where it cannot, or nothing where no token is to blame.
pub open spec fn failure_view(failure: ParseFailure) -> Option<(Seq<char>, usize, usize)> {
    match failure {
        ParseFailure::UnexpectedToken { token, start, end } => Some((token@, start, end)),
        ParseFailure::Other => None,
    }
}

/// Why the parser of the script language refuses `text`, as a value; `None`
/// where it takes the text.
pub uninterp spec fn parse_failure(text: Seq<char>) -> Option<Option<(Seq<char>, usize, usize)>>;

/// The diagnostic of a failure to parse: an unexpected token is named and
/// pointed at; any other failure points at the whole body, from offset
/// zero to its length in bytes.
pub open spec fn failure_diagnostic(
    index: Map<usize, Span>,
    body_len: usize,
    failure: Option<(Seq<char>, usize, usize)>,
) -> DiagnosticView {
    match failure {
        Some((token, start, end)) => DiagnosticView {
            level: Level::Error,
            message: parse_message(unexpected_token_text(token)),
            spans: spans_in(index, start as int, end as int),
            notes: seq![],
        },
        None => DiagnosticView {
            level: Level::Error,
            message: parse_message("cannot tokenize lua script"@),
            spans: spans_in(index, 0, body_len as int),
            notes: seq![],
        },
    }
}

/// What is reported of a script that does not parse: the one diagnostic of
/// the failure.
pub open spec fn failure_report(
    index: Map<usize, Span>,
    body_len: usize,
    failure: Option<(Seq<char>, usize, usize)>,
) -> Seq<DiagnosticView> {
    seq![failure_diagnostic(index, body_len, failure)]
}

/// What the lint engine finds in `text`, where `rules` configure it and
/// the globals declared in `globals` extend its standard library `base`:
/// the findings in the order in which the engine hands them out. `None`
/// where the engine does not take the configuration, or the text does not
/// parse.
pub uninterp spec fn lint_findings(
    text: Seq<char>,
    rules: Seq<char>,
    globals: Seq<char>,
    base: Seq<char>,
) -> Option<Seq<LintFindingView>>;

/// The globals that are handed to the lint engine for a script that may
/// use the names `defined`: the base declarations, then one declaration for
/// each name that allows it.
pub open spec fn globals_text(defined: Seq<Seq<char>>) -> Seq<char> {
    BASE_GLOBALS@ + allow_rules(defined)
}

/// What the lint engine finds in the script `body` under the bundled
/// rules, with the names `defined` allowed.
pub open spec fn findings_of_body(body: Seq<char>, defined: Seq<Seq<char>>) -> Option<
    Seq<LintFindingView>,
> {
    lint_findings(body, BASE_RULES@, globals_text(defined), BASE_LIBRARY@)
}

/// What a check reports of the script `body` with the index `index`, where
/// the names `defined` are allowed. Where the parser refuses the body: the
/// one diagnostic of that failure. Where it takes the body: the diagnostics
/// of what the lint engine finds, by rising start. `None` where the body
/// parses and the lint engine does not take the bundled configuration, and
/// in no other case.
pub open spec fn check_outcome(
    index: Map<usize, Span>,
    body: Seq<char>,
    defined: Seq<Seq<char>>,
    warnings: bool,
) -> Option<Seq<DiagnosticView>> {
    match parse_failure(body) {
        Some(failure) => Some(failure_report(index, crate::text::byte_len(body) as usize, failure)),
        None => match findings_of_body(body, defined) {
            Some(found) => Some(lint_diagnostics(index, found, warnings)),
            None => None,
        },
    }
}

fn message_text(message: &str, code: &str) -> (r: String)
    ensures
        r@ == lint_message(message@, code@),
{
    let mut out = String::from_str("in script: ");
    out.append(message);
    out.append(" (");
    out.append(code);
    out.append(")");
    out
}

/// The diagnostic of one finding at the host locations `spans`, or
/// nothing where the finding is allowed.
pub fn convert_diag(spans: Vec<Span>, finding: &LintFinding, warnings: bool) -> (r: Option<
    Diagnostic,
>)
    ensures
        match r {
            Some(d) => finding_diagnostic(spans@, finding@, warnings) == Some(d@),
            None => finding_diagnostic(spans@, finding@, warnings) is None,
        },
{
    match convert_level(finding.severity, warnings) {
        Some(level) => Some(
            Diagnostic {
                level,
                message: message_text(finding.message.as_str(), finding.code.as_str()),
                spans,
                notes: clone_strings(&finding.notes),
            },
        ),
        None => None,
    }
}

/// The diagnostic of a failure to parse `script`.
pub fn parse_err(script: &Script, failure: &ParseFailure) -> (r: Diagnostic)
    requires
        script.wf(),
    ensures
        r@ == failure_diagnostic(
            script@.spans,
            crate::text::byte_len(script@.script) as usize,
            failure_view(*failure),
        ),
{
    let (text, range) = match failure {
        ParseFailure::UnexpectedToken { token, start, end } => {
            let mut text = String::from_str("unexpected token `");
            text.append(token.as_str());
            text.append("`");
            (text, (*start, *end))
        },
        ParseFailure::Other => (
            String::from_str("cannot tokenize lua script"),
            (0, crate::text::text_len(script.script())),
        ),
    };
    let spans = script.range_to_span(range);
    let d = Diagnostic {
        level: Level::Error,
        message: message_text(text.as_str(), "parse_error"),
        spans,
        notes: Vec::new(),
    };
    assert(d@.notes =~= Seq::<Seq<char>>::empty());
    d
}

/// Where a finding that starts at `key` goes among the findings placed so
/// far: behind every one that starts at or before `key`.
pub open spec fn place(order: Seq<int>, starts: Seq<usize>, key: usize) -> int
    decreases order.len(),
{
    if order.len() == 0 || starts[order[0]] > key {
        0
    } else {
        1 + place(order.drop_first(), starts, key)
    }
}

/// The first `n` findings by rising start; findings that start at the same
/// offset keep the order in which they were found.
pub open spec fn sort_order(starts: Seq<usize>, n: nat) -> Seq<int>
    decreases n,
{
    if n == 0 {
        seq![]
    } else {
        let before = sort_order(starts, (n - 1) as nat);
        before.insert(place(before, starts, starts[n - 1]), n - 1)
    }
}

/// The place of a finding lies within the findings placed so far.
pub proof fn lemma_place_bounds(order: Seq<int>, starts: Seq<usize>, key: usize)
    ensures
        0 <= place(order, starts, key) <= order.len(),
    decreases order.len(),
{
    if !(order.len() == 0 || starts[order[0]] > key) {
        lemma_place_bounds(order.drop_first(), starts, key);
    }
}

/// Scanning from the front finds the place: it is the first position whose
/// finding starts behind `key`.
pub proof fn lemma_place_scan(order: Seq<int>, starts: Seq<usize>, key: usize, p: int)
    requires
        0 <= p <= order.len(),
        forall|j: int| 0 <= j < p ==> starts[#[trigger] order[j]] <= key,
        p == order.len() || starts[order[p]] > key,
    ensures
        place(order, starts, key) == p,
    decreases p,
{
    if p > 0 {
        let rest = order.drop_first();
        assert forall|j: int| 0 <= j < p - 1 implies starts[#[trigger] rest[j]] <= key by {
            assert(rest[j] == order[j + 1]);
        }
        if p < order.len() {
            assert(rest[p - 1] == order[p]);
        }
        assert(starts[order[0]] <= key);
        lemma_place_scan(rest, starts, key, p - 1);
    }
}

/// The order holds each of the first `n` findings, and nothing else.
pub proof fn lemma_sort_order_entries(starts: Seq<usize>, n: nat)
    ensures
        sort_order(starts, n).len() == n,
        forall|j: int| 0 <= j < n ==> 0 <= #[trigger] sort_order(starts, n)[j] < n,
    decreases n,
{
    if n > 0 {
        let before = sort_order(starts, (n - 1) as nat);
        lemma_sort_order_entries(starts, (n - 1) as nat);
        lemma_place_bounds(before, starts, starts[n - 1]);
    }
}

/// The findings come out by rising start.
pub proof fn lemma_sort_order_sorted(starts: Seq<usize>, n: nat)
    requires
        n <= starts.len(),
    ensures
        forall|a: int, b: int|
            0 <= a < b < sort_order(starts, n).len() ==> starts[#[trigger] sort_order(starts, n)[a]]
                <= starts[#[trigger] sort_order(starts, n)[b]],
    decreases n,
{
    if n > 0 {
        let before = sort_order(starts, (n - 1) as nat);
        let key = starts[n - 1];
        let p = place(before, starts, key);
        let now = sort_order(starts, n);
        lemma_sort_order_sorted(starts, (n - 1) as nat);
        lemma_sort_order_entries(starts, (n - 1) as nat);
        lemma_place_bounds(before, starts, key);
        lemma_place_split(before, starts, key);
        assert forall|a: int, b: int| 0 <= a < b < now.len() implies starts[#[trigger] now[a]]
            <= starts[#[trigger] now[b]] by {
            let va = if a < p {
                before[a]
            } else if a == p {
                n - 1
            } else {
                before[a - 1]
            };
            let vb = if b < p {
                before[b]
            } else if b == p {
                n - 1
            } else {
                before[b - 1]
            };
            assert(now[a] == va);
            assert(now[b] == vb);
            if b == p {
                assert(starts[before[a]] <= key);
            } else if a == p {
                assert(starts[before[b - 1]] > key) by {
                    if b - 1 > p {
                        assert(starts[before[p]] <= starts[before[b - 1]]);
                    }
                }
            } else if a < p && b > p {
                assert(starts[before[a]] <= starts[before[b - 1]]) by {
                    if a < b - 1 {
                    }
                }
            }
        }
    }
}

/// Before its place every finding starts at or before `key`; the finding
/// at its place, if there is one, starts behind it.
pub proof fn lemma_place_split(order: Seq<int>, starts: Seq<usize>, key: usize)
    ensures
        forall|j: int| 0 <= j < place(order, starts, key) ==> starts[#[trigger] order[j]] <= key,
        place(order, starts, key) < order.len() ==> starts[order[place(order, starts, key)]] > key,
    decreases order.len(),
{
    if !(order.len() == 0 || starts[order[0]] > key) {
        let rest = order.drop_first();
        lemma_place_split(rest, starts, key);
        lemma_place_bounds(rest, starts, key);
        let p = place(rest, starts, key);
        assert forall|j: int| 0 <= j < p + 1 implies starts[#[trigger] order[j]] <= key by {
            if j > 0 {
                assert(order[j] == rest[j - 1]);
            }
        }
        if p + 1 < order.len() {
            assert(order[p + 1] == rest[p]);
        }
    }
}

/// The offsets at which findings start, in the order of `findings`.
pub open spec fn starts_of(findings: Seq<LintFindingView>) -> Seq<usize> {
    Seq::new(findings.len(), |i: int| findings[i].start)
}

/// The diagnostics of the findings that `order` names, in that order; a
/// finding that is allowed gives none.
pub open spec fn diagnostics_in_order(
    index: Map<usize, Span>,
    findings: Seq<LintFindingView>,
    order: Seq<int>,
    warnings: bool,
) -> Seq<DiagnosticView>
    decreases order.len(),
{
    if order.len() == 0 {
        seq![]
    } else {
        let f = findings[order.last()];
        let before = diagnostics_in_order(index, findings, order.drop_last(), warnings);
        match finding_diagnostic(spans_in(index, f.start as int, f.end as int), f, warnings) {
            Some(d) => before.push(d),
            None => before,
        }
    }
}

/// The diagnostics of `findings`: by rising start, each pointing at the
/// host locations that its offsets map to.
pub open spec fn lint_diagnostics(
    index: Map<usize, Span>,
    findings: Seq<LintFindingView>,
    warnings: bool,
) -> Seq<DiagnosticView> {
    diagnostics_in_order(
        index,
        findings,
        sort_order(starts_of(findings), findings.len()),
        warnings,
    )
}

fn sorted_indices(findings: &Vec<LintFinding>) -> (order: Vec<usize>)
    ensures
        order@.map_values(|i: usize| i as int) == sort_order(
            starts_of(finding_views(findings@)),
            findings@.len(),
        ),
        forall|j: int| 0 <= j < order@.len() ==> #[trigger] order@[j] < findings@.len(),
{
    let ghost starts = starts_of(finding_views(findings@));
    let mut order: Vec<usize> = Vec::new();
    let mut i: usize = 0;
    assert(order@.map_values(|i: usize| i as int) =~= sort_order(starts, 0));
    while i < findings.len()
        invariant
            i <= findings@.len(),
            starts == starts_of(finding_views(findings@)),
            order@.map_values(|i: usize| i as int) == sort_order(starts, i as nat),
            order@.len() == i,
            forall|j: int| 0 <= j < order@.len() ==> #[trigger] order@[j] < i,
        decreases findings@.len() - i,
    {
        let key: usize = findings[i].start;
        let ghost ints = order@.map_values(|i: usize| i as int);
        assert(starts[i as int] == key);
        let mut p: usize = 0;
        while p < order.len() && findings[order[p]].start <= key
            invariant
                p <= order@.len(),
                i < findings@.len(),
                starts == starts_of(finding_views(findings@)),
                ints == order@.map_values(|i: usize| i as int),
                forall|j: int| 0 <= j < order@.len() ==> #[trigger] order@[j] < i,
                forall|j: int| 0 <= j < p ==> starts[#[trigger] ints[j]] <= key,
            decreases order@.len() - p,
        {
            assert(ints[p as int] == order@[p as int]);
            p += 1;
        }
        proof {
            if p < order@.len() {
                assert(ints[p as int] == order@[p as int]);
            }
            lemma_place_scan(ints, starts, key, p as int);
        }
        order.insert(p, i);
        proof {
            assert(order@.map_values(|i: usize| i as int) =~= ints.insert(p as int, i as int));
            assert forall|j: int| 0 <= j < order@.len() implies #[trigger] order@[j] < i + 1 by {
                if j < p {
                    assert(order@[j] == ints[j]);
                } else if j > p {
                    assert(order@[j] == ints[j - 1]);
                }
            }
        }
        i += 1;
    }
    order
}

/// The diagnostics of what the lint engine found in `script`: by rising
/// start, findings with the same start in the order in which they were
/// found, each pointing at the host locations of its offsets. A warning is
/// reported as an error unless `warnings` is set, and what is allowed is
/// not reported.
pub fn emit_diag(script: &Script, findings: &Vec<LintFinding>, warnings: bool) -> (r: Vec<
    Diagnostic,
>)
    requires
        script.wf(),
    ensures
        diagnostic_views(r@) == lint_diagnostics(script@.spans, finding_views(findings@), warnings),
{
    let order = sorted_indices(findings);
    let ghost ints = order@.map_values(|i: usize| i as int);
    let ghost views = finding_views(findings@);
    let mut out: Vec<Diagnostic> = Vec::new();
    let mut k: usize = 0;
    proof {
        assert(ints.take(0) =~= Seq::<int>::empty());
        assert(diagnostic_views(out@) =~= Seq::<DiagnosticView>::empty());
    }
    while k < order.len()
        invariant
            k <= order@.len(),
            script.wf(),
            ints == order@.map_values(|i: usize| i as int),
            views == finding_views(findings@),
            forall|j: int| 0 <= j < order@.len() ==> #[trigger] order@[j] < findings@.len(),
            diagnostic_views(out@) == diagnostics_in_order(
                script@.spans,
                views,
                ints.take(k as int),
                warnings,
            ),
        decreases order@.len() - k,
    {
        let f = &findings[order[k]];
        let ghost before = diagnostic_views(out@);
        proof {
            assert(ints.take(k + 1).drop_last() =~= ints.take(k as int));
            assert(ints.take(k + 1).last() == order@[k as int]);
            assert(views[order@[k as int] as int] == f@);
        }
        let spans = script.range_to_span((f.start, f.end));
        match convert_diag(spans, f, warnings) {
            Some(d) => {
                out.push(d);
                assert(diagnostic_views(out@) =~= before.push(d@));
            },
            None => {},
        }
        k += 1;
    }
    assert(ints.take(k as int) =~= ints);
    out
}

/// The text that opens the declaration of every name that scripts may
/// use without defining it.
pub const BASE_GLOBALS: &'static str =
    "[selene]\nname = \"redis\"\n\n[redis]\nany = true\n\n[cjson]\nany = true\n\n[cmsgpack]\nany = true\n\n[bit]\nany = true\n\n[struct]\nany = true\n\n[KEYS]\nany = true";

/// The lint rules that every script is held to.
pub const BASE_RULES: &'static str = "std = \"redis\"\n";

/// The standard library of the script language that the globals extend.
pub const BASE_LIBRARY: &'static str = "lua51";

/// The declaration that allows the name `arg`.
pub open spec fn allow_rule(arg: Seq<char>) -> Seq<char> {
    "\n["@ + arg + "]\nproperty = true"@
}

/// The declarations that allow `args`, in order.
pub open spec fn allow_rules(args: Seq<Seq<char>>) -> Seq<char>
    decreases args.len(),
{
    if args.len() == 0 {
        seq![]
    } else {
        allow_rules(args.drop_last()) + allow_rule(args.last())
    }
}

/// The globals that a script may use: the base declarations, then one
/// declaration for each of `args` that allows it as a name.
pub fn make_cfg(args: &Vec<String>) -> (cfg: String)
    ensures
        cfg@ == globals_text(args.deep_view()),
{
    let mut cfg = String::from_str(BASE_GLOBALS);
    let mut i: usize = 0;
    proof {
        assert(args.deep_view().take(0) =~= Seq::<Seq<char>>::empty());
        assert(cfg@ =~= BASE_GLOBALS@ + allow_rules(args.deep_view().take(0)));
    }
    while i < args.len()
        invariant
            i <= args@.len(),
            cfg@ == BASE_GLOBALS@ + allow_rules(args.deep_view().take(i as int)),
        decreases args@.len() - i,
    {
        let ghost before = cfg@;
        cfg.append("\n[");
        cfg.append(args[i].as_str());
        cfg.append("]\nproperty = true");
        proof {
            let now = args.deep_view().take(i + 1);
            assert(now.drop_last() =~= args.deep_view().take(i as int));
            assert(now.last() == args@[i as int]@);
            assert(cfg@ =~= before + allow_rule(args@[i as int]@));
            assert(cfg@ =~= BASE_GLOBALS@ + allow_rules(now));
        }
        i += 1;
    }
    assert(args.deep_view().take(i as int) =~= args.deep_view());
    cfg
}

/// Parses `text` with `full_moon::parse` and tells why it is refused, if
/// it is. Of a failure the first error is told: an error of the syntax
/// tree with the text and byte offsets of its token, any other as a failure
/// without detail. Nothing is proved of which texts parse: the outcome is
/// only given its name.
#[verifier::external_body]
fn parse_script(text: &str) -> (r: Option<ParseFailure>)
    ensures
        match r {
            Some(failure) => parse_failure(text@) == Some(failure_view(failure)),
            None => parse_failure(text@) is None,
        },
{
    match full_moon::parse(text) {
        Ok(_) => None,
        Err(errors) => Some(
            match errors.into_iter().next() {
                Some(full_moon::Error::AstError(e)) => ParseFailure::UnexpectedToken {
                    token: e.token().to_string(),
                    start: e.token().start_position().bytes(),
                    end: e.token().end_position().bytes(),
                },
                _ => ParseFailure::Other,
            },
        ),
    }
}

/// Runs the lint engine on `text`: the text is parsed with
/// `full_moon::parse`, the globals in `globals` extend the standard library
/// `base`, `rules` configure `selene_lib::Checker`, and `Checker::test_on`
/// is run. Of each finding the severity, message, code and notes and the
/// byte range of its primary label are handed out. `None` where the text
/// does not parse or the configuration is refused. The engine runs its
/// lints in a fixed order over the syntax tree and keeps hash sets for
/// membership only, so that what it finds follows from the four texts.
/// Nothing is proved of what is found: the outcome is only given its name.
#[verifier::external_body]
fn run_lints(text: &str, rules: &str, globals: &str, base: &str) -> (r: Option<Vec<LintFinding>>)
    ensures
        match r {
            Some(found) => lint_findings(text@, rules@, globals@, base@) == Some(
                finding_views(found@),
            ),
            None => lint_findings(text@, rules@, globals@, base@) is None,
        },
{
    let ast = full_moon::parse(text).ok()?;
    let mut library = StandardLibrary::from(toml::from_str::<v1::StandardLibrary>(globals).ok()?);
    library.extend(StandardLibrary::from_name(base)?);
    let config: CheckerConfig<toml::Value> = toml::from_str(rules).ok()?;
    let found = selene_lib::Checker::new(config, library).ok()?.test_on(&ast);
    Some(found.into_iter().map(|d| {
        let severity = match d.severity {
            lints::Severity::Allow => Severity::Allow,
            lints::Severity::Error => Severity::Error,
            lints::Severity::Warning => Severity::Warning,
        };
        let g = d.diagnostic;
        LintFinding::new(severity, g.message, g.code, g.notes, g.primary_label.range)
    }).collect())
}

/// The bundled configuration was refused by the lint engine.
#[derive(Clone, Copy, Debug, PartialEq, Eq, Structural)]
pub struct SetupError;

/// Checks scripts against the rules of the script language and a set of
/// names that scripts may use without defining them.
#[derive(Debug)]
pub struct Checker {
    defined: Vec<String>,
    warnings: bool,
}

/// What a checker is, as a value.
pub struct CheckerView {
    pub defined: Seq<Seq<char>>,
    pub warnings: bool,
}

impl View for Checker {
    type V = CheckerView;

    closed spec fn view(&self) -> CheckerView {
        CheckerView { defined: self.defined.deep_view(), warnings: self.warnings }
    }
}

impl Checker {
    /// A checker that allows no further name and reports warnings as
    /// errors.
    pub fn new() -> (r: Self)
        ensures
            r@ == (CheckerView { defined: seq![], warnings: false }),
    {
        let r = Self { defined: Vec::new(), warnings: false };
        assert(r@.defined =~= Seq::<Seq<char>>::empty());
        r
    }

    /// Allows the name `s`.
    pub fn define(&mut self, s: &str) -> (r: &mut Self)
        ensures
            r@ == (CheckerView { defined: old(self)@.defined.push(s@), ..old(self)@ }),
            *final(self) == *final(r),
    {
        let ghost before = self.defined.deep_view();
        self.defined.push(String::from_str(s));
        assert(self.defined.deep_view() =~= before.push(s@));
        self
    }

    /// Allows every name of `s`.
    pub fn defines(&mut self, s: Vec<String>) -> (r: &mut Self)
        ensures
            r@ == (CheckerView { defined: old(self)@.defined + s.deep_view(), ..old(self)@ }),
            *final(self) == *final(r),
    {
        let ghost before = self.defined.deep_view();
        let mut s = s;
        let ghost added = s.deep_view();
        self.defined.append(&mut s);
        assert(self.defined.deep_view() =~= before + added);
        self
    }

    /// Says whether the host can show warnings: where it cannot, a
    /// warning is reported as an error.
    pub fn warnings(&mut self, on: bool) -> (r: &mut Self)
        ensures
            r@ == (CheckerView { warnings: on, ..old(self)@ }),
            *final(self) == *final(r),
    {
        self.warnings = on;
        self
    }

    /// Checks `script`. Where it does not parse, there is one diagnostic,
    /// that of the failure. Where it parses, it is linted under the bundled
    /// rules with every defined name allowed, and there are the diagnostics
    /// of what the lint engine finds, by rising start. The script's content
    /// never makes the check fail: it is refused only where the script
    /// parses and the lint engine does not take the bundled configuration.
    pub fn check(&self, script: &Script) -> (r: Result<Vec<Diagnostic>, SetupError>)
        requires
            script.wf(),
        ensures
            match r {
                Ok(diagnostics) => check_outcome(
                    script@.spans,
                    script@.script,
                    self@.defined,
                    self@.warnings,
                ) == Some(diagnostic_views(diagnostics@)),
                Err(e) => check_outcome(
                    script@.spans,
                    script@.script,
                    self@.defined,
                    self@.warnings,
                ) is None,
            },
    {
        match parse_script(script.script()) {
            Some(failure) => {
                let d = parse_err(script, &failure);
                let mut out: Vec<Diagnostic> = Vec::new();
                out.push(d);
                assert(diagnostic_views(out@) =~= failure_report(
                    script@.spans,
                    crate::text::byte_len(script@.script) as usize,
                    failure_view(failure),
                ));
                return Ok(out);
            },
            None => {},
        }
        let globals = make_cfg(&self.defined);
        match run_lints(script.script(), BASE_RULES, globals.as_str(), BASE_LIBRARY) {
            Some(findings) => Ok(emit_diag(script, &findings, self.warnings)),
            None => Err(SetupError),
        }
    }
}

} // verus!
