//! Errors of building and running a graph, and diagnostics on one.

use vstd::prelude::*;

use crate::text;
use crate::time::Duration;

verus! {

/// What is wrong with the structure of a graph that was to be built.
#[derive(Debug)]
pub enum BuildError {
    /// Two nodes have the same name.
    DuplicateNode { id: String },
    /// An edge names a node that does not exist.
    MissingNode { from: String, to: String },
    /// No start node was set.
    MissingEntryPoint,
    /// No end node was set.
    MissingExitPoint,
    /// An edge is not valid.
    InvalidEdgeDefinition { from: String, to: String, reason: String },
    /// A fallback edge is not valid.
    InvalidFallback { node: String, reason: String },
}

impl BuildError {
    /// The text of the error.
    pub open spec fn message(self) -> Seq<char> {
        match self {
            BuildError::DuplicateNode { id } => "duplicate node id: '"@ + id@ + "'"@,
            BuildError::MissingNode { from, to } => "edge references non-existent node: '"@ + to@
                + "' (in "@ + from@ + "→"@ + to@ + ")"@,
            BuildError::MissingEntryPoint => "entry point not set"@,
            BuildError::MissingExitPoint => "exit point not set"@,
            BuildError::InvalidEdgeDefinition { from, to, reason } => "invalid edge "@ + from@
                + "→"@ + to@ + ": "@ + reason@,
            BuildError::InvalidFallback { node, reason } => "invalid fallback for node '"@ + node@
                + "': "@ + reason@,
        }
    }

    /// The text of the error.
    pub fn to_string(&self) -> (s: String)
        ensures
            s@ == self.message(),
    {
        match self {
            BuildError::DuplicateNode { id } => {
                let mut s = "duplicate node id: '".to_owned();
                s.append(id.as_str());
                s.append("'");
                s
            },
            BuildError::MissingNode { from, to } => {
                let mut s = "edge references non-existent node: '".to_owned();
                s.append(to.as_str());
                s.append("' (in ");
                s.append(from.as_str());
                s.append("→");
                s.append(to.as_str());
                s.append(")");
                s
            },
            BuildError::MissingEntryPoint => "entry point not set".to_owned(),
            BuildError::MissingExitPoint => "exit point not set".to_owned(),
            BuildError::InvalidEdgeDefinition { from, to, reason } => {
                let mut s = "invalid edge ".to_owned();
                s.append(from.as_str());
                s.append("→");
                s.append(to.as_str());
                s.append(": ");
                s.append(reason.as_str());
                s
            },
            BuildError::InvalidFallback { node, reason } => {
                let mut s = "invalid fallback for node '".to_owned();
                s.append(node.as_str());
                s.append("': ");
                s.append(reason.as_str());
                s
            },
        }
    }
}

/// The errors found while building one graph.
#[derive(Debug)]
pub struct BuildErrors(pub Vec<BuildError>);

/// The lines that list errors, one each.
pub open spec fn error_lines(errors: Seq<BuildError>) -> Seq<char>
    decreases errors.len(),
{
    if errors.len() == 0 {
        Seq::empty()
    } else {
        error_lines(errors.drop_last()) + "  - "@ + errors.last().message() + "\n"@
    }
}

impl BuildErrors {
    /// No errors.
    pub fn new() -> (errors: Self)
        ensures
            errors.0@ == Seq::<BuildError>::empty(),
    {
        BuildErrors(Vec::new())
    }

    /// Adds an error at the end.
    pub fn push(&mut self, e: BuildError)
        ensures
            final(self).0@ == old(self).0@.push(e),
    {
        self.0.push(e);
    }

    /// Whether there is no error.
    pub fn is_empty(&self) -> (empty: bool)
        ensures
            empty == (self.0@.len() == 0),
    {
        self.0.len() == 0
    }

    /// The number of errors.
    pub fn len(&self) -> (n: usize)
        ensures
            n == self.0@.len(),
    {
        self.0.len()
    }

    /// The errors, in the order in which they were added.
    pub fn iter(&self) -> (errors: core::slice::Iter<'_, BuildError>)
        ensures
            vstd::std_specs::slice::into_iter_elts(errors) == self.0@,
    {
        self.0.as_slice().iter()
    }

    /// The text of all errors.
    pub open spec fn message(self) -> Seq<char> {
        if self.0@.len() == 0 {
            "no errors"@
        } else {
            text::decimal_text(self.0@.len()) + " error(s):\n"@ + error_lines(self.0@)
        }
    }

    /// The text of all errors, a line each after a line with their number.
    pub fn to_string(&self) -> (s: String)
        ensures
            s@ == self.message(),
    {
        if self.0.len() == 0 {
            return "no errors".to_owned();
        }
        let mut lines = String::new();
        let mut i: usize = 0;
        assert(self.0@.take(0) =~= Seq::empty());
        while i < self.0.len()
            invariant
                i <= self.0@.len(),
                lines@ == error_lines(self.0@.take(i as int)),
            decreases self.0@.len() - i,
        {
            lines.append("  - ");
            lines.append(self.0[i].to_string().as_str());
            lines.append("\n");
            i += 1;
            assert(self.0@.take(i as int).drop_last() =~= self.0@.take(i - 1));
        }
        assert(self.0@.take(self.0@.len() as int) =~= self.0@);
        let mut s = text::decimal(self.0.len() as u64);
        s.append(" error(s):\n");
        s.append(lines.as_str());
        s
    }
}

impl Default for BuildErrors {
    fn default() -> (errors: Self)
        ensures
            errors.0@ == Seq::<BuildError>::empty(),
    {
        BuildErrors::new()
    }
}

/// How serious a diagnostic is.
#[derive(Clone, Copy, PartialEq, Eq, Structural, Debug)]
pub enum DiagnosticSeverity {
    /// Worth knowing.
    Info,
    /// A risk.
    Warning,
}

impl DiagnosticSeverity {
    /// The name of the severity.
    pub open spec fn message(self) -> Seq<char> {
        match self {
            DiagnosticSeverity::Info => "info"@,
            DiagnosticSeverity::Warning => "warning"@,
        }
    }

    /// The name of the severity.
    pub fn to_string(&self) -> (s: String)
        ensures
            s@ == self.message(),
    {
        match self {
            DiagnosticSeverity::Info => "info".to_owned(),
            DiagnosticSeverity::Warning => "warning".to_owned(),
        }
    }
}

/// What a diagnostic is about.
#[derive(Clone, Copy, PartialEq, Eq, Structural, Debug)]
pub enum DiagnosticCategory {
    /// A cycle.
    Cycle,
    /// A fallback edge on a cycle.
    FallbackInCycle,
    /// A node that no path from the start reaches.
    Unreachable,
    /// Conditions that overlap.
    ConditionOverlap,
    /// Edges that leave the end node.
    EndNodeOutgoing,
    /// Anything else.
    Other,
}

impl DiagnosticCategory {
    /// The name of the category.
    pub open spec fn message(self) -> Seq<char> {
        match self {
            DiagnosticCategory::Cycle => "cycle"@,
            DiagnosticCategory::FallbackInCycle => "fallback-in-cycle"@,
            DiagnosticCategory::Unreachable => "unreachable"@,
            DiagnosticCategory::ConditionOverlap => "condition-overlap"@,
            DiagnosticCategory::EndNodeOutgoing => "end-node-outgoing"@,
            DiagnosticCategory::Other => "other"@,
        }
    }

    /// The name of the category.
    pub fn to_string(&self) -> (s: String)
        ensures
            s@ == self.message(),
    {
        match self {
            DiagnosticCategory::Cycle => "cycle".to_owned(),
            DiagnosticCategory::FallbackInCycle => "fallback-in-cycle".to_owned(),
            DiagnosticCategory::Unreachable => "unreachable".to_owned(),
            DiagnosticCategory::ConditionOverlap => "condition-overlap".to_owned(),
            DiagnosticCategory::EndNodeOutgoing => "end-node-outgoing".to_owned(),
            DiagnosticCategory::Other => "other".to_owned(),
        }
    }
}

/// One finding on a graph.
#[derive(Debug)]
pub struct Diagnostic {
    pub severity: DiagnosticSeverity,
    pub category: DiagnosticCategory,
    pub message: String,
}

/// A finding with its text as a sequence.
pub struct Finding {
    pub severity: DiagnosticSeverity,
    pub category: DiagnosticCategory,
    pub message: Seq<char>,
}

impl View for Diagnostic {
    type V = Finding;

    open spec fn view(&self) -> Finding {
        Finding { severity: self.severity, category: self.category, message: self.message@ }
    }
}

impl Finding {
    /// The finding on one line.
    pub open spec fn line(self) -> Seq<char> {
        "["@ + self.severity.message() + "] ("@ + self.category.message() + "): "@ + self.message
    }
}

impl Diagnostic {
    /// The finding on one line.
    pub fn to_string(&self) -> (s: String)
        ensures
            s@ == self@.line(),
    {
        let mut s = "[".to_owned();
        s.append(self.severity.to_string().as_str());
        s.append("] (");
        s.append(self.category.to_string().as_str());
        s.append("): ");
        s.append(self.message.as_str());
        s
    }
}

/// The findings of a list of diagnostics.
pub open spec fn findings(list: Seq<Diagnostic>) -> Seq<Finding> {
    list.map_values(|d: Diagnostic| d@)
}

/// The lines that list findings, one each.
pub open spec fn finding_lines(list: Seq<Finding>) -> Seq<char>
    decreases list.len(),
{
    if list.len() == 0 {
        Seq::empty()
    } else {
        finding_lines(list.drop_last()) + "  - "@ + list.last().line() + "\n"@
    }
}

/// All findings on a graph.
#[derive(Debug)]
pub struct GraphDiagnostics {
    pub warnings: Vec<Diagnostic>,
    pub infos: Vec<Diagnostic>,
}

fn lines_of(list: &Vec<Diagnostic>) -> (s: String)
    ensures
        s@ == finding_lines(findings(list@)),
{
    let mut s = String::new();
    let mut i: usize = 0;
    assert(findings(list@).take(0) =~= Seq::empty());
    while i < list.len()
        invariant
            i <= list.len(),
            s@ == finding_lines(findings(list@).take(i as int)),
        decreases list.len() - i,
    {
        s.append("  - ");
        s.append(list[i].to_string().as_str());
        s.append("\n");
        i += 1;
        assert(findings(list@).take(i as int).drop_last() =~= findings(list@).take(i - 1));
    }
    assert(findings(list@).take(list.len() as int) =~= findings(list@));
    s
}

impl GraphDiagnostics {
    /// No findings.
    pub fn new() -> (d: Self)
        ensures
            d.warnings@ == Seq::<Diagnostic>::empty(),
            d.infos@ == Seq::<Diagnostic>::empty(),
    {
        GraphDiagnostics { warnings: Vec::new(), infos: Vec::new() }
    }

    /// The warnings as findings.
    pub open spec fn warned(self) -> Seq<Finding> {
        findings(self.warnings@)
    }

    /// The notes as findings.
    pub open spec fn noted(self) -> Seq<Finding> {
        findings(self.infos@)
    }

    /// Adds a warning at the end.
    pub fn add_warning(&mut self, category: DiagnosticCategory, message: String)
        ensures
            final(self).warned() == old(self).warned().push(
                (Finding { severity: DiagnosticSeverity::Warning, category, message: message@ }),
            ),
            final(self).infos == old(self).infos,
    {
        let d = Diagnostic { severity: DiagnosticSeverity::Warning, category, message };
        let ghost added = d@;
        self.warnings.push(d);
        assert(self.warned() =~= old(self).warned().push(added));
    }

    /// Adds a note at the end.
    pub fn add_info(&mut self, category: DiagnosticCategory, message: String)
        ensures
            final(self).noted() == old(self).noted().push(
                (Finding { severity: DiagnosticSeverity::Info, category, message: message@ }),
            ),
            final(self).warnings == old(self).warnings,
    {
        let d = Diagnostic { severity: DiagnosticSeverity::Info, category, message };
        let ghost added = d@;
        self.infos.push(d);
        assert(self.noted() =~= old(self).noted().push(added));
    }

    /// Whether nothing was found.
    pub fn is_empty(&self) -> (empty: bool)
        ensures
            empty == (self.warned().len() == 0 && self.noted().len() == 0),
    {
        self.warnings.len() == 0 && self.infos.len() == 0
    }

    /// Whether a risk was found.
    pub fn has_warnings(&self) -> (found: bool)
        ensures
            found == (self.warned().len() > 0),
    {
        self.warnings.len() > 0
    }

    /// The text of all findings.
    pub open spec fn message(self) -> Seq<char> {
        if self.warned().len() == 0 && self.noted().len() == 0 {
            "no issues found"@
        } else {
            (if self.warned().len() > 0 {
                text::decimal_text(self.warned().len()) + " warning(s):\n"@ + finding_lines(
                    self.warned(),
                )
            } else {
                Seq::empty()
            }) + (if self.noted().len() > 0 {
                text::decimal_text(self.noted().len()) + " info(s):\n"@ + finding_lines(
                    self.noted(),
                )
            } else {
                Seq::empty()
            })
        }
    }

    /// The text of all findings: first the warnings, then the notes.
    pub fn to_string(&self) -> (s: String)
        ensures
            s@ == self.message(),
    {
        if self.is_empty() {
            return "no issues found".to_owned();
        }
        let mut s = String::new();
        if self.warnings.len() > 0 {
            s = text::decimal(self.warnings.len() as u64);
            s.append(" warning(s):\n");
            s.append(lines_of(&self.warnings).as_str());
        }
        let mut notes = String::new();
        if self.infos.len() > 0 {
            notes = text::decimal(self.infos.len() as u64);
            notes.append(" info(s):\n");
            notes.append(lines_of(&self.infos).as_str());
        }
        s.append(notes.as_str());
        s
    }
}

impl Default for GraphDiagnostics {
    fn default() -> (d: Self)
        ensures
            d.warnings@ == Seq::<Diagnostic>::empty(),
            d.infos@ == Seq::<Diagnostic>::empty(),
    {
        GraphDiagnostics::new()
    }
}

/// An error of a run.
#[derive(Debug)]
pub enum GraphError {
    /// The run stops for good.
    Terminal(TerminalError),
}

/// Why a run stopped.
#[derive(Debug)]
pub enum TerminalError {
    /// The graph is not valid.
    InvalidGraph(String),
    /// There is no node of that name.
    NodeNotFound(String),
    /// A jump has no edge.
    MissingEdge { from: String, to: String },
    /// A node failed, with the text of its error.
    NodeExecutionFailed { node: String, source: String },
    /// The run took more steps than it may.
    StepsExceeded { limit: usize },
    /// A loop ran more often than it may.
    LoopLimitExceeded { limit: usize },
    /// No decision came in time.
    BarrierTimeout { node: String, timeout: Duration },
    /// No decision can come any more.
    BarrierCancelled { node: String },
    /// No outgoing edge applies.
    Unrouted { node: String, attempted_conditions: Vec<ConditionEval> },
    /// An operation on the state failed.
    StateError(String),
}

/// How one edge was judged.
#[derive(Debug)]
pub struct ConditionEval {
    /// The edge, as text.
    pub edge: String,
    /// The condition, if the edge has one.
    pub condition: Option<String>,
    /// Whether the edge applied.
    pub matched: bool,
}

/// An edge's verdict as text.
pub open spec fn eval_text(e: ConditionEval) -> Seq<char> {
    e.edge@ + "="@ + (if e.matched {
        "true"@
    } else {
        "false"@
    })
}

impl TerminalError {
    /// The text of the error.
    pub open spec fn message(self) -> Seq<char> {
        match self {
            TerminalError::InvalidGraph(msg) => "invalid graph: "@ + msg@,
            TerminalError::NodeNotFound(name) => "node not found: "@ + name@,
            TerminalError::MissingEdge { from, to } => "goto '"@ + to@ + "' from '"@ + from@
                + "' failed: no edge "@ + from@ + "→"@ + to@ + " exists"@,
            TerminalError::NodeExecutionFailed { node, source } => "node '"@ + node@
                + "' execution failed: "@ + source@,
            TerminalError::StepsExceeded { limit } => "step limit "@ + text::decimal_text(
                limit as nat,
            ) + " exceeded (potential infinite loop)"@,
            TerminalError::LoopLimitExceeded { limit } => "loop limit exceeded: "@
                + text::decimal_text(limit as nat),
            TerminalError::BarrierTimeout { node, timeout } => "barrier '"@ + node@
                + "' timed out after "@ + crate::time::duration_debug(timeout@),
            TerminalError::BarrierCancelled { node } => "barrier '"@ + node@
                + "' cancelled: consumer dropped the signal channel"@,
            TerminalError::Unrouted { node, attempted_conditions } => "node '"@ + node@
                + "' has no matching outgoing edge"@ + (if attempted_conditions@.len() == 0 {
                Seq::empty()
            } else {
                ". evaluated: ["@ + text::joined(
                    attempted_conditions@.map_values(|e: ConditionEval| eval_text(e)),
                    ", "@,
                ) + "]"@
            }),
            TerminalError::StateError(msg) => "state error: "@ + msg@,
        }
    }

    /// The text of the error.
    pub fn to_string(&self) -> (s: String)
        ensures
            s@ == self.message(),
    {
        match self {
            TerminalError::InvalidGraph(msg) => {
                let mut s = "invalid graph: ".to_owned();
                s.append(msg.as_str());
                s
            },
            TerminalError::NodeNotFound(name) => {
                let mut s = "node not found: ".to_owned();
                s.append(name.as_str());
                s
            },
            TerminalError::MissingEdge { from, to } => {
                let mut s = "goto '".to_owned();
                s.append(to.as_str());
                s.append("' from '");
                s.append(from.as_str());
                s.append("' failed: no edge ");
                s.append(from.as_str());
                s.append("→");
                s.append(to.as_str());
                s.append(" exists");
                s
            },
            TerminalError::NodeExecutionFailed { node, source } => {
                let mut s = "node '".to_owned();
                s.append(node.as_str());
                s.append("' execution failed: ");
                s.append(source.as_str());
                s
            },
            TerminalError::StepsExceeded { limit } => {
                let mut s = "step limit ".to_owned();
                s.append(text::decimal(*limit as u64).as_str());
                s.append(" exceeded (potential infinite loop)");
                s
            },
            TerminalError::LoopLimitExceeded { limit } => {
                let mut s = "loop limit exceeded: ".to_owned();
                s.append(text::decimal(*limit as u64).as_str());
                s
            },
            TerminalError::BarrierTimeout { node, timeout } => {
                let mut s = "barrier '".to_owned();
                s.append(node.as_str());
                s.append("' timed out after ");
                s.append(timeout.to_text().as_str());
                s
            },
            TerminalError::BarrierCancelled { node } => {
                let mut s = "barrier '".to_owned();
                s.append(node.as_str());
                s.append("' cancelled: consumer dropped the signal channel");
                s
            },
            TerminalError::Unrouted { node, attempted_conditions } => {
                let mut s = "node '".to_owned();
                s.append(node.as_str());
                s.append("' has no matching outgoing edge");
                let mut tail = String::new();
                if attempted_conditions.len() > 0 {
                    tail.append(". evaluated: [");
                    tail.append(evals_text(attempted_conditions).as_str());
                    tail.append("]");
                    assert(tail@ =~= ". evaluated: ["@ + text::joined(
                        attempted_conditions@.map_values(|e: ConditionEval| eval_text(e)),
                        ", "@,
                    ) + "]"@);
                }
                s.append(tail.as_str());
                s
            },
            TerminalError::StateError(msg) => {
                let mut s = "state error: ".to_owned();
                s.append(msg.as_str());
                s
            },
        }
    }
}

fn evals_text(evals: &Vec<ConditionEval>) -> (s: String)
    ensures
        s@ == text::joined(evals@.map_values(|e: ConditionEval| eval_text(e)), ", "@),
{
    let mut parts: Vec<String> = Vec::new();
    let mut i: usize = 0;
    let ghost wanted = evals@.map_values(|e: ConditionEval| eval_text(e));
    assert(text::texts(parts@) =~= wanted.take(0));
    while i < evals.len()
        invariant
            i <= evals.len(),
            wanted == evals@.map_values(|e: ConditionEval| eval_text(e)),
            text::texts(parts@) == wanted.take(i as int),
        decreases evals.len() - i,
    {
        let mut part = evals[i].edge.clone();
        part.append("=");
        part.append(if evals[i].matched {
            "true"
        } else {
            "false"
        });
        proof {
            text::lemma_texts_push(parts@, part);
            assert(wanted.take(i + 1) =~= wanted.take(i as int).push(wanted[i as int]));
        }
        parts.push(part);
        i += 1;
    }
    assert(wanted.take(evals.len() as int) =~= wanted);
    text::join(&parts, ", ")
}

impl GraphError {
    /// The text of the error.
    pub open spec fn message(self) -> Seq<char> {
        match self {
            GraphError::Terminal(e) => "[terminal] "@ + e.message(),
        }
    }

    /// The text of the error.
    pub fn to_string(&self) -> (s: String)
        ensures
            s@ == self.message(),
    {
        match self {
            GraphError::Terminal(e) => {
                let mut s = "[terminal] ".to_owned();
                s.append(e.to_string().as_str());
                s
            },
        }
    }
}

/// Something that went wrong without stopping the run.
#[derive(Debug)]
pub enum ObservedError {
    /// A warning.
    Warning { node: String, message: String },
    /// A node did less than it should.
    Degraded { node: String, message: String },
    /// A node succeeded in part.
    PartialFailure { node: String, succeeded: usize, failed: usize, message: String },
}

impl ObservedError {
    /// The text of the event.
    pub open spec fn message(self) -> Seq<char> {
        match self {
            ObservedError::Warning { node, message } => "node '"@ + node@ + "': "@ + message@,
            ObservedError::Degraded { node, message } => "node '"@ + node@ + "' degraded: "@
                + message@,
            ObservedError::PartialFailure { node, succeeded, failed, message } => "node '"@ + node@
                + "' partial: "@ + text::decimal_text(succeeded as nat) + "/"@ + text::decimal_text(
                (succeeded + failed) as nat,
            ) + " ok, "@ + message@,
        }
    }

    /// The text of the event. The counts of a partial failure have a sum.
    pub fn to_string(&self) -> (s: String)
        requires
            *self matches ObservedError::PartialFailure { succeeded, failed, .. } ==> succeeded
                + failed <= usize::MAX,
        ensures
            s@ == self.message(),
    {
        let mut s = "node '".to_owned();
        match self {
            ObservedError::Warning { node, message } => {
                s.append(node.as_str());
                s.append("': ");
                s.append(message.as_str());
            },
            ObservedError::Degraded { node, message } => {
                s.append(node.as_str());
                s.append("' degraded: ");
                s.append(message.as_str());
            },
            ObservedError::PartialFailure { node, succeeded, failed, message } => {
                s.append(node.as_str());
                s.append("' partial: ");
                s.append(text::decimal(*succeeded as u64).as_str());
                s.append("/");
                s.append(text::decimal((*succeeded + *failed) as u64).as_str());
                s.append(" ok, ");
                s.append(message.as_str());
            },
        }
        s
    }
}

/// Errors are listed one by one, each on a line of its own with its text.
pub proof fn law_errors_are_listed(a: Seq<BuildError>, b: Seq<BuildError>, e: BuildError)
    ensures
        error_lines(a + b) == error_lines(a) + error_lines(b),
        error_lines(seq![e]) == "  - "@ + e.message() + "\n"@,
    decreases b.len(),
{
    assert(error_lines(seq![e].drop_last()) =~= Seq::empty());
    assert(error_lines(seq![e]) =~= "  - "@ + e.message() + "\n"@);
    if b.len() == 0 {
        assert(a + b =~= a);
        assert(error_lines(a + b) =~= error_lines(a) + error_lines(b));
    } else {
        assert((a + b).drop_last() =~= a + b.drop_last());
        law_errors_are_listed(a, b.drop_last(), e);
        assert(error_lines(a + b) =~= error_lines(a) + error_lines(b));
    }
}

/// Findings are listed one by one, each on a line of its own with its severity, its category
/// and its text.
pub proof fn law_findings_are_listed(a: Seq<Finding>, b: Seq<Finding>, f: Finding)
    ensures
        finding_lines(a + b) == finding_lines(a) + finding_lines(b),
        finding_lines(seq![f]) == "  - ["@ + f.severity.message() + "] ("@ + f.category.message()
            + "): "@ + f.message + "\n"@,
    decreases b.len(),
{
    reveal_strlit("  - ");
    reveal_strlit("[");
    reveal_strlit("  - [");
    assert(finding_lines(seq![f].drop_last()) =~= Seq::empty());
    assert("  - ["@ =~= "  - "@ + "["@);
    assert(finding_lines(seq![f]) =~= "  - ["@ + f.severity.message() + "] ("@
        + f.category.message() + "): "@ + f.message + "\n"@);
    if b.len() == 0 {
        assert(a + b =~= a);
        assert(finding_lines(a + b) =~= finding_lines(a) + finding_lines(b));
    } else {
        assert((a + b).drop_last() =~= a + b.drop_last());
        law_findings_are_listed(a, b.drop_last(), f);
        assert(finding_lines(a + b) =~= finding_lines(a) + finding_lines(b));
    }
}

/// The verdict on an edge names the edge and tells whether it applied.
pub proof fn law_verdicts_tell(e: ConditionEval)
    ensures
        e.matched ==> eval_text(e) == e.edge@ + "=true"@,
        !e.matched ==> eval_text(e) == e.edge@ + "=false"@,
{
    reveal_strlit("=");
    reveal_strlit("true");
    reveal_strlit("false");
    reveal_strlit("=true");
    reveal_strlit("=false");
    assert("="@ + "true"@ =~= "=true"@);
    assert("="@ + "false"@ =~= "=false"@);
    assert(eval_text(e) =~= e.edge@ + (if e.matched {
        "=true"@
    } else {
        "=false"@
    }));
}

/// Every error of a builder says what is wrong, with the names that it is about.
pub proof fn law_build_errors_are_told(a: String, b: String, reason: String)
    ensures
        (BuildError::DuplicateNode { id: a }).message() == "duplicate node id: '"@ + a@ + "'"@,
        (BuildError::MissingNode { from: a, to: b }).message()
            == "edge references non-existent node: '"@ + b@ + "' (in "@ + a@ + "→"@ + b@ + ")"@,
        BuildError::MissingEntryPoint.message() == "entry point not set"@,
        BuildError::MissingExitPoint.message() == "exit point not set"@,
        (BuildError::InvalidEdgeDefinition { from: a, to: b, reason }).message() == "invalid edge "@
            + a@ + "→"@ + b@ + ": "@ + reason@,
        (BuildError::InvalidFallback { node: a, reason }).message()
            == "invalid fallback for node '"@ + a@ + "': "@ + reason@,
{
}

/// Every error that ends a run says what went wrong, with the names and the limits that it is
/// about, and every one is marked as terminal.
pub proof fn law_terminal_errors_are_told(a: String, b: String, limit: usize, e: TerminalError)
    ensures
        TerminalError::InvalidGraph(a).message() == "invalid graph: "@ + a@,
        TerminalError::NodeNotFound(a).message() == "node not found: "@ + a@,
        (TerminalError::MissingEdge { from: a, to: b }).message() == "goto '"@ + b@ + "' from '"@
            + a@ + "' failed: no edge "@ + a@ + "→"@ + b@ + " exists"@,
        (TerminalError::NodeExecutionFailed { node: a, source: b }).message() == "node '"@ + a@
            + "' execution failed: "@ + b@,
        (TerminalError::StepsExceeded { limit }).message() == "step limit "@ + text::decimal_text(
            limit as nat,
        ) + " exceeded (potential infinite loop)"@,
        (TerminalError::BarrierCancelled { node: a }).message() == "barrier '"@ + a@
            + "' cancelled: consumer dropped the signal channel"@,
        TerminalError::StateError(a).message() == "state error: "@ + a@,
        GraphError::Terminal(e).message() == "[terminal] "@ + e.message(),
{
}

/// A run that no edge took on lists the verdicts on the edges, in order, if there are any.
pub proof fn law_verdicts_are_listed(node: String, evals: Vec<ConditionEval>)
    ensures
        evals@.len() == 0 ==> (TerminalError::Unrouted {
            node,
            attempted_conditions: evals,
        }).message() == "node '"@ + node@ + "' has no matching outgoing edge"@,
        evals@.len() == 1 ==> (TerminalError::Unrouted {
            node,
            attempted_conditions: evals,
        }).message() == "node '"@ + node@ + "' has no matching outgoing edge"@ + (
        ". evaluated: ["@ + eval_text(evals@[0]) + "]"@),
        evals@.len() > 0 ==> (TerminalError::Unrouted {
            node,
            attempted_conditions: evals,
        }).message() == "node '"@ + node@ + "' has no matching outgoing edge"@ + (
        ". evaluated: ["@ + text::joined(
            Seq::new(evals@.len(), |i: int| eval_text(evals@[i])),
            ", "@,
        ) + "]"@),
{
    let shown = evals@.map_values(|e: ConditionEval| eval_text(e));
    assert(shown =~= Seq::new(evals@.len(), |i: int| eval_text(evals@[i])));
    let said = "node '"@ + node@ + "' has no matching outgoing edge"@;
    assert(said + Seq::<char>::empty() =~= said);
}

/// What was only observed is told with the node and what it said, and a partial failure with
/// how many of how many went well.
pub proof fn law_observations_are_told(node: String, message: String, succeeded: usize, failed: usize)
    ensures
        (ObservedError::Warning { node, message }).message() == "node '"@ + node@ + "': "@
            + message@,
        (ObservedError::Degraded { node, message }).message() == "node '"@ + node@
            + "' degraded: "@ + message@,
        (ObservedError::PartialFailure { node, succeeded, failed, message }).message() == "node '"@
            + node@ + "' partial: "@ + text::decimal_text(succeeded as nat) + "/"@
            + text::decimal_text((succeeded + failed) as nat) + " ok, "@ + message@,
{
}

/// The severities and the categories have names of their own, and a diagnosis lists the
/// warnings before the rest, each list under its number.
pub proof fn law_diagnoses_are_told(d: GraphDiagnostics)
    ensures
        DiagnosticSeverity::Info.message() == "info"@,
        DiagnosticSeverity::Warning.message() == "warning"@,
        DiagnosticCategory::Cycle.message() == "cycle"@,
        DiagnosticCategory::FallbackInCycle.message() == "fallback-in-cycle"@,
        DiagnosticCategory::Unreachable.message() == "unreachable"@,
        DiagnosticCategory::ConditionOverlap.message() == "condition-overlap"@,
        DiagnosticCategory::EndNodeOutgoing.message() == "end-node-outgoing"@,
        DiagnosticCategory::Other.message() == "other"@,
        d.warnings@.len() == 0 && d.infos@.len() == 0 ==> d.message() == "no issues found"@,
        d.warnings@.len() > 0 && d.infos@.len() == 0 ==> d.message() == text::decimal_text(
            d.warnings@.len(),
        ) + " warning(s):\n"@ + finding_lines(findings(d.warnings@)),
        d.warnings@.len() == 0 && d.infos@.len() > 0 ==> d.message() == text::decimal_text(
            d.infos@.len(),
        ) + " info(s):\n"@ + finding_lines(findings(d.infos@)),
        d.warnings@.len() > 0 && d.infos@.len() > 0 ==> d.message() == text::decimal_text(
            d.warnings@.len(),
        ) + " warning(s):\n"@ + finding_lines(findings(d.warnings@)) + (text::decimal_text(
            d.infos@.len(),
        ) + " info(s):\n"@ + finding_lines(findings(d.infos@))),
        findings(d.warnings@).len() == d.warnings@.len(),
        forall|i: int|
            0 <= i < d.warnings@.len() ==> (#[trigger] findings(d.warnings@)[i]).severity
                == d.warnings@[i].severity && findings(d.warnings@)[i].category
                == d.warnings@[i].category && findings(d.warnings@)[i].message
                == d.warnings@[i].message@,
{
    if d.warnings@.len() > 0 && d.infos@.len() == 0 {
        let t = text::decimal_text(d.warnings@.len()) + " warning(s):\n"@ + finding_lines(
            findings(d.warnings@),
        );
        assert(t + Seq::<char>::empty() =~= t);
    }
    if d.warnings@.len() == 0 && d.infos@.len() > 0 {
        let t = text::decimal_text(d.infos@.len()) + " info(s):\n"@ + finding_lines(
            findings(d.infos@),
        );
        assert(Seq::<char>::empty() + t =~= t);
    }
}

/// The errors of a builder are told with their number, and none as none.
pub proof fn law_build_errors_are_counted(errors: BuildErrors)
    ensures
        errors.0@.len() == 0 ==> errors.message() == "no errors"@,
        errors.0@.len() > 0 ==> errors.message() == text::decimal_text(errors.0@.len())
            + " error(s):\n"@ + error_lines(errors.0@),
{
}

} // verus!
