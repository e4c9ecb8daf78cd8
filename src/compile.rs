//! The compile worker and the consumer of its messages.
//!
//! The worker decides; the program around it performs. It is a state
//! machine: `CompileWorker::start` emits `Start` and asks for the source to
//! be written; from then on each `step` takes the outcome of the action it
//! asked for (an event), emits messages, and asks for the next action:
//! write the source, run the engine, read the bibliography inputs, run the
//! bibliography tool, run the engine again, locate the output. The
//! bibliography tool runs only when the source mentions `biblatex`, the
//! first engine run succeeded, the control file exists, and its
//! fingerprint or the bibliography files' fingerprint differs from the last
//! successful compile's. A compile cannot be cancelled once started.
//!
//! The consumer holds what the user sees. It starts no compile while one
//! is outstanding, and takes each message in the order it was sent.
use crate::diagnostics::{
    diagnostic_views, diagnostics_of, parse_diagnostics, Diagnostic, DiagnosticView,
};
use crate::fingerprint::{
    bib_set_fingerprint, bib_views, bibliography_unchanged, citations_unchanged,
    fingerprint_bcf, fingerprint_bib_set, fingerprint_of, lemma_lower_hex_len, sha256_of, BibFile,
};
use crate::text::{
    chars_of, contains_chars, contains_exec, decimal_chars, show_int, slice_chars, string_of,
};
use vstd::prelude::*;
use vstd::string::StringExecFns;

verus! {

/// What one compile works from.
#[derive(Debug)]
pub struct CompilationRequest {
    /// The document's text as the editor holds it.
    pub source: String,
    /// Where the document is saved; empty for a document never saved.
    pub file_path: String,
    /// The root document to compile instead, when one was chosen.
    pub root_override: Option<String>,
    /// The fingerprints that the last successful compile reported.
    pub previous_bcf: String,
    pub previous_bib: String,
}

/// A request as plain values.
pub struct RequestView {
    pub source: Seq<char>,
    pub file_path: Seq<char>,
    pub root_override: Option<Seq<char>>,
    pub previous_bcf: Seq<char>,
    pub previous_bib: Seq<char>,
}

impl View for CompilationRequest {
    type V = RequestView;

    open spec fn view(&self) -> RequestView {
        RequestView {
            source: self.source@,
            file_path: self.file_path@,
            root_override: match self.root_override {
                Some(r) => Some(r@),
                None => None,
            },
            previous_bcf: self.previous_bcf@,
            previous_bib: self.previous_bib@,
        }
    }
}

/// What the worker tells the consumer.
#[derive(Debug)]
pub enum CompilationMessage {
    Start,
    Log(String),
    Diagnostics(Vec<Diagnostic>),
    /// The output file, and the control file's and the bibliography files'
    /// fingerprints (empty when they were not computed).
    Success(String, String, String),
    Error(String),
}

/// A message as plain values.
pub enum MessageView {
    Start,
    Log(Seq<char>),
    Diagnostics(Seq<DiagnosticView>),
    Success(Seq<char>, Seq<char>, Seq<char>),
    Error(Seq<char>),
}

impl View for CompilationMessage {
    type V = MessageView;

    open spec fn view(&self) -> MessageView {
        match self {
            CompilationMessage::Start => MessageView::Start,
            CompilationMessage::Log(s) => MessageView::Log(s@),
            CompilationMessage::Diagnostics(d) => MessageView::Diagnostics(diagnostic_views(d@)),
            CompilationMessage::Success(p, b, k) => MessageView::Success(p@, b@, k@),
            CompilationMessage::Error(e) => MessageView::Error(e@),
        }
    }
}

/// The values of a list of messages.
pub open spec fn message_views(s: Seq<CompilationMessage>) -> Seq<MessageView> {
    s.map_values(|m: CompilationMessage| m@)
}

/// What the worker asks the program around it to do next. Each path is
/// the document that is compiled (the target); the output, the control file
/// and the bibliography files lie in its directory and share its stem.
#[derive(Debug)]
pub enum WorkerAction {
    /// Write the contents (second) to the path (first).
    WriteSource(String, String),
    /// Run the engine on the target in its directory, asking for the
    /// synchronization file and keeping intermediate files.
    RunEngine(String),
    /// Read `<stem>.bcf` next to the target, and every `.bib` file in its
    /// directory.
    ReadCitationInputs(String),
    /// Run the bibliography tool on the target's stem, in its directory.
    RunBibliographyTool(String),
    /// Look for `<stem>.pdf` next to the target.
    LocateArtifact(String),
    /// Nothing is left to do.
    Finished,
}

/// An action as plain values.
pub enum ActionView {
    WriteSource(Seq<char>, Seq<char>),
    RunEngine(Seq<char>),
    ReadCitationInputs(Seq<char>),
    RunBibliographyTool(Seq<char>),
    LocateArtifact(Seq<char>),
    Finished,
}

impl View for WorkerAction {
    type V = ActionView;

    open spec fn view(&self) -> ActionView {
        match self {
            WorkerAction::WriteSource(p, c) => ActionView::WriteSource(p@, c@),
            WorkerAction::RunEngine(t) => ActionView::RunEngine(t@),
            WorkerAction::ReadCitationInputs(t) => ActionView::ReadCitationInputs(t@),
            WorkerAction::RunBibliographyTool(t) => ActionView::RunBibliographyTool(t@),
            WorkerAction::LocateArtifact(t) => ActionView::LocateArtifact(t@),
            WorkerAction::Finished => ActionView::Finished,
        }
    }
}

/// How an engine run ended.
#[derive(Debug)]
pub enum EngineOutcome {
    /// The engine ran: whether it succeeded, its exit code if it had one,
    /// and what it wrote to its two streams.
    Exited(bool, Option<i32>, String, String),
    /// The engine could not be started; the reason.
    SpawnFailed(String),
}

/// An engine outcome as plain values.
pub enum EngineView {
    Exited(bool, Option<i32>, Seq<char>, Seq<char>),
    SpawnFailed(Seq<char>),
}

impl View for EngineOutcome {
    type V = EngineView;

    open spec fn view(&self) -> EngineView {
        match self {
            EngineOutcome::Exited(ok, code, out, err) => EngineView::Exited(*ok, *code, out@, err@),
            EngineOutcome::SpawnFailed(e) => EngineView::SpawnFailed(e@),
        }
    }
}

/// How a bibliography tool run ended.
#[derive(Debug)]
pub enum ToolOutcome {
    /// The tool ran: whether it succeeded, and its error stream.
    Exited(bool, String),
    /// The tool could not be started.
    SpawnFailed,
}

/// A tool outcome as plain values.
pub enum ToolView {
    Exited(bool, Seq<char>),
    SpawnFailed,
}

impl View for ToolOutcome {
    type V = ToolView;

    open spec fn view(&self) -> ToolView {
        match self {
            ToolOutcome::Exited(ok, err) => ToolView::Exited(*ok, err@),
            ToolOutcome::SpawnFailed => ToolView::SpawnFailed,
        }
    }
}

/// What was found of the bibliography control file.
#[derive(Debug)]
pub enum BcfFile {
    Missing,
    Unreadable,
    Read(Vec<u8>),
}

/// A control file finding as plain values.
pub enum BcfView {
    Missing,
    Unreadable,
    Read(Seq<u8>),
}

impl View for BcfFile {
    type V = BcfView;

    open spec fn view(&self) -> BcfView {
        match self {
            BcfFile::Missing => BcfView::Missing,
            BcfFile::Unreadable => BcfView::Unreadable,
            BcfFile::Read(b) => BcfView::Read(b@),
        }
    }
}

/// The outcome of an action, handed back to the worker.
pub enum WorkerEvent {
    /// The source was written, or the reason it was not.
    SourceWritten(Result<(), String>),
    EngineFinished(EngineOutcome),
    /// The control file, and the bibliography files that could be read.
    CitationInputs(BcfFile, Vec<BibFile>),
    BibliographyToolFinished(ToolOutcome),
    /// The output file's path, if it exists.
    ArtifactLocated(Option<String>),
}

/// An event as plain values.
pub enum EventView {
    SourceWritten(Result<(), Seq<char>>),
    EngineFinished(EngineView),
    CitationInputs(BcfView, Seq<(Seq<u8>, Seq<u8>)>),
    BibliographyToolFinished(ToolView),
    ArtifactLocated(Option<Seq<char>>),
}

impl View for WorkerEvent {
    type V = EventView;

    open spec fn view(&self) -> EventView {
        match self {
            WorkerEvent::SourceWritten(r) => EventView::SourceWritten(
                match r {
                    Ok(()) => Ok(()),
                    Err(e) => Err(e@),
                },
            ),
            WorkerEvent::EngineFinished(o) => EventView::EngineFinished(o@),
            WorkerEvent::CitationInputs(b, f) => EventView::CitationInputs(b@, bib_views(f@)),
            WorkerEvent::BibliographyToolFinished(t) => EventView::BibliographyToolFinished(t@),
            WorkerEvent::ArtifactLocated(p) => EventView::ArtifactLocated(
                match p {
                    Some(p) => Some(p@),
                    None => None,
                },
            ),
        }
    }
}

/// Where the worker stands: the action it waits on.
#[derive(Clone, Copy, Debug, PartialEq, Eq)]
pub enum Phase {
    Writing,
    FirstEngine,
    Citations,
    BibliographyTool,
    SecondEngine,
    Locating,
    Finished,
}

/// The worker's state as plain values.
pub struct WorkerView {
    pub request: RequestView,
    pub phase: Phase,
    /// The engine run that decides the outcome, once there is one.
    pub output: Option<EngineView>,
    pub bcf: Seq<char>,
    pub bib: Seq<char>,
}

/// The byte-order mark.
pub open spec fn bom() -> char {
    '\u{feff}'
}

/// `s` without the byte-order marks it starts with.
pub open spec fn strip_bom(s: Seq<char>) -> Seq<char>
    decreases s.len(),
{
    if s.len() > 0 && s[0] == bom() {
        strip_bom(s.drop_first())
    } else {
        s
    }
}

/// Where the source is written: its own path, or `temp.tex` for a
/// document never saved.
pub open spec fn save_path(r: RequestView) -> Seq<char> {
    if r.file_path.len() == 0 {
        "temp.tex"@
    } else {
        r.file_path
    }
}

/// The document that is compiled: the chosen root, else the saved source.
pub open spec fn target_path(r: RequestView) -> Seq<char> {
    match r.root_override {
        Some(root) => root,
        None => save_path(r),
    }
}

/// The source shows evidence of bibliography use.
pub open spec fn uses_bibliography(r: RequestView) -> bool {
    contains_chars(r.source, "biblatex"@)
}

/// The action that a worker in state `w` waits on.
pub open spec fn pending_action(w: WorkerView) -> ActionView {
    let t = target_path(w.request);
    match w.phase {
        Phase::Writing => ActionView::WriteSource(save_path(w.request), strip_bom(w.request.source)),
        Phase::FirstEngine => ActionView::RunEngine(t),
        Phase::Citations => ActionView::ReadCitationInputs(t),
        Phase::BibliographyTool => ActionView::RunBibliographyTool(t),
        Phase::SecondEngine => ActionView::RunEngine(t),
        Phase::Locating => ActionView::LocateArtifact(t),
        Phase::Finished => ActionView::Finished,
    }
}

/// The worker as it starts, and what it emits.
pub open spec fn start_state(r: RequestView) -> WorkerView {
    WorkerView { request: r, phase: Phase::Writing, output: None, bcf: seq![], bib: seq![] }
}

/// The text of the error for a failed engine run.
pub open spec fn failure_text(code: Option<i32>, out: Seq<char>, err: Seq<char>) -> Seq<char> {
    let c: int = match code {
        Some(c) => c as int,
        None => -1,
    };
    "Compilation failed with code: "@ + show_int(c) + "\n\nSTDOUT:\n"@ + out + "\n\nSTDERR:\n"@
        + err
}

/// The diagnostics of an engine run's two streams, each line located in
/// the target.
pub open spec fn output_diagnostics(w: WorkerView, o: EngineView) -> Seq<DiagnosticView> {
    match o {
        EngineView::Exited(_, _, out, err) => diagnostics_of(out, target_path(w.request))
            + diagnostics_of(err, target_path(w.request)),
        EngineView::SpawnFailed(_) => seq![],
    }
}

/// The end of a compile on the deciding engine run `o`: its diagnostics if
/// there are any, then either the search for the output file (after a
/// success) or the error (after a failure).
pub open spec fn finish(w: WorkerView, o: EngineView) -> (WorkerView, Seq<MessageView>) {
    let d = output_diagnostics(w, o);
    let dm: Seq<MessageView> = if d.len() > 0 {
        seq![MessageView::Diagnostics(d)]
    } else {
        seq![]
    };
    match o {
        EngineView::Exited(true, _, _, _) => (
            WorkerView { phase: Phase::Locating, output: Some(o), ..w },
            dm,
        ),
        EngineView::Exited(false, code, out, err) => (
            WorkerView { phase: Phase::Finished, output: Some(o), ..w },
            dm.push(MessageView::Error(failure_text(code, out, err))),
        ),
        EngineView::SpawnFailed(e) => (
            WorkerView { phase: Phase::Finished, output: Some(o), ..w },
            seq![MessageView::Error("Failed to run tectonic: "@ + e)],
        ),
    }
}

/// One step of the worker: the state after event `e`, and the messages it
/// emits. An event that does not answer the pending action changes nothing.
pub open spec fn step_spec(w: WorkerView, e: EventView) -> (WorkerView, Seq<MessageView>) {
    match (w.phase, e) {
        (Phase::Writing, EventView::SourceWritten(Err(msg))) => (
            WorkerView { phase: Phase::Finished, ..w },
            seq![MessageView::Error("Write error: "@ + msg)],
        ),
        (Phase::Writing, EventView::SourceWritten(Ok(()))) => (
            WorkerView { phase: Phase::FirstEngine, ..w },
            seq![MessageView::Log("Compiling document..."@)],
        ),
        (Phase::FirstEngine, EventView::EngineFinished(o)) => {
            if uses_bibliography(w.request) && o matches EngineView::Exited(true, _, _, _) {
                (WorkerView { phase: Phase::Citations, output: Some(o), ..w }, seq![])
            } else {
                finish(w, o)
            }
        },
        (Phase::Citations, EventView::CitationInputs(bcf, bibs)) => match (bcf, w.output) {
            (BcfView::Missing, Some(o)) => finish(w, o),
            (_, Some(o)) => {
                let b = match bcf {
                    BcfView::Read(bytes) => fingerprint_of(bytes),
                    _ => seq![],
                };
                let k = bib_set_fingerprint(bibs);
                let w2 = WorkerView { bcf: b, bib: k, ..w };
                if citations_unchanged(w.request.previous_bcf, w.request.previous_bib, b, k) {
                    let (w3, m) = finish(w2, o);
                    (w3, seq![MessageView::Log("Citations unchanged."@)] + m)
                } else {
                    (
                        WorkerView { phase: Phase::BibliographyTool, ..w2 },
                        seq![
                            MessageView::Log(
                                "Citations changed. Processing bibliography with Biber..."@,
                            ),
                        ],
                    )
                }
            },
            _ => (w, seq![]),
        },
        (Phase::BibliographyTool, EventView::BibliographyToolFinished(t)) => match (t, w.output) {
            (ToolView::Exited(ok, err), _) => {
                let warn: Seq<MessageView> = if ok {
                    seq![]
                } else {
                    seq![MessageView::Log("Biber warning/error: "@ + err)]
                };
                (
                    WorkerView { phase: Phase::SecondEngine, ..w },
                    warn.push(MessageView::Log("Re-compiling document to link citations..."@)),
                )
            },
            (ToolView::SpawnFailed, Some(o)) => {
                let (w2, m) = finish(w, o);
                (w2, seq![MessageView::Log("Failed to execute Biber."@)] + m)
            },
            _ => (w, seq![]),
        },
        (Phase::SecondEngine, EventView::EngineFinished(o)) => finish(w, o),
        (Phase::Locating, EventView::ArtifactLocated(Some(p))) => (
            WorkerView { phase: Phase::Finished, ..w },
            seq![MessageView::Success(p, w.bcf, w.bib)],
        ),
        (Phase::Locating, EventView::ArtifactLocated(None)) => (
            WorkerView { phase: Phase::Finished, ..w },
            seq![MessageView::Error("PDF file not found after compilation"@)],
        ),
        _ => (w, seq![]),
    }
}

/// The text without the byte-order marks it starts with.
pub fn without_bom(s: &str) -> (r: String)
    ensures
        r@ == strip_bom(s@),
{
    let c = chars_of(s);
    let mut i: usize = 0;
    assert(c@.skip(0) =~= c@);
    while i < c.len() && c[i] == '\u{feff}'
        invariant
            i <= c@.len(),
            strip_bom(c@) == strip_bom(c@.skip(i as int)),
        decreases c@.len() - i,
    {
        assert(c@.skip(i as int).drop_first() =~= c@.skip(i + 1));
        i = i + 1;
    }
    let rest = slice_chars(&c, i, c.len());
    assert(rest@ =~= c@.skip(i as int));
    string_of(&rest)
}

/// The compile worker for one request.
pub struct CompileWorker {
    pub request: CompilationRequest,
    pub phase: Phase,
    pub output: Option<EngineOutcome>,
    pub bcf: String,
    pub bib: String,
}

impl View for CompileWorker {
    type V = WorkerView;

    open spec fn view(&self) -> WorkerView {
        WorkerView {
            request: self.request@,
            phase: self.phase,
            output: match self.output {
                Some(o) => Some(o@),
                None => None,
            },
            bcf: self.bcf@,
            bib: self.bib@,
        }
    }
}

/// What a step emits, and the action it asks for.
pub struct Step {
    pub messages: Vec<CompilationMessage>,
    pub action: WorkerAction,
}

fn save_path_exec(r: &CompilationRequest) -> (p: String)
    ensures
        p@ == save_path(r@),
{
    if r.file_path.as_str().is_empty() {
        "temp.tex".to_owned()
    } else {
        r.file_path.clone()
    }
}

fn target_path_exec(r: &CompilationRequest) -> (p: String)
    ensures
        p@ == target_path(r@),
{
    match &r.root_override {
        Some(root) => root.clone(),
        None => save_path_exec(r),
    }
}

fn failure_text_exec(code: Option<i32>, out: &String, err: &String) -> (t: String)
    ensures
        t@ == failure_text(code, out@, err@),
{
    let c: i32 = match code {
        Some(c) => c,
        None => -1,
    };
    let digits = string_of(&decimal_chars(c));
    let mut t = "Compilation failed with code: ".to_owned();
    t.append(digits.as_str());
    t.append("\n\nSTDOUT:\n");
    t.append(out.as_str());
    t.append("\n\nSTDERR:\n");
    t.append(err.as_str());
    t
}

/// `prefix` followed by `rest`.
fn joined(prefix: &str, rest: &str) -> (t: String)
    ensures
        t@ == prefix@ + rest@,
{
    let mut t = prefix.to_owned();
    t.append(rest);
    t
}

impl CompileWorker {
    /// The action this worker waits on.
    pub fn pending(&self) -> (a: WorkerAction)
        ensures
            a@ == pending_action(self@),
    {
        match self.phase {
            Phase::Writing => WorkerAction::WriteSource(
                save_path_exec(&self.request),
                without_bom(self.request.source.as_str()),
            ),
            Phase::FirstEngine => WorkerAction::RunEngine(target_path_exec(&self.request)),
            Phase::Citations => WorkerAction::ReadCitationInputs(target_path_exec(&self.request)),
            Phase::BibliographyTool => WorkerAction::RunBibliographyTool(
                target_path_exec(&self.request),
            ),
            Phase::SecondEngine => WorkerAction::RunEngine(target_path_exec(&self.request)),
            Phase::Locating => WorkerAction::LocateArtifact(target_path_exec(&self.request)),
            Phase::Finished => WorkerAction::Finished,
        }
    }

    /// A worker for `request`: it emits `Start` and asks for the source to
    /// be written.
    pub fn start(request: CompilationRequest) -> (r: (CompileWorker, Step))
        ensures
            r.0@ == start_state(request@),
            message_views(r.1.messages@) == seq![MessageView::Start],
            r.1.action@ == pending_action(r.0@),
    {
        let w = CompileWorker {
            request,
            phase: Phase::Writing,
            output: None,
            bcf: String::new(),
            bib: String::new(),
        };
        let action = w.pending();
        let messages = vec![CompilationMessage::Start];
        assert(message_views(messages@) =~= seq![MessageView::Start]);
        (w, Step { messages, action })
    }

    /// Ends the compile on the deciding engine run `o`, as `finish` says,
    /// adding its messages to `msgs`.
    fn finish_with(&mut self, o: EngineOutcome, msgs: &mut Vec<CompilationMessage>)
        ensures
            final(self)@ == finish(old(self)@, o@).0,
            message_views(final(msgs)@) == message_views(old(msgs)@) + finish(old(self)@, o@).1,
    {
        let ghost before = msgs@;
        let target = target_path_exec(&self.request);
        match &o {
            EngineOutcome::Exited(ok, code, out, err) => {
                let mut d = parse_diagnostics(out.as_str(), target.as_str());
                let mut d2 = parse_diagnostics(err.as_str(), target.as_str());
                let ghost d_first = d@;
                let ghost d_second = d2@;
                d.append(&mut d2);
                assert(diagnostic_views(d@) =~= diagnostic_views(d_first) + diagnostic_views(
                    d_second,
                ));
                if d.len() > 0 {
                    let ghost m_before = msgs@;
                    msgs.push(CompilationMessage::Diagnostics(d));
                    assert(message_views(msgs@) =~= message_views(m_before).push(
                        MessageView::Diagnostics(diagnostic_views(d@)),
                    ));
                }
                if !*ok {
                    let ghost m_before = msgs@;
                    let text = failure_text_exec(*code, out, err);
                    msgs.push(CompilationMessage::Error(text));
                    assert(message_views(msgs@) =~= message_views(m_before).push(
                        MessageView::Error(text@),
                    ));
                }
                self.phase = if *ok {
                    Phase::Locating
                } else {
                    Phase::Finished
                };
            },
            EngineOutcome::SpawnFailed(e) => {
                let text = joined("Failed to run tectonic: ", e.as_str());
                msgs.push(CompilationMessage::Error(text));
                assert(message_views(msgs@) =~= message_views(before).push(MessageView::Error(text@)));
                self.phase = Phase::Finished;
            },
        }
        self.output = Some(o);
        assert(message_views(msgs@) =~= message_views(before) + finish(old(self)@, o@).1);
    }

    /// One step: takes the outcome of the pending action, emits messages and
    /// asks for the next action, as `step_spec` and `pending_action` say.
    pub fn step(&mut self, event: WorkerEvent) -> (r: Step)
        ensures
            final(self)@ == step_spec(old(self)@, event@).0,
            message_views(r.messages@) == step_spec(old(self)@, event@).1,
            r.action@ == pending_action(final(self)@),
    {
        let mut msgs: Vec<CompilationMessage> = Vec::new();
        let ghost empty = msgs@;
        assert(message_views(empty) =~= Seq::<MessageView>::empty());
        match (self.phase, event) {
            (Phase::Writing, WorkerEvent::SourceWritten(Err(e))) => {
                let text = joined("Write error: ", e.as_str());
                msgs.push(CompilationMessage::Error(text));
                assert(message_views(msgs@) =~= seq![MessageView::Error(text@)]);
                self.phase = Phase::Finished;
            },
            (Phase::Writing, WorkerEvent::SourceWritten(Ok(()))) => {
                let text = "Compiling document...".to_owned();
                msgs.push(CompilationMessage::Log(text));
                assert(message_views(msgs@) =~= seq![MessageView::Log(text@)]);
                self.phase = Phase::FirstEngine;
            },
            (Phase::FirstEngine, WorkerEvent::EngineFinished(o)) => {
                let src = chars_of(self.request.source.as_str());
                let key = chars_of("biblatex");
                let ok = match &o {
                    EngineOutcome::Exited(true, _, _, _) => true,
                    _ => false,
                };
                if contains_exec(&src, &key) && ok {
                    self.output = Some(o);
                    self.phase = Phase::Citations;
                } else {
                    self.finish_with(o, &mut msgs);
                }
            },
            (Phase::Citations, WorkerEvent::CitationInputs(bcf, bibs)) => {
                match self.output.take() {
                    Some(o) => {
                        match bcf {
                            BcfFile::Missing => {
                                self.finish_with(o, &mut msgs);
                            },
                            other => {
                                let b = match &other {
                                    BcfFile::Read(bytes) => fingerprint_bcf(bytes),
                                    _ => String::new(),
                                };
                                let k = fingerprint_bib_set(bibs);
                                let unchanged = bibliography_unchanged(
                                    &self.request.previous_bcf,
                                    &self.request.previous_bib,
                                    &b,
                                    &k,
                                );
                                self.bcf = b;
                                self.bib = k;
                                if unchanged {
                                    let text = "Citations unchanged.".to_owned();
                                    msgs.push(CompilationMessage::Log(text));
                                    assert(message_views(msgs@) =~= seq![MessageView::Log(text@)]);
                                    self.finish_with(o, &mut msgs);
                                } else {
                                    self.output = Some(o);
                                    let text =
                                        "Citations changed. Processing bibliography with Biber...".to_owned();
                                    msgs.push(CompilationMessage::Log(text));
                                    assert(message_views(msgs@) =~= seq![MessageView::Log(text@)]);
                                    self.phase = Phase::BibliographyTool;
                                }
                            },
                        }
                    },
                    None => {
                    },
                }
            },
            (Phase::BibliographyTool, WorkerEvent::BibliographyToolFinished(t)) => {
                match t {
                    ToolOutcome::Exited(ok, err) => {
                        if !ok {
                            let warn = joined("Biber warning/error: ", err.as_str());
                            msgs.push(CompilationMessage::Log(warn));
                            assert(message_views(msgs@) =~= seq![MessageView::Log(warn@)]);
                        }
                        let ghost m_before = msgs@;
                        let text = "Re-compiling document to link citations...".to_owned();
                        msgs.push(CompilationMessage::Log(text));
                        assert(message_views(msgs@) =~= message_views(m_before).push(
                            MessageView::Log(text@),
                        ));
                        self.phase = Phase::SecondEngine;
                    },
                    ToolOutcome::SpawnFailed => {
                        match self.output.take() {
                            Some(o) => {
                                let text = "Failed to execute Biber.".to_owned();
                                msgs.push(CompilationMessage::Log(text));
                                assert(message_views(msgs@) =~= seq![MessageView::Log(text@)]);
                                self.finish_with(o, &mut msgs);
                            },
                            None => {
                            },
                        }
                    },
                }
            },
            (Phase::SecondEngine, WorkerEvent::EngineFinished(o)) => {
                self.finish_with(o, &mut msgs);
            },
            (Phase::Locating, WorkerEvent::ArtifactLocated(Some(path))) => {
                let b = self.bcf.clone();
                let k = self.bib.clone();
                msgs.push(CompilationMessage::Success(path, b, k));
                assert(message_views(msgs@) =~= seq![MessageView::Success(path@, b@, k@)]);
                self.phase = Phase::Finished;
            },
            (Phase::Locating, WorkerEvent::ArtifactLocated(None)) => {
                let text = "PDF file not found after compilation".to_owned();
                msgs.push(CompilationMessage::Error(text));
                assert(message_views(msgs@) =~= seq![MessageView::Error(text@)]);
                self.phase = Phase::Finished;
            },
            _ => {
            },
        }
        let action = self.pending();
        Step { messages: msgs, action }
    }
}

/// What the user sees of compiles: whether one is outstanding, the log,
/// the diagnostics, and what the last successful compile reported.
pub struct CompileConsumer {
    pub compiling: bool,
    pub log: String,
    pub diagnostics: Vec<Diagnostic>,
    pub last_bcf: String,
    pub last_bib: String,
    pub last_pdf: Option<String>,
    /// The log should be brought to the user's attention.
    pub show_log: bool,
}

/// A consumer as plain values.
pub struct ConsumerView {
    pub compiling: bool,
    pub log: Seq<char>,
    pub diagnostics: Seq<DiagnosticView>,
    pub last_bcf: Seq<char>,
    pub last_bib: Seq<char>,
    pub last_pdf: Option<Seq<char>>,
    pub show_log: bool,
}

impl View for CompileConsumer {
    type V = ConsumerView;

    open spec fn view(&self) -> ConsumerView {
        ConsumerView {
            compiling: self.compiling,
            log: self.log@,
            diagnostics: diagnostic_views(self.diagnostics@),
            last_bcf: self.last_bcf@,
            last_bib: self.last_bib@,
            last_pdf: match self.last_pdf {
                Some(p) => Some(p@),
                None => None,
            },
            show_log: self.show_log,
        }
    }
}

/// What taking message `m` does to the consumer.
pub open spec fn receive_spec(c: ConsumerView, m: MessageView) -> ConsumerView {
    match m {
        MessageView::Start => ConsumerView {
            compiling: true,
            log: "Starting compilation...\n"@,
            diagnostics: seq![],
            ..c
        },
        MessageView::Log(l) => ConsumerView { log: c.log + l + "\n"@, ..c },
        MessageView::Diagnostics(d) => ConsumerView { diagnostics: d, ..c },
        MessageView::Success(p, b, k) => ConsumerView {
            compiling: false,
            log: c.log + "\nDone!"@,
            last_bcf: b,
            last_bib: k,
            last_pdf: Some(p),
            ..c
        },
        MessageView::Error(e) => ConsumerView {
            compiling: false,
            log: c.log + "\nERROR: "@ + e,
            show_log: true,
            ..c
        },
    }
}

/// The request that a consumer makes: the document as it stands, with the
/// fingerprints of the last successful compile.
pub open spec fn request_spec(
    c: ConsumerView,
    source: Seq<char>,
    file_path: Seq<char>,
    root_override: Option<Seq<char>>,
) -> RequestView {
    RequestView {
        source,
        file_path,
        root_override,
        previous_bcf: c.last_bcf,
        previous_bib: c.last_bib,
    }
}

impl CompileConsumer {
    /// A consumer before any compile.
    pub fn new() -> (r: CompileConsumer)
        ensures
            r@ == (ConsumerView {
                compiling: false,
                log: seq![],
                diagnostics: seq![],
                last_bcf: seq![],
                last_bib: seq![],
                last_pdf: None,
                show_log: false,
            }),
    {
        let r = CompileConsumer {
            compiling: false,
            log: String::new(),
            diagnostics: Vec::new(),
            last_bcf: String::new(),
            last_bib: String::new(),
            last_pdf: None,
            show_log: false,
        };
        assert(diagnostic_views(r.diagnostics@) =~= Seq::<DiagnosticView>::empty());
        r
    }

    /// The request for a compile of the document as it stands; none while
    /// a compile is outstanding. A request marks a compile as outstanding.
    pub fn request(
        &mut self,
        source: String,
        file_path: String,
        root_override: Option<String>,
    ) -> (r: Option<CompilationRequest>)
        ensures
            old(self).compiling ==> r is None && final(self)@ == old(self)@,
            !old(self).compiling ==> (r matches Some(req) && req@ == request_spec(
                old(self)@,
                source@,
                file_path@,
                match root_override {
                    Some(x) => Some(x@),
                    None => None,
                },
            ) && final(self)@ == (ConsumerView { compiling: true, ..old(self)@ })),
    {
        if self.compiling {
            return None;
        }
        self.compiling = true;
        Some(
            CompilationRequest {
                source,
                file_path,
                root_override,
                previous_bcf: self.last_bcf.clone(),
                previous_bib: self.last_bib.clone(),
            },
        )
    }

    /// Takes one message from the worker.
    pub fn receive(&mut self, msg: CompilationMessage)
        ensures
            final(self)@ == receive_spec(old(self)@, msg@),
    {
        match msg {
            CompilationMessage::Start => {
                self.compiling = true;
                self.log = "Starting compilation...\n".to_owned();
                self.diagnostics = Vec::new();
                assert(diagnostic_views(self.diagnostics@) =~= Seq::<DiagnosticView>::empty());
            },
            CompilationMessage::Log(line) => {
                self.log.append(line.as_str());
                self.log.append("\n");
            },
            CompilationMessage::Diagnostics(d) => {
                self.diagnostics = d;
            },
            CompilationMessage::Success(pdf, bcf, bib) => {
                self.compiling = false;
                self.log.append("\nDone!");
                self.last_bcf = bcf;
                self.last_bib = bib;
                self.last_pdf = Some(pdf);
            },
            CompilationMessage::Error(err) => {
                self.compiling = false;
                self.log.append("\nERROR: ");
                self.log.append(err.as_str());
                self.show_log = true;
            },
        }
    }
}

proof fn lemma_strip_bom_result(s: Seq<char>)
    ensures
        strip_bom(s).len() == 0 || strip_bom(s)[0] != bom(),
    decreases s.len(),
{
    if s.len() > 0 && s[0] == bom() {
        lemma_strip_bom_result(s.drop_first());
    }
}

/// Writing is idempotent on byte-order marks: the source that was written
/// once, handed back to the write path, is written with the same contents
/// to the same place.
pub proof fn lemma_rewrite_keeps_contents(r: RequestView)
    ensures
        strip_bom(strip_bom(r.source)) == strip_bom(r.source),
        pending_action(start_state(RequestView { source: strip_bom(r.source), ..r }))
            == pending_action(start_state(r)),
{
    lemma_strip_bom_result(r.source);
}

/// A compile that finds the same control file and bibliography files that
/// the previous successful compile fingerprinted does not run the
/// bibliography tool. The consumer hands the fingerprints of that compile's
/// `Success` to its next request; the worker for that request, given the
/// same inputs, goes on without the tool. (A SHA-256 digest is 32 bytes
/// long, which the wrapper of `sha2` states of every digest it returns.)
pub proof fn lemma_unchanged_citations_skip_tool(
    c: ConsumerView,
    pdf: Seq<char>,
    bcf: Seq<u8>,
    bibs: Seq<(Seq<u8>, Seq<u8>)>,
    source: Seq<char>,
    file_path: Seq<char>,
    root_override: Option<Seq<char>>,
    w: WorkerView,
)
    requires
        sha256_of(bcf).len() == 32,
        w.request == request_spec(
            receive_spec(
                c,
                MessageView::Success(pdf, fingerprint_of(bcf), bib_set_fingerprint(bibs)),
            ),
            source,
            file_path,
            root_override,
        ),
        w.phase == Phase::Citations,
    ensures
        !receive_spec(
            c,
            MessageView::Success(pdf, fingerprint_of(bcf), bib_set_fingerprint(bibs)),
        ).compiling,
        ({
            let w2 = step_spec(w, EventView::CitationInputs(BcfView::Read(bcf), bibs)).0;
            w2.phase != Phase::BibliographyTool && !(pending_action(
                w2,
            ) is RunBibliographyTool)
        }),
{
    lemma_lower_hex_len(sha256_of(bcf));
}

/// The kinds of message that the stream's shape speaks of.
pub enum MessageKind {
    Start,
    Log,
    Diagnostics,
    Terminal,
}

/// The kind of a message; `Success` and `Error` are terminal.
pub open spec fn kind_of(m: MessageView) -> MessageKind {
    match m {
        MessageView::Start => MessageKind::Start,
        MessageView::Log(_) => MessageKind::Log,
        MessageView::Diagnostics(_) => MessageKind::Diagnostics,
        MessageView::Success(_, _, _) => MessageKind::Terminal,
        MessageView::Error(_) => MessageKind::Terminal,
    }
}

/// How many messages of kind `k` a stream holds.
pub open spec fn count_kind(s: Seq<MessageView>, k: MessageKind) -> nat
    decreases s.len(),
{
    if s.len() == 0 {
        0
    } else {
        count_kind(s.drop_last(), k) + if kind_of(s.last()) == k {
            1nat
        } else {
            0nat
        }
    }
}

/// The state and the messages after the worker in state `w` has taken
/// `events`, one after another.
pub open spec fn run_events(w: WorkerView, events: Seq<EventView>) -> (WorkerView, Seq<MessageView>)
    decreases events.len(),
{
    if events.len() == 0 {
        (w, seq![])
    } else {
        let (w1, m1) = run_events(w, events.drop_last());
        let (w2, m2) = step_spec(w1, events.last());
        (w2, m1 + m2)
    }
}

/// The state and the whole message stream of a compile of `r` whose actions
/// had the outcomes `events`.
pub open spec fn run_compile(r: RequestView, events: Seq<EventView>) -> (WorkerView, Seq<MessageView>) {
    let (w, m) = run_events(start_state(r), events);
    (w, seq![MessageView::Start] + m)
}

proof fn lemma_count_concat(a: Seq<MessageView>, b: Seq<MessageView>, k: MessageKind)
    ensures
        count_kind(a + b, k) == count_kind(a, k) + count_kind(b, k),
    decreases b.len(),
{
    if b.len() == 0 {
        assert(a + b =~= a);
    } else {
        lemma_count_concat(a, b.drop_last(), k);
        assert((a + b).drop_last() =~= a + b.drop_last());
    }
}

proof fn lemma_count_one(x: MessageView, k: MessageKind)
    ensures
        count_kind(seq![x], k) == if kind_of(x) == k {
            1nat
        } else {
            0nat
        },
{
    assert(seq![x].drop_last() =~= Seq::<MessageView>::empty());
    assert(count_kind(seq![x].drop_last(), k) == 0);
    assert(seq![x].last() == x);
}

/// The messages `ms` of one step from phase `from` to phase `to` keep the
/// stream's shape.
pub open spec fn step_shape(from: Phase, to: Phase, ms: Seq<MessageView>) -> bool {
    let ends = to == Phase::Finished && from != Phase::Finished;
    &&& count_kind(ms, MessageKind::Start) == 0
    &&& count_kind(ms, MessageKind::Diagnostics) <= 1
    &&& count_kind(ms, MessageKind::Diagnostics) == 1 ==> (to == Phase::Locating || to
        == Phase::Finished) && from != Phase::Locating && from != Phase::Finished
    &&& count_kind(ms, MessageKind::Terminal) == (if ends {
        1nat
    } else {
        0nat
    })
    &&& ends ==> ms.len() > 0 && kind_of(ms.last()) == MessageKind::Terminal
    &&& from == Phase::Finished ==> to == Phase::Finished && ms.len() == 0
    &&& from == Phase::Locating ==> to == Phase::Locating || to == Phase::Finished
}

proof fn lemma_finish_shape(w: WorkerView, o: EngineView)
    requires
        w.phase != Phase::Locating,
        w.phase != Phase::Finished,
    ensures
        step_shape(w.phase, finish(w, o).0.phase, finish(w, o).1),
{
    let d = output_diagnostics(w, o);
    let dm: Seq<MessageView> = if d.len() > 0 {
        seq![MessageView::Diagnostics(d)]
    } else {
        seq![]
    };
    let ms = finish(w, o).1;
    lemma_count_one(MessageView::Diagnostics(d), MessageKind::Start);
    lemma_count_one(MessageView::Diagnostics(d), MessageKind::Diagnostics);
    lemma_count_one(MessageView::Diagnostics(d), MessageKind::Terminal);
    match o {
        EngineView::Exited(true, _, _, _) => {
        },
        EngineView::Exited(false, code, out, err) => {
            let e = MessageView::Error(failure_text(code, out, err));
            lemma_count_one(e, MessageKind::Start);
            lemma_count_one(e, MessageKind::Diagnostics);
            lemma_count_one(e, MessageKind::Terminal);
            assert(dm.push(e) =~= dm + seq![e]);
            lemma_count_concat(dm, seq![e], MessageKind::Start);
            lemma_count_concat(dm, seq![e], MessageKind::Diagnostics);
            lemma_count_concat(dm, seq![e], MessageKind::Terminal);
        },
        EngineView::SpawnFailed(e) => {
            let m = MessageView::Error("Failed to run tectonic: "@ + e);
            lemma_count_one(m, MessageKind::Start);
            lemma_count_one(m, MessageKind::Diagnostics);
            lemma_count_one(m, MessageKind::Terminal);
        },
    }
}

proof fn lemma_log_then_shape(from: Phase, to: Phase, x: Seq<char>, ms: Seq<MessageView>)
    requires
        step_shape(from, to, ms),
        from != Phase::Finished,
    ensures
        step_shape(from, to, seq![MessageView::Log(x)] + ms),
{
    let l = MessageView::Log(x);
    lemma_count_one(l, MessageKind::Start);
    lemma_count_one(l, MessageKind::Diagnostics);
    lemma_count_one(l, MessageKind::Terminal);
    lemma_count_concat(seq![l], ms, MessageKind::Start);
    lemma_count_concat(seq![l], ms, MessageKind::Diagnostics);
    lemma_count_concat(seq![l], ms, MessageKind::Terminal);
    if ms.len() > 0 {
        assert((seq![l] + ms).last() == ms.last());
    }
}

proof fn lemma_step_shape(w: WorkerView, e: EventView)
    ensures
        step_shape(w.phase, step_spec(w, e).0.phase, step_spec(w, e).1),
{
    let empty = Seq::<MessageView>::empty();
    assert(count_kind(empty, MessageKind::Start) == 0);
    assert(count_kind(empty, MessageKind::Diagnostics) == 0);
    assert(count_kind(empty, MessageKind::Terminal) == 0);
    match (w.phase, e) {
        (Phase::Writing, EventView::SourceWritten(Err(msg))) => {
            let m = MessageView::Error("Write error: "@ + msg);
            lemma_count_one(m, MessageKind::Start);
            lemma_count_one(m, MessageKind::Diagnostics);
            lemma_count_one(m, MessageKind::Terminal);
        },
        (Phase::Writing, EventView::SourceWritten(Ok(()))) => {
            let m = MessageView::Log("Compiling document..."@);
            lemma_count_one(m, MessageKind::Start);
            lemma_count_one(m, MessageKind::Diagnostics);
            lemma_count_one(m, MessageKind::Terminal);
        },
        (Phase::FirstEngine, EventView::EngineFinished(o)) => {
            lemma_finish_shape(w, o);
        },
        (Phase::Citations, EventView::CitationInputs(bcf, bibs)) => {
            match (bcf, w.output) {
                (BcfView::Missing, Some(o)) => {
                    lemma_finish_shape(w, o);
                },
                (_, Some(o)) => {
                    let b = match bcf {
                        BcfView::Read(bytes) => fingerprint_of(bytes),
                        _ => seq![],
                    };
                    let k = bib_set_fingerprint(bibs);
                    let w2 = WorkerView { bcf: b, bib: k, ..w };
                    lemma_finish_shape(w2, o);
                    lemma_log_then_shape(
                        w.phase,
                        finish(w2, o).0.phase,
                        "Citations unchanged."@,
                        finish(w2, o).1,
                    );
                    let m = MessageView::Log(
                        "Citations changed. Processing bibliography with Biber..."@,
                    );
                    lemma_count_one(m, MessageKind::Start);
                    lemma_count_one(m, MessageKind::Diagnostics);
                    lemma_count_one(m, MessageKind::Terminal);
                },
                _ => {
                },
            }
        },
        (Phase::BibliographyTool, EventView::BibliographyToolFinished(t)) => {
            match (t, w.output) {
                (ToolView::Exited(ok, err), _) => {
                    let warn: Seq<MessageView> = if ok {
                        seq![]
                    } else {
                        seq![MessageView::Log("Biber warning/error: "@ + err)]
                    };
                    let l = MessageView::Log("Re-compiling document to link citations..."@);
                    let wl = MessageView::Log("Biber warning/error: "@ + err);
                    lemma_count_one(wl, MessageKind::Start);
                    lemma_count_one(wl, MessageKind::Diagnostics);
                    lemma_count_one(wl, MessageKind::Terminal);
                    lemma_count_one(l, MessageKind::Start);
                    lemma_count_one(l, MessageKind::Diagnostics);
                    lemma_count_one(l, MessageKind::Terminal);
                    assert(warn.push(l) =~= warn + seq![l]);
                    lemma_count_concat(warn, seq![l], MessageKind::Start);
                    lemma_count_concat(warn, seq![l], MessageKind::Diagnostics);
                    lemma_count_concat(warn, seq![l], MessageKind::Terminal);
                },
                (ToolView::SpawnFailed, Some(o)) => {
                    lemma_finish_shape(w, o);
                    lemma_log_then_shape(
                        w.phase,
                        finish(w, o).0.phase,
                        "Failed to execute Biber."@,
                        finish(w, o).1,
                    );
                },
                _ => {
                },
            }
        },
        (Phase::SecondEngine, EventView::EngineFinished(o)) => {
            lemma_finish_shape(w, o);
        },
        (Phase::Locating, EventView::ArtifactLocated(Some(p))) => {
            let m = MessageView::Success(p, w.bcf, w.bib);
            lemma_count_one(m, MessageKind::Start);
            lemma_count_one(m, MessageKind::Diagnostics);
            lemma_count_one(m, MessageKind::Terminal);
        },
        (Phase::Locating, EventView::ArtifactLocated(None)) => {
            let m = MessageView::Error("PDF file not found after compilation"@);
            lemma_count_one(m, MessageKind::Start);
            lemma_count_one(m, MessageKind::Diagnostics);
            lemma_count_one(m, MessageKind::Terminal);
        },
        _ => {
        },
    }
}

/// The shape of the messages that the steps emitted, in phase `p`.
pub open spec fn stream_shape(p: Phase, m: Seq<MessageView>) -> bool {
    &&& count_kind(m, MessageKind::Start) == 0
    &&& count_kind(m, MessageKind::Diagnostics) <= 1
    &&& count_kind(m, MessageKind::Diagnostics) == 1 ==> p == Phase::Locating || p == Phase::Finished
    &&& count_kind(m, MessageKind::Terminal) == (if p == Phase::Finished {
        1nat
    } else {
        0nat
    })
    &&& p == Phase::Finished ==> m.len() > 0 && kind_of(m.last()) == MessageKind::Terminal
}

proof fn lemma_run_events_shape(r: RequestView, events: Seq<EventView>)
    ensures
        stream_shape(run_events(start_state(r), events).0.phase, run_events(start_state(r), events).1),
    decreases events.len(),
{
    if events.len() == 0 {
        assert(count_kind(Seq::<MessageView>::empty(), MessageKind::Start) == 0);
        assert(count_kind(Seq::<MessageView>::empty(), MessageKind::Diagnostics) == 0);
        assert(count_kind(Seq::<MessageView>::empty(), MessageKind::Terminal) == 0);
    } else {
        lemma_run_events_shape(r, events.drop_last());
        let (w1, m1) = run_events(start_state(r), events.drop_last());
        let (w2, m2) = step_spec(w1, events.last());
        lemma_step_shape(w1, events.last());
        lemma_count_concat(m1, m2, MessageKind::Start);
        lemma_count_concat(m1, m2, MessageKind::Diagnostics);
        lemma_count_concat(m1, m2, MessageKind::Terminal);
        if m2.len() == 0 {
            assert(m1 + m2 =~= m1);
        } else {
            assert((m1 + m2).last() == m2.last());
        }
    }
}

/// Whatever the outcomes of its actions, a compile's message stream begins
/// with its only `Start`, holds at most one `Diagnostics`, and holds a
/// `Success` or an `Error` exactly when the worker has finished: then just
/// one, and as the last message.
pub proof fn lemma_message_stream_shape(r: RequestView, events: Seq<EventView>)
    ensures
        ({
            let (w, m) = run_compile(r, events);
            &&& m.len() > 0 && m[0] is Start
            &&& count_kind(m, MessageKind::Start) == 1
            &&& count_kind(m, MessageKind::Diagnostics) <= 1
            &&& count_kind(m, MessageKind::Terminal) == (if w.phase == Phase::Finished {
                1nat
            } else {
                0nat
            })
            &&& w.phase == Phase::Finished ==> kind_of(m.last()) == MessageKind::Terminal
        }),
{
    let (w, m) = run_events(start_state(r), events);
    lemma_run_events_shape(r, events);
    let s = MessageView::Start;
    lemma_count_one(s, MessageKind::Start);
    lemma_count_one(s, MessageKind::Diagnostics);
    lemma_count_one(s, MessageKind::Terminal);
    lemma_count_concat(seq![s], m, MessageKind::Start);
    lemma_count_concat(seq![s], m, MessageKind::Diagnostics);
    lemma_count_concat(seq![s], m, MessageKind::Terminal);
    if m.len() > 0 {
        assert((seq![s] + m).last() == m.last());
    }
}

/// Event `e` is the outcome of action `a`; nothing answers `Finished`.
pub open spec fn answers(a: ActionView, e: EventView) -> bool {
    match (a, e) {
        (ActionView::WriteSource(_, _), EventView::SourceWritten(_)) => true,
        (ActionView::RunEngine(_), EventView::EngineFinished(_)) => true,
        (ActionView::ReadCitationInputs(_), EventView::CitationInputs(_, _)) => true,
        (ActionView::RunBibliographyTool(_), EventView::BibliographyToolFinished(_)) => true,
        (ActionView::LocateArtifact(_), EventView::ArtifactLocated(_)) => true,
        _ => false,
    }
}

/// Each event of the run of a compile of `r` answers the action that the
/// worker asked for just before it.
pub open spec fn answered_run(r: RequestView, events: Seq<EventView>) -> bool {
    forall|i: int|
        0 <= i < events.len() ==> answers(
            pending_action(run_events(start_state(r), events.take(i)).0),
            #[trigger] events[i],
        )
}

/// How many actions at most a worker in phase `p` still asks for.
pub open spec fn phase_rank(p: Phase) -> nat {
    match p {
        Phase::Writing => 6,
        Phase::FirstEngine => 5,
        Phase::Citations => 4,
        Phase::BibliographyTool => 3,
        Phase::SecondEngine => 2,
        Phase::Locating => 1,
        Phase::Finished => 0,
    }
}

/// A worker waiting on the bibliography inputs or tool holds the engine run
/// that decides the outcome.
pub open spec fn holds_output(w: WorkerView) -> bool {
    (w.phase == Phase::Citations || w.phase == Phase::BibliographyTool) ==> w.output is Some
}

proof fn lemma_step_holds_output(w: WorkerView, e: EventView)
    requires
        holds_output(w),
    ensures
        holds_output(step_spec(w, e).0),
{
}

proof fn lemma_run_holds_output(r: RequestView, events: Seq<EventView>)
    ensures
        holds_output(run_events(start_state(r), events).0),
    decreases events.len(),
{
    if events.len() > 0 {
        lemma_run_holds_output(r, events.drop_last());
        lemma_step_holds_output(run_events(start_state(r), events.drop_last()).0, events.last());
    }
}

proof fn lemma_answer_progresses(w: WorkerView, e: EventView)
    requires
        holds_output(w),
        answers(pending_action(w), e),
    ensures
        phase_rank(step_spec(w, e).0.phase) < phase_rank(w.phase),
{
}

proof fn lemma_answered_rank(r: RequestView, events: Seq<EventView>)
    requires
        answered_run(r, events),
    ensures
        phase_rank(run_events(start_state(r), events).0.phase) + events.len() <= 6,
    decreases events.len(),
{
    if events.len() > 0 {
        let prefix = events.drop_last();
        let n = events.len() - 1;
        assert forall|i: int| 0 <= i < prefix.len() implies answers(
            pending_action(run_events(start_state(r), prefix.take(i)).0),
            #[trigger] prefix[i],
        ) by {
            assert(prefix.take(i) =~= events.take(i));
            assert(prefix[i] == events[i]);
        }
        lemma_answered_rank(r, prefix);
        assert(events.take(n) =~= prefix);
        assert(answers(pending_action(run_events(start_state(r), events.take(n)).0), events[n]));
        lemma_run_holds_output(r, prefix);
        lemma_answer_progresses(run_events(start_state(r), prefix).0, events.last());
    }
}

/// A compile whose every requested action is answered finishes: it asks
/// for at most six actions (after six answers it has finished), and once it
/// asks for none its stream holds exactly one `Success` or `Error`, as the
/// last message.
pub proof fn lemma_answered_compile_finishes(r: RequestView, events: Seq<EventView>)
    requires
        answered_run(r, events),
    ensures
        events.len() <= 6,
        events.len() == 6 ==> run_compile(r, events).0.phase == Phase::Finished,
        ({
            let (w, m) = run_compile(r, events);
            pending_action(w) is Finished <==> w.phase == Phase::Finished
        }),
        ({
            let (w, m) = run_compile(r, events);
            w.phase == Phase::Finished ==> count_kind(m, MessageKind::Terminal) == 1 && kind_of(
                m.last(),
            ) == MessageKind::Terminal
        }),
{
    lemma_answered_rank(r, events);
    lemma_message_stream_shape(r, events);
}

} // verus!
