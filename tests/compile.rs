use typesafe::compile::{
    without_bom, BcfFile, CompilationMessage, CompilationRequest, CompileConsumer, CompileWorker,
    EngineOutcome, Phase, ToolOutcome, WorkerAction, WorkerEvent,
};
use typesafe::fingerprint::{fingerprint_bcf, fingerprint_bib_set, BibFile};

fn request(source: &str, previous_bcf: &str, previous_bib: &str) -> CompilationRequest {
    CompilationRequest {
        source: source.to_string(),
        file_path: "/tmp/doc.tex".to_string(),
        root_override: None,
        previous_bcf: previous_bcf.to_string(),
        previous_bib: previous_bib.to_string(),
    }
}

fn bibs() -> Vec<BibFile> {
    vec![BibFile { name: b"refs.bib".to_vec(), contents: b"@book{k, title={T}}".to_vec() }]
}

/// Runs a worker to the end, answering each action with `respond`; returns
/// the messages and the actions asked for.
fn run(
    req: CompilationRequest,
    mut respond: impl FnMut(&WorkerAction) -> WorkerEvent,
) -> (Vec<CompilationMessage>, Vec<WorkerAction>) {
    let (mut worker, first) = CompileWorker::start(req);
    let mut messages = first.messages;
    let mut actions = Vec::new();
    let mut action = first.action;
    let mut guard = 0;
    while !matches!(action, WorkerAction::Finished) {
        guard += 1;
        assert!(guard < 20, "the worker does not finish");
        let event = respond(&action);
        actions.push(action);
        let step = worker.step(event);
        messages.extend(step.messages);
        action = step.action;
    }
    assert_eq!(worker.phase, Phase::Finished);
    (messages, actions)
}

fn shape(messages: &[CompilationMessage]) -> (usize, usize, usize) {
    let starts = messages.iter().filter(|m| matches!(m, CompilationMessage::Start)).count();
    let diags = messages.iter().filter(|m| matches!(m, CompilationMessage::Diagnostics(_))).count();
    let terminals = messages
        .iter()
        .filter(|m| matches!(m, CompilationMessage::Success(..) | CompilationMessage::Error(_)))
        .count();
    (starts, diags, terminals)
}

fn exited(ok: bool, code: i32, out: &str, err: &str) -> WorkerEvent {
    WorkerEvent::EngineFinished(EngineOutcome::Exited(ok, Some(code), out.to_string(), err.to_string()))
}

#[test]
fn successful_compile_stream() {
    let (messages, actions) = run(request("\\documentclass{article}", "", ""), |a| match a {
        WorkerAction::WriteSource(..) => WorkerEvent::SourceWritten(Ok(())),
        WorkerAction::RunEngine(_) => exited(true, 0, "", ""),
        WorkerAction::LocateArtifact(_) => WorkerEvent::ArtifactLocated(Some("/tmp/doc.pdf".to_string())),
        other => panic!("unexpected action {:?}", other),
    });
    assert_eq!(shape(&messages), (1, 0, 1));
    assert!(matches!(messages[0], CompilationMessage::Start));
    match &messages[1] {
        CompilationMessage::Log(l) => assert_eq!(l, "Compiling document..."),
        other => panic!("unexpected {:?}", other),
    }
    match messages.last().unwrap() {
        CompilationMessage::Success(p, b, k) => {
            assert_eq!(p, "/tmp/doc.pdf");
            assert!(b.is_empty() && k.is_empty());
        },
        other => panic!("unexpected {:?}", other),
    }
    assert_eq!(actions.len(), 3);
}

#[test]
fn failed_engine_reports_diagnostics_then_error() {
    let (messages, _) = run(request("x", "", ""), |a| match a {
        WorkerAction::WriteSource(..) => WorkerEvent::SourceWritten(Ok(())),
        WorkerAction::RunEngine(_) => exited(false, 1, "error: doc.tex:42: Undefined control sequence\n", "fatal"),
        other => panic!("unexpected action {:?}", other),
    });
    assert_eq!(shape(&messages), (1, 1, 1));
    match &messages[2] {
        CompilationMessage::Diagnostics(d) => {
            assert_eq!(d.len(), 1);
            assert_eq!(d[0].line, 42);
            assert_eq!(d[0].file, "/tmp/doc.tex");
        },
        other => panic!("unexpected {:?}", other),
    }
    match messages.last().unwrap() {
        CompilationMessage::Error(e) => assert_eq!(
            e,
            "Compilation failed with code: 1\n\nSTDOUT:\nerror: doc.tex:42: Undefined control sequence\n\n\nSTDERR:\nfatal"
        ),
        other => panic!("unexpected {:?}", other),
    }
}

#[test]
fn failure_without_code_reports_minus_one() {
    let (messages, _) = run(request("x", "", ""), |a| match a {
        WorkerAction::WriteSource(..) => WorkerEvent::SourceWritten(Ok(())),
        WorkerAction::RunEngine(_) => {
            WorkerEvent::EngineFinished(EngineOutcome::Exited(false, None, String::new(), String::new()))
        },
        other => panic!("unexpected action {:?}", other),
    });
    match messages.last().unwrap() {
        CompilationMessage::Error(e) => assert!(e.starts_with("Compilation failed with code: -1\n")),
        other => panic!("unexpected {:?}", other),
    }
}

#[test]
fn spawn_and_write_failures_are_terminal() {
    let (messages, _) = run(request("x", "", ""), |a| match a {
        WorkerAction::WriteSource(..) => WorkerEvent::SourceWritten(Ok(())),
        WorkerAction::RunEngine(_) => WorkerEvent::EngineFinished(EngineOutcome::SpawnFailed("no such file".to_string())),
        other => panic!("unexpected action {:?}", other),
    });
    assert_eq!(shape(&messages), (1, 0, 1));
    assert!(matches!(messages.last().unwrap(), CompilationMessage::Error(e) if e == "Failed to run tectonic: no such file"));
    let (messages, actions) = run(request("x", "", ""), |_| WorkerEvent::SourceWritten(Err("denied".to_string())));
    assert_eq!(actions.len(), 1);
    assert_eq!(shape(&messages), (1, 0, 1));
    assert!(matches!(messages.last().unwrap(), CompilationMessage::Error(e) if e == "Write error: denied"));
}

#[test]
fn missing_artifact_is_an_error() {
    let (messages, _) = run(request("x", "", ""), |a| match a {
        WorkerAction::WriteSource(..) => WorkerEvent::SourceWritten(Ok(())),
        WorkerAction::RunEngine(_) => exited(true, 0, "", ""),
        WorkerAction::LocateArtifact(_) => WorkerEvent::ArtifactLocated(None),
        other => panic!("unexpected action {:?}", other),
    });
    assert!(matches!(messages.last().unwrap(), CompilationMessage::Error(e) if e == "PDF file not found after compilation"));
}

fn citation_env(a: &WorkerAction) -> WorkerEvent {
    match a {
        WorkerAction::WriteSource(..) => WorkerEvent::SourceWritten(Ok(())),
        WorkerAction::RunEngine(_) => exited(true, 0, "", ""),
        WorkerAction::ReadCitationInputs(_) => WorkerEvent::CitationInputs(BcfFile::Read(b"<bcf/>".to_vec()), bibs()),
        WorkerAction::RunBibliographyTool(_) => WorkerEvent::BibliographyToolFinished(ToolOutcome::Exited(true, String::new())),
        WorkerAction::LocateArtifact(_) => WorkerEvent::ArtifactLocated(Some("/tmp/doc.pdf".to_string())),
        WorkerAction::Finished => panic!("no action left"),
    }
}

#[test]
fn unchanged_citations_skip_the_tool_on_the_second_compile() {
    let source = "\\usepackage{biblatex}\n\\begin{document}\\cite{k}\\end{document}";
    let mut consumer = CompileConsumer::new();
    let req = consumer.request(source.to_string(), "/tmp/doc.tex".to_string(), None).unwrap();
    let (messages, actions) = run(req, citation_env);
    assert_eq!(actions.iter().filter(|a| matches!(a, WorkerAction::RunBibliographyTool(_))).count(), 1);
    assert_eq!(actions.iter().filter(|a| matches!(a, WorkerAction::RunEngine(_))).count(), 2);
    for m in messages {
        consumer.receive(m);
    }
    assert!(!consumer.compiling);
    assert_eq!(consumer.last_bcf, fingerprint_bcf(&b"<bcf/>".to_vec()));
    assert_eq!(consumer.last_bib, fingerprint_bib_set(bibs()));
    let req = consumer.request(source.to_string(), "/tmp/doc.tex".to_string(), None).unwrap();
    let (messages, actions) = run(req, citation_env);
    assert_eq!(actions.iter().filter(|a| matches!(a, WorkerAction::RunBibliographyTool(_))).count(), 0);
    assert!(messages.iter().any(|m| matches!(m, CompilationMessage::Log(l) if l == "Citations unchanged.")));
    assert_eq!(shape(&messages), (1, 0, 1));
}

#[test]
fn changed_bibliography_runs_the_tool_again() {
    let source = "\\usepackage{biblatex}";
    let first = fingerprint_bcf(&b"<bcf/>".to_vec());
    let (_, actions) = run(request(source, &first, "stale"), citation_env);
    assert_eq!(actions.iter().filter(|a| matches!(a, WorkerAction::RunBibliographyTool(_))).count(), 1);
}

#[test]
fn missing_control_file_skips_fingerprints() {
    let (messages, actions) = run(request("\\usepackage{biblatex}", "", ""), |a| match a {
        WorkerAction::ReadCitationInputs(_) => WorkerEvent::CitationInputs(BcfFile::Missing, Vec::new()),
        other => citation_env(other),
    });
    assert!(!actions.iter().any(|a| matches!(a, WorkerAction::RunBibliographyTool(_))));
    assert!(matches!(messages.last().unwrap(), CompilationMessage::Success(_, b, k) if b.is_empty() && k.is_empty()));
}

#[test]
fn tool_warning_and_spawn_failure_are_logged() {
    let (messages, _) = run(request("\\usepackage{biblatex}", "", ""), |a| match a {
        WorkerAction::RunBibliographyTool(_) => {
            WorkerEvent::BibliographyToolFinished(ToolOutcome::Exited(false, "bad entry".to_string()))
        },
        other => citation_env(other),
    });
    assert!(messages.iter().any(|m| matches!(m, CompilationMessage::Log(l) if l == "Biber warning/error: bad entry")));
    assert!(matches!(messages.last().unwrap(), CompilationMessage::Success(..)));
    let (messages, actions) = run(request("\\usepackage{biblatex}", "", ""), |a| match a {
        WorkerAction::RunBibliographyTool(_) => WorkerEvent::BibliographyToolFinished(ToolOutcome::SpawnFailed),
        other => citation_env(other),
    });
    assert_eq!(actions.iter().filter(|a| matches!(a, WorkerAction::RunEngine(_))).count(), 1);
    assert!(messages.iter().any(|m| matches!(m, CompilationMessage::Log(l) if l == "Failed to execute Biber.")));
    assert_eq!(shape(&messages), (1, 0, 1));
}

#[test]
fn unreadable_control_file_runs_the_tool() {
    let (_, actions) = run(request("\\usepackage{biblatex}", "", ""), |a| match a {
        WorkerAction::ReadCitationInputs(_) => WorkerEvent::CitationInputs(BcfFile::Unreadable, bibs()),
        other => citation_env(other),
    });
    assert!(actions.iter().any(|a| matches!(a, WorkerAction::RunBibliographyTool(_))));
}

#[test]
fn bom_stripping_is_idempotent() {
    let once = without_bom("\u{feff}\u{feff}\\documentclass{article}");
    assert_eq!(once, "\\documentclass{article}");
    assert_eq!(without_bom(&once), once);
    let (_, first) = CompileWorker::start(request("\u{feff}\\documentclass{article}", "", ""));
    let (_, second) = CompileWorker::start(request(&once, "", ""));
    match (first.action, second.action) {
        (WorkerAction::WriteSource(path_a, text_a), WorkerAction::WriteSource(path_b, text_b)) => {
            assert_eq!(path_a, path_b);
            assert_eq!(text_a, text_b);
            assert_eq!(text_a, "\\documentclass{article}");
        },
        other => panic!("unexpected {:?}", other),
    }
}

#[test]
fn paths_follow_root_and_untitled_rules() {
    let mut req = request("x", "", "");
    req.file_path = String::new();
    let (mut w, s) = CompileWorker::start(req);
    assert!(matches!(s.action, WorkerAction::WriteSource(ref p, _) if p == "temp.tex"));
    let s = w.step(WorkerEvent::SourceWritten(Ok(())));
    assert!(matches!(s.action, WorkerAction::RunEngine(ref t) if t == "temp.tex"));
    let mut req = request("x", "", "");
    req.root_override = Some("/tmp/main.tex".to_string());
    let (mut w, s) = CompileWorker::start(req);
    assert!(matches!(s.action, WorkerAction::WriteSource(ref p, _) if p == "/tmp/doc.tex"));
    let s = w.step(WorkerEvent::SourceWritten(Ok(())));
    assert!(matches!(s.action, WorkerAction::RunEngine(ref t) if t == "/tmp/main.tex"));
}

#[test]
fn events_out_of_turn_change_nothing() {
    let (mut w, _) = CompileWorker::start(request("x", "", ""));
    let s = w.step(WorkerEvent::ArtifactLocated(Some("a.pdf".to_string())));
    assert!(s.messages.is_empty());
    assert!(matches!(s.action, WorkerAction::WriteSource(..)));
    assert_eq!(w.phase, Phase::Writing);
}

#[test]
fn consumer_refuses_overlapping_compiles_and_keeps_log() {
    let mut c = CompileConsumer::new();
    assert!(c.request("a".to_string(), String::new(), None).is_some());
    assert!(c.request("a".to_string(), String::new(), None).is_none());
    c.receive(CompilationMessage::Start);
    c.receive(CompilationMessage::Log("Compiling document...".to_string()));
    c.receive(CompilationMessage::Error("boom".to_string()));
    assert!(!c.compiling);
    assert!(c.show_log);
    assert_eq!(c.log, "Starting compilation...\nCompiling document...\n\nERROR: boom");
    assert!(c.request("a".to_string(), String::new(), None).is_some());
}
