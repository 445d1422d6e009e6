use cognitive_memory::config::Environment;
use cognitive_memory::startup::{wants_reindex, Event, Run, Task};

fn env(port: Option<&str>, token: Option<&str>) -> Environment {
    Environment {
        neo4j_uri: None,
        neo4j_auth: None,
        neo4j_user: None,
        neo4j_password: None,
        qdrant_url: None,
        qdrant_api_key: None,
        embedding_dimensions: None,
        embeddings_baseurl: None,
        embeddings_model: None,
        embeddings_apikey: None,
        fastembed_cache_path: None,
        port: port.map(String::from),
        memory_token: token.map(String::from),
        allowed_hosts: None,
    }
}

fn arguments(list: &[&str]) -> Vec<String> {
    list.iter().map(|s| s.to_string()).collect()
}

fn step(run: Run, event: Event) -> Run {
    assert!(run.expects(&event));
    run.advance(event)
}

fn printed(run: &Run) -> String {
    match run.task() {
        Task::Print { line } => line,
        other => panic!("{other:?}"),
    }
}

#[test]
fn the_argument_asks_for_a_reindex() {
    assert!(wants_reindex(&arguments(&["server", "--reindex"])));
    assert!(!wants_reindex(&arguments(&["server", "--Reindex", "-r"])));
    assert!(!wants_reindex(&Vec::new()));
}

#[test]
fn reindexing_reports_and_exits() {
    let run = Run::new(&arguments(&["server", "--reindex"]), env(None, None));
    assert_eq!(printed(&run), "reindexing qdrant from neo4j...");
    let run = step(run, Event::Done);
    assert!(matches!(run.task(), Task::BuildService));
    let run = step(run, Event::Done);
    assert!(matches!(run.task(), Task::Reindex));
    let run = step(run, Event::Reindexed(12));
    assert!(matches!(run.task(), Task::CloseService));
    let run = step(run, Event::Done);
    assert_eq!(printed(&run), "reindexed 12 memories");
    let run = step(run, Event::Done);
    assert!(matches!(run.task(), Task::Finish));
    assert!(!run.expects(&Event::Done));
}

#[test]
fn serving_warns_of_drift() {
    let run = Run::new(&arguments(&["server"]), env(Some("9000"), Some("t")));
    assert!(matches!(run.task(), Task::BuildService));
    let run = step(run, Event::Done);
    assert!(matches!(run.task(), Task::DetectDrift));
    let run = step(run, Event::Drift(vec!["m1".to_string(), "m2".to_string()]));
    match run.task() {
        Task::Warn { line } => assert_eq!(
            line,
            "WARNING: qdrant index contains vectors from other embedding models (m1, m2); \
             current model is different. Run with --reindex to rebuild the index."
        ),
        other => panic!("{other:?}"),
    }
    let run = step(run, Event::Done);
    match run.task() {
        Task::StartServer { options } => {
            assert_eq!(options.port, 9000);
            assert_eq!(options.token.as_deref(), Some("t"));
        }
        other => panic!("{other:?}"),
    }
    let run = step(run, Event::Listening(9000));
    assert_eq!(printed(&run), "memory MCP server listening on :9000 (bearer auth ON)");
    let run = step(run, Event::Done);
    assert!(matches!(run.task(), Task::AwaitSignal));
    let run = step(run, Event::Done);
    assert!(matches!(run.task(), Task::StopServer));
    let run = step(run, Event::Done);
    assert!(matches!(run.task(), Task::CloseService));
    let run = step(run, Event::Done);
    assert!(matches!(run.task(), Task::Finish));
}

#[test]
fn serving_without_drift_does_not_warn() {
    for event in [Event::Drift(Vec::new()), Event::Failed("no collection".to_string())] {
        let run = Run::new(&Vec::new(), env(None, None));
        let run = step(run, Event::Done);
        let run = step(run, event);
        assert!(matches!(run.task(), Task::StartServer { .. }));
        let run = step(run, Event::Listening(41234));
        assert_eq!(printed(&run), "memory MCP server listening on :41234 (no auth)");
    }
}

#[test]
fn failures_end_the_run() {
    let run = Run::new(&Vec::new(), env(None, None));
    let run = step(run, Event::Failed("no database".to_string()));
    assert!(matches!(run.task(), Task::Fail { error } if error == "no database"));
    assert!(!run.expects(&Event::Done));
}

#[test]
fn a_bad_port_fails_the_start() {
    let run = Run::new(&Vec::new(), env(Some("x"), None));
    let run = step(run, Event::Done);
    let run = step(run, Event::Drift(Vec::new()));
    match run.task() {
        Task::Fail { error } => assert_eq!(error, "invalid digit found in string"),
        other => panic!("{other:?}"),
    }
}

#[test]
fn events_belong_to_their_tasks() {
    let run = Run::new(&Vec::new(), env(None, None));
    assert!(!run.expects(&Event::Reindexed(1)));
    assert!(!run.expects(&Event::Drift(Vec::new())));
    assert!(!run.expects(&Event::Listening(1)));
    assert!(run.expects(&Event::Failed(String::new())));
}
