use cognitive_memory::server::{
    fallback, health, top_k_bounds, ContextParams, MemoryMcpServer, MemoryServerOptions,
    SearchParams, ToolError,
};
use cognitive_memory::service::{Action, MemoryService, Step};

fn options(token: Option<&str>) -> MemoryServerOptions {
    MemoryServerOptions { port: 0, token: token.map(String::from), allowed_hosts: Vec::new() }
}

fn header(value: &str) -> Option<String> {
    Some(value.to_string())
}

#[test]
fn health_endpoint() {
    let reply = health();
    assert_eq!(reply.status, 200);
    let body: serde_json::Value = serde_json::from_str(&reply.body).unwrap();
    assert_eq!(body["ok"], true);
    assert_eq!(reply.body, "{\"ok\":true}");
}

#[test]
fn bearer_token_unauthenticated_rejected_before_any_tool_runs() {
    let secured = options(Some("s3cret"));
    // without or with a wrong token: 401
    for provided in [None, header("Bearer wrong")] {
        let reply = secured.gate(&provided).unwrap();
        assert_eq!(reply.status, 401);
        let body: serde_json::Value = serde_json::from_str(&reply.body).unwrap();
        assert_eq!(body["error"], "unauthorized: valid bearer token required");
    }
    // the token works
    assert_eq!(secured.gate(&header("Bearer s3cret")), None);
}

#[test]
fn only_the_exact_header_is_let_in() {
    let secured = options(Some("s3cret"));
    for provided in ["", "s3cret", "bearer s3cret", "Bearer  s3cret", "Bearer s3cret ", "Basic s3cret"] {
        assert!(secured.gate(&header(provided)).is_some());
    }
}

#[test]
fn without_a_token_everyone_is_let_in() {
    assert_eq!(options(None).gate(&None), None);
    assert_eq!(options(None).gate(&header("Bearer x")), None);
}

#[test]
fn other_requests_are_told_to_post() {
    let reply = fallback();
    assert_eq!(reply.status, 405);
    let body: serde_json::Value = serde_json::from_str(&reply.body).unwrap();
    assert_eq!(body["error"], "method not allowed in stateless mode; use POST");
}

#[test]
fn limits_are_checked() {
    assert_eq!(top_k_bounds(None, 20), Ok(None));
    assert_eq!(top_k_bounds(Some(1), 20), Ok(Some(1)));
    assert_eq!(top_k_bounds(Some(20), 20), Ok(Some(20)));
    assert_eq!(
        top_k_bounds(Some(0), 20),
        Err(ToolError::InvalidParams {
            message: "top_k must be between 1 and 20, got 0".to_string()
        })
    );
    assert_eq!(
        top_k_bounds(Some(18446744073709551615), 10),
        Err(ToolError::InvalidParams {
            message: "top_k must be between 1 and 10, got 18446744073709551615".to_string()
        })
    );
}

#[test]
fn searches_are_limited_to_twenty_and_contexts_to_ten() {
    let tools = MemoryMcpServer::new(MemoryService::new("m"));
    let search = |top_k: Option<u64>| {
        tools.memory_search(&SearchParams { query: "q".to_string(), top_k })
    };
    let context = |top_k: Option<u64>| {
        tools.memory_context(&ContextParams { message: "q".to_string(), top_k })
    };
    assert!(search(Some(20)).is_ok());
    assert!(context(Some(10)).is_ok());
    match search(Some(21)) {
        Err(ToolError::InvalidParams { message }) => {
            assert_eq!(message, "top_k must be between 1 and 20, got 21")
        }
        _ => panic!("accepted"),
    }
    match context(Some(11)) {
        Err(ToolError::InvalidParams { message }) => {
            assert_eq!(message, "top_k must be between 1 and 10, got 11")
        }
        _ => panic!("accepted"),
    }
    // an accepted call starts with the embedding of its text
    match search(None) {
        Ok(flow) => match flow.next() {
            Step::Do(Action::Embed { text }) => assert_eq!(text, "q"),
            _ => panic!("another action"),
        },
        Err(_) => panic!("refused"),
    }
}
