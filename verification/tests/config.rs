use cognitive_memory::config::{
    allowed_hosts, embedding_backend, embedding_dimensions, embeddings_config, env_nonempty, env_or,
    neo4j_credentials, server_options, service_settings, trim, Environment,
};
use cognitive_memory::embeddings::{EmbeddingBackend, EmbeddingsProviderKind};
use cognitive_memory::text::NumberFault;

fn bare() -> Environment {
    Environment {
        neo4j_uri: None,
        neo4j_auth: None,
        neo4j_user: None,
        neo4j_password: None,
        qdrant_url: None,
        qdrant_api_key: None,
        embedding_dimensions: None,
        embeddings_baseurl: None,
        embeddings_model: None,
        embeddings_apikey: None,
        fastembed_cache_path: None,
        port: None,
        memory_token: None,
        allowed_hosts: None,
    }
}

fn set(s: &str) -> Option<String> {
    Some(s.to_string())
}

fn triple(env: &Environment) -> (String, String, String) {
    neo4j_credentials(env)
}

fn three(a: &str, b: &str, c: &str) -> (String, String, String) {
    (a.to_string(), b.to_string(), c.to_string())
}

#[test]
fn values_have_defaults() {
    assert_eq!(env_or(&None, "x"), "x");
    assert_eq!(env_or(&set(""), "x"), "");
    assert_eq!(env_or(&set("y"), "x"), "y");
    assert_eq!(env_nonempty(&None), None);
    assert_eq!(env_nonempty(&set("")), None);
    assert_eq!(env_nonempty(&set("y")), set("y"));
}

#[test]
fn credentials_have_defaults() {
    assert_eq!(triple(&bare()), three("bolt://127.0.0.1:7687", "neo4j", "password"));
}

#[test]
fn credentials_come_from_their_variables() {
    let env = Environment {
        neo4j_uri: set("bolt://db:7687"),
        neo4j_user: set("u"),
        neo4j_password: set("p"),
        ..bare()
    };
    assert_eq!(triple(&env), three("bolt://db:7687", "u", "p"));
}

#[test]
fn own_variables_come_before_auth() {
    let env = Environment {
        neo4j_auth: set("neo4j/fromauth"),
        neo4j_password: set("explicit"),
        ..bare()
    };
    assert_eq!(triple(&env), three("bolt://127.0.0.1:7687", "neo4j", "explicit"));
    let env = Environment { neo4j_auth: set("a/b"), neo4j_user: set("u"), ..bare() };
    assert_eq!(triple(&env), three("bolt://127.0.0.1:7687", "u", "b"));
}

#[test]
fn auth_supplies_user_and_password_that_are_not_set() {
    let env = Environment { neo4j_auth: set("neo4j/se/cret"), ..bare() };
    assert_eq!(triple(&env), three("bolt://127.0.0.1:7687", "neo4j", "se/cret"));
    let env = Environment { neo4j_auth: set("/x"), ..bare() };
    assert_eq!(triple(&env), three("bolt://127.0.0.1:7687", "", "x"));
}

#[test]
fn auth_without_a_slash_is_ignored() {
    for auth in ["none", ""] {
        let env = Environment { neo4j_auth: set(auth), neo4j_user: set("u"), ..bare() };
        assert_eq!(triple(&env), three("bolt://127.0.0.1:7687", "u", "password"));
    }
}

#[test]
fn dimensions_are_numbers_or_nothing() {
    assert_eq!(embedding_dimensions(&None), None);
    assert_eq!(embedding_dimensions(&set("384")), Some(384));
    assert_eq!(embedding_dimensions(&set("+384")), Some(384));
    assert_eq!(embedding_dimensions(&set("4294967295")), Some(4294967295));
    for bad in ["", "+", "-1", "4294967296", "3 84", "x"] {
        assert_eq!(embedding_dimensions(&set(bad)), None);
    }
}

#[test]
fn the_endpoint_needs_address_and_model() {
    let local = embeddings_config(&bare());
    assert_eq!(local.provider, EmbeddingsProviderKind::Local);
    for (baseurl, model) in [(set("http://x"), None), (None, set("m")), (set("http://x"), set(""))] {
        let env =
            Environment { embeddings_baseurl: baseurl, embeddings_model: model, ..bare() };
        assert_eq!(embeddings_config(&env).provider, EmbeddingsProviderKind::Local);
    }
    let env = Environment {
        embeddings_baseurl: set("http://x"),
        embeddings_model: set("m"),
        embeddings_apikey: set("k"),
        ..bare()
    };
    let config = embeddings_config(&env);
    assert_eq!(config.provider, EmbeddingsProviderKind::OpenAICompatible);
    assert_eq!(config.baseurl, set("http://x"));
    assert_eq!(config.model, set("m"));
    assert_eq!(config.apikey, set("k"));
}

#[test]
fn the_service_is_made_from_the_environment() {
    let s = service_settings(&bare());
    assert_eq!(s.neo4j_uri, "bolt://127.0.0.1:7687");
    assert_eq!(s.neo4j_user, "neo4j");
    assert_eq!(s.neo4j_password, "password");
    assert_eq!(s.qdrant_url, "http://127.0.0.1:6333");
    assert_eq!(s.qdrant_api_key, None);
    assert_eq!(s.dimensions, None);
    assert_eq!(s.embeddings.model(), "bge-small-en-v1.5");
    let s = service_settings(&Environment {
        qdrant_url: set("http://q"),
        qdrant_api_key: set("k"),
        embedding_dimensions: set("8"),
        fastembed_cache_path: set("/c"),
        neo4j_auth: set("a/b"),
        ..bare()
    });
    assert_eq!(s.neo4j_user, "a");
    assert_eq!(s.neo4j_password, "b");
    assert_eq!(s.qdrant_url, "http://q");
    assert_eq!(s.qdrant_api_key, set("k"));
    assert_eq!(s.dimensions, Some(8));
    match s.embeddings {
        EmbeddingBackend::Local(l) => assert_eq!(l.cache_dir(), set("/c")),
        EmbeddingBackend::OpenAICompatible(_) => panic!("endpoint selected"),
    }
}

#[test]
fn no_text_leaves_the_machine_unless_an_endpoint_is_set() {
    assert!(matches!(embedding_backend(&bare()), EmbeddingBackend::Local(_)));
    let half = Environment { embeddings_apikey: set("k"), embeddings_baseurl: set("http://x"), ..bare() };
    assert!(matches!(embedding_backend(&half), EmbeddingBackend::Local(_)));
    let full = Environment {
        embeddings_apikey: set("k"),
        embeddings_baseurl: set("http://x"),
        embeddings_model: set("m"),
        ..bare()
    };
    match embedding_backend(&full) {
        EmbeddingBackend::OpenAICompatible(e) => {
            assert_eq!(e.model(), "m");
            assert_eq!(e.request("t").authorization, set("Bearer k"));
        }
        EmbeddingBackend::Local(_) => panic!("local model selected"),
    }
}

#[test]
fn hosts_are_added_to_those_of_this_machine() {
    let local = vec!["localhost", "127.0.0.1", "::1"];
    assert_eq!(allowed_hosts(&None), local);
    assert_eq!(allowed_hosts(&set("")), local);
    assert_eq!(allowed_hosts(&set(" , ,")), local);
    assert_eq!(
        allowed_hosts(&set("memory.example.com,192.168.1.50")),
        vec!["localhost", "127.0.0.1", "::1", "memory.example.com", "192.168.1.50"]
    );
    assert_eq!(
        allowed_hosts(&set(" a ,,b")),
        vec!["localhost", "127.0.0.1", "::1", "a", "b"]
    );
}

#[test]
fn spaces_are_trimmed_at_both_ends() {
    let chars = |s: &str| s.chars().collect::<Vec<char>>();
    assert_eq!(trim(&chars("  a b ")), "a b");
    assert_eq!(trim(&chars("   ")), "");
    assert_eq!(trim(&chars("x")), "x");
}

#[test]
fn the_server_listens_as_it_is_told() {
    let o = server_options(&bare()).unwrap();
    assert_eq!(o.port, 8080);
    assert_eq!(o.token, None);
    let o = server_options(&Environment {
        port: set("65535"),
        memory_token: set("t"),
        allowed_hosts: set("h"),
        ..bare()
    })
    .unwrap();
    assert_eq!(o.port, 65535);
    assert_eq!(o.token, set("t"));
    assert_eq!(o.allowed_hosts.len(), 4);
    let o = server_options(&Environment { memory_token: set(""), ..bare() }).unwrap();
    assert_eq!(o.token, None);
}

#[test]
fn ports_that_are_no_numbers_are_errors() {
    let fault = |p: &str| server_options(&Environment { port: set(p), ..bare() }).unwrap_err();
    assert_eq!(fault(""), NumberFault::Empty);
    assert_eq!(fault("http"), NumberFault::InvalidDigit);
    assert_eq!(fault("65536"), NumberFault::TooLarge);
}
