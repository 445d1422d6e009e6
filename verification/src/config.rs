//! Configuration by environment variables.
//!
//! Reading the environment is left to the caller; here is what the values of
//! the variables mean, and what holds where one is not set.
use crate::embeddings::{
    create_embedding_provider, EmbeddingBackend, EmbeddingsConfig, EmbeddingsProviderKind,
    EndpointView,
};
use crate::server::MemoryServerOptions;
use crate::text::{
    chars_of, clone_optional, optional_text, parse_unsigned, text_between, texts, unsigned,
    NumberFault,
};
use vstd::prelude::*;
use vstd::string::*;

verus! {

pub const DEFAULT_NEO4J_URI: &'static str = "bolt://127.0.0.1:7687";

pub const DEFAULT_NEO4J_USER: &'static str = "neo4j";

pub const DEFAULT_NEO4J_PASSWORD: &'static str = "password";

pub const DEFAULT_QDRANT_URL: &'static str = "http://127.0.0.1:6333";

pub const DEFAULT_PORT: &'static str = "8080";

/// The variables that the server looks at, each with its value if it is set.
pub struct Environment {
    /// NEO4J_URI
    pub neo4j_uri: Option<String>,
    /// NEO4J_AUTH: defaults for user and password, with a slash between them
    pub neo4j_auth: Option<String>,
    /// NEO4J_USER
    pub neo4j_user: Option<String>,
    /// NEO4J_PASSWORD
    pub neo4j_password: Option<String>,
    /// QDRANT_URL
    pub qdrant_url: Option<String>,
    /// QDRANT_API_KEY
    pub qdrant_api_key: Option<String>,
    /// EMBEDDING_DIMENSIONS: overrides the dimensions of the collection
    pub embedding_dimensions: Option<String>,
    /// EMBEDDINGS_BASEURL
    pub embeddings_baseurl: Option<String>,
    /// EMBEDDINGS_MODEL
    pub embeddings_model: Option<String>,
    /// EMBEDDINGS_APIKEY
    pub embeddings_apikey: Option<String>,
    /// FASTEMBED_CACHE_PATH: keeps the local model between restarts
    pub fastembed_cache_path: Option<String>,
    /// PORT
    pub port: Option<String>,
    /// MEMORY_TOKEN: optional bearer authentication
    pub memory_token: Option<String>,
    /// ALLOWED_HOSTS: further names for the tools, with commas between them
    pub allowed_hosts: Option<String>,
}

/// A value, or its default.
pub open spec fn value_or(value: Option<Seq<char>>, fallback: Seq<char>) -> Seq<char> {
    match value {
        Some(v) => v,
        None => fallback,
    }
}

/// A value that is not empty.
pub open spec fn nonempty(value: Option<Seq<char>>) -> Option<Seq<char>> {
    match value {
        Some(v) => if v.len() > 0 {
            Some(v)
        } else {
            None
        },
        None => None,
    }
}

/// A value, or its default.
pub fn env_or(value: &Option<String>, fallback: &str) -> (r: String)
    ensures
        r@ == value_or(optional_text(*value), fallback@),
{
    match value {
        Some(v) => v.clone(),
        None => fallback.to_string(),
    }
}

/// A value that is not empty.
pub fn env_nonempty(value: &Option<String>) -> (r: Option<String>)
    ensures
        optional_text(r) == nonempty(optional_text(*value)),
{
    match value {
        Some(v) => if v.as_str().is_empty() {
            None
        } else {
            Some(v.clone())
        },
        None => None,
    }
}

// ---- Neo4j -----------------------------------------------------------------

/// The position of the first slash; the length if there is none.
pub open spec fn first_slash(s: Seq<char>) -> int
    decreases s.len(),
{
    if s.len() == 0 || s[0] == '/' {
        0
    } else {
        1 + first_slash(s.skip(1))
    }
}

proof fn lemma_first_slash(s: Seq<char>)
    ensures
        0 <= first_slash(s) <= s.len(),
        first_slash(s) < s.len() ==> s[first_slash(s)] == '/',
        forall|i: int| 0 <= i < first_slash(s) ==> #[trigger] s[i] != '/',
    decreases s.len(),
{
    if s.len() > 0 && s[0] != '/' {
        lemma_first_slash(s.skip(1));
        assert forall|i: int| 0 <= i < first_slash(s) implies #[trigger] s[i] != '/' by {
            if i > 0 {
                assert(s.skip(1)[i - 1] == s[i]);
            }
        }
    }
}

/// The user and the password in NEO4J_AUTH, before and after its first slash, if
/// it is set and has one.
pub open spec fn auth_parts(auth: Option<Seq<char>>) -> Option<(Seq<char>, Seq<char>)> {
    match auth {
        Some(a) => if first_slash(a) < a.len() {
            Some((a.take(first_slash(a)), a.skip(first_slash(a) + 1)))
        } else {
            None
        },
        None => None,
    }
}

/// The user and the password: each that of its own variable if it is set, else
/// its part of NEO4J_AUTH, else its default.
pub open spec fn login(
    auth: Option<Seq<char>>,
    user: Option<Seq<char>>,
    password: Option<Seq<char>>,
) -> (Seq<char>, Seq<char>) {
    let (default_user, default_password) = match auth_parts(auth) {
        Some(parts) => parts,
        None => (DEFAULT_NEO4J_USER@, DEFAULT_NEO4J_PASSWORD@),
    };
    (value_or(user, default_user), value_or(password, default_password))
}

/// The user and the password in NEO4J_AUTH.
fn split_auth(auth: &Option<String>) -> (r: Option<(String, String)>)
    ensures
        match r {
            Some((user, password)) => auth_parts(optional_text(*auth)) == Some(
                (user@, password@),
            ),
            None => auth_parts(optional_text(*auth)) is None,
        },
{
    let auth = match auth {
        Some(a) => a,
        None => return None,
    };
    let chars = chars_of(auth.as_str());
    let mut i: usize = 0;
    proof {
        lemma_first_slash(auth@);
    }
    while i < chars.len() && chars[i] != '/'
        invariant
            chars@ == auth@,
            i <= chars.len(),
            forall|k: int| 0 <= k < i ==> #[trigger] auth@[k] != '/',
        decreases chars.len() - i,
    {
        i += 1;
    }
    assert(first_slash(auth@) == i) by {
        if first_slash(auth@) < i {
            assert(auth@[first_slash(auth@)] != '/');
        }
        if i < first_slash(auth@) {
            assert(auth@[i as int] != '/');
        }
    }
    if i < chars.len() {
        let user = text_between(&chars, 0, i);
        let password = text_between(&chars, i + 1, chars.len());
        assert(user@ =~= auth@.take(i as int));
        assert(password@ =~= auth@.skip(i + 1));
        Some((user, password))
    } else {
        None
    }
}

/// Where the graph database is, and the user and the password for it.
pub fn neo4j_credentials(env: &Environment) -> (r: (String, String, String))
    ensures
        r.0@ == value_or(optional_text(env.neo4j_uri), DEFAULT_NEO4J_URI@),
        (r.1@, r.2@) == login(
            optional_text(env.neo4j_auth),
            optional_text(env.neo4j_user),
            optional_text(env.neo4j_password),
        ),
{
    let uri = env_or(&env.neo4j_uri, DEFAULT_NEO4J_URI);
    let (default_user, default_password) = match split_auth(&env.neo4j_auth) {
        Some(parts) => parts,
        None => (DEFAULT_NEO4J_USER.to_string(), DEFAULT_NEO4J_PASSWORD.to_string()),
    };
    (
        uri,
        env_or(&env.neo4j_user, default_user.as_str()),
        env_or(&env.neo4j_password, default_password.as_str()),
    )
}

// ---- Qdrant and embeddings -------------------------------------------------

/// The dimensions that were set, if what was set is a number.
pub open spec fn dimensions_of(value: Option<Seq<char>>) -> Option<nat> {
    match value {
        Some(v) => match unsigned(v, u32::MAX as nat) {
            Ok(n) => Some(n),
            Err(_) => None,
        },
        None => None,
    }
}

/// The dimensions that were set; anything but a number counts as not set.
pub fn embedding_dimensions(value: &Option<String>) -> (r: Option<u32>)
    ensures
        match r {
            Some(n) => dimensions_of(optional_text(*value)) == Some(n as nat),
            None => dimensions_of(optional_text(*value)) is None,
        },
{
    match value {
        Some(v) => match parse_unsigned(v.as_str(), u32::MAX) {
            Ok(n) => Some(n),
            Err(_) => None,
        },
        None => None,
    }
}

/// The embedding provider that is configured: the endpoint if both its address
/// and its model are set, the local model otherwise.
pub fn embeddings_config(env: &Environment) -> (r: EmbeddingsConfig)
    ensures
        r.provider == if nonempty(optional_text(env.embeddings_baseurl)) is Some && nonempty(
            optional_text(env.embeddings_model),
        ) is Some {
            EmbeddingsProviderKind::OpenAICompatible
        } else {
            EmbeddingsProviderKind::Local
        },
        optional_text(r.baseurl) == nonempty(optional_text(env.embeddings_baseurl)),
        optional_text(r.apikey) == nonempty(optional_text(env.embeddings_apikey)),
        optional_text(r.model) == nonempty(optional_text(env.embeddings_model)),
{
    let baseurl = env_nonempty(&env.embeddings_baseurl);
    let model = env_nonempty(&env.embeddings_model);
    EmbeddingsConfig {
        provider: if baseurl.is_some() && model.is_some() {
            EmbeddingsProviderKind::OpenAICompatible
        } else {
            EmbeddingsProviderKind::Local
        },
        baseurl,
        apikey: env_nonempty(&env.embeddings_apikey),
        model,
    }
}

/// What the stores and the provider are made with.
pub struct ServiceSettings {
    pub neo4j_uri: String,
    pub neo4j_user: String,
    pub neo4j_password: String,
    pub qdrant_url: String,
    pub qdrant_api_key: Option<String>,
    pub dimensions: Option<u32>,
    pub embeddings: EmbeddingBackend,
}

/// What the stores and the provider are made with.
pub fn service_settings(env: &Environment) -> (r: ServiceSettings)
    ensures
        r.neo4j_uri@ == value_or(optional_text(env.neo4j_uri), DEFAULT_NEO4J_URI@),
        (r.neo4j_user@, r.neo4j_password@) == login(
            optional_text(env.neo4j_auth),
            optional_text(env.neo4j_user),
            optional_text(env.neo4j_password),
        ),
        r.qdrant_url@ == value_or(optional_text(env.qdrant_url), DEFAULT_QDRANT_URL@),
        optional_text(r.qdrant_api_key) == nonempty(optional_text(env.qdrant_api_key)),
        match r.dimensions {
            Some(n) => dimensions_of(optional_text(env.embedding_dimensions)) == Some(n as nat),
            None => dimensions_of(optional_text(env.embedding_dimensions)) is None,
        },
        match (
            nonempty(optional_text(env.embeddings_baseurl)),
            nonempty(optional_text(env.embeddings_model)),
        ) {
            (Some(baseurl), Some(model)) => r.embeddings matches EmbeddingBackend::OpenAICompatible(
                e,
            ) && e@ == (EndpointView {
                baseurl,
                apikey: nonempty(optional_text(env.embeddings_apikey)),
                model,
            }),
            _ => r.embeddings matches EmbeddingBackend::Local(l) && l@ == optional_text(
                env.fastembed_cache_path,
            ),
        },
{
    let (neo4j_uri, neo4j_user, neo4j_password) = neo4j_credentials(env);
    ServiceSettings {
        neo4j_uri,
        neo4j_user,
        neo4j_password,
        qdrant_url: env_or(&env.qdrant_url, DEFAULT_QDRANT_URL),
        qdrant_api_key: env_nonempty(&env.qdrant_api_key),
        dimensions: embedding_dimensions(&env.embedding_dimensions),
        embeddings: embedding_backend(env),
    }
}

/// The embedding provider that the environment selects: without both an address
/// and a model for an endpoint it is the local one, and no text leaves the
/// machine.
pub fn embedding_backend(env: &Environment) -> (r: EmbeddingBackend)
    ensures
        match (
            nonempty(optional_text(env.embeddings_baseurl)),
            nonempty(optional_text(env.embeddings_model)),
        ) {
            (Some(baseurl), Some(model)) => r matches EmbeddingBackend::OpenAICompatible(e) && e@
                == (EndpointView {
                baseurl,
                apikey: nonempty(optional_text(env.embeddings_apikey)),
                model,
            }),
            _ => r matches EmbeddingBackend::Local(l) && l@ == optional_text(
                env.fastembed_cache_path,
            ),
        },
{
    let config = embeddings_config(env);
    create_embedding_provider(&config, clone_optional(&env.fastembed_cache_path))
}

// ---- server ----------------------------------------------------------------

/// The pieces of a text between commas.
pub open spec fn pieces(s: Seq<char>) -> Seq<Seq<char>>
    decreases s.len(),
{
    if s.len() == 0 {
        seq![Seq::empty()]
    } else if s.last() == ',' {
        pieces(s.drop_last()).push(Seq::empty())
    } else {
        let before = pieces(s.drop_last());
        before.drop_last().push(before.last().push(s.last()))
    }
}

/// A text without the spaces at its beginning and its end.
pub open spec fn trimmed(s: Seq<char>) -> Seq<char>
    decreases s.len(),
{
    if s.len() > 0 && s[0] == ' ' {
        trimmed(s.skip(1))
    } else if s.len() > 0 && s.last() == ' ' {
        trimmed(s.drop_last())
    } else {
        s
    }
}

/// Takes the spaces off both ends.
pub fn trim(s: &Vec<char>) -> (r: String)
    ensures
        r@ == trimmed(s@),
{
    let mut from: usize = 0;
    let mut to: usize = s.len();
    assert(s@.subrange(0, s@.len() as int) =~= s@);
    while from < to && s[from] == ' '
        invariant
            from <= to,
            to == s.len(),
            trimmed(s@) == trimmed(s@.subrange(from as int, to as int)),
        decreases to - from,
    {
        assert(s@.subrange(from as int, to as int).skip(1) =~= s@.subrange(from + 1, to as int));
        assert(s@.subrange(from as int, to as int)[0] == ' ');
        from += 1;
    }
    while from < to && s[to - 1] == ' '
        invariant
            from <= to <= s.len(),
            from < to ==> s@[from as int] != ' ',
            trimmed(s@) == trimmed(s@.subrange(from as int, to as int)),
        decreases to - from,
    {
        let ghost part = s@.subrange(from as int, to as int);
        assert(part.drop_last() =~= s@.subrange(from as int, to - 1));
        assert(part.last() == ' ');
        assert(part[0] != ' ');
        to -= 1;
    }
    proof {
        let part = s@.subrange(from as int, to as int);
        if from < to {
            assert(part[0] == s@[from as int]);
            assert(part.last() == s@[to - 1]);
        }
    }
    text_between(s, from, to)
}

/// The names in a list, without spaces around them; an empty name is none.
pub open spec fn names_in(list: Seq<Seq<char>>) -> Seq<Seq<char>>
    decreases list.len(),
{
    if list.len() == 0 {
        Seq::empty()
    } else {
        let before = names_in(list.drop_last());
        let name = trimmed(list.last());
        if name.len() > 0 {
            before.push(name)
        } else {
            before
        }
    }
}

/// The names under which this machine is reached from itself.
pub open spec fn local_hosts() -> Seq<Seq<char>> {
    seq!["localhost"@, "127.0.0.1"@, "::1"@]
}

/// The names under which the tools may be reached: this machine's own, and
/// those that are set.
pub open spec fn hosts_of(value: Option<Seq<char>>) -> Seq<Seq<char>> {
    match value {
        Some(v) => local_hosts() + names_in(pieces(v)),
        None => local_hosts(),
    }
}

fn add_name(names: &mut Vec<String>, piece: &Vec<char>)
    ensures
        texts(final(names)@) == if trimmed(piece@).len() > 0 {
            texts(old(names)@).push(trimmed(piece@))
        } else {
            texts(old(names)@)
        },
{
    let name = trim(piece);
    if !name.as_str().is_empty() {
        let ghost before = texts(names@);
        let ghost t = name@;
        names.push(name);
        assert(texts(names@) =~= before.push(t));
    }
}

/// The names under which the tools may be reached.
pub fn allowed_hosts(value: &Option<String>) -> (r: Vec<String>)
    ensures
        texts(r@) == hosts_of(optional_text(*value)),
{
    let mut names: Vec<String> = Vec::new();
    names.push("localhost".to_string());
    names.push("127.0.0.1".to_string());
    names.push("::1".to_string());
    assert(texts(names@) =~= local_hosts());
    if let Some(v) = value {
        let chars = chars_of(v.as_str());
        let mut piece: Vec<char> = Vec::new();
        let ghost done = pieces(v@.take(0)).drop_last();
        let mut i: usize = 0;
        proof {
            assert(done =~= Seq::<Seq<char>>::empty());
            assert(local_hosts() + names_in(done) =~= local_hosts());
        }
        while i < chars.len()
            invariant
                chars@ == v@,
                i <= chars.len(),
                pieces(v@.take(i as int)).len() > 0,
                piece@ == pieces(v@.take(i as int)).last(),
                texts(names@) == local_hosts() + names_in(
                    pieces(v@.take(i as int)).drop_last(),
                ),
            decreases chars.len() - i,
        {
            let c = chars[i];
            let ghost before = pieces(v@.take(i as int));
            let ghost after = pieces(v@.take(i + 1));
            proof {
                assert(v@.take(i + 1).drop_last() =~= v@.take(i as int));
                assert(v@.take(i + 1).last() == c);
            }
            if c == ',' {
                add_name(&mut names, &piece);
                proof {
                    assert(after.drop_last() =~= before);
                    assert(texts(names@) =~= local_hosts() + names_in(before));
                }
                piece = Vec::new();
            } else {
                piece.push(c);
                assert(after.drop_last() =~= before.drop_last());
            }
            i += 1;
        }
        assert(v@.take(chars.len() as int) =~= v@);
        add_name(&mut names, &piece);
        assert(texts(names@) =~= local_hosts() + names_in(pieces(v@)));
    }
    names
}

/// The port that is set.
pub open spec fn port_of(value: Option<Seq<char>>) -> Result<nat, NumberFault> {
    unsigned(value_or(value, DEFAULT_PORT@), u16::MAX as nat)
}

/// How the server is to listen; a port that is no number is an error.
pub fn server_options(env: &Environment) -> (r: Result<MemoryServerOptions, NumberFault>)
    ensures
        match r {
            Ok(o) => {
                &&& port_of(optional_text(env.port)) == Ok::<nat, NumberFault>(o.port as nat)
                &&& optional_text(o.token) == nonempty(optional_text(env.memory_token))
                &&& texts(o.allowed_hosts@) == hosts_of(optional_text(env.allowed_hosts))
            },
            Err(e) => port_of(optional_text(env.port)) == Err::<nat, NumberFault>(e),
        },
{
    let port = env_or(&env.port, DEFAULT_PORT);
    match parse_unsigned(port.as_str(), 65535) {
        Ok(n) => Ok(
            MemoryServerOptions {
                port: n as u16,
                token: env_nonempty(&env.memory_token),
                allowed_hosts: allowed_hosts(&env.allowed_hosts),
            },
        ),
        Err(e) => Err(e),
    }
}

// ---- laws ------------------------------------------------------------------

/// This machine's own names are allowed whatever is set.
pub proof fn law_local_hosts_are_allowed(value: Option<Seq<char>>)
    ensures
        hosts_of(value).take(3) == local_hosts(),
{
    assert(hosts_of(value).take(3) =~= local_hosts());
}

/// A user and a password joined by a slash are read back where their own
/// variables are not set, unless the user holds a slash.
pub proof fn law_auth_is_read_back(name: Seq<char>, secret: Seq<char>)
    requires
        !name.contains('/'),
    ensures
        login(Some(name + seq!['/'] + secret), None, None) == (name, secret),
{
    let auth = name + seq!['/'] + secret;
    let n = name.len() as int;
    lemma_first_slash(auth);
    assert(auth[n] == '/');
    let at = first_slash(auth);
    if at < n {
        assert(name[at] == auth[at]);
        assert(name.contains('/'));
    }
    assert(at == n);
    assert(auth.take(n) =~= name);
    assert(auth.skip(n + 1) =~= secret);
}

/// A user or a password in its own variable holds, whatever NEO4J_AUTH says.
pub proof fn law_own_variables_come_first(
    auth: Option<Seq<char>>,
    user: Option<Seq<char>>,
    password: Option<Seq<char>>,
)
    ensures
        user is Some ==> login(auth, user, password).0 == user->0,
        password is Some ==> login(auth, user, password).1 == password->0,
{
}

/// A variable that is set has its value; one that is not has its default, and
/// one that is set to nothing counts as not set where it must not be empty.
pub proof fn law_values_and_defaults(value: Seq<char>, fallback: Seq<char>)
    ensures
        value_or(Some(value), fallback) == value,
        value_or(None, fallback) == fallback,
        value.len() > 0 ==> nonempty(Some(value)) == Some(value),
        value.len() == 0 ==> nonempty(Some(value)) is None,
        nonempty(None) is None,
{
}

/// The defaults.
pub proof fn law_defaults()
    ensures
        DEFAULT_NEO4J_URI@ == "bolt://127.0.0.1:7687"@,
        DEFAULT_QDRANT_URL@ == "http://127.0.0.1:6333"@,
        port_of(None) == Ok::<nat, NumberFault>(8080),
{
    reveal_strlit("8080");
    reveal_with_fuel(crate::text::read_digits, 5);
    let s = "8080"@;
    assert(s.skip(1).skip(1) =~= s.skip(2));
    assert(s.skip(2).skip(1) =~= s.skip(3));
    assert(s.skip(3).skip(1) =~= Seq::<char>::empty());
}

/// Without a slash in NEO4J_AUTH the user is `neo4j` and the password is
/// `password`; each of the two depends on its own variable and on NEO4J_AUTH
/// alone.
pub proof fn law_default_login(
    auth: Option<Seq<char>>,
    user: Option<Seq<char>>,
    password: Option<Seq<char>>,
)
    ensures
        (auth matches Some(a) ==> !a.contains('/')) ==> login(auth, None, None) == (
            "neo4j"@,
            "password"@,
        ),
        user is None ==> login(auth, user, password).0 == login(auth, None, None).0,
        password is None ==> login(auth, user, password).1 == login(auth, None, None).1,
{
    if let Some(a) = auth {
        lemma_first_slash(a);
        if first_slash(a) < a.len() {
            assert(a.contains(a[first_slash(a)]));
        }
    }
}

/// The dimensions are the number that was set, if it is one and fits in 32 bits.
pub proof fn law_dimensions_are_read(value: Seq<char>)
    ensures
        unsigned(value, 4_294_967_295) matches Ok(n) ==> dimensions_of(Some(value)) == Some(n),
        unsigned(value, 4_294_967_295) is Err ==> dimensions_of(Some(value)) is None,
        dimensions_of(None) is None,
{
}

/// The port is the number that was set, if it fits in 16 bits; what is wrong with
/// anything else is said.
pub proof fn law_port_is_read(value: Seq<char>)
    ensures
        port_of(Some(value)) == unsigned(value, 65_535),
{
}

/// A text without commas is one piece; at a comma the pieces before it and those
/// after it part.
pub proof fn law_pieces_part_at_commas(a: Seq<char>, b: Seq<char>)
    ensures
        !a.contains(',') ==> pieces(a) == seq![a],
        pieces(a + seq![','] + b) == pieces(a) + pieces(b),
{
    if !a.contains(',') {
        lemma_one_piece(a);
    }
    lemma_pieces_join(a, b);
}

proof fn lemma_one_piece(s: Seq<char>)
    requires
        !s.contains(','),
    ensures
        pieces(s) == seq![s],
    decreases s.len(),
{
    if s.len() == 0 {
        assert(s =~= Seq::<char>::empty());
    } else {
        let rest = s.drop_last();
        assert(!rest.contains(',')) by {
            if rest.contains(',') {
                let k = choose|k: int| 0 <= k < rest.len() && rest[k] == ',';
                assert(s[k] == ',');
            }
        }
        assert(s[s.len() - 1] != ',');
        lemma_one_piece(rest);
        assert(rest.push(s.last()) =~= s);
        assert(seq![rest].drop_last().push(s) =~= seq![s]);
    }
}

proof fn lemma_pieces_join(a: Seq<char>, b: Seq<char>)
    ensures
        pieces(a + seq![','] + b) == pieces(a) + pieces(b),
        pieces(b).len() > 0,
    decreases b.len(),
{
    let s = a + seq![','] + b;
    if b.len() == 0 {
        assert(s.last() == ',');
        assert(s.drop_last() =~= a);
        assert(pieces(a) + pieces(b) =~= pieces(a).push(Seq::empty()));
    } else {
        let rest = b.drop_last();
        lemma_pieces_join(a, rest);
        assert(s.drop_last() =~= a + seq![','] + rest);
        assert(s.last() == b.last());
        let both = pieces(a) + pieces(rest);
        assert(both.last() == pieces(rest).last());
        assert(both.drop_last() =~= pieces(a) + pieces(rest).drop_last());
        assert(pieces(s) =~= pieces(a) + pieces(b));
    }
}

/// Spaces at either end do not matter; a text without them is left alone.
pub proof fn law_spaces_around_do_not_matter(s: Seq<char>)
    ensures
        trimmed(seq![' '] + s) == trimmed(s),
        trimmed(s + seq![' ']) == trimmed(s),
        s.len() == 0 || s[0] != ' ' && s[s.len() - 1] != ' ' ==> trimmed(s) == s,
{
    assert((seq![' '] + s).skip(1) =~= s);
    lemma_space_at_end(s);
}

proof fn lemma_space_at_end(s: Seq<char>)
    ensures
        trimmed(s + seq![' ']) == trimmed(s),
    decreases s.len(),
{
    let longer = s + seq![' '];
    if s.len() == 0 {
        assert(longer.skip(1) =~= s);
    } else if s[0] == ' ' {
        assert(longer.skip(1) =~= s.skip(1) + seq![' ']);
        lemma_space_at_end(s.skip(1));
    } else {
        assert(longer.drop_last() =~= s);
        assert(longer.last() == ' ');
        assert(longer[0] == s[0]);
    }
}

/// The names in a list follow its pieces: one more piece adds its name, without
/// the spaces around it, unless it is empty.
pub proof fn law_names_follow_the_pieces(list: Seq<Seq<char>>, piece: Seq<char>)
    ensures
        names_in(Seq::empty()) == Seq::<Seq<char>>::empty(),
        trimmed(piece).len() > 0 ==> names_in(list.push(piece)) == names_in(list).push(
            trimmed(piece),
        ),
        trimmed(piece).len() == 0 ==> names_in(list.push(piece)) == names_in(list),
{
    assert(list.push(piece).drop_last() =~= list);
}

/// Behind the names `localhost`, `127.0.0.1` and `::1` come the names between the
/// commas, in order.
pub proof fn law_hosts_follow_the_list(value: Seq<char>)
    ensures
        hosts_of(None) == seq!["localhost"@, "127.0.0.1"@, "::1"@],
        hosts_of(Some(value)) == seq!["localhost"@, "127.0.0.1"@, "::1"@] + names_in(pieces(value)),
{
}

/// One more name behind a comma is one more name that is allowed.
pub proof fn law_one_more_host(value: Seq<char>, name: Seq<char>)
    requires
        name.len() > 0,
        !name.contains(','),
        !name.contains(' '),
    ensures
        hosts_of(Some(value + seq![','] + name)) == hosts_of(Some(value)).push(name),
        hosts_of(Some(name)) == hosts_of(None).push(name),
{
    law_pieces_part_at_commas(value, name);
    law_pieces_part_at_commas(name, name);
    assert(name[0] != ' ');
    assert(name[name.len() - 1] != ' ');
    law_spaces_around_do_not_matter(name);
    assert(pieces(value) + seq![name] =~= pieces(value).push(name));
    law_names_follow_the_pieces(pieces(value), name);
    law_names_follow_the_pieces(Seq::empty(), name);
    assert(Seq::<Seq<char>>::empty().push(name) =~= seq![name]);
    assert(hosts_of(Some(value + seq![','] + name)) =~= hosts_of(Some(value)).push(name));
    assert(hosts_of(Some(name)) =~= hosts_of(None).push(name));
}

} // verus!
