//! Types of the requests and responses exchanged with an Ollama server.
use vstd::prelude::*;

use crate::error::LearnerError;
use crate::text::owned;

verus! {

/// The endpoints of the Ollama API.
#[derive(Debug, Clone, Copy, PartialEq, Eq, Structural)]
pub enum OllamaEndpoint {
    Chat,
    Generate,
    Embed,
    Pull,
    Push,
    Create,
    Copy,
    Delete,
    Show,
    ListRunning,
    ListLocal,
}

/// The URL path of an endpoint.
pub open spec fn spec_endpoint_path(e: OllamaEndpoint) -> Seq<char> {
    match e {
        OllamaEndpoint::Chat => "/api/chat"@,
        OllamaEndpoint::Generate => "/api/generate"@,
        OllamaEndpoint::Embed => "/api/embed"@,
        OllamaEndpoint::Pull => "/api/pull"@,
        OllamaEndpoint::Push => "/api/push"@,
        OllamaEndpoint::Create => "/api/create"@,
        OllamaEndpoint::Copy => "/api/copy"@,
        OllamaEndpoint::Delete => "/api/delete"@,
        OllamaEndpoint::Show => "/api/show"@,
        OllamaEndpoint::ListRunning => "/api/ps"@,
        OllamaEndpoint::ListLocal => "/api/tags"@,
    }
}

impl OllamaEndpoint {
    /// The URL path of the endpoint.
    pub fn as_str(&self) -> (r: &'static str)
        ensures
            r@ == spec_endpoint_path(*self),
    {
        match self {
            OllamaEndpoint::Chat => "/api/chat",
            OllamaEndpoint::Generate => "/api/generate",
            OllamaEndpoint::Embed => "/api/embed",
            OllamaEndpoint::Pull => "/api/pull",
            OllamaEndpoint::Push => "/api/push",
            OllamaEndpoint::Create => "/api/create",
            OllamaEndpoint::Copy => "/api/copy",
            OllamaEndpoint::Delete => "/api/delete",
            OllamaEndpoint::Show => "/api/show",
            OllamaEndpoint::ListRunning => "/api/ps",
            OllamaEndpoint::ListLocal => "/api/tags",
        }
    }
}

/// The models a request can name.
#[derive(Debug, Clone, Copy, PartialEq, Eq, Structural)]
pub enum Model {
    Llama3p2c3b,
}

impl Model {
    /// The name the server knows the model by.
    pub fn name(&self) -> (r: &'static str)
        ensures
            r@ == "llama3.2:3b"@,
    {
        match self {
            Model::Llama3p2c3b => "llama3.2:3b",
        }
    }
}

/// A chat message.
#[derive(Debug)]
pub struct Message {
    pub role: String,
    pub content: String,
}

/// The response of the chat endpoint.
#[derive(Debug)]
pub struct LlamaResponse {
    pub model: String,
    pub created_at: String,
    pub message: Message,
    pub done_reason: String,
    pub done: bool,
    pub total_duration: u64,
    pub load_duration: u64,
    pub prompt_eval_count: u64,
    pub prompt_eval_duration: u64,
    pub eval_count: u64,
    pub eval_duration: u64,
}


/// `url::Url::parse(s)` succeeds, and the text (`Display`) of the URL.
pub uninterp spec fn spec_url_parse(s: Seq<char>) -> Option<Seq<char>>;

/// `Url::join(input)` on the URL whose text is `base`, and the text of the
/// URL it gives.
pub uninterp spec fn spec_url_join(base: Seq<char>, input: Seq<char>) -> Option<Seq<char>>;

/// The text of an optional string.
pub open spec fn opt_url(o: Option<String>) -> Option<Seq<char>> {
    match o {
        Some(s) => Some(s@),
        None => None,
    }
}

/// Parses a URL with `url::Url::parse` and gives its text. The contract
/// names it.
#[verifier::external_body]
fn parse_url(s: &str) -> (r: Option<String>)
    ensures
        opt_url(r) == spec_url_parse(s@),
{
    match url::Url::parse(s) {
        Ok(u) => Some(u.to_string()),
        Err(_) => None,
    }
}

/// Parses the URL text `base` and calls `Url::join(input)` on it, giving the
/// joined URL's text (a URL's text parses back to the same URL). The
/// contract names it.
#[verifier::external_body]
fn join_url(base: &str, input: &str) -> (r: Option<String>)
    ensures
        opt_url(r) == spec_url_join(base@, input@),
{
    match url::Url::parse(base).and_then(|b| b.join(input)) {
        Ok(u) => Some(u.to_string()),
        Err(_) => None,
    }
}

/// The host that requests go to when none is set.
pub const DEFAULT_HOST: &'static str = "http://localhost:11434";

/// The URL that requests are sent to when none is set.
pub const DEFAULT_CHAT_URL: &'static str = "http://localhost:11434/api/chat";

/// The text without its leading slashes.
pub open spec fn spec_trim_slashes(s: Seq<char>) -> Seq<char>
    decreases s.len(),
{
    if s.len() > 0 && s[0] == '/' {
        spec_trim_slashes(s.drop_first())
    } else {
        s
    }
}

fn trim_slashes(s: &str) -> (r: String)
    ensures
        r@ == spec_trim_slashes(s@),
{
    let cs = crate::text::chars_of(s);
    let mut a: usize = 0;
    assert(cs@.skip(0) =~= cs@);
    while a < cs.len() && cs[a] == '/'
        invariant
            a <= cs.len(),
            cs@ == s@,
            spec_trim_slashes(cs@.skip(a as int)) == spec_trim_slashes(s@),
        decreases cs.len() - a,
    {
        assert(cs@.skip(a as int).drop_first() =~= cs@.skip(a + 1));
        a = a + 1;
    }
    let mut out: Vec<char> = Vec::new();
    let mut k: usize = a;
    while k < cs.len()
        invariant
            a <= k <= cs.len(),
            out@ == cs@.subrange(a as int, k as int),
        decreases cs.len() - k,
    {
        out.push(cs[k]);
        k = k + 1;
        assert(out@ =~= cs@.subrange(a as int, k as int));
    }
    assert(out@ =~= cs@.skip(a as int));
    crate::text::string_of(&out)
}

/// A chat request to an Ollama server (its sampling options are fixed, and
/// added when the request is sent).
#[derive(Debug)]
pub struct LlamaRequest {
    model: Option<Model>,
    messages: Vec<Message>,
    stream: bool,
    url: Option<String>,
}

/// The URL for an endpoint on a host (`None` when no URL could be formed):
/// the endpoint's path, without its leading slashes, joined to the host;
/// the chat endpoint when that join fails.
pub open spec fn spec_endpoint_url(base: Option<Seq<char>>, e: OllamaEndpoint) -> Option<Seq<char>> {
    match base {
        None => None,
        Some(b) => match spec_url_join(b, spec_trim_slashes(spec_endpoint_path(e))) {
            Some(u) => Some(u),
            None => spec_url_join(b, "/api/chat"@),
        },
    }
}

impl LlamaRequest {
    /// The model chosen.
    pub closed spec fn spec_model(&self) -> Option<Model> {
        self.model
    }

    /// The messages, as (role, content).
    pub closed spec fn spec_messages(&self) -> Seq<(Seq<char>, Seq<char>)> {
        self.messages@.map_values(|m: Message| (m.role@, m.content@))
    }

    /// Whether the response is streamed.
    pub closed spec fn spec_stream(&self) -> bool {
        self.stream
    }

    /// The URL set, as text.
    pub closed spec fn spec_url(&self) -> Option<Seq<char>> {
        opt_url(self.url)
    }

    /// A request with no model, no messages, no streaming and no URL.
    pub fn new() -> (r: LlamaRequest)
        ensures
            r.spec_model() is None,
            r.spec_messages().len() == 0,
            !r.spec_stream(),
            r.spec_url() is None,
    {
        let r = LlamaRequest { model: None, messages: Vec::new(), stream: false, url: None };
        assert(r.spec_messages() =~= Seq::empty());
        r
    }

    /// Sets the host: the URL is the host parsed, or none if it does not
    /// parse.
    pub fn with_host(self, host: &str) -> (r: LlamaRequest)
        ensures
            r.spec_url() == spec_url_parse(host@),
            r.spec_model() == self.spec_model(),
            r.spec_messages() == self.spec_messages(),
            r.spec_stream() == self.spec_stream(),
    {
        let LlamaRequest { model, messages, stream, url: _ } = self;
        LlamaRequest { model, messages, stream, url: parse_url(host) }
    }

    /// Sets the endpoint: its path is joined to the URL set, or to the
    /// default host when none is set.
    pub fn with_endpoint(self, endpoint: OllamaEndpoint) -> (r: LlamaRequest)
        ensures
            r.spec_url() == spec_endpoint_url(
                if self.spec_url() is Some {
                    self.spec_url()
                } else {
                    spec_url_parse(DEFAULT_HOST@)
                },
                endpoint,
            ),
            r.spec_model() == self.spec_model(),
            r.spec_messages() == self.spec_messages(),
            r.spec_stream() == self.spec_stream(),
    {
        let LlamaRequest { model, messages, stream, url } = self;
        let base = match url {
            Some(u) => Some(u),
            None => parse_url(DEFAULT_HOST),
        };
        let joined = match base {
            None => None,
            Some(b) => {
                let path = trim_slashes(endpoint.as_str());
                match join_url(b.as_str(), path.as_str()) {
                    Some(u) => Some(u),
                    None => join_url(b.as_str(), "/api/chat"),
                }
            },
        };
        LlamaRequest { model, messages, stream, url: joined }
    }

    /// Chooses the model.
    pub fn with_model(self, model: Model) -> (r: LlamaRequest)
        ensures
            r.spec_model() == Some(model),
            r.spec_url() == self.spec_url(),
            r.spec_messages() == self.spec_messages(),
            r.spec_stream() == self.spec_stream(),
    {
        let LlamaRequest { model: _, messages, stream, url } = self;
        LlamaRequest { model: Some(model), messages, stream, url }
    }

    /// Adds a message from the user.
    pub fn with_message(self, content: &str) -> (r: LlamaRequest)
        ensures
            r.spec_messages() == self.spec_messages().push(("user"@, content@)),
            r.spec_model() == self.spec_model(),
            r.spec_url() == self.spec_url(),
            r.spec_stream() == self.spec_stream(),
    {
        let LlamaRequest { model, mut messages, stream, url } = self;
        let ghost before = messages@;
        messages.push(Message { role: owned("user"), content: owned(content) });
        assert(messages@.map_values(|m: Message| (m.role@, m.content@)) =~= before.map_values(
            |m: Message| (m.role@, m.content@),
        ).push(("user"@, content@)));
        LlamaRequest { model, messages, stream, url }
    }

    /// Checks that the request can be sent: a model must be chosen and a
    /// message supplied.
    pub fn check(&self) -> (r: Result<(), LearnerError>)
        ensures
            r is Ok <==> self.spec_model() is Some && self.spec_messages().len() > 0,
            r matches Err(e) ==> if self.spec_model() is None {
                e is LLMMissingModel
            } else {
                e is LLMMissingMessage
            },
    {
        if self.model.is_none() {
            return Err(LearnerError::LLMMissingModel);
        }
        if self.messages.len() == 0 {
            return Err(LearnerError::LLMMissingMessage);
        }
        Ok(())
    }

    /// The URL that the request is sent to: the one set, else the default
    /// chat URL parsed.
    pub fn target_url(&self) -> (r: Option<String>)
        ensures
            opt_url(r) == if self.spec_url() is Some {
                self.spec_url()
            } else {
                spec_url_parse(DEFAULT_CHAT_URL@)
            },
    {
        match &self.url {
            Some(u) => Some(u.clone()),
            None => parse_url(DEFAULT_CHAT_URL),
        }
    }

    /// The model chosen.
    pub fn model(&self) -> (r: Option<Model>)
        ensures
            r == self.spec_model(),
    {
        self.model
    }

    /// The messages.
    pub fn messages(&self) -> (r: &Vec<Message>)
        ensures
            r@.map_values(|m: Message| (m.role@, m.content@)) == self.spec_messages(),
    {
        &self.messages
    }

    /// Whether the response is streamed.
    pub fn stream(&self) -> (r: bool)
        ensures
            r == self.spec_stream(),
    {
        self.stream
    }
}

} // verus!
