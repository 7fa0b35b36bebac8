//! Local LLM client settings: which server and model to talk to, the
//! request URLs, the prompt of an explanation, and reading the reply.
//!
//! Ollama (port 11434) and LM Studio (port 1234) both speak the
//! OpenAI-compatible chat API, so one client covers both.

use vstd::prelude::*;

use crate::text::{chars_of, push_str, string_from_chars, trim, trimmed_chars};

verus! {

/// Ollama's default address, probed first.
pub const OLLAMA_URL: &'static str = "http://localhost:11434";
/// LM Studio's default address, probed second.
pub const LMSTUDIO_URL: &'static str = "http://localhost:1234";
/// The model asked for on Ollama, and on an explicit URL, by default.
pub const DEFAULT_MODEL_OLLAMA: &'static str = "llama3.2";
/// The model asked for on LM Studio by default.
pub const DEFAULT_MODEL_LMSTUDIO: &'static str = "local-model";
/// Timeout of a reachability probe, in milliseconds.
pub const DETECT_TIMEOUT_MS: u64 = 800;
/// Timeout of an explanation request, in milliseconds.
pub const EXPLAIN_TIMEOUT_MS: u64 = 30_000;
/// How many well-known local servers are probed.
pub const CANDIDATE_COUNT: usize = 2;
/// The reply length asked of the model.
pub const MAX_TOKENS: u64 = 120;

/// The system prompt of an explanation request.
pub const SYSTEM_PROMPT: &'static str = "You are a concise log analysis assistant for developers. Explain anomalous log lines briefly: what likely went wrong and what to check. Answer in 1-2 sentences max. No preamble, no markdown.";

/// A configured local LLM endpoint.
pub struct LlmClient {
    base_url: String,
    model: String,
}

/// `s` without its trailing `/` characters (`str::trim_end_matches('/')`).
pub open spec fn trim_slashes(s: Seq<char>) -> Seq<char>
    decreases s.len(),
{
    if s.len() > 0 && s.last() == '/' {
        trim_slashes(s.drop_last())
    } else {
        s
    }
}

/// The probe order: Ollama, then LM Studio.
pub open spec fn candidate_url_spec(i: int) -> Seq<char> {
    if i == 0 { OLLAMA_URL@ } else { LMSTUDIO_URL@ }
}

/// The default model of each probed server.
pub open spec fn candidate_model_spec(i: int) -> Seq<char> {
    if i == 0 { DEFAULT_MODEL_OLLAMA@ } else { DEFAULT_MODEL_LMSTUDIO@ }
}

/// The model name: the override when given, else `default`.
pub open spec fn model_or(model: Option<Seq<char>>, default: Seq<char>) -> Seq<char> {
    match model {
        Some(m) => m,
        None => default,
    }
}

/// The text of an optional `&str`.
pub open spec fn str_opt(o: Option<&str>) -> Option<Seq<char>> {
    match o {
        Some(s) => Some(s@),
        None => None,
    }
}

fn model_name(model: Option<&str>, default: &str) -> (m: String)
    ensures
        m@ == model_or(str_opt(model), default@),
{
    match model {
        Some(m) => String::from_str(m),
        None => String::from_str(default),
    }
}

impl LlmClient {
    /// The server's base URL.
    pub closed spec fn url_view(&self) -> Seq<char> {
        self.base_url@
    }

    /// The model name.
    pub closed spec fn model_view(&self) -> Seq<char> {
        self.model@
    }

    /// A client for an explicitly configured URL (`--llm-url` or
    /// `TURBOLOG_LLM_URL`): trailing slashes dropped, the model defaulting
    /// to Ollama's.
    pub fn configured(url: &str, model: Option<&str>) -> (c: LlmClient)
        ensures
            c.url_view() == trim_slashes(url@),
            c.model_view() == model_or(str_opt(model), DEFAULT_MODEL_OLLAMA@),
    {
        let cs = chars_of(url);
        let mut n = cs.len();
        assert(cs@.take(n as int) =~= cs@);
        while n > 0 && cs[n - 1] == '/'
            invariant
                n <= cs@.len(),
                trim_slashes(cs@) == trim_slashes(cs@.take(n as int)),
            decreases n,
        {
            assert(cs@.take(n as int).drop_last() =~= cs@.take(n as int - 1));
            n = n - 1;
        }
        let base = string_from_chars(vstd::slice::slice_subrange(cs.as_slice(), 0, n));
        assert(cs@.subrange(0, n as int) =~= cs@.take(n as int));
        LlmClient { base_url: base, model: model_name(model, DEFAULT_MODEL_OLLAMA) }
    }

    /// A client for the `index`-th well-known server once it answered a
    /// probe.
    pub fn from_candidate(index: usize, model: Option<&str>) -> (c: LlmClient)
        requires
            index < CANDIDATE_COUNT,
        ensures
            c.url_view() == candidate_url_spec(index as int),
            c.model_view() == model_or(str_opt(model), candidate_model_spec(index as int)),
    {
        if index == 0 {
            LlmClient { base_url: String::from_str(OLLAMA_URL), model: model_name(model, DEFAULT_MODEL_OLLAMA) }
        } else {
            LlmClient { base_url: String::from_str(LMSTUDIO_URL), model: model_name(model, DEFAULT_MODEL_LMSTUDIO) }
        }
    }

    /// The server's base URL.
    pub fn base_url(&self) -> (s: &str)
        ensures
            s@ == self.url_view(),
    {
        self.base_url.as_str()
    }

    /// The model name.
    pub fn model(&self) -> (s: &str)
        ensures
            s@ == self.model_view(),
    {
        self.model.as_str()
    }

    /// The chat-completions endpoint.
    pub fn chat_url(&self) -> (s: String)
        ensures
            s@ == self.url_view() + "/v1/chat/completions"@,
    {
        let mut s = String::from_str(self.base_url.as_str());
        push_str(&mut s, "/v1/chat/completions");
        s
    }
}

/// The `index`-th well-known server, in probe order.
pub fn candidate_url(index: usize) -> (s: &'static str)
    requires
        index < CANDIDATE_COUNT,
    ensures
        s@ == candidate_url_spec(index as int),
{
    if index == 0 { OLLAMA_URL } else { LMSTUDIO_URL }
}

/// The endpoint probed to tell whether a server is up.
pub fn models_url(base_url: &str) -> (s: String)
    ensures
        s@ == base_url@ + "/v1/models"@,
{
    let mut s = String::from_str(base_url);
    push_str(&mut s, "/v1/models");
    s
}

/// Which URL the client is configured with, if any: the command-line
/// override, else the environment's.
pub fn configured_url<'a>(url_override: Option<&'a str>, url_env: Option<&'a str>) -> (u: Option<&'a str>)
    ensures
        u == (match url_override { Some(x) => Some(x), None => url_env }),
{
    match url_override {
        Some(u) => Some(u),
        None => url_env,
    }
}

/// The user message of an explanation request.
pub open spec fn user_content_spec(log_line: Seq<char>, score_text: Seq<char>, context: Option<Seq<char>>) -> Seq<char> {
    let body = "Anomalous log line (score: "@ + score_text + ", higher = more unusual):\n\n"@ + log_line;
    match context {
        Some(ctx) => "Context: "@ + ctx + "\n\n"@ + body,
        None => body,
    }
}

/// Builds the user message: the optional history hint, the score with two
/// decimals, and the line.
pub fn user_content(log_line: &str, score_text: &str, context: Option<&str>) -> (s: String)
    ensures
        s@ == user_content_spec(log_line@, score_text@, str_opt(context)),
{
    let mut s = String::new();
    match context {
        Some(ctx) => {
            push_str(&mut s, "Context: ");
            push_str(&mut s, ctx);
            push_str(&mut s, "\n\n");
        },
        None => {},
    }
    push_str(&mut s, "Anomalous log line (score: ");
    push_str(&mut s, score_text);
    push_str(&mut s, ", higher = more unusual):\n\n");
    push_str(&mut s, log_line);
    assert(s@ =~= user_content_spec(log_line@, score_text@, str_opt(context)));
    s
}

/// The explanation in a reply: the message content trimmed, or nothing
/// when there is no content or only whitespace.
pub open spec fn reply_text_spec(content: Option<Seq<char>>) -> Option<Seq<char>> {
    match content {
        Some(c) => if trim(c).len() == 0 { None } else { Some(trim(c)) },
        None => None,
    }
}

/// Reads the explanation out of the reply's message content.
pub fn reply_text(content: Option<&str>) -> (r: Option<String>)
    ensures
        str_opt_string(r) == reply_text_spec(str_opt(content)),
{
    match content {
        Some(c) => {
            let t = trimmed_chars(c);
            if t.len() == 0 {
                None
            } else {
                Some(string_from_chars(t.as_slice()))
            }
        },
        None => None,
    }
}

/// The text of an optional `String`.
pub open spec fn str_opt_string(o: Option<String>) -> Option<Seq<char>> {
    match o {
        Some(s) => Some(s@),
        None => None,
    }
}

/// The first position from `i` on whose probe answered, if any.
pub open spec fn first_up_from(probes: Seq<bool>, i: int) -> Option<int>
    decreases probes.len() - i,
{
    if i < 0 || i >= probes.len() {
        None
    } else if probes[i] {
        Some(i)
    } else {
        first_up_from(probes, i + 1)
    }
}

/// The client `turbolog` talks to: the configured URL (command line, else
/// environment) when there is one; else the first well-known server whose
/// reachability probe answered (`probes[i]` for the `i`-th, in probe order:
/// Ollama, then LM Studio), with the model override (command line, else
/// environment) or that server's default; else none.
pub open spec fn choose_client_spec(
    url: Option<Seq<char>>,
    model: Option<Seq<char>>,
    probes: Seq<bool>,
) -> Option<(Seq<char>, Seq<char>)> {
    match url {
        Some(u) => Some((trim_slashes(u), model_or(model, DEFAULT_MODEL_OLLAMA@))),
        None => match first_up_from(probes, 0) {
            Some(i) => Some((candidate_url_spec(i), model_or(model, candidate_model_spec(i)))),
            None => None,
        },
    }
}

/// Picks the client from the settings and the probe answers obtained so far
/// (the caller stops probing at the first server that answers).
pub fn choose_client(
    url_override: Option<&str>,
    url_env: Option<&str>,
    model_override: Option<&str>,
    model_env: Option<&str>,
    probes: &Vec<bool>,
) -> (c: Option<LlmClient>)
    requires
        probes@.len() <= CANDIDATE_COUNT,
    ensures
        match (c, choose_client_spec(
            str_opt(match url_override { Some(x) => Some(x), None => url_env }),
            str_opt(match model_override { Some(x) => Some(x), None => model_env }),
            probes@,
        )) {
            (Some(c), Some((u, m))) => c.url_view() == u && c.model_view() == m,
            (None, None) => true,
            _ => false,
        },
{
    let model = match model_override {
        Some(m) => Some(m),
        None => model_env,
    };
    match configured_url(url_override, url_env) {
        Some(u) => return Some(LlmClient::configured(u, model)),
        None => {},
    }
    let mut i: usize = 0;
    while i < probes.len()
        invariant
            i <= probes@.len() <= CANDIDATE_COUNT,
            first_up_from(probes@, 0) == first_up_from(probes@, i as int),
            (match url_override { Some(x) => Some(x), None => url_env }) is None,
            model == (match model_override { Some(x) => Some(x), None => model_env }),
        decreases probes@.len() - i,
    {
        if probes[i] {
            return Some(LlmClient::from_candidate(i, model));
        }
        i = i + 1;
    }
    None
}

} // verus!
