//! Translation through the configured backend, as a plan of HTTP requests that
//! the caller performs, a reader for each reply, and the assembly of the result.
use vstd::prelude::*;

use crate::chunk::{chunk_text, chunks_of, is_bounded_split, lemma_chunks_of, texts};
use crate::config::Config;
use crate::json::{field_of, int_of, item_of, step_of, str_of, Json};
use crate::langs::{base, base_of, lang_name, lang_name_of, resolve_langs, resolved_langs};
use crate::text::{
    blank_range, chars_of, decimal, decimal_of, is_blank, is_ws, owned, push_str, str_eq, string_of, trim,
    trim_bounds, trim_end, trim_end_index,
};

verus! {

broadcast use vstd::string::group_string_axioms;

/// The translation services.
#[derive(Clone, Copy)]
pub enum Backend {
    /// MyMemory: free, no key.
    MyMemory,
    /// An OpenAI-compatible chat API (DeepSeek, Kimi, GLM, Qwen, Doubao, OpenAI, ...).
    Ai,
    /// LibreTranslate (self-hostable).
    Libre,
    /// Google's free endpoint.
    Google,
}

/// What became of one HTTP request, as the caller saw it.
pub enum Reply {
    /// The request could not be made (network, DNS, TLS, timeout ...).
    Unreachable(String),
    /// The response body could not be read (or, for a JSON read, decoded).
    Unreadable(String),
    /// The response body was read as text but is not JSON.
    Malformed(String),
    /// The response body, decoded as JSON.
    Body(Json),
}

/// Why a translation failed.
pub enum TranslateError {
    /// `provider` names no known backend.
    UnknownProvider(String),
    /// `proxy_url` is not a proxy URL.
    InvalidProxy(String),
    /// A request could not be made; `url` is the request's URL.
    RequestFailed { backend: Backend, url: String, cause: String },
    /// A response body could not be read.
    ResponseUnreadable { backend: Backend, cause: String },
    /// Google answered with something that is not JSON.
    ResponseNotJson { cause: String },
    /// MyMemory answered without a translation.
    MyMemoryRejected { status: i64, detail: String },
    /// The AI provider answered with an error message.
    AiRejected(String),
    /// The AI provider answered with neither a translation nor an error.
    AiUnexpected(Json),
    /// LibreTranslate answered without a translation.
    LibreRejected(Json),
    /// Google answered JSON of another shape.
    GoogleUnexpected,
}

/// `TranslateError` with texts as character sequences.
pub enum ErrorView {
    UnknownProvider(Seq<char>),
    InvalidProxy(Seq<char>),
    RequestFailed { backend: Backend, url: Seq<char>, cause: Seq<char> },
    ResponseUnreadable { backend: Backend, cause: Seq<char> },
    ResponseNotJson { cause: Seq<char> },
    MyMemoryRejected { status: i64, detail: Seq<char> },
    AiRejected(Seq<char>),
    AiUnexpected(Json),
    LibreRejected(Json),
    GoogleUnexpected,
}

impl View for TranslateError {
    type V = ErrorView;

    open spec fn view(&self) -> ErrorView {
        match *self {
            TranslateError::UnknownProvider(p) => ErrorView::UnknownProvider(p@),
            TranslateError::InvalidProxy(p) => ErrorView::InvalidProxy(p@),
            TranslateError::RequestFailed { backend, url, cause } => ErrorView::RequestFailed {
                backend,
                url: url@,
                cause: cause@,
            },
            TranslateError::ResponseUnreadable { backend, cause } => ErrorView::ResponseUnreadable {
                backend,
                cause: cause@,
            },
            TranslateError::ResponseNotJson { cause } => ErrorView::ResponseNotJson {
                cause: cause@,
            },
            TranslateError::MyMemoryRejected { status, detail } => ErrorView::MyMemoryRejected {
                status,
                detail: detail@,
            },
            TranslateError::AiRejected(m) => ErrorView::AiRejected(m@),
            TranslateError::AiUnexpected(v) => ErrorView::AiUnexpected(v),
            TranslateError::LibreRejected(v) => ErrorView::LibreRejected(v),
            TranslateError::GoogleUnexpected => ErrorView::GoogleUnexpected,
        }
    }
}

/// A result with its texts as character sequences.
pub open spec fn outcome(r: Result<String, TranslateError>) -> Result<Seq<char>, ErrorView> {
    match r {
        Ok(s) => Ok(s@),
        Err(e) => Err(e@),
    }
}

// ---------- reading replies ----------

/// `step_of` through an optional value.
pub open spec fn then_step(j: Option<Json>, token: Seq<char>) -> Option<Json> {
    match j {
        Some(v) => step_of(v, token),
        None => None,
    }
}

/// MyMemory's `responseStatus` as an integer (0 when absent).
pub open spec fn mymemory_status(v: Json) -> i64 {
    match int_of(field_of(v, "responseStatus"@)) {
        Some(n) => n,
        None => 0,
    }
}

/// MyMemory's `/responseData/translatedText` ("" when absent).
pub open spec fn mymemory_text(v: Json) -> Seq<char> {
    match str_of(then_step(step_of(v, "responseData"@), "translatedText"@)) {
        Some(s) => s,
        None => Seq::empty(),
    }
}

/// MyMemory's `responseDetails` ("unknown error" when absent).
pub open spec fn mymemory_detail(v: Json) -> Seq<char> {
    match str_of(field_of(v, "responseDetails"@)) {
        Some(s) => s,
        None => "unknown error"@,
    }
}

/// `/choices/0/message/content` of a chat reply.
pub open spec fn ai_content(v: Json) -> Option<Seq<char>> {
    str_of(then_step(then_step(then_step(step_of(v, "choices"@), "0"@), "message"@), "content"@))
}

/// `/error/message` of a chat reply.
pub open spec fn ai_error(v: Json) -> Option<Seq<char>> {
    str_of(then_step(step_of(v, "error"@), "message"@))
}

/// The text of Google's segments: the first element of each segment that is a string.
pub open spec fn google_text(segments: Seq<Json>) -> Seq<char>
    decreases segments.len(),
{
    if segments.len() == 0 {
        Seq::empty()
    } else {
        google_text(segments.drop_last()) + match str_of(item_of(segments.last(), 0)) {
            Some(s) => s,
            None => Seq::empty(),
        }
    }
}

/// What a reply means for `backend`; `url` is the request's URL.
pub open spec fn reply_outcome(backend: Backend, url: Seq<char>, reply: Reply) -> Result<
    Seq<char>,
    ErrorView,
> {
    match reply {
        Reply::Unreachable(cause) => Err(ErrorView::RequestFailed { backend, url, cause: cause@ }),
        Reply::Unreadable(cause) => Err(ErrorView::ResponseUnreadable { backend, cause: cause@ }),
        Reply::Malformed(cause) => match backend {
            Backend::Google => Err(ErrorView::ResponseNotJson { cause: cause@ }),
            _ => Err(ErrorView::ResponseUnreadable { backend, cause: cause@ }),
        },
        Reply::Body(v) => match backend {
            Backend::MyMemory => if mymemory_status(v) != 200 || mymemory_text(v).len() == 0 {
                Err(ErrorView::MyMemoryRejected { status: mymemory_status(v), detail: mymemory_detail(v) })
            } else {
                Ok(mymemory_text(v))
            },
            Backend::Ai => match ai_content(v) {
                Some(c) => Ok(trim(c)),
                None => match ai_error(v) {
                    Some(m) => Err(ErrorView::AiRejected(m)),
                    None => Err(ErrorView::AiUnexpected(v)),
                },
            },
            Backend::Libre => match str_of(field_of(v, "translatedText"@)) {
                Some(s) => Ok(s),
                None => Err(ErrorView::LibreRejected(v)),
            },
            Backend::Google => match item_of(v, 0) {
                Some(Json::Array(segments)) => Ok(google_text(segments@)),
                _ => Err(ErrorView::GoogleUnexpected),
            },
        },
    }
}

fn copy_backend(b: &Backend) -> (r: Backend)
    ensures
        r == *b,
{
    match b {
        Backend::MyMemory => Backend::MyMemory,
        Backend::Ai => Backend::Ai,
        Backend::Libre => Backend::Libre,
        Backend::Google => Backend::Google,
    }
}

fn copy_string(s: &String) -> (r: String)
    ensures
        r@ == s@,
{
    s.clone()
}

fn google_segments_text(segments: &Vec<Json>) -> (r: String)
    ensures
        r@ == google_text(segments@),
{
    let mut out = String::new();
    let mut i: usize = 0;
    while i < segments.len()
        invariant
            0 <= i <= segments.len(),
            out@ == google_text(segments@.take(i as int)),
        decreases segments.len() - i,
    {
        assert(segments@.take(i + 1).drop_last() =~= segments@.take(i as int));
        match segments[i].at(0) {
            Some(first) => match first.as_text() {
                Some(s) => {
                    push_str(&mut out, s.as_str());
                },
                None => {
                    assert(out@ + Seq::<char>::empty() =~= out@);
                },
            },
            None => {
                assert(out@ + Seq::<char>::empty() =~= out@);
            },
        }
        i = i + 1;
    }
    assert(segments@.take(segments@.len() as int) =~= segments@);
    out
}

fn trimmed(s: &String) -> (r: String)
    ensures
        r@ == trim(s@),
{
    let v = chars_of(s.as_str());
    let (b, e) = trim_bounds(&v, 0, v.len());
    assert(v@.subrange(0, v@.len() as int) =~= v@);
    string_of(&v, b, e)
}

/// Read one reply of `backend` to a request made to `url`.
pub fn read_reply(backend: Backend, url: &String, reply: Reply) -> (r: Result<String, TranslateError>)
    ensures
        outcome(r) == reply_outcome(backend, url@, reply),
{
    match reply {
        Reply::Unreachable(cause) => Err(
            TranslateError::RequestFailed { backend, url: copy_string(url), cause },
        ),
        Reply::Unreadable(cause) => Err(TranslateError::ResponseUnreadable { backend, cause }),
        Reply::Malformed(cause) => match backend {
            Backend::Google => Err(TranslateError::ResponseNotJson { cause }),
            _ => Err(TranslateError::ResponseUnreadable { backend, cause }),
        },
        Reply::Body(v) => match backend {
            Backend::MyMemory => {
                let status: i64 = match v.get("responseStatus") {
                    Some(x) => match x.as_int() {
                        Some(n) => n,
                        None => 0,
                    },
                    None => 0,
                };
                let text: String = match v.step("responseData") {
                    Some(d) => match d.step("translatedText") {
                        Some(t) => match t.as_text() {
                            Some(s) => copy_string(s),
                            None => String::new(),
                        },
                        None => String::new(),
                    },
                    None => String::new(),
                };
                if status != 200 || text.as_str().is_empty() {
                    let detail: String = match v.get("responseDetails") {
                        Some(x) => match x.as_text() {
                            Some(s) => copy_string(s),
                            None => owned("unknown error"),
                        },
                        None => owned("unknown error"),
                    };
                    Err(TranslateError::MyMemoryRejected { status, detail })
                } else {
                    Ok(text)
                }
            },
            Backend::Ai => {
                let content: Option<String> = match v.step("choices") {
                    Some(c) => match c.step("0") {
                        Some(first) => match first.step("message") {
                            Some(m) => match m.step("content") {
                                Some(x) => match x.as_text() {
                                    Some(s) => Some(trimmed(s)),
                                    None => None,
                                },
                                None => None,
                            },
                            None => None,
                        },
                        None => None,
                    },
                    None => None,
                };
                match content {
                    Some(c) => Ok(c),
                    None => {
                        let message: Option<String> = match v.step("error") {
                            Some(e) => match e.step("message") {
                                Some(x) => match x.as_text() {
                                    Some(s) => Some(copy_string(s)),
                                    None => None,
                                },
                                None => None,
                            },
                            None => None,
                        };
                        match message {
                            Some(m) => Err(TranslateError::AiRejected(m)),
                            None => Err(TranslateError::AiUnexpected(v)),
                        }
                    },
                }
            },
            Backend::Libre => {
                let text: Option<String> = match v.get("translatedText") {
                    Some(x) => match x.as_text() {
                        Some(s) => Some(copy_string(s)),
                        None => None,
                    },
                    None => None,
                };
                match text {
                    Some(s) => Ok(s),
                    None => Err(TranslateError::LibreRejected(v)),
                }
            },
            Backend::Google => {
                let text: Option<String> = match v.at(0) {
                    Some(first) => match first.as_items() {
                        Some(segments) => Some(google_segments_text(segments)),
                        None => None,
                    },
                    None => None,
                };
                match text {
                    Some(s) => Ok(s),
                    None => Err(TranslateError::GoogleUnexpected),
                }
            },
        },
    }
}

// ---------- requests ----------

/// HTTP methods.
#[derive(Clone, Copy)]
pub enum Method {
    Get,
    Post,
}

/// One HTTP request for the caller to make: the query pairs go into the URL,
/// the body (if any) is sent as JSON.
pub struct HttpRequest {
    pub method: Method,
    pub url: String,
    pub query: Vec<(String, String)>,
    pub headers: Vec<(String, String)>,
    pub body: Option<Json>,
}

/// One part of a translation: text kept as it is, or a request whose reply
/// gives its translation.
pub enum Piece {
    Keep(String),
    Ask(HttpRequest),
}

/// The requests that translate a text, in order.
pub struct TranslatePlan {
    /// The backend that answers the requests.
    pub backend: Backend,
    /// Whether the whole text goes in one request whose reply is the result.
    pub whole: bool,
    pub pieces: Vec<Piece>,
    /// Set when the configured backend could not be used and another one was.
    pub warning: Option<String>,
}

pub open spec fn pair_is(p: (String, String), key: Seq<char>, value: Seq<char>) -> bool {
    p.0@ == key && p.1@ == value
}

pub open spec fn member_is_text(m: (String, Json), key: Seq<char>, value: Seq<char>) -> bool {
    &&& m.0@ == key
    &&& m.1 matches Json::Str(x) && x@ == value
}

/// A MyMemory lookup of `q` from `src` to `tgt`.
pub open spec fn is_mymemory_request(r: HttpRequest, q: Seq<char>, src: Seq<char>, tgt: Seq<char>) -> bool {
    &&& r.method is Get
    &&& r.url@ == "https://api.mymemory.translated.net/get"@
    &&& r.query@.len() == 2
    &&& pair_is(r.query@[0], "q"@, q)
    &&& pair_is(r.query@[1], "langpair"@, src + "|"@ + tgt)
    &&& r.headers@.len() == 0
    &&& r.body is None
}

/// A call of Google's free endpoint for `q` from `src` to `tgt`.
pub open spec fn is_google_request(r: HttpRequest, q: Seq<char>, src: Seq<char>, tgt: Seq<char>) -> bool {
    &&& r.method is Get
    &&& r.url@ == "https://translate.googleapis.com/translate_a/single"@
    &&& r.query@.len() == 5
    &&& pair_is(r.query@[0], "client"@, "gtx"@)
    &&& pair_is(r.query@[1], "sl"@, src)
    &&& pair_is(r.query@[2], "tl"@, tgt)
    &&& pair_is(r.query@[3], "dt"@, "t"@)
    &&& pair_is(r.query@[4], "q"@, q)
    &&& r.headers@.len() == 0
    &&& r.body is None
}

/// `s` without trailing '/' characters (`trim_end_matches('/')`).
pub open spec fn strip_slashes(s: Seq<char>) -> Seq<char>
    decreases s.len(),
{
    if s.len() > 0 && s.last() == '/' {
        strip_slashes(s.drop_last())
    } else {
        s
    }
}

/// The instruction given to the chat model.
pub open spec fn ai_prompt(src: Seq<char>, tgt: Seq<char>) -> Seq<char> {
    "You are a professional translator. Translate the user's text from "@ + lang_name_of(src)
        + " into "@ + lang_name_of(tgt)
        + ". Preserve meaning, tone, terminology and formatting. Output ONLY the translation \u{2014} no quotes, no explanations, no notes, no romanization."@
}

pub open spec fn is_chat_message(m: Json, role: Seq<char>, content: Seq<char>) -> bool {
    &&& m matches Json::Object(e) && e@.len() == 2 && member_is_text(e@[0], "role"@, role)
        && member_is_text(e@[1], "content"@, content)
}

/// The body of a chat completion request.
pub open spec fn is_chat_body(e: Seq<(String, Json)>, model: Seq<char>, system: Seq<char>, user: Seq<char>) -> bool {
    &&& e.len() == 4
    &&& member_is_text(e[0], "model"@, model)
    &&& e[1].0@ == "messages"@
    &&& e[1].1 matches Json::Array(msgs) && msgs@.len() == 2 && is_chat_message(
        msgs@[0],
        "system"@,
        system,
    ) && is_chat_message(msgs@[1], "user"@, user)
    &&& e[2].0@ == "temperature"@
    &&& e[2].1 matches Json::Number(t) && t@ == "0.3"@
    &&& e[3].0@ == "stream"@
    &&& e[3].1 == Json::Bool(false)
}

/// A chat completion request that asks the model for a translation of `q`.
pub open spec fn is_ai_request(r: HttpRequest, cfg: Config, q: Seq<char>, src: Seq<char>, tgt: Seq<char>) -> bool {
    &&& r.method is Post
    &&& r.url@ == strip_slashes(cfg.ai_base_url@) + "/chat/completions"@
    &&& r.query@.len() == 0
    &&& r.headers@.len() == 2
    &&& pair_is(r.headers@[0], "Authorization"@, "Bearer "@ + trim(cfg.ai_key@))
    &&& pair_is(r.headers@[1], "Content-Type"@, "application/json"@)
    &&& r.body matches Some(Json::Object(e)) && is_chat_body(e@, cfg.ai_model@, ai_prompt(src, tgt), q)
}

/// A LibreTranslate request for `q`, between base languages, with the key when one is set.
pub open spec fn is_libre_request(r: HttpRequest, cfg: Config, q: Seq<char>, src: Seq<char>, tgt: Seq<char>) -> bool {
    &&& r.method is Post
    &&& r.url@ == strip_slashes(cfg.libre_url@) + "/translate"@
    &&& r.query@.len() == 0
    &&& r.headers@.len() == 0
    &&& r.body matches Some(Json::Object(e)) && e@.len() == (if cfg.libre_key@.len() == 0 {
        4int
    } else {
        5int
    }) && member_is_text(e@[0], "q"@, q) && member_is_text(e@[1], "source"@, base_of(src))
        && member_is_text(e@[2], "target"@, base_of(tgt)) && member_is_text(
        e@[3],
        "format"@,
        "text"@,
    ) && (cfg.libre_key@.len() > 0 ==> member_is_text(e@[4], "api_key"@, cfg.libre_key@))
}

/// `r` is the request that `backend` needs to translate `q` from `src` to `tgt`.
pub open spec fn is_request_for(backend: Backend, cfg: Config, src: Seq<char>, tgt: Seq<char>, q: Seq<char>, r: HttpRequest) -> bool {
    match backend {
        Backend::MyMemory => is_mymemory_request(r, q, src, tgt),
        Backend::Google => is_google_request(r, q, src, tgt),
        Backend::Ai => is_ai_request(r, cfg, q, src, tgt),
        Backend::Libre => is_libre_request(r, cfg, q, src, tgt),
    }
}

fn pair(key: &str, value: String) -> (p: (String, String))
    ensures
        p.0@ == key@,
        p.1@ == value@,
{
    (owned(key), value)
}

fn text_member(key: &str, value: String) -> (m: (String, Json))
    ensures
        member_is_text(m, key@, value@),
{
    (owned(key), Json::Str(value))
}

fn mymemory_request(q: String, src: &String, tgt: &String) -> (r: HttpRequest)
    ensures
        is_mymemory_request(r, q@, src@, tgt@),
{
    let mut langpair = copy_string(src);
    push_str(&mut langpair, "|");
    push_str(&mut langpair, tgt.as_str());
    let mut query: Vec<(String, String)> = Vec::new();
    query.push(pair("q", q));
    query.push(pair("langpair", langpair));
    HttpRequest {
        method: Method::Get,
        url: owned("https://api.mymemory.translated.net/get"),
        query,
        headers: Vec::new(),
        body: None,
    }
}

fn google_request(q: String, src: &String, tgt: &String) -> (r: HttpRequest)
    ensures
        is_google_request(r, q@, src@, tgt@),
{
    let mut query: Vec<(String, String)> = Vec::new();
    query.push(pair("client", owned("gtx")));
    query.push(pair("sl", copy_string(src)));
    query.push(pair("tl", copy_string(tgt)));
    query.push(pair("dt", owned("t")));
    query.push(pair("q", q));
    HttpRequest {
        method: Method::Get,
        url: owned("https://translate.googleapis.com/translate_a/single"),
        query,
        headers: Vec::new(),
        body: None,
    }
}

/// `s` without trailing '/' characters.
fn without_trailing_slashes(s: &String) -> (r: String)
    ensures
        r@ == strip_slashes(s@),
{
    let v = chars_of(s.as_str());
    let mut e = v.len();
    assert(v@.take(v@.len() as int) =~= v@);
    while e > 0 && v[e - 1] == '/'
        invariant
            0 <= e <= v.len(),
            strip_slashes(v@) == strip_slashes(v@.take(e as int)),
        decreases e,
    {
        assert(v@.take(e as int).drop_last() =~= v@.take(e - 1));
        e = e - 1;
    }
    assert(v@.take(v@.len() as int) =~= v@);
    string_of(&v, 0, e)
}

fn chat_message(role: &str, content: String) -> (m: Json)
    ensures
        is_chat_message(m, role@, content@),
{
    let mut e: Vec<(String, Json)> = Vec::new();
    e.push(text_member("role", owned(role)));
    e.push(text_member("content", content));
    Json::Object(e)
}

fn ai_request(cfg: &Config, q: String, src: &String, tgt: &String) -> (r: HttpRequest)
    ensures
        is_ai_request(r, *cfg, q@, src@, tgt@),
{
    let mut system = owned("You are a professional translator. Translate the user's text from ");
    push_str(&mut system, lang_name(src.as_str()).as_str());
    push_str(&mut system, " into ");
    push_str(&mut system, lang_name(tgt.as_str()).as_str());
    push_str(
        &mut system,
        ". Preserve meaning, tone, terminology and formatting. Output ONLY the translation \u{2014} no quotes, no explanations, no notes, no romanization.",
    );
    let mut url = without_trailing_slashes(&cfg.ai_base_url);
    push_str(&mut url, "/chat/completions");
    let mut auth = owned("Bearer ");
    push_str(&mut auth, trimmed(&cfg.ai_key).as_str());
    let mut headers: Vec<(String, String)> = Vec::new();
    headers.push(pair("Authorization", auth));
    headers.push(pair("Content-Type", owned("application/json")));
    let mut messages: Vec<Json> = Vec::new();
    messages.push(chat_message("system", system));
    messages.push(chat_message("user", q));
    let mut body: Vec<(String, Json)> = Vec::new();
    body.push(text_member("model", copy_string(&cfg.ai_model)));
    body.push((owned("messages"), Json::Array(messages)));
    body.push((owned("temperature"), Json::Number(owned("0.3"))));
    body.push((owned("stream"), Json::Bool(false)));
    HttpRequest {
        method: Method::Post,
        url,
        query: Vec::new(),
        headers,
        body: Some(Json::Object(body)),
    }
}

fn libre_request(cfg: &Config, q: String, src: &String, tgt: &String) -> (r: HttpRequest)
    ensures
        is_libre_request(r, *cfg, q@, src@, tgt@),
{
    let mut url = without_trailing_slashes(&cfg.libre_url);
    push_str(&mut url, "/translate");
    let mut body: Vec<(String, Json)> = Vec::new();
    body.push(text_member("q", q));
    body.push(text_member("source", base(src.as_str())));
    body.push(text_member("target", base(tgt.as_str())));
    body.push(text_member("format", owned("text")));
    if !cfg.libre_key.as_str().is_empty() {
        body.push(text_member("api_key", copy_string(&cfg.libre_key)));
    }
    HttpRequest {
        method: Method::Post,
        url,
        query: Vec::new(),
        headers: Vec::new(),
        body: Some(Json::Object(body)),
    }
}

fn request_for(backend: &Backend, cfg: &Config, src: &String, tgt: &String, q: String) -> (r: HttpRequest)
    ensures
        is_request_for(*backend, *cfg, src@, tgt@, q@, r),
{
    match backend {
        Backend::MyMemory => mymemory_request(q, src, tgt),
        Backend::Google => google_request(q, src, tgt),
        Backend::Ai => ai_request(cfg, q, src, tgt),
        Backend::Libre => libre_request(cfg, q, src, tgt),
    }
}

// ---------- planning ----------

/// Whether `backend` caps the size of one request (so long text goes in chunks).
pub open spec fn is_chunked(backend: Backend) -> bool {
    backend is MyMemory || backend is Google
}

/// Bytes per request of a chunked backend (MyMemory caps requests at 500).
pub open spec fn chunk_limit(backend: Backend) -> nat {
    match backend {
        Backend::MyMemory => 480,
        Backend::Google => 1500,
        _ => 0,
    }
}

/// The backend that `provider` selects; "ai" without a key falls back to MyMemory.
pub open spec fn backend_for(provider: Seq<char>, ai_key: Seq<char>) -> Option<Backend> {
    if provider == "mymemory"@ {
        Some(Backend::MyMemory)
    } else if provider == "ai"@ {
        if trim(ai_key).len() == 0 {
            Some(Backend::MyMemory)
        } else {
            Some(Backend::Ai)
        }
    } else if provider == "libre"@ {
        Some(Backend::Libre)
    } else if provider == "google"@ {
        Some(Backend::Google)
    } else {
        None
    }
}

/// Whether the AI provider is selected but has no key, so MyMemory stands in.
pub open spec fn falls_back(provider: Seq<char>, ai_key: Seq<char>) -> bool {
    provider == "ai"@ && trim(ai_key).len() == 0
}

/// The warning given when MyMemory stands in for the AI provider.
pub open spec fn fallback_warning() -> Seq<char> {
    "no AI key set \u{2014} used the free MyMemory engine instead; put your key in ai_key (see `ai-translate config-path`)"@
}

/// The piece for one chunk: blank chunks are kept, others are asked for.
pub open spec fn is_piece_for(p: Piece, backend: Backend, cfg: Config, src: Seq<char>, tgt: Seq<char>, chunk: Seq<char>) -> bool {
    if is_blank(chunk) {
        p matches Piece::Keep(s) && s@ == chunk
    } else {
        p matches Piece::Ask(r) && is_request_for(backend, cfg, src, tgt, chunk, r)
    }
}

/// `p` translates the (trimmed, non-empty) text `t` with `p.backend`: one
/// request for the whole text, or, for a capped backend and a text of several
/// chunks, one piece per chunk.
pub open spec fn is_plan_for(p: TranslatePlan, cfg: Config, t: Seq<char>) -> bool {
    let (src, tgt) = resolved_langs(cfg.source_lang@, cfg.target_lang@, t);
    let chunks = chunks_of(t, chunk_limit(p.backend));
    if !is_chunked(p.backend) || chunks.len() <= 1 {
        &&& p.whole
        &&& p.pieces@.len() == 1
        &&& p.pieces@[0] matches Piece::Ask(r) && is_request_for(p.backend, cfg, src, tgt, t, r)
    } else {
        &&& !p.whole
        &&& p.pieces@.len() == chunks.len()
        &&& forall|i: int|
            0 <= i < chunks.len() ==> is_piece_for(
                #[trigger] p.pieces@[i],
                p.backend,
                cfg,
                src,
                tgt,
                chunks[i],
            )
    }
}

/// What planning gives: nothing to ask for blank text; an unknown provider or
/// (given `proxy_ok` false) an unusable proxy is refused; otherwise the plan.
pub open spec fn is_plan_result(r: Result<TranslatePlan, TranslateError>, cfg: Config, text: Seq<char>, proxy_ok: bool) -> bool {
    let t = trim(text);
    if t.len() == 0 {
        r matches Ok(p) && p.pieces@.len() == 0 && !p.whole && p.warning is None
    } else {
        match backend_for(cfg.provider@, cfg.ai_key@) {
            None => r matches Err(e) && e@ == ErrorView::UnknownProvider(cfg.provider@),
            Some(b) => if !proxy_ok {
                r matches Err(e) && e@ == ErrorView::InvalidProxy(trim(cfg.proxy_url@))
            } else {
                &&& r matches Ok(p)
                &&& p.backend == b
                &&& is_plan_for(p, cfg, t)
                &&& (p.warning is Some <==> falls_back(cfg.provider@, cfg.ai_key@))
                &&& (p.warning matches Some(w) ==> w@ == fallback_warning())
            },
        }
    }
}

fn pieces_for_chunks(backend: &Backend, cfg: &Config, src: &String, tgt: &String, chunks: &Vec<String>) -> (pieces: Vec<Piece>)
    ensures
        pieces@.len() == chunks@.len(),
        forall|i: int|
            0 <= i < chunks@.len() ==> is_piece_for(
                #[trigger] pieces@[i],
                *backend,
                *cfg,
                src@,
                tgt@,
                chunks@[i]@,
            ),
{
    let mut pieces: Vec<Piece> = Vec::new();
    let mut i: usize = 0;
    while i < chunks.len()
        invariant
            0 <= i <= chunks.len(),
            pieces@.len() == i,
            forall|k: int|
                0 <= k < i ==> is_piece_for(
                    #[trigger] pieces@[k],
                    *backend,
                    *cfg,
                    src@,
                    tgt@,
                    chunks@[k]@,
                ),
        decreases chunks.len() - i,
    {
        let cv = chars_of(chunks[i].as_str());
        let blank = blank_range(&cv, 0, cv.len());
        assert(cv@.subrange(0, cv@.len() as int) =~= cv@);
        if blank {
            pieces.push(Piece::Keep(copy_string(&chunks[i])));
        } else {
            pieces.push(Piece::Ask(request_for(backend, cfg, src, tgt, copy_string(&chunks[i]))));
        }
        i = i + 1;
    }
    pieces
}

fn select_backend(cfg: &Config) -> (r: Option<Backend>)
    ensures
        r == backend_for(cfg.provider@, cfg.ai_key@),
{
    let p = cfg.provider.as_str();
    if str_eq(p, "mymemory") {
        Some(Backend::MyMemory)
    } else if str_eq(p, "ai") {
        if trimmed(&cfg.ai_key).as_str().is_empty() {
            Some(Backend::MyMemory)
        } else {
            Some(Backend::Ai)
        }
    } else if str_eq(p, "libre") {
        Some(Backend::Libre)
    } else if str_eq(p, "google") {
        Some(Backend::Google)
    } else {
        None
    }
}

/// Plan the translation of `text` with `cfg`, given whether the configured
/// proxy (when one is set) is usable.
pub fn plan_translation(cfg: &Config, text: &str, proxy_ok: bool) -> (r: Result<TranslatePlan, TranslateError>)
    ensures
        is_plan_result(r, *cfg, text@, proxy_ok),
{
    let tv = chars_of(text);
    let (b, e) = trim_bounds(&tv, 0, tv.len());
    assert(tv@.subrange(0, tv@.len() as int) =~= tv@);
    if b == e {
        return Ok(
            TranslatePlan { backend: Backend::MyMemory, whole: false, pieces: Vec::new(), warning: None },
        );
    }
    let t = string_of(&tv, b, e);
    let backend = match select_backend(cfg) {
        Some(bk) => bk,
        None => {
            return Err(TranslateError::UnknownProvider(copy_string(&cfg.provider)));
        },
    };
    if !proxy_ok {
        return Err(TranslateError::InvalidProxy(trimmed(&cfg.proxy_url)));
    }
    let warning = if str_eq(cfg.provider.as_str(), "ai") && trimmed(&cfg.ai_key).as_str().is_empty() {
        Some(owned("no AI key set \u{2014} used the free MyMemory engine instead; put your key in ai_key (see `ai-translate config-path`)"))
    } else {
        None
    };
    let (src, tgt) = resolve_langs(cfg, t.as_str());
    let limit: usize = match backend {
        Backend::MyMemory => 480,
        Backend::Google => 1500,
        _ => 0,
    };
    let chunked = match backend {
        Backend::MyMemory => true,
        Backend::Google => true,
        _ => false,
    };
    if chunked {
        let chunks = chunk_text(t.as_str(), limit);
        if chunks.len() > 1 {
            let pieces = pieces_for_chunks(&backend, cfg, &src, &tgt, &chunks);
            return Ok(TranslatePlan { backend, whole: false, pieces, warning });
        }
    }
    let request = request_for(&backend, cfg, &src, &tgt, copy_string(&t));
    let mut pieces: Vec<Piece> = Vec::new();
    pieces.push(Piece::Ask(request));
    Ok(TranslatePlan { backend, whole: true, pieces, warning })
}

// ---------- the proxy ----------

/// Whether `ureq::Proxy::new` builds a proxy from the text `url`.
pub uninterp spec fn proxy_accepted(url: Seq<char>) -> bool;

/// Calls `ureq::Proxy::new(url)` and reports whether it gave a proxy. The
/// contract names the answer, a function of the text alone, without stating
/// which texts the URI parser accepts.
#[verifier::external_body]
fn proxy_is_valid(url: &str) -> (r: bool)
    ensures
        r == proxy_accepted(url@),
{
    ureq::Proxy::new(url).is_ok()
}

/// Whether the configured proxy can be used: none is set, or it is a proxy URL.
pub open spec fn proxy_usable(proxy_url: Seq<char>) -> bool {
    trim(proxy_url).len() == 0 || proxy_accepted(trim(proxy_url))
}

/// The proxy that every request goes through, if one is configured.
pub fn proxy_setting(cfg: &Config) -> (r: Option<String>)
    ensures
        r is Some <==> trim(cfg.proxy_url@).len() > 0,
        r matches Some(p) ==> p@ == trim(cfg.proxy_url@),
{
    let p = trimmed(&cfg.proxy_url);
    if p.as_str().is_empty() {
        None
    } else {
        Some(p)
    }
}

/// Plan the translation of `text` with the provider configured in `cfg`.
pub fn translate(cfg: &Config, text: &str) -> (r: Result<TranslatePlan, TranslateError>)
    ensures
        is_plan_result(r, *cfg, text@, proxy_usable(cfg.proxy_url@)),
{
    let proxy = trimmed(&cfg.proxy_url);
    let ok = proxy.as_str().is_empty() || proxy_is_valid(proxy.as_str());
    plan_translation(cfg, text, ok)
}

// ---------- assembling the result ----------

/// How many pieces of `pieces` are requests.
pub open spec fn ask_count(pieces: Seq<Piece>) -> nat
    decreases pieces.len(),
{
    if pieces.len() == 0 {
        0
    } else {
        ask_count(pieces.drop_last()) + if pieces.last() is Ask {
            1nat
        } else {
            0nat
        }
    }
}

/// The pieces with the answers put in place of the requests, in order:
/// `(true, text)` for kept text, `(false, answer)` for a translation.
pub open spec fn parts_of(pieces: Seq<Piece>, answers: Seq<Seq<char>>) -> Seq<(bool, Seq<char>)>
    decreases pieces.len(),
{
    if pieces.len() == 0 {
        Seq::empty()
    } else {
        match pieces.last() {
            Piece::Keep(s) => parts_of(pieces.drop_last(), answers).push((true, s@)),
            Piece::Ask(_) => parts_of(pieces.drop_last(), answers.drop_last()).push(
                (false, answers.last()),
            ),
        }
    }
}

/// `s` followed by a space unless it already ends with a space or a newline.
pub open spec fn spaced(s: Seq<char>) -> Seq<char> {
    if s.len() > 0 && (s.last() == '\n' || s.last() == ' ') {
        s
    } else {
        s.push(' ')
    }
}

/// Kept text as it is; each translation without its trailing whitespace and
/// followed by a separating space.
pub open spec fn join_parts(parts: Seq<(bool, Seq<char>)>) -> Seq<char>
    decreases parts.len(),
{
    if parts.len() == 0 {
        Seq::empty()
    } else {
        let out = join_parts(parts.drop_last());
        if parts.last().0 {
            out + parts.last().1
        } else {
            spaced(out + trim_end(parts.last().1))
        }
    }
}

/// The translated text: the single answer when the whole text went in one
/// request, else the joined parts without trailing whitespace.
pub open spec fn assembled(whole: bool, pieces: Seq<Piece>, answers: Seq<Seq<char>>) -> Seq<char> {
    if whole {
        answers[0]
    } else {
        trim_end(join_parts(parts_of(pieces, answers)))
    }
}

/// A finished translation.
pub struct Translation {
    pub text: String,
    /// Set when another backend stood in for the configured one.
    pub warning: Option<String>,
}

impl TranslatePlan {
    /// The number of requests to make.
    pub fn asks(&self) -> (n: usize)
        ensures
            n == ask_count(self.pieces@),
    {
        let mut n: usize = 0;
        let mut i: usize = 0;
        while i < self.pieces.len()
            invariant
                0 <= i <= self.pieces.len(),
                n == ask_count(self.pieces@.take(i as int)),
                n <= i,
            decreases self.pieces.len() - i,
        {
            assert(self.pieces@.take(i + 1).drop_last() =~= self.pieces@.take(i as int));
            match &self.pieces[i] {
                Piece::Ask(_) => {
                    n = n + 1;
                },
                Piece::Keep(_) => {},
            }
            i = i + 1;
        }
        assert(self.pieces@.take(self.pieces@.len() as int) =~= self.pieces@);
        n
    }

    /// The translation, from the answers to the requests in order.
    pub fn finish(self, answers: Vec<String>) -> (t: Translation)
        requires
            answers@.len() == ask_count(self.pieces@),
            self.whole ==> answers@.len() > 0,
        ensures
            t.text@ == assembled(self.whole, self.pieces@, texts(answers@)),
            t.warning == self.warning,
    {
        let ghost a = texts(answers@);
        if self.whole {
            let text = copy_string(&answers[0]);
            return Translation { text, warning: self.warning };
        }
        let n_answers = answers.len();
        let mut out = String::new();
        let mut last: Option<char> = None;
        let mut k: usize = 0;
        let mut i: usize = 0;
        while i < self.pieces.len()
            invariant
                0 <= i <= self.pieces.len(),
                a == texts(answers@),
                k == ask_count(self.pieces@.take(i as int)),
                k <= answers@.len() == ask_count(self.pieces@),
                n_answers == answers@.len(),
                out@ == join_parts(parts_of(self.pieces@.take(i as int), a.take(k as int))),
                last == (if out@.len() > 0 {
                    Some(out@.last())
                } else {
                    None::<char>
                }),
            decreases self.pieces.len() - i,
        {
            proof {
                assert(self.pieces@.take(i + 1).drop_last() =~= self.pieces@.take(i as int));
                lemma_ask_count_prefix(self.pieces@, i as int);
            }
            assert(self.pieces@.take(i + 1).last() == self.pieces@[i as int]);
            let ghost prev = out@;
            match &self.pieces[i] {
                Piece::Keep(s) => {
                    let v = chars_of(s.as_str());
                    push_str(&mut out, s.as_str());
                    if v.len() > 0 {
                        last = Some(v[v.len() - 1]);
                    }
                    proof {
                        if v@.len() > 0 {
                            assert(out@.last() == v@.last());
                        } else {
                            assert(out@ =~= prev);
                        }
                        assert(parts_of(self.pieces@.take(i + 1), a.take(k as int)) == parts_of(
                            self.pieces@.take(i as int),
                            a.take(k as int),
                        ).push((true, s@)));
                        let ps = parts_of(self.pieces@.take(i + 1), a.take(k as int));
                        assert(ps.drop_last() =~= parts_of(self.pieces@.take(i as int), a.take(k as int)));
                    }
                },
                Piece::Ask(_) => {
                    assert(self.pieces@[i as int] is Ask);
                    assert(k < n_answers);
                    assert(a.take(k + 1).drop_last() =~= a.take(k as int));
                    assert(a.take(k + 1).last() == a[k as int]);
                    assert(a[k as int] == answers@[k as int]@);
                    let v = chars_of(answers[k].as_str());
                    let e = trim_end_index(&v, 0, v.len());
                    assert(v@.subrange(0, v@.len() as int) =~= v@);
                    let t = string_of(&v, 0, e);
                    push_str(&mut out, t.as_str());
                    if e > 0 {
                        last = Some(v[e - 1]);
                    }
                    let ghost mid = out@;
                    proof {
                        assert(mid == prev + trim_end(a[k as int]));
                        if e > 0 {
                            assert(mid.last() == v@[e - 1]);
                        } else {
                            assert(mid =~= prev);
                        }
                    }
                    let ends_well = match last {
                        Some(c) => c == '\n' || c == ' ',
                        None => false,
                    };
                    if !ends_well {
                        out.push(' ');
                        last = Some(' ');
                    }
                    proof {
                        assert(out@ == spaced(mid));
                        let ps = parts_of(self.pieces@.take(i + 1), a.take(k + 1));
                        assert(ps == parts_of(self.pieces@.take(i as int), a.take(k as int)).push(
                            (false, a[k as int]),
                        ));
                        assert(ps.drop_last() =~= parts_of(self.pieces@.take(i as int), a.take(k as int)));
                        assert(ps.last() == (false, a[k as int]));
                    }
                    k = k + 1;
                },
            }
            i = i + 1;
        }
        assert(self.pieces@.take(self.pieces@.len() as int) =~= self.pieces@);
        assert(a.take(k as int) =~= a);
        let ov = chars_of(out.as_str());
        let e = trim_end_index(&ov, 0, ov.len());
        assert(ov@.subrange(0, ov@.len() as int) =~= ov@);
        Translation { text: string_of(&ov, 0, e), warning: self.warning }
    }
}

proof fn lemma_ask_count_prefix(pieces: Seq<Piece>, i: int)
    requires
        0 <= i < pieces.len(),
    ensures
        ask_count(pieces.take(i)) + (if pieces[i] is Ask {
            1int
        } else {
            0int
        }) <= ask_count(pieces),
    decreases pieces.len() - i,
{
    if i + 1 < pieces.len() {
        lemma_ask_count_prefix(pieces, i + 1);
        assert(pieces.take(i + 2).drop_last() =~= pieces.take(i + 1));
        assert(pieces.take(i + 1).drop_last() =~= pieces.take(i));
        lemma_ask_count_le(pieces.take(i + 1), pieces, i + 1);
    } else {
        assert(pieces.drop_last() =~= pieces.take(i));
    }
}

proof fn lemma_ask_count_le(prefix: Seq<Piece>, pieces: Seq<Piece>, n: int)
    requires
        0 <= n <= pieces.len(),
        prefix == pieces.take(n),
    ensures
        ask_count(prefix) <= ask_count(pieces),
    decreases pieces.len() - n,
{
    if n < pieces.len() {
        lemma_ask_count_le(pieces.take(n + 1), pieces, n + 1);
        assert(pieces.take(n + 1).drop_last() =~= pieces.take(n));
    } else {
        assert(pieces.take(n) =~= pieces);
    }
}

// ---------- messages ----------

/// The message of an error, as the user sees it (a JSON payload, if any, follows it).
pub open spec fn error_message(e: ErrorView) -> Seq<char> {
    match e {
        ErrorView::UnknownProvider(p) => "unknown provider '"@ + p + "'"@,
        ErrorView::InvalidProxy(p) => "invalid proxy_url '"@ + p
            + "' (use http://host:port or socks5://host:port)"@,
        ErrorView::RequestFailed { backend, url, cause } => match backend {
            Backend::MyMemory => "MyMemory request failed (check network)"@,
            Backend::Ai => "AI request to "@ + url + " failed"@,
            Backend::Libre => "LibreTranslate request failed"@,
            Backend::Google => "Google translate request failed \u{2014} it's blocked on this network. Set `proxy_url` in config (e.g. http://127.0.0.1:7890) to route through a VPN/proxy."@,
        },
        ErrorView::ResponseUnreadable { backend, cause } => match backend {
            Backend::MyMemory => "reading MyMemory response"@,
            Backend::Ai => "reading AI response"@,
            Backend::Libre => "reading LibreTranslate response"@,
            Backend::Google => "reading Google response"@,
        },
        ErrorView::ResponseNotJson { cause } => "parsing Google JSON"@,
        ErrorView::MyMemoryRejected { status, detail } => "MyMemory error ("@ + decimal_of(
            status as int,
        ) + "): "@ + detail,
        ErrorView::AiRejected(m) => "AI provider error: "@ + m,
        ErrorView::AiUnexpected(_) => "unexpected AI response: "@,
        ErrorView::LibreRejected(_) => "LibreTranslate error: "@,
        ErrorView::GoogleUnexpected => "unexpected Google response shape"@,
    }
}

fn concat3(a: &str, b: &str, c: &str) -> (r: String)
    ensures
        r@ == a@ + b@ + c@,
{
    let mut r = owned(a);
    push_str(&mut r, b);
    push_str(&mut r, c);
    r
}

impl TranslateError {
    /// The message shown for this error.
    pub fn message(&self) -> (r: String)
        ensures
            r@ == error_message(self@),
    {
        match self {
            TranslateError::UnknownProvider(p) => concat3("unknown provider '", p.as_str(), "'"),
            TranslateError::InvalidProxy(p) => concat3(
                "invalid proxy_url '",
                p.as_str(),
                "' (use http://host:port or socks5://host:port)",
            ),
            TranslateError::RequestFailed { backend, url, cause } => match backend {
                Backend::MyMemory => owned("MyMemory request failed (check network)"),
                Backend::Ai => concat3("AI request to ", url.as_str(), " failed"),
                Backend::Libre => owned("LibreTranslate request failed"),
                Backend::Google => owned(
                    "Google translate request failed \u{2014} it's blocked on this network. Set `proxy_url` in config (e.g. http://127.0.0.1:7890) to route through a VPN/proxy.",
                ),
            },
            TranslateError::ResponseUnreadable { backend, cause } => match backend {
                Backend::MyMemory => owned("reading MyMemory response"),
                Backend::Ai => owned("reading AI response"),
                Backend::Libre => owned("reading LibreTranslate response"),
                Backend::Google => owned("reading Google response"),
            },
            TranslateError::ResponseNotJson { cause } => owned("parsing Google JSON"),
            TranslateError::MyMemoryRejected { status, detail } => {
                let mut r = owned("MyMemory error (");
                push_str(&mut r, decimal(*status).as_str());
                push_str(&mut r, "): ");
                push_str(&mut r, detail.as_str());
                r
            },
            TranslateError::AiRejected(m) => {
                let mut r = owned("AI provider error: ");
                push_str(&mut r, m.as_str());
                r
            },
            TranslateError::AiUnexpected(_) => owned("unexpected AI response: "),
            TranslateError::LibreRejected(_) => owned("LibreTranslate error: "),
            TranslateError::GoogleUnexpected => owned("unexpected Google response shape"),
        }
    }

    /// The underlying cause, for errors that wrap one.
    pub fn cause(&self) -> (r: Option<&String>)
        ensures
            match r {
                Some(c) => match self@ {
                    ErrorView::RequestFailed { cause, .. } => cause == c@,
                    ErrorView::ResponseUnreadable { cause, .. } => cause == c@,
                    ErrorView::ResponseNotJson { cause } => cause == c@,
                    _ => false,
                },
                None => !(self@ is RequestFailed || self@ is ResponseUnreadable
                    || self@ is ResponseNotJson),
            },
    {
        match self {
            TranslateError::RequestFailed { cause, .. } => Some(cause),
            TranslateError::ResponseUnreadable { cause, .. } => Some(cause),
            TranslateError::ResponseNotJson { cause } => Some(cause),
            _ => None,
        }
    }

    /// The JSON that an unexpected answer held, shown after the message.
    pub fn payload(&self) -> (r: Option<&Json>)
        ensures
            match r {
                Some(v) => self@ == ErrorView::AiUnexpected(*v) || self@ == ErrorView::LibreRejected(*v),
                None => !(self@ is AiUnexpected || self@ is LibreRejected),
            },
    {
        match self {
            TranslateError::AiUnexpected(v) => Some(v),
            TranslateError::LibreRejected(v) => Some(v),
            _ => None,
        }
    }
}

// ---------- laws ----------

/// Blank text needs no request and translates to the empty text, whatever the
/// provider or proxy.
pub proof fn law_blank_text(r: Result<TranslatePlan, TranslateError>, cfg: Config, text: Seq<char>, proxy_ok: bool)
    requires
        is_plan_result(r, cfg, text, proxy_ok),
        trim(text).len() == 0,
    ensures
        r matches Ok(p) && ask_count(p.pieces@) == 0 && assembled(p.whole, p.pieces@, Seq::empty())
            == Seq::<char>::empty(),
{
    let p = r->Ok_0;
    assert(parts_of(p.pieces@, Seq::empty()) =~= Seq::<(bool, Seq<char>)>::empty());
    assert(trim_end(Seq::<char>::empty()) == Seq::<char>::empty());
}

/// Until an AI key is set, the "ai" provider falls back to the free MyMemory
/// engine, with a warning.
pub proof fn law_ai_without_key_uses_mymemory(r: Result<TranslatePlan, TranslateError>, cfg: Config, text: Seq<char>)
    requires
        is_plan_result(r, cfg, text, true),
        cfg.provider@ == "ai"@,
        trim(cfg.ai_key@).len() == 0,
        trim(text).len() > 0,
    ensures
        r matches Ok(p) && p.backend == Backend::MyMemory && (p.warning matches Some(w) && w@
            == fallback_warning()),
{
}

/// A text that goes in one request is translated by that request's answer as it is.
pub proof fn law_whole_text_answer(pieces: Seq<Piece>, answer: Seq<char>)
    ensures
        assembled(true, pieces, seq![answer]) == answer,
{
}

/// A chunked plan asks for every part of the text exactly once and in order:
/// its chunks put together give the text, and each stays within the
/// backend's limit (or is a single character).
pub proof fn law_plan_covers_text(p: TranslatePlan, cfg: Config, t: Seq<char>)
    requires
        is_plan_for(p, cfg, t),
        !p.whole,
    ensures
        is_chunked(p.backend),
        p.pieces@.len() == chunks_of(t, chunk_limit(p.backend)).len(),
        is_bounded_split(t, chunks_of(t, chunk_limit(p.backend)), chunk_limit(p.backend)),
{
    lemma_chunks_of(t, chunk_limit(p.backend));
}

/// MyMemory's answer is accepted exactly when its status is 200 and it holds a
/// non-empty translation, which is then the result.
pub proof fn law_mymemory_acceptance(url: Seq<char>, v: Json)
    ensures
        reply_outcome(Backend::MyMemory, url, Reply::Body(v)) is Ok <==> (mymemory_status(v) == 200
            && mymemory_text(v).len() > 0),
        reply_outcome(Backend::MyMemory, url, Reply::Body(v)) matches Ok(s) ==> s
            == mymemory_text(v),
{
}

/// A MyMemory answer is a translation only when its `responseStatus` field is
/// the integer 200; with any other status, or none, it is refused with that
/// status (0 when there is none) and its `responseDetails` (or "unknown
/// error"), whatever `/responseData/translatedText` holds. An accepted answer
/// is that text, and it is never empty.
pub proof fn law_mymemory_status_decides(url: Seq<char>, v: Json)
    ensures
        reply_outcome(Backend::MyMemory, url, Reply::Body(v)) is Ok ==> int_of(
            field_of(v, "responseStatus"@),
        ) == Some(200i64),
        int_of(field_of(v, "responseStatus"@)) != Some(200i64) ==> reply_outcome(
            Backend::MyMemory,
            url,
            Reply::Body(v),
        ) == Err::<Seq<char>, ErrorView>(
            ErrorView::MyMemoryRejected {
                status: match int_of(field_of(v, "responseStatus"@)) {
                    Some(n) => n,
                    None => 0i64,
                },
                detail: match field_of(v, "responseDetails"@) {
                    Some(Json::Str(d)) => d@,
                    _ => "unknown error"@,
                },
            },
        ),
        reply_outcome(Backend::MyMemory, url, Reply::Body(v)) matches Ok(s) ==> (s.len() > 0
            && (step_of(v, "responseData"@) matches Some(d) && (step_of(d, "translatedText"@) matches Some(
            Json::Str(t),
        ) && t@ == s))),
        int_of(field_of(v, "responseStatus"@)) == Some(200i64) && (step_of(v, "responseData"@) matches Some(d)
            && (step_of(d, "translatedText"@) matches Some(Json::Str(t)) && t@.len() > 0))
            ==> reply_outcome(Backend::MyMemory, url, Reply::Body(v)) is Ok,
{
}

proof fn lemma_trim_end_last(s: Seq<char>)
    ensures
        trim_end(s).len() > 0 ==> !is_ws(trim_end(s).last()),
        trim_end(trim_end(s)) == trim_end(s),
    decreases s.len(),
{
    if s.len() > 0 && is_ws(s.last()) {
        lemma_trim_end_last(s.drop_last());
    }
}

proof fn lemma_trim_end_space(s: Seq<char>)
    ensures
        trim_end(s.push(' ')) == trim_end(s),
{
    assert(s.push(' ').drop_last() =~= s);
    assert(is_ws(' '));
}

/// In a chunked plan, a translation whose text has something left after its
/// trailing whitespace is taken off enters the result without that whitespace
/// and followed by exactly one space; kept text enters it unchanged.
pub proof fn law_answer_followed_by_space(parts: Seq<(bool, Seq<char>)>, answer: Seq<char>, kept: Seq<char>)
    ensures
        trim_end(answer).len() > 0 ==> join_parts(parts.push((false, answer))) == join_parts(
            parts,
        ) + trim_end(answer) + seq![' '],
        join_parts(parts.push((true, kept))) == join_parts(parts) + kept,
{
    let ps = parts.push((false, answer));
    assert(ps.drop_last() =~= parts);
    let qs = parts.push((true, kept));
    assert(qs.drop_last() =~= parts);
    lemma_trim_end_last(answer);
}

/// The parts of a plan follow its pieces: a request adds its answer, kept
/// text adds itself, in the order of the pieces.
pub proof fn law_parts_follow_pieces(pieces: Seq<Piece>, answers: Seq<Seq<char>>, r: HttpRequest, k: String, answer: Seq<char>)
    ensures
        parts_of(pieces.push(Piece::Ask(r)), answers.push(answer)) == parts_of(pieces, answers).push(
            (false, answer),
        ),
        parts_of(pieces.push(Piece::Keep(k)), answers) == parts_of(pieces, answers).push((true, k@)),
{
    assert(pieces.push(Piece::Ask(r)).drop_last() =~= pieces);
    assert(answers.push(answer).drop_last() =~= answers);
    assert(pieces.push(Piece::Keep(k)).drop_last() =~= pieces);
}

/// Two translated chunks come out as the first answer and the second, each
/// without trailing whitespace, with one space between them (the second is
/// left out, space and all, when nothing of it is left).
pub proof fn law_two_answers(r1: HttpRequest, r2: HttpRequest, a: Seq<char>, b: Seq<char>)
    ensures
        assembled(false, seq![Piece::Ask(r1), Piece::Ask(r2)], seq![a, b]) == if trim_end(b).len()
            > 0 {
            trim_end(a) + seq![' '] + trim_end(b)
        } else {
            trim_end(a)
        },
{
    let pieces = seq![Piece::Ask(r1), Piece::Ask(r2)];
    let answers = seq![a, b];
    assert(pieces.drop_last() =~= seq![Piece::Ask(r1)]);
    assert(answers.drop_last() =~= seq![a]);
    assert(seq![Piece::Ask(r1)].drop_last() =~= Seq::<Piece>::empty());
    assert(seq![a].drop_last() =~= Seq::<Seq<char>>::empty());
    let p1 = parts_of(seq![Piece::Ask(r1)], seq![a]);
    assert(seq![Piece::Ask(r1)].last() == Piece::Ask(r1));
    assert(seq![a].last() == a);
    assert(parts_of(Seq::<Piece>::empty(), Seq::<Seq<char>>::empty()) == Seq::<(bool, Seq<char>)>::empty());
    assert(p1 == Seq::<(bool, Seq<char>)>::empty().push((false, a)));
    let p2 = parts_of(pieces, answers);
    assert(p2 == p1.push((false, b)));
    assert(p1.drop_last() =~= Seq::<(bool, Seq<char>)>::empty());
    assert(p2.drop_last() =~= p1);
    lemma_trim_end_last(a);
    lemma_trim_end_last(b);
    assert(Seq::<char>::empty() + trim_end(a) =~= trim_end(a));
    let j1 = join_parts(p1);
    assert(p1.last() == (false, a));
    assert(join_parts(Seq::<(bool, Seq<char>)>::empty()) == Seq::<char>::empty());
    assert(j1 == spaced(Seq::<char>::empty() + trim_end(a)));
    assert(j1 == trim_end(a).push(' '));
    let j2 = join_parts(p2);
    assert(j2 == spaced(j1 + trim_end(b)));
    if trim_end(b).len() > 0 {
        let x = trim_end(a) + seq![' '] + trim_end(b);
        assert(j1 + trim_end(b) =~= x);
        assert(x.last() == trim_end(b).last());
        assert(j2 == x.push(' '));
        lemma_trim_end_space(x);
        assert(trim_end(x) == x);
    } else {
        assert(j1 + trim_end(b) =~= j1);
        assert(j2 == j1);
        lemma_trim_end_space(trim_end(a));
    }
}

/// A request that could not be made, or whose reply could not be read, is an
/// error that carries the cause, for every backend; only Google's replies that
/// are not JSON are told apart.
pub proof fn law_failed_replies(backend: Backend, url: Seq<char>, cause: String)
    ensures
        reply_outcome(backend, url, Reply::Unreachable(cause)) == Err::<Seq<char>, ErrorView>(
            ErrorView::RequestFailed { backend, url, cause: cause@ },
        ),
        reply_outcome(backend, url, Reply::Unreadable(cause)) == Err::<Seq<char>, ErrorView>(
            ErrorView::ResponseUnreadable { backend, cause: cause@ },
        ),
        backend is Google ==> reply_outcome(backend, url, Reply::Malformed(cause)) == Err::<
            Seq<char>,
            ErrorView,
        >(ErrorView::ResponseNotJson { cause: cause@ }),
        !(backend is Google) ==> reply_outcome(backend, url, Reply::Malformed(cause)) == Err::<
            Seq<char>,
            ErrorView,
        >(ErrorView::ResponseUnreadable { backend, cause: cause@ }),
{
}

/// A chat reply with a string at `/choices/0/message/content` is that string
/// without surrounding whitespace, whatever else it holds; one with a string
/// at `/error/message` is, failing that, refused with that message.
pub proof fn law_ai_reply(url: Seq<char>, v: Json, c0: Json, c1: Json, m: Json, e: Json, content: String, msg: String)
    ensures
        step_of(v, "choices"@) == Some(c0) && step_of(c0, "0"@) == Some(c1) && step_of(
            c1,
            "message"@,
        ) == Some(m) && step_of(m, "content"@) == Some(Json::Str(content)) ==> reply_outcome(
            Backend::Ai,
            url,
            Reply::Body(v),
        ) == Ok::<Seq<char>, ErrorView>(trim(content@)),
        step_of(v, "error"@) == Some(e) && step_of(e, "message"@) == Some(Json::Str(msg)) ==> (
        reply_outcome(Backend::Ai, url, Reply::Body(v)) is Ok || reply_outcome(
            Backend::Ai,
            url,
            Reply::Body(v),
        ) == Err::<Seq<char>, ErrorView>(ErrorView::AiRejected(msg@))),
        reply_outcome(Backend::Ai, url, Reply::Body(v)) matches Ok(t) ==> exists|x: Json, y: Json, z: Json, w: String|
            #![trigger step_of(x, "0"@), step_of(y, "message"@), step_of(z, "content"@), trim(w@)]
            step_of(v, "choices"@) == Some(x) && step_of(x, "0"@) == Some(y) && step_of(y, "message"@)
                == Some(z) && step_of(z, "content"@) == Some(Json::Str(w)) && t == trim(w@),
{
    let r = reply_outcome(Backend::Ai, url, Reply::Body(v));
    if r is Ok {
        let x = step_of(v, "choices"@)->Some_0;
        let y = step_of(x, "0"@)->Some_0;
        let z = step_of(y, "message"@)->Some_0;
        let w = step_of(z, "content"@)->Some_0->Str_0;
        assert(step_of(z, "content"@) == Some(Json::Str(w)));
    }
}

/// LibreTranslate's reply is its `translatedText` member when that is a
/// string, and is refused as it came otherwise.
pub proof fn law_libre_reply(url: Seq<char>, v: Json)
    ensures
        reply_outcome(Backend::Libre, url, Reply::Body(v)) == match field_of(v, "translatedText"@) {
            Some(Json::Str(t)) => Ok::<Seq<char>, ErrorView>(t@),
            _ => Err(ErrorView::LibreRejected(v)),
        },
{
}

/// Google's reply is read from its first element, an array of segments: the
/// text of a run of segments is the texts of its parts one after the other,
/// and a segment gives the string it starts with (nothing when it starts with
/// no string). A reply without such an array is refused.
pub proof fn law_google_reply(url: Seq<char>, v: Json, a: Seq<Json>, b: Seq<Json>, seg: Json)
    ensures
        google_text(a + b) == google_text(a) + google_text(b),
        google_text(seq![seg]) == match item_of(seg, 0) {
            Some(Json::Str(t)) => t@,
            _ => Seq::<char>::empty(),
        },
        google_text(Seq::empty()) == Seq::<char>::empty(),
        !(item_of(v, 0) matches Some(Json::Array(_))) ==> reply_outcome(Backend::Google, url, Reply::Body(v))
            == Err::<Seq<char>, ErrorView>(ErrorView::GoogleUnexpected),
        item_of(v, 0) matches Some(Json::Array(segs)) ==> reply_outcome(Backend::Google, url, Reply::Body(v))
            == Ok::<Seq<char>, ErrorView>(google_text(segs@)),
    decreases b.len(),
{
    assert(seq![seg].drop_last() =~= Seq::<Json>::empty());
    assert(seq![seg].last() == seg);
    let g = match str_of(item_of(seg, 0)) {
        Some(t) => t,
        None => Seq::<char>::empty(),
    };
    assert(Seq::<char>::empty() + g =~= g);
    assert(google_text(Seq::<Json>::empty()) == Seq::<char>::empty());
    assert(google_text(seq![seg]) == google_text(seq![seg].drop_last()) + g);
    if b.len() == 0 {
        assert(a + b =~= a);
        assert(google_text(a) + Seq::<char>::empty() =~= google_text(a));
    } else {
        law_google_reply(url, v, a, b.drop_last(), seg);
        assert((a + b).drop_last() =~= a + b.drop_last());
        assert((a + b).last() == b.last());
    }
}

} // verus!
