use ai_translate::config::Config;
use ai_translate::json::Json;
use ai_translate::translate::{
    plan_translation, proxy_setting, read_reply, translate, Backend, HttpRequest, Method, Piece,
    Reply, TranslateError, TranslatePlan,
};

fn cfg(provider: &str) -> Config {
    let mut c = Config::default();
    c.provider = provider.to_string();
    c
}

fn obj(members: Vec<(&str, Json)>) -> Json {
    Json::Object(members.into_iter().map(|(k, v)| (k.to_string(), v)).collect())
}

fn s(t: &str) -> Json {
    Json::Str(t.to_string())
}

fn pairs(p: &[(String, String)]) -> Vec<(&str, &str)> {
    p.iter().map(|(k, v)| (k.as_str(), v.as_str())).collect()
}

fn only_request(plan: &TranslatePlan) -> &HttpRequest {
    assert!(plan.whole);
    assert_eq!(plan.pieces.len(), 1);
    match &plan.pieces[0] {
        Piece::Ask(r) => r,
        Piece::Keep(_) => panic!("expected a request"),
    }
}

#[test]
fn blank_text_needs_no_request() {
    let plan = translate(&cfg("no-such-provider"), "   \n ").ok().unwrap();
    assert!(plan.pieces.is_empty());
    assert_eq!(plan.asks(), 0);
    assert_eq!(plan.finish(vec![]).text, "");
}

#[test]
fn unknown_provider_is_refused() {
    match translate(&cfg("deepl"), "hi") {
        Err(e) => {
            assert!(matches!(e, TranslateError::UnknownProvider(ref p) if p == "deepl"));
            assert_eq!(e.message(), "unknown provider 'deepl'");
        }
        Ok(_) => panic!("expected an error"),
    }
}

#[test]
fn invalid_proxy_is_refused() {
    let mut c = cfg("mymemory");
    c.proxy_url = " ftp://127.0.0.1:21 ".to_string();
    match translate(&c, "hi") {
        Err(e) => {
            assert!(matches!(e, TranslateError::InvalidProxy(ref p) if p == "ftp://127.0.0.1:21"));
            assert_eq!(
                e.message(),
                "invalid proxy_url 'ftp://127.0.0.1:21' (use http://host:port or socks5://host:port)"
            );
        }
        Ok(_) => panic!("expected an error"),
    }
}

#[test]
fn valid_proxy_is_accepted() {
    let mut c = cfg("mymemory");
    c.proxy_url = "  http://127.0.0.1:7890 ".to_string();
    assert!(translate(&c, "hi").is_ok());
    assert_eq!(proxy_setting(&c).as_deref(), Some("http://127.0.0.1:7890"));
    c.proxy_url = "socks5://127.0.0.1:7891".to_string();
    assert!(translate(&c, "hi").is_ok());
    c.proxy_url = " ".to_string();
    assert_eq!(proxy_setting(&c), None);
    assert!(plan_translation(&c, "hi", false).is_err());
}

#[test]
fn mymemory_single_request() {
    let plan = translate(&cfg("mymemory"), "  hello world ").ok().unwrap();
    assert!(matches!(plan.backend, Backend::MyMemory));
    assert!(plan.warning.is_none());
    let r = only_request(&plan);
    assert!(matches!(r.method, Method::Get));
    assert_eq!(r.url, "https://api.mymemory.translated.net/get");
    assert_eq!(pairs(&r.query), vec![("q", "hello world"), ("langpair", "en|zh-CN")]);
    assert!(r.headers.is_empty());
    assert!(r.body.is_none());
}

#[test]
fn ai_without_key_falls_back_to_mymemory() {
    let mut c = cfg("ai");
    c.ai_key = "  ".to_string();
    let plan = translate(&c, "hello").ok().unwrap();
    assert!(matches!(plan.backend, Backend::MyMemory));
    assert!(plan.warning.as_deref().unwrap().starts_with("no AI key set"));
    let t = plan.finish(vec!["你好".to_string()]);
    assert_eq!(t.text, "你好");
    assert!(t.warning.is_some());
}

#[test]
fn ai_request() {
    let mut c = cfg("ai");
    c.ai_key = " sk-test ".to_string();
    c.ai_base_url = "https://api.example.com/v1//".to_string();
    c.ai_model = "m1".to_string();
    let plan = translate(&c, "hello").ok().unwrap();
    assert!(matches!(plan.backend, Backend::Ai));
    let r = only_request(&plan);
    assert!(matches!(r.method, Method::Post));
    assert_eq!(r.url, "https://api.example.com/v1/chat/completions");
    assert_eq!(
        pairs(&r.headers),
        vec![("Authorization", "Bearer sk-test"), ("Content-Type", "application/json")]
    );
    let body = match &r.body {
        Some(Json::Object(e)) => e,
        _ => panic!("expected an object body"),
    };
    assert_eq!(body[0].0, "model");
    assert!(matches!(&body[0].1, Json::Str(m) if m == "m1"));
    let msgs = match &body[1].1 {
        Json::Array(m) => m,
        _ => panic!("expected messages"),
    };
    let system = msgs[0].get("content").and_then(|x| x.as_text()).unwrap();
    assert_eq!(
        system,
        "You are a professional translator. Translate the user's text from English into Chinese (Simplified). Preserve meaning, tone, terminology and formatting. Output ONLY the translation — no quotes, no explanations, no notes, no romanization."
    );
    assert_eq!(msgs[1].get("role").and_then(|x| x.as_text()).unwrap(), "user");
    assert_eq!(msgs[1].get("content").and_then(|x| x.as_text()).unwrap(), "hello");
    assert!(matches!(&body[2].1, Json::Number(t) if t == "0.3"));
    assert!(matches!(&body[3].1, Json::Bool(false)));
}

#[test]
fn libre_request() {
    let mut c = cfg("libre");
    c.libre_url = "https://lt.example/".to_string();
    c.target_lang = "de-DE".to_string();
    let plan = translate(&c, "你好").ok().unwrap();
    let r = only_request(&plan);
    assert_eq!(r.url, "https://lt.example/translate");
    let body = match &r.body {
        Some(Json::Object(e)) => e,
        _ => panic!("expected an object body"),
    };
    let keys: Vec<&str> = body.iter().map(|(k, _)| k.as_str()).collect();
    assert_eq!(keys, vec!["q", "source", "target", "format"]);
    assert!(matches!(&body[1].1, Json::Str(v) if v == "zh"));
    assert!(matches!(&body[2].1, Json::Str(v) if v == "de"));
    c.libre_key = "k".to_string();
    let plan = translate(&c, "你好").ok().unwrap();
    let r = only_request(&plan);
    match &r.body {
        Some(Json::Object(e)) => {
            assert_eq!(e.len(), 5);
            assert_eq!(e[4].0, "api_key");
        }
        _ => panic!("expected an object body"),
    }
}

#[test]
fn google_request() {
    let mut c = cfg("google");
    c.source_lang = "fr".to_string();
    c.target_lang = "en".to_string();
    let plan = translate(&c, "bonjour").ok().unwrap();
    let r = only_request(&plan);
    assert_eq!(r.url, "https://translate.googleapis.com/translate_a/single");
    assert_eq!(
        pairs(&r.query),
        vec![("client", "gtx"), ("sl", "fr"), ("tl", "en"), ("dt", "t"), ("q", "bonjour")]
    );
}

#[test]
fn long_text_is_chunked_and_joined() {
    let sentence = "This sentence is exactly forty bytes ok.";
    assert_eq!(sentence.len(), 40);
    let text = format!("{}\n\n{}", sentence.repeat(12), sentence.repeat(12));
    let plan = translate(&cfg("mymemory"), &text).ok().unwrap();
    assert!(!plan.whole);
    let mut asks = 0;
    let mut answers = Vec::new();
    for p in &plan.pieces {
        match p {
            Piece::Ask(r) => {
                asks += 1;
                assert!(r.query[0].1.len() <= 480);
                answers.push(format!("T{}  ", asks));
            }
            Piece::Keep(k) => assert!(k.trim().is_empty()),
        }
    }
    assert_eq!(plan.asks(), asks);
    let t = plan.finish(answers);
    assert!(t.text.starts_with("T1 T2"));
    assert!(!t.text.ends_with(' '));
}

#[test]
fn joining_keeps_blank_chunks() {
    let unit = "a".repeat(479) + ".";
    let text = format!("{}\n{}", unit, unit);
    let plan = translate(&cfg("mymemory"), &text).ok().unwrap();
    assert_eq!(plan.pieces.len(), 3);
    assert!(matches!(&plan.pieces[1], Piece::Keep(k) if k == "\n"));
    let t = plan.finish(vec!["one ".to_string(), "two".to_string()]);
    assert_eq!(t.text, "one \ntwo");
}

#[test]
fn mymemory_replies() {
    let url = "u".to_string();
    let ok = obj(vec![
        ("responseStatus", Json::Number("200".to_string())),
        ("responseData", obj(vec![("translatedText", s("bonjour"))])),
    ]);
    assert_eq!(read_reply(Backend::MyMemory, &url, Reply::Body(ok)).ok().unwrap(), "bonjour");
    let as_text = obj(vec![
        ("responseStatus", s("200")),
        ("responseData", obj(vec![("translatedText", s("hola"))])),
    ]);
    assert_eq!(read_reply(Backend::MyMemory, &url, Reply::Body(as_text)).ok().unwrap(), "hola");
    let quota = obj(vec![
        ("responseStatus", Json::Number("429".to_string())),
        ("responseDetails", s("QUOTA EXCEEDED")),
    ]);
    let e = read_reply(Backend::MyMemory, &url, Reply::Body(quota)).err().unwrap();
    assert_eq!(e.message(), "MyMemory error (429): QUOTA EXCEEDED");
    let empty = obj(vec![]);
    let e = read_reply(Backend::MyMemory, &url, Reply::Body(empty)).err().unwrap();
    assert_eq!(e.message(), "MyMemory error (0): unknown error");
    let e = read_reply(Backend::MyMemory, &url, Reply::Unreachable("dns".to_string())).err().unwrap();
    assert_eq!(e.message(), "MyMemory request failed (check network)");
    assert_eq!(e.cause().map(|c| c.as_str()), Some("dns"));
    let e = read_reply(Backend::MyMemory, &url, Reply::Unreadable("eof".to_string())).err().unwrap();
    assert_eq!(e.message(), "reading MyMemory response");
}

#[test]
fn ai_replies() {
    let url = "https://api.example.com/v1/chat/completions".to_string();
    let ok = obj(vec![(
        "choices",
        Json::Array(vec![obj(vec![("message", obj(vec![("content", s("  你好 \n"))]))])]),
    )]);
    assert_eq!(read_reply(Backend::Ai, &url, Reply::Body(ok)).ok().unwrap(), "你好");
    let err = obj(vec![("error", obj(vec![("message", s("bad key"))]))]);
    let e = read_reply(Backend::Ai, &url, Reply::Body(err)).err().unwrap();
    assert_eq!(e.message(), "AI provider error: bad key");
    let odd = obj(vec![("x", Json::Null)]);
    let e = read_reply(Backend::Ai, &url, Reply::Body(odd)).err().unwrap();
    assert_eq!(e.message(), "unexpected AI response: ");
    assert!(e.payload().is_some());
    let e = read_reply(Backend::Ai, &url, Reply::Unreachable("timeout".to_string())).err().unwrap();
    assert_eq!(e.message(), "AI request to https://api.example.com/v1/chat/completions failed");
    let e = read_reply(Backend::Ai, &url, Reply::Unreadable("x".to_string())).err().unwrap();
    assert_eq!(e.message(), "reading AI response");
}

#[test]
fn libre_replies() {
    let url = "u".to_string();
    let ok = obj(vec![("translatedText", s("hallo"))]);
    assert_eq!(read_reply(Backend::Libre, &url, Reply::Body(ok)).ok().unwrap(), "hallo");
    let e = read_reply(Backend::Libre, &url, Reply::Body(obj(vec![("error", s("nope"))]))).err().unwrap();
    assert_eq!(e.message(), "LibreTranslate error: ");
    assert!(e.payload().is_some());
    let e = read_reply(Backend::Libre, &url, Reply::Unreachable("x".to_string())).err().unwrap();
    assert_eq!(e.message(), "LibreTranslate request failed");
    let e = read_reply(Backend::Libre, &url, Reply::Unreadable("x".to_string())).err().unwrap();
    assert_eq!(e.message(), "reading LibreTranslate response");
}

#[test]
fn google_replies() {
    let url = "u".to_string();
    let v = Json::Array(vec![
        Json::Array(vec![
            Json::Array(vec![s("Hello "), s("Bonjour ")]),
            Json::Array(vec![Json::Null]),
            Json::Array(vec![s("world")]),
        ]),
        Json::Null,
    ]);
    assert_eq!(read_reply(Backend::Google, &url, Reply::Body(v)).ok().unwrap(), "Hello world");
    let e = read_reply(Backend::Google, &url, Reply::Body(obj(vec![]))).err().unwrap();
    assert_eq!(e.message(), "unexpected Google response shape");
    let e = read_reply(Backend::Google, &url, Reply::Malformed("x".to_string())).err().unwrap();
    assert_eq!(e.message(), "parsing Google JSON");
    let e = read_reply(Backend::Google, &url, Reply::Unreadable("x".to_string())).err().unwrap();
    assert_eq!(e.message(), "reading Google response");
    let e = read_reply(Backend::Google, &url, Reply::Unreachable("x".to_string())).err().unwrap();
    assert!(e.message().starts_with("Google translate request failed — it's blocked on this network."));
}
