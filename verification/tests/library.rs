use std::sync::{Arc, Mutex};

use secure_lightclaw::adapters::telegram::TelegramAdapter as PollingStub;
use secure_lightclaw::agent::{Agent, AgentError};
use secure_lightclaw::benchmark::run_startup_benchmark;
use secure_lightclaw::channels::{ChannelAdapter, CliAdapter, WebhookAdapter};
use secure_lightclaw::config::{
    parse_bench_iterations, parse_flag, AppConfig, EnvSettings, LlmConfig, RuntimeConfig,
    TelegramConfig,
};
use secure_lightclaw::http::{http_ok_response, message_body, request_payload};
use secure_lightclaw::lc_core::{scheduler_start, xor_text, Core, SchedulerAction};
use secure_lightclaw::lc_provider::{LlmProvider as CoreProvider, LlmRequest, MockProvider, OpenAiProvider};
use secure_lightclaw::lc_sandbox::{extract_json_array, PluginManifest as WasmManifest, WasmSandbox};
use secure_lightclaw::lc_scheduler::ScheduledTask as CronTask;
use secure_lightclaw::memory::MemoryStore;
use secure_lightclaw::net::{
    parse_http_response, parse_http_url, render_http_request, HttpError, HttpRequest,
    HttpResponse, HttpTransport,
};
use secure_lightclaw::plugins::{
    is_manifest_vetted, ManifestPermission, PluginManifest, PluginRegistry, PluginSource,
};
use secure_lightclaw::policy::{Permission, Policy};
use secure_lightclaw::providers::{
    route_outcomes, ConfiguredEchoProvider, EchoProvider, LlmProvider, ProviderError,
    ProviderRequest, ProviderResponse, ProviderRouter,
};
use secure_lightclaw::registry::{artifact_stem, PluginRegistryService};
use secure_lightclaw::sandbox::{DenyByDefaultSandbox, SandboxError, ToolRequest, ToolSandbox};
use secure_lightclaw::scheduler::Scheduler;
use secure_lightclaw::telegram::{
    extract_json_number, extract_json_string, parse_updates, parse_webhook_message,
    webhook_incoming, TelegramAdapter, TelegramError, TelegramUpdate,
};
use secure_lightclaw::text::{chars_of, lines_chars, split_chars, trim_str, words_chars};
use secure_lightclaw::toml_config::{
    choose_provider, config_from_toml, parse_tasks, read_toml_value, ProviderChoice,
};
use secure_lightclaw::web::{parse_form_value, route_request, WebRoute};

fn text_of(v: &[char]) -> String {
    v.iter().collect()
}

fn echo_agent(perms: Vec<Permission>) -> Agent {
    let policy = match perms.len() {
        0 => Policy::allow_list([]),
        1 => Policy::allow_list([perms[0]]),
        2 => Policy::allow_list([perms[0], perms[1]]),
        _ => Policy::allow_list([perms[0], perms[1], perms[2]]),
    };
    let router = ProviderRouter::new(vec![Box::new(EchoProvider)]);
    Agent::new(policy, router, Box::new(DenyByDefaultSandbox))
}

// ---------------------------------------------------------------- text

#[test]
fn lines_drop_carriage_returns_and_final_newline() {
    let ls = lines_chars(&chars_of("a\r\nb\n\nc\r"));
    let got: Vec<String> = ls.iter().map(|l| text_of(l)).collect();
    assert_eq!(got, vec!["a", "b", "", "c\r"]);
    assert!(lines_chars(&chars_of("")).is_empty());
    assert_eq!(lines_chars(&chars_of("x\n")).len(), 1);
}

#[test]
fn split_keeps_empty_pieces() {
    let ps = split_chars(&chars_of("a,,b,"), &chars_of(","));
    let got: Vec<String> = ps.iter().map(|p| text_of(p)).collect();
    assert_eq!(got, vec!["a", "", "b", ""]);
}

#[test]
fn words_skip_runs_of_white_space() {
    let ws = words_chars(&chars_of("  */5 *\t*  * *\u{3000}"));
    let got: Vec<String> = ws.iter().map(|w| text_of(w)).collect();
    assert_eq!(got, vec!["*/5", "*", "*", "*", "*"]);
    assert_eq!(trim_str("\u{a0} x y \n"), "x y");
}

// ---------------------------------------------------------------- policy and plugins

#[test]
fn policy_allows_only_listed_permissions() {
    let policy = Policy::allow_list([Permission::Network, Permission::FileRead]);
    assert!(policy.allows(&Permission::Network));
    assert!(policy.allows(&Permission::FileRead));
    assert!(!policy.allows(&Permission::ToolExec));
    assert!(!Policy::allow_list([]).allows(&Permission::MemoryRead));
}

fn manifest(name: &str, caps: usize, perms: usize, source: PluginSource) -> PluginManifest {
    PluginManifest {
        name: name.to_string(),
        version: "1.0".to_string(),
        capabilities: (0..caps).map(|i| format!("cap{i}")).collect(),
        permissions: (0..perms).map(|_| ManifestPermission::Network).collect(),
        source,
    }
}

#[test]
fn vetting_limits_permissions_and_requires_fields() {
    assert!(is_manifest_vetted(&manifest("p", 1, 8, PluginSource::Local)));
    assert!(!is_manifest_vetted(&manifest("p", 1, 9, PluginSource::Local)));
    assert!(!is_manifest_vetted(&manifest("", 1, 0, PluginSource::Local)));
    assert!(!is_manifest_vetted(&manifest("p", 0, 0, PluginSource::Local)));
}

#[test]
fn registry_reports_why_it_rejects() {
    let mut registry = PluginRegistry::new(false);
    assert_eq!(
        registry.register(manifest("p", 1, 0, PluginSource::Unknown)),
        Err("plugin rejected: unknown source and auto install disabled".to_string())
    );
    assert_eq!(
        registry.register(manifest("p", 0, 0, PluginSource::Local)),
        Err("plugin rejected: manifest failed vetting".to_string())
    );
    assert!(registry.all().is_empty());
    let mut open = PluginRegistry::new(true);
    assert_eq!(open.register(manifest("p", 1, 0, PluginSource::Unknown)), Ok(()));
    assert_eq!(open.all().len(), 1);
}

#[test]
fn manifest_permissions_map_to_policy_permissions() {
    assert_eq!(Permission::from(&ManifestPermission::ToolExec), Permission::ToolExec);
    assert_eq!(Permission::from(&ManifestPermission::FileWrite), Permission::FileWrite);
}

// ---------------------------------------------------------------- memory

#[test]
fn memory_store_replaces_values() {
    let mut store = MemoryStore::default();
    assert_eq!(store.get("k"), None);
    store.put("k", "1");
    store.put("k", "2");
    store.put("j", "3");
    assert_eq!(store.get("k"), Some("2"));
    assert_eq!(store.get("j"), Some("3"));
}

#[test]
fn encrypted_store_round_trips() {
    let mut store = MemoryStore::default();
    store.put("a", "1");
    store.put("name", "x=y");
    store.put("", "empty key");
    let bytes = store.encrypted_bytes(7);
    assert_eq!(bytes[0], b'a' ^ 7);
    let loaded = MemoryStore::from_encrypted_bytes(&bytes, 7);
    assert_eq!(loaded.get("a"), Some("1"));
    assert_eq!(loaded.get("name"), Some("x=y"));
    assert_eq!(loaded.get(""), Some("empty key"));
}

#[test]
fn encrypted_bytes_are_the_enciphered_lines() {
    let mut store = MemoryStore::default();
    store.put("a", "1");
    store.put("b", "2");
    let plain: Vec<u8> = store.encrypted_bytes(0x20).iter().map(|b| b ^ 0x20).collect();
    assert_eq!(plain, b"a=1\nb=2".to_vec());
}

#[test]
fn loading_skips_lines_without_equals() {
    let bytes: Vec<u8> = b"junk\nk=v=w\r\nk2=".iter().map(|b| b ^ 3).collect();
    let loaded = MemoryStore::from_encrypted_bytes(&bytes, 3);
    assert_eq!(loaded.get("k"), Some("v=w"));
    assert_eq!(loaded.get("k2"), Some(""));
    assert_eq!(loaded.get("junk"), None);
}

// ---------------------------------------------------------------- scheduler

#[test]
fn task_fires_at_every_multiple_of_its_interval() {
    let mut scheduler = Scheduler::default();
    scheduler.add_task("t", 3, "p");
    let fired: Vec<bool> = (1..=9).map(|_| !scheduler.heartbeat().is_empty()).collect();
    assert_eq!(
        fired,
        vec![false, false, true, false, false, true, false, false, true]
    );
}

#[test]
fn zero_interval_counts_as_one() {
    let mut scheduler = Scheduler::default();
    scheduler.add_task("t", 0, "p");
    let due = scheduler.heartbeat();
    assert_eq!(due.len(), 1);
    assert_eq!(due[0].interval_ticks, 1);
    assert_eq!(due[0].next_tick, 1);
    assert_eq!(scheduler.heartbeat().len(), 1);
}

// ---------------------------------------------------------------- providers and sandbox

struct DownProvider;

impl LlmProvider for DownProvider {
    fn name(&self) -> &str {
        "down"
    }

    fn generate(
        &self,
        _request: &ProviderRequest,
    ) -> Result<ProviderResponse, ProviderError> {
        Err(ProviderError::Unavailable)
    }
}

#[test]
fn router_without_a_working_provider_is_unavailable() {
    let request = ProviderRequest {
        user_input: "x".to_string(),
        context: vec![],
    };
    assert!(matches!(
        ProviderRouter::new(vec![]).generate(&request),
        Err(ProviderError::Unavailable)
    ));
    assert!(matches!(
        ProviderRouter::new(vec![Box::new(DownProvider), Box::new(DownProvider)])
            .generate(&request),
        Err(ProviderError::Unavailable)
    ));
    assert_eq!(ProviderError::Unavailable.message(), "provider unavailable");
}

#[test]
fn routing_takes_the_first_success() {
    let ok = |m: &str| {
        Ok(ProviderResponse {
            output: m.to_string(),
            model: m.to_string(),
        })
    };
    let picked = route_outcomes(vec![Err(ProviderError::Unavailable), ok("a"), ok("b")]).unwrap();
    assert_eq!(picked.output, "a");
    assert!(matches!(route_outcomes(vec![]), Err(ProviderError::Unavailable)));
    assert!(matches!(
        route_outcomes(vec![Err(ProviderError::Unavailable)]),
        Err(ProviderError::Unavailable)
    ));
}

#[test]
fn echo_provider_marks_context() {
    let out = EchoProvider
        .generate(&ProviderRequest {
            user_input: "hi".to_string(),
            context: vec!["old".to_string()],
        })
        .unwrap();
    assert_eq!(out.output, "[ctx] hi");
    let p = ConfiguredEchoProvider::new("n", "m");
    assert_eq!(p.name(), "n");
    assert_eq!(p.generate(&ProviderRequest { user_input: "a".into(), context: vec![] }).unwrap().model, "m");
}

#[test]
fn sandbox_echoes_with_permission_and_rejects_unknown_tools() {
    let policy = Policy::allow_list([Permission::ToolExec]);
    let echo = ToolRequest {
        name: "echo".to_string(),
        args: vec!["a".to_string(), "b c".to_string()],
    };
    assert_eq!(DenyByDefaultSandbox.execute(&policy, &echo), Ok("a b c".to_string()));
    let other = ToolRequest {
        name: "rm".to_string(),
        args: vec![],
    };
    assert_eq!(
        DenyByDefaultSandbox.execute(&policy, &other),
        Err(SandboxError::ToolNotFound)
    );
}

// ---------------------------------------------------------------- agent

#[test]
fn agent_remembers_prompt_as_context() {
    let mut agent = echo_agent(vec![Permission::MemoryRead, Permission::MemoryWrite]);
    assert_eq!(agent.run_prompt("first").unwrap(), "first");
    assert_eq!(agent.run_prompt("second").unwrap(), "[ctx] second");
    let events = agent.audit_events();
    assert_eq!(events.len(), 2);
    assert_eq!(
        events[1].detail,
        "Generated response via echo-local with 0 plugins loaded"
    );
}

#[test]
fn agent_audits_skipped_memory_write() {
    let mut agent = echo_agent(vec![Permission::MemoryRead]);
    agent.run_prompt("first").unwrap();
    assert_eq!(agent.run_prompt("second").unwrap(), "second");
    let events = agent.audit_events();
    assert_eq!(events.len(), 4);
    assert_eq!(events[0].action, "memory_write");
    assert!(!events[0].allowed);
    assert_eq!(events[1].action, "provider_generate");
}

#[test]
fn agent_without_providers_fails_without_auditing() {
    let router = ProviderRouter::new(vec![]);
    let mut agent = Agent::new(
        Policy::allow_list([Permission::MemoryWrite]),
        router,
        Box::new(DenyByDefaultSandbox),
    );
    let err = agent.run_prompt("x").unwrap_err();
    assert!(matches!(err, AgentError::Provider(ProviderError::Unavailable)));
    assert_eq!(err.message(), "provider error: provider unavailable");
    assert!(agent.audit_events().is_empty());
}

#[test]
fn agent_runs_tools_under_policy() {
    let mut agent = echo_agent(vec![Permission::ToolExec]);
    let out = agent
        .run_tool("echo", &["x".to_string(), "y".to_string()])
        .unwrap();
    assert_eq!(out, "x y");
    assert_eq!(agent.audit_events()[0].action, "tool_exec:echo");
    let err = agent.run_tool("ls", &[]).unwrap_err();
    assert_eq!(err.message(), "sandbox error: ToolNotFound");
    let mut denied = echo_agent(vec![Permission::MemoryRead]);
    let err = denied.run_tool("echo", &[]).unwrap_err();
    assert!(matches!(err, AgentError::Sandbox(SandboxError::PermissionDenied)));
    assert!(denied.audit_events().is_empty());
}

#[test]
fn agent_answers_on_the_message_channel() {
    let mut agent = echo_agent(vec![]);
    let incoming = CliAdapter.normalize("u", "hey");
    assert_eq!(incoming.channel, "cli");
    let out = agent.handle_message(incoming).unwrap();
    assert_eq!(out.channel, "cli");
    assert_eq!(out.text, "hey");
    assert_eq!(WebhookAdapter.name(), "webhook");
    assert!(matches!(
        AgentError::from(SandboxError::PermissionDenied),
        AgentError::Sandbox(SandboxError::PermissionDenied)
    ));
}

// ---------------------------------------------------------------- config

fn config(enabled: bool, token: Option<&str>, chat: Option<&str>) -> AppConfig {
    AppConfig {
        llm: LlmConfig {
            provider: "echo-local".into(),
            model: "mock-1".into(),
            api_base: None,
            api_key: Some("secret-key".into()),
        },
        telegram: TelegramConfig {
            enabled,
            bot_token: token.map(|s| s.to_string()),
            chat_id: chat.map(|s| s.to_string()),
            webhook_url: None,
            api_base: None,
            polling_interval_ms: 1000,
        },
        runtime: RuntimeConfig {
            web_bind: "127.0.0.1:7878".into(),
            default_mode: "chat".into(),
            registry_path: "registry".into(),
            registry_secret: "hidden".into(),
            benchmark_iterations: 100,
        },
    }
}

#[test]
fn telegram_validation_names_the_missing_setting() {
    assert_eq!(config(false, None, None).validate_telegram(), Ok(()));
    assert_eq!(
        config(true, None, Some("1")).validate_telegram(),
        Err("telegram enabled but JARVIS_TELEGRAM_BOT_TOKEN is missing".to_string())
    );
    assert_eq!(
        config(true, Some("t"), None).validate_telegram(),
        Err("telegram enabled but JARVIS_TELEGRAM_CHAT_ID is missing".to_string())
    );
    assert_eq!(config(true, Some("t"), Some("1")).validate_telegram(), Ok(()));
}

#[test]
fn summary_leaves_out_secrets() {
    let s = config(true, Some("t"), Some("1")).redacted_summary();
    assert_eq!(
        s,
        "provider=echo-local model=mock-1 web_bind=127.0.0.1:7878 telegram_enabled=true registry_path=registry bench_iterations=100"
    );
    assert!(!s.contains("secret-key"));
    assert!(!s.contains("hidden"));
}

#[test]
fn flags_and_iteration_counts() {
    for on in ["1", "true", "TRUE", "yes", "on"] {
        assert!(parse_flag(on));
    }
    assert!(!parse_flag("True"));
    assert_eq!(parse_bench_iterations(None), 100);
    assert_eq!(parse_bench_iterations(Some("0")), 100);
    assert_eq!(parse_bench_iterations(Some("+7")), 7);
    assert_eq!(parse_bench_iterations(Some("12x")), 100);
    assert_eq!(parse_bench_iterations(Some("99999999999999999999999")), 100);
}

// ---------------------------------------------------------------- http, net, web

#[test]
fn ok_response_counts_bytes() {
    assert_eq!(
        http_ok_response("text/plain", "é"),
        "HTTP/1.1 200 OK\r\nContent-Type: text/plain\r\nContent-Length: 2\r\n\r\né"
    );
    assert_eq!(request_payload("POST / HTTP/1.1\r\n\r\n  hi \r\n\r\nrest"), "hi \r\n\r\nrest");
    assert_eq!(request_payload("no body"), "");
    assert_eq!(message_body("h\r\n\r\nbody\r\n\r\nmore"), "body");
}

#[test]
fn urls_split_into_host_port_and_path() {
    assert_eq!(
        parse_http_url("http://localhost:8081/bot1/getUpdates"),
        Ok(("localhost".to_string(), 8081, "/bot1/getUpdates".to_string()))
    );
    assert_eq!(
        parse_http_url("http://example.com"),
        Ok(("example.com".to_string(), 80, "/".to_string()))
    );
    assert_eq!(
        parse_http_url("http://h:99999/x"),
        Ok(("h".to_string(), 80, "/x".to_string()))
    );
    assert_eq!(parse_http_url("https://h/"), Err(HttpError::InvalidUrl));
}

#[test]
fn requests_render_and_responses_parse() {
    let request = HttpRequest {
        method: "POST".into(),
        url: "http://h/x".into(),
        headers: vec![("A".into(), "1".into())],
        body: "hi".into(),
    };
    assert_eq!(
        render_http_request(&request, "h", "/x"),
        "POST /x HTTP/1.1\r\nHost: h\r\nContent-Length: 2\r\nConnection: close\r\nA: 1\r\n\r\nhi"
    );
    let r = parse_http_response("HTTP/1.1 404 Not Found\r\nX: y\r\n\r\nnope").unwrap();
    assert_eq!(r.status_code, 404);
    assert_eq!(r.body, "nope");
    assert!(matches!(parse_http_response(""), Err(HttpError::InvalidResponse)));
    assert!(matches!(parse_http_response("HTTP/1.1"), Err(HttpError::InvalidResponse)));
    assert!(matches!(parse_http_response("HTTP/1.1 abc"), Err(HttpError::InvalidResponse)));
    assert_eq!(
        HttpError::Transport("a\"b".to_string()).debug_text(),
        "Transport(\"a\\\"b\")"
    );
    assert_eq!(HttpError::InvalidUrl.debug_text(), "InvalidUrl");
}

#[test]
fn web_routes_and_forms() {
    assert!(matches!(route_request("GET / HTTP/1.1\r\n\r\n"), WebRoute::Page));
    assert!(matches!(route_request("GET /x HTTP/1.1"), WebRoute::NotFound));
    match route_request("POST /chat HTTP/1.1\r\n\r\nuser=bob&message=hi+there") {
        WebRoute::Chat { user, message } => {
            assert_eq!(user, "bob");
            assert_eq!(message, "hi there");
        }
        _ => panic!("expected a chat route"),
    }
    match route_request("POST /chat HTTP/1.1\r\n\r\n") {
        WebRoute::Chat { user, message } => {
            assert_eq!(user, "web-user");
            assert_eq!(message, "hello");
        }
        _ => panic!("expected a chat route"),
    }
    assert_eq!(parse_form_value("a=1&a=2", "a"), Some("1".to_string()));
    assert_eq!(parse_form_value("a", "a"), None);
}

// ---------------------------------------------------------------- telegram

struct FixedTransport {
    outcome: Result<HttpResponse, HttpError>,
}

impl HttpTransport for FixedTransport {
    fn send(&self, _request: &HttpRequest) -> Result<HttpResponse, HttpError> {
        self.outcome.clone()
    }
}

fn telegram_config(token: Option<&str>, chat: Option<&str>, base: Option<&str>) -> TelegramConfig {
    TelegramConfig {
        enabled: true,
        bot_token: token.map(|s| s.to_string()),
        chat_id: chat.map(|s| s.to_string()),
        webhook_url: None,
        api_base: base.map(|s| s.to_string()),
        polling_interval_ms: 500,
    }
}

fn fixed(outcome: Result<HttpResponse, HttpError>) -> Arc<FixedTransport> {
    Arc::new(FixedTransport { outcome })
}

#[test]
fn telegram_adapter_needs_token_and_chat() {
    let ok = Ok(HttpResponse { status_code: 200, body: String::new() });
    assert!(matches!(
        TelegramAdapter::with_transport(&telegram_config(None, Some("1"), None), fixed(ok.clone())),
        Err(TelegramError::Config(m)) if m == "missing bot token"
    ));
    assert!(matches!(
        TelegramAdapter::with_transport(&telegram_config(Some("t"), None, None), fixed(ok)),
        Err(TelegramError::Config(m)) if m == "missing chat id"
    ));
}

#[test]
fn telegram_requests_use_the_api_base() {
    let ok = Ok(HttpResponse { status_code: 200, body: String::new() });
    let adapter = TelegramAdapter::with_transport(
        &telegram_config(Some("T"), Some("9"), Some("http://api//")),
        fixed(ok.clone()),
    )
    .unwrap();
    assert_eq!(adapter.updates_request(Some(-5)).url, "http://api/botT/getUpdates?offset=-5");
    let send = adapter.send_message_request(None, "say \"hi\"");
    assert_eq!(send.url, "http://api/botT/sendMessage");
    assert_eq!(send.body, "{\"chat_id\":\"9\",\"text\":\"say \\\"hi\\\"\"}");
    let default_base = TelegramAdapter::with_transport(&telegram_config(Some("T"), Some("9"), None), fixed(ok))
        .unwrap();
    assert_eq!(default_base.updates_request(None).url, "http://127.0.0.1:8081/botT/getUpdates");
}

#[test]
fn telegram_transport_errors_are_reported() {
    let adapter = TelegramAdapter::with_transport(
        &telegram_config(Some("T"), Some("9"), None),
        fixed(Err(HttpError::Transport("down".to_string()))),
    )
    .unwrap();
    assert_eq!(
        adapter.poll_updates_once(None).unwrap_err(),
        TelegramError::Transport("Transport(\"down\")".to_string())
    );
    assert_eq!(
        adapter.send_message(None, "x").unwrap_err(),
        TelegramError::Transport("Transport(\"down\")".to_string())
    );
}

#[test]
fn telegram_updates_parse_fields_and_skip_empty_text() {
    assert_eq!(parse_updates("{\"ok\":true}").unwrap_err(), TelegramError::Parse);
    let body = "{\"result\":[{\"update_id\":7,\"message\":{\"chat\":{\"id\": -42},\"text\":\"a\"}},{\"update_id\":x,\"message\":{\"text\":\"\"}},{\"update_id\":99999999999999999999,\"text\":\"b\",\"from\":{\"username\":\"zed\"}}]}";
    let updates = parse_updates(body).unwrap();
    assert_eq!(updates.len(), 2);
    assert_eq!(updates[0].update_id, 7);
    assert_eq!(updates[0].chat_id, "-42");
    assert_eq!(updates[0].user, "telegram-user");
    assert_eq!(updates[1].update_id, 0);
    assert_eq!(updates[1].chat_id, "0");
    assert_eq!(updates[1].user, "zed");
    assert_eq!(extract_json_string("{\"k\":\"v\"}", "k"), Some("v".to_string()));
    assert_eq!(extract_json_number("{\"n\":  12a}", "n"), Some("12".to_string()));
    assert_eq!(extract_json_number("{\"n\":x}", "n"), Some(String::new()));
}

#[test]
fn telegram_webhook_messages() {
    let m = parse_webhook_message("{\"text\":\"hi\"}").unwrap();
    assert_eq!(m.channel, "telegram-webhook");
    assert_eq!(m.user, "telegram-user");
    assert!(parse_webhook_message("{}").is_none());
    let incoming = webhook_incoming("POST / HTTP/1.1\r\n\r\n{\"username\":\"ann\",\"text\":\"yo\"}");
    assert_eq!(incoming.user, "ann");
    assert_eq!(incoming.text, "yo");
    let empty = webhook_incoming("GET / HTTP/1.1");
    assert_eq!(empty.user, "unknown");
    assert_eq!(empty.text, "");
}

#[test]
fn polling_answers_each_update() {
    let body = "{\"result\":[{\"update_id\":1,\"chat\":{\"id\":5},\"text\":\"q\"}]}";
    let adapter = TelegramAdapter::with_transport(
        &telegram_config(Some("T"), Some("9"), None),
        fixed(Ok(HttpResponse { status_code: 200, body: body.to_string() })),
    )
    .unwrap();
    let mut agent = echo_agent(vec![Permission::MemoryWrite]);
    assert_eq!(adapter.handle_polling_once(&mut agent), Ok(1));
    assert_eq!(agent.audit_events().len(), 1);
}

struct RecordingTransport {
    sent: Mutex<Vec<HttpRequest>>,
    fail_after: usize,
}

impl HttpTransport for RecordingTransport {
    fn send(&self, request: &HttpRequest) -> Result<HttpResponse, HttpError> {
        let mut sent = self.sent.lock().unwrap();
        sent.push(request.clone());
        if sent.len() > self.fail_after {
            Err(HttpError::InvalidResponse)
        } else {
            Ok(HttpResponse { status_code: 200, body: String::new() })
        }
    }
}

fn update(chat: &str, text: &str) -> TelegramUpdate {
    TelegramUpdate { update_id: 1, chat_id: chat.to_string(), text: text.to_string(), user: "u".to_string() }
}

#[test]
fn answering_updates_sends_each_reply_to_its_chat() {
    let transport = Arc::new(RecordingTransport { sent: Mutex::new(Vec::new()), fail_after: 10 });
    let adapter =
        TelegramAdapter::with_transport(&telegram_config(Some("T"), Some("9"), None), transport.clone())
            .unwrap();
    let mut agent = echo_agent(vec![]);
    let updates = vec![update("5", "a"), update("6", "b")];
    assert_eq!(adapter.answer_updates(&mut agent, &updates), Ok(2));
    let sent = transport.sent.lock().unwrap();
    assert_eq!(sent.len(), 2);
    assert_eq!(sent[0].url, "http://127.0.0.1:8081/botT/sendMessage");
    assert_eq!(sent[0].body, "{\"chat_id\":\"5\",\"text\":\"a\"}");
    assert_eq!(sent[1].body, "{\"chat_id\":\"6\",\"text\":\"b\"}");
    assert_eq!(agent.audit_events().len(), 4);
}

#[test]
fn answering_updates_stops_at_the_first_send_error() {
    let transport = Arc::new(RecordingTransport { sent: Mutex::new(Vec::new()), fail_after: 0 });
    let adapter =
        TelegramAdapter::with_transport(&telegram_config(Some("T"), Some("9"), None), transport.clone())
            .unwrap();
    let mut agent = echo_agent(vec![]);
    let updates = vec![update("5", "a"), update("6", "b")];
    assert_eq!(
        adapter.answer_updates(&mut agent, &updates),
        Err(TelegramError::Transport("InvalidResponse".to_string()))
    );
    assert_eq!(transport.sent.lock().unwrap().len(), 1);
    assert_eq!(agent.audit_events().len(), 2);
}

#[test]
fn updates_the_agent_cannot_answer_are_passed_over() {
    let transport = Arc::new(RecordingTransport { sent: Mutex::new(Vec::new()), fail_after: 10 });
    let adapter =
        TelegramAdapter::with_transport(&telegram_config(Some("T"), Some("9"), None), transport.clone())
            .unwrap();
    let mut agent: Agent = Agent::new(
        Policy::allow_list([]),
        ProviderRouter::new(vec![]),
        Box::new(DenyByDefaultSandbox),
    );
    assert_eq!(adapter.answer_updates(&mut agent, &[update("5", "a")]), Ok(1));
    assert!(transport.sent.lock().unwrap().is_empty());
    assert!(agent.audit_events().is_empty());
}

#[test]
fn completing_a_prompt_returns_the_output_and_audits_the_model() {
    let mut agent = echo_agent(vec![Permission::MemoryRead, Permission::MemoryWrite]);
    let response = ProviderResponse { output: "answer".to_string(), model: "m-2".to_string() };
    assert_eq!(agent.complete_prompt("question", response), "answer");
    let events = agent.audit_events();
    assert_eq!(events.len(), 1);
    assert_eq!(events[0].action, "provider_generate");
    assert_eq!(events[0].detail, "Generated response via m-2 with 0 plugins loaded");
    assert_eq!(agent.run_prompt("next").unwrap(), "[ctx] next");
}

#[test]
fn finishing_a_tool_call_keeps_its_output_or_error() {
    let mut agent = echo_agent(vec![Permission::ToolExec]);
    assert_eq!(agent.finish_tool("t", Ok("out".to_string())).unwrap(), "out");
    assert_eq!(agent.audit_events().len(), 1);
    assert_eq!(agent.audit_events()[0].action, "tool_exec:t");
    assert!(matches!(
        agent.finish_tool("t", Err(SandboxError::ToolNotFound)),
        Err(AgentError::Sandbox(SandboxError::ToolNotFound))
    ));
    assert_eq!(agent.audit_events().len(), 1);
}

// ---------------------------------------------------------------- registry

#[test]
fn published_records_verify() {
    let service = PluginRegistryService::new("registry-test", "secret-key");
    let record = service.published_record("notes", "0.1.0", "{\"name\":\"notes\"}");
    assert!(service.verify(&record.manifest, &record.signature));
    assert_ne!(record.signature, record.manifest);
    assert!(record.signature.chars().all(|c| c.is_ascii_hexdigit() && !c.is_ascii_uppercase()));
    assert!(!service.verify("{\"name\":\"other\"}", &record.signature));
    let other = PluginRegistryService::new("registry-test", "another-secret");
    assert!(!other.verify(&record.manifest, &record.signature));
    assert_eq!(artifact_stem("notes", "0.1.0"), "notes-0.1.0");
    assert_eq!(service.root(), "registry-test");
}

// ---------------------------------------------------------------- benchmark

#[test]
fn benchmark_runs_at_least_once() {
    let result = run_startup_benchmark(0);
    assert_eq!(result.iterations, 1);
    assert_eq!(result.average_micros, result.total.as_micros());
}

// ---------------------------------------------------------------- command-line core

#[test]
fn toml_values_and_defaults() {
    let src = "  api_bind = \"0.0.0.0:1\"\nopenai_api_key = \"\"\ndb_path=x\nopenai_model =  gpt \n";
    assert_eq!(read_toml_value(src, "api_bind"), Some("0.0.0.0:1".to_string()));
    assert_eq!(read_toml_value(src, "db_path"), None);
    let cfg = config_from_toml(src);
    assert_eq!(cfg.api_bind, "0.0.0.0:1");
    assert_eq!(cfg.db_path, "lightclaw.db");
    assert_eq!(cfg.openai_api_key, None);
    assert_eq!(cfg.openai_model, "gpt");
    assert_eq!(cfg.encryption_key, "dev-key");
    assert_eq!(cfg.scheduler_tasks_file, "config/scheduler.toml");
}

#[test]
fn task_file_sections() {
    let tasks = parse_tasks("x = 1\n[[tasks]]\nname = \"a\"\ncapability = \"run\"\n[[tasks]]\ncron = \"*/2 * * * *\"\n");
    assert_eq!(tasks.len(), 2);
    assert_eq!(tasks[0].name, "a");
    assert_eq!(tasks[0].cron, "* * * * *");
    assert_eq!(tasks[0].capability, "run");
    assert_eq!(tasks[1].name, "task");
    assert_eq!(tasks[1].cron, "*/2 * * * *");
    assert_eq!(tasks[1].plugin_manifest, "");
}

#[test]
fn cron_shape_needs_five_fields() {
    let mk = |cron: &str| CronTask {
        name: "a".into(),
        cron: cron.into(),
        plugin_manifest: String::new(),
        capability: String::new(),
    };
    assert!(mk("* * * * *").is_due_every_minute());
    assert!(!mk("* * * *").is_due_every_minute());
    assert!(!mk("* * * * * *").is_due_every_minute());
}

#[test]
fn manifests_parse_and_gate_execution() {
    let src = "{\"name\": \"notes\", \"wasm_path\": \"/nonexistent/n.wasm\", \"permissions\": [\"scheduler.run\", \"\", \"net\"]}";
    let m = WasmSandbox::parse_manifest(src).unwrap();
    assert_eq!(m.name, "notes");
    assert_eq!(m.wasm_path, "/nonexistent/n.wasm");
    assert_eq!(m.permissions, vec!["net".to_string(), "scheduler.run".to_string()]);
    let dup = WasmSandbox::parse_manifest(
        "{\"name\":\"d\",\"wasm_path\":\"w\",\"permissions\":[\"b\",\"a\",\"b\",\"ab\",\"B\"]}",
    )
    .unwrap();
    assert_eq!(dup.permissions, vec!["B", "a", "ab", "b"]);
    assert_eq!(WasmSandbox::parse_manifest("{}").unwrap_err(), "name missing");
    assert_eq!(
        WasmSandbox::parse_manifest("{\"name\":\"n\"}").unwrap_err(),
        "wasm_path missing"
    );
    assert!(extract_json_array("{\"permissions\": 3}", "permissions").is_empty());
    let sandbox = WasmSandbox;
    assert_eq!(
        sandbox.execute(&m, "fs.write", true),
        Err("permission denied for fs.write in plugin notes".to_string())
    );
    assert_eq!(
        sandbox.execute(&m, "net", false),
        Err("plugin wasm file missing for notes".to_string())
    );
    assert_eq!(sandbox.execute(&m, "net", true), Ok(0));
}

#[test]
fn openai_requests_and_answers() {
    let p = OpenAiProvider {
        api_key: "k".into(),
        model: "m".into(),
    };
    assert_eq!(
        p.chat_body("say \"x\""),
        "{\"model\":\"m\",\"messages\":[{\"role\":\"user\",\"content\":\"say 'x'\"}]}"
    );
    let request = p.chat_request("hi");
    assert!(request.starts_with("POST /v1/chat/completions HTTP/1.1\r\nHost: api.openai.com\r\nAuthorization: Bearer k\r\n"));
    assert!(request.contains("Content-Length: 57\r\n\r\n"));
    let answer = p.response_from_raw("HTTP/1.1 401 Unauthorized\r\nrest");
    assert_eq!(answer.text, "openai_raw_response:HTTP/1.1 401 Unauthorized");
    assert_eq!(answer.model, "m");
    assert_eq!(p.response_from_raw("").text, "openai_raw_response:");
    let mock = MockProvider.generate(LlmRequest { prompt: "p".into() }).unwrap();
    assert_eq!(mock.text, "echo:p");
    assert_eq!(mock.model, "mock");
}

#[test]
fn core_memory_is_enciphered_and_round_trips() {
    let mut core = Core::new(Arc::new(MockProvider), ":memory:", "dev-secret").unwrap();
    core.put_memory("k", "plain text").unwrap();
    assert_eq!(core.get_memory("k").unwrap(), Some("plain text".to_string()));
    assert_eq!(core.get_memory("missing").unwrap(), None);
    assert_eq!(xor_text("a", 0x4c), "-");
    let answer = core.handle_message("ping").unwrap();
    assert_eq!(answer, "echo:ping");
    assert_eq!(core.get_memory("last_user_message").unwrap(), Some("ping".to_string()));
    assert_eq!(
        core.get_memory("last_assistant_message").unwrap(),
        Some("echo:ping".to_string())
    );
    let stub = PollingStub::new("t".into(), "c".into());
    assert_eq!(stub.poll_once(&mut core), Ok(1));
    assert_eq!(
        core.get_memory("last_user_message").unwrap(),
        Some("telegram-test".to_string())
    );
}

#[test]
fn scheduler_steps_walk_due_tasks() {
    let core = Core::new(Arc::new(MockProvider), ":memory:", "k").unwrap();
    let tasks = vec![
        CronTask {
            name: "skip".into(),
            cron: "bad".into(),
            plugin_manifest: "a.json".into(),
            capability: "run".into(),
        },
        CronTask {
            name: "due".into(),
            cron: "* * * * *".into(),
            plugin_manifest: "b.json".into(),
            capability: "run".into(),
        },
    ];
    let run = scheduler_start();
    match core.scheduler_next(&tasks, run) {
        SchedulerAction::LoadManifest { task, path } => {
            assert_eq!(task, 1);
            assert_eq!(path, "b.json");
        }
        SchedulerAction::Finished(_) => panic!("a task is due"),
    }
    let manifest = WasmManifest {
        name: "b".into(),
        wasm_path: "b.wasm".into(),
        permissions: vec!["run".into()],
    };
    let next = core
        .scheduler_task_done(&tasks, run, 1, Ok(manifest.clone()), true)
        .unwrap();
    assert_eq!((next.next, next.fired), (2, 1));
    assert!(matches!(core.scheduler_next(&tasks, next), SchedulerAction::Finished(1)));
    assert_eq!(
        core.scheduler_task_done(&tasks, run, 1, Err("io".into()), true).unwrap_err(),
        "io"
    );
    assert!(core.scheduler_task_done(&tasks, run, 1, Ok(manifest), false).is_err());
}

#[test]
fn defaults_load_without_env() {
    let config = AppConfig::from_values(&EnvSettings::default());
    assert!(!config.llm.provider.is_empty());
    assert!(!config.runtime.web_bind.is_empty());
}

#[test]
fn settings_override_the_defaults() {
    let defaults = AppConfig::from_values(&EnvSettings::default());
    assert_eq!(defaults.llm.provider, "echo-local");
    assert_eq!(defaults.llm.model, "mock-1");
    assert!(!defaults.telegram.enabled);
    assert_eq!(defaults.runtime.web_bind, "127.0.0.1:7878");
    assert_eq!(defaults.runtime.default_mode, "chat");
    assert_eq!(defaults.runtime.registry_path, "registry");
    assert_eq!(defaults.runtime.registry_secret, "local-dev-secret");
    assert_eq!(defaults.runtime.benchmark_iterations, 100);
    let set = AppConfig::from_values(&EnvSettings {
        llm_model: Some("gpt".to_string()),
        telegram_enabled: Some("yes".to_string()),
        telegram_bot_token: Some("tok".to_string()),
        bench_iterations: Some("0".to_string()),
        ..EnvSettings::default()
    });
    assert_eq!(set.llm.model, "gpt");
    assert!(set.telegram.enabled);
    assert_eq!(set.telegram.bot_token.as_deref(), Some("tok"));
    assert_eq!(set.runtime.benchmark_iterations, 100);
}

#[test]
fn a_configured_key_selects_openai() {
    let mut cfg = config_from_toml("openai_api_key = \"k\"\nopenai_model = \"m\"");
    match choose_provider(&cfg) {
        ProviderChoice::OpenAi(p) => {
            assert_eq!(p.api_key, "k");
            assert_eq!(p.model, "m");
        }
        ProviderChoice::Mock(_) => panic!("expected OpenAI"),
    }
    cfg.openai_api_key = None;
    assert!(matches!(choose_provider(&cfg), ProviderChoice::Mock(_)));
}
