use std::sync::Arc;

use secure_lightclaw::agent::Agent;
use secure_lightclaw::benchmark::run_startup_benchmark;
use secure_lightclaw::config::TelegramConfig;
use secure_lightclaw::lc_core::Core;
use secure_lightclaw::lc_provider::MockProvider;
use secure_lightclaw::lc_scheduler::ScheduledTask as CronTask;
use secure_lightclaw::net::{HttpError, HttpRequest, HttpResponse, HttpTransport};
use secure_lightclaw::plugins::{ManifestPermission, PluginManifest, PluginRegistry, PluginSource};
use secure_lightclaw::policy::{Permission, Policy};
use secure_lightclaw::providers::{
    ConfiguredEchoProvider, EchoProvider, LlmProvider, ProviderError, ProviderRequest,
    ProviderResponse, ProviderRouter,
};
use secure_lightclaw::sandbox::{DenyByDefaultSandbox, SandboxError, ToolRequest, ToolSandbox};
use secure_lightclaw::scheduler::Scheduler;
use secure_lightclaw::telegram::TelegramAdapter;
use secure_lightclaw::web::web_ui_html;

#[test]
fn benchmark_returns_non_zero_iterations() {
    let result = run_startup_benchmark(10);
    assert_eq!(result.iterations, 10);
    assert!(result.total.as_nanos() > 0);
}

#[test]
fn memory_round_trip() {
    let mut core = Core::new(Arc::new(MockProvider), ":memory:", "dev-secret").expect("core");
    core.put_memory("a", "b").expect("put");
    assert_eq!(core.get_memory("a").expect("get"), Some("b".into()));
    let out = core.handle_message("hello").expect("handle");
    assert!(out.contains("echo"));
}

#[test]
fn agent_generates_response_and_audits() {
    let policy = Policy::allow_list([Permission::MemoryRead, Permission::MemoryWrite]);
    let router = ProviderRouter::new(vec![Box::new(ConfiguredEchoProvider::new(
        "echo-local",
        "mock-1",
    ))]);
    let mut agent = Agent::new(policy, router, Box::new(DenyByDefaultSandbox));

    let mut registry = PluginRegistry::new(false);
    registry
        .register(PluginManifest {
            name: "notes".to_string(),
            version: "0.1.0".to_string(),
            capabilities: vec!["store_notes".to_string()],
            permissions: vec![ManifestPermission::MemoryRead],
            source: PluginSource::VettedRegistry,
        })
        .expect("plugin should register");
    agent.register_plugins(registry);

    let out = agent.run_prompt("hello").expect("agent should respond");
    assert_eq!(out, "hello");
    assert_eq!(agent.audit_events().len(), 1);
}

#[test]
fn heartbeat_runs_scheduled_task() {
    let policy = Policy::allow_list([Permission::MemoryRead]);
    let router = ProviderRouter::new(vec![Box::new(ConfiguredEchoProvider::new(
        "echo-local",
        "mock-1",
    ))]);
    let mut agent = Agent::new(policy, router, Box::new(DenyByDefaultSandbox));
    agent.add_schedule("tick", 1, "cron:sync");

    let due = agent.heartbeat();
    assert_eq!(due, vec!["cron:sync".to_string()]);
}

#[test]
fn registry_blocks_unknown_source_by_default() {
    let mut registry = PluginRegistry::new(false);
    let result = registry.register(PluginManifest {
        name: "notes".to_string(),
        version: "0.1.0".to_string(),
        capabilities: vec!["store_notes".to_string()],
        permissions: vec![ManifestPermission::MemoryRead],
        source: PluginSource::Unknown,
    });

    assert!(result.is_err());
}

#[test]
fn registry_accepts_vetted_registry_source() {
    let mut registry = PluginRegistry::new(false);
    registry
        .register(PluginManifest {
            name: "notes".to_string(),
            version: "0.1.0".to_string(),
            capabilities: vec!["store_notes".to_string()],
            permissions: vec![ManifestPermission::MemoryRead],
            source: PluginSource::VettedRegistry,
        })
        .expect("vetted plugin should register");

    assert_eq!(registry.all().len(), 1);
}

struct FailingProvider;

impl LlmProvider for FailingProvider {
    fn name(&self) -> &str {
        "down"
    }

    fn generate(&self, _request: &ProviderRequest) -> Result<ProviderResponse, ProviderError> {
        Err(ProviderError::Unavailable)
    }
}

#[test]
fn router_falls_back_to_next_provider() {
    let router = ProviderRouter::new(vec![Box::new(FailingProvider), Box::new(EchoProvider)]);
    let response = router
        .generate(&ProviderRequest {
            user_input: "hello".to_string(),
            context: vec![],
        })
        .expect("fallback provider should respond");

    assert_eq!(response.output, "hello");
    assert_eq!(response.model, "echo-local");
}

#[test]
fn sandbox_denies_without_permission() {
    let sandbox = DenyByDefaultSandbox;
    let policy = Policy::allow_list([Permission::MemoryRead]);
    let result = sandbox.execute(
        &policy,
        &ToolRequest {
            name: "echo".to_string(),
            args: vec!["hi".to_string()],
        },
    );
    assert_eq!(result, Err(SandboxError::PermissionDenied));
}

#[test]
fn accepts_basic_cron_shape() {
    let t = CronTask {
        name: "a".into(),
        cron: "*/5 * * * *".into(),
        plugin_manifest: "m.json".into(),
        capability: "scheduler.run".into(),
    };
    assert!(t.is_due_every_minute());
}

#[test]
fn scheduler_triggers_repeating_tasks() {
    let mut scheduler = Scheduler::default();
    scheduler.add_task("heartbeat", 2, "ping");

    assert!(scheduler.heartbeat().is_empty());
    let due = scheduler.heartbeat();
    assert_eq!(due.len(), 1);
    assert_eq!(due[0].payload, "ping");
}

struct MockTelegramTransport {
    body: String,
}

impl HttpTransport for MockTelegramTransport {
    fn send(&self, _request: &HttpRequest) -> Result<HttpResponse, HttpError> {
        Ok(HttpResponse {
            status_code: 200,
            body: self.body.clone(),
        })
    }
}

#[test]
fn parse_polling_updates() {
    let config = TelegramConfig {
        enabled: true,
        bot_token: Some("token".to_string()),
        chat_id: Some("1".to_string()),
        webhook_url: None,
        api_base: Some("http://localhost:8081".to_string()),
        polling_interval_ms: 500,
    };

    let adapter = TelegramAdapter::with_transport(
        &config,
        Arc::new(MockTelegramTransport {
            body: "{\"ok\":true,\"result\":[{\"update_id\":1,\"message\":{\"chat\":{\"id\":42},\"from\":{\"username\":\"alice\"},\"text\":\"hello\"}}]}"
                .to_string(),
        }),
    )
    .expect("adapter should build");

    let updates = adapter.poll_updates_once(None).expect("poll should parse");
    assert_eq!(updates.len(), 1);
    assert_eq!(updates[0].text, "hello");
}

#[test]
fn serves_html_shell() {
    let html = web_ui_html();
    assert!(html.contains("Secure LightClaw v2"));
    assert!(html.contains("/chat"));
}
