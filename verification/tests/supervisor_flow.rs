use llama_desktop::models::{LlamaCppConfig, ModelId};
use llama_desktop::supervisor::{
    binary_not_found_error, completions_url, health_url, model_not_found_error,
    resolve_model_path, resolve_server_binary, spawn_args, HealthCheck, HealthDecision,
    HealthEvent, ModelState, SpawnPlan, StartDecision, SupervisorCore,
};

fn sample_config() -> LlamaCppConfig {
    LlamaCppConfig {
        llama_cpp_path: "llama".to_string(),
        model_path: "model".to_string(),
        port: 8080,
        ctx_size: 128,
        parallel: 1,
        n_gpu_layers: 0,
    }
}

#[test]
fn start_request_returns_running_pid() {
    let mut core = SupervisorCore::new(Vec::new());
    let id = ModelId("model".to_string());
    let first = core.start_request(&id, &sample_config());
    assert!(matches!(first, StartDecision::Spawn(SpawnPlan { .. })));
    let reply = core.complete_start(&id, Ok((8080, 123)), &sample_config());
    assert_eq!(reply, Ok(123));
    // Start is idempotent while Running: repeated requests answer the same
    // cached pid and spawn nothing.
    for _ in 0..3 {
        match core.start_request(&id, &sample_config()) {
            StartDecision::AlreadyRunning(pid) => assert_eq!(pid, 123),
            _ => panic!("expected the cached pid"),
        }
    }
    assert!(core.is_running(&Some(ModelId("model".to_string()))));
}

#[test]
fn start_request_returns_starting_error() {
    let mut core = SupervisorCore::new(Vec::new());
    let id = ModelId("m".to_string());
    let first = core.start_request(&id, &sample_config());
    assert!(matches!(first, StartDecision::Spawn(_)));
    // While Starting, every further request fails and spawns nothing.
    for _ in 0..3 {
        match core.start_request(&id, &sample_config()) {
            StartDecision::AlreadyStarting(err) => assert!(err.contains("already starting")),
            _ => panic!("expected the already-starting error"),
        }
    }
}

#[test]
fn stop_handles_missing_state() {
    let mut core = SupervisorCore::new(Vec::new());
    let id = ModelId("missing".to_string());
    // Stopping an unknown id succeeds as a no-op.
    assert_eq!(core.stop(&id), Ok(()));
    assert!(!core.is_running(&Some(ModelId("missing".to_string()))));
}

#[test]
fn failed_start_returns_to_stopped() {
    let mut core = SupervisorCore::new(Vec::new());
    let id = ModelId("m".to_string());
    let _ = core.start_request(&id, &sample_config());
    let reply = core.complete_start(&id, Err("boom".to_string()), &sample_config());
    assert_eq!(reply, Err("boom".to_string()));
    assert!(!core.is_running(&Some(ModelId("m".to_string()))));
    // A later start can retry cleanly.
    let retry = core.start_request(&id, &sample_config());
    assert!(matches!(retry, StartDecision::Spawn(_)));
}

#[test]
fn health_check_timeout_orders_kill() {
    let mut hc = HealthCheck::new(2);
    match hc.step(HealthEvent::NotReady) {
        HealthDecision::Retry => {}
        _ => panic!("expected a retry"),
    }
    match hc.step(HealthEvent::NotReady) {
        HealthDecision::Fail { error, kill } => {
            assert!(kill);
            assert!(error.contains("Healthcheck timed out"));
        }
        _ => panic!("expected the timeout failure"),
    }
}

#[test]
fn health_check_reports_early_exit() {
    let mut hc = HealthCheck::new(40);
    match hc.step(HealthEvent::Exited("signal: 9".to_string())) {
        HealthDecision::Fail { error, kill } => {
            assert!(!kill);
            assert!(error.contains("exited early"));
        }
        _ => panic!("expected the early-exit failure"),
    }
    match hc.step(HealthEvent::Healthy) {
        HealthDecision::Succeed => {}
        _ => panic!("expected success"),
    }
}

#[test]
fn chat_port_requires_running() {
    let mut core = SupervisorCore::new(Vec::new());
    let id = ModelId("m".to_string());
    let err = core.chat_port(&id).expect_err("not running");
    assert!(err.contains("not running"));
    let _ = core.start_request(&id, &sample_config());
    let _ = core.complete_start(&id, Ok((9001, 7)), &sample_config());
    assert_eq!(core.chat_port(&id), Ok(9001));
}

#[test]
fn get_config_follows_active_model() {
    let mut core = SupervisorCore::new(Vec::new());
    assert!(core.get_config().is_none());
    let id = ModelId("m".to_string());
    let _ = core.start_request(&id, &sample_config());
    let _ = core.complete_start(&id, Ok((8080, 7)), &sample_config());
    let cfg = core.get_config().expect("config");
    assert_eq!(cfg.model_path, "model");
    let _ = core.stop(&id);
    assert!(core.get_config().is_none());
}

#[test]
fn metrics_pid_ignores_zero_pid() {
    let mut core = SupervisorCore::new(Vec::new());
    let id = ModelId("m".to_string());
    let _ = core.start_request(&id, &sample_config());
    let _ = core.complete_start(&id, Ok((8080, 0)), &sample_config());
    assert!(core.metrics_pid().is_none());
    let _ = core.stop(&id);
    let _ = core.start_request(&id, &sample_config());
    let _ = core.complete_start(&id, Ok((8080, 55)), &sample_config());
    assert_eq!(core.metrics_pid(), Some(55));
}

#[test]
fn supervisor_state_is_tagged() {
    let state = ModelState::Running { port: 1, pid: 2, config: sample_config() };
    assert!(matches!(state, ModelState::Running { .. }));
}

#[test]
fn spawn_args_match_launch_contract() {
    let config = LlamaCppConfig {
        llama_cpp_path: "/opt/llama".to_string(),
        model_path: "/m/weights.gguf".to_string(),
        port: 8081,
        ctx_size: 4096,
        parallel: 2,
        n_gpu_layers: -1,
    };
    let args = spawn_args("/m/weights.gguf", &config);
    assert_eq!(
        args,
        vec![
            "-m".to_string(),
            "/m/weights.gguf".to_string(),
            "--port".to_string(),
            "8081".to_string(),
            "-c".to_string(),
            "4096".to_string(),
            "-np".to_string(),
            "2".to_string(),
            "-ngl".to_string(),
            "-1".to_string(),
        ]
    );
}

#[test]
fn resolve_model_path_prefers_registry_entry() {
    let config = sample_config();
    assert_eq!(resolve_model_path(&Some("/blobs/x".to_string()), &config), "/blobs/x");
    assert_eq!(resolve_model_path(&None, &config), "model");
}

#[test]
fn resolve_server_binary_search_order() {
    // A path that already names the executable is used as it stands.
    assert_eq!(
        resolve_server_binary("/opt/llama-server", false, false, false, false),
        "/opt/llama-server"
    );
    // A directory is searched: direct, then the build tree, then bin.
    assert_eq!(
        resolve_server_binary("/opt/llama", true, true, false, false),
        "/opt/llama/llama-server"
    );
    assert_eq!(
        resolve_server_binary("/opt/llama", true, false, true, false),
        "/opt/llama/build/bin/Release/llama-server"
    );
    assert_eq!(
        resolve_server_binary("/opt/llama", true, false, false, true),
        "/opt/llama/bin/llama-server"
    );
    // Nothing found: the plain join, whose absence gives the error.
    assert_eq!(
        resolve_server_binary("/opt/llama", false, false, false, false),
        "/opt/llama/llama-server"
    );
}

#[test]
fn endpoint_urls_follow_port() {
    assert_eq!(health_url(8080), "http://localhost:8080/health");
    assert_eq!(completions_url(9001), "http://localhost:9001/v1/chat/completions");
    assert!(model_not_found_error("/m").contains("Model file not found"));
    assert!(binary_not_found_error("/b").contains("llama-server executable not found"));
}
