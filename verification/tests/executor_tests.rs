use base64::Engine;
use code_judge::config::{Config, DockerConfig, LanguageConfig, ServerConfig};
use code_judge::executor::{
    capture_text, finish_execution, plan_execution, replace_all, ConfigError, StreamOutcome,
};
use code_judge::model::{CodeRequest, TestCase};
use code_judge::parser::ParseOutcome;

fn test_config() -> Config {
    Config {
        server: ServerConfig { bind_addr: "127.0.0.1:3000".to_string(), run_timeout: 10 },
        docker: DockerConfig {
            host: "http://localhost:2375".to_string(),
            connect_timeout: 5,
            keepalive_secs: 30,
            request_timeout: 60,
        },
        containers: vec![
            ("python".to_string(), "sandbox-python".to_string()),
            ("c".to_string(), "sandbox-c".to_string()),
        ],
        languages: vec![
            (
                "python".to_string(),
                LanguageConfig {
                    enabled: true,
                    file_extension: "py".to_string(),
                    compile_cmd: None,
                    run_cmd: "python3 {source}".to_string(),
                },
            ),
            (
                "c".to_string(),
                LanguageConfig {
                    enabled: true,
                    file_extension: "c".to_string(),
                    compile_cmd: Some("gcc {source} -o {binary}".to_string()),
                    run_cmd: "{binary}".to_string(),
                },
            ),
            (
                "cpp".to_string(),
                LanguageConfig {
                    enabled: false,
                    file_extension: "cpp".to_string(),
                    compile_cmd: Some("g++ {source} -o {binary}".to_string()),
                    run_cmd: "{binary}".to_string(),
                },
            ),
        ],
    }
}

fn one_case() -> Vec<TestCase> {
    vec![TestCase { input: vec![2, 3], expected: 5 }]
}

#[test]
fn interpreted_plan_builds_the_exact_command() {
    let config = test_config();
    let req = CodeRequest {
        language: "python".to_string(),
        code: "def add(a, b):\n    return a + b".to_string(),
        function: "add".to_string(),
        test_cases: one_case(),
    };
    let plan = plan_execution(&req.language, &req.code, &req.function, &req.test_cases, &config)
        .expect("plan");
    assert_eq!(plan.container, "sandbox-python");
    assert!(plan.source_file.starts_with("/tmp/main_"));
    assert!(plan.source_file.ends_with(".py"));
    // /tmp/main_ + 36-character identifier + .py
    assert_eq!(plan.source_file.len(), 10 + 36 + 3);
    assert_eq!(plan.binary_file.len(), 10 + 36);
    let encoded = base64::engine::general_purpose::STANDARD.encode(plan.program.as_bytes());
    let want = format!(
        "echo '{}' | base64 -d > {} && timeout 5s bash -c 'python3 {} 2>&1'; EXIT_CODE=$?; rm -f {}; exit $EXIT_CODE",
        encoded, plan.source_file, plan.source_file, plan.source_file
    );
    assert_eq!(plan.full_cmd, want);
    assert!(plan.program.contains("result = add(2, 3)"));
}

#[test]
fn compiled_plan_runs_compile_before_run() {
    let config = test_config();
    let plan = plan_execution("c", "int add(int a, int b) { return a + b; }", "add", &one_case(), &config)
        .expect("plan");
    let encoded = base64::engine::general_purpose::STANDARD.encode(plan.program.as_bytes());
    let want = format!(
        "echo '{}' | base64 -d > {} && gcc {} -o {} && timeout 5s bash -c '{} 2>&1'; EXIT_CODE=$?; rm -f {} {}; exit $EXIT_CODE",
        encoded,
        plan.source_file,
        plan.source_file,
        plan.binary_file,
        plan.binary_file,
        plan.source_file,
        plan.binary_file
    );
    assert_eq!(plan.full_cmd, want);
}

#[test]
fn fresh_identifiers_differ_between_plans() {
    let config = test_config();
    let a = plan_execution("python", "x = 1", "f", &Vec::new(), &config).expect("plan");
    let b = plan_execution("python", "x = 1", "f", &Vec::new(), &config).expect("plan");
    assert_ne!(a.source_file, b.source_file);
}

#[test]
fn unsupported_language_is_rejected_before_anything_else() {
    let config = test_config();
    let err = plan_execution("ruby", "x", "f", &Vec::new(), &config).unwrap_err();
    assert!(matches!(err, ConfigError::UnsupportedLanguage));
    assert_eq!(err.describe("ruby"), "Unsupported language: ruby");
}

#[test]
fn disabled_language_is_rejected() {
    let config = test_config();
    let err = plan_execution("cpp", "x", "f", &Vec::new(), &config).unwrap_err();
    assert!(matches!(err, ConfigError::LanguageUnavailable));
    assert_eq!(err.describe("cpp"), "Language 'cpp' not supported or disabled");
}

#[test]
fn unmapped_container_is_rejected() {
    let mut config = test_config();
    config.containers.clear();
    let err = plan_execution("python", "x", "f", &Vec::new(), &config).unwrap_err();
    assert!(matches!(err, ConfigError::ContainerMissing));
    assert_eq!(err.describe("python"), "Container for 'python' not configured");
}

#[test]
fn replace_all_substitutes_every_occurrence() {
    assert_eq!(replace_all("a {x} b {x}", "{x}", "z"), "a z b z");
    assert_eq!(replace_all("none here", "{x}", "z"), "none here");
}

#[test]
fn sentinels_are_exact() {
    assert_eq!(
        capture_text(StreamOutcome::TimedOut),
        "\u{23f0} Execution timed out (killed by host)"
    );
    assert_eq!(
        capture_text(StreamOutcome::TransportError("boom".to_string())),
        "\u{274c} Internal error: boom"
    );
    assert_eq!(
        capture_text(StreamOutcome::Completed("ok\n".to_string())),
        "ok\n"
    );
}

#[test]
fn transport_error_still_yields_a_shaped_response() {
    // the channel fails mid-stream; the response keeps its shape, with the
    // generic failure nested in the output
    let resp = finish_execution("python", 42, StreamOutcome::TransportError("socket closed".to_string()));
    assert_eq!(resp.language, "python");
    assert_eq!(resp.execution_time_ms, 42);
    assert!(matches!(resp.output, ParseOutcome::Failure));
}

#[test]
fn completed_stream_parses_into_a_report() {
    let raw = "Input: (2, 3) => Output: 5 | Expected: 5 | \u{2705} PASS | Time: 0.050ms\n".to_string();
    let resp = finish_execution("c", 7, StreamOutcome::Completed(raw));
    match resp.output {
        ParseOutcome::Report(rep) => {
            assert_eq!(rep.summary.total, 1);
            assert_eq!(rep.summary.passed, 1);
        },
        ParseOutcome::Failure => panic!("expected a report"),
    }
}
