use code_judge::complexity::{estimate_space_complexity, estimate_time_complexity};
use code_judge::config::{Config, DockerConfig, LanguageConfig, ServerConfig};
use code_judge::digits::int_to_string;

fn small_config() -> Config {
    Config {
        server: ServerConfig { bind_addr: "0.0.0.0:8080".to_string(), run_timeout: 8 },
        docker: DockerConfig {
            host: "http://127.0.0.1:2375".to_string(),
            connect_timeout: 5,
            keepalive_secs: 30,
            request_timeout: 60,
        },
        containers: vec![("python".to_string(), "py-box".to_string())],
        languages: vec![
            (
                "python".to_string(),
                LanguageConfig {
                    enabled: true,
                    file_extension: "py".to_string(),
                    compile_cmd: None,
                    run_cmd: "python3 {source}".to_string(),
                },
            ),
            (
                "c".to_string(),
                LanguageConfig {
                    enabled: false,
                    file_extension: "c".to_string(),
                    compile_cmd: Some("gcc {source} -o {binary}".to_string()),
                    run_cmd: "{binary}".to_string(),
                },
            ),
        ],
    }
}

#[test]
fn enabled_language_is_found() {
    let c = small_config();
    let cfg = c.get_language("python").expect("profile");
    assert_eq!(cfg.file_extension, "py");
    assert_eq!(cfg.run_cmd, "python3 {source}");
}

#[test]
fn disabled_language_is_hidden() {
    let c = small_config();
    assert!(c.get_language("c").is_none());
    assert!(c.get_language("rust").is_none());
}

#[test]
fn container_lookup() {
    let c = small_config();
    assert_eq!(c.get_container("python"), Some("py-box"));
    assert!(c.get_container("c").is_none());
}

#[test]
fn time_buckets_at_their_thresholds() {
    assert_eq!(estimate_time_complexity(0), "O(1)");
    assert_eq!(estimate_time_complexity(999), "O(1)");
    assert_eq!(estimate_time_complexity(1000), "O(log n)");
    assert_eq!(estimate_time_complexity(9999), "O(log n)");
    assert_eq!(estimate_time_complexity(10000), "O(n)");
    assert_eq!(estimate_time_complexity(99999), "O(n)");
    assert_eq!(estimate_time_complexity(100000), "O(n log n)");
    assert_eq!(estimate_time_complexity(999999), "O(n log n)");
    assert_eq!(estimate_time_complexity(1000000), "O(n\u{b2})");
}

#[test]
fn space_buckets_at_their_thresholds() {
    assert_eq!(estimate_space_complexity(-5), "O(1)");
    assert_eq!(estimate_space_complexity(255), "O(1)");
    assert_eq!(estimate_space_complexity(256), "O(n)");
    assert_eq!(estimate_space_complexity(1023), "O(n)");
    assert_eq!(estimate_space_complexity(1024), "O(nlog n)");
    assert_eq!(estimate_space_complexity(10239), "O(nlog n)");
    assert_eq!(estimate_space_complexity(10240), "O(n\u{b2})");
}

#[test]
fn integers_render_in_decimal() {
    assert_eq!(int_to_string(0), "0");
    assert_eq!(int_to_string(42), "42");
    assert_eq!(int_to_string(-7), "-7");
    assert_eq!(int_to_string(i64::MAX), "9223372036854775807");
    assert_eq!(int_to_string(i64::MIN), "-9223372036854775808");
}
