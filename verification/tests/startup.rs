use profiler::startup::{deduce_startup_mode, get_token_from_args, StartupMode};

fn args(list: &[&str]) -> Vec<String> {
    list.iter().map(|s| s.to_string()).collect()
}

#[test]
fn the_flag_selects_the_profiler_service() {
    assert_eq!(
        deduce_startup_mode(&args(&["profiler", "--profiler-service", "token"])),
        StartupMode::ProfilerService
    );
    assert_eq!(deduce_startup_mode(&args(&["profiler"])), StartupMode::App);
    assert_eq!(deduce_startup_mode(&args(&["profiler", "--profiler"])), StartupMode::App);
}

#[test]
fn the_token_follows_the_first_flag() {
    assert_eq!(
        get_token_from_args(&args(&["profiler", "--profiler-service", "token", "--profiler-service", "other"])),
        Some("token".to_string())
    );
    assert_eq!(get_token_from_args(&args(&["profiler", "--profiler-service"])), None);
    assert_eq!(get_token_from_args(&args(&["profiler"])), None);
    assert_eq!(
        get_token_from_args(&args(&["--profiler-service", "--profiler-service"])),
        Some("--profiler-service".to_string())
    );
}
