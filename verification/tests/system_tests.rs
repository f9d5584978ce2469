use local_code_core::system::ollama::{
    ollama_candidates, ollama_command, wait_step, WaitStep, DEFAULT_WAIT_TIMEOUT_MS, POLL_INTERVAL_MS,
};

#[test]
fn candidates_off_windows_are_path_then_default_places() {
    let c = ollama_candidates(false, Some("C:\\Users\\me\\AppData\\Local".to_string()), None);
    assert_eq!(c, vec!["ollama".to_string(), "/usr/local/bin/ollama".to_string(), "/opt/homebrew/bin/ollama".to_string()]);
}

#[test]
fn candidates_on_windows_use_the_folders_given() {
    let c = ollama_candidates(
        true,
        Some("C:\\Users\\me\\AppData\\Local".to_string()),
        Some("C:\\Program Files".to_string()),
    );
    assert_eq!(
        c,
        vec![
            "ollama".to_string(),
            "C:\\Users\\me\\AppData\\Local\\Programs\\Ollama\\ollama.exe".to_string(),
            "C:\\Program Files\\Ollama\\ollama.exe".to_string(),
        ]
    );
}

#[test]
fn candidates_on_windows_skip_unset_folders() {
    assert_eq!(ollama_candidates(true, None, None), vec!["ollama".to_string()]);
    assert_eq!(
        ollama_candidates(true, None, Some("D:\\Apps".to_string())),
        vec!["ollama".to_string(), "D:\\Apps\\Ollama\\ollama.exe".to_string()]
    );
}

#[test]
fn waiting_stops_when_the_server_answers() {
    assert!(matches!(wait_step(true, 0, DEFAULT_WAIT_TIMEOUT_MS), WaitStep::Ready));
    assert!(matches!(wait_step(true, 100_000, DEFAULT_WAIT_TIMEOUT_MS), WaitStep::Ready));
}

#[test]
fn waiting_retries_until_the_timeout_then_gives_up() {
    assert!(matches!(wait_step(false, 0, DEFAULT_WAIT_TIMEOUT_MS), WaitStep::Retry));
    assert!(matches!(wait_step(false, 7_999, DEFAULT_WAIT_TIMEOUT_MS), WaitStep::Retry));
    assert!(matches!(wait_step(false, 8_000, DEFAULT_WAIT_TIMEOUT_MS), WaitStep::GiveUp));
    assert_eq!(DEFAULT_WAIT_TIMEOUT_MS, 8000);
    assert_eq!(POLL_INTERVAL_MS, 400);
}

#[test]
fn command_is_the_found_one_or_plain_ollama() {
    assert_eq!(ollama_command(Some("/opt/homebrew/bin/ollama".to_string())), "/opt/homebrew/bin/ollama");
    assert_eq!(ollama_command(None), "ollama");
}

#[test]
fn base36_reads_back() {
    for n in [0u128, 1, 35, 36, 1295, 1296, 1_700_000_000_000, u128::MAX] {
        let s = local_code_core::id::to_base36(n);
        assert_eq!(u128::from_str_radix(&s, 36), Ok(n));
        assert!(n == 0 || !s.starts_with('0'));
    }
    assert_eq!(local_code_core::id::to_base36(35), "z");
    assert_eq!(local_code_core::id::to_base36(36), "10");
}
