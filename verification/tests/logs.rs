use spark_dashboard::logs::{find_target_container, find_target_container_in, image_is_target};

#[test]
fn finds_first_vllm_container_short_id() {
    let out = "0123456789abcdef0123\tpostgres:16\nfedcba9876543210ffff\tvllm/vllm-openai:latest\n aaaaaaaaaaaaaaaa\tdeepseek\n";
    assert_eq!(find_target_container(out.as_bytes()), Some("fedcba987654".to_string()));
}

#[test]
fn matches_image_case_insensitively_and_trims_id() {
    let out = "  abc  \tRegistry/DeepSeek-V3\r\n";
    assert_eq!(find_target_container_in(out), Some("abc".to_string()));
    // U+212A KELVIN SIGN lowercases to an ASCII 'k'.
    let kelvin = "id1\tdeepsee\u{212A}\n";
    assert_eq!(find_target_container_in(kelvin), Some("id1".to_string()));
}

#[test]
fn skips_lines_without_tab_and_finds_nothing() {
    assert_eq!(find_target_container_in("vllm-no-tab\nabc\tnginx\n"), None);
    assert_eq!(find_target_container_in(""), None);
    assert_eq!(find_target_container(b"\xff\xfe\tvllm\n"), Some("\u{FFFD}\u{FFFD}".to_string()));
}

#[test]
fn image_target_test() {
    assert!(image_is_target("vllm/vllm-openai"));
    assert!(image_is_target("x-deepseek-y"));
    assert!(!image_is_target("VLLM"));
    assert!(!image_is_target("vlm"));
}

#[test]
fn stderr_lines_are_prefixed() {
    assert_eq!(spark_dashboard::logs::stderr_line_message("oops"), "[stderr] oops");
    assert_eq!(spark_dashboard::logs::stderr_line_message(""), "[stderr] ");
}
