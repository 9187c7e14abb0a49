use agent_loop::frame::{read_output, write_output, FrameError};
use agent_loop::report::{build_output, format_console, format_log_entry, ReportInput};

fn make_input(success: bool) -> ReportInput {
    ReportInput {
        subscription_name: "test".to_string(),
        success,
        output: "some output".to_string(),
        error: if success { None } else { Some("oops".to_string()) },
        started_at: "2026-01-01T00:00:00Z".to_string(),
        finished_at: "2026-01-01T00:00:01Z".to_string(),
        duration_ms: 1000,
        prompt: "do something".to_string(),
        log_dir: "/tmp/logs".to_string(),
    }
}

#[test]
fn success_output_contains_icon() {
    let out = format_console(&make_input(true));
    assert!(out.contains("✅"));
    assert!(out.contains("some output"));
}

#[test]
fn failure_output_contains_error() {
    let out = format_console(&make_input(false));
    assert!(out.contains("❌"));
    assert!(out.contains("oops"));
}

#[test]
fn log_entry_contains_prompt() {
    let log = format_log_entry(&make_input(true));
    assert!(log.contains("do something"));
    assert!(log.contains("SUCCESS"));
}

#[test]
fn log_path_uses_log_dir() {
    let output = build_output(make_input(true));
    assert_eq!(output.append_file.unwrap().path, "/tmp/logs/test.log");
}

#[test]
fn console_block_is_exact() {
    let sep = "─".repeat(60);
    let expected = format!(
        "\n{sep}\n✅ [test] 执行完成\n   开始: 2026-01-01T00:00:00Z\n   耗时: 1000ms\n{sep}\nsome output\n{sep}\n"
    );
    assert_eq!(format_console(&make_input(true)), expected);
    let expected_fail = format!(
        "\n{sep}\n❌ [test] 执行完成\n   开始: 2026-01-01T00:00:00Z\n   耗时: 1000ms\n{sep}\n❌ 错误: oops\n输出:\nsome output\n{sep}\n"
    );
    assert_eq!(format_console(&make_input(false)), expected_fail);
}

#[test]
fn log_entry_is_exact_for_failure_without_output() {
    let mut input = make_input(false);
    input.output = String::new();
    input.error = None;
    input.duration_ms = -5;
    let d = "=".repeat(80);
    let expected = format!(
        "{d}\n[2026-01-01T00:00:00Z] 订阅: test\n状态: FAILURE | 耗时: -5ms\n完成时间: 2026-01-01T00:00:01Z\n\n── 提示词 ──\ndo something\n\n── 输出 ──\n错误: 未知错误\n{d}\n"
    );
    assert_eq!(format_log_entry(&input), expected);
}

#[test]
fn build_output_prints_and_appends() {
    let output = build_output(make_input(false));
    assert!(output.stderr.is_none());
    assert_eq!(output.stdout.unwrap(), format_console(&make_input(false)));
    assert_eq!(output.append_file.unwrap().content, format_log_entry(&make_input(false)));
}

#[test]
fn frame_round_trip() {
    let json = br#"{"stdout":"hi"}"#;
    let framed = write_output(json);
    assert_eq!(&framed[..4], &(json.len() as u32).to_le_bytes());
    let mut mem = vec![7u8; 10];
    mem.extend_from_slice(&framed);
    mem.push(9);
    assert_eq!(read_output(&mem, 10).unwrap(), json.to_vec());
}

#[test]
fn frame_errors() {
    assert_eq!(read_output(&[1, 0, 0], 0), Err(FrameError::LengthOutOfBounds));
    assert_eq!(read_output(&[1, 0, 0, 0], 5), Err(FrameError::LengthOutOfBounds));
    assert_eq!(read_output(&[5, 0, 0, 0, 1, 2], 0), Err(FrameError::DataOutOfBounds));
    assert_eq!(read_output(&[0, 0, 0, 1, 1, 2], 0), Err(FrameError::DataOutOfBounds));
    assert_eq!(read_output(&[0, 0, 0, 0], 0), Ok(vec![]));
}
