use agent_loop::security::{contains_as_word, contains_dangerous_command, is_word_char, process};

#[test]
fn detects_rm() {
    assert!(contains_dangerous_command("please run: rm -rf /tmp/foo"));
    assert!(contains_dangerous_command("cmd: rm file.txt"));
    assert!(contains_dangerous_command("RM -rf /"));
    assert!(contains_dangerous_command("{\"cmd\":\"rm\"}"));
}

#[test]
fn detects_sudo() {
    assert!(contains_dangerous_command("sudo apt-get install foo"));
    assert!(contains_dangerous_command("SUDO rm -rf /"));
    assert!(contains_dangerous_command("{\"run\":\"sudo make\"}"));
}

#[test]
fn allows_safe_words() {
    assert!(!contains_dangerous_command("terraform apply"));
    assert!(!contains_dangerous_command("form submit"));
    assert!(!contains_dangerous_command("alarm clock"));
    assert!(!contains_dangerous_command("permissions: read"));
    assert!(!contains_dangerous_command("normal webhook payload"));
}

#[test]
fn allows_empty() {
    assert!(!contains_dangerous_command(""));
    assert!(!contains_dangerous_command("{}"));
}

#[test]
fn word_boundaries_use_ascii_word_characters() {
    assert!(is_word_char(b'a') && is_word_char(b'Z') && is_word_char(b'5') && is_word_char(b'_'));
    assert!(!is_word_char(b'-') && !is_word_char(b' ') && !is_word_char(0xe4));
    assert!(!contains_as_word("rm_x", "rm"));
    assert!(contains_as_word("x-rm-y", "rm"));
    assert!(contains_as_word("中rm", "rm"));
    assert!(!contains_as_word("r", "rm"));
}

fn frame(json: &str) -> Vec<u8> {
    let mut out = (json.len() as u32).to_le_bytes().to_vec();
    out.extend_from_slice(json.as_bytes());
    out
}

#[test]
fn process_answers_with_a_framed_verdict() {
    assert_eq!(process(b"sudo make"), frame(r#"{"allow":false}"#));
    assert_eq!(process(b"make all"), frame(r#"{"allow":true}"#));
    assert_eq!(process(&[0xff, b'r', b'm']), frame(r#"{"allow":true}"#));
}
