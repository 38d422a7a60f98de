//! Tests of the command proxy: validation, output parsing and report
//! assembly.

use move_web_compile::proxy::deploy_outcome;
use move_web_compile::proxy::extract_package_id;
use move_web_compile::proxy::test_outcome;
use move_web_compile::proxy::validate_command;

/// A stand-in for the subprocess boundary that only counts invocations.
struct SpyRunner {
    spawned: usize,
}

impl SpyRunner {
    fn run(&mut self, _args: &[String]) -> bool {
        self.spawned += 1;
        true
    }
}

#[test]
fn a_foreign_command_is_rejected_without_a_spawn() {
    let mut spy = SpyRunner { spawned: 0 };
    for cmd in ["ls -la", "rm -rf /", "suix client publish", "client publish"] {
        match validate_command(cmd) {
            Ok(args) => {
                spy.run(&args);
            }
            Err(e) => {
                assert_eq!(e, "无效的命令格式，必须是sui开头的命令");
            }
        }
    }
    assert_eq!(spy.spawned, 0);
}

#[test]
fn a_bare_tool_token_is_rejected() {
    assert!(validate_command("sui").is_err());
    assert!(validate_command("   sui   ").is_err());
    assert!(validate_command("").is_err());
}

#[test]
fn an_accepted_command_yields_its_arguments() {
    let args = validate_command("sui client publish --path /tmp/x --gas-budget 100000000")
        .expect("command should be accepted");
    assert_eq!(
        args,
        vec!["client", "publish", "--path", "/tmp/x", "--gas-budget", "100000000"]
    );
}

#[test]
fn publish_output_yields_the_package_id() {
    let out = deploy_outcome(true, "Package ID: 0xabc123", "");
    assert!(out.success);
    assert_eq!(out.package_id.as_deref(), Some("0xabc123"));
    assert_eq!(out.output, "stdout: Package ID: 0xabc123\nstderr: ");
    assert!(out.error.is_none());
}

#[test]
fn the_localized_label_is_recognized_too() {
    let id = extract_package_id("部署完成\n包ID: 0xdeadbeef 已发布\n");
    assert_eq!(id.as_deref(), Some("0xdeadbeef"));
}

#[test]
fn the_first_matching_line_wins() {
    let id = extract_package_id("Package ID: 0x111\nPackage ID: 0x222\n");
    assert_eq!(id.as_deref(), Some("0x111"));
}

#[test]
fn a_marker_line_without_a_token_does_not_stop_the_scan() {
    let id = extract_package_id("Package ID: pending\nPackage ID: 0x333\n");
    assert_eq!(id.as_deref(), Some("0x333"));
}

#[test]
fn output_without_markers_has_no_identifier() {
    assert!(extract_package_id("Build successful\nGas used: 100\n").is_none());
    assert!(extract_package_id("").is_none());
}

#[test]
fn carriage_returns_are_stripped_before_matching() {
    let id = extract_package_id("Package ID: 0xfeed\r\nrest\r\n");
    assert_eq!(id.as_deref(), Some("0xfeed"));
}

#[test]
fn a_failed_deploy_carries_stderr() {
    let out = deploy_outcome(false, "partial", "gas too low");
    assert!(!out.success);
    assert!(out.package_id.is_none());
    assert_eq!(out.output, "stdout: partial\nstderr: gas too low");
    assert_eq!(out.error.as_deref(), Some("gas too low"));
}

#[test]
fn test_reports_put_both_streams_under_headings() {
    let out = test_outcome(true, "3 tests passed", "");
    assert!(out.success);
    assert!(out.package_id.is_none());
    assert_eq!(out.output, "# 输出结果：\n3 tests passed\n\n# 错误/警告：\n");
    assert!(out.error.is_none());

    let bad = test_outcome(false, "", "1 test failed");
    assert!(!bad.success);
    assert_eq!(bad.error.as_deref(), Some("1 test failed"));
}
