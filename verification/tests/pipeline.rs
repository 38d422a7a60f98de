//! Tests of the workspace builder, the artifact extractor and the compile
//! response assembly.

use move_web_compile::compile::compile_outcome;
use move_web_compile::compile::failure_response;
use move_web_compile::compile::success_response;
use move_web_compile::compile::CompileOptions;
use move_web_compile::extract::extract_artifacts;
use move_web_compile::extract::is_user_module;
use move_web_compile::extract::size_estimate;
use move_web_compile::extract::UnitInfo;
use move_web_compile::numfmt::u64_to_string;
use move_web_compile::workspace::build_manifest;
use move_web_compile::workspace::source_rel_path;
use move_web_compile::workspace::workspace_dir_name;

const MANIFEST_BASE: &str = "[package]\nname = \"MoveWebCompile\"\nversion = \"0.0.1\"\nedition = \"2024.beta\"\n\n[dependencies]\nSui = { git = \"https://github.com/MystenLabs/sui.git\", subdir = \"crates/sui-framework/packages/sui-framework\", rev = \"framework/testnet\" }\n";

const DEFAULT_ADDRESSES: &str =
    "[addresses]\nstd = \"0x1\"\nsui = \"0x2\"\nexamples = \"0x0\"\nhello_world = \"0x0\"\n";

fn unit(name: &str, f: usize, s: usize, g: usize, i: usize) -> UnitInfo {
    UnitInfo {
        name: name.to_string(),
        function_defs: f,
        struct_defs: s,
        signatures: g,
        identifiers: i,
    }
}

#[test]
fn manifest_without_config_uses_default_addresses() {
    let m = build_manifest(&None);
    assert_eq!(m, format!("{}{}", MANIFEST_BASE, DEFAULT_ADDRESSES));
}

#[test]
fn manifest_with_blank_config_has_no_address_section() {
    let m = build_manifest(&Some("   \n\t ".to_string()));
    assert_eq!(m, MANIFEST_BASE);
    let m2 = build_manifest(&Some(String::new()));
    assert_eq!(m2, MANIFEST_BASE);
}

#[test]
fn manifest_with_config_appends_it_verbatim() {
    let cfg = "[addresses]\nmy_addr = \"0x42\"\n";
    let m = build_manifest(&Some(cfg.to_string()));
    assert_eq!(m, format!("{}{}", MANIFEST_BASE, cfg));
}

#[test]
fn workspace_names_carry_token_and_counter() {
    let n = workspace_dir_name("20250101120000", 7);
    assert_eq!(n, "move-web-compiler-20250101120000-7");
}

#[test]
fn workspace_names_differ_per_counter() {
    let a = workspace_dir_name("20250101120000", 1);
    let b = workspace_dir_name("20250101120000", 2);
    assert_ne!(a, b);
}

#[test]
fn decimal_rendering_matches_std() {
    assert_eq!(u64_to_string(0), "0");
    assert_eq!(u64_to_string(9), "9");
    assert_eq!(u64_to_string(1024), "1024");
    assert_eq!(u64_to_string(18446744073709551615), "18446744073709551615");
}

#[test]
fn source_files_live_under_sources() {
    assert_eq!(source_rel_path("main.move"), "sources/main.move");
}

#[test]
fn size_estimate_is_the_fixed_weighted_sum() {
    assert_eq!(size_estimate(1, 1, 2, 3), 1 * 8 + 1 * 16 + 2 * 4 + 3 * 12);
    assert_eq!(size_estimate(0, 0, 0, 0), 0);
}

#[test]
fn classification_matches_markers() {
    assert!(is_user_module("examples::hello"));
    assert!(is_user_module("0x0::hello_world"));
    assert!(is_user_module("examples::counter"));
    assert!(!is_user_module("0x2::coin"));
    assert!(!is_user_module("std::vector"));
}

#[test]
fn extraction_keeps_every_encoded_module() {
    let units = vec![unit("examples::hello", 1, 1, 2, 3), unit("0x2::coin", 9, 9, 9, 9)];
    let encoded =
        vec!["aGVsbG8=".to_string(), "d29ybGQ=".to_string(), "IQ==".to_string()];
    let r = extract_artifacts(&units, &encoded);
    assert_eq!(r.encoded_modules, encoded);
}

#[test]
fn extraction_names_users_then_placeholders() {
    let units = vec![unit("examples::hello", 1, 1, 2, 3), unit("0x2::coin", 9, 9, 9, 9)];
    let encoded =
        vec!["aGVsbG8=".to_string(), "d29ybGQ=".to_string(), "IQ==".to_string()];
    let r = extract_artifacts(&units, &encoded);
    assert_eq!(r.module_names, vec!["examples::hello", "Module_2", "Module_3"]);
    assert_eq!(r.module_sizes, vec![68, 1024, 1024]);
}

#[test]
fn extraction_records_a_repeated_user_name_once() {
    let units = vec![unit("examples::hello", 1, 0, 0, 0), unit("examples::hello", 2, 0, 0, 0)];
    let encoded = vec!["aGVsbG8=".to_string()];
    let r = extract_artifacts(&units, &encoded);
    assert_eq!(r.module_names, vec!["examples::hello"]);
    assert_eq!(r.module_sizes, vec![8]);
}

#[test]
fn module_names_have_no_duplicates() {
    let units = vec![
        unit("examples::hello", 1, 1, 1, 1),
        unit("one::hello_two", 2, 2, 2, 2),
        unit("std::vector", 3, 3, 3, 3),
    ];
    let encoded = vec!["AA==".to_string(), "AQ==".to_string(), "Ag==".to_string(),
        "Aw==".to_string()];
    let r = extract_artifacts(&units, &encoded);
    for i in 0..r.module_names.len() {
        for j in 0..i {
            assert_ne!(r.module_names[i], r.module_names[j]);
        }
    }
}

#[test]
fn persistence_decodes_under_resolved_names() {
    let units = vec![unit("examples::hello", 1, 1, 2, 3)];
    let encoded = vec!["aGVsbG8=".to_string(), "d29ybGQ=".to_string()];
    let r = extract_artifacts(&units, &encoded);
    assert_eq!(r.persist.len(), 2);
    assert_eq!(r.persist[0].file_name, "examples::hello.mv");
    assert_eq!(r.persist[0].bytes, b"hello".to_vec());
    assert_eq!(r.persist[1].file_name, "Module_2.mv");
    assert_eq!(r.persist[1].bytes, b"world".to_vec());
}

#[test]
fn an_undecodable_module_is_kept_but_not_persisted() {
    let units = vec![unit("examples::hello", 1, 1, 2, 3)];
    let encoded = vec!["!!!not-base64!!!".to_string(), "aGVsbG8=".to_string()];
    let r = extract_artifacts(&units, &encoded);
    assert_eq!(r.encoded_modules.len(), 2);
    assert_eq!(r.persist.len(), 1);
    assert_eq!(r.persist[0].file_name, "Module_2.mv");
    assert_eq!(r.persist[0].bytes, b"hello".to_vec());
}

#[test]
fn more_user_names_than_payloads_is_preserved() {
    let units = vec![unit("examples::hello", 1, 0, 0, 0), unit("other::hello_two", 0, 1, 0, 0)];
    let encoded = vec!["aGVsbG8=".to_string()];
    let r = extract_artifacts(&units, &encoded);
    assert_eq!(r.encoded_modules.len(), 1);
    assert_eq!(r.module_names, vec!["examples::hello", "other::hello_two"]);
    assert_eq!(r.module_sizes, vec![8, 16]);
    assert_eq!(r.persist.len(), 1);
    assert_eq!(r.persist[0].file_name, "examples::hello.mv");
}

#[test]
fn extraction_is_deterministic() {
    let units = vec![unit("examples::hello", 1, 1, 2, 3), unit("0x2::coin", 9, 9, 9, 9)];
    let encoded = vec!["aGVsbG8=".to_string(), "d29ybGQ=".to_string()];
    let a = extract_artifacts(&units, &encoded);
    let b = extract_artifacts(&units, &encoded);
    assert_eq!(a.encoded_modules, b.encoded_modules);
    assert_eq!(a.module_names, b.module_names);
    assert_eq!(a.module_sizes, b.module_sizes);
    assert_eq!(a.persist.len(), b.persist.len());
}

#[test]
fn empty_toolchain_output_yields_empty_lists() {
    let units: Vec<UnitInfo> = Vec::new();
    let encoded: Vec<String> = Vec::new();
    let r = extract_artifacts(&units, &encoded);
    assert!(r.encoded_modules.is_empty());
    assert!(r.module_names.is_empty());
    assert!(r.module_sizes.is_empty());
    assert!(r.persist.is_empty());
}

#[test]
fn a_successful_build_passes_payloads_through() {
    let r = compile_outcome(Ok(vec!["AA==".to_string()]));
    assert!(r.success);
    assert_eq!(r.bytecode_base64, vec!["AA==".to_string()]);
    assert!(r.error_message.is_none());
}

#[test]
fn a_failed_build_reports_and_does_not_fault() {
    let r = compile_outcome(Err("expected identifier".to_string()));
    assert!(!r.success);
    assert!(r.bytecode_base64.is_empty());
    assert_eq!(r.error_message.as_deref(), Some("编译错误: expected identifier"));
}

#[test]
fn failure_responses_carry_the_message_and_nothing_else() {
    let r = failure_response("创建临时文件失败: denied".to_string());
    assert!(!r.success);
    assert!(r.bytecode_base64.is_empty());
    assert!(r.module_names.is_empty());
    assert!(r.bytecode_size.is_empty());
    assert_eq!(r.compile_time_ms, 0);
    assert_eq!(r.error_message.as_deref(), Some("创建临时文件失败: denied"));
    assert!(r.warnings.is_empty());
    assert!(r.bytecode_path.is_none());
}

#[test]
fn success_responses_carry_the_artifacts() {
    let units = vec![unit("examples::hello", 1, 1, 2, 3)];
    let encoded = vec!["aGVsbG8=".to_string()];
    let artifacts = extract_artifacts(&units, &encoded);
    let r = success_response(artifacts, 321, "/tmp/move-web-compiler-1-1".to_string());
    assert!(r.success);
    assert_eq!(r.bytecode_base64, vec!["aGVsbG8=".to_string()]);
    assert_eq!(r.module_names, vec!["examples::hello"]);
    assert_eq!(r.bytecode_size, vec![68]);
    assert_eq!(r.compile_time_ms, 321);
    assert!(r.error_message.is_none());
    assert!(r.warnings.is_empty());
    assert_eq!(r.bytecode_path.as_deref(), Some("/tmp/move-web-compiler-1-1"));
}

#[test]
fn default_options_dump_base64_and_ignore_the_chain() {
    let o = CompileOptions::default();
    assert!(!o.with_unpublished_dependencies);
    assert!(o.dump_bytecode_as_base64);
    assert!(o.ignore_chain);
    assert!(!o.generate_struct_layouts);
    assert!(o.chain_id.is_none());
}
