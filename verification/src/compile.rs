//! Compile request plumbing: configuration, outcome normalization, and the
//! response assembled for the caller.

use vstd::prelude::*;
use crate::extract::ModuleArtifacts;

verus! {

/// Compile configuration, as a caller may tune it.
#[derive(Clone, Debug)]
pub struct CompileOptions {
    /// Include modules of dependencies that are not published.
    pub with_unpublished_dependencies: bool,
    /// Render the bytecode in the transport encoding.
    pub dump_bytecode_as_base64: bool,
    /// Resolve dependencies without consulting a chain.
    pub ignore_chain: bool,
    /// Also produce struct layout descriptions.
    pub generate_struct_layouts: bool,
    /// The chain against which dependencies are resolved, if any.
    pub chain_id: Option<String>,
}

impl Default for CompileOptions {
    /// The default configuration: transport encoding on, the chain
    /// ignored, nothing else set.
    fn default() -> (r: Self)
        ensures
            !r.with_unpublished_dependencies,
            r.dump_bytecode_as_base64,
            r.ignore_chain,
            !r.generate_struct_layouts,
            r.chain_id is None,
    {
        CompileOptions {
            with_unpublished_dependencies: false,
            dump_bytecode_as_base64: true,
            ignore_chain: true,
            generate_struct_layouts: false,
            chain_id: Option::None,
        }
    }
}

/// What one compile yields at the library boundary.
#[derive(Debug)]
pub struct CompileResult {
    /// Whether the build went through.
    pub success: bool,
    /// The transport-encoded modules, in toolchain order.
    pub bytecode_base64: Vec<String>,
    /// The diagnostic text of a failed build.
    pub error_message: Option<String>,
}

/// The prefix put before a toolchain diagnostic.
pub open spec fn build_error_prefix() -> Seq<char> {
    "编译错误: "@
}

/// Normalize a build's outcome: a successful build passes its payloads
/// through untouched; a failed build yields no payloads and carries the
/// toolchain's diagnostic text, verbatim, behind the fixed prefix.  The
/// request itself never fails either way.
pub fn compile_outcome(build: Result<Vec<String>, String>) -> (r: CompileResult)
    ensures
        build is Ok ==> r.success && r.bytecode_base64 == build.unwrap() && r.error_message
            is None,
        build is Err ==> !r.success && r.bytecode_base64@.len() == 0 && r.error_message is Some
            && r.error_message.unwrap()@ == build_error_prefix() + build.unwrap_err()@,
{
    match build {
        Result::Ok(bytecode) => CompileResult {
            success: true,
            bytecode_base64: bytecode,
            error_message: Option::None,
        },
        Result::Err(e) => CompileResult {
            success: false,
            bytecode_base64: Vec::new(),
            error_message: Option::Some(String::from_str("编译错误: ").concat(e.as_str())),
        },
    }
}

/// The full response for one compile request.
#[derive(Debug)]
pub struct CompileResponse {
    pub success: bool,
    pub bytecode_base64: Vec<String>,
    pub module_names: Vec<String>,
    pub bytecode_size: Vec<usize>,
    pub compile_time_ms: u64,
    pub error_message: Option<String>,
    pub warnings: Vec<String>,
    pub bytecode_path: Option<String>,
}

/// Assemble the response of a compile that reached extraction: the
/// artifact lists pass through unchanged, the workspace path is reported,
/// and the warnings list is present and empty, reserved for future
/// toolchain diagnostics.
pub fn success_response(
    artifacts: ModuleArtifacts,
    compile_time_ms: u64,
    workspace_path: String,
) -> (r: CompileResponse)
    ensures
        r.success,
        r.bytecode_base64 == artifacts.encoded_modules,
        r.module_names == artifacts.module_names,
        r.bytecode_size == artifacts.module_sizes,
        r.compile_time_ms == compile_time_ms,
        r.error_message is None,
        r.warnings@.len() == 0,
        r.bytecode_path is Some && r.bytecode_path.unwrap()@ == workspace_path@,
{
    CompileResponse {
        success: true,
        bytecode_base64: artifacts.encoded_modules,
        module_names: artifacts.module_names,
        bytecode_size: artifacts.module_sizes,
        compile_time_ms,
        error_message: Option::None,
        warnings: Vec::new(),
        bytecode_path: Option::Some(workspace_path),
    }
}

/// Assemble the response of a request that failed before or in the build:
/// no payloads, no names, no sizes, no path, and the message populated.
/// The failure stands in the response; it is no fault of the transport.
pub fn failure_response(message: String) -> (r: CompileResponse)
    ensures
        !r.success,
        r.bytecode_base64@.len() == 0,
        r.module_names@.len() == 0,
        r.bytecode_size@.len() == 0,
        r.compile_time_ms == 0,
        r.error_message is Some && r.error_message.unwrap()@ == message@,
        r.warnings@.len() == 0,
        r.bytecode_path is None,
{
    CompileResponse {
        success: false,
        bytecode_base64: Vec::new(),
        module_names: Vec::new(),
        bytecode_size: Vec::new(),
        compile_time_ms: 0,
        error_message: Option::Some(message),
        warnings: Vec::new(),
        bytecode_path: Option::None,
    }
}

/// The message of a failed workspace construction.
pub fn workspace_failure_message(detail: &str) -> (r: String)
    ensures
        r@ == "创建临时文件失败: "@ + detail@,
{
    String::from_str("创建临时文件失败: ").concat(detail)
}

/// The message of a failed build, the toolchain's diagnostic verbatim.
pub fn build_failure_message(detail: &str) -> (r: String)
    ensures
        r@ == build_error_prefix() + detail@,
{
    String::from_str("编译错误: ").concat(detail)
}

} // verus!
