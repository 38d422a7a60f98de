//! Command proxy: validation of a proxied command line and parsing of the
//! external tool's console output.
//!
//! The library decides whether a command may be spawned and what its
//! arguments are; the spawn itself, and the captured output handed back,
//! are the caller's business.

use vstd::prelude::*;
use crate::strutil::contains_seq;
use crate::strutil::contains_str;
use crate::strutil::split_on;
use crate::strutil::split_on_str;
use crate::strutil::split_ws;
use crate::strutil::split_ws_str;
use crate::strutil::str_starts_with;

verus! {

/// The token every proxied command must start with.
pub open spec fn tool_token() -> Seq<char> {
    "sui"@
}

/// A command is acceptable when its first whitespace-separated token is the
/// external tool's name and at least one argument follows.
pub open spec fn command_valid(s: Seq<char>) -> bool {
    split_ws(s).len() >= 2 && split_ws(s)[0] == tool_token()
}

/// The arguments handed to the external tool: every token after the first.
pub open spec fn command_args(s: Seq<char>) -> Seq<Seq<char>> {
    split_ws(s).skip(1)
}

/// The rejection message for a malformed command.
pub open spec fn invalid_command_message() -> Seq<char> {
    "无效的命令格式，必须是sui开头的命令"@
}

/// Validate a proxied command line.  A command whose first token is not the
/// tool's name, or which has no further argument, is rejected — before any
/// process is spawned — with the fixed message; an accepted command yields
/// exactly the argument list for the spawn.
pub fn validate_command(command: &str) -> (r: Result<Vec<String>, String>)
    ensures
        r is Ok <==> command_valid(command@),
        r is Ok ==> r.unwrap().deep_view() == command_args(command@),
        r is Err ==> r.unwrap_err()@ == invalid_command_message(),
{
    let parts = split_ws_str(command);
    if parts.len() < 2 {
        return Result::Err(String::from_str("无效的命令格式，必须是sui开头的命令"));
    }
    let tool = String::from_str("sui");
    if !(parts[0] == tool) {
        assert(parts.deep_view()[0] == split_ws(command@)[0]);
        return Result::Err(String::from_str("无效的命令格式，必须是sui开头的命令"));
    }
    assert(parts.deep_view()[0] == split_ws(command@)[0]);
    let mut args: Vec<String> = Vec::new();
    let mut i: usize = 1;
    proof {
        assert(args.deep_view() =~= split_ws(command@).subrange(1, 1));
    }
    while i < parts.len()
        invariant
            1 <= i <= parts@.len(),
            parts.deep_view() == split_ws(command@),
            args.deep_view() == split_ws(command@).subrange(1, i as int),
        decreases parts@.len() - i,
    {
        let ghost old_args = args.deep_view();
        args.push(parts[i].clone());
        proof {
            assert(args.deep_view() =~= old_args.push(split_ws(command@)[i as int]));
            assert(args.deep_view() =~= split_ws(command@).subrange(1, i + 1));
        }
        i += 1;
    }
    proof {
        assert(args.deep_view() =~= command_args(command@));
    }
    Result::Ok(args)
}

/// A line announces the published package when it holds either the
/// localized or the English label.
pub open spec fn marker_line(l: Seq<char>) -> bool {
    contains_seq(l, "包ID"@) || contains_seq(l, "Package ID"@)
}

/// A token carries the fixed hex address prefix.
pub open spec fn hex_prefixed(t: Seq<char>) -> bool {
    "0x"@.is_prefix_of(t)
}

/// The first token of `toks` that carries the hex address prefix.
pub open spec fn first_hex_token_in(toks: Seq<Seq<char>>) -> Option<Seq<char>>
    decreases toks.len(),
{
    if toks.len() == 0 {
        Option::None
    } else if hex_prefixed(toks[0]) {
        Option::Some(toks[0])
    } else {
        first_hex_token_in(toks.drop_first())
    }
}

/// A line segment with a carriage return before the line ending stripped.
pub open spec fn strip_cr(l: Seq<char>) -> Seq<char> {
    if l.len() > 0 && l.last() == '\r' {
        l.drop_last()
    } else {
        l
    }
}

/// The lines of a console text: split at every newline, a carriage return
/// before the newline stripped, the final line ending optional.
pub open spec fn lines_of(s: Seq<char>) -> Seq<Seq<char>> {
    let raw = split_on(s, '\n');
    let kept = if raw.last().len() == 0 {
        raw.drop_last()
    } else {
        raw
    };
    kept.map_values(|l: Seq<char>| strip_cr(l))
}

/// The identifier announced by `lines`: on the first marker line holding a
/// hex-prefixed token, that token; later lines are tried when a marker line
/// holds none.
pub open spec fn extract_id_from(lines: Seq<Seq<char>>) -> Option<Seq<char>>
    decreases lines.len(),
{
    if lines.len() == 0 {
        Option::None
    } else if marker_line(lines[0]) && first_hex_token_in(split_ws(lines[0])) is Some {
        first_hex_token_in(split_ws(lines[0]))
    } else {
        extract_id_from(lines.drop_first())
    }
}

/// The package identifier announced in a deploy's standard output, if any.
/// Its absence is missing data, not an error.
pub open spec fn package_id_of(stdout: Seq<char>) -> Option<Seq<char>> {
    extract_id_from(lines_of(stdout))
}

/// Split a console text into lines.
fn collect_lines(s: &str) -> (r: Vec<String>)
    ensures
        r.deep_view() == lines_of(s@),
{
    let raw = split_on_str(s, '\n');
    let mut out: Vec<String> = Vec::new();
    let ghost kept = (if split_on(s@, '\n').last().len() == 0 {
        split_on(s@, '\n').drop_last()
    } else {
        split_on(s@, '\n')
    });
    proof {
        crate::strutil::lemma_split_on_len(s@, '\n');
    }
    let n = if raw[raw.len() - 1].unicode_len() == 0 {
        raw.len() - 1
    } else {
        raw.len()
    };
    proof {
        assert(raw.deep_view()[raw@.len() - 1] == split_on(s@, '\n').last());
        if split_on(s@, '\n').last().len() == 0 {
            assert(n == raw@.len() - 1);
            assert(kept =~= raw.deep_view().take(n as int));
        } else {
            assert(kept =~= raw.deep_view().take(n as int));
        }
    }
    let mut i: usize = 0;
    proof {
        assert(out.deep_view() =~= kept.take(0).map_values(|l: Seq<char>| strip_cr(l)));
    }
    while i < n
        invariant
            n <= raw@.len(),
            i <= n,
            raw.deep_view() == split_on(s@, '\n'),
            kept == raw.deep_view().take(n as int),
            out.deep_view() == kept.take(i as int).map_values(|l: Seq<char>| strip_cr(l)),
        decreases n - i,
    {
        let line = &raw[i];
        let llen = line.unicode_len();
        let stripped: String = if llen > 0 && line.get_char(llen - 1) == '\r' {
            String::from_str(line.as_str().substring_char(0, llen - 1))
        } else {
            line.clone()
        };
        proof {
            if llen > 0 && line@.last() == '\r' {
                assert(line@.subrange(0, llen - 1) =~= line@.drop_last());
            }
            assert(stripped@ == strip_cr(raw.deep_view()[i as int]));
        }
        let ghost old_out = out.deep_view();
        out.push(stripped);
        proof {
            assert(out.deep_view() =~= old_out.push(strip_cr(kept[i as int])));
            assert(out.deep_view() =~= kept.take(i + 1).map_values(|l: Seq<char>| strip_cr(l)));
        }
        i += 1;
    }
    proof {
        assert(kept.take(n as int) =~= kept);
        assert(out.deep_view() =~= lines_of(s@));
    }
    out
}

/// The first hex-prefixed token of one line.
fn first_hex_token(line: &str) -> (r: Option<String>)
    ensures
        r is Some <==> first_hex_token_in(split_ws(line@)) is Some,
        r is Some ==> r.unwrap()@ == first_hex_token_in(split_ws(line@)).unwrap(),
{
    let toks = split_ws_str(line);
    let ghost tv = split_ws(line@);
    let mut j: usize = 0;
    proof {
        assert(tv.skip(0) =~= tv);
    }
    while j < toks.len()
        invariant
            j <= toks@.len(),
            tv == split_ws(line@),
            toks.deep_view() == tv,
            first_hex_token_in(tv) == first_hex_token_in(tv.skip(j as int)),
        decreases toks@.len() - j,
    {
        proof {
            assert(tv.skip(j as int)[0] == tv[j as int]);
        }
        if str_starts_with(toks[j].as_str(), "0x") {
            let t = toks[j].clone();
            proof {
                assert(toks@[j as int]@ == toks.deep_view()[j as int]);
                assert(t@ == tv[j as int]);
                assert(hex_prefixed(tv[j as int]));
                assert(tv.skip(j as int).len() > 0);
                assert(tv.skip(j as int)[0] == tv[j as int]);
                assert(first_hex_token_in(tv.skip(j as int)) == Option::Some(tv[j as int]));
                assert(first_hex_token_in(split_ws(line@)) == Option::Some(t@));
            }
            return Option::Some(t);
        }
        proof {
            assert(toks@[j as int]@ == toks.deep_view()[j as int]);
        }
        proof {
            assert(tv.skip(j as int).drop_first() =~= tv.skip(j + 1));
        }
        j += 1;
    }
    proof {
        assert(tv.skip(toks@.len() as int).len() == 0);
    }
    Option::None
}

/// Scan a deploy's standard output for the announced package identifier.
pub fn extract_package_id(stdout: &str) -> (r: Option<String>)
    ensures
        r is Some <==> package_id_of(stdout@) is Some,
        r is Some ==> r.unwrap()@ == package_id_of(stdout@).unwrap(),
{
    let lines = collect_lines(stdout);
    let ghost lv = lines_of(stdout@);
    let mut i: usize = 0;
    proof {
        assert(lv.skip(0) =~= lv);
    }
    while i < lines.len()
        invariant
            i <= lines@.len(),
            lv == lines_of(stdout@),
            lines.deep_view() == lv,
            extract_id_from(lv) == extract_id_from(lv.skip(i as int)),
        decreases lines@.len() - i,
    {
        proof {
            assert(lv.skip(i as int)[0] == lv[i as int]);
        }
        let line = &lines[i];
        proof {
            assert(lines@[i as int]@ == lines.deep_view()[i as int]);
        }
        let is_marker = if contains_str(line.as_str(), "包ID") {
            true
        } else {
            contains_str(line.as_str(), "Package ID")
        };
        if is_marker {
            let tok = first_hex_token(line.as_str());
            match tok {
                Option::Some(t) => {
                    proof {
                        assert(marker_line(lv[i as int]));
                        assert(first_hex_token_in(split_ws(lv[i as int])) is Some);
                        assert(extract_id_from(lv.skip(i as int)) == first_hex_token_in(
                            split_ws(lv[i as int]),
                        ));
                    }
                    return Option::Some(t);
                },
                Option::None => {},
            }
        }
        proof {
            assert(lv.skip(i as int).drop_first() =~= lv.skip(i + 1));
        }
        i += 1;
    }
    proof {
        assert(lv.skip(lines@.len() as int).len() == 0);
    }
    Option::None
}

/// What the proxy reports of one executed command.
pub struct CommandOutcome {
    pub success: bool,
    pub package_id: Option<String>,
    pub output: String,
    pub error: Option<String>,
}

/// Assemble the deploy report from a finished subprocess: success is
/// exactly the exit flag, both captured streams stand in the output, the
/// package identifier is scanned out of the standard output, and a failed
/// exit carries the captured error stream.
pub fn deploy_outcome(exit_success: bool, stdout: &str, stderr: &str) -> (r: CommandOutcome)
    ensures
        r.success == exit_success,
        r.package_id is Some <==> package_id_of(stdout@) is Some,
        r.package_id is Some ==> r.package_id.unwrap()@ == package_id_of(stdout@).unwrap(),
        r.output@ == "stdout: "@ + stdout@ + "\nstderr: "@ + stderr@,
        exit_success ==> r.error is None,
        !exit_success ==> r.error is Some && r.error.unwrap()@ == stderr@,
{
    let package_id = extract_package_id(stdout);
    let output = String::from_str("stdout: ").concat(stdout).concat("\nstderr: ").concat(stderr);
    let error = if exit_success {
        Option::None
    } else {
        Option::Some(String::from_str(stderr))
    };
    CommandOutcome { success: exit_success, package_id, output, error }
}

/// Assemble the test report from a finished subprocess: success is exactly
/// the exit flag, both captured streams stand under their headings, and a
/// failed exit carries the captured error stream.
pub fn test_outcome(exit_success: bool, stdout: &str, stderr: &str) -> (r: CommandOutcome)
    ensures
        r.success == exit_success,
        r.package_id is None,
        r.output@ == "# 输出结果：\n"@ + stdout@ + "\n\n# 错误/警告：\n"@ + stderr@,
        exit_success ==> r.error is None,
        !exit_success ==> r.error is Some && r.error.unwrap()@ == stderr@,
{
    let output = String::from_str("# 输出结果：\n").concat(stdout).concat(
        "\n\n# 错误/警告：\n",
    ).concat(stderr);
    let error = if exit_success {
        Option::None
    } else {
        Option::Some(String::from_str(stderr))
    };
    CommandOutcome { success: exit_success, package_id: Option::None, output, error }
}

} // verus!
