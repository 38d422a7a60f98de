//! Fixed message prefixes for user-facing status lines, and the file-name
//! component of a path.

use vstd::prelude::*;
use crate::strutil::lemma_split_on_len;
use crate::strutil::split_on;
use crate::strutil::split_on_str;

verus! {

/// The marker the service puts before an error text.
pub open spec fn error_prefix() -> Seq<char> {
    "错误: "@
}

/// The marker the service puts before a success text.
pub open spec fn success_prefix() -> Seq<char> {
    "成功: "@
}

/// Prefix an error text with the error marker.
pub fn format_error(error: &str) -> (r: String)
    ensures
        r@ == error_prefix() + error@,
{
    String::from_str("错误: ").concat(error)
}

/// Prefix a status text with the success marker.
pub fn format_success(message: &str) -> (r: String)
    ensures
        r@ == success_prefix() + message@,
{
    String::from_str("成功: ").concat(message)
}

/// The last path component that is neither empty nor the current-directory
/// marker, scanning the separator-split segments from the end.
pub open spec fn last_component_of(segs: Seq<Seq<char>>) -> Option<Seq<char>>
    decreases segs.len(),
{
    if segs.len() == 0 {
        Option::None
    } else if segs.last().len() == 0 || segs.last() == "."@ {
        last_component_of(segs.drop_last())
    } else {
        Option::Some(segs.last())
    }
}

/// The file-name component of a path, as path resolution sees it: trailing
/// separators and current-directory markers are skipped, and a path that
/// ends in the parent-directory marker, or has nothing left, has none.
pub open spec fn file_name_of(path: Seq<char>) -> Option<Seq<char>> {
    match last_component_of(split_on(path, '/')) {
        Option::Some(c) => if c == ".."@ {
            Option::None
        } else {
            Option::Some(c)
        },
        Option::None => Option::None,
    }
}

/// The message for a path without a file-name component.
pub open spec fn invalid_path_message() -> Seq<char> {
    "无效的文件路径"@
}

/// The file-name component of a path.  Trailing separators and
/// current-directory markers do not hide it; a path that ends in the
/// parent-directory marker, or that has no component at all, is rejected
/// with the fixed message.
pub fn get_file_name(file_path: &str) -> (r: Result<String, String>)
    ensures
        r is Ok <==> file_name_of(file_path@) is Some,
        r is Ok ==> r.unwrap()@ == file_name_of(file_path@).unwrap(),
        r is Err ==> r.unwrap_err()@ == invalid_path_message(),
{
    let parts = split_on_str(file_path, '/');
    let ghost pv = split_on(file_path@, '/');
    let dot = String::from_str(".");
    let dotdot = String::from_str("..");
    let mut i: usize = parts.len();
    proof {
        lemma_split_on_len(file_path@, '/');
        assert(pv.take(parts@.len() as int) =~= pv);
    }
    while i > 0
        invariant
            i <= parts@.len(),
            pv == split_on(file_path@, '/'),
            parts.deep_view() == pv,
            dot@ == "."@,
            dotdot@ == ".."@,
            last_component_of(pv.take(i as int)) == last_component_of(pv),
        decreases i,
    {
        proof {
            assert(parts@[i - 1]@ == parts.deep_view()[i - 1]);
            assert(pv.take(i as int).last() == pv[i - 1]);
            assert(pv.take(i as int).drop_last() =~= pv.take(i - 1));
        }
        let seg = &parts[i - 1];
        if seg.unicode_len() == 0 || *seg == dot {
            i -= 1;
        } else if *seg == dotdot {
            proof {
                assert(seg@ == pv[i - 1]);
                assert(last_component_of(pv.take(i as int)) == Option::Some(pv[i - 1]));
                assert(file_name_of(file_path@) is None);
            }
            return Result::Err(String::from_str("无效的文件路径"));
        } else {
            proof {
                assert(seg@ == pv[i - 1]);
                assert(last_component_of(pv.take(i as int)) == Option::Some(pv[i - 1]));
                assert(file_name_of(file_path@) == Option::Some(pv[i - 1]));
            }
            return Result::Ok(seg.clone());
        }
    }
    proof {
        assert(pv.take(0).len() == 0);
    }
    Result::Err(String::from_str("无效的文件路径"))
}

} // verus!
