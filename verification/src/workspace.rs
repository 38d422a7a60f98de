//! Workspace construction: the manifest text and the unique directory name
//! for one compile request.
//!
//! The library only computes the texts and names; creating directories and
//! writing files is the caller's business.

use vstd::prelude::*;
use crate::numfmt::dec_of;
use crate::numfmt::digit_char;
use crate::numfmt::is_dec_digit;
use crate::numfmt::lemma_dec_of_digits;
use crate::numfmt::lemma_dec_of_injective;
use crate::numfmt::u64_to_string;
use crate::strutil::all_ws;
use crate::strutil::is_blank;

verus! {

/// The fixed head of every generated manifest: package identity and the
/// dependency on the framework sources.
pub open spec fn manifest_base() -> Seq<char> {
    "[package]\nname = \"MoveWebCompile\"\nversion = \"0.0.1\"\nedition = \"2024.beta\"\n\n[dependencies]\nSui = { git = \"https://github.com/MystenLabs/sui.git\", subdir = \"crates/sui-framework/packages/sui-framework\", rev = \"framework/testnet\" }\n"@
}

/// The address section used when the caller supplies none.
pub open spec fn default_address_section() -> Seq<char> {
    "[addresses]\nstd = \"0x1\"\nsui = \"0x2\"\nexamples = \"0x0\"\nhello_world = \"0x0\"\n"@
}

/// The three-state address rule: no configuration yields the default
/// section, a blank configuration yields no section at all, and any other
/// configuration stands verbatim.
pub open spec fn address_section_of(config: Option<Seq<char>>) -> Seq<char> {
    match config {
        Option::None => default_address_section(),
        Option::Some(s) => if all_ws(s) {
            Seq::empty()
        } else {
            s
        },
    }
}

/// The manifest text for one compile request.
pub open spec fn manifest_of(config: Option<Seq<char>>) -> Seq<char> {
    manifest_base() + address_section_of(config)
}

/// Build the manifest: the fixed base, then the address section under the
/// three-state rule.
pub fn build_manifest(address_config: &Option<String>) -> (r: String)
    ensures
        r@ == manifest_of(address_config.deep_view()),
{
    let base = String::from_str(
        "[package]\nname = \"MoveWebCompile\"\nversion = \"0.0.1\"\nedition = \"2024.beta\"\n\n[dependencies]\nSui = { git = \"https://github.com/MystenLabs/sui.git\", subdir = \"crates/sui-framework/packages/sui-framework\", rev = \"framework/testnet\" }\n",
    );
    match address_config {
        Option::None => base.concat(
            "[addresses]\nstd = \"0x1\"\nsui = \"0x2\"\nexamples = \"0x0\"\nhello_world = \"0x0\"\n",
        ),
        Option::Some(cfg) => {
            if is_blank(cfg.as_str()) {
                proof {
                    assert(base@ + Seq::<char>::empty() =~= base@);
                }
                base
            } else {
                base.concat(cfg.as_str())
            }
        },
    }
}

/// Prefix of every workspace directory name.
pub open spec fn workspace_prefix() -> Seq<char> {
    "move-web-compiler-"@
}

/// The directory name for one request's workspace: the fixed prefix, a
/// clock token, and a per-process counter.  The counter is what keeps two
/// requests apart when the clock token has coarse granularity.
pub open spec fn workspace_name_of(token: Seq<char>, counter: nat) -> Seq<char> {
    workspace_prefix() + token + seq!['-'] + dec_of(counter)
}

/// Render the workspace directory name for a clock token and a counter.
pub fn workspace_dir_name(token: &str, counter: u64) -> (r: String)
    ensures
        r@ == workspace_name_of(token@, counter as nat),
{
    proof {
        reveal_strlit("-");
    }
    let n = u64_to_string(counter);
    String::from_str("move-web-compiler-").concat(token).concat("-").concat(n.as_str())
}

/// Isolation of workspaces: two directory names agree only when both the
/// clock token and the counter agree, so concurrent requests that differ
/// in either never share a path.  The counter's decimal rendering holds
/// digits alone, so the separator before it is always the last one, and
/// the name splits back into its parts in only one way — whatever the
/// token holds.
pub proof fn lemma_workspace_names_distinct(t1: Seq<char>, c1: nat, t2: Seq<char>, c2: nat)
    requires
        t1 != t2 || c1 != c2,
    ensures
        workspace_name_of(t1, c1) != workspace_name_of(t2, c2),
{
    lemma_dec_of_digits(c1);
    lemma_dec_of_digits(c2);
    assert(!is_dec_digit('-')) by {
        assert(forall|d: int| 0 <= d < 10 ==> digit_char(d) != '-');
    }
    if workspace_name_of(t1, c1) == workspace_name_of(t2, c2) {
        let pre = workspace_prefix();
        let u1 = t1 + seq!['-'] + dec_of(c1);
        let u2 = t2 + seq!['-'] + dec_of(c2);
        assert(workspace_name_of(t1, c1) =~= pre + u1);
        assert(workspace_name_of(t2, c2) =~= pre + u2);
        assert((pre + u1).len() == (pre + u2).len());
        assert(u1.len() == u2.len());
        assert forall|j: int| 0 <= j < u1.len() implies u1[j] == u2[j] by {
            assert((pre + u1)[pre.len() + j] == u1[j]);
            assert((pre + u2)[pre.len() + j] == u2[j]);
        }
        let d1 = t1.len() as int;
        let d2 = t2.len() as int;
        assert(u1[d1] == '-') by {
            assert((t1 + seq!['-'])[d1] == '-');
        }
        assert(u2[d2] == '-') by {
            assert((t2 + seq!['-'])[d2] == '-');
        }
        if d1 < d2 {
            assert(u2[d1 + 1 + (d2 - d1 - 1)] == '-');
            assert(u1[d1 + 1 + (d2 - d1 - 1)] == dec_of(c1)[d2 - d1 - 1]);
            assert(is_dec_digit(dec_of(c1)[d2 - d1 - 1]));
        } else if d2 < d1 {
            assert(u1[d2 + 1 + (d1 - d2 - 1)] == '-');
            assert(u2[d2 + 1 + (d1 - d2 - 1)] == dec_of(c2)[d1 - d2 - 1]);
            assert(is_dec_digit(dec_of(c2)[d1 - d2 - 1]));
        } else {
            assert forall|j: int| 0 <= j < d1 implies t1[j] == t2[j] by {
                assert(u1[j] == (t1 + seq!['-'])[j]);
                assert(u2[j] == (t2 + seq!['-'])[j]);
            }
            assert(t1 =~= t2);
            assert(dec_of(c1).len() == dec_of(c2).len());
            assert forall|j: int| 0 <= j < dec_of(c1).len() implies dec_of(c1)[j] == dec_of(
                c2,
            )[j] by {
                assert(u1[d1 + 1 + j] == dec_of(c1)[j]);
                assert(u2[d2 + 1 + j] == dec_of(c2)[j]);
            }
            assert(dec_of(c1) =~= dec_of(c2));
            lemma_dec_of_injective(c1, c2);
        }
    }
}

/// Relative path of the caller's source file inside a workspace.
pub fn source_rel_path(file_name: &str) -> (r: String)
    ensures
        r@ == "sources/"@ + file_name@,
{
    String::from_str("sources/").concat(file_name)
}

} // verus!
