//! Artifact extraction: naming, sizing and encoding of compiled modules.
//!
//! The toolchain reports an ordered list of compiled units (a name and
//! structural counts each) and an ordered list of transport-encoded module
//! payloads.  This module classifies user-authored units, estimates their
//! size, resolves one name per payload — a declared name where one was
//! registered, a positional placeholder otherwise — and plans which decoded
//! payloads are persisted to disk.

use vstd::prelude::*;
use base64::Engine;
use crate::numfmt::dec_of;
use crate::numfmt::u64_to_string;
use crate::strutil::contains_seq;
use crate::strutil::contains_str;
use crate::strutil::str_starts_with;

verus! {

/// What the library reads of one compiled unit: its declared name and its
/// structural declaration counts.
pub struct UnitInfo {
    pub name: String,
    pub function_defs: usize,
    pub struct_defs: usize,
    pub signatures: usize,
    pub identifiers: usize,
}

/// The mathematical image of one compiled unit.
pub ghost struct UnitInfoView {
    pub name: Seq<char>,
    pub function_defs: int,
    pub struct_defs: int,
    pub signatures: int,
    pub identifiers: int,
}

impl View for UnitInfo {
    type V = UnitInfoView;

    open spec fn view(&self) -> UnitInfoView {
        UnitInfoView {
            name: self.name@,
            function_defs: self.function_defs as int,
            struct_defs: self.struct_defs as int,
            signatures: self.signatures as int,
            identifiers: self.identifiers as int,
        }
    }
}

/// The views of a unit list.
pub open spec fn units_view(units: Seq<UnitInfo>) -> Seq<UnitInfoView> {
    Seq::new(units.len(), |i: int| units[i]@)
}

/// The deterministic structural size estimate for a module: a fixed
/// weighted sum of its declaration counts.  An approximation, not the true
/// serialized byte length.
pub open spec fn size_estimate_of(f: int, s: int, g: int, i: int) -> int {
    8 * f + 16 * s + 4 * g + 12 * i
}

/// The size estimate of one unit.
pub open spec fn unit_estimate(u: UnitInfoView) -> int {
    size_estimate_of(u.function_defs, u.struct_defs, u.signatures, u.identifiers)
}

/// The fixed size recorded for a placeholder-named module.
pub open spec fn placeholder_size() -> int {
    1024
}

/// Compute the structural size estimate.
pub fn size_estimate(
    function_defs: usize,
    struct_defs: usize,
    signatures: usize,
    identifiers: usize,
) -> (r: usize)
    requires
        size_estimate_of(
            function_defs as int,
            struct_defs as int,
            signatures as int,
            identifiers as int,
        ) <= usize::MAX,
    ensures
        r == size_estimate_of(
            function_defs as int,
            struct_defs as int,
            signatures as int,
            identifiers as int,
        ),
{
    8 * function_defs + 16 * struct_defs + 4 * signatures + 12 * identifiers
}

/// A module counts as user-authored when its qualified name holds the
/// example marker or starts with the example namespace.
pub open spec fn is_user_module_name(n: Seq<char>) -> bool {
    contains_seq(n, "hello"@) || "examples::"@.is_prefix_of(n)
}

/// Classify a qualified module name as user-authored or dependency.
pub fn is_user_module(name: &str) -> (r: bool)
    ensures
        r == is_user_module_name(name@),
{
    contains_str(name, "hello") || str_starts_with(name, "examples::")
}

/// The positional placeholder name for the module at one-based position
/// `idx1`.
pub open spec fn placeholder_name(idx1: nat) -> Seq<char> {
    "Module_"@ + dec_of(idx1)
}

/// Render the placeholder name for one-based position `idx1`.
fn make_placeholder(idx1: u64) -> (r: String)
    ensures
        r@ == placeholder_name(idx1 as nat),
{
    let n = u64_to_string(idx1);
    String::from_str("Module_").concat(n.as_str())
}

/// `n` stands somewhere in `ns`.
pub open spec fn has_name(ns: Seq<Seq<char>>, n: Seq<char>) -> bool {
    exists|i: int| 0 <= i < ns.len() && ns[i] == n
}

/// No two entries of `ns` are equal.
pub open spec fn distinct_names(ns: Seq<Seq<char>>) -> bool {
    forall|i: int, j: int| 0 <= i < j < ns.len() ==> ns[i] != ns[j]
}

/// Whether `n` stands in `ns`.
fn contains_name(ns: &Vec<String>, n: &String) -> (r: bool)
    ensures
        r == has_name(ns.deep_view(), n@),
{
    let mut i: usize = 0;
    while i < ns.len()
        invariant
            i <= ns@.len(),
            forall|k: int| 0 <= k < i ==> ns.deep_view()[k] != n@,
        decreases ns@.len() - i,
    {
        if ns[i] == *n {
            assert(ns.deep_view()[i as int] == n@);
            return true;
        }
        i += 1;
    }
    false
}

/// First pass: walk the units in order and record each user-authored name
/// not yet recorded, with its structural size estimate.
pub open spec fn pass1(units: Seq<UnitInfoView>) -> (Seq<Seq<char>>, Seq<int>)
    decreases units.len(),
{
    if units.len() == 0 {
        (Seq::empty(), Seq::empty())
    } else {
        let p = pass1(units.drop_last());
        let u = units.last();
        if is_user_module_name(u.name) && !has_name(p.0, u.name) {
            (p.0.push(u.name), p.1.push(unit_estimate(u)))
        } else {
            p
        }
    }
}

/// Second pass: resolve one name per encoded payload.  Position `idx` takes
/// the recorded name at `idx` where one exists; otherwise the positional
/// placeholder, which is recorded with the fixed placeholder size unless a
/// name equal to it is already present.  Yields the final name list, the
/// final size list, and the resolved name of every position.
pub open spec fn pass2(ns0: Seq<Seq<char>>, ss0: Seq<int>, m: nat) -> (
    Seq<Seq<char>>,
    Seq<int>,
    Seq<Seq<char>>,
)
    decreases m,
{
    if m == 0 {
        (ns0, ss0, Seq::empty())
    } else {
        let p = pass2(ns0, ss0, (m - 1) as nat);
        let idx = m - 1;
        if idx < p.0.len() {
            (p.0, p.1, p.2.push(p.0[idx as int]))
        } else {
            let d = placeholder_name(m);
            if has_name(p.0, d) {
                (p.0, p.1, p.2.push(d))
            } else {
                (p.0.push(d), p.1.push(placeholder_size()), p.2.push(d))
            }
        }
    }
}

/// The final name list for `units` and `m` encoded payloads.
pub open spec fn artifact_names(units: Seq<UnitInfoView>, m: nat) -> Seq<Seq<char>> {
    pass2(pass1(units).0, pass1(units).1, m).0
}

/// The final size list for `units` and `m` encoded payloads.
pub open spec fn artifact_sizes(units: Seq<UnitInfoView>, m: nat) -> Seq<int> {
    pass2(pass1(units).0, pass1(units).1, m).1
}

/// The resolved name of every payload position.
pub open spec fn resolved_names(units: Seq<UnitInfoView>, m: nat) -> Seq<Seq<char>> {
    pass2(pass1(units).0, pass1(units).1, m).2
}

/// What the transport decoding of a payload yields, when it is valid.
pub uninterp spec fn base64_decoding(s: Seq<char>) -> Option<Seq<u8>>;

/// Relies on base64's `Engine::decode` with the `general_purpose::STANDARD`
/// engine (standard alphabet, padding): decoding is a function of the input
/// text alone, and an invalid payload is reported, not mangled.
#[verifier::external_body]
fn decode_base64(s: &str) -> (r: Option<Vec<u8>>)
    ensures
        r is Some <==> base64_decoding(s@) is Some,
        r is Some ==> r.unwrap()@ == base64_decoding(s@).unwrap(),
{
    match base64::engine::general_purpose::STANDARD.decode(s) {
        Ok(v) => Some(v),
        Err(_) => None,
    }
}

/// The persistence plan: every payload whose decoding is valid is written
/// under its resolved name with the module file extension; an invalid
/// payload is skipped, and skipping it fails nothing else.
pub open spec fn persist_of(encoded: Seq<Seq<char>>, resolved: Seq<Seq<char>>) -> Seq<
    (Seq<char>, Seq<u8>),
>
    decreases encoded.len(),
{
    if encoded.len() == 0 {
        Seq::empty()
    } else {
        let rest = persist_of(encoded.drop_last(), resolved.drop_last());
        match base64_decoding(encoded.last()) {
            Option::Some(bytes) => rest.push((resolved.last() + ".mv"@, bytes)),
            Option::None => rest,
        }
    }
}

/// One planned write: the file name inside the workspace's bytecode
/// directory, and the decoded bytes.
pub struct PersistEntry {
    pub file_name: String,
    pub bytes: Vec<u8>,
}

/// The mathematical image of a persistence plan.
pub open spec fn persist_view(p: Seq<PersistEntry>) -> Seq<(Seq<char>, Seq<u8>)> {
    Seq::new(p.len(), |i: int| (p[i].file_name@, p[i].bytes@))
}

/// The sizes of a size list, as integers.
pub open spec fn sizes_view(v: Seq<usize>) -> Seq<int> {
    Seq::new(v.len(), |i: int| v[i] as int)
}

/// Everything the extractor yields for one compile request.
pub struct ModuleArtifacts {
    pub encoded_modules: Vec<String>,
    pub module_names: Vec<String>,
    pub module_sizes: Vec<usize>,
    pub persist: Vec<PersistEntry>,
}

/// The name lists of the first pass stay aligned and distinct.
proof fn lemma_pass1_invariants(units: Seq<UnitInfoView>)
    ensures
        pass1(units).0.len() == pass1(units).1.len(),
        distinct_names(pass1(units).0),
    decreases units.len(),
{
    if units.len() > 0 {
        lemma_pass1_invariants(units.drop_last());
    }
}

/// The name lists of the second pass stay aligned and distinct, and every
/// position gets a resolved name.
proof fn lemma_pass2_invariants(ns0: Seq<Seq<char>>, ss0: Seq<int>, m: nat)
    requires
        ns0.len() == ss0.len(),
        distinct_names(ns0),
    ensures
        pass2(ns0, ss0, m).0.len() == pass2(ns0, ss0, m).1.len(),
        distinct_names(pass2(ns0, ss0, m).0),
        pass2(ns0, ss0, m).2.len() == m,
    decreases m,
{
    if m > 0 {
        lemma_pass2_invariants(ns0, ss0, (m - 1) as nat);
    }
}

/// Extract the artifacts of one compile request from what the toolchain
/// reported: the encoded payload list in toolchain order and complete, the
/// user-module names with their size estimates, and the persistence plan.
pub fn extract_artifacts(units: &Vec<UnitInfo>, encoded: &Vec<String>) -> (r: ModuleArtifacts)
    requires
        forall|k: int| 0 <= k < units@.len() ==> 0 <= unit_estimate(#[trigger] units@[k]@)
            <= usize::MAX,
        encoded@.len() < u64::MAX,
    ensures
        r.encoded_modules.deep_view() == encoded.deep_view(),
        r.encoded_modules@.len() == encoded@.len(),
        r.module_names.deep_view() == artifact_names(units_view(units@), encoded@.len() as nat),
        sizes_view(r.module_sizes@) == artifact_sizes(units_view(units@), encoded@.len() as nat),
        persist_view(r.persist@) == persist_of(
            encoded.deep_view(),
            resolved_names(units_view(units@), encoded@.len() as nat),
        ),
        distinct_names(r.module_names.deep_view()),
        r.module_names@.len() == r.module_sizes@.len(),
{
    let ghost uv = units_view(units@);
    let mut module_names: Vec<String> = Vec::new();
    let mut module_sizes: Vec<usize> = Vec::new();
    let mut k: usize = 0;
    proof {
        assert(uv.take(0) =~= Seq::<UnitInfoView>::empty());
        assert(module_names.deep_view() =~= pass1(uv.take(0)).0);
        assert(sizes_view(module_sizes@) =~= pass1(uv.take(0)).1);
    }
    while k < units.len()
        invariant
            forall|i: int| 0 <= i < units@.len() ==> 0 <= unit_estimate(#[trigger] units@[i]@)
                <= usize::MAX,
            uv == units_view(units@),
            k <= units@.len(),
            module_names.deep_view() == pass1(uv.take(k as int)).0,
            sizes_view(module_sizes@) == pass1(uv.take(k as int)).1,
        decreases units@.len() - k,
    {
        let u = &units[k];
        let user = is_user_module(u.name.as_str());
        let present = contains_name(&module_names, &u.name);
        let ghost old_names = module_names.deep_view();
        let ghost old_sizes = sizes_view(module_sizes@);
        if user && !present {
            proof {
                assert(u@ == units@[k as int]@);
                assert(0 <= unit_estimate(units@[k as int]@) <= usize::MAX);
            }
            let est = size_estimate(u.function_defs, u.struct_defs, u.signatures, u.identifiers);
            module_names.push(u.name.clone());
            module_sizes.push(est);
            proof {
                assert(module_names.deep_view() =~= old_names.push(u.name@));
                assert(sizes_view(module_sizes@) =~= old_sizes.push(unit_estimate(uv[k as int])));
            }
        }
        proof {
            assert(uv.take(k + 1).drop_last() =~= uv.take(k as int));
            assert(uv.take(k + 1).last() == uv[k as int]);
        }
        k += 1;
    }
    proof {
        assert(uv.take(units@.len() as int) =~= uv);
        lemma_pass1_invariants(uv);
    }
    let ghost ns0 = module_names.deep_view();
    let ghost ss0 = sizes_view(module_sizes@);
    let mut encoded_out: Vec<String> = Vec::new();
    let mut persist: Vec<PersistEntry> = Vec::new();
    let ghost mut resolved: Seq<Seq<char>> = Seq::empty();
    let mut idx: usize = 0;
    proof {
        assert(encoded_out.deep_view() =~= encoded.deep_view().take(0));
        assert(persist_view(persist@) =~= persist_of(encoded.deep_view().take(0), resolved));
    }
    while idx < encoded.len()
        invariant
            encoded@.len() < u64::MAX,
            idx <= encoded@.len(),
            ns0.len() == ss0.len(),
            distinct_names(ns0),
            module_names.deep_view() == pass2(ns0, ss0, idx as nat).0,
            sizes_view(module_sizes@) == pass2(ns0, ss0, idx as nat).1,
            resolved == pass2(ns0, ss0, idx as nat).2,
            encoded_out.deep_view() == encoded.deep_view().take(idx as int),
            persist_view(persist@) == persist_of(encoded.deep_view().take(idx as int), resolved),
        decreases encoded@.len() - idx,
    {
        let enc = &encoded[idx];
        let ghost old_out = encoded_out.deep_view();
        encoded_out.push(enc.clone());
        proof {
            assert(encoded_out.deep_view() =~= old_out.push(enc@));
            assert(encoded.deep_view().take(idx + 1).drop_last() =~= encoded.deep_view().take(
                idx as int,
            ));
            assert(encoded_out.deep_view() =~= encoded.deep_view().take(idx + 1));
            lemma_pass2_invariants(ns0, ss0, idx as nat);
        }
        let ghost old_names = module_names.deep_view();
        let ghost old_sizes = sizes_view(module_sizes@);
        let resolved_name: String;
        if idx < module_names.len() {
            resolved_name = module_names[idx].clone();
        } else {
            let d = make_placeholder((idx as u64) + 1);
            let present = contains_name(&module_names, &d);
            if !present {
                module_names.push(d.clone());
                module_sizes.push(1024);
                proof {
                    assert(module_names.deep_view() =~= old_names.push(d@));
                    assert(sizes_view(module_sizes@) =~= old_sizes.push(placeholder_size()));
                }
            }
            resolved_name = d;
        }
        proof {
            resolved = resolved.push(resolved_name@);
            assert(resolved =~= pass2(ns0, ss0, (idx + 1) as nat).2);
            assert(module_names.deep_view() =~= pass2(ns0, ss0, (idx + 1) as nat).0);
            assert(sizes_view(module_sizes@) =~= pass2(ns0, ss0, (idx + 1) as nat).1);
        }
        let ghost old_persist = persist_view(persist@);
        match decode_base64(enc.as_str()) {
            Option::Some(bytes) => {
                let file_name = resolved_name.concat(".mv");
                persist.push(PersistEntry { file_name, bytes });
                proof {
                    assert(persist_view(persist@) =~= old_persist.push(
                        (resolved_name@ + ".mv"@, base64_decoding(enc@).unwrap()),
                    ));
                }
            },
            Option::None => {},
        }
        proof {
            assert(encoded.deep_view().take(idx + 1).last() == enc@);
            assert(encoded.deep_view().take(idx + 1).drop_last() =~= encoded.deep_view().take(
                idx as int,
            ));
            assert(resolved.drop_last() =~= pass2(ns0, ss0, idx as nat).2);
            assert(persist_view(persist@) =~= persist_of(
                encoded.deep_view().take(idx + 1),
                resolved,
            ));
        }
        idx += 1;
    }
    proof {
        assert(encoded.deep_view().take(encoded@.len() as int) =~= encoded.deep_view());
        lemma_pass2_invariants(ns0, ss0, encoded@.len() as nat);
    }
    ModuleArtifacts { encoded_modules: encoded_out, module_names, module_sizes, persist }
}

/// Determinism: the artifact lists are a function of the toolchain's
/// reported units and payloads alone, so equal toolchain outputs yield
/// equal artifacts, whenever they are computed.
pub proof fn lemma_extraction_deterministic(
    units1: Seq<UnitInfoView>,
    encoded1: Seq<Seq<char>>,
    units2: Seq<UnitInfoView>,
    encoded2: Seq<Seq<char>>,
)
    requires
        units1 == units2,
        encoded1 == encoded2,
    ensures
        artifact_names(units1, encoded1.len()) == artifact_names(units2, encoded2.len()),
        artifact_sizes(units1, encoded1.len()) == artifact_sizes(units2, encoded2.len()),
        persist_of(encoded1, resolved_names(units1, encoded1.len())) == persist_of(
            encoded2,
            resolved_names(units2, encoded2.len()),
        ),
{
}

} // verus!
