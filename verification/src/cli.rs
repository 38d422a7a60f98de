//! Command-line option types and the parsers of their list-valued
//! arguments.

use vstd::prelude::*;
use crate::strutil::split_on;
use crate::strutil::split_on_str;
use crate::strutil::trim_of;
use crate::strutil::trim_str;

verus! {

/// Command-line options of the tool.
pub struct CliOptions {
    pub commands: Commands,
    pub verbose: bool,
}

/// The tool's subcommands.
pub enum Commands {
    Build { dependency_dirs: Option<String>, address_maps: Option<String> },
    Disassemble(DisassembleArgs),
}

/// Arguments of the disassemble subcommand.
pub struct DisassembleArgs {}

/// The dependency directories named in a comma-separated list, each
/// trimmed.
pub open spec fn deps_of(s: Seq<char>) -> Seq<Seq<char>> {
    split_on(s, ',').map_values(|p: Seq<char>| trim_of(p))
}

/// One entry of a comma-separated binding list: a trimmed name and a
/// trimmed value where the entry has exactly one separator, nothing
/// otherwise.
pub open spec fn binding_of(seg: Seq<char>) -> Option<(Seq<char>, Seq<char>)> {
    let parts = split_on(seg, '=');
    if parts.len() == 2 {
        Option::Some((trim_of(parts[0]), trim_of(parts[1])))
    } else {
        Option::None
    }
}

/// The bindings of the segments, in order, entries without exactly one
/// separator dropped.
pub open spec fn bindings_of(segs: Seq<Seq<char>>) -> Seq<(Seq<char>, Seq<char>)>
    decreases segs.len(),
{
    if segs.len() == 0 {
        Seq::empty()
    } else {
        let rest = bindings_of(segs.drop_last());
        match binding_of(segs.last()) {
            Option::Some(p) => rest.push(p),
            Option::None => rest,
        }
    }
}

/// One parsed name-to-address binding.
pub struct AddressBinding {
    pub name: String,
    pub value: String,
}

/// The mathematical image of a binding list.
pub open spec fn bindings_view(v: Seq<AddressBinding>) -> Seq<(Seq<char>, Seq<char>)> {
    Seq::new(v.len(), |i: int| (v[i].name@, v[i].value@))
}

impl CliOptions {
    /// Parse a comma-separated list of dependency directories, trimming
    /// each entry.
    pub fn parse_deps(deps: String) -> (r: Vec<String>)
        ensures
            r.deep_view() == deps_of(deps@),
    {
        let parts = split_on_str(deps.as_str(), ',');
        let ghost pv = split_on(deps@, ',');
        let mut out: Vec<String> = Vec::new();
        let mut i: usize = 0;
        proof {
            assert(out.deep_view() =~= pv.take(0).map_values(|p: Seq<char>| trim_of(p)));
        }
        while i < parts.len()
            invariant
                i <= parts@.len(),
                pv == split_on(deps@, ','),
                parts.deep_view() == pv,
                out.deep_view() == pv.take(i as int).map_values(|p: Seq<char>| trim_of(p)),
            decreases parts@.len() - i,
        {
            let ghost old_out = out.deep_view();
            let t = trim_str(parts[i].as_str());
            proof {
                assert(parts@[i as int]@ == pv[i as int]);
            }
            out.push(t);
            proof {
                assert(out.deep_view() =~= old_out.push(trim_of(pv[i as int])));
                assert(out.deep_view() =~= pv.take(i + 1).map_values(|p: Seq<char>| trim_of(p)));
            }
            i += 1;
        }
        proof {
            assert(pv.take(pv.len() as int) =~= pv);
        }
        out
    }

    /// Parse a comma-separated list of `name=address` bindings, trimming
    /// both sides.  An entry without exactly one separator is dropped;
    /// whether a value is a well-formed numeric address is the consumer's
    /// affair.
    pub fn parse_addresses(addresses: String) -> (r: Vec<AddressBinding>)
        ensures
            bindings_view(r@) == bindings_of(split_on(addresses@, ',')),
    {
        let segs = split_on_str(addresses.as_str(), ',');
        let ghost sv = split_on(addresses@, ',');
        let mut out: Vec<AddressBinding> = Vec::new();
        let mut i: usize = 0;
        proof {
            assert(sv.take(0) =~= Seq::<Seq<char>>::empty());
            assert(bindings_view(out@) =~= bindings_of(sv.take(0)));
        }
        while i < segs.len()
            invariant
                i <= segs@.len(),
                sv == split_on(addresses@, ','),
                segs.deep_view() == sv,
                bindings_view(out@) == bindings_of(sv.take(i as int)),
            decreases segs@.len() - i,
        {
            proof {
                assert(segs@[i as int]@ == sv[i as int]);
            }
            let parts = split_on_str(segs[i].as_str(), '=');
            let ghost old_view = bindings_view(out@);
            if parts.len() == 2 {
                let name = trim_str(parts[0].as_str());
                let value = trim_str(parts[1].as_str());
                proof {
                    assert(parts@[0]@ == split_on(sv[i as int], '=')[0]);
                    assert(parts@[1]@ == split_on(sv[i as int], '=')[1]);
                }
                out.push(AddressBinding { name, value });
                proof {
                    assert(binding_of(sv[i as int]) is Some);
                    assert(bindings_view(out@) =~= old_view.push(
                        binding_of(sv[i as int]).unwrap(),
                    ));
                }
            } else {
                proof {
                    assert(binding_of(sv[i as int]) is None);
                }
            }
            proof {
                assert(sv.take(i + 1).drop_last() =~= sv.take(i as int));
                assert(sv.take(i + 1).last() == sv[i as int]);
                assert(bindings_view(out@) =~= bindings_of(sv.take(i + 1)));
            }
            i += 1;
        }
        proof {
            assert(sv.take(sv.len() as int) =~= sv);
        }
        out
    }
}

} // verus!
