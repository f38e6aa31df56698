//! Catalog-side decisions: resolution of a pack entry's download location
//! against the fixed download base, and selection of the descriptor files
//! out of a walked directory tree.

use vstd::prelude::*;
use crate::names::{extension_of, extension_is};

verus! {

/// The location starts with `http`, so it is taken as absolute.
pub open spec fn absolute_location(s: Seq<char>) -> bool {
    s.len() >= 4 && s.subrange(0, 4) == "http"@
}

/// How a catalog entry's location is resolved: an absolute location is used
/// as it stands; a relative one is appended to the fixed download base.
pub open spec fn spec_resolve_location(base: Seq<char>, loc: Seq<char>) -> Seq<char> {
    if absolute_location(loc) {
        loc
    } else {
        base + loc
    }
}

/// Resolves a catalog entry's location against the download base.
pub fn resolve_location(base: &str, loc: &str) -> (r: String)
    ensures
        r@ == spec_resolve_location(base@, loc@),
{
    let n: usize = loc.unicode_len();
    let absolute: bool = n >= 4 && loc.get_char(0) == 'h' && loc.get_char(1) == 't'
        && loc.get_char(2) == 't' && loc.get_char(3) == 'p';
    proof {
        reveal_strlit("http");
        if n >= 4 {
            assert(loc@.subrange(0, 4) == "http"@ <==> (loc@[0] == 'h' && loc@[1] == 't'
                && loc@[2] == 't' && loc@[3] == 'p')) by {
                if loc@[0] == 'h' && loc@[1] == 't' && loc@[2] == 't' && loc@[3] == 'p' {
                    assert(loc@.subrange(0, 4) =~= "http"@);
                }
                if loc@.subrange(0, 4) == "http"@ {
                    assert(loc@[0] == loc@.subrange(0, 4)[0]);
                    assert(loc@[1] == loc@.subrange(0, 4)[1]);
                    assert(loc@[2] == loc@.subrange(0, 4)[2]);
                    assert(loc@[3] == loc@.subrange(0, 4)[3]);
                }
            }
        }
    }
    if absolute {
        loc.to_owned()
    } else {
        String::from_str(base).concat(loc)
    }
}

/// The descriptor entries of a path list, in order: exactly the paths whose
/// extension is `pdsc`.
pub open spec fn spec_descriptor_paths(s: Seq<Seq<char>>) -> Seq<Seq<char>>
    decreases s.len(),
{
    if s.len() == 0 {
        Seq::empty()
    } else {
        let head = if extension_of(s[0]) == Some("pdsc"@) {
            seq![s[0]]
        } else {
            Seq::<Seq<char>>::empty()
        };
        head + spec_descriptor_paths(s.skip(1))
    }
}

/// The selection is sound and complete: everything it keeps is a descriptor
/// path of the input, and every descriptor path of the input is kept — a
/// tree holding k descriptor files at any nesting yields exactly those k.
pub proof fn lemma_descriptor_selection_exact(s: Seq<Seq<char>>)
    ensures
        forall|x: Seq<char>|
            #[trigger] spec_descriptor_paths(s).contains(x) ==> s.contains(x) && extension_of(x)
                == Some("pdsc"@),
        forall|i: int|
            0 <= i < s.len() && extension_of(#[trigger] s[i]) == Some("pdsc"@)
                ==> spec_descriptor_paths(s).contains(s[i]),
    decreases s.len(),
{
    if s.len() > 0 {
        lemma_descriptor_selection_exact(s.skip(1));
        let rest = spec_descriptor_paths(s.skip(1));
        assert forall|x: Seq<char>| #[trigger] spec_descriptor_paths(s).contains(x) implies s.contains(
            x,
        ) && extension_of(x) == Some("pdsc"@) by {
            let j = choose|j: int|
                0 <= j < spec_descriptor_paths(s).len() && spec_descriptor_paths(s)[j] == x;
            if extension_of(s[0]) == Some("pdsc"@) && j == 0 {
                assert(x == s[0]);
            } else {
                let off: int = if extension_of(s[0]) == Some("pdsc"@) {
                    1
                } else {
                    0
                };
                assert(rest[j - off] == x);
                assert(rest.contains(x));
                let k = choose|k: int| 0 <= k < s.skip(1).len() && s.skip(1)[k] == x;
                assert(s[k + 1] == x);
            }
        }
        assert forall|i: int|
            0 <= i < s.len() && extension_of(#[trigger] s[i]) == Some("pdsc"@) implies spec_descriptor_paths(
            s,
        ).contains(s[i]) by {
            if i == 0 {
                assert(spec_descriptor_paths(s)[0] == s[0]);
            } else {
                assert(s.skip(1)[i - 1] == s[i]);
                assert(rest.contains(s[i]));
                let j = choose|j: int| 0 <= j < rest.len() && rest[j] == s[i];
                let off: int = if extension_of(s[0]) == Some("pdsc"@) {
                    1
                } else {
                    0
                };
                assert(spec_descriptor_paths(s)[j + off] == s[i]);
            }
        }
    }
}

/// Selects the descriptor files out of a list of walked file paths: exactly
/// the paths with the `pdsc` extension are kept, in walk order, so a tree
/// holding k descriptor files yields exactly k entries to process.
pub fn descriptor_paths(paths: Vec<String>) -> (r: Vec<String>)
    ensures
        r.deep_view() == spec_descriptor_paths(paths.deep_view()),
{
    let ghost paths0 = paths.deep_view();
    let mut out: Vec<String> = Vec::new();
    let mut rest = paths;
    proof {
        assert(out.deep_view() =~= Seq::<Seq<char>>::empty());
        assert(rest.deep_view() =~= paths0.skip(0));
    }
    while rest.len() > 0
        invariant
            spec_descriptor_paths(paths0) == out.deep_view() + spec_descriptor_paths(
                rest.deep_view(),
            ),
        decreases rest@.len(),
    {
        let ghost out_before = out.deep_view();
        let ghost rest_before = rest.deep_view();
        let p = rest.remove(0);
        proof {
            assert(rest.deep_view() =~= rest_before.skip(1));
            assert(p@ == rest_before[0]);
        }
        if extension_is(p.as_str(), "pdsc") {
            out.push(p);
            proof {
                assert(out.deep_view() =~= out_before.push(rest_before[0]));
                assert(out_before.push(rest_before[0]) + spec_descriptor_paths(
                    rest_before.skip(1),
                ) =~= out_before + (seq![rest_before[0]] + spec_descriptor_paths(
                    rest_before.skip(1),
                )));
            }
        } else {
            proof {
                assert(spec_descriptor_paths(rest_before) =~= spec_descriptor_paths(
                    rest_before.skip(1),
                ));
            }
        }
    }
    proof {
        assert(spec_descriptor_paths(rest.deep_view()) =~= Seq::<Seq<char>>::empty());
        assert(out.deep_view() + Seq::<Seq<char>>::empty() =~= out.deep_view());
    }
    out
}

} // verus!
