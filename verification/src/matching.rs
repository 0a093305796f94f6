//! How the names of a search are held against the names of nodes.

use vstd::prelude::*;
use crate::text::{opt_view, str_eq};

verus! {

/// Whether the name `test` of a node is the name `against` that is looked for. The string
/// `*` on either side stands for every name.
pub open spec fn tag_matches(test: Seq<char>, against: Seq<char>) -> bool {
    test == against || test == "*"@ || against == "*"@
}

/// Whether a node in the namespace `test_ns`, or in none, with the local name `test_local`
/// is what is looked for: a node in `against_ns` with the local name `against_local`.
/// The string `*` stands for every namespace and for every local name. A node in no
/// namespace is only found where every namespace is looked for.
pub open spec fn namespaced_matches(
    test_ns: Option<Seq<char>>,
    test_local: Seq<char>,
    against_ns: Seq<char>,
    against_local: Seq<char>,
) -> bool {
    let local = tag_matches(test_local, against_local);
    match test_ns {
        None => against_ns == "*"@ && local,
        Some(ns) => tag_matches(ns, against_ns) && local,
    }
}

/// Whether the name `test` of a node is the name `against` that is looked for.
pub fn tag_name_match(test: &String, against: &String) -> (r: bool)
    ensures
        r == tag_matches(test@, against@),
{
    str_eq(test.as_str(), against.as_str()) || str_eq(test.as_str(), "*") || str_eq(
        against.as_str(),
        "*",
    )
}

/// Whether a node in the namespace `test_ns` with the local name `test_local` is what is
/// looked for.
pub fn namespaced_name_match(
    test_ns: &Option<String>,
    test_local: &String,
    against_ns: &String,
    against_local: &String,
) -> (r: bool)
    ensures
        r == namespaced_matches(opt_view(*test_ns), test_local@, against_ns@, against_local@),
{
    let local = tag_name_match(test_local, against_local);
    match test_ns {
        None => str_eq(against_ns.as_str(), "*") && local,
        Some(ns) => tag_name_match(ns, against_ns) && local,
    }
}

} // verus!
