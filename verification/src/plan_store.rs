//! Where plans are kept.

use crate::home::{join_path, joined};
use vstd::prelude::*;

verus! {

/// The file that keeps the plan of a session, given the hash of its key.
pub open spec fn plan_file(root: Seq<char>, hash: Seq<char>) -> Seq<char> {
    joined(root, hash + ".json"@)
}

/// The file that keeps the plan of a session.
pub fn plan_path(root: &str, hash: &str) -> (r: String)
    ensures
        r@ == plan_file(root@, hash@),
{
    let mut name = String::from_str(hash);
    name.append(".json");
    join_path(root, name.as_str())
}

/// The file that a plan is written to before it takes the place of the old one.
pub fn plan_temp_path(root: &str, hash: &str) -> (r: String)
    ensures
        r@ == plan_file(root@, hash@) + ".tmp"@,
{
    let mut path = plan_path(root, hash);
    path.append(".tmp");
    path
}

} // verus!
