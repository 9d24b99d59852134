//! Where the contents of files are kept.

use vstd::prelude::*;
use vstd::string::*;

verus! {

/// The path of the file with the content identifier `cid`.
pub open spec fn cache_path(cid: Seq<char>) -> Seq<char> {
    "./cache/"@ + cid
}

/// Computes the path of the file with the content identifier `cid`.
pub fn path_of(cid: &str) -> (path: String)
    ensures
        path@ == cache_path(cid@),
        path@ == "./cache/"@ + cid@,
{
    let mut path = "./cache/".to_owned();
    path.append(cid);
    path
}

/// Different content identifiers have different paths.
pub proof fn law_paths_are_distinct(a: Seq<char>, b: Seq<char>)
    ensures
        cache_path(a) == cache_path(b) ==> a == b,
{
    if cache_path(a) == cache_path(b) {
        let n = "./cache/"@.len() as int;
        assert(cache_path(a).skip(n) == a);
        assert(cache_path(b).skip(n) == b);
    }
}

/// A path is the content identifier, after `./cache/` and nothing else.
pub proof fn law_path_ends_in_the_identifier(cid: Seq<char>)
    ensures
        cache_path(cid).len() == 8 + cid.len(),
        cache_path(cid).take(8) == "./cache/"@,
        cache_path(cid).skip(8) == cid,
{
    reveal_strlit("./cache/");
    assert(cache_path(cid).take(8) == "./cache/"@);
    assert(cache_path(cid).skip(8) == cid);
}

} // verus!
