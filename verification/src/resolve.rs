//! Which files of an entry a location stands for.

use crate::entry::Children;
use crate::text::starts_with;
use vstd::prelude::*;
use vstd::string::*;
use vstd::utf8::*;

verus! {

/// Picks the items with the name `location`.
pub open spec fn by_name(location: Seq<char>) -> spec_fn(Children) -> bool {
    |c: Children| c.name@ == location
}

/// Picks the files.
pub open spec fn all_files() -> spec_fn(Children) -> bool {
    |c: Children| crate::entry::is_file(c)
}

/// Picks the files whose content `location` selects.
pub open spec fn selected_files(location: Seq<char>, children: Seq<Children>) -> spec_fn(
    Children,
) -> bool {
    |c: Children| crate::entry::is_file(c) && is_selected(location, children, c.cid.unwrap()@)
}

/// The first item with the name `location`.
pub open spec fn named(location: Seq<char>, children: Seq<Children>) -> Option<Children> {
    let matching = children.filter(by_name(location));
    if matching.len() == 0 {
        None
    } else {
        Some(matching[0])
    }
}

/// The character at the byte length of `location` is where a name is looked at for the slash
/// that parts `location` from what is below it.
pub open spec fn cut(location: Seq<char>) -> int {
    encode_utf8(location).len() as int
}

/// A file whose name begins with `location` and has a slash at the cut.
pub open spec fn is_below(location: Seq<char>, child: Children) -> bool {
    &&& crate::entry::is_file(child)
    &&& crate::text::has_prefix(child.name@, location)
    &&& child.name@[cut(location)] == '/'
}

/// `cid` is the content identifier of an item that `location` stands for: of the item of that
/// name, or else of a file below it.
pub open spec fn is_selected(location: Seq<char>, children: Seq<Children>, cid: Seq<char>) -> bool {
    match named(location, children) {
        Some(child) => child.cid.unwrap()@ == cid,
        None => exists|i: int|
            0 <= i < children.len() && is_below(location, #[trigger] children[i])
                && children[i].cid.unwrap()@ == cid,
    }
}

/// `location` is the name of an item that is not a file.
pub open spec fn is_nested(location: Seq<char>, children: Seq<Children>) -> bool {
    named(location, children) matches Some(child) && !crate::entry::is_file(child)
}

/// The files that `location` stands for, in their order: all files for the entry itself, else
/// those whose content is selected.
pub open spec fn resolved(location: Seq<char>, children: Seq<Children>) -> Seq<Children> {
    if location == "/"@ {
        children.filter(all_files())
    } else {
        children.filter(selected_files(location, children))
    }
}

/// Every file has a content identifier, and where no item has the name `location`, every file
/// whose name begins with it is long enough to be looked at.
pub open spec fn is_resolvable(location: Seq<char>, children: Seq<Children>) -> bool {
    ||| location == "/"@
    ||| is_nested(location, children)
    ||| {
        &&& forall|i: int|
            0 <= i < children.len() && crate::entry::is_file(#[trigger] children[i])
                ==> children[i].cid is Some
        &&& named(location, children) is None ==> forall|i: int|
            0 <= i < children.len() && crate::entry::is_file(#[trigger] children[i])
                && crate::text::has_prefix(children[i].name@, location) ==> cut(location)
                < children[i].name@.len()
    }
}

proof fn lemma_filter_step(children: Seq<Children>, i: int, keep: spec_fn(Children) -> bool)
    requires
        0 <= i < children.len(),
    ensures
        children.take(i + 1).filter(keep) == if keep(children[i]) {
            children.take(i).filter(keep).push(children[i])
        } else {
            children.take(i).filter(keep)
        },
{
    reveal(Seq::filter);
    assert(children.take(i + 1).drop_last() == children.take(i));
}

proof fn lemma_filter_first(children: Seq<Children>, i: int, keep: spec_fn(Children) -> bool)
    requires
        0 <= i < children.len(),
        keep(children[i]),
        forall|j: int| 0 <= j < i ==> !keep(#[trigger] children[j]),
    ensures
        children.filter(keep).len() > 0,
        children.filter(keep)[0] == children[i],
    decreases children.len(),
{
    reveal(Seq::filter);
    if i < children.len() - 1 {
        lemma_filter_first(children.drop_last(), i, keep);
    } else {
        lemma_filter_none(children.drop_last(), keep);
    }
}

proof fn lemma_filter_none(children: Seq<Children>, keep: spec_fn(Children) -> bool)
    requires
        forall|j: int| 0 <= j < children.len() ==> !keep(#[trigger] children[j]),
    ensures
        children.filter(keep).len() == 0,
    decreases children.len(),
{
    reveal(Seq::filter);
    if children.len() > 0 {
        assert forall|j: int| 0 <= j < children.len() - 1 implies !keep(
            #[trigger] children.drop_last()[j],
        ) by {
            assert(children[j] == children.drop_last()[j]);
        }
        lemma_filter_none(children.drop_last(), keep);
    }
}

/// Finds the first item with the name `location`.
fn find_named(location: &String, children: &Vec<Children>) -> (found: Option<usize>)
    ensures
        match found {
            Some(i) => i < children.len() && named(location@, children@) == Some(
                children@[i as int],
            ),
            None => named(location@, children@) is None,
        },
{
    let ghost keep = by_name(location@);
    let mut i: usize = 0;
    while i < children.len()
        invariant
            i <= children.len(),
            keep == by_name(location@),
            forall|j: int| 0 <= j < i ==> !keep(#[trigger] children@[j]),
        decreases children.len() - i,
    {
        if children[i].name == *location {
            proof {
                lemma_filter_first(children@, i as int, keep);
            }
            return Some(i);
        }
        i = i + 1;
    }
    proof {
        lemma_filter_none(children@, keep);
    }
    None
}

/// Whether `cid` is among `cids`.
fn contains_cid(cids: &Vec<String>, cid: &String) -> (b: bool)
    ensures
        b == crate::text::texts(cids@).contains(cid@),
{
    let mut i: usize = 0;
    while i < cids.len()
        invariant
            i <= cids.len(),
            forall|j: int| 0 <= j < i ==> (#[trigger] cids@[j])@ != cid@,
        decreases cids.len() - i,
    {
        if cids[i] == *cid {
            assert(crate::text::texts(cids@)[i as int] == cid@);
            return true;
        }
        i = i + 1;
    }
    assert forall|j: int| 0 <= j < cids.len() implies #[trigger] crate::text::texts(cids@)[j]
        != cid@ by {
        assert(cids@[j]@ != cid@);
    }
    false
}

/// Collects the content identifiers of the files below `location`.
fn cids_below(location: &String, children: &Vec<Children>) -> (cids: Vec<String>)
    requires
        named(location@, children@) is None,
        location@ != "/"@,
        is_resolvable(location@, children@),
    ensures
        forall|cid: Seq<char>|
            #[trigger] crate::text::texts(cids@).contains(cid) <==> is_selected(
                location@,
                children@,
                cid,
            ),
{
    let file = "file".to_owned();
    let mut cids: Vec<String> = Vec::new();
    let mut i: usize = 0;
    while i < children.len()
        invariant
            i <= children.len(),
            file@ == "file"@,
            named(location@, children@) is None,
            location@ != "/"@,
            is_resolvable(location@, children@),
            forall|j: int|
                0 <= j < i && is_below(location@, #[trigger] children@[j])
                    ==> crate::text::texts(cids@).contains(children@[j].cid.unwrap()@),
            forall|k: int|
                0 <= k < cids.len() ==> is_selected(
                    location@,
                    children@,
                    (#[trigger] cids@[k])@,
                ),
        decreases children.len() - i,
    {
        let child: &Children = &children[i];
        let ghost before = cids@;
        if child.kind == file && starts_with(child.name.as_str(), location.as_str()) {
            let at: usize = location.as_str().as_bytes().len();
            if child.name.as_str().get_char(at) == '/' {
                let cid: String = child.cid.as_ref().unwrap().clone();
                cids.push(cid);
                proof {
                    assert(is_below(location@, children@[i as int]));
                    assert(crate::text::texts(cids@)[before.len() as int]
                        == children@[i as int].cid.unwrap()@);
                }
            }
        }
        proof {
            assert forall|j: int|
                0 <= j < i && is_below(
                    location@,
                    #[trigger] children@[j],
                ) implies crate::text::texts(cids@).contains(children@[j].cid.unwrap()@) by {
                let t = crate::text::texts(before);
                let k = choose|k: int| 0 <= k < t.len() && t[k] == children@[j].cid.unwrap()@;
                assert(crate::text::texts(cids@)[k] == t[k]);
            }
        }
        i = i + 1;
    }
    proof {
        let t = crate::text::texts(cids@);
        assert forall|cid: Seq<char>|
            #[trigger] t.contains(cid) <==> is_selected(location@, children@, cid) by {
            if t.contains(cid) {
                let k = choose|k: int| 0 <= k < t.len() && t[k] == cid;
                assert(cids@[k]@ == cid);
            }
        }
    }
    cids
}

/// The files of an entry that a location inside it stands for.
pub fn resolve_cid(location: String, metadata: Vec<Children>) -> (files: Result<Vec<Children>, String>)
    requires
        is_resolvable(location@, metadata@),
    ensures
        match files {
            Ok(files) => {
                &&& location@ == "/"@ || !is_nested(location@, metadata@)
                &&& files@ == resolved(location@, metadata@)
            },
            Err(error) => {
                &&& location@ != "/"@ && is_nested(location@, metadata@)
                &&& error@ == "Nested entry selected"@
            },
        },
{
    let file = "file".to_owned();
    let root = "/".to_owned();
    let ghost all = metadata@;
    let mut files: Vec<Children> = Vec::new();
    if location == root {
        let ghost keep = all_files();
        proof {
            lemma_filter_none(all.take(0), keep);
        }
        for child in it: metadata
            invariant
                file@ == "file"@,
                it.seq() == all,
                keep == all_files(),
                files@ == all.take(it.index() as int).filter(keep),
        {
            proof {
                lemma_filter_step(all, it.index() as int, keep);
            }
            if child.kind == file {
                files.push(child);
            }
        }
        assert(all.take(all.len() as int) == all);
        return Ok(files);
    }
    let cids: Vec<String> = match find_named(&location, &metadata) {
        Some(i) => {
            if metadata[i].kind != file {
                return Err("Nested entry selected".to_owned());
            }
            let mut cids: Vec<String> = Vec::new();
            cids.push(metadata[i].cid.as_ref().unwrap().clone());
            proof {
                let t = crate::text::texts(cids@);
                assert forall|cid: Seq<char>|
                    #[trigger] t.contains(cid) <==> is_selected(location@, all, cid) by {
                    assert(t[0] == all[i as int].cid.unwrap()@);
                }
            }
            cids
        },
        None => cids_below(&location, &metadata),
    };
    let ghost keep = selected_files(location@, all);
    proof {
        lemma_filter_none(all.take(0), keep);
    }
    for child in it: metadata
        invariant
            file@ == "file"@,
            it.seq() == all,
            location@ != "/"@,
            !is_nested(location@, all),
            is_resolvable(location@, all),
            forall|cid: Seq<char>|
                #[trigger] crate::text::texts(cids@).contains(cid) <==> is_selected(
                    location@,
                    all,
                    cid,
                ),
            keep == selected_files(location@, all),
            files@ == all.take(it.index() as int).filter(keep),
    {
        proof {
            lemma_filter_step(all, it.index() as int, keep);
            assert(child == all[it.index() as int]);
        }
        if child.kind == file && contains_cid(&cids, child.cid.as_ref().unwrap()) {
            files.push(child);
        }
    }
    assert(all.take(all.len() as int) == all);
    Ok(files)
}

/// Whether [`resolve_cid`] can be asked: every file that it looks at has a content identifier and
/// a name that is long enough.
pub fn can_resolve(location: &String, children: &Vec<Children>) -> (b: bool)
    ensures
        b == is_resolvable(location@, children@),
{
    let file = "file".to_owned();
    let root = "/".to_owned();
    if *location == root {
        return true;
    }
    let exact: Option<usize> = find_named(location, children);
    if let Some(i) = exact {
        if children[i].kind != file {
            return true;
        }
    }
    let at: usize = location.as_str().as_bytes().len();
    let mut i: usize = 0;
    while i < children.len()
        invariant
            i <= children.len(),
            file@ == "file"@,
            at == cut(location@),
            location@ != "/"@,
            !is_nested(location@, children@),
            exact is None <==> named(location@, children@) is None,
            forall|j: int|
                0 <= j < i && crate::entry::is_file(#[trigger] children@[j])
                    ==> children@[j].cid is Some,
            exact is None ==> forall|j: int|
                0 <= j < i && crate::entry::is_file(#[trigger] children@[j])
                    && crate::text::has_prefix(children@[j].name@, location@) ==> cut(location@)
                    < children@[j].name@.len(),
        decreases children.len() - i,
    {
        let child: &Children = &children[i];
        if child.kind == file {
            if child.cid.is_none() {
                return false;
            }
            if exact.is_none() && starts_with(child.name.as_str(), location.as_str())
                && child.name.as_str().unicode_len() <= at {
                return false;
            }
        }
        i = i + 1;
    }
    true
}

/// Whatever the location, only items of the entry are resolved, and all of them are files.
pub proof fn law_resolved_are_files(location: Seq<char>, children: Seq<Children>, child: Children)
    requires
        resolved(location, children).contains(child),
    ensures
        children.contains(child),
        crate::entry::is_file(child),
{
    let keep = if location == "/"@ {
        all_files()
    } else {
        selected_files(location, children)
    };
    let files = resolved(location, children);
    let i = choose|i: int| 0 <= i < files.len() && files[i] == child;
    children.lemma_filter_pred(keep, i);
    children.lemma_filter_contains_rev(keep, child);
}

/// The location of the entry itself stands for every file of the entry.
pub proof fn law_root_resolves_all(children: Seq<Children>, child: Children)
    requires
        children.contains(child),
        crate::entry::is_file(child),
    ensures
        resolved("/"@, children).contains(child),
{
    let keep = all_files();
    let i = choose|i: int| 0 <= i < children.len() && children[i] == child;
    children.lemma_filter_contains(keep, i);
}

/// The name of a file stands for that file, and for no file with another content.
pub proof fn law_file_name_resolves(location: Seq<char>, children: Seq<Children>, child: Children)
    requires
        location != "/"@,
        named(location, children) == Some(child),
        crate::entry::is_file(child),
    ensures
        resolved(location, children).contains(child),
        forall|other: Children| #[trigger]
            resolved(location, children).contains(other) ==> other.cid.unwrap()@
                == child.cid.unwrap()@,
{
    let by_name = by_name(location);
    let keep = selected_files(location, children);
    assert(children.filter(by_name)[0] == child);
    children.lemma_filter_contains_rev(by_name, child);
    let i = choose|i: int| 0 <= i < children.len() && children[i] == child;
    children.lemma_filter_contains(keep, i);
    let files = resolved(location, children);
    assert forall|other: Children| #[trigger] files.contains(other) implies other.cid.unwrap()@
        == child.cid.unwrap()@ by {
        let k = choose|k: int| 0 <= k < files.len() && files[k] == other;
        children.lemma_filter_pred(keep, k);
    }
}

/// A location in ASCII that no item has for its name stands for every file whose name is the
/// location, a slash, and anything.
pub proof fn law_directory_resolves(
    location: Seq<char>,
    children: Seq<Children>,
    child: Children,
    rest: Seq<char>,
)
    requires
        location != "/"@,
        is_ascii_chars(location),
        named(location, children) is None,
        children.contains(child),
        crate::entry::is_file(child),
        child.name@ == location.push('/') + rest,
    ensures
        resolved(location, children).contains(child),
{
    is_ascii_chars_encode_utf8(location);
    let i = choose|i: int| 0 <= i < children.len() && children[i] == child;
    assert(child.name@.take(location.len() as int) == location);
    assert(child.name@[cut(location)] == '/');
    assert(is_below(location, children[i]));
    let keep = selected_files(location, children);
    children.lemma_filter_contains(keep, i);
}

/// A location in ASCII that no item has for its name stands for no other content than that of the
/// files whose name is the location, a slash, and anything.
pub proof fn law_directory_resolves_nothing_else(
    location: Seq<char>,
    children: Seq<Children>,
    child: Children,
)
    requires
        location != "/"@,
        is_ascii_chars(location),
        named(location, children) is None,
        is_resolvable(location, children),
        resolved(location, children).contains(child),
    ensures
        exists|i: int|
            0 <= i < children.len() && crate::entry::is_file(#[trigger] children[i])
                && crate::text::has_prefix(children[i].name@, location.push('/'))
                && children[i].cid.unwrap()@ == child.cid.unwrap()@,
{
    is_ascii_chars_encode_utf8(location);
    let files = resolved(location, children);
    let k = choose|k: int| 0 <= k < files.len() && files[k] == child;
    children.lemma_filter_pred(selected_files(location, children), k);
    let i = choose|i: int|
        0 <= i < children.len() && is_below(location, #[trigger] children[i])
            && children[i].cid.unwrap()@ == child.cid.unwrap()@;
    let name = children[i].name@;
    assert(name.take((location.len() + 1) as int) == name.take(location.len() as int).push('/'));
    assert(crate::text::has_prefix(name, location.push('/')));
}

/// A location in ASCII can be resolved in every entry whose files all have a content identifier.
pub proof fn law_ascii_is_resolvable(location: Seq<char>, children: Seq<Children>)
    requires
        is_ascii_chars(location),
        forall|i: int|
            0 <= i < children.len() && crate::entry::is_file(#[trigger] children[i])
                ==> children[i].cid is Some,
    ensures
        is_resolvable(location, children),
{
    is_ascii_chars_encode_utf8(location);
    if named(location, children) is None {
        let by_name = by_name(location);
        assert forall|i: int|
            0 <= i < children.len() && crate::entry::is_file(#[trigger] children[i])
                && crate::text::has_prefix(children[i].name@, location) implies cut(location)
            < children[i].name@.len() by {
            if children[i].name@.len() == location.len() {
                assert(children[i].name@.take(location.len() as int) == children[i].name@);
                children.lemma_filter_contains(by_name, i);
                assert(children.filter(by_name).len() > 0);
            }
        }
    }
}

/// Resolving the entry itself among what it was resolved to changes nothing.
pub proof fn law_root_is_idempotent(children: Seq<Children>)
    ensures
        resolved("/"@, resolved("/"@, children)) == resolved("/"@, children),
    decreases children.len(),
{
    reveal(Seq::filter);
    let keep = all_files();
    if children.len() > 0 {
        law_root_is_idempotent(children.drop_last());
        let shorter = children.drop_last().filter(keep);
        if keep(children.last()) {
            assert(shorter.push(children.last()).drop_last() == shorter);
        }
    }
}

proof fn lemma_filter_indices(children: Seq<Children>, keep: spec_fn(Children) -> bool) -> (picked:
    Seq<int>)
    ensures
        picked.len() == children.filter(keep).len(),
        forall|k: int|
            0 <= k < picked.len() ==> 0 <= #[trigger] picked[k] < children.len()
                && children.filter(keep)[k] == children[picked[k]],
        forall|k: int, m: int|
            0 <= k < m < picked.len() ==> #[trigger] picked[k] < #[trigger] picked[m],
        forall|i: int| #[trigger]
            picked.contains(i) <==> 0 <= i < children.len() && keep(children[i]),
    decreases children.len(),
{
    reveal(Seq::filter);
    if children.len() == 0 {
        Seq::empty()
    } else {
        let front = children.drop_last();
        let before = lemma_filter_indices(front, keep);
        let n = children.len() - 1;
        let picked = if keep(children.last()) {
            before.push(n)
        } else {
            before
        };
        assert forall|i: int| #[trigger] picked.contains(i) <==> 0 <= i < children.len() && keep(
            children[i],
        ) by {
            if picked.contains(i) {
                let k = choose|k: int| 0 <= k < picked.len() && picked[k] == i;
                if k < before.len() {
                    assert(before[k] == i);
                    assert(before.contains(i));
                }
            }
            if 0 <= i < n && keep(children[i]) {
                assert(front[i] == children[i]);
                assert(before.contains(i));
                let k = choose|k: int| 0 <= k < before.len() && before[k] == i;
                assert(picked[k] == i);
            }
            if i == n && keep(children[i]) {
                assert(picked[before.len() as int] == i);
            }
        }
        assert forall|k: int| 0 <= k < picked.len() implies 0 <= #[trigger] picked[k]
            < children.len() && children.filter(keep)[k] == children[picked[k]] by {
            if k < before.len() {
                assert(picked[k] == before[k]);
                assert(front[before[k]] == children[before[k]]);
            }
        }
        picked
    }
}

proof fn lemma_first_named(location: Seq<char>, children: Seq<Children>) -> (first: Option<int>)
    ensures
        match first {
            Some(j) => {
                &&& 0 <= j < children.len()
                &&& children[j].name@ == location
                &&& forall|k: int| 0 <= k < j ==> (#[trigger] children[k]).name@ != location
                &&& named(location, children) == Some(children[j])
            },
            None => {
                &&& forall|k: int|
                    0 <= k < children.len() ==> (#[trigger] children[k]).name@ != location
                &&& named(location, children) is None
            },
        },
{
    let keep = by_name(location);
    let picked = lemma_filter_indices(children, keep);
    if picked.len() == 0 {
        assert forall|k: int| 0 <= k < children.len() implies (#[trigger] children[k]).name@
            != location by {
            assert(!picked.contains(k));
        }
        None
    } else {
        let j = picked[0];
        assert(picked.contains(j));
        assert forall|k: int| 0 <= k < j implies (#[trigger] children[k]).name@ != location by {
            if keep(children[k]) {
                assert(picked.contains(k));
                let m = choose|m: int| 0 <= m < picked.len() && picked[m] == k;
                assert(picked[0] <= picked[m]);
            }
        }
        Some(j)
    }
}

/// What a location stands for, item by item: the items at `picked`, each once and in their order.
/// An item is among them exactly where it is a file, and the location is the entry itself, or the
/// first item of that name has the same content, or there is no item of that name and a file has
/// the same content whose name begins with the location and has a slash at the character whose
/// number is the location's length in bytes.
pub proof fn law_resolved_items(location: Seq<char>, children: Seq<Children>) -> (picked: Seq<int>)
    ensures
        picked.len() == resolved(location, children).len(),
        forall|k: int|
            0 <= k < picked.len() ==> 0 <= #[trigger] picked[k] < children.len() && resolved(
                location,
                children,
            )[k] == children[picked[k]],
        forall|k: int, m: int|
            0 <= k < m < picked.len() ==> #[trigger] picked[k] < #[trigger] picked[m],
        forall|i: int| #[trigger]
            picked.contains(i) <==> {
                &&& 0 <= i < children.len()
                &&& children[i].kind@ == "file"@
                &&& {
                    ||| location == "/"@
                    ||| exists|j: int|
                        0 <= j < children.len() && (#[trigger] children[j]).name@ == location && (
                        forall|k: int|
                            0 <= k < j ==> (#[trigger] children[k]).name@ != location)
                            && children[j].cid.unwrap()@ == children[i].cid.unwrap()@
                    ||| {
                        &&& forall|j: int|
                            0 <= j < children.len() ==> (#[trigger] children[j]).name@ != location
                        &&& exists|j: int|
                            0 <= j < children.len() && (#[trigger] children[j]).kind@ == "file"@
                                && location.len() <= children[j].name@.len()
                                && children[j].name@.take(location.len() as int) == location
                                && children[j].name@[encode_utf8(location).len() as int] == '/'
                                && children[j].cid.unwrap()@ == children[i].cid.unwrap()@
                    }
                }
            },
{
    let keep = if location == "/"@ {
        all_files()
    } else {
        selected_files(location, children)
    };
    let picked = lemma_filter_indices(children, keep);
    let first = lemma_first_named(location, children);
    if location != "/"@ {
        assert forall|i: int| 0 <= i < children.len() && children[i].kind@ == "file"@ implies (
        #[trigger] is_selected(location, children, children[i].cid.unwrap()@) <==> {
            ||| exists|j: int|
                0 <= j < children.len() && (#[trigger] children[j]).name@ == location && (forall|
                    k: int,
                |
                    0 <= k < j ==> (#[trigger] children[k]).name@ != location)
                    && children[j].cid.unwrap()@ == children[i].cid.unwrap()@
            ||| {
                &&& forall|j: int|
                    0 <= j < children.len() ==> (#[trigger] children[j]).name@ != location
                &&& exists|j: int|
                    0 <= j < children.len() && (#[trigger] children[j]).kind@ == "file"@
                        && location.len() <= children[j].name@.len()
                        && children[j].name@.take(location.len() as int) == location
                        && children[j].name@[encode_utf8(location).len() as int] == '/'
                        && children[j].cid.unwrap()@ == children[i].cid.unwrap()@
            }
        }) by {
            let cid = children[i].cid.unwrap()@;
            match first {
                Some(j0) => {
                    if exists|j: int|
                        0 <= j < children.len() && (#[trigger] children[j]).name@ == location && (
                        forall|k: int|
                            0 <= k < j ==> (#[trigger] children[k]).name@ != location)
                            && children[j].cid.unwrap()@ == cid {
                        let j = choose|j: int|
                            0 <= j < children.len() && (#[trigger] children[j]).name@ == location
                                && (forall|k: int|
                                0 <= k < j ==> (#[trigger] children[k]).name@ != location)
                                && children[j].cid.unwrap()@ == cid;
                        assert(j == j0) by {
                            if j < j0 {
                                assert(children[j].name@ != location);
                            }
                            if j0 < j {
                                assert(children[j0].name@ != location);
                            }
                        }
                    }
                    assert(children[j0].name@ == location);
                },
                None => {
                    if is_selected(location, children, cid) {
                        let j = choose|j: int|
                            0 <= j < children.len() && is_below(location, #[trigger] children[j])
                                && children[j].cid.unwrap()@ == cid;
                        assert(children[j].kind@ == "file"@);
                    }
                    if exists|j: int|
                        0 <= j < children.len() && (#[trigger] children[j]).kind@ == "file"@
                            && location.len() <= children[j].name@.len()
                            && children[j].name@.take(location.len() as int) == location
                            && children[j].name@[encode_utf8(location).len() as int] == '/'
                            && children[j].cid.unwrap()@ == cid {
                        let j = choose|j: int|
                            0 <= j < children.len() && (#[trigger] children[j]).kind@ == "file"@
                                && location.len() <= children[j].name@.len()
                                && children[j].name@.take(location.len() as int) == location
                                && children[j].name@[encode_utf8(location).len() as int] == '/'
                                && children[j].cid.unwrap()@ == cid;
                        assert(is_below(location, children[j]));
                    }
                },
            }
        }
    }
    picked
}

/// A location is taken for a nested entry exactly where the first item of that name is not a file.
pub proof fn law_nested_is_no_file(location: Seq<char>, children: Seq<Children>)
    ensures
        is_nested(location, children) <==> exists|j: int|
            0 <= j < children.len() && (#[trigger] children[j]).name@ == location && (forall|
                k: int,
            |
                0 <= k < j ==> (#[trigger] children[k]).name@ != location) && children[j].kind@
                != "file"@,
{
    match lemma_first_named(location, children) {
        Some(j0) => {
            if exists|j: int|
                0 <= j < children.len() && (#[trigger] children[j]).name@ == location && (forall|
                    k: int,
                |
                    0 <= k < j ==> (#[trigger] children[k]).name@ != location) && children[j].kind@
                    != "file"@ {
                let j = choose|j: int|
                    0 <= j < children.len() && (#[trigger] children[j]).name@ == location && (
                    forall|k: int| 0 <= k < j ==> (#[trigger] children[k]).name@ != location)
                        && children[j].kind@ != "file"@;
                if j < j0 {
                    assert(children[j].name@ != location);
                }
                if j0 < j {
                    assert(children[j0].name@ != location);
                }
            }
            assert(children[j0].name@ == location);
        },
        None => {},
    }
}

/// The first item of a name, where it is a file, is what its name stands for, however deep it
/// lies: it is no nested entry, and it is among the files.
pub proof fn law_file_is_found_by_name(location: Seq<char>, children: Seq<Children>, j: int)
    requires
        0 <= j < children.len(),
        children[j].name@ == location,
        forall|k: int| 0 <= k < j ==> (#[trigger] children[k]).name@ != location,
        children[j].kind@ == "file"@,
    ensures
        !is_nested(location, children),
        exists|n: int|
            0 <= n < resolved(location, children).len() && #[trigger] resolved(location, children)[n]
                == children[j],
{
    law_nested_is_no_file(location, children);
    if is_nested(location, children) {
        let i = choose|i: int|
            0 <= i < children.len() && (#[trigger] children[i]).name@ == location && (forall|
                k: int,
            |
                0 <= k < i ==> (#[trigger] children[k]).name@ != location) && children[i].kind@
                != "file"@;
        if i < j {
            assert(children[i].name@ != location);
        }
        if j < i {
            assert(children[j].name@ != location);
        }
    }
    let picked = law_resolved_items(location, children);
    assert(picked.contains(j));
    let n = choose|n: int| 0 <= n < picked.len() && picked[n] == j;
    assert(resolved(location, children)[n] == children[j]);
}

/// What can be resolved: the entry itself, a nested entry, and every location where all files have
/// a content identifier and, with no item of that name, all files whose name begins with the
/// location have a character after as many as the location has bytes.
pub proof fn law_what_can_be_resolved(location: Seq<char>, children: Seq<Children>)
    ensures
        is_resolvable(location, children) <==> {
            ||| location == "/"@
            ||| exists|j: int|
                0 <= j < children.len() && (#[trigger] children[j]).name@ == location && (forall|
                    k: int,
                |
                    0 <= k < j ==> (#[trigger] children[k]).name@ != location) && children[j].kind@
                    != "file"@
            ||| {
                &&& forall|i: int|
                    0 <= i < children.len() && (#[trigger] children[i]).kind@ == "file"@
                        ==> children[i].cid is Some
                &&& (forall|i: int|
                    0 <= i < children.len() ==> (#[trigger] children[i]).name@ != location)
                    ==> forall|i: int|
                    0 <= i < children.len() && (#[trigger] children[i]).kind@ == "file"@
                        && location.len() <= children[i].name@.len() && children[i].name@.take(
                        location.len() as int,
                    ) == location ==> encode_utf8(location).len() < children[i].name@.len()
            }
        },
{
    law_nested_is_no_file(location, children);
    let first = lemma_first_named(location, children);
    assert(first is None <==> forall|i: int|
        0 <= i < children.len() ==> (#[trigger] children[i]).name@ != location) by {
        if let Some(j) = first {
            assert(children[j].name@ == location);
        }
    }
}

} // verus!
