//! Paths written with `/` between their parts, as sequences of characters.

use vstd::prelude::*;
use vstd::string::*;

verus! {

/// The parts of `s` between its slashes. There is always at least one part; each of them may be
/// empty.
pub open spec fn split_path(s: Seq<char>) -> Seq<Seq<char>>
    decreases s.len(),
{
    if s.len() == 0 {
        seq![Seq::<char>::empty()]
    } else {
        let before = split_path(s.drop_last());
        if s.last() == '/' {
            before.push(Seq::<char>::empty())
        } else {
            before.drop_last().push(before.last().push(s.last()))
        }
    }
}

/// The parts written one after the other with a slash between each two.
pub open spec fn join_path(parts: Seq<Seq<char>>) -> Seq<char>
    decreases parts.len(),
{
    if parts.len() == 0 {
        Seq::<char>::empty()
    } else if parts.len() == 1 {
        parts[0]
    } else {
        join_path(parts.drop_last()).push('/') + parts.last()
    }
}

/// What each of the strings holds.
pub open spec fn texts(v: Seq<String>) -> Seq<Seq<char>> {
    v.map_values(|s: String| s@)
}

/// `s` begins with `prefix`.
pub open spec fn has_prefix(s: Seq<char>, prefix: Seq<char>) -> bool {
    prefix.len() <= s.len() && s.take(prefix.len() as int) == prefix
}

/// A text splits into at least one part.
pub proof fn lemma_split_nonempty(s: Seq<char>)
    ensures
        split_path(s).len() >= 1,
    decreases s.len(),
{
    if s.len() > 0 {
        lemma_split_nonempty(s.drop_last());
    }
}

/// No part of a split text holds a slash.
pub proof fn lemma_split_no_slash(s: Seq<char>)
    ensures
        forall|i: int| 0 <= i < split_path(s).len() ==> !(#[trigger] split_path(s)[i]).contains('/'),
    decreases s.len(),
{
    lemma_split_nonempty(s);
    if s.len() > 0 {
        let before = split_path(s.drop_last());
        lemma_split_nonempty(s.drop_last());
        lemma_split_no_slash(s.drop_last());
        assert forall|i: int| 0 <= i < split_path(s).len() implies !(
        #[trigger] split_path(s)[i]).contains('/') by {
            if s.last() != '/' && i == before.len() - 1 {
                assert(!before.last().contains('/'));
                assert forall|j: int|
                    0 <= j < split_path(s)[i].len() implies split_path(s)[i][j] != '/' by {
                    if j < before.last().len() {
                        assert(before.last()[j] == split_path(s)[i][j]);
                    }
                }
            } else if i < before.len() {
                assert(split_path(s)[i] == before[i]);
            }
        }
    }
}

/// Joining what a text was split into gives the text back.
pub proof fn lemma_join_split(s: Seq<char>)
    ensures
        join_path(split_path(s)) == s,
    decreases s.len(),
{
    if s.len() > 0 {
        let before = split_path(s.drop_last());
        lemma_split_nonempty(s.drop_last());
        lemma_join_split(s.drop_last());
        let parts = split_path(s);
        assert(parts.drop_last() == if s.last() == '/' { before } else { before.drop_last() });
        if s.last() == '/' {
            assert(join_path(parts) == s.drop_last().push('/') + Seq::<char>::empty());
        } else if before.len() > 1 {
            let front = join_path(before.drop_last()).push('/');
            assert(front + before.last().push(s.last()) == (front + before.last()).push(s.last()));
        }
        assert(s == s.drop_last().push(s.last()));
        assert(join_path(parts) == s);
    }
}

/// Splitting what was joined gives the parts back, where no part holds a slash and there is one
/// part at least.
pub proof fn lemma_split_join(parts: Seq<Seq<char>>)
    requires
        parts.len() >= 1,
        forall|i: int| 0 <= i < parts.len() ==> !(#[trigger] parts[i]).contains('/'),
    ensures
        split_path(join_path(parts)) == parts,
    decreases parts.len(), parts.last().len(),
{
    let last = parts.last();
    if last.len() > 0 {
        let shorter = parts.drop_last().push(last.drop_last());
        assert forall|i: int| 0 <= i < shorter.len() implies !(#[trigger] shorter[i]).contains('/') by {
            assert(!parts[i].contains('/'));
            if i == shorter.len() - 1 {
                assert forall|j: int| 0 <= j < shorter[i].len() implies shorter[i][j] != '/' by {
                    assert(parts[i][j] == shorter[i][j]);
                }
            }
        }
        lemma_split_join(shorter);
        assert(shorter.drop_last() == parts.drop_last());
        let joined = join_path(parts);
        assert(joined.drop_last() == join_path(shorter));
        assert(joined.last() == last.last());
        assert(last.last() != '/') by {
            assert(!parts[parts.len() - 1].contains('/'));
            assert(last[last.len() - 1] == last.last());
        }
        assert(last == last.drop_last().push(last.last()));
        assert(split_path(joined) == parts);
    } else if parts.len() == 1 {
        assert(join_path(parts) == Seq::<char>::empty());
        assert(parts == seq![Seq::<char>::empty()]);
    } else {
        let front = parts.drop_last();
        assert forall|i: int| 0 <= i < front.len() implies !(#[trigger] front[i]).contains('/') by {
            assert(!parts[i].contains('/'));
        }
        lemma_split_join(front);
        let joined = join_path(parts);
        assert(joined.drop_last() == join_path(front));
        assert(joined.last() == '/');
        assert(last == Seq::<char>::empty());
        assert(split_path(joined) == parts);
    }
}

/// A slash parts what stands before it from what stands after it.
pub proof fn lemma_split_concat(a: Seq<char>, b: Seq<char>)
    ensures
        split_path(a.push('/') + b) == split_path(a) + split_path(b),
    decreases b.len(),
{
    let whole = a.push('/') + b;
    lemma_split_nonempty(b);
    if b.len() == 0 {
        assert(whole == a.push('/'));
        assert(whole.drop_last() == a);
        assert(split_path(whole) == split_path(a) + split_path(b));
    } else {
        lemma_split_concat(a, b.drop_last());
        lemma_split_nonempty(b.drop_last());
        assert(whole.drop_last() == a.push('/') + b.drop_last());
        let before = split_path(b.drop_last());
        let front = split_path(a);
        assert((front + before).drop_last() == front + before.drop_last());
        assert(split_path(whole) == front + split_path(b));
    }
}

/// Joining two lists of parts puts a slash between the two joined texts.
pub proof fn lemma_join_concat(a: Seq<Seq<char>>, b: Seq<Seq<char>>)
    requires
        a.len() >= 1,
        b.len() >= 1,
    ensures
        join_path(a + b) == join_path(a).push('/') + join_path(b),
    decreases b.len(),
{
    assert((a + b).drop_last() == a + b.drop_last());
    if b.len() == 1 {
        assert(a + b.drop_last() == a);
    } else {
        lemma_join_concat(a, b.drop_last());
        assert(join_path(a + b) == join_path(a).push('/') + join_path(b));
    }
}

/// Collects the characters of a text.
pub fn chars_of(s: &str) -> (v: Vec<char>)
    ensures
        v@ == s@,
{
    let mut v: Vec<char> = Vec::new();
    for c in it: s.chars()
        invariant
            v@ == it.seq().take(it.index() as int),
            it.seq() == s@,
    {
        v.push(c);
    }
    v
}

/// Splits a text at its slashes.
pub fn split_slashes(s: &str) -> (parts: Vec<String>)
    ensures
        texts(parts@) == split_path(s@),
{
    let chars = chars_of(s);
    let mut parts: Vec<String> = Vec::new();
    let mut start: usize = 0;
    let mut i: usize = 0;
    proof {
        assert(s@.take(0) == Seq::<char>::empty());
        assert(s@.subrange(0, 0) == Seq::<char>::empty());
        assert(texts(parts@).push(Seq::<char>::empty()) == seq![Seq::<char>::empty()]);
    }
    while i < chars.len()
        invariant
            chars@ == s@,
            start <= i <= chars.len(),
            split_path(s@.take(i as int)) == texts(parts@).push(
                s@.subrange(start as int, i as int),
            ),
        decreases chars.len() - i,
    {
        proof {
            assert(s@.take(i + 1).drop_last() == s@.take(i as int));
            assert(texts(parts@).push(s@.subrange(start as int, i as int)).drop_last() == texts(
                parts@,
            ));
        }
        if chars[i] == '/' {
            let ghost before = parts@;
            parts.push(s.substring_char(start, i).to_owned());
            start = i + 1;
            proof {
                assert(texts(parts@) == texts(before).push(parts@.last()@));
                assert(s@.subrange(start as int, i + 1) == Seq::<char>::empty());
            }
        } else {
            assert(s@.subrange(start as int, i + 1) == s@.subrange(start as int, i as int).push(
                s@[i as int],
            ));
        }
        i = i + 1;
    }
    let ghost before = parts@;
    parts.push(s.substring_char(start, i).to_owned());
    proof {
        assert(s@.take(i as int) == s@);
        assert(texts(parts@) == texts(before).push(parts@.last()@));
    }
    parts
}

/// Joins the parts from index `from` on with slashes.
pub fn join_slashes(parts: &Vec<String>, from: usize) -> (s: String)
    requires
        from <= parts.len(),
    ensures
        s@ == join_path(texts(parts@).skip(from as int)),
{
    let mut s = String::new();
    let ghost all = texts(parts@).skip(from as int);
    let mut i: usize = from;
    while i < parts.len()
        invariant
            from <= i <= parts.len(),
            all == texts(parts@).skip(from as int),
            s@ == join_path(all.take(i - from)),
        decreases parts.len() - i,
    {
        proof {
            assert(all.take(i + 1 - from).drop_last() == all.take(i - from));
            assert(all.take(i + 1 - from).last() == parts@[i as int]@);
        }
        if i != from {
            s.append("/");
            proof {
                reveal_strlit("/");
            }
        }
        s.append(parts[i].as_str());
        proof {
            reveal_strlit("/");
            assert(s@ == join_path(all.take(i + 1 - from)));
        }
        i = i + 1;
    }
    assert(all.take(i - from) == all);
    s
}

/// Whether a text begins with another.
pub fn starts_with(s: &str, prefix: &str) -> (b: bool)
    ensures
        b == has_prefix(s@, prefix@),
{
    let long = chars_of(s);
    let short = chars_of(prefix);
    if short.len() > long.len() {
        return false;
    }
    let mut i: usize = 0;
    while i < short.len()
        invariant
            long@ == s@,
            short@ == prefix@,
            i <= short.len() <= long.len(),
            forall|j: int| 0 <= j < i ==> long@[j] == short@[j],
        decreases short.len() - i,
    {
        if long[i] != short[i] {
            proof {
                assert(s@.take(prefix@.len() as int)[i as int] == s@[i as int]);
            }
            return false;
        }
        i = i + 1;
    }
    assert(s@.take(prefix@.len() as int) == prefix@);
    true
}

/// Joining puts a slash before each part but the first, and nothing else.
pub proof fn law_join_adds_slashes(parts: Seq<Seq<char>>, part: Seq<char>)
    ensures
        join_path(Seq::<Seq<char>>::empty()) == Seq::<char>::empty(),
        join_path(seq![part]) == part,
        parts.len() > 0 ==> join_path(parts.push(part)) == join_path(parts) + seq!['/'] + part,
{
    if parts.len() > 0 {
        assert(parts.push(part).drop_last() == parts);
        assert(join_path(parts).push('/') + part == join_path(parts) + seq!['/'] + part);
    }
}

/// The parts of a text are the only list of texts without slashes that is joined to it.
pub proof fn law_split_is_the_only_way(s: Seq<char>, parts: Seq<Seq<char>>)
    ensures
        split_path(s) == parts <==> {
            &&& parts.len() >= 1
            &&& forall|i: int, j: int|
                0 <= i < parts.len() && 0 <= j < parts[i].len() ==> #[trigger] parts[i][j] != '/'
            &&& join_path(parts) == s
        },
{
    if split_path(s) == parts {
        lemma_split_nonempty(s);
        lemma_split_no_slash(s);
        lemma_join_split(s);
        assert forall|i: int, j: int|
            0 <= i < parts.len() && 0 <= j < parts[i].len() implies #[trigger] parts[i][j] != '/' by {
            assert(!split_path(s)[i].contains('/'));
        }
    }
    if parts.len() >= 1 && (forall|i: int, j: int|
        0 <= i < parts.len() && 0 <= j < parts[i].len() ==> #[trigger] parts[i][j] != '/')
        && join_path(parts) == s {
        assert forall|i: int| 0 <= i < parts.len() implies !(#[trigger] parts[i]).contains('/') by {}
        lemma_split_join(parts);
    }
}

/// A text begins with another exactly where it is that other text with something after it.
pub proof fn law_prefix_is_followed(s: Seq<char>, prefix: Seq<char>)
    ensures
        has_prefix(s, prefix) <==> exists|rest: Seq<char>| s == #[trigger] (prefix + rest),
{
    if has_prefix(s, prefix) {
        assert(s == prefix + s.skip(prefix.len() as int));
    }
    if exists|rest: Seq<char>| s == #[trigger] (prefix + rest) {
        let rest = choose|rest: Seq<char>| s == #[trigger] (prefix + rest);
        assert((prefix + rest).take(prefix.len() as int) == prefix);
    }
}

/// Where a part stands in the text that was split.
pub proof fn lemma_part_position(s: Seq<char>, m: int) -> (p: int)
    requires
        0 <= m < split_path(s).len(),
    ensures
        0 <= p,
        p + split_path(s)[m].len() <= s.len(),
        s.subrange(p, p + split_path(s)[m].len()) == split_path(s)[m],
        p == 0 || s[p - 1] == '/',
        m == split_path(s).len() - 1 ==> p + split_path(s)[m].len() == s.len(),
    decreases s.len(),
{
    if s.len() == 0 {
        assert(s.subrange(0, 0) == split_path(s)[m]);
        0
    } else {
        let front = s.drop_last();
        let before = split_path(front);
        lemma_split_nonempty(front);
        if s.last() == '/' && m == before.len() {
            assert(s.subrange(s.len() as int, s.len() as int) == split_path(s)[m]);
            s.len() as int
        } else {
            let p = lemma_part_position(front, m);
            let part = split_path(s)[m];
            if s.last() != '/' && m == before.len() - 1 {
                assert(part == before[m].push(s.last()));
                assert(s.subrange(p, p + part.len()) == part);
            } else {
                assert(part == before[m]);
                assert(s.subrange(p, p + part.len()) == front.subrange(p, p + part.len()));
            }
            p
        }
    }
}

/// What strings hold is told one by one and in their order.
pub proof fn law_texts_one_by_one(v: Seq<String>, i: int)
    requires
        0 <= i < v.len(),
    ensures
        texts(v).len() == v.len(),
        texts(v)[i] == v[i]@,
{
}

} // verus!
