//! Locations: paths through the entries of the network.
//!
//! A part of a location that begins with `e_` names an entry by its signature. The last such part
//! is the key under which the entry is stored in the DHT; what follows it is a place inside the
//! entry.

use crate::text::{join_slashes, split_slashes, starts_with};
use libp2p::kad::RecordKey;
use vstd::prelude::*;
use vstd::string::*;
use vstd::utf8::*;

verus! {

/// The key of a DHT record, as the Kademlia crate holds it.
#[verifier::external_type_specification]
#[verifier::external_body]
pub struct ExRecordKey(libp2p::kad::RecordKey);

/// The bytes that a record key holds.
pub uninterp spec fn record_key_bytes(key: RecordKey) -> Seq<u8>;

/// Calls `RecordKey::new`, which copies the bytes of its argument into a new key. The bytes of a
/// string are its UTF-8 encoding.
#[verifier::external_body]
fn new_record_key(part: &String) -> (key: RecordKey)
    ensures
        record_key_bytes(key) == encode_utf8(part@),
{
    RecordKey::new(part)
}

/// What a location refers to.
pub struct Located {
    /// The part that names the entry, `e_` included.
    pub key: Seq<char>,
    /// The place inside the entry: `/` for the entry itself.
    pub location: Seq<char>,
    /// The signature of the entry.
    pub signature: Seq<char>,
}

/// `s` without its last character where that is a slash.
pub open spec fn trim_slash(s: Seq<char>) -> Seq<char> {
    if s.len() > 0 && s.last() == '/' {
        s.drop_last()
    } else {
        s
    }
}

/// A part that names an entry.
pub open spec fn is_key_part(part: Seq<char>) -> bool {
    part.len() >= 2 && part[0] == 'e' && part[1] == '_'
}

/// The index of the last part that names an entry.
pub open spec fn last_key_part(parts: Seq<Seq<char>>) -> Option<int>
    decreases parts.len(),
{
    if parts.len() == 0 {
        None
    } else if is_key_part(parts.last()) {
        Some(parts.len() - 1)
    } else {
        last_key_part(parts.drop_last())
    }
}

/// The place inside an entry whose key is the part at `key`.
pub open spec fn inner_location(parts: Seq<Seq<char>>, key: int) -> Seq<char> {
    if key == parts.len() - 1 {
        seq!['/']
    } else {
        crate::text::join_path(parts.skip(key + 1))
    }
}

/// What the location `s` refers to, if it names an entry at all.
pub open spec fn locate(s: Seq<char>) -> Option<Located> {
    let parts = crate::text::split_path(trim_slash(s));
    match last_key_part(parts) {
        Some(key) => Some(
            Located {
                key: parts[key],
                location: inner_location(parts, key),
                signature: parts[key].skip(2),
            },
        ),
        None => None,
    }
}

proof fn lemma_last_key_part(parts: Seq<Seq<char>>)
    ensures
        match last_key_part(parts) {
            Some(k) => 0 <= k < parts.len() && is_key_part(parts[k]) && forall|j: int|
                k < j < parts.len() ==> !is_key_part(#[trigger] parts[j]),
            None => forall|j: int| 0 <= j < parts.len() ==> !is_key_part(#[trigger] parts[j]),
        },
    decreases parts.len(),
{
    if parts.len() > 0 {
        lemma_last_key_part(parts.drop_last());
        assert forall|j: int| 0 <= j < parts.len() - 1 implies #[trigger] parts[j]
            == parts.drop_last()[j] by {}
    }
}

proof fn lemma_last_key_part_is(parts: Seq<Seq<char>>, k: int)
    requires
        0 <= k < parts.len(),
        is_key_part(parts[k]),
        forall|j: int| k < j < parts.len() ==> !is_key_part(#[trigger] parts[j]),
    ensures
        last_key_part(parts) == Some(k),
{
    lemma_last_key_part(parts);
}

/// Finds the entry that a location names: its DHT key, the place inside the entry, and the
/// signature of the entry.
pub fn get_location_key(input_location: String) -> (found: Result<(RecordKey, String, String), String>)
    ensures
        match found {
            Ok((key, location, signature)) => {
                &&& locate(input_location@) matches Some(l)
                &&& record_key_bytes(key) == encode_utf8(l.key)
                &&& location@ == l.location
                &&& signature@ == l.signature
            },
            Err(error) => {
                &&& locate(input_location@) is None
                &&& error@ == "No signature key found"@
            },
        },
{
    let length: usize = input_location.as_str().unicode_len();
    let trimmed: &str = if length > 0 && input_location.as_str().get_char(length - 1) == '/' {
        input_location.as_str().substring_char(0, length - 1)
    } else {
        input_location.as_str()
    };
    assert(trimmed@ == trim_slash(input_location@));
    let parts = split_slashes(trimmed);
    let ghost texts = crate::text::texts(parts@);

    let mut key_idx: usize = parts.len();
    while key_idx > 0
        invariant
            key_idx <= parts.len(),
            texts == crate::text::texts(parts@),
            forall|j: int| key_idx <= j < texts.len() ==> !is_key_part(#[trigger] texts[j]),
        ensures
            key_idx <= parts.len(),
            forall|j: int| key_idx <= j < texts.len() ==> !is_key_part(#[trigger] texts[j]),
            key_idx > 0 ==> is_key_part(texts[key_idx - 1]),
        decreases key_idx,
    {
        proof {
            reveal_strlit("e_");
            let part = texts[key_idx - 1];
            assert(part == parts@[key_idx - 1]@);
            if part.len() >= 2 {
                assert(part.take(2)[0] == part[0] && part.take(2)[1] == part[1]);
            }
            assert(crate::text::has_prefix(part, "e_"@) == is_key_part(part)) by {
                if is_key_part(part) {
                    assert(part.take(2) == "e_"@);
                }
            }
        }
        if starts_with(parts[key_idx - 1].as_str(), "e_") {
            break;
        }
        key_idx = key_idx - 1;
    }
    if key_idx == 0 {
        proof {
            lemma_last_key_part(texts);
        }
        return Err("No signature key found".to_owned());
    }
    let key_idx: usize = key_idx - 1;
    proof {
        lemma_last_key_part_is(texts, key_idx as int);
    }
    let part: &String = &parts[key_idx];
    assert(part@ == texts[key_idx as int]);
    let part_len: usize = part.as_str().unicode_len();
    let signature = part.as_str().substring_char(2, part_len).to_owned();
    let location = if key_idx == parts.len() - 1 {
        proof {
            reveal_strlit("/");
            assert("/"@ == seq!['/']);
        }
        "/".to_owned()
    } else {
        join_slashes(&parts, key_idx + 1)
    };
    Ok((new_record_key(part), location, signature))
}

/// A slash at the end of a location that does not end in one changes nothing.
pub proof fn law_trailing_slash(s: Seq<char>)
    requires
        s.len() == 0 || s.last() != '/',
    ensures
        locate(s.push('/')) == locate(s),
{
    assert(s.push('/').drop_last() == s);
}

/// A location is made up of what is found in it: something that is empty or ends in a slash, the
/// key, and the place inside the entry. The key is `e_` and the signature, the signature holds no
/// slash, and no part of the place inside the entry names an entry.
pub proof fn law_located_parts(s: Seq<char>)
    ensures
        locate(s) matches Some(l) ==> {
            &&& l.key == seq!['e', '_'] + l.signature
            &&& !l.signature.contains('/')
            &&& forall|j: int|
                0 <= j < crate::text::split_path(l.location).len() ==> !is_key_part(
                    #[trigger] crate::text::split_path(l.location)[j],
                )
            &&& exists|before: Seq<char>|
                #![trigger before + l.key]
                {
                    &&& before.len() == 0 || before.last() == '/'
                    &&& {
                        ||| trim_slash(s) == before + l.key && l.location == seq!['/']
                        ||| trim_slash(s) == (before + l.key).push('/') + l.location
                    }
                }
        },
{
    let t = trim_slash(s);
    let parts = crate::text::split_path(t);
    lemma_last_key_part(parts);
    crate::text::lemma_join_split(t);
    crate::text::lemma_split_no_slash(t);
    if let Some(l) = locate(s) {
        let k = last_key_part(parts).unwrap();
        assert(parts[k] == l.key);
        assert(!l.key.contains('/'));
        assert(l.key == seq!['e', '_'] + l.signature);
        assert forall|i: int| 0 <= i < l.signature.len() implies l.signature[i] != '/' by {
            assert(l.key[i + 2] == l.signature[i]);
        }
        let rest = parts.skip(k + 1);
        if k == parts.len() - 1 {
            assert(seq!['/'] == crate::text::join_path(seq![seq![], seq![]])) by {
                let slash = seq![Seq::<char>::empty(), Seq::<char>::empty()];
                assert(slash.drop_last() == seq![Seq::<char>::empty()]);
                assert(crate::text::join_path(slash.drop_last()) == Seq::<char>::empty());
                assert(crate::text::join_path(slash) == seq!['/']);
            }
            crate::text::lemma_split_join(seq![Seq::<char>::empty(), Seq::<char>::empty()]);
        } else {
            assert forall|i: int| 0 <= i < rest.len() implies !(#[trigger] rest[i]).contains('/') by {
                assert(!parts[i + k + 1].contains('/'));
            }
            crate::text::lemma_split_join(rest);
            assert forall|j: int| 0 <= j < rest.len() implies !is_key_part(#[trigger] rest[j]) by {
                assert(!is_key_part(parts[j + k + 1]));
            }
        }
        let before = if k == 0 {
            Seq::<char>::empty()
        } else {
            crate::text::join_path(parts.take(k)).push('/')
        };
        let with_key = parts.take(k + 1);
        assert(with_key.drop_last() == parts.take(k));
        assert(with_key.last() == l.key);
        assert(crate::text::join_path(with_key) == before + l.key) by {
            if k == 0 {
                assert(before + l.key == l.key);
            }
        }
        if k == parts.len() - 1 {
            assert(with_key == parts);
        } else {
            crate::text::lemma_join_concat(with_key, rest);
            assert(with_key + rest == parts);
        }
    }
}

/// The location of a place inside an entry leads back to the entry and the place, whatever
/// entries it passes through before.
pub proof fn law_locate_inside(before: Seq<char>, signature: Seq<char>, place: Seq<char>)
    requires
        before.len() == 0 || before.last() == '/',
        !signature.contains('/'),
        place.len() > 0,
        place.last() != '/',
        forall|j: int|
            0 <= j < crate::text::split_path(place).len() ==> !is_key_part(
                #[trigger] crate::text::split_path(place)[j],
            ),
    ensures
        locate((before + seq!['e', '_'] + signature).push('/') + place) == Some(
            Located { key: seq!['e', '_'] + signature, location: place, signature },
        ),
{
    let key = seq!['e', '_'] + signature;
    let to_key = before + seq!['e', '_'] + signature;
    let s = to_key.push('/') + place;
    assert(s.last() == place.last());
    crate::text::lemma_split_concat(to_key, place);
    lemma_split_at_key(before, signature);
    let front = crate::text::split_path(to_key);
    let back = crate::text::split_path(place);
    let parts = front + back;
    crate::text::lemma_split_nonempty(place);
    lemma_last_key_part_is(parts, front.len() - 1);
    assert(parts.skip(front.len() as int) == back);
    crate::text::lemma_join_split(place);
    assert(key.skip(2) == signature);
}

/// The location of an entry leads back to the entry as a whole.
pub proof fn law_locate_entry(before: Seq<char>, signature: Seq<char>)
    requires
        before.len() == 0 || before.last() == '/',
        !signature.contains('/'),
    ensures
        locate(before + seq!['e', '_'] + signature) == Some(
            Located { key: seq!['e', '_'] + signature, location: seq!['/'], signature },
        ),
{
    let key = seq!['e', '_'] + signature;
    let s = before + seq!['e', '_'] + signature;
    assert(s.last() != '/') by {
        if signature.len() > 0 {
            assert(signature[signature.len() - 1] == s.last());
        }
    }
    lemma_split_at_key(before, signature);
    let parts = crate::text::split_path(s);
    lemma_last_key_part_is(parts, parts.len() - 1);
    assert(key.skip(2) == signature);
}

proof fn lemma_split_at_key(before: Seq<char>, signature: Seq<char>)
    requires
        before.len() == 0 || before.last() == '/',
        !signature.contains('/'),
    ensures
        ({
            let parts = crate::text::split_path(before + seq!['e', '_'] + signature);
            parts.len() >= 1 && parts.last() == seq!['e', '_'] + signature
        }),
{
    let key = seq!['e', '_'] + signature;
    let s = before + seq!['e', '_'] + signature;
    assert(!key.contains('/')) by {
        assert forall|i: int| 0 <= i < key.len() implies key[i] != '/' by {
            if i >= 2 {
                assert(signature[i - 2] == key[i]);
            }
        }
    }
    crate::text::lemma_split_join(seq![key]);
    if before.len() == 0 {
        assert(s == key);
    } else {
        assert(s == before.drop_last().push('/') + key);
        crate::text::lemma_split_concat(before.drop_last(), key);
    }
}

/// Where a location, but for one slash at its end, is `t`, and the last part of `t` that begins
/// with `e_` stands from `start` to `end`: that part is the key, what follows `e_` in it is the
/// signature, and what follows the slash after it is the place inside the entry. With nothing
/// after it, the place is a slash.
pub proof fn law_last_key_is_found(s: Seq<char>, t: Seq<char>, start: int, end: int)
    requires
        s == t.push('/') || (s == t && (t.len() == 0 || t[t.len() - 1] != '/')),
        0 <= start,
        start + 2 <= end <= t.len(),
        start == 0 || t[start - 1] == '/',
        t[start] == 'e',
        t[start + 1] == '_',
        forall|j: int| start <= j < end ==> #[trigger] t[j] != '/',
        end == t.len() || t[end] == '/',
        forall|j: int|
            start < j < t.len() - 1 && t[j - 1] == '/' ==> !(#[trigger] t[j] == 'e' && t[j + 1]
                == '_'),
    ensures
        locate(s) matches Some(l) && {
            &&& l.key == t.subrange(start, end)
            &&& l.signature == t.subrange(start + 2, end)
            &&& end == t.len() ==> l.location == seq!['/']
            &&& end < t.len() ==> l.location == t.subrange(end + 1, t.len() as int)
        },
{
    assert forall|j: int| start < j < t.len() implies !(#[trigger] starts_key(t, j)) by {}
    lemma_key_is_found(s, t, start, end);
}

/// A part that names an entry begins at `j`.
spec fn starts_key(t: Seq<char>, j: int) -> bool {
    0 <= j < t.len() - 1 && (j == 0 || t[j - 1] == '/') && t[j] == 'e' && t[j + 1] == '_'
}

proof fn lemma_key_is_found(s: Seq<char>, t: Seq<char>, start: int, end: int)
    requires
        s == t.push('/') || (s == t && (t.len() == 0 || t[t.len() - 1] != '/')),
        starts_key(t, start),
        start + 2 <= end <= t.len(),
        forall|j: int| start <= j < end ==> #[trigger] t[j] != '/',
        end == t.len() || t[end] == '/',
        forall|j: int| start < j < t.len() ==> !(#[trigger] starts_key(t, j)),
    ensures
        locate(s) matches Some(l) && {
            &&& l.key == t.subrange(start, end)
            &&& l.signature == t.subrange(start + 2, end)
            &&& end == t.len() ==> l.location == seq!['/']
            &&& end < t.len() ==> l.location == t.subrange(end + 1, t.len() as int)
        },
{
    assert(t.push('/').drop_last() == t);
    assert(trim_slash(s) == t);
    let before = t.take(start);
    let key = t.subrange(start, end);
    let signature = t.subrange(start + 2, end);
    let to_key = t.take(end);
    assert(key == seq!['e', '_'] + signature);
    assert(to_key == before + seq!['e', '_'] + signature);
    assert(!signature.contains('/')) by {
        assert forall|i: int| 0 <= i < signature.len() implies signature[i] != '/' by {
            assert(t[start + 2 + i] == signature[i]);
        }
    }
    if start > 0 {
        assert(before.last() == t[start - 1]);
    }
    lemma_split_at_key(before, signature);
    let front = crate::text::split_path(to_key);
    let parts = crate::text::split_path(t);
    assert(key.skip(2) == signature);
    if end == t.len() {
        assert(to_key == t);
        lemma_last_key_part_is(parts, parts.len() - 1);
    } else {
        let place = t.subrange(end + 1, t.len() as int);
        let back = crate::text::split_path(place);
        assert(t == to_key.push('/') + place);
        crate::text::lemma_split_concat(to_key, place);
        crate::text::lemma_split_nonempty(place);
        assert forall|m: int| front.len() - 1 < m < parts.len() implies !is_key_part(
            #[trigger] parts[m],
        ) by {
            let n = m - front.len();
            let p = crate::text::lemma_part_position(place, n);
            if is_key_part(back[n]) {
                let sub = place.subrange(p, p + back[n].len());
                assert(sub[0] == place[p] && sub[1] == place[p + 1]);
                let j = end + 1 + p;
                assert(t[j] == place[p] && t[j + 1] == place[p + 1]);
                assert(t[j - 1] == '/') by {
                    if p > 0 {
                        assert(t[j - 1] == place[p - 1]);
                    }
                }
                assert(starts_key(t, j));
            }
        }
        lemma_last_key_part_is(parts, front.len() - 1);
        assert(parts.skip(front.len() as int) == back);
        crate::text::lemma_join_split(place);
    }
}

/// A location names an entry exactly where one of its parts begins with `e_`.
pub proof fn law_found_where_a_part_begins_with_e(s: Seq<char>)
    ensures
        locate(s) is Some <==> exists|j: int|
            0 <= j < s.len() - 1 && #[trigger] s[j] == 'e' && s[j + 1] == '_' && (j == 0 || s[j - 1]
                == '/'),
{
    let t = trim_slash(s);
    let parts = crate::text::split_path(t);
    lemma_last_key_part(parts);
    if let Some(k) = last_key_part(parts) {
        let p = crate::text::lemma_part_position(t, k);
        let sub = t.subrange(p, p + parts[k].len());
        assert(sub[0] == t[p] && sub[1] == t[p + 1]);
        assert(s[p] == 'e' && s[p + 1] == '_');
    }
    if exists|j: int|
        0 <= j < s.len() - 1 && #[trigger] s[j] == 'e' && s[j + 1] == '_' && (j == 0 || s[j - 1]
            == '/') {
        let j = choose|j: int|
            0 <= j < s.len() - 1 && #[trigger] s[j] == 'e' && s[j + 1] == '_' && (j == 0 || s[j - 1]
                == '/');
        assert(t[j] == s[j] && t[j + 1] == s[j + 1]);
        let start = lemma_last_key_start(t, j);
        let end = lemma_part_end(t, start, start + 2);
        if s.last() == '/' {
            assert(s == t.push('/'));
        }
        law_last_key_is_found(s, t, start, end);
    }
}

proof fn lemma_last_key_start(t: Seq<char>, j: int) -> (start: int)
    requires
        0 <= j < t.len() - 1,
        t[j] == 'e',
        t[j + 1] == '_',
        j == 0 || t[j - 1] == '/',
    ensures
        j <= start < t.len() - 1,
        t[start] == 'e',
        t[start + 1] == '_',
        start == 0 || t[start - 1] == '/',
        forall|k: int|
            start < k < t.len() - 1 && t[k - 1] == '/' ==> !(#[trigger] t[k] == 'e' && t[k + 1]
                == '_'),
    decreases t.len() - j,
{
    if exists|k: int|
        j < k < t.len() - 1 && t[k - 1] == '/' && #[trigger] t[k] == 'e' && t[k + 1] == '_' {
        let k = choose|k: int|
            j < k < t.len() - 1 && t[k - 1] == '/' && #[trigger] t[k] == 'e' && t[k + 1] == '_';
        lemma_last_key_start(t, k)
    } else {
        j
    }
}

proof fn lemma_part_end(t: Seq<char>, start: int, from: int) -> (end: int)
    requires
        0 <= start <= from <= t.len(),
        forall|j: int| start <= j < from ==> #[trigger] t[j] != '/',
    ensures
        from <= end <= t.len(),
        forall|j: int| start <= j < end ==> #[trigger] t[j] != '/',
        end == t.len() || t[end] == '/',
    decreases t.len() - from,
{
    if from == t.len() || t[from] == '/' {
        from
    } else {
        lemma_part_end(t, start, from + 1)
    }
}

} // verus!
