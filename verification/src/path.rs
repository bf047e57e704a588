use vstd::prelude::*;

use crate::error::SplitError;
use crate::value::JsonValue;
use crate::value::lookup;
use crate::value::lookup_in;

verus! {

/// Splits `acc ++ rest` at every `'.'`, where `acc` is the part of the
/// current segment read so far.  Mirrors how a split scans left to right:
/// a dot closes the current segment, any other character extends it, and the
/// end of the text closes the last segment.  Note that the split of an empty
/// text is one empty segment, never an empty list of segments.
pub open spec fn split_from(acc: Seq<char>, rest: Seq<char>) -> Seq<Seq<char>>
    decreases rest.len(),
{
    if rest.len() == 0 {
        seq![acc]
    } else if rest[0] == '.' {
        seq![acc] + split_from(Seq::empty(), rest.drop_first())
    } else {
        split_from(acc.push(rest[0]), rest.drop_first())
    }
}

/// The segments of a dotted path: the maximal runs of characters between
/// the dots of `s`, in order.
pub open spec fn split_dotted(s: Seq<char>) -> Seq<Seq<char>> {
    split_from(Seq::empty(), s)
}

/// The character sequences of a list of strings, in order.
pub open spec fn views_of(ss: Seq<String>) -> Seq<Seq<char>> {
    ss.map_values(|s: String| s@)
}

/// Cuts a dotted path into its segments, as [`split_dotted`] describes.
pub fn split_dotted_exec(path: &str) -> (r: Vec<String>)
    ensures
        views_of(r@) == split_dotted(path@),
{
    let len = path.unicode_len();
    let mut segs: Vec<String> = Vec::new();
    let mut start: usize = 0;
    let mut i: usize = 0;
    proof {
        assert(path@.subrange(0, 0) =~= Seq::<char>::empty());
        assert(path@.skip(0) =~= path@);
        assert(views_of(segs@) =~= Seq::<Seq<char>>::empty());
    }
    while i < len
        invariant
            0 <= start <= i <= len,
            len == path@.len(),
            views_of(segs@) + split_from(path@.subrange(start as int, i as int), path@.skip(i as int))
                == split_dotted(path@),
        decreases len - i,
    {
        let c = path.get_char(i);
        let ghost acc = path@.subrange(start as int, i as int);
        let ghost rest = path@.skip(i as int);
        proof {
            assert(rest[0] == path@[i as int]);
            assert(rest.drop_first() =~= path@.skip(i as int + 1));
        }
        if c == '.' {
            let seg = String::from_str(path.substring_char(start, i));
            segs.push(seg);
            proof {
                assert(views_of(segs@) =~= views_of(segs@.drop_last()).push(acc));
                assert(views_of(segs@.drop_last()) + (seq![acc] + split_from(
                    Seq::empty(),
                    rest.drop_first(),
                )) =~= views_of(segs@) + split_from(Seq::empty(), rest.drop_first()));
                assert(path@.subrange(i as int + 1, i as int + 1) =~= Seq::<char>::empty());
            }
            start = i + 1;
        } else {
            proof {
                assert(acc.push(rest[0]) =~= path@.subrange(start as int, i as int + 1));
            }
        }
        i += 1;
    }
    let seg = String::from_str(path.substring_char(start, len));
    segs.push(seg);
    proof {
        let ghost acc = path@.subrange(start as int, len as int);
        assert(path@.skip(len as int) =~= Seq::<char>::empty());
        assert(views_of(segs@) =~= views_of(segs@.drop_last()).push(acc));
        assert(views_of(segs@.drop_last()) + seq![acc] =~= views_of(segs@));
    }
    segs
}

/// What resolving a path against a value comes to: the value reached, or the
/// first segment that is missing from the object it is looked up in, or the
/// fact that the descent met a value that is not an object while segments
/// remained.
pub enum Resolved {
    Found(JsonValue),
    MissingKey(Seq<char>),
    NonObject,
}

/// Resolves a list of key segments against `v`, left to right: an empty list
/// yields `v` itself; otherwise `v` must be an object and the first segment
/// is looked up in it, and the rest of the list is resolved against what the
/// lookup found.
pub open spec fn resolve_segs(path: Seq<Seq<char>>, v: JsonValue) -> Resolved
    decreases path.len(),
{
    if path.len() == 0 {
        Resolved::Found(v)
    } else {
        match v {
            JsonValue::Obj(entries) => match lookup(entries@, path[0]) {
                Some(u) => resolve_segs(path.drop_first(), u),
                None => Resolved::MissingKey(path[0]),
            },
            _ => Resolved::NonObject,
        }
    }
}

/// Resolves a dotted path against `v`: the empty path yields `v` unchanged,
/// any other path is split on dots and its segments are followed.
pub open spec fn resolve_path(path: Seq<char>, v: JsonValue) -> Resolved {
    if path.len() == 0 {
        Resolved::Found(v)
    } else {
        resolve_segs(split_dotted(path), v)
    }
}

/// Resolving the empty path against any value returns that value unchanged.
pub proof fn lemma_empty_path_identity(v: JsonValue)
    ensures
        resolve_path(Seq::empty(), v) == Resolved::Found(v),
{
}

/// Splitting distributes over a dot in the middle: the segments of
/// `acc ++ r1 ++ "." ++ r2` are those of `acc ++ r1` followed by those of
/// `r2`.
proof fn lemma_split_from_join(acc: Seq<char>, r1: Seq<char>, r2: Seq<char>)
    ensures
        split_from(acc, r1 + seq!['.'] + r2) == split_from(acc, r1) + split_from(Seq::empty(), r2),
    decreases r1.len(),
{
    let joined = r1 + seq!['.'] + r2;
    if r1.len() == 0 {
        assert(joined[0] == '.');
        assert(joined.drop_first() =~= r2);
        assert(split_from(acc, joined) =~= split_from(acc, r1) + split_from(Seq::empty(), r2));
    } else {
        assert(joined[0] == r1[0]);
        assert(joined.drop_first() =~= r1.drop_first() + seq!['.'] + r2);
        lemma_split_from_join(if r1[0] == '.' {
            Seq::empty()
        } else {
            acc.push(r1[0])
        }, r1.drop_first(), r2);
        assert(split_from(acc, joined) =~= split_from(acc, r1) + split_from(Seq::empty(), r2));
    }
}

/// Resolving a list of segments that reaches a value continues from that
/// value: appending more segments resolves them against what the first
/// list reached.
proof fn lemma_resolve_segs_append(s1: Seq<Seq<char>>, s2: Seq<Seq<char>>, v: JsonValue, u: JsonValue)
    requires
        resolve_segs(s1, v) == Resolved::Found(u),
    ensures
        resolve_segs(s1 + s2, v) == resolve_segs(s2, u),
    decreases s1.len(),
{
    if s1.len() == 0 {
        assert(u == v);
        assert(s1 + s2 =~= s2);
    } else {
        assert((s1 + s2)[0] == s1[0]);
        assert((s1 + s2).drop_first() =~= s1.drop_first() + s2);
        match v {
            JsonValue::Obj(entries) => {
                match lookup(entries@, s1[0]) {
                    Some(w) => {
                        lemma_resolve_segs_append(s1.drop_first(), s2, w, u);
                    },
                    None => {
                        assert(false);
                    },
                }
            },
            _ => {
                assert(false);
            },
        }
    }
}

/// Path resolution correctness: a dotted path reaches its value step by
/// step.  When the path `p1` resolves to a value `u`, the joined path
/// `p1.p2` resolves against the whole tree exactly as `p2` resolves
/// against `u`; so a path whose every segment exists as a nested key
/// returns exactly the value at that nested location, segment by segment.
pub proof fn lemma_resolve_join(p1: Seq<char>, p2: Seq<char>, v: JsonValue, u: JsonValue)
    requires
        p1.len() > 0,
        p2.len() > 0,
        resolve_path(p1, v) == Resolved::Found(u),
    ensures
        resolve_path(p1 + seq!['.'] + p2, v) == resolve_path(p2, u),
{
    lemma_split_from_join(Seq::empty(), p1, p2);
    lemma_resolve_segs_append(split_dotted(p1), split_dotted(p2), v, u);
}

/// Walks `d` along the dotted `path`, as [`resolve_path`] describes: returns
/// the value the path reaches, or `InvalidKey` carrying the first missing
/// segment, or `NotAnObject` when the descent meets a value that is not an
/// object while segments remain.
pub fn descend<'a>(path: &str, d: &'a JsonValue) -> (r: Result<&'a JsonValue, SplitError>)
    ensures
        match r {
            Ok(u) => resolve_path(path@, *d) == Resolved::Found(*u),
            Err(e) => match e {
                SplitError::InvalidKey(k) => resolve_path(path@, *d) == Resolved::MissingKey(k@),
                SplitError::NotAnObject => resolve_path(path@, *d) == Resolved::NonObject,
                _ => false,
            },
        },
{
    if path.is_empty() {
        return Ok(d);
    }
    let segs = split_dotted_exec(path);
    let ghost sv = views_of(segs@);
    let mut cur: &'a JsonValue = d;
    let mut i: usize = 0;
    proof {
        assert(sv.skip(0) =~= sv);
    }
    while i < segs.len()
        invariant
            0 <= i <= segs.len(),
            sv == views_of(segs@),
            sv == split_dotted(path@),
            path@.len() != 0,
            resolve_path(path@, *d) == resolve_segs(sv.skip(i as int), *cur),
        decreases segs.len() - i,
    {
        proof {
            assert(sv.skip(i as int)[0] == sv[i as int]);
            assert(sv[i as int] == segs@[i as int]@);
        }
        match cur {
            JsonValue::Obj(entries) => {
                match lookup_in(entries, &segs[i]) {
                    Some(u) => {
                        proof {
                            assert(sv.skip(i as int).drop_first() =~= sv.skip(i as int + 1));
                        }
                        cur = u;
                        i += 1;
                    },
                    None => {
                        return Err(SplitError::InvalidKey(segs[i].clone()));
                    },
                }
            },
            _ => {
                return Err(SplitError::NotAnObject);
            },
        }
    }
    proof {
        assert(sv.skip(i as int) =~= Seq::<Seq<char>>::empty());
    }
    Ok(cur)
}

} // verus!
