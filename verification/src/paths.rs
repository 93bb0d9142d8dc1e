//! Resolution of request paths against the served root directory.
//!
//! A request path is a slash-separated relative path taken from the URL. It
//! is split into pieces, empty and dot pieces are dropped, and dot-dot
//! pieces pop the previous segment. A path that would climb above the root,
//! or an absolute override, is rejected before any filesystem access. The
//! empty path and the bare separator name the root itself.

use vstd::prelude::*;
use vstd::string::*;

verus! {

/// A path segment that is safe to join under the served root: nonempty, free
/// of separators, and neither a dot nor a dot-dot component.
pub open spec fn valid_segment(s: Seq<char>) -> bool {
    &&& s.len() > 0
    &&& !s.contains('/')
    &&& s != seq!['.']
    &&& s != seq!['.', '.']
}

/// The character sequences of a list of segment strings.
pub open spec fn views_of(v: Seq<String>) -> Seq<Seq<char>> {
    v.map_values(|s: String| s@)
}

/// Splits a character sequence at every separator, keeping empty pieces.
/// The result always holds at least one piece.
pub open spec fn spec_split(s: Seq<char>) -> Seq<Seq<char>>
    decreases s.len(),
{
    if s.len() == 0 {
        seq![Seq::<char>::empty()]
    } else if s.last() == '/' {
        spec_split(s.drop_last()).push(Seq::<char>::empty())
    } else {
        let r = spec_split(s.drop_last());
        r.update(r.len() - 1, r.last().push(s.last()))
    }
}

proof fn lemma_split_nonempty(s: Seq<char>)
    ensures
        spec_split(s).len() >= 1,
    decreases s.len(),
{
    if s.len() > 0 {
        lemma_split_nonempty(s.drop_last());
    }
}

/// Normalizes a piece list: empty and dot pieces vanish, a dot-dot piece
/// pops the previous segment, and popping past the first segment (an escape
/// above the root) yields `None`.
pub open spec fn spec_normalize(pieces: Seq<Seq<char>>) -> Option<Seq<Seq<char>>>
    decreases pieces.len(),
{
    if pieces.len() == 0 {
        Some(Seq::<Seq<char>>::empty())
    } else {
        match spec_normalize(pieces.drop_last()) {
            Option::None => Option::None,
            Option::Some(acc) => {
                let p = pieces.last();
                if p.len() == 0 || p == seq!['.'] {
                    Some(acc)
                } else if p == seq!['.', '.'] {
                    if acc.len() == 0 {
                        Option::None
                    } else {
                        Some(acc.drop_last())
                    }
                } else {
                    Some(acc.push(p))
                }
            },
        }
    }
}

/// What a request path resolves to, as segments relative to the served root.
/// The empty path and the bare separator name the root; any other path that
/// starts with a separator is an absolute override and is rejected; the rest
/// are split and normalized, and rejected when they would climb above the
/// root.
pub open spec fn spec_resolve(s: Seq<char>) -> Option<Seq<Seq<char>>> {
    if s.len() == 0 || s == seq!['/'] {
        Some(Seq::<Seq<char>>::empty())
    } else if s[0] == '/' {
        Option::None
    } else {
        spec_normalize(spec_split(s))
    }
}

/// Joins segments with single separators into a relative path.
pub open spec fn spec_join(segs: Seq<Seq<char>>) -> Seq<char>
    decreases segs.len(),
{
    if segs.len() == 0 {
        Seq::<char>::empty()
    } else if segs.len() == 1 {
        segs[0]
    } else {
        spec_join(segs.drop_last()) + seq!['/'] + segs.last()
    }
}

fn split_path(p: &str) -> (segs: Vec<String>)
    ensures
        views_of(segs@) == spec_split(p@),
{
    let len = p.unicode_len();
    let mut segs: Vec<String> = Vec::new();
    let mut start: usize = 0;
    let mut i: usize = 0;
    while i < len
        invariant
            start <= i <= len,
            len == p@.len(),
            views_of(segs@) == spec_split(p@.take(i as int)).drop_last(),
            spec_split(p@.take(i as int)).last() == p@.subrange(start as int, i as int),
        decreases len - i,
    {
        let c = p.get_char(i);
        proof {
            assert(p@.take(i as int + 1).drop_last() =~= p@.take(i as int));
            assert(p@.take(i as int + 1).last() == p@[i as int]);
            lemma_split_nonempty(p@.take(i as int));
        }
        if c == '/' {
            let piece = p.substring_char(start, i).to_owned();
            segs.push(piece);
            proof {
                let s_i = spec_split(p@.take(i as int));
                assert(s_i =~~= s_i.drop_last().push(s_i.last()));
                assert(views_of(segs@) =~~= spec_split(p@.take(i as int + 1)).drop_last());
                assert(spec_split(p@.take(i as int + 1)).last()
                    =~= p@.subrange(i as int + 1, i as int + 1));
            }
            start = i + 1;
        } else {
            proof {
                let s_i = spec_split(p@.take(i as int));
                let s_n = spec_split(p@.take(i as int + 1));
                assert(s_n == s_i.update(s_i.len() - 1, s_i.last().push(p@[i as int])));
                assert(s_n.drop_last() =~~= s_i.drop_last());
                assert(s_n.last() =~= p@.subrange(start as int, i as int + 1));
            }
        }
        i = i + 1;
    }
    let piece = p.substring_char(start, len).to_owned();
    segs.push(piece);
    proof {
        assert(p@.take(len as int) =~= p@);
        let s = spec_split(p@);
        lemma_split_nonempty(p@);
        assert(s =~~= s.drop_last().push(s.last()));
        assert(views_of(segs@) =~~= s);
    }
    segs
}

fn is_dot(s: &str) -> (b: bool)
    ensures
        b == (s@ == seq!['.']),
{
    if s.unicode_len() == 1 && s.get_char(0) == '.' {
        proof {
            assert(s@ =~= seq!['.']);
        }
        true
    } else {
        proof {
            assert(s@ != seq!['.']);
        }
        false
    }
}

fn is_dotdot(s: &str) -> (b: bool)
    ensures
        b == (s@ == seq!['.', '.']),
{
    if s.unicode_len() == 2 && s.get_char(0) == '.' && s.get_char(1) == '.' {
        proof {
            assert(s@ =~= seq!['.', '.']);
        }
        true
    } else {
        proof {
            assert(s@ != seq!['.', '.']);
        }
        false
    }
}

fn contains_slash(s: &str) -> (b: bool)
    ensures
        b == s@.contains('/'),
{
    let len = s.unicode_len();
    let mut i: usize = 0;
    while i < len
        invariant
            i <= len,
            len == s@.len(),
            forall|j: int| 0 <= j < i ==> s@[j] != '/',
        decreases len - i,
    {
        if s.get_char(i) == '/' {
            return true;
        }
        i = i + 1;
    }
    false
}

/// Checks that a string is a single safe segment: nonempty, free of
/// separators, and no dot or dot-dot component.
pub fn is_valid_segment_str(s: &str) -> (b: bool)
    ensures
        b == valid_segment(s@),
{
    s.unicode_len() > 0 && !contains_slash(s) && !is_dot(s) && !is_dotdot(s)
}

/// Once normalization has failed on a prefix of the pieces, it fails on the
/// whole list.
proof fn lemma_normalize_none_extends(pieces: Seq<Seq<char>>, j: int)
    requires
        0 <= j <= pieces.len(),
        spec_normalize(pieces.take(j)) is None,
    ensures
        spec_normalize(pieces) is None,
    decreases pieces.len() - j,
{
    if j == pieces.len() {
        assert(pieces.take(j) =~~= pieces);
    } else {
        assert(pieces.take(j + 1).drop_last() =~~= pieces.take(j));
        lemma_normalize_none_extends(pieces, j + 1);
    }
}

/// Resolves a request path into the segments it names under the served root.
/// `None` means the request must be rejected before any filesystem access:
/// the path is an absolute override or climbs above the root.
pub fn resolve_request(path: &str) -> (r: Option<Vec<String>>)
    ensures
        match r {
            Some(segs) => spec_resolve(path@) == Some(views_of(segs@)),
            None => spec_resolve(path@) is None,
        },
{
    let len = path.unicode_len();
    if len == 0 {
        let out: Vec<String> = Vec::new();
        proof {
            assert(views_of(out@) =~~= Seq::<Seq<char>>::empty());
        }
        return Some(out);
    }
    if path.get_char(0) == '/' {
        if len == 1 {
            proof {
                assert(path@ =~= seq!['/']);
            }
            let out: Vec<String> = Vec::new();
            proof {
                assert(views_of(out@) =~~= Seq::<Seq<char>>::empty());
            }
            return Some(out);
        }
        proof {
            assert(path@ != seq!['/']);
        }
        return None;
    }
    proof {
        assert(path@ != seq!['/']);
    }
    let pieces = split_path(path);
    let n = pieces.len();
    let mut out: Vec<String> = Vec::new();
    let mut i: usize = 0;
    proof {
        assert(views_of(out@) =~~= Seq::<Seq<char>>::empty());
        assert(spec_split(path@).take(0) =~~= Seq::<Seq<char>>::empty());
    }
    while i < n
        invariant
            i <= n,
            n == pieces@.len(),
            views_of(pieces@) == spec_split(path@),
            spec_normalize(spec_split(path@).take(i as int)) == Some(views_of(out@)),
            spec_resolve(path@) == spec_normalize(spec_split(path@)),
        decreases n - i,
    {
        proof {
            assert(spec_split(path@).take(i as int + 1).drop_last()
                =~~= spec_split(path@).take(i as int));
            assert(spec_split(path@)[i as int] == pieces@[i as int]@);
        }
        let piece = &pieces[i];
        if piece.as_str().is_empty() || is_dot(piece.as_str()) {
        } else if is_dotdot(piece.as_str()) {
            if out.len() == 0 {
                proof {
                    lemma_normalize_none_extends(spec_split(path@), i as int + 1);
                }
                return None;
            }
            let prev = out.pop();
            proof {
                assert(views_of(out@) =~~= views_of(out@.push(prev.unwrap())).drop_last());
            }
        } else {
            let seg = piece.as_str().to_owned();
            out.push(seg);
            proof {
                assert(views_of(out@) =~~= views_of(out@.drop_last()).push(pieces@[i as int]@));
            }
        }
        i = i + 1;
    }
    proof {
        assert(spec_split(path@).take(n as int) =~~= spec_split(path@));
    }
    Some(out)
}

fn join_prefix(segs: &Vec<String>, k: usize) -> (r: String)
    requires
        k <= segs@.len(),
    ensures
        r@ == spec_join(views_of(segs@).take(k as int)),
{
    let mut r = String::new();
    let mut i: usize = 0;
    while i < k
        invariant
            i <= k <= segs@.len(),
            r@ == spec_join(views_of(segs@).take(i as int)),
        decreases k - i,
    {
        if i > 0 {
            r.append("/");
            proof {
                reveal_strlit("/");
                assert("/"@ =~= seq!['/']);
            }
        }
        r.append(segs[i].as_str());
        proof {
            let vs = views_of(segs@);
            assert(vs.take(i as int + 1).drop_last() =~~= vs.take(i as int));
            assert(vs.take(i as int + 1).last() == vs[i as int]);
            if i == 0 {
                assert(r@ =~= spec_join(vs.take(1)));
            } else {
                assert(r@ =~= spec_join(vs.take(i as int + 1)));
            }
        }
        i = i + 1;
    }
    r
}

/// Joins resolved segments back into the canonical relative path.
pub fn join_segments(segs: &Vec<String>) -> (r: String)
    ensures
        r@ == spec_join(views_of(segs@)),
{
    let r = join_prefix(segs, segs.len());
    proof {
        assert(views_of(segs@).take(segs@.len() as int) =~~= views_of(segs@));
    }
    r
}

/// The path one level above: the current path with its last segment removed.
/// Absent at the root itself.
pub fn parent_path(segs: &Vec<String>) -> (r: Option<String>)
    ensures
        segs@.len() == 0 ==> r is None,
        segs@.len() > 0 ==> (r matches Some(p)
            && p@ == spec_join(views_of(segs@).drop_last())),
{
    if segs.len() == 0 {
        None
    } else {
        let r = join_prefix(segs, segs.len() - 1);
        proof {
            assert(views_of(segs@).take(segs@.len() - 1) =~~= views_of(segs@).drop_last());
        }
        Some(r)
    }
}

/// Splitting never yields a piece that holds a separator.
proof fn lemma_split_pieces_no_slash(s: Seq<char>)
    ensures
        forall|i: int|
            0 <= i < spec_split(s).len() ==> !(#[trigger] spec_split(s)[i]).contains('/'),
    decreases s.len(),
{
    if s.len() == 0 {
        assert(!spec_split(s)[0].contains('/'));
    } else {
        lemma_split_pieces_no_slash(s.drop_last());
        let r = spec_split(s.drop_last());
        if s.last() == '/' {
            assert(!Seq::<char>::empty().contains('/'));
            assert forall|i: int| 0 <= i < spec_split(s).len() implies
                !(#[trigger] spec_split(s)[i]).contains('/') by {
                if i < r.len() {
                    assert(spec_split(s)[i] == r[i]);
                }
            }
        } else {
            lemma_split_nonempty(s.drop_last());
            assert forall|i: int| 0 <= i < spec_split(s).len() implies
                !(#[trigger] spec_split(s)[i]).contains('/') by {
                if i == r.len() - 1 {
                    let p = r.last().push(s.last());
                    assert forall|j: int| 0 <= j < p.len() implies p[j] != '/' by {
                        if j < r.last().len() {
                            assert(r.last()[j] != '/');
                        }
                    }
                } else {
                    assert(spec_split(s)[i] == r[i]);
                }
            }
        }
    }
}

/// Every segment a successful normalization returns is valid, provided no
/// piece holds a separator.
proof fn lemma_normalize_valid(pieces: Seq<Seq<char>>)
    requires
        forall|i: int| 0 <= i < pieces.len() ==> !(#[trigger] pieces[i]).contains('/'),
        spec_normalize(pieces) is Some,
    ensures
        forall|i: int|
            0 <= i < spec_normalize(pieces).unwrap().len()
                ==> valid_segment(#[trigger] spec_normalize(pieces).unwrap()[i]),
    decreases pieces.len(),
{
    if pieces.len() == 0 {
    } else {
        assert(pieces.drop_last() =~~= pieces.take(pieces.len() - 1));
        assert(forall|i: int|
            0 <= i < pieces.drop_last().len()
                ==> !(#[trigger] pieces.drop_last()[i]).contains('/'));
        lemma_normalize_valid(pieces.drop_last());
        let acc = spec_normalize(pieces.drop_last()).unwrap();
        let p = pieces.last();
        let res = spec_normalize(pieces).unwrap();
        if p.len() == 0 || p == seq!['.'] {
        } else if p == seq!['.', '.'] {
            assert forall|i: int| 0 <= i < res.len() implies valid_segment(#[trigger] res[i]) by {
                assert(res[i] == acc[i]);
            }
        } else {
            assert(!p.contains('/'));
            assert forall|i: int| 0 <= i < res.len() implies valid_segment(#[trigger] res[i]) by {
                if i < acc.len() {
                    assert(res[i] == acc[i]);
                } else {
                    assert(res[i] == p);
                }
            }
        }
    }
}

/// Containment: every segment of an accepted request path is valid, so the
/// path joined under the root never leaves it. An escaping request resolves
/// to `None` and is rejected with no filesystem access.
pub proof fn lemma_resolve_contained(s: Seq<char>, segs: Seq<Seq<char>>)
    requires
        spec_resolve(s) == Some(segs),
    ensures
        forall|i: int| 0 <= i < segs.len() ==> valid_segment(#[trigger] segs[i]),
{
    if s.len() == 0 || s == seq!['/'] {
    } else {
        lemma_split_pieces_no_slash(s);
        lemma_normalize_valid(spec_split(s));
        assert(spec_normalize(spec_split(s)) == Some(segs));
        assert forall|i: int| 0 <= i < segs.len() implies valid_segment(#[trigger] segs[i]) by {
            assert(valid_segment(spec_normalize(spec_split(s)).unwrap()[i]));
        }
    }
}

/// Splitting a separator-free sequence yields that one piece.
proof fn lemma_split_no_slash(s: Seq<char>)
    requires
        !s.contains('/'),
    ensures
        spec_split(s) == seq![s],
    decreases s.len(),
{
    if s.len() == 0 {
        assert(spec_split(s) =~~= seq![s]);
    } else {
        assert(s[s.len() - 1] != '/');
        assert(!s.drop_last().contains('/')) by {
            assert forall|i: int| 0 <= i < s.drop_last().len() implies s.drop_last()[i] != '/' by {
                assert(s[i] != '/');
            }
        }
        lemma_split_no_slash(s.drop_last());
        assert(s.drop_last().push(s.last()) =~= s);
        assert(spec_split(s) =~~= seq![s]);
    }
}

/// Appending a separator and a separator-free piece to a path appends one
/// piece to its split.
proof fn lemma_split_join_append(x: Seq<char>, y: Seq<char>)
    requires
        !y.contains('/'),
    ensures
        spec_split(x + seq!['/'] + y) == spec_split(x).push(y),
    decreases y.len(),
{
    if y.len() == 0 {
        let z = x + seq!['/'] + y;
        assert(z.last() == '/');
        assert(z.drop_last() =~= x);
        assert(spec_split(z) =~~= spec_split(x).push(y));
    } else {
        let y0 = y.drop_last();
        assert(y[y.len() - 1] != '/');
        assert(!y0.contains('/')) by {
            assert forall|i: int| 0 <= i < y0.len() implies y0[i] != '/' by {
                assert(y[i] != '/');
            }
        }
        lemma_split_join_append(x, y0);
        let z = x + seq!['/'] + y;
        assert(z.last() == y.last());
        assert(z.drop_last() =~= x + seq!['/'] + y0);
        let r = spec_split(x).push(y0);
        lemma_split_nonempty(x);
        assert(spec_split(z) == r.update(r.len() - 1, r.last().push(y.last())));
        assert(y0.push(y.last()) =~= y);
        assert(spec_split(z) =~~= spec_split(x).push(y));
    }
}

/// Splitting the join of valid segments returns exactly those segments.
proof fn lemma_split_join(segs: Seq<Seq<char>>)
    requires
        segs.len() > 0,
        forall|i: int| 0 <= i < segs.len() ==> valid_segment(#[trigger] segs[i]),
    ensures
        spec_split(spec_join(segs)) == segs,
    decreases segs.len(),
{
    if segs.len() == 1 {
        lemma_split_no_slash(segs[0]);
        assert(spec_split(spec_join(segs)) =~~= segs);
    } else {
        assert(forall|i: int|
            0 <= i < segs.drop_last().len()
                ==> valid_segment(#[trigger] segs.drop_last()[i]));
        lemma_split_join(segs.drop_last());
        lemma_split_join_append(spec_join(segs.drop_last()), segs.last());
        assert(spec_split(spec_join(segs)) =~~= segs);
    }
}

/// Normalizing already-valid segments changes nothing.
proof fn lemma_normalize_valid_noop(segs: Seq<Seq<char>>)
    requires
        forall|i: int| 0 <= i < segs.len() ==> valid_segment(#[trigger] segs[i]),
    ensures
        spec_normalize(segs) == Some(segs),
    decreases segs.len(),
{
    if segs.len() == 0 {
        assert(spec_normalize(segs) == Some(Seq::<Seq<char>>::empty()));
        assert(Seq::<Seq<char>>::empty() =~~= segs);
    } else {
        assert(forall|i: int|
            0 <= i < segs.drop_last().len()
                ==> valid_segment(#[trigger] segs.drop_last()[i]));
        lemma_normalize_valid_noop(segs.drop_last());
        assert(valid_segment(segs.last()));
        assert(segs.drop_last().push(segs.last()) =~~= segs);
    }
}

/// The join of nonempty segments starts with the first segment's first
/// character.
proof fn lemma_join_head(segs: Seq<Seq<char>>)
    requires
        segs.len() > 0,
        segs[0].len() > 0,
    ensures
        spec_join(segs).len() > 0,
        spec_join(segs)[0] == segs[0][0],
    decreases segs.len(),
{
    if segs.len() == 1 {
    } else {
        assert(segs.drop_last()[0] == segs[0]);
        lemma_join_head(segs.drop_last());
    }
}

/// The empty request and the bare separator resolve to the root itself.
pub proof fn lemma_resolve_root()
    ensures
        spec_resolve(Seq::<char>::empty()) == Some(Seq::<Seq<char>>::empty()),
        spec_resolve(seq!['/']) == Some(Seq::<Seq<char>>::empty()),
{
}

/// Resolution is idempotent: resolving the canonical joined form of an
/// accepted path accepts it and returns the same segments.
pub proof fn lemma_resolve_idempotent(s: Seq<char>)
    requires
        spec_resolve(s) is Some,
    ensures
        spec_resolve(spec_join(spec_resolve(s).unwrap())) == spec_resolve(s),
{
    let segs = spec_resolve(s).unwrap();
    lemma_resolve_contained(s, segs);
    if segs.len() == 0 {
        assert(spec_join(segs).len() == 0);
    } else {
        assert(valid_segment(segs[0]));
        assert(segs[0][0] != '/') by {
            assert(!segs[0].contains('/'));
        }
        lemma_join_head(segs);
        let j = spec_join(segs);
        assert(j != seq!['/']) by {
            assert(j[0] != '/');
        }
        lemma_split_join(segs);
        lemma_normalize_valid_noop(segs);
    }
}

} // verus!
