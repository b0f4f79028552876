//! Traversal-safe path handling: a request path is modelled as a sequence of
//! byte-string segments. A raw request string is split on `/`, cleaned
//! lexically (empty and `.` segments dropped, `..` folded into its
//! predecessor), joined under the root, and — after the filesystem has
//! canonicalized the candidate — checked for containment: the canonical path
//! must have the root's segments as a prefix, segment by segment, so a
//! sibling directory sharing a name prefix is never mistaken for the root.

use vstd::prelude::*;

use crate::errors::AppError;

verus! {

/// The byte `/`.
pub const SLASH: u8 = 47;

/// The byte `.`.
pub const DOT: u8 = 46;

/// The views of a sequence of byte vectors, segment by segment.
pub open spec fn seg_views(v: Seq<Vec<u8>>) -> Seq<Seq<u8>> {
    Seq::new(v.len(), |i: int| v[i]@)
}

/// The segment `.`.
pub open spec fn dot_seg() -> Seq<u8> {
    seq![DOT]
}

/// The segment `..`.
pub open spec fn dotdot_seg() -> Seq<u8> {
    seq![DOT, DOT]
}

/// Splitting a byte string on `/`, keeping empty pieces: one piece per run
/// between separators, so the result is never empty.
pub open spec fn raw_parts(s: Seq<u8>) -> Seq<Seq<u8>>
    decreases s.len(),
{
    if s.len() == 0 {
        seq![Seq::<u8>::empty()]
    } else if s.last() == SLASH {
        raw_parts(s.drop_last()).push(Seq::<u8>::empty())
    } else {
        let p = raw_parts(s.drop_last());
        p.update(p.len() - 1, p.last().push(s.last()))
    }
}

/// Lexical cleaning of split pieces: empty and `.` pieces vanish, `..`
/// removes the preceding kept segment when there is one to remove, and
/// survives at the front otherwise, so every surviving `..` stands before
/// every ordinary segment.
pub open spec fn clean_parts(parts: Seq<Seq<u8>>) -> Seq<Seq<u8>>
    decreases parts.len(),
{
    if parts.len() == 0 {
        Seq::<Seq<u8>>::empty()
    } else {
        let prev = clean_parts(parts.drop_last());
        let last = parts.last();
        if last.len() == 0 || last == dot_seg() {
            prev
        } else if last == dotdot_seg() {
            if prev.len() > 0 && prev.last() != dotdot_seg() {
                prev.drop_last()
            } else {
                prev.push(dotdot_seg())
            }
        } else {
            prev.push(last)
        }
    }
}

/// The cleaned relative form of a raw request string.
pub open spec fn cleaned_of(raw: Seq<u8>) -> Seq<Seq<u8>> {
    clean_parts(raw_parts(raw))
}

/// Segments joined with `/` and no leading slash: the forward-slash display
/// form of a cleaned relative path, empty for the root.
pub open spec fn render_rel(segs: Seq<Seq<u8>>) -> Seq<u8>
    decreases segs.len(),
{
    if segs.len() == 0 {
        Seq::<u8>::empty()
    } else if segs.len() == 1 {
        segs[0]
    } else {
        render_rel(segs.drop_last()) + seq![SLASH] + segs.last()
    }
}

/// `root` is a segment-wise prefix of `p` (or equal to it).
pub open spec fn seg_prefix(root: Seq<Seq<u8>>, p: Seq<Seq<u8>>) -> bool {
    root.len() <= p.len() && p.take(root.len() as int) == root
}

pub(crate) fn bytes_eq(a: &[u8], b: &[u8]) -> (r: bool)
    ensures
        r == (a@ == b@),
{
    if a.len() != b.len() {
        return false;
    }
    let n = a.len();
    let mut i: usize = 0;
    while i < n
        invariant
            n == a@.len() == b@.len(),
            i <= n,
            forall|k: int| 0 <= k < i ==> a@[k] == b@[k],
        decreases n - i,
    {
        if a[i] != b[i] {
            return false;
        }
        i += 1;
    }
    proof {
        assert(a@ =~= b@);
    }
    true
}

pub(crate) fn copy_bytes(s: &[u8]) -> (r: Vec<u8>)
    ensures
        r@ == s@,
{
    let mut r: Vec<u8> = Vec::new();
    let n = s.len();
    let mut i: usize = 0;
    while i < n
        invariant
            n == s@.len(),
            i <= n,
            r@ == s@.take(i as int),
        decreases n - i,
    {
        r.push(s[i]);
        proof {
            assert(s@.take(i + 1 as int) =~= s@.take(i as int).push(s@[i as int]));
        }
        i += 1;
    }
    proof {
        assert(s@.take(n as int) =~= s@);
    }
    r
}

pub(crate) fn extend_bytes(dst: &mut Vec<u8>, src: &[u8])
    ensures
        final(dst)@ == old(dst)@ + src@,
{
    let n = src.len();
    let mut i: usize = 0;
    while i < n
        invariant
            n == src@.len(),
            i <= n,
            dst@ == old(dst)@ + src@.take(i as int),
        decreases n - i,
    {
        dst.push(src[i]);
        proof {
            assert(old(dst)@ + src@.take(i + 1) =~= (old(dst)@ + src@.take(i as int)).push(
                src@[i as int],
            ));
        }
        i += 1;
    }
    proof {
        assert(old(dst)@ + src@.take(n as int) =~= old(dst)@ + src@);
    }
}

fn is_dot(s: &[u8]) -> (r: bool)
    ensures
        r == (s@ == dot_seg()),
{
    let r = s.len() == 1 && s[0] == DOT;
    proof {
        if r {
            assert(s@ =~= dot_seg());
        }
        if s@ == dot_seg() {
            assert(s@.len() == 1 && s@[0] == DOT);
        }
    }
    r
}

fn is_dotdot(s: &[u8]) -> (r: bool)
    ensures
        r == (s@ == dotdot_seg()),
{
    let r = s.len() == 2 && s[0] == DOT && s[1] == DOT;
    proof {
        if r {
            assert(s@ =~= dotdot_seg());
        }
        if s@ == dotdot_seg() {
            assert(s@.len() == 2 && s@[0] == DOT && s@[1] == DOT);
        }
    }
    r
}

/// Splits a raw request string on `/`, keeping empty pieces.
fn split_raw(raw: &[u8]) -> (parts: Vec<Vec<u8>>)
    ensures
        seg_views(parts@) == raw_parts(raw@),
{
    let n = raw.len();
    let mut done: Vec<Vec<u8>> = Vec::new();
    let mut cur: Vec<u8> = Vec::new();
    let mut i: usize = 0;
    while i < n
        invariant
            n == raw@.len(),
            i <= n,
            seg_views(done@).push(cur@) =~= raw_parts(raw@.take(i as int)),
        decreases n - i,
    {
        proof {
            assert(raw@.take(i + 1 as int).drop_last() =~= raw@.take(i as int));
            assert(raw@.take(i + 1 as int).last() == raw@[i as int]);
        }
        if raw[i] == SLASH {
            done.push(cur);
            cur = Vec::new();
            proof {
                assert(seg_views(done@).push(cur@) =~= raw_parts(raw@.take(i + 1 as int)));
            }
        } else {
            cur.push(raw[i]);
            proof {
                let p = raw_parts(raw@.take(i as int));
                assert(seg_views(done@).push(cur@) =~= p.update(p.len() - 1, p.last().push(
                    raw@[i as int],
                )));
            }
        }
        i += 1;
    }
    proof {
        assert(raw@.take(n as int) =~= raw@);
    }
    done.push(cur);
    proof {
        assert(seg_views(done@) =~= raw_parts(raw@));
    }
    done
}

/// Cleans split pieces into a relative segment path.
fn clean_split(parts: &Vec<Vec<u8>>) -> (out: Vec<Vec<u8>>)
    ensures
        seg_views(out@) == clean_parts(seg_views(parts@)),
{
    let n = parts.len();
    let mut out: Vec<Vec<u8>> = Vec::new();
    let mut i: usize = 0;
    while i < n
        invariant
            n == parts@.len(),
            i <= n,
            seg_views(out@) =~= clean_parts(seg_views(parts@).take(i as int)),
        decreases n - i,
    {
        proof {
            assert(seg_views(parts@).take(i + 1 as int).drop_last() =~= seg_views(parts@).take(
                i as int,
            ));
            assert(seg_views(parts@).take(i + 1 as int).last() == parts@[i as int]@);
        }
        let part: &Vec<u8> = &parts[i];
        if part.len() == 0 || is_dot(part.as_slice()) {
            // dropped
        } else if is_dotdot(part.as_slice()) {
            let keep_pop = out.len() > 0 && !is_dotdot(out[out.len() - 1].as_slice());
            if keep_pop {
                out.pop();
            } else {
                let mut dd: Vec<u8> = Vec::new();
                dd.push(DOT);
                dd.push(DOT);
                proof {
                    assert(dd@ =~= dotdot_seg());
                }
                out.push(dd);
            }
        } else {
            out.push(copy_bytes(part.as_slice()));
        }
        proof {
            let prev = clean_parts(seg_views(parts@).take(i as int));
            if prev.len() > 0 {
                assert(seg_views(out@).len() > 0 ==> true);
            }
            assert(seg_views(out@) =~= clean_parts(seg_views(parts@).take(i + 1 as int)));
        }
        i += 1;
    }
    proof {
        assert(seg_views(parts@).take(n as int) =~= seg_views(parts@));
    }
    out
}

/// Turns a raw, untrusted request path into its cleaned relative segments.
///
/// Empty and `.` segments are dropped; `..` removes the preceding kept
/// segment when one exists, and survives at the front otherwise. An empty or
/// separator-only request yields no segments at all: it names the root.
pub fn parse_request_path(raw: &[u8]) -> (segs: Vec<Vec<u8>>)
    ensures
        seg_views(segs@) == cleaned_of(raw@),
{
    let parts = split_raw(raw);
    clean_split(&parts)
}

/// Joins cleaned relative segments under the root, giving the candidate
/// absolute path handed to the filesystem for canonicalization.
pub fn join_under_root(root: &Vec<Vec<u8>>, rel: &Vec<Vec<u8>>) -> (r: Vec<Vec<u8>>)
    ensures
        seg_views(r@) == seg_views(root@) + seg_views(rel@),
{
    let mut r: Vec<Vec<u8>> = Vec::new();
    let mut i: usize = 0;
    let rn = root.len();
    while i < rn
        invariant
            rn == root@.len(),
            i <= rn,
            seg_views(r@) =~= seg_views(root@).take(i as int),
        decreases rn - i,
    {
        let c = copy_bytes(root[i].as_slice());
        proof {
            assert(c@ == root@[i as int]@);
        }
        let ghost r0 = r@;
        r.push(c);
        proof {
            assert(r@ == r0.push(c));
            assert(seg_views(r0).len() == r0.len());
            assert(r0.len() == i);
            assert(r@.len() == i + 1);
            assert forall|k: int| 0 <= k < i + 1 implies seg_views(r@)[k] == seg_views(
                root@,
            ).take(i + 1)[k] by {
                assert(seg_views(r@)[k] == r@[k]@);
                if k < i {
                    assert(r@[k] == r0[k]);
                    assert(seg_views(r0)[k] == seg_views(root@).take(i as int)[k]);
                } else {
                    assert(r@[k] == c);
                }
            }
            assert(seg_views(r@) =~= seg_views(root@).take(i + 1));
        }
        i += 1;
    }
    let mut j: usize = 0;
    let sn = rel.len();
    while j < sn
        invariant
            rn == root@.len(),
            sn == rel@.len(),
            j <= sn,
            seg_views(r@) =~= seg_views(root@) + seg_views(rel@).take(j as int),
        decreases sn - j,
    {
        let c = copy_bytes(rel[j].as_slice());
        proof {
            assert(c@ == rel@[j as int]@);
        }
        let ghost r0 = r@;
        r.push(c);
        proof {
            assert(r@ == r0.push(c));
            assert(seg_views(r0).len() == r0.len());
            assert(r0.len() == rn + j);
            assert(r@.len() == rn + j + 1);
            assert forall|k: int| 0 <= k < rn + j + 1 implies seg_views(r@)[k] == (seg_views(
                root@,
            ) + seg_views(rel@).take(j + 1))[k] by {
                assert(seg_views(r@)[k] == r@[k]@);
                if k < rn + j {
                    assert(r@[k] == r0[k]);
                    assert(seg_views(r0)[k] == (seg_views(root@) + seg_views(rel@).take(
                        j as int,
                    ))[k]);
                } else {
                    assert(r@[k] == c);
                }
            }
            assert(seg_views(r@) =~= seg_views(root@) + seg_views(rel@).take(j + 1));
        }
        j += 1;
    }
    proof {
        assert(seg_views(root@).take(rn as int) =~= seg_views(root@));
        assert(seg_views(rel@).take(sn as int) =~= seg_views(rel@));
    }
    r
}

/// Containment: does `p` lie at or under `root`, segment by segment?
pub fn is_contained(root: &Vec<Vec<u8>>, p: &Vec<Vec<u8>>) -> (r: bool)
    ensures
        r == seg_prefix(seg_views(root@), seg_views(p@)),
{
    let rn = root.len();
    if rn > p.len() {
        return false;
    }
    let mut i: usize = 0;
    while i < rn
        invariant
            rn == root@.len(),
            rn <= p@.len(),
            i <= rn,
            forall|k: int| 0 <= k < i ==> seg_views(p@)[k] == seg_views(root@)[k],
        decreases rn - i,
    {
        if !bytes_eq(p[i].as_slice(), root[i].as_slice()) {
            proof {
                assert(seg_views(p@).take(rn as int)[i as int] != seg_views(root@)[i as int]);
            }
            return false;
        }
        i += 1;
    }
    proof {
        assert(seg_views(p@).take(rn as int) =~= seg_views(root@));
    }
    true
}

/// What the filesystem reported of the candidate path.
pub enum CanonOutcome {
    /// Canonicalization succeeded; the symlink-free absolute path, as
    /// segments under `/`.
    Resolved(Vec<Vec<u8>>),
    /// The candidate does not exist.
    Missing,
    /// Canonicalization failed for another reason (permissions, I/O).
    Denied,
}

/// The resolver's verdict on a canonicalized candidate, over the spec model.
pub open spec fn resolution_of(root: Seq<Seq<u8>>, canon: Seq<Seq<u8>>) -> Result<
    Seq<Seq<u8>>,
    AppError,
> {
    if seg_prefix(root, canon) {
        Result::Ok(canon)
    } else {
        Result::Err(AppError::Forbidden)
    }
}

/// The containment gate of the resolver. The candidate was canonicalized by
/// the filesystem — symlinks already resolved — so a canonical path outside
/// the root is refused here whatever placed it outside, a `..` segment or a
/// symlink inside the root.
pub fn resolve_decision(root: &Vec<Vec<u8>>, outcome: CanonOutcome) -> (r: Result<
    Vec<Vec<u8>>,
    AppError,
>)
    ensures
        match outcome {
            CanonOutcome::Resolved(canon) => {
                &&& (r is Ok <==> seg_prefix(seg_views(root@), seg_views(canon@)))
                &&& (r matches Ok(p) ==> seg_views(p@) == seg_views(canon@))
                &&& (r matches Err(e) ==> e == AppError::Forbidden)
                &&& (match r {
                    Ok(p) => resolution_of(seg_views(root@), seg_views(canon@)) == Result::<
                        Seq<Seq<u8>>,
                        AppError,
                    >::Ok(seg_views(p@)),
                    Err(e) => resolution_of(seg_views(root@), seg_views(canon@)) == Result::<
                        Seq<Seq<u8>>,
                        AppError,
                    >::Err(e),
                })
            },
            CanonOutcome::Missing => r == Result::<Vec<Vec<u8>>, AppError>::Err(
                AppError::NotFound,
            ),
            CanonOutcome::Denied => r == Result::<Vec<Vec<u8>>, AppError>::Err(
                AppError::ServerError,
            ),
        },
{
    match outcome {
        CanonOutcome::Resolved(canon) => {
            if is_contained(root, &canon) {
                Ok(canon)
            } else {
                Err(AppError::Forbidden)
            }
        },
        CanonOutcome::Missing => Err(AppError::NotFound),
        CanonOutcome::Denied => Err(AppError::ServerError),
    }
}

/// Every `..` segment of a cleaned path stands before every ordinary one.
pub open spec fn dotdots_lead(s: Seq<Seq<u8>>) -> bool {
    forall|i: int, j: int|
        0 <= j < i < s.len() && s[i] == dotdot_seg() ==> s[j] == dotdot_seg()
}

proof fn lemma_clean_parts_dotdots_lead(parts: Seq<Seq<u8>>)
    ensures
        dotdots_lead(clean_parts(parts)),
    decreases parts.len(),
{
    if parts.len() == 0 {
    } else {
        lemma_clean_parts_dotdots_lead(parts.drop_last());
        let prev = clean_parts(parts.drop_last());
        let last = parts.last();
        let s = clean_parts(parts);
        if last.len() == 0 || last == dot_seg() {
        } else if last == dotdot_seg() {
            if prev.len() > 0 && prev.last() != dotdot_seg() {
                assert forall|i: int, j: int|
                    0 <= j < i < s.len() && s[i] == dotdot_seg() implies s[j] == dotdot_seg() by {
                    assert(s[i] == prev[i]);
                    assert(s[j] == prev[j]);
                }
            } else {
                assert forall|i: int, j: int|
                    0 <= j < i < s.len() && s[i] == dotdot_seg() implies s[j] == dotdot_seg() by {
                    if j < prev.len() {
                        if prev.len() > 0 {
                            assert(prev.last() == dotdot_seg());
                            assert(prev[prev.len() - 1] == dotdot_seg());
                            assert(s[j] == prev[j]);
                        }
                    }
                }
            }
        } else {
            assert forall|i: int, j: int|
                0 <= j < i < s.len() && s[i] == dotdot_seg() implies s[j] == dotdot_seg() by {
                assert(i < prev.len());
                assert(s[i] == prev[i]);
                assert(s[j] == prev[j]);
            }
        }
    }
}

/// Cleaning never buries a parent step: in the cleaned form of any raw
/// request, every surviving `..` segment stands before every ordinary
/// segment, so a path free of leading `..` is free of `..` altogether.
pub proof fn lemma_cleaned_dotdots_lead(raw: Seq<u8>)
    ensures
        dotdots_lead(cleaned_of(raw)),
{
    lemma_clean_parts_dotdots_lead(raw_parts(raw));
}

/// Lexical resolution of relative segments against a stack of absolute
/// segments, as a symlink-free filesystem would resolve them: `..` removes
/// the deepest segment, or is absorbed at the filesystem root.
pub open spec fn lex_resolve(stack: Seq<Seq<u8>>, rel: Seq<Seq<u8>>) -> Seq<Seq<u8>>
    decreases rel.len(),
{
    if rel.len() == 0 {
        stack
    } else {
        let next = if rel.first() == dotdot_seg() {
            if stack.len() > 0 {
                stack.drop_last()
            } else {
                stack
            }
        } else {
            stack.push(rel.first())
        };
        lex_resolve(next, rel.drop_first())
    }
}

/// A request whose cleaned form holds no `..` segment resolves, lexically,
/// to exactly the root joined with it — and therefore stays inside the root.
pub proof fn lemma_no_parent_steps_stay_inside(root: Seq<Seq<u8>>, rel: Seq<Seq<u8>>)
    requires
        forall|i: int| 0 <= i < rel.len() ==> rel[i] != dotdot_seg(),
    ensures
        lex_resolve(root, rel) == root + rel,
        seg_prefix(root, lex_resolve(root, rel)),
    decreases rel.len(),
{
    if rel.len() == 0 {
        assert(root + rel =~= root);
        assert(root.take(root.len() as int) =~= root);
    } else {
        assert(rel[0] != dotdot_seg());
        assert forall|i: int| 0 <= i < rel.drop_first().len() implies rel.drop_first()[i]
            != dotdot_seg() by {
            assert(rel.drop_first()[i] == rel[i + 1]);
        }
        lemma_no_parent_steps_stay_inside(root.push(rel.first()), rel.drop_first());
        assert(root.push(rel.first()) + rel.drop_first() =~= root + rel);
        assert((root + rel).take(root.len() as int) =~= root);
    }
}

/// A request whose cleaned form opens with a parent step resolves,
/// lexically, to the root's parent joined with the remaining segments — and
/// therefore stays inside the root only in the one case where the next
/// segment steps straight back into it.
pub proof fn lemma_parent_step_confinement(root: Seq<Seq<u8>>, rest: Seq<Seq<u8>>)
    requires
        root.len() > 0,
        forall|i: int| 0 <= i < rest.len() ==> rest[i] != dotdot_seg(),
    ensures
        lex_resolve(root, seq![dotdot_seg()] + rest) == root.drop_last() + rest,
        seg_prefix(root, lex_resolve(root, seq![dotdot_seg()] + rest)) <==> (rest.len() > 0
            && rest[0] == root.last()),
{
    let rel = seq![dotdot_seg()] + rest;
    assert(rel.first() == dotdot_seg());
    assert(rel.drop_first() =~= rest);
    lemma_no_parent_steps_stay_inside(root.drop_last(), rest);
    let result = root.drop_last() + rest;
    assert(lex_resolve(root, rel) == result);
    if rest.len() > 0 && rest[0] == root.last() {
        assert(result.take(root.len() as int) =~= root);
    }
    if seg_prefix(root, result) {
        assert(result.len() >= root.len());
        assert(rest.len() > 0);
        assert(result.take(root.len() as int) == root);
        assert(result[root.len() - 1] == root[root.len() - 1]);
        assert(result[root.len() - 1] == rest[0]);
    }
}

/// Containment is decided on the canonicalized path alone: whatever placed
/// the canonical form outside the root — `..` traversal or a symlink inside
/// the root pointing out of it — the resolution is `Forbidden`, and whenever
/// the canonical form lies at or under the root it is returned unchanged.
pub proof fn lemma_resolution_confined(root: Seq<Seq<u8>>, canon: Seq<Seq<u8>>)
    ensures
        resolution_of(root, canon) is Ok <==> seg_prefix(root, canon),
        seg_prefix(root, canon) ==> resolution_of(root, canon) == Result::<
            Seq<Seq<u8>>,
            AppError,
        >::Ok(canon),
        !seg_prefix(root, canon) ==> resolution_of(root, canon) == Result::<
            Seq<Seq<u8>>,
            AppError,
        >::Err(AppError::Forbidden),
{
}

/// An empty request, or one of separators alone, names the root itself:
/// its cleaned form has no segments, the candidate is the root, and the
/// root always resolves to itself, never to an error.
pub proof fn lemma_empty_request_is_root(root: Seq<Seq<u8>>)
    ensures
        cleaned_of(Seq::<u8>::empty()) == Seq::<Seq<u8>>::empty(),
        cleaned_of(seq![SLASH]) == Seq::<Seq<u8>>::empty(),
        root + cleaned_of(Seq::<u8>::empty()) =~= root,
        resolution_of(root, root) == Result::<Seq<Seq<u8>>, AppError>::Ok(root),
{
    let e = Seq::<u8>::empty();
    let no_parts = Seq::<Seq<u8>>::empty();
    assert(clean_parts(no_parts) =~= no_parts);
    let parts_of_empty = raw_parts(e);
    assert(parts_of_empty =~= seq![Seq::<u8>::empty()]);
    assert(parts_of_empty.drop_last() =~= no_parts);
    assert(parts_of_empty.last().len() == 0);
    assert(clean_parts(parts_of_empty) =~= no_parts);
    let s = seq![SLASH];
    assert(s.drop_last() =~= e);
    assert(s.last() == SLASH);
    let parts_of_slash = raw_parts(s);
    assert(parts_of_slash =~= parts_of_empty.push(Seq::<u8>::empty()));
    assert(parts_of_slash.drop_last() =~= parts_of_empty);
    assert(parts_of_slash.last().len() == 0);
    assert(clean_parts(parts_of_slash) =~= no_parts);
    assert(root.take(root.len() as int) =~= root);
}

} // verus!

