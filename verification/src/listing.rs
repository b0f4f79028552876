//! Directory listings: entries carry a name and a kind, are presented
//! directories-first and case-insensitively by name within each group, and
//! each entry's link is the request path joined with its name in
//! forward-slash form.

use vstd::multiset::Multiset;
use vstd::prelude::*;
use vstd::seq_lib::group_to_multiset_ensures;

use crate::paths::{extend_bytes, render_rel, seg_views, SLASH};

verus! {

/// One immediate child of a listed directory.
pub struct DirEntry {
    /// The child's file name, as bytes.
    pub name: Vec<u8>,
    /// Whether the child is itself a directory.
    pub is_dir: bool,
}

/// ASCII lowercasing of one byte.
pub open spec fn lower_byte(b: u8) -> u8 {
    if 65 <= b <= 90 {
        (b + 32) as u8
    } else {
        b
    }
}

/// ASCII lowercasing of a byte string.
pub open spec fn lower_seq(s: Seq<u8>) -> Seq<u8> {
    Seq::new(s.len(), |i: int| lower_byte(s[i]))
}

/// Lexicographic order on byte strings, shorter prefixes first.
pub open spec fn lex_le(a: Seq<u8>, b: Seq<u8>) -> bool
    decreases a.len(),
{
    if a.len() == 0 {
        true
    } else if b.len() == 0 {
        false
    } else if a.first() < b.first() {
        true
    } else if a.first() > b.first() {
        false
    } else {
        lex_le(a.drop_first(), b.drop_first())
    }
}

/// The presentation order of a listing: directories before files, and
/// within each group case-insensitive lexicographic order of names.
pub open spec fn entry_le(a: DirEntry, b: DirEntry) -> bool {
    if a.is_dir != b.is_dir {
        a.is_dir
    } else {
        lex_le(lower_seq(a.name@), lower_seq(b.name@))
    }
}

/// A listing is ordered when every pair of entries stands in order.
pub open spec fn entries_ordered(s: Seq<DirEntry>) -> bool {
    forall|i: int, j: int| 0 <= i < j < s.len() ==> entry_le(s[i], s[j])
}

proof fn lemma_lex_le_total(a: Seq<u8>, b: Seq<u8>)
    ensures
        lex_le(a, b) || lex_le(b, a),
    decreases a.len(),
{
    if a.len() == 0 || b.len() == 0 {
    } else if a.first() == b.first() {
        lemma_lex_le_total(a.drop_first(), b.drop_first());
    }
}

proof fn lemma_lex_le_trans(a: Seq<u8>, b: Seq<u8>, c: Seq<u8>)
    requires
        lex_le(a, b),
        lex_le(b, c),
    ensures
        lex_le(a, c),
    decreases a.len(),
{
    if a.len() == 0 {
    } else {
        if a.first() == b.first() && b.first() == c.first() {
            lemma_lex_le_trans(a.drop_first(), b.drop_first(), c.drop_first());
        }
    }
}

/// The presentation order is total: of any two entries, one may stand
/// before the other.
pub proof fn lemma_entry_le_total(a: DirEntry, b: DirEntry)
    ensures
        entry_le(a, b) || entry_le(b, a),
{
    if a.is_dir == b.is_dir {
        lemma_lex_le_total(lower_seq(a.name@), lower_seq(b.name@));
    }
}

/// The presentation order is transitive.
pub proof fn lemma_entry_le_trans(a: DirEntry, b: DirEntry, c: DirEntry)
    requires
        entry_le(a, b),
        entry_le(b, c),
    ensures
        entry_le(a, c),
{
    if a.is_dir == b.is_dir && b.is_dir == c.is_dir {
        lemma_lex_le_trans(
            lower_seq(a.name@),
            lower_seq(b.name@),
            lower_seq(c.name@),
        );
    }
}

fn lower_byte_exec(x: u8) -> (r: u8)
    ensures
        r == lower_byte(x),
{
    if 65 <= x && x <= 90 {
        x + 32
    } else {
        x
    }
}

fn lex_le_lower(a: &[u8], b: &[u8]) -> (r: bool)
    ensures
        r == lex_le(lower_seq(a@), lower_seq(b@)),
{
    let an = a.len();
    let bn = b.len();
    let n = if an < bn {
        an
    } else {
        bn
    };
    let ghost la = lower_seq(a@);
    let ghost lb = lower_seq(b@);
    proof {
        assert(la.skip(0) =~= la);
        assert(lb.skip(0) =~= lb);
    }
    let mut i: usize = 0;
    while i < n
        invariant
            an == a@.len(),
            bn == b@.len(),
            n == if an < bn { an as int } else { bn as int },
            i <= n,
            la == lower_seq(a@),
            lb == lower_seq(b@),
            lex_le(la, lb) == lex_le(la.skip(i as int), lb.skip(i as int)),
        decreases n - i,
    {
        let ca = lower_byte_exec(a[i]);
        let cb = lower_byte_exec(b[i]);
        proof {
            assert(la.skip(i as int).len() > 0);
            assert(lb.skip(i as int).len() > 0);
            assert(la.skip(i as int).first() == la[i as int]);
            assert(lb.skip(i as int).first() == lb[i as int]);
            assert(la[i as int] == ca);
            assert(lb[i as int] == cb);
        }
        if ca < cb {
            return true;
        }
        if ca > cb {
            return false;
        }
        proof {
            assert(la.skip(i as int).drop_first() =~= la.skip(i + 1));
            assert(lb.skip(i as int).drop_first() =~= lb.skip(i + 1));
        }
        i += 1;
    }
    proof {
        if an <= bn {
            assert(la.skip(n as int).len() == 0);
        } else {
            assert(lb.skip(n as int).len() == 0);
            assert(la.skip(n as int).len() > 0);
        }
    }
    an <= bn
}

fn entry_le_exec(a: &DirEntry, b: &DirEntry) -> (r: bool)
    ensures
        r == entry_le(*a, *b),
{
    if a.is_dir != b.is_dir {
        a.is_dir
    } else {
        lex_le_lower(a.name.as_slice(), b.name.as_slice())
    }
}

/// Sorts a listing into presentation order — directories first, then
/// case-insensitively by name — keeping exactly the entries given.
pub fn sort_entries(entries: Vec<DirEntry>) -> (r: Vec<DirEntry>)
    ensures
        entries_ordered(r@),
        r@.to_multiset() == entries@.to_multiset(),
{
    broadcast use group_to_multiset_ensures;
    broadcast use vstd::multiset::group_multiset_axioms;

    let mut src = entries;
    let ghost orig = src@;
    let mut out: Vec<DirEntry> = Vec::new();
    while src.len() > 0
        invariant
            out@.to_multiset().add(src@.to_multiset()) == orig.to_multiset(),
            entries_ordered(out@),
            forall|i: int, j: int|
                0 <= i < out@.len() && 0 <= j < src@.len() ==> entry_le(out@[i], src@[j]),
        decreases src.len(),
    {
        let mut m: usize = 0;
        let mut k: usize = 1;
        proof {
            lemma_entry_le_total(src@[0], src@[0]);
        }
        while k < src.len()
            invariant
                src@.len() > 0,
                m < k,
                k <= src@.len(),
                forall|t: int| 0 <= t < k ==> entry_le(src@[m as int], src@[t]),
            decreases src.len() - k,
        {
            if !entry_le_exec(&src[m], &src[k]) {
                proof {
                    lemma_entry_le_total(src@[m as int], src@[k as int]);
                    assert(entry_le(src@[k as int], src@[m as int]));
                    assert forall|t: int| 0 <= t < k + 1 implies entry_le(
                        src@[k as int],
                        src@[t],
                    ) by {
                        if t < k {
                            lemma_entry_le_trans(src@[k as int], src@[m as int], src@[t]);
                        } else {
                            lemma_entry_le_total(src@[k as int], src@[k as int]);
                        }
                    }
                }
                m = k;
            }
            k += 1;
        }
        proof {
            assert(forall|t: int| 0 <= t < src@.len() ==> entry_le(src@[m as int], src@[t]));
        }
        let ghost src0 = src@;
        let ghost out0 = out@;
        let e = src.remove(m);
        proof {
            assert(src@ == src0.remove(m as int));
            vstd::seq_lib::to_multiset_remove(src0, m as int);
            assert(src@.to_multiset() == src0.to_multiset().remove(e));
            assert(src0.contains(e));
            vstd::seq_lib::to_multiset_contains(src0, e);
            assert(src0.to_multiset().count(e) > 0);
        }
        out.push(e);
        proof {
            assert(out@ == out0.push(e));
            vstd::seq_lib::to_multiset_build(out0, e);
            assert(out@.to_multiset() =~= out0.to_multiset().insert(e));
            assert(out@.to_multiset().add(src@.to_multiset()) =~= out0.to_multiset().add(
                src0.to_multiset(),
            ));
            assert forall|i: int, j: int|
                0 <= i < j < out@.len() implies entry_le(out@[i], out@[j]) by {
                if j < out0.len() {
                    assert(entry_le(out0[i], out0[j]));
                } else {
                    assert(out@[j] == e);
                    assert(entry_le(out0[i], src0[m as int]));
                }
            }
            assert forall|i: int, j: int|
                0 <= i < out@.len() && 0 <= j < src@.len() implies entry_le(
                out@[i],
                src@[j],
            ) by {
                let jj = if j < m { j } else { j + 1 };
                assert(src@[j] == src0[jj]);
                if i < out0.len() {
                    assert(entry_le(out0[i], src0[jj]));
                } else {
                    assert(out@[i] == e);
                    assert(entry_le(src0[m as int], src0[jj]));
                }
            }
        }
    }
    proof {
        assert(src@ =~= Seq::<DirEntry>::empty());
        assert forall|x: DirEntry| src@.to_multiset().count(x) == 0 by {
            assert(!src@.contains(x));
        }
        assert(src@.to_multiset() =~= Multiset::<DirEntry>::empty());
        assert(out@.to_multiset() =~= orig.to_multiset());
    }
    out
}

/// Renders the first `upto` segments joined with `/`, no leading slash.
fn render_joined(segs: &Vec<Vec<u8>>, upto: usize) -> (r: Vec<u8>)
    requires
        upto <= segs@.len(),
    ensures
        r@ == render_rel(seg_views(segs@).take(upto as int)),
{
    let mut r: Vec<u8> = Vec::new();
    let mut i: usize = 0;
    while i < upto
        invariant
            upto <= segs@.len(),
            i <= upto,
            r@ == render_rel(seg_views(segs@).take(i as int)),
        decreases upto - i,
    {
        let ghost v = seg_views(segs@);
        proof {
            assert(v.take(i + 1).drop_last() =~= v.take(i as int));
            assert(v.take(i + 1).last() == v[i as int]);
        }
        if i > 0 {
            r.push(SLASH);
        }
        extend_bytes(&mut r, segs[i].as_slice());
        proof {
            if i == 0 {
                assert(v.take(1).len() == 1);
                assert(render_rel(v.take(1)) == v.take(1)[0]);
                assert(r@ =~= v[0]);
            } else {
                assert(render_rel(v.take(i + 1)) == render_rel(v.take(i as int)) + seq![SLASH]
                    + v[i as int]);
                assert(r@ =~= render_rel(v.take(i as int)) + seq![SLASH] + v[i as int]);
            }
        }
        i += 1;
    }
    r
}

/// The request path a listing displays: its segments joined with `/`,
/// empty for the root.
pub fn render_rel_path(segs: &Vec<Vec<u8>>) -> (r: Vec<u8>)
    ensures
        r@ == render_rel(seg_views(segs@)),
{
    let r = render_joined(segs, segs.len());
    proof {
        assert(seg_views(segs@).take(segs@.len() as int) =~= seg_views(segs@));
    }
    r
}

/// The site-root-relative link of a listed entry: the request path joined
/// with the entry's name, in forward-slash form with a leading slash.
pub open spec fn url_of(segs: Seq<Seq<u8>>, name: Seq<u8>) -> Seq<u8> {
    seq![SLASH] + render_rel(segs.push(name))
}

/// Builds the link for one entry of the listing at `segs`.
pub fn url_for_entry(segs: &Vec<Vec<u8>>, name: &[u8]) -> (r: Vec<u8>)
    ensures
        r@ == url_of(seg_views(segs@), name@),
{
    let ghost v = seg_views(segs@);
    let mut r: Vec<u8> = Vec::new();
    r.push(SLASH);
    let body = render_joined(segs, segs.len());
    proof {
        assert(v.take(segs@.len() as int) =~= v);
    }
    extend_bytes(&mut r, body.as_slice());
    if segs.len() > 0 {
        r.push(SLASH);
    }
    extend_bytes(&mut r, name);
    proof {
        if v.len() == 0 {
            assert(v.push(name@).len() == 1);
            assert(render_rel(v.push(name@)) == v.push(name@)[0]);
            assert(render_rel(v) =~= Seq::<u8>::empty());
            assert(r@ =~= seq![SLASH] + render_rel(v.push(name@)));
        } else {
            assert(v.push(name@).drop_last() =~= v);
            assert(v.push(name@).last() == name@);
            assert(render_rel(v.push(name@)) == render_rel(v) + seq![SLASH] + name@);
            assert(r@ =~= seq![SLASH] + render_rel(v.push(name@)));
        }
    }
    r
}

/// The parent navigation link of a listing: absent at the root, the root
/// link `/` one level down, and otherwise the path with its last segment
/// removed, with a leading slash.
pub open spec fn parent_url_of(segs: Seq<Seq<u8>>) -> Option<Seq<u8>> {
    if segs.len() == 0 {
        Option::None
    } else if segs.len() == 1 {
        Option::Some(seq![SLASH])
    } else {
        Option::Some(seq![SLASH] + render_rel(segs.drop_last()))
    }
}

/// Builds the parent navigation link of the listing at `segs`.
pub fn parent_link(segs: &Vec<Vec<u8>>) -> (r: Option<Vec<u8>>)
    ensures
        match r {
            Option::Some(u) => parent_url_of(seg_views(segs@)) == Option::Some(u@),
            Option::None => parent_url_of(seg_views(segs@)) == Option::<Seq<u8>>::None,
        },
{
    let ghost v = seg_views(segs@);
    if segs.len() == 0 {
        return None;
    }
    let mut r: Vec<u8> = Vec::new();
    r.push(SLASH);
    let upto = segs.len() - 1;
    let body = render_joined(segs, upto);
    extend_bytes(&mut r, body.as_slice());
    proof {
        if v.len() == 1 {
            assert(v.take(0) =~= Seq::<Seq<u8>>::empty());
            assert(render_rel(v.take(0)) =~= Seq::<u8>::empty());
            assert(r@ =~= seq![SLASH]);
        } else {
            assert(v.take(upto as int) =~= v.drop_last());
            assert(r@ =~= seq![SLASH] + render_rel(v.drop_last()));
        }
    }
    Some(r)
}

} // verus!
