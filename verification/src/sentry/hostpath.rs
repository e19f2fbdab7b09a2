//! Unix path operations on byte strings, with the meaning that the
//! standard library's `Path` gives them: appending a path, stripping the
//! root, splitting into components, and the component-wise prefix test.
use vstd::prelude::*;
use crate::path::{
    SLASH, dot, split_slash, split_path, bytes_eq, copy_range, join_stack, is_normal, all_normal,
    lemma_join_starts_with_slash, lemma_split_join, lemma_split_concat,
};

verus! {

/// Whether a path is absolute (starts at the root).
pub open spec fn is_absolute(p: Seq<u8>) -> bool {
    p.len() > 0 && p[0] == SLASH
}

/// `base` with `p` appended (`PathBuf::push`): an absolute `p` replaces
/// `base`; otherwise a separator is put between them unless `base` is empty
/// or ends with one.
pub open spec fn push_path(base: Seq<u8>, p: Seq<u8>) -> Seq<u8> {
    if is_absolute(p) {
        p
    } else if base.len() > 0 && base.last() != SLASH {
        base.push(SLASH) + p
    } else {
        base + p
    }
}

/// The index of the first separator of `s`, or its length when it has none.
pub open spec fn first_sep(s: Seq<u8>) -> int
    decreases s.len(),
{
    if s.len() == 0 {
        0
    } else if s[0] == SLASH {
        0
    } else {
        1 + first_sep(s.drop_first())
    }
}

/// The index of the last separator of `s`, or -1 when it has none.
pub open spec fn last_sep(s: Seq<u8>) -> int
    decreases s.len(),
{
    if s.len() == 0 {
        -1
    } else if s.last() == SLASH {
        s.len() - 1
    } else {
        last_sep(s.drop_last())
    }
}

pub proof fn lemma_first_sep_bounds(s: Seq<u8>)
    ensures
        0 <= first_sep(s) <= s.len(),
    decreases s.len(),
{
    if s.len() > 0 && s[0] != SLASH {
        lemma_first_sep_bounds(s.drop_first());
    }
}

pub proof fn lemma_last_sep_bounds(s: Seq<u8>)
    ensures
        -1 <= last_sep(s) < s.len(),
    decreases s.len(),
{
    if s.len() > 0 && s.last() != SLASH {
        lemma_last_sep_bounds(s.drop_last());
    }
}

/// A component that `Path` skips inside a path: empty or `.`.
pub open spec fn is_skipped(c: Seq<u8>) -> bool {
    c.len() == 0 || c == dot()
}

/// `s` without its leading skipped components and their separators.
pub open spec fn trim_left(s: Seq<u8>) -> Seq<u8>
    decreases s.len(),
{
    if s.len() == 0 {
        s
    } else {
        let i = first_sep(s);
        proof {
            lemma_first_sep_bounds(s);
        }
        if is_skipped(s.take(i)) {
            if i < s.len() {
                trim_left(s.skip(i + 1))
            } else {
                Seq::<u8>::empty()
            }
        } else {
            s
        }
    }
}

/// `s` without its trailing skipped components and their separators.
pub open spec fn trim_right(s: Seq<u8>) -> Seq<u8>
    decreases s.len(),
{
    if s.len() == 0 {
        s
    } else {
        let i = last_sep(s);
        proof {
            lemma_last_sep_bounds(s);
        }
        if is_skipped(s.skip(i + 1)) {
            if i >= 0 {
                trim_right(s.take(i))
            } else {
                Seq::<u8>::empty()
            }
        } else {
            s
        }
    }
}

/// An absolute path made relative to the root (`strip_prefix("/")`): the
/// root separator goes, then the skipped components at both ends.
pub open spec fn strip_root(g: Seq<u8>) -> Seq<u8> {
    trim_right(trim_left(g.drop_first()))
}

/// The pieces that are components in the body of a path: all but empty and
/// `.` ones.
pub open spec fn named(pieces: Seq<Seq<u8>>) -> Seq<Seq<u8>>
    decreases pieces.len(),
{
    if pieces.len() == 0 {
        pieces
    } else if is_skipped(pieces.last()) {
        named(pieces.drop_last())
    } else {
        named(pieces.drop_last()).push(pieces.last())
    }
}

/// Whether a relative path starts with a `.` component of its own (`.` or
/// `./...`), which `Path` keeps.
pub open spec fn leading_cur_dir(p: Seq<u8>) -> bool {
    !is_absolute(p) && p.len() > 0 && p[0] == 46u8 && (p.len() == 1 || p[1] == SLASH)
}

/// The components of a path, as `Path::components` gives them: the root
/// (written `/`) for an absolute path, a leading `.` where there is one,
/// then every piece between separators but empty and `.` ones (`..` and
/// names as they are).
pub open spec fn components(p: Seq<u8>) -> Seq<Seq<u8>> {
    let root = if is_absolute(p) { seq![seq![SLASH]] } else { Seq::<Seq<u8>>::empty() };
    let cur = if leading_cur_dir(p) { seq![dot()] } else { Seq::<Seq<u8>>::empty() };
    let body = if is_absolute(p) { p.drop_first() } else { p };
    root + cur + named(split_slash(body))
}

/// Whether `p` starts with `base`, component by component
/// (`Path::starts_with`).
pub open spec fn path_starts_with(p: Seq<u8>, base: Seq<u8>) -> bool {
    let c = components(p);
    let b = components(base);
    b.len() <= c.len() && c.subrange(0, b.len() as int) == b
}

pub proof fn lemma_first_sep_at(s: Seq<u8>, k: int)
    requires
        0 <= k <= s.len(),
        forall|j: int| 0 <= j < k ==> s[j] != SLASH,
        k == s.len() || s[k] == SLASH,
    ensures
        first_sep(s) == k,
    decreases s.len(),
{
    if s.len() > 0 && k > 0 {
        assert forall|j: int| 0 <= j < k - 1 implies s.drop_first()[j] != SLASH by {
            assert(s.drop_first()[j] == s[j + 1]);
        }
        lemma_first_sep_at(s.drop_first(), k - 1);
    }
}

pub proof fn lemma_last_sep_at(s: Seq<u8>, k: int)
    requires
        -1 <= k < s.len(),
        forall|j: int| k < j < s.len() ==> s[j] != SLASH,
        k == -1 || s[k] == SLASH,
    ensures
        last_sep(s) == k,
    decreases s.len(),
{
    if s.len() > 0 && k < s.len() - 1 {
        assert forall|j: int| k < j < s.drop_last().len() implies s.drop_last()[j] != SLASH by {
            assert(s.drop_last()[j] == s[j]);
        }
        lemma_last_sep_at(s.drop_last(), k);
    }
}

/// The join of a stack is a separator, its first component, then the join
/// of the rest.
pub proof fn lemma_join_cons(c: Seq<u8>, t: Seq<Seq<u8>>)
    ensures
        join_stack(seq![c] + t) == seq![SLASH] + c + join_stack(t),
    decreases t.len(),
{
    if t.len() == 0 {
        assert(seq![c] + t =~= seq![c]);
        assert(seq![c].drop_last() =~= Seq::<Seq<u8>>::empty());
        assert(join_stack(seq![c].drop_last()) == Seq::<u8>::empty());
        assert(join_stack(t) == Seq::<u8>::empty());
        assert(seq![c].last() == c);
        assert(join_stack(seq![c]) == join_stack(seq![c].drop_last()).push(SLASH) + c);
        assert(Seq::<u8>::empty().push(SLASH) + c =~= seq![SLASH] + c + Seq::<u8>::empty());
    } else {
        lemma_join_cons(c, t.drop_last());
        assert((seq![c] + t).drop_last() =~= seq![c] + t.drop_last());
        assert((seq![c] + t).last() == t.last());
        assert((seq![SLASH] + c + join_stack(t.drop_last())).push(SLASH) + t.last()
            =~= seq![SLASH] + c + (join_stack(t.drop_last()).push(SLASH) + t.last()));
    }
}

/// The join of two stacks one after the other is the concatenation of their
/// joins.
pub proof fn lemma_join_append(a: Seq<Seq<u8>>, b: Seq<Seq<u8>>)
    ensures
        join_stack(a + b) == join_stack(a) + join_stack(b),
    decreases b.len(),
{
    if b.len() == 0 {
        assert(a + b =~= a);
        assert(join_stack(a) + join_stack(b) =~= join_stack(a));
    } else {
        lemma_join_append(a, b.drop_last());
        assert((a + b).drop_last() =~= a + b.drop_last());
        assert((a + b).last() == b.last());
        assert((join_stack(a) + join_stack(b.drop_last())).push(SLASH) + b.last()
            =~= join_stack(a) + (join_stack(b.drop_last()).push(SLASH) + b.last()));
    }
}

/// Normal components are all kept as components.
pub proof fn lemma_named_normal(st: Seq<Seq<u8>>)
    requires
        all_normal(st),
    ensures
        named(st) == st,
    decreases st.len(),
{
    if st.len() > 0 {
        let prev = st.drop_last();
        assert forall|i: int| 0 <= i < prev.len() implies is_normal(#[trigger] prev[i]) by {
            assert(prev[i] == st[i]);
        }
        lemma_named_normal(prev);
        assert(is_normal(st[st.len() - 1]));
        assert(prev.push(st.last()) =~= st);
    }
}

/// A stack of normal components joined as an absolute path: the root
/// separator, then a body that is no absolute path, has neither skipped
/// components at its ends nor anything else for `strip_root` to remove,
/// and whose last byte is no separator.
pub proof fn lemma_strip_root_join(st: Seq<Seq<u8>>)
    requires
        st.len() > 0,
        all_normal(st),
    ensures
        join_stack(st).len() > 1,
        join_stack(st)[0] == SLASH,
        join_stack(st).last() != SLASH,
        !is_absolute(join_stack(st).drop_first()),
        strip_root(join_stack(st)) == join_stack(st).drop_first(),
{
    let j = join_stack(st);
    let r = j.drop_first();
    let c1 = st[0];
    let rest = st.drop_first();
    assert(is_normal(c1));
    assert(seq![c1] + rest =~= st);
    lemma_join_cons(c1, rest);
    assert(r =~= c1 + join_stack(rest));
    if rest.len() > 0 {
        lemma_join_starts_with_slash(rest);
    }
    assert(r[0] == c1[0]);
    // the last component
    let prev = st.drop_last();
    let cn = st.last();
    assert(is_normal(st[st.len() - 1]));
    assert(j == join_stack(prev).push(SLASH) + cn);
    assert(j.last() == cn.last());
    assert(cn[cn.len() - 1] != SLASH);
    // trim_left keeps r: its first piece is c1
    let k = c1.len() as int;
    assert forall|t: int| 0 <= t < k implies r[t] != SLASH by {
        assert(r[t] == c1[t]);
    }
    if rest.len() > 0 {
        assert(r[k] == join_stack(rest)[0]);
    }
    lemma_first_sep_at(r, k);
    assert(r.take(k) =~= c1);
    assert(!is_skipped(r.take(k)));
    assert(trim_left(r) == r);
    // trim_right keeps r: its last piece is cn
    let m = (r.len() - cn.len() - 1) as int;
    if prev.len() == 0 {
        assert(j =~= seq![SLASH] + cn);
        assert(r =~= cn);
        assert forall|t: int| -1 < t < r.len() implies r[t] != SLASH by {
            assert(r[t] == cn[t]);
        }
        lemma_last_sep_at(r, -1);
        assert(r.skip(0) =~= cn);
    } else {
        lemma_join_starts_with_slash(prev);
        let jp = join_stack(prev);
        assert(r =~= jp.drop_first().push(SLASH) + cn);
        assert(r[m] == SLASH);
        assert forall|t: int| m < t < r.len() implies r[t] != SLASH by {
            assert(r[t] == cn[t - m - 1]);
        }
        lemma_last_sep_at(r, m);
        assert(r.skip(m + 1) =~= cn);
    }
    assert(!is_skipped(cn));
    assert(trim_right(r) == r);
}

/// The components of an absolute path joined from normal components are the
/// root and those components.
pub proof fn lemma_components_join(st: Seq<Seq<u8>>)
    requires
        st.len() > 0,
        all_normal(st),
    ensures
        components(join_stack(st)) == seq![seq![SLASH]] + st,
{
    let j = join_stack(st);
    lemma_strip_root_join(st);
    let r = j.drop_first();
    assert(Seq::<u8>::empty().push(SLASH) + r =~= j);
    lemma_split_concat(Seq::<u8>::empty(), r);
    lemma_split_join(st);
    let e = seq![Seq::<u8>::empty()];
    assert(split_slash(Seq::<u8>::empty()) == e);
    assert((e + split_slash(r)).skip(1) =~= split_slash(r));
    assert((e + st).skip(1) =~= st);
    assert(split_slash(r) == st);
    lemma_named_normal(st);
    assert(!leading_cur_dir(j));
    assert(seq![seq![SLASH]] + Seq::<Seq<u8>>::empty() + st =~= seq![seq![SLASH]] + st);
}

/// The index of the first separator of `s` at or after `from`, or the length.
fn find_sep(s: &[u8], from: usize) -> (j: usize)
    requires
        from <= s@.len(),
    ensures
        from <= j <= s@.len(),
        first_sep(s@.skip(from as int)) == j - from,
{
    let mut j = from;
    while j < s.len() && s[j] != SLASH
        invariant
            from <= j <= s@.len(),
            forall|t: int| from <= t < j ==> s@[t] != SLASH,
        decreases s.len() - j,
    {
        j = j + 1;
    }
    proof {
        let r = s@.skip(from as int);
        assert forall|t: int| 0 <= t < j - from implies r[t] != SLASH by {
            assert(r[t] == s@[from + t]);
        }
        if j < s@.len() {
            assert(r[j - from] == s@[j as int]);
        }
        lemma_first_sep_at(r, j - from);
    }
    j
}

/// The index of the last separator of `s` in `start..end`, as
/// `(true, index)`, or `(false, start)` when there is none.
fn find_last_sep(s: &[u8], start: usize, end: usize) -> (r: (bool, usize))
    requires
        start <= end <= s@.len(),
    ensures
        r.0 ==> start <= r.1 < end && last_sep(s@.subrange(start as int, end as int)) == r.1 - start,
        !r.0 ==> last_sep(s@.subrange(start as int, end as int)) == -1,
{
    let mut j = end;
    while j > start && s[j - 1] != SLASH
        invariant
            start <= j <= end,
            end <= s@.len(),
            forall|t: int| j <= t < end ==> s@[t] != SLASH,
        decreases j - start,
    {
        j = j - 1;
    }
    let ghost sub = s@.subrange(start as int, end as int);
    proof {
        assert forall|t: int| j - 1 - start < t < sub.len() implies sub[t] != SLASH by {
            assert(sub[t] == s@[start + t]);
        }
    }
    if j > start {
        proof {
            assert(sub[j - 1 - start] == s@[j - 1]);
            lemma_last_sep_at(sub, j - 1 - start);
        }
        (true, j - 1)
    } else {
        proof {
            lemma_last_sep_at(sub, -1);
        }
        (false, start)
    }
}

/// Whether `s[from..to]` is empty or `.`.
fn skipped_piece(s: &[u8], from: usize, to: usize) -> (b: bool)
    requires
        from <= to <= s@.len(),
    ensures
        b == is_skipped(s@.subrange(from as int, to as int)),
{
    let b = from == to || (to == from + 1 && s[from] == 46u8);
    proof {
        let c = s@.subrange(from as int, to as int);
        if to == from + 1 && s[from as int] == 46u8 {
            assert(c =~= dot());
        }
        if c == dot() {
            assert(c.len() == 1);
            assert(c[0] == 46u8);
            assert(c[0] == s@[from as int]);
        }
    }
    b
}

/// The start of `trim_left` of `s[from..]`.
fn trim_left_start(s: &[u8], from: usize) -> (start: usize)
    requires
        from <= s@.len(),
    ensures
        from <= start <= s@.len(),
        s@.skip(start as int) == trim_left(s@.skip(from as int)),
{
    let mut start = from;
    while start < s.len()
        invariant
            from <= start <= s@.len(),
            trim_left(s@.skip(from as int)) == trim_left(s@.skip(start as int)),
        decreases s.len() - start,
    {
        let i = find_sep(s, start);
        let ghost r = s@.skip(start as int);
        proof {
            assert(r.take(i - start) =~= s@.subrange(start as int, i as int));
        }
        if skipped_piece(s, start, i) {
            if i < s.len() {
                proof {
                    assert(r.skip(i - start + 1) =~= s@.skip(i + 1));
                }
                start = i + 1;
            } else {
                proof {
                    assert(s@.skip(s@.len() as int) =~= Seq::<u8>::empty());
                }
                start = s.len();
            }
        } else {
            return start;
        }
    }
    start
}

/// The end of `trim_right` of `s[start..end]`.
fn trim_right_end(s: &[u8], start: usize, end: usize) -> (e: usize)
    requires
        start <= end <= s@.len(),
    ensures
        start <= e <= end,
        s@.subrange(start as int, e as int) == trim_right(s@.subrange(start as int, end as int)),
{
    let mut e = end;
    while e > start
        invariant
            start <= e <= end,
            end <= s@.len(),
            trim_right(s@.subrange(start as int, end as int)) == trim_right(s@.subrange(start as int, e as int)),
        decreases e - start,
    {
        let ghost r = s@.subrange(start as int, e as int);
        let (found, i) = find_last_sep(s, start, e);
        let from = if found { i + 1 } else { start };
        proof {
            let k = last_sep(r);
            assert(r.skip(k + 1) =~= s@.subrange(from as int, e as int));
        }
        if skipped_piece(s, from, e) {
            if found {
                proof {
                    assert(r.take(i - start) =~= s@.subrange(start as int, i as int));
                }
                e = i;
            } else {
                proof {
                    assert(s@.subrange(start as int, start as int) =~= Seq::<u8>::empty());
                }
                e = start;
            }
        } else {
            return e;
        }
    }
    e
}

/// `base` with `p` appended (see `push_path`).
pub fn push_path_bytes(base: &[u8], p: &[u8]) -> (r: Vec<u8>)
    ensures
        r@ == push_path(base@, p@),
{
    if p.len() > 0 && p[0] == SLASH {
        copy_range(p, 0, p.len())
    } else {
        let mut r = copy_range(base, 0, base.len());
        if base.len() > 0 && base[base.len() - 1] != SLASH {
            r.push(SLASH);
        }
        let tail = copy_range(p, 0, p.len());
        let ghost before = r@;
        let mut t = tail;
        r.append(&mut t);
        proof {
            assert(base@.subrange(0, base@.len() as int) =~= base@);
            assert(p@.subrange(0, p@.len() as int) =~= p@);
        }
        r
    }
}

/// The absolute path `g` made relative to the root (see `strip_root`).
pub fn strip_root_bytes(g: &[u8]) -> (r: Vec<u8>)
    requires
        is_absolute(g@),
    ensures
        r@ == strip_root(g@),
{
    let start = trim_left_start(g, 1);
    let end = trim_right_end(g, start, g.len());
    proof {
        assert(g@.skip(1) =~= g@.drop_first());
        assert(g@.skip(start as int) =~= g@.subrange(start as int, g@.len() as int));
    }
    copy_range(g, start, end)
}

/// The pieces of `pieces` that are components (see `named`).
fn named_pieces(pieces: &Vec<Vec<u8>>) -> (r: Vec<Vec<u8>>)
    ensures
        r@.map_values(|v: Vec<u8>| v@) == named(pieces@.map_values(|v: Vec<u8>| v@)),
{
    let ghost all = pieces@.map_values(|v: Vec<u8>| v@);
    let mut r: Vec<Vec<u8>> = Vec::new();
    let mut i: usize = 0;
    proof {
        assert(all.subrange(0, 0) =~= Seq::<Seq<u8>>::empty());
    }
    while i < pieces.len()
        invariant
            all == pieces@.map_values(|v: Vec<u8>| v@),
            i <= all.len(),
            r@.map_values(|v: Vec<u8>| v@) == named(all.subrange(0, i as int)),
        decreases pieces.len() - i,
    {
        let ghost before = r@.map_values(|v: Vec<u8>| v@);
        let piece = &pieces[i];
        let skip = piece.len() == 0 || (piece.len() == 1 && piece[0] == 46u8);
        proof {
            let sub = all.subrange(0, i + 1);
            assert(sub.drop_last() =~= all.subrange(0, i as int));
            assert(sub.last() == piece@);
            if piece@.len() == 1 && piece@[0] == 46u8 {
                assert(piece@ =~= dot());
            }
            if piece@ == dot() {
                assert(piece@[0] == 46u8);
            }
        }
        if !skip {
            let c = copy_range(piece.as_slice(), 0, piece.len());
            proof {
                assert(piece@.subrange(0, piece@.len() as int) =~= piece@);
            }
            r.push(c);
            proof {
                assert(r@.map_values(|v: Vec<u8>| v@) =~= before.push(all[i as int]));
            }
        }
        i = i + 1;
    }
    proof {
        assert(all.subrange(0, all.len() as int) =~= all);
    }
    r
}

/// The components of `p` (see `components`).
pub fn path_components(p: &[u8]) -> (r: Vec<Vec<u8>>)
    ensures
        r@.map_values(|v: Vec<u8>| v@) == components(p@),
{
    let absolute = p.len() > 0 && p[0] == SLASH;
    let cur = !absolute && p.len() > 0 && p[0] == 46u8 && (p.len() == 1 || p[1] == SLASH);
    let body = if absolute { copy_range(p, 1, p.len()) } else { copy_range(p, 0, p.len()) };
    proof {
        if absolute {
            assert(p@.subrange(1, p@.len() as int) =~= p@.drop_first());
        } else {
            assert(p@.subrange(0, p@.len() as int) =~= p@);
        }
    }
    let pieces = split_path(body.as_slice());
    let mut named_ones = named_pieces(&pieces);
    let mut r: Vec<Vec<u8>> = Vec::new();
    if absolute {
        let mut root: Vec<u8> = Vec::new();
        root.push(SLASH);
        r.push(root);
    }
    if cur {
        let mut d: Vec<u8> = Vec::new();
        d.push(46u8);
        r.push(d);
    }
    let ghost head = r@.map_values(|v: Vec<u8>| v@);
    let ghost tail = named_ones@.map_values(|v: Vec<u8>| v@);
    proof {
        let root_part = if absolute { seq![seq![SLASH]] } else { Seq::<Seq<u8>>::empty() };
        let cur_part = if cur { seq![dot()] } else { Seq::<Seq<u8>>::empty() };
        assert(head =~= root_part + cur_part);
    }
    r.append(&mut named_ones);
    proof {
        assert(r@.map_values(|v: Vec<u8>| v@) =~= head + tail);
    }
    r
}

/// Whether `p` starts with `base`, component by component (see
/// `path_starts_with`).
pub fn starts_with(p: &[u8], base: &[u8]) -> (b: bool)
    ensures
        b == path_starts_with(p@, base@),
{
    let c = path_components(p);
    let bc = path_components(base);
    let ghost cv = c@.map_values(|v: Vec<u8>| v@);
    let ghost bv = bc@.map_values(|v: Vec<u8>| v@);
    if bc.len() > c.len() {
        return false;
    }
    let mut i: usize = 0;
    while i < bc.len()
        invariant
            cv == c@.map_values(|v: Vec<u8>| v@),
            bv == bc@.map_values(|v: Vec<u8>| v@),
            cv == components(p@),
            bv == components(base@),
            bc@.len() <= c@.len(),
            i <= bc@.len(),
            forall|t: int| 0 <= t < i ==> cv[t] == bv[t],
        decreases bc.len() - i,
    {
        if !bytes_eq(c[i].as_slice(), bc[i].as_slice()) {
            proof {
                assert(cv[i as int] == c@[i as int]@);
                assert(bv[i as int] == bc@[i as int]@);
                assert(cv.subrange(0, bv.len() as int)[i as int] == cv[i as int]);
            }
            return false;
        }
        i = i + 1;
    }
    proof {
        assert(cv.subrange(0, bv.len() as int) =~= bv);
    }
    true
}

} // verus!
