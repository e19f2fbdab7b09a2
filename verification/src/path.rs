//! Byte-level path handling shared by both flavours of the sandbox.
use vstd::prelude::*;

verus! {

/// The separator byte `/`.
pub const SLASH: u8 = 47u8;

/// The pieces of `s` between `/` separators, as `str::split('/')` yields
/// them: `n` separators give `n + 1` pieces, empty ones included.
pub open spec fn split_slash(s: Seq<u8>) -> Seq<Seq<u8>>
    decreases s.len(),
{
    if s.len() == 0 {
        seq![Seq::<u8>::empty()]
    } else {
        let p = split_slash(s.drop_last());
        if s.last() == SLASH {
            p.push(Seq::<u8>::empty())
        } else {
            p.update(p.len() - 1, p.last().push(s.last()))
        }
    }
}

/// `split_slash` never yields an empty list, and no piece holds a separator.
pub proof fn lemma_split_slash_shape(s: Seq<u8>)
    ensures
        split_slash(s).len() >= 1,
        forall|i: int, j: int|
            0 <= i < split_slash(s).len() && 0 <= j < split_slash(s)[i].len()
                ==> #[trigger] split_slash(s)[i][j] != SLASH,
    decreases s.len(),
{
    if s.len() > 0 {
        lemma_split_slash_shape(s.drop_last());
    }
}

/// Splits `s` at every `/`, keeping empty pieces.
pub fn split_path(s: &[u8]) -> (pieces: Vec<Vec<u8>>)
    ensures
        pieces@.map_values(|v: Vec<u8>| v@) == split_slash(s@),
{
    let mut pieces: Vec<Vec<u8>> = Vec::new();
    let mut cur: Vec<u8> = Vec::new();
    let mut i: usize = 0;
    proof {
        assert(s@.subrange(0, 0) =~= Seq::<u8>::empty());
    }
    while i < s.len()
        invariant
            i <= s@.len(),
            pieces@.map_values(|v: Vec<u8>| v@).push(cur@) == split_slash(s@.subrange(0, i as int)),
        decreases s.len() - i,
    {
        let b = s[i];
        proof {
            assert(s@.subrange(0, i + 1).drop_last() =~= s@.subrange(0, i as int));
        }
        if b == SLASH {
            let ghost old_pieces = pieces@.map_values(|v: Vec<u8>| v@);
            let done = cur;
            pieces.push(done);
            cur = Vec::new();
            proof {
                assert(pieces@.map_values(|v: Vec<u8>| v@) =~= old_pieces.push(done@));
            }
        } else {
            cur.push(b);
        }
        i = i + 1;
        proof {
            assert(pieces@.map_values(|v: Vec<u8>| v@).push(cur@) =~= split_slash(s@.subrange(0, i as int)));
        }
    }
    proof {
        assert(s@.subrange(0, s@.len() as int) =~= s@);
    }
    let ghost before = pieces@.map_values(|v: Vec<u8>| v@);
    let last = cur;
    pieces.push(last);
    proof {
        assert(pieces@.map_values(|v: Vec<u8>| v@) =~= before.push(last@));
    }
    pieces
}


/// The piece `.`.
pub open spec fn dot() -> Seq<u8> {
    seq![46u8]
}

/// The piece `..`.
pub open spec fn dotdot() -> Seq<u8> {
    seq![46u8, 46u8]
}

/// One step of resolving a path against a directory stack, as the kernel
/// flavour does it: `..` pops (and fails on an empty stack), `.` and empty
/// pieces are skipped, any other piece is pushed. Once failed, the state
/// does not change any more.
pub open spec fn walk_step(st: (Seq<Seq<u8>>, bool), piece: Seq<u8>) -> (Seq<Seq<u8>>, bool) {
    if !st.1 {
        st
    } else if piece == dotdot() {
        if st.0.len() == 0 {
            (st.0, false)
        } else {
            (st.0.drop_last(), true)
        }
    } else if piece == dot() || piece.len() == 0 {
        st
    } else {
        (st.0.push(piece), true)
    }
}

/// Resolves the pieces in order, starting from the state `st`.
pub open spec fn walk(st: (Seq<Seq<u8>>, bool), pieces: Seq<Seq<u8>>) -> (Seq<Seq<u8>>, bool)
    decreases pieces.len(),
{
    if pieces.len() == 0 {
        st
    } else {
        walk_step(walk(st, pieces.drop_last()), pieces.last())
    }
}

/// A component that a resolved stack may hold: not empty, not `.` or `..`,
/// and free of separators.
pub open spec fn is_normal(c: Seq<u8>) -> bool {
    &&& c.len() > 0
    &&& c != dot()
    &&& c != dotdot()
    &&& forall|j: int| 0 <= j < c.len() ==> #[trigger] c[j] != SLASH
}

/// Every component of the stack is normal.
pub open spec fn all_normal(stack: Seq<Seq<u8>>) -> bool {
    forall|i: int| 0 <= i < stack.len() ==> is_normal(#[trigger] stack[i])
}

/// The views of a vector of byte vectors.
pub open spec fn views(v: Seq<Vec<u8>>) -> Seq<Seq<u8>> {
    v.map_values(|x: Vec<u8>| x@)
}

/// `/c1/c2/.../cn` for the stack `[c1, ..., cn]` (empty for the empty stack).
pub open spec fn join_stack(stack: Seq<Seq<u8>>) -> Seq<u8>
    decreases stack.len(),
{
    if stack.len() == 0 {
        Seq::<u8>::empty()
    } else {
        join_stack(stack.drop_last()).push(SLASH) + stack.last()
    }
}

/// Whether `&s[0..1]` is a valid string slice of a non-empty `s`, that is,
/// whether byte 1 starts a character (or is the end).
pub open spec fn splits_after_first_byte(s: Seq<u8>) -> bool {
    s.len() <= 1 || !(0x80 <= s[1] && s[1] < 0xC0)
}

/// Resolution is a fold: resolving `a + b` is resolving `b` after `a`.
pub proof fn lemma_walk_append(st: (Seq<Seq<u8>>, bool), a: Seq<Seq<u8>>, b: Seq<Seq<u8>>)
    ensures
        walk(st, a + b) == walk(walk(st, a), b),
    decreases b.len(),
{
    if b.len() == 0 {
        assert(a + b =~= a);
    } else {
        lemma_walk_append(st, a, b.drop_last());
        assert((a + b).drop_last() =~= a + b.drop_last());
        assert((a + b).last() == b.last());
    }
}

/// A failed resolution stays failed and keeps its stack.
pub proof fn lemma_walk_failed(st: (Seq<Seq<u8>>, bool), pieces: Seq<Seq<u8>>)
    requires
        !st.1,
    ensures
        walk(st, pieces) == st,
    decreases pieces.len(),
{
    if pieces.len() > 0 {
        lemma_walk_failed(st, pieces.drop_last());
    }
}

/// Splitting `p/q` gives the pieces of `p` followed by those of `q`.
pub proof fn lemma_split_concat(p: Seq<u8>, q: Seq<u8>)
    ensures
        split_slash(p.push(SLASH) + q) == split_slash(p) + split_slash(q),
    decreases q.len(),
{
    if q.len() == 0 {
        assert(p.push(SLASH) + q =~= p.push(SLASH));
        assert(p.push(SLASH).drop_last() =~= p);
        assert(split_slash(p) + split_slash(q) =~= split_slash(p).push(Seq::<u8>::empty()));
    } else {
        lemma_split_concat(p, q.drop_last());
        let whole = p.push(SLASH) + q;
        assert(whole.drop_last() =~= p.push(SLASH) + q.drop_last());
        assert(whole.last() == q.last());
        lemma_split_slash_shape(q.drop_last());
        let a = split_slash(p);
        let b = split_slash(q.drop_last());
        if q.last() == SLASH {
            assert((a + b).push(Seq::<u8>::empty()) =~= a + b.push(Seq::<u8>::empty()));
        } else {
            assert((a + b).update((a + b).len() - 1, (a + b).last().push(q.last())) =~= a + b.update(
                b.len() - 1,
                b.last().push(q.last()),
            ));
        }
    }
}

/// Resolution from a stack of normal components, over pieces that hold no
/// separator, only ever holds normal components.
pub proof fn lemma_walk_normal(st: (Seq<Seq<u8>>, bool), pieces: Seq<Seq<u8>>)
    requires
        all_normal(st.0),
        forall|i: int, j: int|
            0 <= i < pieces.len() && 0 <= j < pieces[i].len() ==> #[trigger] pieces[i][j] != SLASH,
    ensures
        all_normal(walk(st, pieces).0),
    decreases pieces.len(),
{
    if pieces.len() > 0 {
        assert forall|i: int, j: int|
            0 <= i < pieces.drop_last().len() && 0 <= j < pieces.drop_last()[i].len() implies
            #[trigger] pieces.drop_last()[i][j] != SLASH by {
            assert(pieces.drop_last()[i] == pieces[i]);
        }
        lemma_walk_normal(st, pieces.drop_last());
        let prev = walk(st, pieces.drop_last());
        let piece = pieces.last();
        assert forall|j: int| 0 <= j < piece.len() implies #[trigger] piece[j] != SLASH by {
            assert(pieces[pieces.len() - 1][j] != SLASH);
        }
        if prev.1 && piece != dotdot() && !(piece == dot() || piece.len() == 0) {
            assert(is_normal(piece));
            assert forall|i: int| 0 <= i < prev.0.push(piece).len() implies is_normal(
                #[trigger] prev.0.push(piece)[i],
            ) by {
                if i < prev.0.len() {
                    assert(prev.0.push(piece)[i] == prev.0[i]);
                }
            }
        } else if prev.1 && piece == dotdot() && prev.0.len() > 0 {
            assert forall|i: int| 0 <= i < prev.0.drop_last().len() implies is_normal(
                #[trigger] prev.0.drop_last()[i],
            ) by {
                assert(prev.0.drop_last()[i] == prev.0[i]);
            }
        }
    }
}

/// A piece with no separator in it splits into itself alone.
pub proof fn lemma_split_single(s: Seq<u8>)
    requires
        forall|j: int| 0 <= j < s.len() ==> #[trigger] s[j] != SLASH,
    ensures
        split_slash(s) == seq![s],
    decreases s.len(),
{
    if s.len() > 0 {
        let t = s.drop_last();
        assert forall|j: int| 0 <= j < t.len() implies #[trigger] t[j] != SLASH by {
            assert(t[j] == s[j]);
        }
        lemma_split_single(t);
        assert(s[s.len() - 1] != SLASH);
        assert(t.push(s.last()) =~= s);
        let p = split_slash(t);
        assert(p.len() - 1 == 0 && p.last() == t);
        assert(seq![t].update(0, t.push(s.last())) =~= seq![s]);
    } else {
        assert(s =~= Seq::<u8>::empty());
    }
}

/// The join of a non-empty stack starts with a separator.
pub proof fn lemma_join_starts_with_slash(stack: Seq<Seq<u8>>)
    requires
        stack.len() > 0,
    ensures
        join_stack(stack).len() > 0,
        join_stack(stack)[0] == SLASH,
    decreases stack.len(),
{
    let prev = stack.drop_last();
    if prev.len() > 0 {
        lemma_join_starts_with_slash(prev);
    }
    let head = join_stack(prev).push(SLASH);
    assert((head + stack.last())[0] == head[0]);
}

/// Splitting the join of a stack of normal components gives the empty piece
/// before its first separator, then the components.
pub proof fn lemma_split_join(stack: Seq<Seq<u8>>)
    requires
        all_normal(stack),
    ensures
        split_slash(join_stack(stack)) == seq![Seq::<u8>::empty()] + stack,
    decreases stack.len(),
{
    if stack.len() == 0 {
        assert(seq![Seq::<u8>::empty()] + stack =~= seq![Seq::<u8>::empty()]);
    } else {
        let prev = stack.drop_last();
        assert forall|i: int| 0 <= i < prev.len() implies is_normal(#[trigger] prev[i]) by {
            assert(prev[i] == stack[i]);
        }
        lemma_split_join(prev);
        let last = stack.last();
        assert(is_normal(stack[stack.len() - 1]));
        lemma_split_single(last);
        lemma_split_concat(join_stack(prev), last);
        assert(seq![Seq::<u8>::empty()] + prev + seq![last] =~= seq![Seq::<u8>::empty()] + stack);
    }
}

/// Resolving normal components pushes each of them in turn.
pub proof fn lemma_walk_pushes(s: Seq<Seq<u8>>, stack: Seq<Seq<u8>>)
    requires
        all_normal(stack),
    ensures
        walk((s, true), stack) == (s + stack, true),
    decreases stack.len(),
{
    if stack.len() == 0 {
        assert(s + stack =~= s);
    } else {
        let prev = stack.drop_last();
        assert forall|i: int| 0 <= i < prev.len() implies is_normal(#[trigger] prev[i]) by {
            assert(prev[i] == stack[i]);
        }
        lemma_walk_pushes(s, prev);
        assert(is_normal(stack[stack.len() - 1]));
        assert((s + prev).push(stack.last()) =~= s + stack);
    }
}

/// Resolving the join of a stack of normal components from the stack `s`
/// pushes those components onto `s`.
pub proof fn lemma_walk_join(s: Seq<Seq<u8>>, stack: Seq<Seq<u8>>)
    requires
        all_normal(stack),
    ensures
        walk((s, true), split_slash(join_stack(stack))) == (s + stack, true),
{
    lemma_split_join(stack);
    let first = seq![Seq::<u8>::empty()];
    lemma_walk_append((s, true), first, stack);
    assert(first.drop_last() =~= Seq::<Seq<u8>>::empty());
    assert(walk((s, true), first.drop_last()) == (s, true));
    assert(first.last() == Seq::<u8>::empty());
    assert(dotdot().len() == 2);
    assert(walk((s, true), first) == (s, true));
    lemma_walk_pushes(s, stack);
}

/// Equality of two byte strings.
pub fn bytes_eq(a: &[u8], b: &[u8]) -> (r: bool)
    ensures
        r == (a@ == b@),
{
    if a.len() != b.len() {
        return false;
    }
    let mut i: usize = 0;
    while i < a.len()
        invariant
            a@.len() == b@.len(),
            i <= a@.len(),
            forall|j: int| 0 <= j < i ==> a@[j] == b@[j],
        decreases a.len() - i,
    {
        if a[i] != b[i] {
            return false;
        }
        i = i + 1;
    }
    assert(a@ =~= b@);
    true
}

/// A fresh copy of a byte string.
pub fn copy_bytes(s: &[u8]) -> (r: Vec<u8>)
    ensures
        r@ == s@,
{
    let mut r: Vec<u8> = Vec::new();
    let mut i: usize = 0;
    while i < s.len()
        invariant
            i <= s@.len(),
            r@ == s@.subrange(0, i as int),
        decreases s.len() - i,
    {
        r.push(s[i]);
        i = i + 1;
        assert(r@ =~= s@.subrange(0, i as int));
    }
    assert(s@.subrange(0, s@.len() as int) =~= s@);
    r
}

/// Copies `s[from..to]`.
pub fn copy_range(s: &[u8], from: usize, to: usize) -> (r: Vec<u8>)
    requires
        from <= to <= s@.len(),
    ensures
        r@ == s@.subrange(from as int, to as int),
{
    let mut r: Vec<u8> = Vec::new();
    let mut i = from;
    while i < to
        invariant
            from <= i <= to,
            to <= s@.len(),
            r@ == s@.subrange(from as int, i as int),
        decreases to - i,
    {
        r.push(s[i]);
        i = i + 1;
        assert(r@ =~= s@.subrange(from as int, i as int));
    }
    r
}

/// Appends `src` to `dst`.
pub fn append_bytes(dst: &mut Vec<u8>, src: &[u8])
    ensures
        final(dst)@ == old(dst)@ + src@,
{
    let ghost start = dst@;
    let mut i: usize = 0;
    while i < src.len()
        invariant
            i <= src@.len(),
            dst@ == start + src@.subrange(0, i as int),
        decreases src.len() - i,
    {
        dst.push(src[i]);
        i = i + 1;
        assert(dst@ =~= start + src@.subrange(0, i as int));
    }
    assert(src@.subrange(0, src@.len() as int) =~= src@);
}

/// A fresh copy of a stack of components.
pub fn copy_stack(s: &Vec<Vec<u8>>) -> (r: Vec<Vec<u8>>)
    ensures
        views(r@) == views(s@),
{
    let mut r: Vec<Vec<u8>> = Vec::new();
    let mut i: usize = 0;
    while i < s.len()
        invariant
            i <= s@.len(),
            views(r@) == views(s@).subrange(0, i as int),
        decreases s.len() - i,
    {
        let ghost before = views(r@);
        let c = copy_bytes(s[i].as_slice());
        r.push(c);
        i = i + 1;
        assert(views(r@) =~= before.push(c@));
        assert(views(r@) =~= views(s@).subrange(0, i as int));
    }
    assert(views(s@).subrange(0, s@.len() as int) =~= views(s@));
    r
}

/// Appends `/c1/c2/.../cn` for the stack `[c1, ..., cn]` to `out`.
pub fn push_joined(out: &mut Vec<u8>, stack: &Vec<Vec<u8>>)
    ensures
        final(out)@ == old(out)@ + join_stack(views(stack@)),
{
    let ghost start = out@;
    let mut i: usize = 0;
    while i < stack.len()
        invariant
            i <= stack@.len(),
            out@ == start + join_stack(views(stack@).subrange(0, i as int)),
        decreases stack.len() - i,
    {
        let ghost before = out@;
        out.push(SLASH);
        append_bytes(out, stack[i].as_slice());
        i = i + 1;
        proof {
            let sub = views(stack@).subrange(0, i as int);
            assert(sub.drop_last() =~= views(stack@).subrange(0, i - 1));
            assert(sub.last() == stack@[i - 1]@);
            assert(out@ =~= start + join_stack(sub));
        }
    }
    assert(views(stack@).subrange(0, stack@.len() as int) =~= views(stack@));
}

/// Resolves `pieces` onto `stack` in order, stopping at the first `..`
/// that finds the stack empty; returns whether every piece resolved.
pub fn walk_pieces(stack: &mut Vec<Vec<u8>>, pieces: &Vec<Vec<u8>>) -> (ok: bool)
    ensures
        (views(final(stack)@), ok) == walk((views(old(stack)@), true), views(pieces@)),
{
    let ghost start = views(stack@);
    let mut i: usize = 0;
    while i < pieces.len()
        invariant
            i <= pieces@.len(),
            start == views(old(stack)@),
            (views(stack@), true) == walk((start, true), views(pieces@).subrange(0, i as int)),
        decreases pieces.len() - i,
    {
        let piece = &pieces[i];
        let ghost before = views(stack@);
        proof {
            let sub = views(pieces@).subrange(0, i + 1);
            assert(sub.drop_last() =~= views(pieces@).subrange(0, i as int));
            assert(sub.last() == piece@);
        }
        if piece.len() == 2 && piece[0] == 46u8 && piece[1] == 46u8 {
            proof {
                assert(piece@ =~= dotdot());
            }
            if stack.len() == 0 {
                proof {
                    let sub = views(pieces@).subrange(0, i + 1);
                    assert(walk((start, true), sub) == walk_step(walk((start, true), sub.drop_last()), sub.last()));
                    assert(walk((start, true), sub) == (before, false));
                    lemma_walk_append((start, true), views(pieces@).subrange(0, i + 1),
                        views(pieces@).subrange(i + 1, pieces@.len() as int));
                    assert(views(pieces@).subrange(0, i + 1) + views(pieces@).subrange(i + 1, pieces@.len() as int) =~= views(pieces@));
                    lemma_walk_failed((before, false), views(pieces@).subrange(i + 1, pieces@.len() as int));
                }
                return false;
            }
            stack.pop();
            proof {
                assert(views(stack@) =~= before.drop_last());
            }
        } else if piece.len() == 0 || (piece.len() == 1 && piece[0] == 46u8) {
            proof {
                if piece.len() == 1 {
                    assert(piece@ =~= dot());
                }
            }
        } else {
            proof {
                assert(piece@ != dotdot());
                assert(piece@ != dot());
            }
            let c = copy_bytes(piece.as_slice());
            stack.push(c);
            proof {
                assert(views(stack@) =~= before.push(c@));
            }
        }
        i = i + 1;
    }
    proof {
        assert(views(pieces@).subrange(0, pieces@.len() as int) =~= views(pieces@));
    }
    true
}

} // verus!
