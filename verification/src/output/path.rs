//! Paths shown relative to the project root, with forward slashes.
use crate::order::{lemma_text_irreflexive, lemma_text_total, lemma_text_trans, text_lt};
use crate::text::unicode::{chars_of, push_char};
use vstd::prelude::*;

verus! {

/// A component of a path.
pub enum Component {
    Root,
    Current,
    Parent,
    Normal(Seq<char>),
}

/// The `/`-separated pieces of the first `n` characters, the last one still open.
pub open spec fn segments(p: Seq<char>, n: int) -> Seq<Seq<char>>
    decreases n,
{
    if n <= 0 {
        seq![Seq::<char>::empty()]
    } else {
        let prev = segments(p, n - 1);
        if p[n - 1] == '/' {
            prev.push(Seq::empty())
        } else {
            prev.update(prev.len() - 1, prev.last().push(p[n - 1]))
        }
    }
}

/// The component a piece stands for, if any: empty pieces vanish, and `.`
/// counts only at the start of a relative path.
pub open spec fn piece_component(piece: Seq<char>, first_of_relative: bool) -> Seq<Component> {
    if piece.len() == 0 {
        Seq::empty()
    } else if piece == "."@ {
        if first_of_relative {
            seq![Component::Current]
        } else {
            Seq::empty()
        }
    } else if piece == ".."@ {
        seq![Component::Parent]
    } else {
        seq![Component::Normal(piece)]
    }
}

/// The components of the first `k` pieces.
pub open spec fn pieces_components(pieces: Seq<Seq<char>>, rooted: bool, k: int) -> Seq<Component>
    decreases k,
{
    if k <= 0 {
        Seq::empty()
    } else {
        pieces_components(pieces, rooted, k - 1) + piece_component(pieces[k - 1], k - 1 == 0 && !rooted)
    }
}

/// The components of a path as the Unix path syntax has them.
pub open spec fn components(p: Seq<char>) -> Seq<Component> {
    let rooted = p.len() > 0 && p[0] == '/';
    let pieces = segments(p, p.len() as int);
    (if rooted {
        seq![Component::Root]
    } else {
        Seq::empty()
    }) + pieces_components(pieces, rooted, pieces.len() as int)
}

/// The text with backslashes turned into slashes.
pub open spec fn forward_slashes(t: Seq<char>) -> Seq<char> {
    t.map_values(|c: char| if c == '\\' { '/' } else { c })
}

/// A separator unless the output is empty or already ends with one.
pub open spec fn with_separator(out: Seq<char>) -> Seq<char> {
    if out.len() > 0 && out.last() != '/' {
        out.push('/')
    } else {
        out
    }
}

/// The display form of the first `k` components.
pub open spec fn rendered_components(cs: Seq<Component>, k: int) -> Seq<char>
    decreases k,
{
    if k <= 0 {
        Seq::empty()
    } else {
        let out = rendered_components(cs, k - 1);
        match cs[k - 1] {
            Component::Root => if out.len() == 0 {
                seq!['/']
            } else {
                with_separator(out)
            },
            Component::Current => out,
            Component::Parent => with_separator(out) + ".."@,
            Component::Normal(t) => with_separator(out) + forward_slashes(t),
        }
    }
}

/// The path relative to the root when the root's components start it,
/// otherwise the path itself, shown with forward slashes.
pub open spec fn spec_display_path(path: Seq<char>, root: Seq<char>) -> Seq<char> {
    let pc = components(path);
    let rc = components(root);
    let rest = if rc.len() <= pc.len() && pc.take(rc.len() as int) == rc {
        pc.skip(rc.len() as int)
    } else {
        pc
    };
    rendered_components(rest, rest.len() as int)
}

/// Exec form of a component.
enum Piece {
    Root,
    Current,
    Parent,
    Normal(Vec<char>),
}

spec fn piece_view(p: Piece) -> Component {
    match p {
        Piece::Root => Component::Root,
        Piece::Current => Component::Current,
        Piece::Parent => Component::Parent,
        Piece::Normal(t) => Component::Normal(t@),
    }
}

spec fn piece_views(ps: Seq<Piece>) -> Seq<Component> {
    ps.map_values(|p: Piece| piece_view(p))
}

fn is_dot(t: &Vec<char>) -> (r: bool)
    ensures
        r == (t@ == "."@),
{
    proof {
        reveal_strlit(".");
    }
    let r = t.len() == 1 && t[0] == '.';
    proof {
        if t@.len() == 1 && t@[0] == '.' {
            assert(t@ =~= "."@);
        }
    }
    r
}

fn is_dot_dot(t: &Vec<char>) -> (r: bool)
    ensures
        r == (t@ == ".."@),
{
    proof {
        reveal_strlit("..");
    }
    let r = t.len() == 2 && t[0] == '.' && t[1] == '.';
    proof {
        if t@.len() == 2 && t@[0] == '.' && t@[1] == '.' {
            assert(t@ =~= ".."@);
        }
    }
    r
}

fn component_of(t: Vec<char>, first_of_relative: bool, out: &mut Vec<Piece>)
    ensures
        piece_views(final(out)@) == piece_views(old(out)@) + piece_component(t@, first_of_relative),
{
    let ghost before = out@;
    let ghost tv = t@;
    if t.len() == 0 {
        assert(piece_views(out@) =~= piece_views(before) + piece_component(tv, first_of_relative));
        return;
    }
    if is_dot(&t) {
        if first_of_relative {
            out.push(Piece::Current);
        }
    } else if is_dot_dot(&t) {
        out.push(Piece::Parent);
    } else {
        out.push(Piece::Normal(t));
    }
    assert(piece_views(out@) =~= piece_views(before) + piece_component(tv, first_of_relative));
}

fn split_components(p: &Vec<char>) -> (r: Vec<Piece>)
    ensures
        piece_views(r@) == components(p@),
{
    let rooted = p.len() > 0 && p[0] == '/';
    let mut out: Vec<Piece> = Vec::new();
    if rooted {
        out.push(Piece::Root);
    }
    let ghost start = piece_views(out@);
    let ghost pieces = segments(p@, p@.len() as int);
    // Pieces closed so far, and the open one.
    let mut current: Vec<char> = Vec::new();
    let mut index: usize = 0;
    let mut i: usize = 0;
    while i < p.len()
        invariant
            i <= p@.len(),
            rooted == (p@.len() > 0 && p@[0] == '/'),
            start == (if rooted { seq![Component::Root] } else { Seq::<Component>::empty() }),
            index + 1 == segments(p@, i as int).len(),
            index <= i,
            current@ == segments(p@, i as int).last(),
            piece_views(out@) == start + pieces_components(segments(p@, i as int), rooted, index as int),
        decreases p@.len() - i,
    {
        let ghost segs = segments(p@, i as int);
        if p[i] == '/' {
            let t = current;
            current = Vec::new();
            let ghost before = piece_views(out@);
            component_of(t, index == 0 && !rooted, &mut out);
            proof {
                let next = segments(p@, i + 1);
                assert(next == segs.push(Seq::empty()));
                assert forall|k: int| 0 <= k <= index implies pieces_components(next, rooted, k) == pieces_components(segs, rooted, k) by {
                    lemma_pieces_prefix(segs, next, rooted, k);
                }
                assert(next[index as int] == segs.last());
            }
            index = index + 1;
        } else {
            current.push(p[i]);
            proof {
                let next = segments(p@, i + 1);
                assert(next == segs.update(segs.len() - 1, segs.last().push(p@[i as int])));
                lemma_pieces_prefix(segs, next, rooted, index as int);
            }
        }
        i = i + 1;
    }
    let ghost segs = segments(p@, p@.len() as int);
    component_of(current, index == 0 && !rooted, &mut out);
    out
}

proof fn lemma_pieces_prefix(a: Seq<Seq<char>>, b: Seq<Seq<char>>, rooted: bool, k: int)
    requires
        0 <= k <= a.len(),
        k <= b.len(),
        forall|j: int| 0 <= j < k ==> a[j] == b[j],
    ensures
        pieces_components(a, rooted, k) == pieces_components(b, rooted, k),
    decreases k,
{
    if k > 0 {
        lemma_pieces_prefix(a, b, rooted, k - 1);
    }
}

fn same_piece(a: &Piece, b: &Piece) -> (r: bool)
    ensures
        r == (piece_view(*a) == piece_view(*b)),
{
    match (a, b) {
        (Piece::Root, Piece::Root) => true,
        (Piece::Current, Piece::Current) => true,
        (Piece::Parent, Piece::Parent) => true,
        (Piece::Normal(x), Piece::Normal(y)) => {
            assert(piece_view(*a) == Component::Normal(x@));
            assert(piece_view(*b) == Component::Normal(y@));
            if x.len() != y.len() {
                assert(x@.len() != y@.len());
                return false;
            }
            let mut i: usize = 0;
            while i < x.len()
                invariant
                    i <= x@.len(),
                    x@.len() == y@.len(),
                    piece_view(*a) == Component::Normal(x@),
                    piece_view(*b) == Component::Normal(y@),
                    forall|k: int| 0 <= k < i ==> x@[k] == y@[k],
                decreases x@.len() - i,
            {
                if x[i] != y[i] {
                    assert(x@[i as int] != y@[i as int]);
                    return false;
                }
                i = i + 1;
            }
            assert(x@ =~= y@);
            true
        },
        _ => false,
    }
}

/// The place of a component's kind in the order of paths: the root first,
/// then `.`, then `..`, then names.
pub open spec fn component_rank(c: Component) -> int {
    match c {
        Component::Root => 0,
        Component::Current => 1,
        Component::Parent => 2,
        Component::Normal(_) => 3,
    }
}

/// Strict order of components: by kind, and two names by their text.
pub open spec fn component_lt(a: Component, b: Component) -> bool {
    match (a, b) {
        (Component::Normal(x), Component::Normal(y)) => text_lt(x, y),
        _ => component_rank(a) < component_rank(b),
    }
}

/// Strict lexicographic order of component lists.
pub open spec fn components_lt(a: Seq<Component>, b: Seq<Component>) -> bool
    decreases a.len(),
{
    if a.len() == 0 {
        b.len() > 0
    } else if b.len() == 0 {
        false
    } else if a[0] != b[0] {
        component_lt(a[0], b[0])
    } else {
        components_lt(a.drop_first(), b.drop_first())
    }
}

/// Paths ordered component by component, so that `a/b` sorts before `a.b/c`
/// and `a//b` stands level with `a/b`.
pub open spec fn path_lt(a: Seq<char>, b: Seq<char>) -> bool {
    components_lt(components(a), components(b))
}

/// Two paths with the same components name the same place.
pub open spec fn same_path(a: Seq<char>, b: Seq<char>) -> bool {
    components(a) == components(b)
}

proof fn lemma_component_total(a: Component, b: Component)
    ensures
        component_lt(a, b) || component_lt(b, a) || a == b,
{
    match (a, b) {
        (Component::Normal(x), Component::Normal(y)) => {
            lemma_text_total(x, y);
        },
        _ => {},
    }
}

proof fn lemma_component_irreflexive(a: Component)
    ensures
        !component_lt(a, a),
{
    if let Component::Normal(x) = a {
        lemma_text_irreflexive(x);
    }
}

proof fn lemma_component_trans(a: Component, b: Component, c: Component)
    requires
        component_lt(a, b),
        component_lt(b, c),
    ensures
        component_lt(a, c),
{
    match (a, b, c) {
        (Component::Normal(x), Component::Normal(y), Component::Normal(z)) => {
            lemma_text_trans(x, y, z);
        },
        _ => {},
    }
}

/// Any two paths are ordered one way or the other, or have the same components.
pub proof fn lemma_path_total(a: Seq<char>, b: Seq<char>)
    ensures
        path_lt(a, b) || path_lt(b, a) || same_path(a, b),
{
    lemma_components_total(components(a), components(b));
}

/// No path sorts before itself.
pub proof fn lemma_path_irreflexive(a: Seq<char>)
    ensures
        !path_lt(a, a),
{
    lemma_components_irreflexive(components(a));
}

/// The order of paths is transitive.
pub proof fn lemma_path_trans(a: Seq<char>, b: Seq<char>, c: Seq<char>)
    requires
        path_lt(a, b),
        path_lt(b, c),
    ensures
        path_lt(a, c),
{
    lemma_components_trans(components(a), components(b), components(c));
}

proof fn lemma_components_total(a: Seq<Component>, b: Seq<Component>)
    ensures
        components_lt(a, b) || components_lt(b, a) || a == b,
    decreases a.len(),
{
    if a.len() == 0 && b.len() == 0 {
        assert(a =~= b);
    }
    if a.len() > 0 && b.len() > 0 {
        if a[0] == b[0] {
            lemma_components_total(a.drop_first(), b.drop_first());
            if a.drop_first() == b.drop_first() {
                assert(a =~= seq![a[0]] + a.drop_first());
                assert(b =~= seq![b[0]] + b.drop_first());
            }
        } else {
            lemma_component_total(a[0], b[0]);
        }
    }
}

proof fn lemma_components_irreflexive(a: Seq<Component>)
    ensures
        !components_lt(a, a),
    decreases a.len(),
{
    if a.len() > 0 {
        lemma_components_irreflexive(a.drop_first());
    }
}

proof fn lemma_components_trans(a: Seq<Component>, b: Seq<Component>, c: Seq<Component>)
    requires
        components_lt(a, b),
        components_lt(b, c),
    ensures
        components_lt(a, c),
    decreases a.len(),
{
    if a.len() > 0 && b.len() > 0 && c.len() > 0 {
        if a[0] == b[0] && b[0] == c[0] {
            lemma_components_trans(a.drop_first(), b.drop_first(), c.drop_first());
        } else if a[0] != b[0] && b[0] != c[0] {
            lemma_component_trans(a[0], b[0], c[0]);
            if a[0] == c[0] {
                lemma_component_irreflexive(a[0]);
            }
        } else if a[0] == c[0] {
            lemma_component_irreflexive(a[0]);
        }
    }
}

fn chars_less(x: &Vec<char>, y: &Vec<char>) -> (r: bool)
    ensures
        r == text_lt(x@, y@),
{
    let mut i: usize = 0;
    assert(x@.skip(0) =~= x@);
    assert(y@.skip(0) =~= y@);
    while i < x.len() && i < y.len()
        invariant
            i <= x@.len(),
            i <= y@.len(),
            text_lt(x@, y@) == text_lt(x@.skip(i as int), y@.skip(i as int)),
        decreases x@.len() - i,
    {
        if x[i] != y[i] {
            assert(x@.skip(i as int)[0] == x@[i as int] && y@.skip(i as int)[0] == y@[i as int]);
            return x[i] < y[i];
        }
        assert(x@.skip(i as int).drop_first() =~= x@.skip(i + 1));
        assert(y@.skip(i as int).drop_first() =~= y@.skip(i + 1));
        i = i + 1;
    }
    i < y.len()
}

fn piece_rank(p: &Piece) -> (r: u8)
    ensures
        r == component_rank(piece_view(*p)),
{
    match p {
        Piece::Root => 0,
        Piece::Current => 1,
        Piece::Parent => 2,
        Piece::Normal(_) => 3,
    }
}

fn piece_less(a: &Piece, b: &Piece) -> (r: bool)
    ensures
        r == component_lt(piece_view(*a), piece_view(*b)),
{
    match (a, b) {
        (Piece::Normal(x), Piece::Normal(y)) => chars_less(x, y),
        _ => piece_rank(a) < piece_rank(b),
    }
}

/// Whether `a` sorts strictly before `b`, comparing the paths component by component.
pub fn path_less(a: &str, b: &str) -> (r: bool)
    ensures
        r == path_lt(a@, b@),
{
    let pa = split_components(&chars_of(a));
    let pb = split_components(&chars_of(b));
    let ghost va = piece_views(pa@);
    let ghost vb = piece_views(pb@);
    assert(va.skip(0) =~= va);
    assert(vb.skip(0) =~= vb);
    let mut i: usize = 0;
    while i < pa.len() && i < pb.len()
        invariant
            va == piece_views(pa@),
            vb == piece_views(pb@),
            va == components(a@),
            vb == components(b@),
            i <= pa@.len(),
            i <= pb@.len(),
            components_lt(va, vb) == components_lt(va.skip(i as int), vb.skip(i as int)),
        decreases pa@.len() - i,
    {
        assert(va.skip(i as int)[0] == va[i as int]);
        assert(vb.skip(i as int)[0] == vb[i as int]);
        if !same_piece(&pa[i], &pb[i]) {
            return piece_less(&pa[i], &pb[i]);
        }
        assert(va.skip(i as int).drop_first() =~= va.skip(i + 1));
        assert(vb.skip(i as int).drop_first() =~= vb.skip(i + 1));
        i = i + 1;
    }
    i < pb.len()
}

fn push_separator(out: &mut String)
    ensures
        final(out)@ == with_separator(old(out)@),
{
    let chars = chars_of(out.as_str());
    if chars.len() > 0 && chars[chars.len() - 1] != '/' {
        push_char(out, '/');
    }
}

fn push_text(out: &mut String, t: &Vec<char>)
    ensures
        final(out)@ == old(out)@ + forward_slashes(t@),
{
    let ghost start = out@;
    let mut i: usize = 0;
    while i < t.len()
        invariant
            i <= t@.len(),
            out@ == start + forward_slashes(t@.take(i as int)),
        decreases t@.len() - i,
    {
        let c = if t[i] == '\\' { '/' } else { t[i] };
        push_char(out, c);
        assert(forward_slashes(t@.take(i + 1)) =~= forward_slashes(t@.take(i as int)).push(c));
        i = i + 1;
    }
    assert(t@.take(i as int) =~= t@);
}

/// `path` relative to `root` when it lies under it, shown with forward slashes.
pub fn display_path(path: &str, root: &str) -> (r: String)
    ensures
        r@ == spec_display_path(path@, root@),
{
    let pc = split_components(&chars_of(path));
    let rc = split_components(&chars_of(root));
    let ghost pv = piece_views(pc@);
    let ghost rv = piece_views(rc@);
    let mut prefix = rc.len() <= pc.len();
    let mut k: usize = 0;
    while prefix && k < rc.len()
        invariant
            k <= rc@.len(),
            prefix ==> rc@.len() <= pc@.len(),
            pv == piece_views(pc@),
            rv == piece_views(rc@),
            prefix ==> forall|j: int| 0 <= j < k ==> pv[j] == rv[j],
            !prefix ==> !(rv.len() <= pv.len() && pv.take(rv.len() as int) == rv),
        decreases rc@.len() - k + if prefix { 1int } else { 0int },
    {
        if !same_piece(&pc[k], &rc[k]) {
            proof {
                if rv.len() <= pv.len() && pv.take(rv.len() as int) == rv {
                    assert(pv.take(rv.len() as int)[k as int] == pv[k as int]);
                }
            }
            prefix = false;
        } else {
            k = k + 1;
        }
    }
    if prefix {
        assert(pv.take(rv.len() as int) =~= rv);
    }
    let from = if prefix { rc.len() } else { 0 };
    let ghost rest = if prefix { pv.skip(rv.len() as int) } else { pv };
    assert(rest =~= pv.skip(from as int));
    let mut out = String::new();
    let mut i = from;
    while i < pc.len()
        invariant
            from <= i <= pc@.len(),
            pv == piece_views(pc@),
            rest == pv.skip(from as int),
            out@ == rendered_components(rest, i - from),
        decreases pc@.len() - i,
    {
        assert(rest[i - from] == pv[i as int]);
        match &pc[i] {
            Piece::Root => {
                let n = chars_of(out.as_str()).len();
                if n == 0 {
                    push_char(&mut out, '/');
                    assert(out@ =~= seq!['/']);
                } else {
                    push_separator(&mut out);
                }
            },
            Piece::Current => {},
            Piece::Parent => {
                push_separator(&mut out);
                out.append("..");
                proof {
                    reveal_strlit("..");
                }
            },
            Piece::Normal(t) => {
                push_separator(&mut out);
                push_text(&mut out, t);
            },
        }
        i = i + 1;
    }
    out
}

} // verus!
