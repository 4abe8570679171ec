//! File paths as the script loader and route discovery read them: split into
//! components, joined, and matched on their extension.

use vstd::prelude::*;

use crate::text::{chars_eq, chars_of, segments, segments_of, slice_chars, string_of, views};

verus! {

/// One component of a path.
#[derive(Debug)]
pub enum PathPart {
    /// The root, `/`.
    Root,
    /// A leading `.`.
    Current,
    /// `..`.
    Parent,
    /// A name.
    Normal(String),
}

/// One component of a path, as text.
pub enum PartView {
    Root,
    Current,
    Parent,
    Normal(Seq<char>),
}

impl View for PathPart {
    type V = PartView;

    open spec fn view(&self) -> PartView {
        match *self {
            PathPart::Root => PartView::Root,
            PathPart::Current => PartView::Current,
            PathPart::Parent => PartView::Parent,
            PathPart::Normal(s) => PartView::Normal(s@),
        }
    }
}

/// The views of a sequence of components.
pub open spec fn part_views(p: Seq<PathPart>) -> Seq<PartView> {
    p.map_values(|c: PathPart| c@)
}

/// The component that a non-empty piece between separators stands for.
pub open spec fn classify(piece: Seq<char>) -> PartView {
    if piece == seq!['.', '.'] {
        PartView::Parent
    } else {
        PartView::Normal(piece)
    }
}

/// The components of the non-empty pieces of a path: `.` pieces drop out.
pub open spec fn piece_parts(pieces: Seq<Seq<char>>) -> Seq<PartView>
    decreases pieces.len(),
{
    if pieces.len() == 0 {
        Seq::empty()
    } else if pieces.last() == seq!['.'] {
        piece_parts(pieces.drop_last())
    } else {
        piece_parts(pieces.drop_last()).push(classify(pieces.last()))
    }
}

/// The component a path starts with before its pieces: the root for an
/// absolute path, `.` for a path that starts with a `.` piece.
pub open spec fn leading_part(s: Seq<char>) -> Seq<PartView> {
    if s.len() > 0 && s[0] == '/' {
        seq![PartView::Root]
    } else if s.len() > 0 && s[0] == '.' && (s.len() == 1 || s[1] == '/') {
        seq![PartView::Current]
    } else {
        Seq::empty()
    }
}

/// The components of a path, as `Path::components` reads them on Unix:
/// repeated separators and `.` pieces other than a leading one are skipped.
pub open spec fn path_components(s: Seq<char>) -> Seq<PartView> {
    leading_part(s) + piece_parts(segments(s))
}

/// Whether a path is absolute: it starts at the root.
pub open spec fn is_absolute(s: Seq<char>) -> bool {
    s.len() > 0 && s[0] == '/'
}

/// The components of a path.
pub fn components(path: &str) -> (r: Vec<PathPart>)
    ensures
        part_views(r@) == path_components(path@),
{
    let s = chars_of(path);
    let mut out: Vec<PathPart> = Vec::new();
    if s.len() > 0 && s[0] == '/' {
        out.push(PathPart::Root);
    } else if s.len() > 0 && s[0] == '.' && (s.len() == 1 || s[1] == '/') {
        out.push(PathPart::Current);
    }
    let ghost lead = part_views(out@);
    assert(lead =~= leading_part(path@));
    let pieces = segments_of(&s);
    let dot = vec!['.'];
    let dotdot = vec!['.', '.'];
    let mut i: usize = 0;
    assert(views(pieces@).subrange(0, 0) =~= Seq::<Seq<char>>::empty());
    assert(part_views(out@) =~= lead + piece_parts(Seq::<Seq<char>>::empty()));
    while i < pieces.len()
        invariant
            i <= pieces@.len(),
            s@ == path@,
            views(pieces@) == segments(path@),
            dot@ == seq!['.'],
            dotdot@ == seq!['.', '.'],
            lead == leading_part(path@),
            part_views(out@) == lead + piece_parts(views(pieces@).subrange(0, i as int)),
        decreases pieces@.len() - i,
    {
        let piece = &pieces[i];
        let ghost before = out@;
        proof {
            let p = views(pieces@).subrange(0, i + 1);
            assert(p.drop_last() =~= views(pieces@).subrange(0, i as int));
            assert(p.last() == piece@);
        }
        if !chars_eq(piece, &dot) {
            if chars_eq(piece, &dotdot) {
                out.push(PathPart::Parent);
            } else {
                out.push(PathPart::Normal(string_of(piece)));
            }
            assert(part_views(out@) =~= part_views(before).push(classify(piece@)));
        }
        i = i + 1;
    }
    assert(views(pieces@).subrange(0, pieces@.len() as int) =~= views(pieces@));
    out
}

/// Whether two components are the same.
pub fn same_part(a: &PathPart, b: &PathPart) -> (r: bool)
    ensures
        r == (a@ == b@),
{
    match (a, b) {
        (PathPart::Root, PathPart::Root) => true,
        (PathPart::Current, PathPart::Current) => true,
        (PathPart::Parent, PathPart::Parent) => true,
        (PathPart::Normal(x), PathPart::Normal(y)) => crate::text::str_eq(x.as_str(), y.as_str()),
        _ => false,
    }
}

/// What is left of `path` after the components of `base`, when they begin it,
/// as `Path::strip_prefix` compares them.
pub open spec fn strip_parts(path: Seq<PartView>, base: Seq<PartView>) -> Option<Seq<PartView>> {
    if base.len() <= path.len() && path.subrange(0, base.len() as int) == base {
        Some(path.subrange(base.len() as int, path.len() as int))
    } else {
        None
    }
}

/// Whether the components of `base` begin `path`; the position after them.
pub fn strip_prefix_parts(path: &Vec<PathPart>, base: &Vec<PathPart>) -> (r: Option<usize>)
    ensures
        match r {
            Some(k) => k == base@.len() && strip_parts(part_views(path@), part_views(base@)) == Some(
                part_views(path@).subrange(k as int, path@.len() as int),
            ),
            None => strip_parts(part_views(path@), part_views(base@)) is None,
        },
{
    if base.len() > path.len() {
        return None;
    }
    let mut i: usize = 0;
    while i < base.len()
        invariant
            base@.len() <= path@.len(),
            i <= base@.len(),
            forall|j: int| 0 <= j < i ==> path@[j]@ == base@[j]@,
        decreases base@.len() - i,
    {
        if !same_part(&path[i], &base[i]) {
            proof {
                assert(part_views(path@).subrange(0, base@.len() as int)[i as int] != part_views(base@)[i as int]);
            }
            return None;
        }
        i = i + 1;
    }
    assert(part_views(path@).subrange(0, base@.len() as int) =~= part_views(base@));
    Some(base.len())
}

/// The extension of a file name: what follows its last `.`, when that dot is
/// not its first character.
pub open spec fn extension_of(name: Seq<char>) -> Option<Seq<char>> {
    if exists|i: int| 0 < i < name.len() && name[i] == '.' {
        let i = choose|i: int|
            0 < i < name.len() && name[i] == '.' && forall|j: int| i < j < name.len() ==> name[j] != '.';
        Some(name.subrange(i + 1, name.len() as int))
    } else {
        None
    }
}

/// The file name of a path: its last component, when that is a name.
pub open spec fn file_name(path: Seq<char>) -> Option<Seq<char>> {
    let parts = path_components(path);
    if parts.len() > 0 && parts.last() is Normal {
        Some(parts.last()->Normal_0)
    } else {
        None
    }
}

/// Whether a path's file name has the given extension.
pub open spec fn has_extension(path: Seq<char>, ext: Seq<char>) -> bool {
    match file_name(path) {
        Some(name) => extension_of(name) == Some(ext),
        None => false,
    }
}

/// The extension of a file name.
pub fn extension(name: &Vec<char>) -> (r: Option<Vec<char>>)
    ensures
        match r {
            Some(e) => extension_of(name@) == Some(e@),
            None => extension_of(name@) is None,
        },
{
    let mut i: usize = name.len();
    while i > 0
        invariant
            i <= name@.len(),
            forall|j: int| i <= j < name@.len() ==> name@[j] != '.',
        decreases i,
    {
        if name[i - 1] == '.' {
            let k = i - 1;
            if k == 0 {
                proof {
                    assert(!exists|m: int| 0 < m < name@.len() && name@[m] == '.');
                }
                return None;
            }
            proof {
                let c = choose|m: int|
                    0 < m < name@.len() && name@[m] == '.' && forall|j: int| m < j < name@.len() ==> name@[j] != '.';
                if c != k {
                    if c < k {
                        assert(name@[k as int] != '.');
                    } else {
                        assert(name@[c] != '.');
                    }
                }
            }
            return Some(slice_chars(name, k + 1, name.len()));
        }
        i = i - 1;
    }
    None
}

/// Whether a path's file name has the given extension, as
/// `path.extension() == Some(ext)` reads it.
pub fn path_has_extension(path: &str, ext: &str) -> (r: bool)
    ensures
        r == has_extension(path@, ext@),
{
    let parts = components(path);
    let n = parts.len();
    if n == 0 {
        return false;
    }
    proof {
        assert(part_views(parts@).last() == parts@[n - 1]@);
    }
    match &parts[n - 1] {
        PathPart::Normal(name) => {
            let cs = chars_of(name.as_str());
            match extension(&cs) {
                Some(e) => {
                    let want = chars_of(ext);
                    chars_eq(&e, &want)
                },
                None => false,
            }
        },
        _ => false,
    }
}

/// `base` joined with `path`, as `Path::join` writes it: an absolute `path`
/// replaces `base`; otherwise a separator goes between them unless `base` is
/// empty or already ends in one.
pub open spec fn join_path(base: Seq<char>, path: Seq<char>) -> Seq<char> {
    if is_absolute(path) {
        path
    } else if base.len() == 0 || base.last() == '/' {
        base + path
    } else {
        base.push('/') + path
    }
}

/// `base` joined with `path`.
pub fn join(base: &str, path: &str) -> (r: String)
    ensures
        r@ == join_path(base@, path@),
{
    let p = chars_of(path);
    if p.len() > 0 && p[0] == '/' {
        return path.to_owned();
    }
    let mut b = chars_of(base);
    if b.len() > 0 && b[b.len() - 1] != '/' {
        b.push('/');
    }
    let mut i: usize = 0;
    let ghost start = b@;
    while i < p.len()
        invariant
            i <= p@.len(),
            b@ == start + p@.subrange(0, i as int),
        decreases p@.len() - i,
    {
        b.push(p[i]);
        i = i + 1;
    }
    assert(p@.subrange(0, p@.len() as int) =~= p@);
    string_of(&b)
}

/// The text a component stands for in a path key: nothing for the root,
/// `.` and `..` for the current and parent directory, a name for itself.
pub open spec fn part_token(c: PartView) -> Seq<char> {
    match c {
        PartView::Root => Seq::empty(),
        PartView::Current => seq!['.'],
        PartView::Parent => seq!['.', '.'],
        PartView::Normal(n) => n,
    }
}

/// The key of a sequence of components: each component's text followed by
/// `/`. Two paths with the same components have the same key.
pub open spec fn encode_parts(p: Seq<PartView>) -> Seq<char>
    decreases p.len(),
{
    if p.len() == 0 {
        Seq::empty()
    } else {
        encode_parts(p.drop_last()) + part_token(p.last()).push('/')
    }
}

/// Whether a component is one that `path_components` gives: a name is
/// non-empty, holds no `/`, and is neither `.` nor `..`.
pub open spec fn valid_part(c: PartView) -> bool {
    match c {
        PartView::Normal(n) => n.len() > 0 && !n.contains('/') && n != seq!['.'] && n != seq!['.', '.'],
        _ => true,
    }
}

/// Whether every component is one that `path_components` gives.
pub open spec fn valid_parts(p: Seq<PartView>) -> bool {
    forall|i: int| 0 <= i < p.len() ==> valid_part(#[trigger] p[i])
}

proof fn lemma_piece_parts_valid(pieces: Seq<Seq<char>>)
    requires
        forall|i: int| 0 <= i < pieces.len() ==> (#[trigger] pieces[i]).len() > 0 && !pieces[i].contains('/'),
    ensures
        valid_parts(piece_parts(pieces)),
    decreases pieces.len(),
{
    if pieces.len() > 0 {
        let init = pieces.drop_last();
        assert forall|i: int| 0 <= i < init.len() implies (#[trigger] init[i]).len() > 0 && !init[i].contains('/') by {
            assert(init[i] == pieces[i]);
        }
        lemma_piece_parts_valid(init);
        let last = pieces[pieces.len() - 1];
        assert(last == pieces.last());
        let r = piece_parts(pieces);
        if pieces.last() != seq!['.'] {
            let prev = piece_parts(init);
            assert forall|i: int| 0 <= i < r.len() implies valid_part(#[trigger] r[i]) by {
                if i < prev.len() {
                    assert(r[i] == prev[i]);
                }
            }
        }
    }
}

/// The components of any path are components that `path_components` gives.
pub proof fn lemma_path_components_valid(s: Seq<char>)
    ensures
        valid_parts(path_components(s)),
{
    crate::laws::lemma_segments_within(s);
    let segs = segments(s);
    assert forall|i: int| 0 <= i < segs.len() implies (#[trigger] segs[i]).len() > 0 && !segs[i].contains('/') by {
        if segs[i].contains('/') {
            let j = choose|j: int| 0 <= j < segs[i].len() && segs[i][j] == '/';
            assert(crate::laws::free_of(segs[i], '/'));
        }
    }
    lemma_piece_parts_valid(segs);
    let lead = leading_part(s);
    let pp = piece_parts(segs);
    let all = path_components(s);
    assert forall|i: int| 0 <= i < all.len() implies valid_part(#[trigger] all[i]) by {
        if i >= lead.len() {
            assert(all[i] == pp[i - lead.len()]);
        }
    }
}

proof fn lemma_token_free_of_slash(c: PartView)
    requires
        valid_part(c),
    ensures
        !part_token(c).contains('/'),
{
    match c {
        PartView::Current => {
            assert(seq!['.'][0] == '.');
        },
        PartView::Parent => {
            assert(seq!['.', '.'][0] == '.');
            assert(seq!['.', '.'][1] == '.');
        },
        _ => {},
    }
}

proof fn lemma_encode_shape(p: Seq<PartView>)
    ensures
        encode_parts(p).len() == 0 <==> p.len() == 0,
        p.len() > 0 ==> encode_parts(p).last() == '/',
{
}

proof fn lemma_split_last_token(e1: Seq<char>, t1: Seq<char>, e2: Seq<char>, t2: Seq<char>)
    requires
        e1 + t1.push('/') == e2 + t2.push('/'),
        e1.len() == 0 || e1.last() == '/',
        e2.len() == 0 || e2.last() == '/',
        !t1.contains('/'),
        !t2.contains('/'),
    ensures
        e1 == e2,
        t1 == t2,
{
    let x1 = e1 + t1.push('/');
    let x2 = e2 + t2.push('/');
    assert(x1.drop_last() =~= e1 + t1);
    assert(x2.drop_last() =~= e2 + t2);
    let x = e1 + t1;
    assert(x == e2 + t2);
    if t1.len() < t2.len() {
        assert(e1.len() > e2.len());
        let k = e1.len() - 1;
        assert(x[k] == e1[k]);
        assert(x[k] == t2[k - e2.len()]);
        assert(t2.contains(t2[k - e2.len()]));
    } else if t2.len() < t1.len() {
        assert(e2.len() > e1.len());
        let k = e2.len() - 1;
        assert(x[k] == e2[k]);
        assert(x[k] == t1[k - e1.len()]);
        assert(t1.contains(t1[k - e1.len()]));
    }
    assert(e1 =~= x.subrange(0, e1.len() as int));
    assert(e2 =~= x.subrange(0, e2.len() as int));
    assert(t1 =~= x.subrange(e1.len() as int, x.len() as int));
    assert(t2 =~= x.subrange(e2.len() as int, x.len() as int));
}

/// Different sequences of components that `path_components` gives have
/// different keys.
pub proof fn lemma_encode_injective(p: Seq<PartView>, q: Seq<PartView>)
    requires
        valid_parts(p),
        valid_parts(q),
        encode_parts(p) == encode_parts(q),
    ensures
        p == q,
    decreases p.len(),
{
    lemma_encode_shape(p);
    lemma_encode_shape(q);
    if p.len() > 0 {
        let (pi, qi) = (p.drop_last(), q.drop_last());
        assert(valid_part(p[p.len() - 1]));
        assert(valid_part(q[q.len() - 1]));
        assert(p.last() == p[p.len() - 1]);
        assert(q.last() == q[q.len() - 1]);
        lemma_token_free_of_slash(p.last());
        lemma_token_free_of_slash(q.last());
        lemma_encode_shape(pi);
        lemma_encode_shape(qi);
        lemma_split_last_token(encode_parts(pi), part_token(p.last()), encode_parts(qi), part_token(q.last()));
        assert forall|i: int| 0 <= i < pi.len() implies valid_part(#[trigger] pi[i]) by {
            assert(pi[i] == p[i]);
        }
        assert forall|i: int| 0 <= i < qi.len() implies valid_part(#[trigger] qi[i]) by {
            assert(qi[i] == q[i]);
        }
        lemma_encode_injective(pi, qi);
        match p.last() {
            PartView::Normal(n) => {
                match q.last() {
                    PartView::Current => { assert(n == seq!['.']); },
                    PartView::Parent => { assert(n == seq!['.', '.']); },
                    _ => {},
                }
            },
            _ => {},
        }
        assert(p =~= pi.push(p.last()));
        assert(q =~= qi.push(q.last()));
    }
}

/// The key of a path: the text of each of its components followed by `/`.
/// Paths that differ only in repeated separators, `.` components after the
/// first or a trailing separator have the same key.
pub fn path_key(path: &str) -> (r: String)
    ensures
        r@ == encode_parts(path_components(path@)),
{
    let parts = components(path);
    let mut out: Vec<char> = Vec::new();
    let mut i: usize = 0;
    assert(part_views(parts@).subrange(0, 0) =~= Seq::<PartView>::empty());
    while i < parts.len()
        invariant
            i <= parts@.len(),
            out@ == encode_parts(part_views(parts@).subrange(0, i as int)),
        decreases parts@.len() - i,
    {
        let ghost before = out@;
        match &parts[i] {
            PathPart::Root => {},
            PathPart::Current => {
                out.push('.');
            },
            PathPart::Parent => {
                out.push('.');
                out.push('.');
            },
            PathPart::Normal(n) => {
                let cs = chars_of(n.as_str());
                let mut j: usize = 0;
                while j < cs.len()
                    invariant
                        j <= cs@.len(),
                        out@ == before + cs@.subrange(0, j as int),
                    decreases cs@.len() - j,
                {
                    out.push(cs[j]);
                    j = j + 1;
                }
                assert(cs@.subrange(0, cs@.len() as int) =~= cs@);
            },
        }
        out.push('/');
        proof {
            let pv = part_views(parts@).subrange(0, i + 1);
            assert(pv.drop_last() =~= part_views(parts@).subrange(0, i as int));
            assert(pv.last() == parts@[i as int]@);
            assert(out@ =~= before + part_token(parts@[i as int]@).push('/'));
        }
        i = i + 1;
    }
    assert(part_views(parts@).subrange(0, parts@.len() as int) =~= part_views(parts@));
    string_of(&out)
}

} // verus!
