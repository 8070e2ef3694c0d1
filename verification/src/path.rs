//! Repository paths as sequences of components.
//!
//! Paths here are the `/`-separated relative paths of files inside a
//! repository.  `components` follows what `std::path::Path::components`
//! yields for such a path on Unix: a leading `/` gives a root, repeated
//! separators and `.` pieces vanish except for one leading `.`, and `..`
//! is a parent step.  The other operations are stated over these
//! component sequences.
use vstd::prelude::*;

verus! {

/// One component of a path.
pub enum PathPart {
    RootDir,
    CurDir,
    ParentDir,
    Normal(Seq<char>),
}

/// One component of a path, held in executable form.
pub enum Component {
    RootDir,
    CurDir,
    ParentDir,
    Normal(Vec<char>),
}

impl View for Component {
    type V = PathPart;

    open spec fn view(&self) -> PathPart {
        match self {
            Component::RootDir => PathPart::RootDir,
            Component::CurDir => PathPart::CurDir,
            Component::ParentDir => PathPart::ParentDir,
            Component::Normal(v) => PathPart::Normal(v@),
        }
    }
}

/// The views of a sequence of components.
pub open spec fn parts_of(v: Seq<Component>) -> Seq<PathPart> {
    v.map_values(|c: Component| c@)
}

/// The views of a sequence of character vectors.
pub open spec fn texts_of(v: Seq<Vec<char>>) -> Seq<Seq<char>> {
    v.map_values(|x: Vec<char>| x@)
}

/// The pieces of `s` between the occurrences of `sep` (there is always at least one).
pub open spec fn split_on(s: Seq<char>, sep: char) -> Seq<Seq<char>>
    decreases s.len(),
{
    if s.len() == 0 {
        seq![Seq::<char>::empty()]
    } else {
        let p = split_on(s.drop_last(), sep);
        if s.last() == sep {
            p.push(Seq::<char>::empty())
        } else {
            p.update(p.len() - 1, p.last().push(s.last()))
        }
    }
}

pub proof fn lemma_split_nonempty(s: Seq<char>, sep: char)
    ensures
        split_on(s, sep).len() >= 1,
    decreases s.len(),
{
    if s.len() > 0 {
        lemma_split_nonempty(s.drop_last(), sep);
    }
}

/// The component that a piece between separators stands for, if any.
pub open spec fn piece_part(p: Seq<char>) -> Seq<PathPart> {
    if p.len() == 0 || p == seq!['.'] {
        Seq::empty()
    } else if p == seq!['.', '.'] {
        seq![PathPart::ParentDir]
    } else {
        seq![PathPart::Normal(p)]
    }
}

/// The components that a run of pieces (not the first of the path) stands for.
pub open spec fn tail_parts(ps: Seq<Seq<char>>) -> Seq<PathPart>
    decreases ps.len(),
{
    if ps.len() == 0 {
        Seq::empty()
    } else {
        tail_parts(ps.drop_last()) + piece_part(ps.last())
    }
}

/// The components of the path `s`.
pub open spec fn components(s: Seq<char>) -> Seq<PathPart> {
    let ps = split_on(s, '/');
    let head = if s.len() > 0 && s[0] == '/' {
        seq![PathPart::RootDir]
    } else if ps[0] == seq!['.'] {
        seq![PathPart::CurDir]
    } else {
        piece_part(ps[0])
    };
    head + tail_parts(ps.skip(1))
}

/// The components of the parent of a path with components `c`
/// (`None` where the path has no parent: it is empty or a root).
pub open spec fn parent_parts(c: Seq<PathPart>) -> Option<Seq<PathPart>> {
    if c.len() == 0 || c.last() is RootDir {
        None
    } else {
        Some(c.drop_last())
    }
}

/// The components of `base` joined with the path `s`: an absolute `s`
/// replaces `base`.
pub open spec fn joined_parts(base: Seq<PathPart>, s: Seq<char>) -> Seq<PathPart> {
    if s.len() > 0 && s[0] == '/' {
        components(s)
    } else {
        base + components(s)
    }
}

/// The names that a component sequence resolves to inside the repository:
/// `.` is dropped, `..` removes the name before it, and a root, or a `..`
/// with nothing before it, leaves the repository (`None`).
pub open spec fn normalize_parts(c: Seq<PathPart>) -> Option<Seq<Seq<char>>>
    decreases c.len(),
{
    if c.len() == 0 {
        Some(Seq::empty())
    } else {
        match normalize_parts(c.drop_last()) {
            None => None,
            Some(st) => match c.last() {
                PathPart::RootDir => None,
                PathPart::CurDir => Some(st),
                PathPart::ParentDir => if st.len() == 0 {
                    None
                } else {
                    Some(st.drop_last())
                },
                PathPart::Normal(x) => Some(st.push(x)),
            },
        }
    }
}

/// The names joined by `/`.
pub open spec fn join_names(names: Seq<Seq<char>>) -> Seq<char>
    decreases names.len(),
{
    if names.len() == 0 {
        Seq::empty()
    } else if names.len() == 1 {
        names[0]
    } else {
        join_names(names.drop_last()) + seq!['/'] + names.last()
    }
}

/// The pieces of `cs` between the `/` separators.
pub fn split_slashes(cs: &[char]) -> (r: Vec<Vec<char>>)
    ensures
        texts_of(r@) == split_on(cs@, '/'),
{
    let mut done: Vec<Vec<char>> = Vec::new();
    let mut cur: Vec<char> = Vec::new();
    let n = cs.len();
    assert(cs@.take(0) =~= Seq::<char>::empty());
    assert(texts_of(done@).push(cur@) =~= split_on(cs@.take(0), '/'));
    for i in 0..n
        invariant
            n == cs@.len(),
            texts_of(done@).push(cur@) == split_on(cs@.take(i as int), '/'),
    {
        let c = cs[i];
        let ghost prev = cs@.take(i as int);
        assert(cs@.take(i + 1).drop_last() == prev);
        assert(cs@.take(i + 1).last() == c);
        let ghost before = texts_of(done@).push(cur@);
        if c == '/' {
            done.push(cur);
            cur = Vec::new();
            assert(texts_of(done@) =~= before);
            assert(texts_of(done@).push(cur@) =~= before.push(Seq::<char>::empty()));
        } else {
            cur.push(c);
            assert(texts_of(done@).push(cur@) =~= split_on(prev, '/').update(
                split_on(prev, '/').len() - 1,
                split_on(prev, '/').last().push(c),
            ));
        }
    }
    assert(cs@.take(n as int) == cs@);
    done.push(cur);
    assert(texts_of(done@) =~= split_on(cs@, '/'));
    done
}

/// A fresh vector holding the characters of `cs`.
pub fn copy_chars(cs: &[char]) -> (r: Vec<char>)
    ensures
        r@ == cs@,
{
    let mut out: Vec<char> = Vec::new();
    let n = cs.len();
    for i in 0..n
        invariant
            n == cs@.len(),
            out@ == cs@.take(i as int),
    {
        out.push(cs[i]);
        assert(cs@.take(i + 1) == cs@.take(i as int).push(cs@[i as int]));
    }
    assert(cs@.take(n as int) == cs@);
    out
}

/// The component, if any, that one piece between separators stands for.
fn piece_component(p: &[char]) -> (r: Option<Component>)
    ensures
        match r {
            None => piece_part(p@) == Seq::<PathPart>::empty(),
            Some(c) => piece_part(p@) == seq![c@],
        },
{
    if p.len() == 0 {
        return None;
    }
    if p.len() == 1 && p[0] == '.' {
        assert(p@ =~= seq!['.']);
        return None;
    }
    if p.len() == 2 && p[0] == '.' && p[1] == '.' {
        assert(p@ =~= seq!['.', '.']);
        return Some(Component::ParentDir);
    }
    assert(p@ != seq!['.']) by {
        if p@ == seq!['.'] {
            assert(p@.len() == 1 && p@[0] == '.');
        }
    }
    assert(p@ != seq!['.', '.']) by {
        if p@ == seq!['.', '.'] {
            assert(p@.len() == 2 && p@[0] == '.' && p@[1] == '.');
        }
    }
    Some(Component::Normal(copy_chars(p)))
}

/// The components of the path `cs`, as `Path::components` yields them.
pub fn path_components(cs: &[char]) -> (r: Vec<Component>)
    ensures
        parts_of(r@) == components(cs@),
{
    let pieces = split_slashes(cs);
    proof {
        lemma_split_nonempty(cs@, '/');
    }
    let ghost ps = split_on(cs@, '/');
    let mut out: Vec<Component> = Vec::new();
    let first = &pieces[0];
    assert(first@ == ps[0]);
    if cs.len() > 0 && cs[0] == '/' {
        out.push(Component::RootDir);
    } else if first.len() == 1 && first[0] == '.' {
        assert(first@ =~= seq!['.']);
        out.push(Component::CurDir);
    } else {
        assert(ps[0] != seq!['.']) by {
            if ps[0] == seq!['.'] {
                assert(first@.len() == 1 && first@[0] == '.');
            }
        }
        match piece_component(first.as_slice()) {
            Some(c) => {
                out.push(c);
            },
            None => {},
        }
    }
    let ghost head = parts_of(out@);
    assert(head == (if cs@.len() > 0 && cs@[0] == '/' {
        seq![PathPart::RootDir]
    } else if ps[0] == seq!['.'] {
        seq![PathPart::CurDir]
    } else {
        piece_part(ps[0])
    })) by {
        assert(parts_of(out@) =~= head);
    }
    let n = pieces.len();
    assert(ps.skip(1).take(0) =~= Seq::<Seq<char>>::empty());
    assert(parts_of(out@) =~= head + tail_parts(ps.skip(1).take(0)));
    for j in 1..n
        invariant
            n == pieces@.len(),
            n == ps.len(),
            texts_of(pieces@) == ps,
            parts_of(out@) == head + tail_parts(ps.skip(1).take(j - 1)),
    {
        let piece = &pieces[j];
        assert(piece@ == ps[j as int]);
        let ghost before = parts_of(out@);
        assert(ps.skip(1).take(j as int).drop_last() =~= ps.skip(1).take(j - 1));
        assert(ps.skip(1).take(j as int).last() == ps[j as int]);
        match piece_component(piece.as_slice()) {
            Some(c) => {
                out.push(c);
                assert(parts_of(out@) =~= before + piece_part(ps[j as int]));
            },
            None => {
                assert(before + piece_part(ps[j as int]) =~= before);
            },
        }
        assert(head + tail_parts(ps.skip(1).take(j as int)) =~= before + piece_part(ps[j as int]));
    }
    assert(ps.skip(1).take(n - 1) =~= ps.skip(1));
    out
}

/// Once the resolution of a prefix leaves the repository, so does the whole.
pub proof fn lemma_normalize_none_extends(c: Seq<PathPart>, i: int)
    requires
        0 <= i <= c.len(),
        normalize_parts(c.take(i)) is None,
    ensures
        normalize_parts(c) is None,
    decreases c.len(),
{
    if c.len() > i {
        assert(c.drop_last().take(i) == c.take(i));
        lemma_normalize_none_extends(c.drop_last(), i);
    } else {
        assert(c.take(i) == c);
    }
}

/// The names that the components `c` resolve to, as `normalize_parts` says.
pub fn normalize_components(c: &[Component]) -> (r: Option<Vec<Vec<char>>>)
    ensures
        match r {
            None => normalize_parts(parts_of(c@)) is None,
            Some(v) => normalize_parts(parts_of(c@)) == Some(texts_of(v@)),
        },
{
    let mut st: Vec<Vec<char>> = Vec::new();
    let n = c.len();
    let ghost pc = parts_of(c@);
    assert(pc.take(0) =~= Seq::<PathPart>::empty());
    assert(texts_of(st@) =~= Seq::<Seq<char>>::empty());
    for i in 0..n
        invariant
            n == c@.len(),
            pc == parts_of(c@),
            normalize_parts(pc.take(i as int)) == Some(texts_of(st@)),
    {
        assert(pc.take(i + 1).drop_last() =~= pc.take(i as int));
        assert(pc.take(i + 1).last() == c@[i as int]@);
        match &c[i] {
            Component::RootDir => {
                proof {
                    lemma_normalize_none_extends(pc, i + 1);
                }
                return None;
            },
            Component::CurDir => {},
            Component::ParentDir => {
                if st.len() == 0 {
                    proof {
                        lemma_normalize_none_extends(pc, i + 1);
                    }
                    return None;
                }
                let ghost before = texts_of(st@);
                st.pop();
                assert(texts_of(st@) =~= before.drop_last());
            },
            Component::Normal(x) => {
                let ghost before = texts_of(st@);
                st.push(copy_chars(x.as_slice()));
                assert(texts_of(st@) =~= before.push(x@));
            },
        }
    }
    assert(pc.take(n as int) =~= pc);
    Some(st)
}

/// The names joined by `/`.
pub fn join_with_slashes(names: &[Vec<char>]) -> (r: Vec<char>)
    ensures
        r@ == join_names(texts_of(names@)),
{
    let mut out: Vec<char> = Vec::new();
    let n = names.len();
    let ghost t = texts_of(names@);
    assert(t.take(0) =~= Seq::<Seq<char>>::empty());
    for i in 0..n
        invariant
            n == names@.len(),
            t == texts_of(names@),
            out@ == join_names(t.take(i as int)),
    {
        let name = &names[i];
        assert(name@ == t[i as int]);
        if i > 0 {
            out.push('/');
        }
        let m = name.len();
        let ghost start = out@;
        for k in 0..m
            invariant
                m == name@.len(),
                out@ == start + name@.take(k as int),
        {
            out.push(name[k]);
            assert(name@.take(k + 1) == name@.take(k as int).push(name@[k as int]));
        }
        assert(name@.take(m as int) == name@);
        assert(t.take(i + 1).drop_last() =~= t.take(i as int));
        assert(t.take(i + 1).last() == t[i as int]);
        if i == 0 {
            assert(out@ =~= join_names(t.take(1)));
        } else {
            assert(out@ =~= join_names(t.take(i + 1)));
        }
    }
    assert(t.take(n as int) =~= t);
    out
}

} // verus!
