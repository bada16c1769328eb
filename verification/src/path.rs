//! Relative paths of index directories: splitting into components and resolving them against
//! the directory of the entry that names them.

use vstd::prelude::*;
use crate::text::{push_str, push_char, chars_of};

verus! {

/// A path component (as `std::path::Component` reports them on Unix).
pub enum Component {
    RootDir,
    CurDir,
    ParentDir,
    Normal(Seq<char>),
}

/// The pieces of a path between `/` separators (at least one, possibly empty).
pub open spec fn split_slash(p: Seq<char>) -> Seq<Seq<char>>
    decreases p.len(),
{
    if p.len() == 0 {
        seq![Seq::empty()]
    } else {
        let prev = split_slash(p.drop_last());
        if p.last() == '/' {
            prev.push(Seq::empty())
        } else {
            prev.update(prev.len() - 1, prev.last().push(p.last()))
        }
    }
}

/// `split_slash` yields at least one piece.
pub proof fn lemma_split_slash_nonempty(p: Seq<char>)
    ensures
        split_slash(p).len() >= 1,
    decreases p.len(),
{
    if p.len() > 0 {
        lemma_split_slash_nonempty(p.drop_last());
    }
}

/// The component a piece stands for: empty pieces and `.` (except a leading `.` of a relative
/// path) stand for none, `..` is the parent, anything else a normal component.
pub open spec fn piece_component(piece: Seq<char>, first: bool, absolute: bool) -> Option<
    Component,
> {
    if piece.len() == 0 {
        None
    } else if piece == seq!['.'] {
        if first && !absolute {
            Some(Component::CurDir)
        } else {
            None
        }
    } else if piece == seq!['.', '.'] {
        Some(Component::ParentDir)
    } else {
        Some(Component::Normal(piece))
    }
}

/// The components of the first `k` pieces, after the root of an absolute path.
pub open spec fn components_upto(pieces: Seq<Seq<char>>, k: int, absolute: bool) -> Seq<Component>
    decreases k,
{
    if k <= 0 {
        if absolute {
            seq![Component::RootDir]
        } else {
            Seq::empty()
        }
    } else {
        let prev = components_upto(pieces, k - 1, absolute);
        match piece_component(pieces[k - 1], k - 1 == 0, absolute) {
            Some(c) => prev.push(c),
            None => prev,
        }
    }
}

/// A path starting with `/` is absolute.
pub open spec fn is_absolute_path(p: Seq<char>) -> bool {
    p.len() > 0 && p[0] == '/'
}

/// The components of a path: repeated and trailing separators are ignored, `.` is dropped
/// except at the start of a relative path.
pub open spec fn components(p: Seq<char>) -> Seq<Component> {
    components_upto(split_slash(p), split_slash(p).len() as int, is_absolute_path(p))
}

/// Why normalizing components failed.
pub enum NormalizeError {
    /// A root component was met.
    Absolute,
    /// A `..` went above the start.
    AboveStart,
}

/// Normalizes components into a stack of names: `.` is skipped, `..` pops, a root fails.
pub open spec fn normalize(cs: Seq<Component>) -> Result<Seq<Seq<char>>, NormalizeError>
    decreases cs.len(),
{
    if cs.len() == 0 {
        Ok(Seq::empty())
    } else {
        match normalize(cs.drop_last()) {
            Err(e) => Err(e),
            Ok(st) => match cs.last() {
                Component::RootDir => Err(NormalizeError::Absolute),
                Component::CurDir => Ok(st),
                Component::ParentDir => if st.len() == 0 {
                    Err(NormalizeError::AboveStart)
                } else {
                    Ok(st.drop_last())
                },
                Component::Normal(c) => Ok(st.push(c)),
            },
        }
    }
}

/// Names joined with `/`.
pub open spec fn join_names(st: Seq<Seq<char>>) -> Seq<char>
    decreases st.len(),
{
    if st.len() == 0 {
        Seq::empty()
    } else if st.len() == 1 {
        st[0]
    } else {
        join_names(st.drop_last()) + seq!['/'] + st.last()
    }
}

/// A relative path appended to a directory (`PathBuf::join`).
pub open spec fn join_path(base: Seq<char>, path: Seq<char>) -> Seq<char> {
    if base.len() == 0 {
        path
    } else if base.last() == '/' {
        base + path
    } else {
        base + seq!['/'] + path
    }
}

/// `index for {base} specifies an absolute directory`
pub open spec fn absolute_message(base: Seq<char>) -> Seq<char> {
    "index for "@ + base + " specifies an absolute directory"@
}

/// `index for {base} specifies an empty directory`
pub open spec fn empty_message(base: Seq<char>) -> Seq<char> {
    "index for "@ + base + " specifies an empty directory"@
}

/// `index for {base} specifies an invalid relative path: {resolved}`
pub open spec fn invalid_message(base: Seq<char>, resolved: Seq<char>) -> Seq<char> {
    "index for "@ + base + " specifies an invalid relative path: "@ + resolved
}

/// How an index directory is resolved for the entry in directory `base`: a path starting with
/// `.` or `..` is relative to `base`, any other relative path to the site root; the result is
/// normalized. Absolute paths, empty results and paths leaving the site root are refused.
pub open spec fn spec_resolve_path(base: Seq<char>, path: Seq<char>) -> Result<Seq<char>, Seq<char>> {
    let cs = components(path);
    if cs.len() == 0 {
        Err(empty_message(base))
    } else if cs[0] is RootDir {
        Err(absolute_message(base))
    } else {
        let resolved = if cs[0] is CurDir || cs[0] is ParentDir {
            join_path(base, path)
        } else {
            path
        };
        match normalize(components(resolved)) {
            Err(NormalizeError::Absolute) => Err(absolute_message(base)),
            Err(NormalizeError::AboveStart) => Err(invalid_message(base, resolved)),
            Ok(st) => if st.len() == 0 {
                Err(empty_message(base))
            } else {
                Ok(join_names(st))
            },
        }
    }
}

/// A plain name: a non-empty piece without `/` that is neither `.` nor `..`.
pub open spec fn is_plain_name(n: Seq<char>) -> bool {
    &&& n.len() > 0
    &&& n != seq!['.']
    &&& n != seq!['.', '.']
    &&& forall|j: int| 0 <= j < n.len() ==> n[j] != '/'
}

/// No piece of a split holds a `/`.
proof fn lemma_split_pieces_have_no_slash(p: Seq<char>)
    ensures
        forall|i: int, j: int|
            0 <= i < split_slash(p).len() && 0 <= j < split_slash(p)[i].len() ==> #[trigger] split_slash(
                p,
            )[i][j] != '/',
    decreases p.len(),
{
    lemma_split_slash_nonempty(p);
    if p.len() > 0 {
        let prev = split_slash(p.drop_last());
        lemma_split_pieces_have_no_slash(p.drop_last());
        lemma_split_slash_nonempty(p.drop_last());
        if p.last() != '/' {
            let sp = split_slash(p);
            assert forall|i: int, j: int|
                0 <= i < sp.len() && 0 <= j < sp[i].len() implies #[trigger] sp[i][j] != '/' by {
                if i < prev.len() - 1 {
                    assert(sp[i] == prev[i]);
                } else {
                    assert(sp[i] == prev.last().push(p.last()));
                    if j < prev.last().len() {
                        assert(sp[i][j] == prev[prev.len() - 1][j]);
                    }
                }
            }
        }
    }
}

/// Every normal component of a path is a plain name.
proof fn lemma_components_plain(pieces: Seq<Seq<char>>, k: int, absolute: bool)
    requires
        0 <= k <= pieces.len(),
        forall|i: int, j: int|
            0 <= i < pieces.len() && 0 <= j < pieces[i].len() ==> #[trigger] pieces[i][j] != '/',
    ensures
        forall|i: int|
            0 <= i < components_upto(pieces, k, absolute).len() ==> (#[trigger] components_upto(
                pieces,
                k,
                absolute,
            )[i] matches Component::Normal(n) ==> is_plain_name(n)),
    decreases k,
{
    if k > 0 {
        lemma_components_plain(pieces, k - 1, absolute);
        let piece = pieces[k - 1];
        assert forall|j: int| 0 <= j < piece.len() implies piece[j] != '/' by {
            assert(pieces[k - 1][j] != '/');
        }
    }
}

/// Normalizing keeps only the names of normal components.
proof fn lemma_normalize_plain(cs: Seq<Component>)
    requires
        forall|i: int| 0 <= i < cs.len() ==> (#[trigger] cs[i] matches Component::Normal(n) ==> is_plain_name(n)),
        normalize(cs) is Ok,
    ensures
        forall|i: int| 0 <= i < (normalize(cs)->Ok_0).len() ==> is_plain_name(#[trigger] (normalize(cs)->Ok_0)[i]),
    decreases cs.len(),
{
    if cs.len() > 0 {
        lemma_normalize_plain(cs.drop_last());
        assert(cs.last() == cs[cs.len() - 1]);
    }
}

/// A name without `/` is a single piece.
proof fn lemma_split_plain(y: Seq<char>)
    requires
        forall|j: int| 0 <= j < y.len() ==> y[j] != '/',
    ensures
        split_slash(y) == seq![y],
    decreases y.len(),
{
    if y.len() > 0 {
        lemma_split_plain(y.drop_last());
        let prev = split_slash(y.drop_last());
        assert(y.last() == y[y.len() - 1]);
        assert(y.drop_last().push(y.last()) =~= y);
        assert(prev.update(prev.len() - 1, prev.last().push(y.last())) =~= seq![y]);
    } else {
        assert(y =~= Seq::<char>::empty());
    }
}

/// Splitting `a/y`, where `y` has no `/`, gives the pieces of `a` and then `y`.
proof fn lemma_split_after_slash(a: Seq<char>, y: Seq<char>)
    requires
        forall|j: int| 0 <= j < y.len() ==> y[j] != '/',
    ensures
        split_slash(a + seq!['/'] + y) == split_slash(a).push(y),
    decreases y.len(),
{
    let x = a + seq!['/'] + y;
    if y.len() == 0 {
        assert(x.drop_last() =~= a);
        assert(x.last() == '/');
        assert(y =~= Seq::<char>::empty());
        assert(split_slash(x) =~= split_slash(a).push(y));
    } else {
        lemma_split_after_slash(a, y.drop_last());
        assert(x.drop_last() =~= a + seq!['/'] + y.drop_last());
        assert(x.last() == y[y.len() - 1]);
        assert(y.drop_last().push(y.last()) =~= y);
        let prev = split_slash(x.drop_last());
        assert(prev == split_slash(a).push(y.drop_last()));
        assert(prev.update(prev.len() - 1, prev.last().push(x.last())) =~= split_slash(a).push(y));
    }
}

/// Joining names without `/` and splitting again gives the names back.
proof fn lemma_split_join(st: Seq<Seq<char>>)
    requires
        st.len() > 0,
        forall|i: int| 0 <= i < st.len() ==> is_plain_name(#[trigger] st[i]),
    ensures
        split_slash(join_names(st)) == st,
    decreases st.len(),
{
    if st.len() == 1 {
        lemma_split_plain(st[0]);
        assert(seq![st[0]] =~= st);
    } else {
        lemma_split_join(st.drop_last());
        assert(is_plain_name(st[st.len() - 1]));
        lemma_split_after_slash(join_names(st.drop_last()), st.last());
        assert(st.drop_last().push(st.last()) =~= st);
    }
}

/// An index directory resolves to a normalized path relative to the site root: its pieces
/// between `/` are all plain names (no empty piece, no `.`, no `..`), so it neither starts nor
/// ends with `/`.
pub proof fn resolved_path_is_normalized(base: Seq<char>, path: Seq<char>)
    requires
        spec_resolve_path(base, path) is Ok,
    ensures
        split_slash(spec_resolve_path(base, path)->Ok_0).len() > 0,
        forall|i: int|
            0 <= i < split_slash(spec_resolve_path(base, path)->Ok_0).len() ==> is_plain_name(
                #[trigger] split_slash(spec_resolve_path(base, path)->Ok_0)[i],
            ),
{
    let cs = components(path);
    let resolved = if cs[0] is CurDir || cs[0] is ParentDir {
        join_path(base, path)
    } else {
        path
    };
    let pieces = split_slash(resolved);
    lemma_split_pieces_have_no_slash(resolved);
    lemma_components_plain(pieces, pieces.len() as int, is_absolute_path(resolved));
    lemma_normalize_plain(components(resolved));
    let st = normalize(components(resolved))->Ok_0;
    lemma_split_join(st);
}

/// The pieces of a list of character vectors.
pub open spec fn pieces_view(v: Seq<Vec<char>>) -> Seq<Seq<char>> {
    v.map_values(|x: Vec<char>| x@)
}

/// Splits a path into its pieces between `/` separators.
fn split_pieces(p: &Vec<char>) -> (r: Vec<Vec<char>>)
    ensures
        pieces_view(r@) == split_slash(p@),
{
    let mut out: Vec<Vec<char>> = Vec::new();
    out.push(Vec::new());
    proof {
        assert(p@.take(0) =~= Seq::<char>::empty());
        assert(pieces_view(out@) =~= split_slash(p@.take(0)));
    }
    let mut i: usize = 0;
    while i < p.len()
        invariant
            i <= p@.len(),
            pieces_view(out@) == split_slash(p@.take(i as int)),
            out@.len() >= 1,
        decreases p@.len() - i,
    {
        let c = p[i];
        proof {
            assert(p@.take(i + 1).drop_last() =~= p@.take(i as int));
            assert(p@.take(i + 1).last() == c);
        }
        if c == '/' {
            out.push(Vec::new());
            proof {
                assert(pieces_view(out@) =~= split_slash(p@.take(i as int)).push(Seq::empty()));
            }
        } else {
            let ghost before = pieces_view(out@);
            let mut last = out.pop().unwrap();
            last.push(c);
            out.push(last);
            proof {
                assert(pieces_view(out@) =~= before.update(before.len() - 1, before.last().push(c)));
            }
        }
        i = i + 1;
    }
    proof {
        assert(p@.take(p@.len() as int) =~= p@);
    }
    out
}

/// An executable path component.
enum Comp {
    RootDir,
    CurDir,
    ParentDir,
    Normal(Vec<char>),
}

/// The component a `Comp` stands for.
spec fn comp_view(c: Comp) -> Component {
    match c {
        Comp::RootDir => Component::RootDir,
        Comp::CurDir => Component::CurDir,
        Comp::ParentDir => Component::ParentDir,
        Comp::Normal(v) => Component::Normal(v@),
    }
}

spec fn comps_view(v: Seq<Comp>) -> Seq<Component> {
    v.map_values(|c: Comp| comp_view(c))
}

/// Splits a path into its components.
fn path_components(p: &Vec<char>) -> (r: Vec<Comp>)
    ensures
        comps_view(r@) == components(p@),
{
    let pieces = split_pieces(p);
    let absolute = p.len() > 0 && p[0] == '/';
    let mut out: Vec<Comp> = Vec::new();
    if absolute {
        out.push(Comp::RootDir);
    }
    proof {
        assert(comps_view(out@) =~= components_upto(split_slash(p@), 0, absolute));
    }
    let mut k: usize = 0;
    while k < pieces.len()
        invariant
            k <= pieces@.len(),
            pieces_view(pieces@) == split_slash(p@),
            absolute == is_absolute_path(p@),
            comps_view(out@) == components_upto(split_slash(p@), k as int, absolute),
        decreases pieces@.len() - k,
    {
        let piece = &pieces[k];
        proof {
            assert(pieces_view(pieces@)[k as int] == piece@);
        }
        let ghost before = comps_view(out@);
        if piece.len() == 0 {
        } else if piece.len() == 1 && piece[0] == '.' {
            proof {
                assert(piece@ =~= seq!['.']);
            }
            if k == 0 && !absolute {
                out.push(Comp::CurDir);
            }
        } else if piece.len() == 2 && piece[0] == '.' && piece[1] == '.' {
            proof {
                assert(piece@ =~= seq!['.', '.']);
            }
            out.push(Comp::ParentDir);
        } else {
            proof {
                assert(piece@ != seq!['.']);
                assert(piece@ != seq!['.', '.']);
            }
            let mut copy: Vec<char> = Vec::new();
            let mut j: usize = 0;
            while j < piece.len()
                invariant
                    j <= piece@.len(),
                    copy@ == piece@.take(j as int),
                decreases piece@.len() - j,
            {
                copy.push(piece[j]);
                proof {
                    assert(piece@.take(j + 1) =~= piece@.take(j as int).push(piece@[j as int]));
                }
                j = j + 1;
            }
            proof {
                assert(piece@.take(piece@.len() as int) =~= piece@);
            }
            out.push(Comp::Normal(copy));
        }
        proof {
            assert(comps_view(out@) =~= components_upto(split_slash(p@), k + 1, absolute));
        }
        k = k + 1;
    }
    out
}

/// Normalizes components (see `normalize`).
fn normalize_components(cs: &Vec<Comp>) -> (r: Result<Vec<Vec<char>>, NormalizeError>)
    ensures
        match r {
            Ok(st) => normalize(comps_view(cs@)) == Ok::<Seq<Seq<char>>, NormalizeError>(
                pieces_view(st@),
            ),
            Err(e) => normalize(comps_view(cs@)) == Err::<Seq<Seq<char>>, NormalizeError>(e),
        },
{
    let mut st: Vec<Vec<char>> = Vec::new();
    let mut i: usize = 0;
    proof {
        assert(comps_view(cs@).take(0) =~= Seq::<Component>::empty());
        assert(pieces_view(st@) =~= Seq::<Seq<char>>::empty());
    }
    while i < cs.len()
        invariant
            i <= cs@.len(),
            normalize(comps_view(cs@).take(i as int)) == Ok::<Seq<Seq<char>>, NormalizeError>(
                pieces_view(st@),
            ),
        decreases cs@.len() - i,
    {
        proof {
            assert(comps_view(cs@).take(i + 1).drop_last() =~= comps_view(cs@).take(i as int));
            assert(comps_view(cs@).take(i + 1).last() == comp_view(cs@[i as int]));
        }
        let ghost before = pieces_view(st@);
        match &cs[i] {
            Comp::RootDir => {
                proof {
                    lemma_normalize_err_sticks(comps_view(cs@), i as int + 1, NormalizeError::Absolute);
                }
                return Err(NormalizeError::Absolute);
            },
            Comp::CurDir => {},
            Comp::ParentDir => {
                if st.len() == 0 {
                    proof {
                        lemma_normalize_err_sticks(comps_view(cs@), i as int + 1, NormalizeError::AboveStart);
                    }
                    return Err(NormalizeError::AboveStart);
                }
                st.pop();
                proof {
                    assert(pieces_view(st@) =~= before.drop_last());
                }
            },
            Comp::Normal(c) => {
                let mut copy: Vec<char> = Vec::new();
                let mut j: usize = 0;
                while j < c.len()
                    invariant
                        j <= c@.len(),
                        copy@ == c@.take(j as int),
                    decreases c@.len() - j,
                {
                    copy.push(c[j]);
                    proof {
                        assert(c@.take(j + 1) =~= c@.take(j as int).push(c@[j as int]));
                    }
                    j = j + 1;
                }
                proof {
                    assert(c@.take(c@.len() as int) =~= c@);
                }
                st.push(copy);
                proof {
                    assert(pieces_view(st@) =~= before.push(c@));
                }
            },
        }
        i = i + 1;
    }
    proof {
        assert(comps_view(cs@).take(cs@.len() as int) =~= comps_view(cs@));
    }
    Ok(st)
}

/// Once normalizing a prefix fails, normalizing the whole fails the same way.
proof fn lemma_normalize_err_sticks(cs: Seq<Component>, k: int, e: NormalizeError)
    requires
        0 <= k <= cs.len(),
        normalize(cs.take(k)) == Err::<Seq<Seq<char>>, NormalizeError>(e),
    ensures
        normalize(cs) == Err::<Seq<Seq<char>>, NormalizeError>(e),
    decreases cs.len() - k,
{
    if k < cs.len() {
        assert(cs.take(k + 1).drop_last() =~= cs.take(k));
        lemma_normalize_err_sticks(cs, k + 1, e);
    } else {
        assert(cs.take(k) =~= cs);
    }
}

/// Joins names with `/`.
fn join_stack(st: &Vec<Vec<char>>) -> (r: String)
    ensures
        r@ == join_names(pieces_view(st@)),
{
    let mut s = String::new();
    let mut i: usize = 0;
    proof {
        assert(pieces_view(st@).take(0) =~= Seq::<Seq<char>>::empty());
    }
    while i < st.len()
        invariant
            i <= st@.len(),
            s@ == join_names(pieces_view(st@).take(i as int)),
        decreases st@.len() - i,
    {
        let ghost before = s@;
        if i > 0 {
            push_char(&mut s, '/');
        }
        let name = &st[i];
        let mut j: usize = 0;
        let ghost mid = s@;
        while j < name.len()
            invariant
                j <= name@.len(),
                s@ == mid + name@.take(j as int),
            decreases name@.len() - j,
        {
            push_char(&mut s, name[j]);
            proof {
                assert(name@.take(j + 1) =~= name@.take(j as int).push(name@[j as int]));
                assert(mid + name@.take(j + 1) =~= (mid + name@.take(j as int)).push(name@[j as int]));
            }
            j = j + 1;
        }
        proof {
            assert(name@.take(name@.len() as int) =~= name@);
            let v = pieces_view(st@);
            assert(v.take(i + 1).drop_last() =~= v.take(i as int));
            assert(v.take(i + 1).last() == name@);
            if i == 0 {
                assert(before =~= Seq::<char>::empty());
                assert(s@ =~= name@);
            }
        }
        i = i + 1;
    }
    proof {
        assert(pieces_view(st@).take(st@.len() as int) =~= pieces_view(st@));
    }
    s
}

/// `index for {base}` followed by a reason.
fn index_message(base: &str, reason: &str) -> (r: String)
    ensures
        r@ == "index for "@ + base@ + reason@,
{
    let mut m = "index for ".to_owned();
    push_str(&mut m, base);
    push_str(&mut m, reason);
    m
}

/// Resolves an index directory named by the entry in directory `base` (see
/// `spec_resolve_path`).
pub fn resolve_path(base: &str, path: &str) -> (r: Result<String, String>)
    ensures
        match r {
            Ok(p) => spec_resolve_path(base@, path@) == Ok::<Seq<char>, Seq<char>>(p@),
            Err(m) => spec_resolve_path(base@, path@) == Err::<Seq<char>, Seq<char>>(m@),
        },
{
    let pv = chars_of(path);
    let cs = path_components(&pv);
    if cs.len() == 0 {
        return Err(index_message(base, " specifies an empty directory"));
    }
    let relative_to_base = match &cs[0] {
        Comp::RootDir => {
            return Err(index_message(base, " specifies an absolute directory"));
        },
        Comp::CurDir => true,
        Comp::ParentDir => true,
        Comp::Normal(_) => false,
    };
    proof {
        assert(comps_view(cs@)[0] == comp_view(cs@[0]));
    }
    let resolved: String = if relative_to_base {
        let mut j = base.to_owned();
        let bv = chars_of(base);
        if bv.len() > 0 && bv[bv.len() - 1] != '/' {
            push_char(&mut j, '/');
        }
        push_str(&mut j, path);
        proof {
            assert(j@ =~= join_path(base@, path@));
        }
        j
    } else {
        path.to_owned()
    };
    let rv = chars_of(resolved.as_str());
    let rcs = path_components(&rv);
    match normalize_components(&rcs) {
        Err(NormalizeError::Absolute) => Err(index_message(base, " specifies an absolute directory")),
        Err(NormalizeError::AboveStart) => {
            let mut m = index_message(base, " specifies an invalid relative path: ");
            push_str(&mut m, resolved.as_str());
            Err(m)
        },
        Ok(st) => {
            if st.len() == 0 {
                Err(index_message(base, " specifies an empty directory"))
            } else {
                Ok(join_stack(&st))
            }
        },
    }
}

} // verus!
