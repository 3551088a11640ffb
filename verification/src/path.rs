//! Paths as strings, read component by component the way `std::path` reads
//! them on Unix: a leading `/` is the root, a leading `.` alone or followed by
//! `/` is the current directory, empty pieces and inner `.` pieces vanish.
use vstd::prelude::*;
use vstd::string::*;

verus! {

/// The pieces of `s` between separators, empty pieces included.
pub open spec fn split_pieces(s: Seq<char>) -> Seq<Seq<char>>
    decreases s.len(),
{
    if s.len() == 0 {
        seq![Seq::<char>::empty()]
    } else {
        let rest = split_pieces(s.drop_last());
        if s.last() == '/' {
            rest.push(Seq::<char>::empty())
        } else {
            rest.update(rest.len() - 1, rest.last().push(s.last()))
        }
    }
}

/// A piece that survives normalisation: not empty and not `.`.
pub open spec fn is_normal_piece(p: Seq<char>) -> bool {
    p.len() != 0 && p != seq!['.']
}

pub open spec fn normal_components(s: Seq<char>) -> Seq<Seq<char>> {
    split_pieces(s).filter(|p: Seq<char>| is_normal_piece(p))
}

pub open spec fn has_root(s: Seq<char>) -> bool {
    s.len() > 0 && s[0] == '/'
}

pub open spec fn starts_with_cur_dir(s: Seq<char>) -> bool {
    &&& !has_root(s)
    &&& s.len() > 0
    &&& s[0] == '.'
    &&& (s.len() == 1 || s[1] == '/')
}

/// The components of a path; the root is written `/` and the current
/// directory `.`, which no normal component can be.
pub open spec fn components(s: Seq<char>) -> Seq<Seq<char>> {
    if has_root(s) {
        seq![seq!['/']] + normal_components(s)
    } else if starts_with_cur_dir(s) {
        seq![seq!['.']] + normal_components(s)
    } else {
        normal_components(s)
    }
}

/// `path` lies at or below `base`: the components of `base` begin those of `path`.
pub open spec fn spec_path_starts_with(path: Seq<char>, base: Seq<char>) -> bool {
    components(base).is_prefix_of(components(path))
}

pub proof fn lemma_split_pieces_nonempty(s: Seq<char>)
    ensures
        split_pieces(s).len() >= 1,
    decreases s.len(),
{
    if s.len() > 0 {
        lemma_split_pieces_nonempty(s.drop_last());
    }
}

proof fn lemma_filter_push(s: Seq<Seq<char>>, x: Seq<char>)
    ensures
        s.push(x).filter(|p: Seq<char>| is_normal_piece(p)) == (if is_normal_piece(x) {
            s.filter(|p: Seq<char>| is_normal_piece(p)).push(x)
        } else {
            s.filter(|p: Seq<char>| is_normal_piece(p))
        }),
{
    reveal(Seq::filter);
    assert(s.push(x).drop_last() =~= s);
}

/// The characters of a string slice, in order.
pub fn chars_of(s: &str) -> (v: Vec<char>)
    ensures
        v@ == s@,
{
    let mut v: Vec<char> = Vec::new();
    for c in it: s.chars()
        invariant
            v@ == it.seq().take(it.index()),
            it.seq() == s@,
    {
        v.push(c);
    }
    v
}


/// The views of a sequence of character vectors.
pub open spec fn views(v: Seq<Vec<char>>) -> Seq<Seq<char>> {
    v.map_values(|x: Vec<char>| x@)
}

/// Whether two character vectors hold the same characters.
pub fn chars_eq(a: &Vec<char>, b: &Vec<char>) -> (r: bool)
    ensures
        r == (a@ == b@),
{
    if a.len() != b.len() {
        return false;
    }
    let mut i: usize = 0;
    while i < a.len()
        invariant
            a.len() == b.len(),
            0 <= i <= a.len(),
            forall|j: int| 0 <= j < i ==> a@[j] == b@[j],
        decreases a.len() - i,
    {
        if a[i] != b[i] {
            return false;
        }
        i = i + 1;
    }
    assert(a@ =~= b@);
    true
}

/// Whether a piece survives normalisation.
fn is_normal(piece: &Vec<char>) -> (r: bool)
    ensures
        r == is_normal_piece(piece@),
{
    let r = piece.len() != 0 && !(piece.len() == 1 && piece[0] == '.');
    proof {
        if piece@ == seq!['.'] {
            assert(piece@[0] == '.');
        }
        if piece.len() == 1 && piece@[0] == '.' {
            assert(piece@ =~= seq!['.']);
        }
    }
    r
}

/// The components of the path `s`, as `std::path::Path::components` yields
/// them on Unix (root written `/`, current directory written `.`).
pub fn path_components(s: &str) -> (r: Vec<Vec<char>>)
    ensures
        views(r@) == components(s@),
{
    let cs = chars_of(s);
    let n = cs.len();
    let mut res: Vec<Vec<char>> = Vec::new();
    let ghost prefix: Seq<Seq<char>>;
    if n > 0 && cs[0] == '/' {
        let mut root: Vec<char> = Vec::new();
        root.push('/');
        res.push(root);
        proof { prefix = seq![seq!['/']]; }
    } else if n > 0 && cs[0] == '.' && (n == 1 || cs[1] == '/') {
        let mut cur_dir: Vec<char> = Vec::new();
        cur_dir.push('.');
        res.push(cur_dir);
        proof { prefix = seq![seq!['.']]; }
    } else {
        proof { prefix = Seq::empty(); }
    }
    assert(views(res@) =~= prefix);
    let mut cur: Vec<char> = Vec::new();
    let mut i: usize = 0;
    proof {
        reveal(Seq::filter);
        assert(cs@.take(0) =~= Seq::<char>::empty());
        assert(split_pieces(cs@.take(0)).drop_last() =~= Seq::<Seq<char>>::empty());
    }
    while i < n
        invariant
            n == cs.len(),
            cs@ == s@,
            0 <= i <= n,
            views(res@) == prefix + split_pieces(cs@.take(i as int)).drop_last().filter(
                |p: Seq<char>| is_normal_piece(p),
            ),
            cur@ == split_pieces(cs@.take(i as int)).last(),
        decreases n - i,
    {
        let c = cs[i];
        let ghost before = cs@.take(i as int);
        proof {
            lemma_split_pieces_nonempty(before);
            assert(cs@.take(i + 1).drop_last() =~= before);
            assert(cs@.take(i + 1).last() == c);
        }
        if c == '/' {
            proof {
                let sp = split_pieces(before);
                assert(sp.drop_last().push(sp.last()) =~= sp);
                lemma_filter_push(sp.drop_last(), sp.last());
                assert(split_pieces(cs@.take(i + 1)).drop_last() =~= sp);
            }
            let normal = is_normal(&cur);
            if normal {
                let ghost old_res = res@;
                res.push(cur);
                assert(views(res@) =~= views(old_res).push(split_pieces(before).last()));
            }
            cur = Vec::new();
        } else {
            proof {
                let sp = split_pieces(before);
                assert(split_pieces(cs@.take(i + 1)).drop_last() =~= sp.drop_last());
            }
            cur.push(c);
        }
        i = i + 1;
    }
    proof {
        let sp = split_pieces(cs@.take(n as int));
        lemma_split_pieces_nonempty(cs@.take(n as int));
        assert(cs@.take(n as int) =~= s@);
        assert(sp.drop_last().push(sp.last()) =~= sp);
        lemma_filter_push(sp.drop_last(), sp.last());
    }
    let normal = is_normal(&cur);
    if normal {
        let ghost old_res = res@;
        res.push(cur);
        assert(views(res@) =~= views(old_res).push(split_pieces(s@).last()));
    }
    proof {
        assert(views(res@) =~= prefix + normal_components(s@));
    }
    res
}


/// Whether `path` lies at or below `base`, comparing whole components as
/// `std::path::Path::starts_with` does.
pub fn path_starts_with(path: &str, base: &str) -> (r: bool)
    ensures
        r == spec_path_starts_with(path@, base@),
{
    let pc = path_components(path);
    let bc = path_components(base);
    if bc.len() > pc.len() {
        return false;
    }
    let mut j: usize = 0;
    while j < bc.len()
        invariant
            bc.len() <= pc.len(),
            views(pc@) == components(path@),
            views(bc@) == components(base@),
            0 <= j <= bc.len(),
            forall|k: int| 0 <= k < j ==> components(base@)[k] == components(path@)[k],
        decreases bc.len() - j,
    {
        if !chars_eq(&bc[j], &pc[j]) {
            assert(views(bc@)[j as int] != views(pc@)[j as int]);
            return false;
        }
        assert(views(bc@)[j as int] == views(pc@)[j as int]);
        j = j + 1;
    }
    assert(components(base@) =~= components(path@).subrange(0, components(base@).len() as int));
    true
}

/// Whether two paths are the same path, comparing components as `Path`'s
/// equality does: `a//b`, `a/./b` and `a/b/` are all `a/b`.
pub fn same_path(a: &str, b: &str) -> (r: bool)
    ensures
        r == (components(a@) == components(b@)),
{
    let ac = path_components(a);
    let bc = path_components(b);
    if ac.len() != bc.len() {
        assert(views(ac@).len() == ac@.len());
        assert(views(bc@).len() == bc@.len());
        return false;
    }
    let mut j: usize = 0;
    while j < ac.len()
        invariant
            ac.len() == bc.len(),
            views(ac@) == components(a@),
            views(bc@) == components(b@),
            0 <= j <= ac.len(),
            forall|k: int| 0 <= k < j ==> components(a@)[k] == components(b@)[k],
        decreases ac.len() - j,
    {
        if !chars_eq(&ac[j], &bc[j]) {
            assert(views(ac@)[j as int] != views(bc@)[j as int]);
            return false;
        }
        assert(views(ac@)[j as int] == views(bc@)[j as int]);
        j = j + 1;
    }
    assert(components(a@) =~= components(b@));
    true
}

/// The path that `PathBuf::push` makes of `base` and `name` on Unix: an
/// absolute `name` replaces `base`; otherwise a separator is put between
/// them unless `base` is empty or already ends with one.
pub open spec fn spec_join(base: Seq<char>, name: Seq<char>) -> Seq<char> {
    if has_root(name) {
        name
    } else if base.len() == 0 || base.last() == '/' {
        base + name
    } else {
        base + seq!['/'] + name
    }
}

/// `base` joined with `name`, as `Path::join` does.
pub fn join_path(base: &str, name: &str) -> (r: String)
    ensures
        r@ == spec_join(base@, name@),
{
    let bs = chars_of(base);
    let ns = chars_of(name);
    if ns.len() > 0 && ns[0] == '/' {
        return name.to_owned();
    }
    let mut r = base.to_owned();
    if bs.len() > 0 && bs[bs.len() - 1] != '/' {
        let sep = "/";
        proof {
            reveal_strlit("/");
        }
        r.append(sep);
    }
    r.append(name);
    r
}


proof fn lemma_split_pieces_add(a: Seq<char>, b: Seq<char>)
    ensures
        split_pieces(a + b) == split_pieces(a).drop_last() + seq![
            split_pieces(a).last() + split_pieces(b)[0],
        ] + split_pieces(b).drop_first(),
    decreases b.len(),
{
    lemma_split_pieces_nonempty(a);
    lemma_split_pieces_nonempty(b);
    let sa = split_pieces(a);
    if b.len() == 0 {
        assert(a + b =~= a);
        assert(split_pieces(b) =~= seq![Seq::<char>::empty()]);
        assert(sa.last() + Seq::<char>::empty() =~= sa.last());
        assert(sa.drop_last() + seq![sa.last()] =~= sa);
        assert(split_pieces(b).drop_first() =~= Seq::<Seq<char>>::empty());
        assert(sa.drop_last() + seq![sa.last()] + Seq::<Seq<char>>::empty() =~= sa);
    } else {
        let b0 = b.drop_last();
        let c = b.last();
        lemma_split_pieces_add(a, b0);
        lemma_split_pieces_nonempty(b0);
        assert((a + b).drop_last() =~= a + b0);
        assert((a + b).last() == c);
        let sb0 = split_pieces(b0);
        let ih = split_pieces(a + b0);
        if c == '/' {
            assert(split_pieces(b)[0] == sb0[0]);
            assert(split_pieces(b).drop_first() =~= sb0.drop_first().push(Seq::<char>::empty()));
            assert(split_pieces(a + b) =~= ih.push(Seq::<char>::empty()));
            assert(split_pieces(a + b) =~= sa.drop_last() + seq![sa.last() + split_pieces(b)[0]]
                + split_pieces(b).drop_first());
        } else {
            if sb0.len() == 1 {
                assert(split_pieces(b)[0] == sb0[0].push(c));
                assert(split_pieces(b).drop_first() =~= Seq::<Seq<char>>::empty());
                assert((sa.last() + sb0[0]).push(c) =~= sa.last() + sb0[0].push(c));
                assert(split_pieces(a + b) =~= sa.drop_last() + seq![sa.last() + split_pieces(b)[0]]
                    + split_pieces(b).drop_first());
            } else {
                assert(split_pieces(b)[0] == sb0[0]);
                assert(split_pieces(b).drop_first() =~= sb0.drop_first().update(
                    sb0.len() - 2,
                    sb0.last().push(c),
                ));
                assert(split_pieces(a + b) =~= sa.drop_last() + seq![sa.last() + split_pieces(b)[0]]
                    + split_pieces(b).drop_first());
            }
        }
    }
}

proof fn lemma_split_pieces_ends_with_sep(a: Seq<char>)
    requires
        a.len() > 0,
        a.last() == '/',
    ensures
        split_pieces(a).last() == Seq::<char>::empty(),
{
}

/// The normal components of `base` followed by `name`, where `base` is empty
/// or ends with a separator, are those of `base` and then those of `name`.
proof fn lemma_normal_components_add(a: Seq<char>, b: Seq<char>)
    requires
        a.len() == 0 || a.last() == '/',
    ensures
        normal_components(a + b) == normal_components(a) + normal_components(b),
{
    let pred = |p: Seq<char>| is_normal_piece(p);
    lemma_split_pieces_add(a, b);
    lemma_split_pieces_nonempty(a);
    lemma_split_pieces_nonempty(b);
    let sa = split_pieces(a);
    let sb = split_pieces(b);
    if a.len() == 0 {
        assert(sa =~= seq![Seq::<char>::empty()]);
    } else {
        lemma_split_pieces_ends_with_sep(a);
    }
    assert(sa.last() == Seq::<char>::empty());
    assert(sa.last() + sb[0] =~= sb[0]);
    assert(seq![sb[0]] + sb.drop_first() =~= sb);
    assert(split_pieces(a + b) =~= sa.drop_last() + sb);
    Seq::filter_distributes_over_add(sa.drop_last(), sb, pred);
    assert(sa.drop_last().push(sa.last()) =~= sa);
    lemma_filter_push(sa.drop_last(), sa.last());
}

proof fn lemma_normal_components_empty()
    ensures
        normal_components(Seq::<char>::empty()) == Seq::<Seq<char>>::empty(),
{
    let e = Seq::<char>::empty();
    assert(split_pieces(e) == seq![e]);
    assert(seq![e] =~= Seq::<Seq<char>>::empty().push(e));
    lemma_filter_push(Seq::<Seq<char>>::empty(), e);
    reveal(Seq::filter);
    assert(Seq::<Seq<char>>::empty().filter(|p: Seq<char>| is_normal_piece(p)) =~= Seq::<Seq<char>>::empty());
}

/// Joining a relative `name` onto a non-empty `base` appends exactly the
/// normal components of `name` to the components of `base`.
pub proof fn lemma_join_components(base: Seq<char>, name: Seq<char>)
    requires
        base.len() > 0,
        !has_root(name),
    ensures
        components(spec_join(base, name)) == components(base) + normal_components(name),
{
    let j = spec_join(base, name);
    if base.last() == '/' {
        lemma_normal_components_add(base, name);
        assert(j =~= base + name);
    } else {
        let bs = base.push('/');
        assert(bs.drop_last() =~= base);
        lemma_filter_push(split_pieces(base), Seq::<char>::empty());
        assert(normal_components(bs) == normal_components(base));
        lemma_normal_components_add(bs, name);
        assert(j =~= bs + name);
    }
    assert(has_root(j) == has_root(base));
    assert(starts_with_cur_dir(j) == starts_with_cur_dir(base));
}

/// A path joined from `base` and a relative name lies below `base`.
pub proof fn lemma_join_starts_with(base: Seq<char>, name: Seq<char>)
    requires
        !has_root(name),
    ensures
        spec_path_starts_with(spec_join(base, name), base),
{
    if base.len() > 0 {
        lemma_join_components(base, name);
        assert(components(base) =~= (components(base) + normal_components(name)).subrange(
            0,
            components(base).len() as int,
        ));
    } else {
        lemma_normal_components_empty();
        assert(components(base) =~= Seq::<Seq<char>>::empty());
    }
}

/// Lying below means exactly this: every component of `base`, in order,
/// is the very same component (character for character, letter case
/// included) at the same place in `path`.
pub proof fn lemma_starts_with_exact(path: Seq<char>, base: Seq<char>)
    ensures
        spec_path_starts_with(path, base) <==> (components(base).len() <= components(path).len()
            && forall|i: int| 0 <= i < components(base).len() ==> #[trigger] components(base)[i] == components(path)[i]),
{
    let cb = components(base);
    let cp = components(path);
    if cb.len() <= cp.len() && forall|i: int| 0 <= i < cb.len() ==> #[trigger] cb[i] == cp[i] {
        assert(cb =~= cp.subrange(0, cb.len() as int));
    }
    if spec_path_starts_with(path, base) {
        assert forall|i: int| 0 <= i < cb.len() implies #[trigger] cb[i] == cp[i] by {
            assert(cb[i] == cp.subrange(0, cb.len() as int)[i]);
        }
    }
}

/// Two paths that each lie below the other are the same path.
pub proof fn lemma_starts_with_antisymmetric(a: Seq<char>, b: Seq<char>)
    requires
        spec_path_starts_with(a, b),
        spec_path_starts_with(b, a),
    ensures
        components(a) == components(b),
{
    lemma_starts_with_exact(a, b);
    lemma_starts_with_exact(b, a);
    assert(components(a) =~= components(b));
}

/// Every path lies at or below itself.
pub proof fn lemma_starts_with_reflexive(p: Seq<char>)
    ensures
        spec_path_starts_with(p, p),
{
    assert(components(p) =~= components(p).subrange(0, components(p).len() as int));
}

/// Lying below is transitive.
pub proof fn lemma_starts_with_transitive(a: Seq<char>, b: Seq<char>, c: Seq<char>)
    requires
        spec_path_starts_with(a, b),
        spec_path_starts_with(b, c),
    ensures
        spec_path_starts_with(a, c),
{
    let ca = components(a);
    let cb = components(b);
    let cc = components(c);
    assert(cc =~= ca.subrange(0, cc.len() as int)) by {
        assert forall|i: int| 0 <= i < cc.len() implies cc[i] == ca[i] by {
            assert(cc[i] == cb.subrange(0, cc.len() as int)[i]);
            assert(cb[i] == ca.subrange(0, cb.len() as int)[i]);
        }
    }
}

} // verus!
