//! Paths as texts with '/' between components: joining, the last component,
//! its extension and its parent, and the search for a component.

use vstd::prelude::*;
use crate::text::{chars_of, string_of};

verus! {

broadcast use vstd::string::group_string_axioms;

/// `a` followed by the relative path `b`, with one '/' between them.
pub open spec fn path_join(a: Seq<char>, b: Seq<char>) -> Seq<char> {
    if a.len() == 0 {
        b
    } else if a.last() == '/' {
        a + b
    } else {
        a + seq!['/'] + b
    }
}

/// Joins the relative path `b` to `a`.
pub fn join(a: &str, b: &str) -> (r: String)
    ensures
        r@ == path_join(a@, b@),
{
    let mut v = chars_of(a);
    let ghost av = v@;
    if v.len() > 0 && v[v.len() - 1] != '/' {
        v.push('/');
    }
    let w = chars_of(b);
    let ghost start = v@;
    let mut i: usize = 0;
    while i < w.len()
        invariant
            i <= w@.len(),
            v@ == start + w@.subrange(0, i as int),
        decreases w@.len() - i,
    {
        v.push(w[i]);
        i = i + 1;
        proof {
            assert(w@.subrange(0, i as int) =~= w@.subrange(0, i - 1).push(w@[i - 1]));
        }
    }
    proof {
        assert(w@.subrange(0, w@.len() as int) =~= w@);
        if av.len() == 0 {
            assert(v@ =~= b@);
        } else if av.last() == '/' {
            assert(v@ =~= av + b@);
        } else {
            assert(v@ =~= av + seq!['/'] + b@);
        }
    }
    string_of(&v)
}

/// The path without what its components leave out at its end: '/' and a
/// "." that follows a '/' (as std's `Path::components` skips them).
pub open spec fn strip_tail(p: Seq<char>) -> Seq<char>
    decreases p.len(),
{
    if p.len() > 0 && p.last() == '/' {
        strip_tail(p.drop_last())
    } else if p.len() >= 2 && p.last() == '.' && p[p.len() - 2] == '/' {
        strip_tail(p.drop_last())
    } else {
        p
    }
}

/// Index of the last occurrence of `c`, or -1.
pub open spec fn last_index_of(p: Seq<char>, c: char) -> int
    decreases p.len(),
{
    if p.len() == 0 {
        -1
    } else if p.last() == c {
        p.len() - 1
    } else {
        last_index_of(p.drop_last(), c)
    }
}

/// The last component of a path, if it has one that names a file or
/// directory (not "." or "..").
pub open spec fn file_name(p: Seq<char>) -> Option<Seq<char>> {
    let q = strip_tail(p);
    let name = q.subrange(last_index_of(q, '/') + 1, q.len() as int);
    if name.len() == 0 || name == seq!['.'] || name == seq!['.', '.'] {
        None
    } else {
        Some(name)
    }
}

/// The extension of the last component: what follows its last '.', unless
/// it has no '.' or its only '.' is its first character.
pub open spec fn extension(p: Seq<char>) -> Option<Seq<char>> {
    match file_name(p) {
        None => None,
        Some(name) => {
            let d = last_index_of(name, '.');
            if d <= 0 {
                None
            } else {
                Some(name.subrange(d + 1, name.len() as int))
            }
        },
    }
}

/// The last index of `c` is `i` where `p[i]` is `c` and no later character
/// is (or -1 where none is).
pub proof fn lemma_last_index(p: Seq<char>, c: char, i: int)
    requires
        -1 <= i < p.len(),
        i >= 0 ==> p[i] == c,
        forall|j: int| i < j < p.len() ==> p[j] != c,
    ensures
        last_index_of(p, c) == i,
    decreases p.len(),
{
    if p.len() > 0 && p.last() != c {
        lemma_last_index(p.drop_last(), c, i);
    }
}

/// Length of the path without what its end leaves out.
fn tail_len(v: &Vec<char>) -> (n: usize)
    ensures
        n <= v@.len(),
        strip_tail(v@) == v@.subrange(0, n as int),
{
    let mut n = v.len();
    proof {
        assert(v@.subrange(0, n as int) =~= v@);
    }
    while n > 0 && (v[n - 1] == '/' || (n >= 2 && v[n - 1] == '.' && v[n - 2] == '/'))
        invariant
            n <= v@.len(),
            strip_tail(v@.subrange(0, n as int)) == strip_tail(v@),
        decreases n,
    {
        proof {
            assert(v@.subrange(0, n as int).drop_last() =~= v@.subrange(0, n - 1));
        }
        n = n - 1;
    }
    n
}

/// One more than the index of the last `c` among the first `n` characters,
/// or 0 if there is none.
fn last_index(v: &Vec<char>, n: usize, c: char) -> (i: usize)
    requires
        n <= v@.len(),
    ensures
        i - 1 == last_index_of(v@.subrange(0, n as int), c),
        i <= n,
{
    let mut k = n;
    while k > 0 && v[k - 1] != c
        invariant
            k <= n <= v@.len(),
            forall|j: int| k <= j < n ==> v@[j] != c,
        decreases k,
    {
        k = k - 1;
    }
    proof {
        lemma_last_index(v@.subrange(0, n as int), c, k - 1);
    }
    k
}

/// Whether the last component of the path has the extension "eri".
pub fn is_eri_path(path: &str) -> (b: bool)
    ensures
        b == (extension(path@) == Some("eri"@)),
{
    proof {
        reveal_strlit("eri");
    }
    let v = chars_of(path);
    let n = tail_len(&v);
    let ghost q = strip_tail(v@);
    let start = last_index(&v, n, '/');
    let ghost name = q.subrange(start as int, q.len() as int);
    if n - start == 0 || (n - start == 1 && v[start] == '.') || (n - start == 2 && v[start] == '.' && v[start
        + 1] == '.') {
        proof {
            if n - start == 2 {
                assert(name =~= seq!['.', '.']);
            }
            if n - start == 1 {
                assert(name =~= seq!['.']);
            }
        }
        return false;
    }
    proof {
        if name == seq!['.', '.'] {
            assert(name.len() == 2 && name[0] == '.' && name[1] == '.');
            assert(v@[start as int] == name[0]);
        }
        if name == seq!['.'] {
            assert(v@[start as int] == name[0]);
        }
    }
    let mut d = n;
    while d > start && v[d - 1] != '.'
        invariant
            start <= d <= n <= v@.len(),
            forall|j: int| d <= j < n ==> v@[j] != '.',
        decreases d,
    {
        d = d - 1;
    }
    proof {
        lemma_last_index(name, '.', d - start - 1);
    }
    if d <= start + 1 {
        return false;
    }
    let ok = n - d == 3 && v[d] == 'e' && v[d + 1] == 'r' && v[d + 2] == 'i';
    proof {
        let ext = name.subrange(d - start, name.len() as int);
        assert(ext =~= v@.subrange(d as int, n as int));
        if ok {
            assert(ext =~= "eri"@);
        }
        if ext == "eri"@ {
            assert(ext[0] == 'e' && ext[1] == 'r' && ext[2] == 'i');
        }
    }
    ok
}

/// Whether a path has a parent directory: something is left of it once its
/// end is stripped (it is not empty and not the root).
pub open spec fn has_parent(p: Seq<char>) -> bool {
    strip_tail(p).len() > 0
}

/// Whether a path has a parent directory.
pub fn path_has_parent(path: &str) -> (b: bool)
    ensures
        b == has_parent(path@),
{
    let v = chars_of(path);
    tail_len(&v) > 0
}

/// The form of a directory that `parent_of` gives back for what lies in it.
pub open spec fn dir_form(dir: Seq<char>) -> Seq<char> {
    if dir.len() == 0 {
        seq![]
    } else if strip_tail(dir).len() == 0 {
        seq!['/']
    } else {
        strip_tail(dir)
    }
}

/// Joining a file name (no '/', not "." or "..") to a directory gives a path
/// whose last component is that name and whose parent is the directory.
pub proof fn lemma_join_file(dir: Seq<char>, f: Seq<char>)
    requires
        f.len() > 0,
        forall|i: int| 0 <= i < f.len() ==> #[trigger] f[i] != '/',
        f != seq!['.'],
        f != seq!['.', '.'],
    ensures
        file_name(path_join(dir, f)) == Some(f),
        parent_of(path_join(dir, f)) == dir_form(dir),
{
    let p = path_join(dir, f);
    assert(p.last() == f.last());
    if f.len() >= 2 {
        assert(p[p.len() - 2] == f[f.len() - 2]);
    } else if dir.len() > 0 {
        assert(f =~= seq![f[0]]);
    }
    assert(strip_tail(p) =~= p);
    let k: int = p.len() - f.len() - 1;
    assert forall|j: int| k < j < p.len() implies p[j] != '/' by {
        assert(p[j] == f[j - k - 1]);
    }
    if dir.len() == 0 {
        assert(p =~= f);
        lemma_last_index(p, '/', -1);
        assert(p.subrange(0, p.len() as int) =~= f);
    } else {
        assert(p[k] == '/');
        lemma_last_index(p, '/', k);
        assert(p.subrange(k + 1, p.len() as int) =~= f);
        if dir.last() == '/' {
            assert(p.subrange(0, k) =~= dir.drop_last());
        } else {
            assert(p.subrange(0, k) =~= dir);
        }
    }
}

/// The directory that holds the last component: the path without its last
/// component and the '/' before it ("" for a single component, "/" for a
/// component right under the root).
pub open spec fn parent_of(p: Seq<char>) -> Seq<char> {
    let q = strip_tail(p);
    let k = last_index_of(q, '/');
    if k < 0 {
        seq![]
    } else {
        let r = strip_tail(q.subrange(0, k));
        if r.len() == 0 {
            seq!['/']
        } else {
            r
        }
    }
}

/// The directory that holds the last component of a path.
pub fn parent(path: &str) -> (r: String)
    ensures
        r@ == parent_of(path@),
{
    let v = chars_of(path);
    let n = tail_len(&v);
    let ghost q = strip_tail(v@);
    let k = last_index(&v, n, '/');
    if k == 0 {
        let e: Vec<char> = Vec::new();
        proof {
            assert(e@ =~= parent_of(path@));
        }
        return string_of(&e);
    }
    let mut w: Vec<char> = Vec::new();
    let mut i: usize = 0;
    while i < k - 1
        invariant
            k <= n <= v@.len(),
            i <= k - 1,
            w@ == v@.subrange(0, i as int),
        decreases k - 1 - i,
    {
        w.push(v[i]);
        i = i + 1;
        proof {
            assert(v@.subrange(0, i as int) =~= v@.subrange(0, i - 1).push(v@[i - 1]));
        }
    }
    proof {
        assert(w@ =~= q.subrange(0, k - 1));
    }
    let m = tail_len(&w);
    let mut out: Vec<char> = Vec::new();
    let mut j: usize = 0;
    while j < m
        invariant
            m <= w@.len(),
            j <= m,
            out@ == w@.subrange(0, j as int),
        decreases m - j,
    {
        out.push(w[j]);
        j = j + 1;
        proof {
            assert(w@.subrange(0, j as int) =~= w@.subrange(0, j - 1).push(w@[j - 1]));
        }
    }
    if m == 0 {
        out.push('/');
        proof {
            assert(out@ =~= seq!['/']);
        }
    }
    string_of(&out)
}

/// Whether `name` is one of the '/'-separated components of `p`.
pub open spec fn has_component(p: Seq<char>, name: Seq<char>) -> bool {
    exists|i: int|
        #![trigger p.subrange(i, i + name.len())]
        0 <= i && i + name.len() <= p.len() && (i == 0 || p[i - 1] == '/') && (i + name.len() == p.len()
            || p[i + name.len()] == '/') && p.subrange(i, i + name.len()) == name
}

/// Whether the characters of `w` stand in `v` from position `i` on.
fn matches_at(v: &Vec<char>, w: &Vec<char>, i: usize) -> (b: bool)
    requires
        i + w@.len() <= v@.len(),
    ensures
        b == (v@.subrange(i as int, i + w@.len()) == w@),
{
    let n = v.len();
    let mut j: usize = 0;
    while j < w.len()
        invariant
            n == v@.len(),
            i + w@.len() <= v@.len(),
            j <= w@.len(),
            forall|k: int| 0 <= k < j ==> v@[i + k] == w@[k],
        decreases w@.len() - j,
    {
        if v[i + j] != w[j] {
            proof {
                assert(v@.subrange(i as int, i + w@.len())[j as int] != w@[j as int]);
            }
            return false;
        }
        j = j + 1;
    }
    proof {
        assert(v@.subrange(i as int, i + w@.len()) =~= w@);
    }
    true
}

/// Whether `name` is one of the components of `path`.
pub fn path_has_component(path: &str, name: &str) -> (b: bool)
    requires
        name@.len() > 0,
    ensures
        b == has_component(path@, name@),
{
    let v = chars_of(path);
    let w = chars_of(name);
    if w.len() > v.len() {
        return false;
    }
    let n = v.len();
    let last = n - w.len();
    let mut i: usize = 0;
    while i <= last
        invariant
            n == v@.len(),
            w@.len() > 0,
            last == v@.len() - w@.len(),
            w@.len() <= v@.len(),
            i <= last + 1,
            v@ == path@,
            w@ == name@,
            forall|k: int|
                0 <= k < i ==> !((k == 0 || v@[k - 1] == '/') && (k + w@.len() == v@.len() || v@[k
                    + w@.len()] == '/') && #[trigger] v@.subrange(k, k + w@.len()) == w@),
        decreases last + 1 - i,
    {
        let start_ok = i == 0 || v[i - 1] == '/';
        let end_ok = i + w.len() == n || v[i + w.len()] == '/';
        if start_ok && end_ok && matches_at(&v, &w, i) {
            return true;
        }
        i = i + 1;
    }
    false
}

// ---------------------------------------------------------------- path equality

/// The pieces of a text between the occurrences of `c`.
pub open spec fn split_on(s: Seq<char>, c: char) -> Seq<Seq<char>>
    decreases s.len(),
{
    if s.len() == 0 {
        seq![seq![]]
    } else {
        let rest = split_on(s.drop_last(), c);
        if s.last() == c {
            rest.push(seq![])
        } else {
            rest.drop_last().push(rest.last().push(s.last()))
        }
    }
}

/// Whether the `i`-th piece between '/' is a component of the path: not
/// empty, and not "." except as the first piece.
pub open spec fn is_component(piece: Seq<char>, i: int) -> bool {
    piece.len() > 0 && (piece != seq!['.'] || i == 0)
}

/// The components among the first `n` pieces.
pub open spec fn components_upto(pieces: Seq<Seq<char>>, n: int) -> Seq<Seq<char>>
    decreases n,
{
    if n <= 0 {
        seq![]
    } else {
        let rest = components_upto(pieces, n - 1);
        if is_component(pieces[n - 1], n - 1) {
            rest.push(pieces[n - 1])
        } else {
            rest
        }
    }
}

/// The components of a path, as std's `Path::components` gives the normal
/// ones: repeated '/' and "." in the middle or at the end are left out.
pub open spec fn components(p: Seq<char>) -> Seq<Seq<char>> {
    let pieces = split_on(p, '/');
    components_upto(pieces, pieces.len() as int)
}

/// Whether a path starts at the root.
pub open spec fn is_rooted(p: Seq<char>) -> bool {
    p.len() > 0 && p[0] == '/'
}

/// Whether two paths are the same path, as std's `Path` compares them: both
/// or neither start at the root, and they have the same components.
pub open spec fn same_path(a: Seq<char>, b: Seq<char>) -> bool {
    is_rooted(a) == is_rooted(b) && components(a) == components(b)
}

/// Every character of every piece is a character of the text other than `c`.
proof fn lemma_split_chars(s: Seq<char>, c: char)
    ensures
        forall|k: int, j: int|
            0 <= k < split_on(s, c).len() && 0 <= j < split_on(s, c)[k].len() ==> exists|i: int|
                0 <= i < s.len() && s[i] == #[trigger] split_on(s, c)[k][j] && s[i] != c,
        split_on(s, c).len() > 0,
    decreases s.len(),
{
    if s.len() > 0 {
        let t = s.drop_last();
        lemma_split_chars(t, c);
        let rest = split_on(t, c);
        let r = split_on(s, c);
        assert forall|k: int, j: int| 0 <= k < r.len() && 0 <= j < r[k].len() implies exists|i: int|
            0 <= i < s.len() && s[i] == #[trigger] r[k][j] && s[i] != c by {
            if s.last() == c {
                if k < rest.len() {
                    assert(r[k] == rest[k]);
                    let i = choose|i: int| 0 <= i < t.len() && t[i] == rest[k][j] && t[i] != c;
                    assert(s[i] == t[i]);
                }
            } else {
                if k < rest.len() - 1 {
                    assert(r[k] == rest[k]);
                    let i = choose|i: int| 0 <= i < t.len() && t[i] == rest[k][j] && t[i] != c;
                    assert(s[i] == t[i]);
                } else {
                    assert(r[k] == rest.last().push(s.last()));
                    if j < rest.last().len() {
                        let i = choose|i: int| 0 <= i < t.len() && t[i] == rest[rest.len() - 1][j] && t[i] != c;
                        assert(s[i] == t[i]);
                    } else {
                        assert(s[s.len() - 1] == r[k][j]);
                    }
                }
            }
        }
    }
}

/// The last piece ends with the text's last character where that is not `c`.
proof fn lemma_split_last(s: Seq<char>, c: char)
    requires
        s.len() > 0,
        s.last() != c,
    ensures
        split_on(s, c).last().len() > 0,
        split_on(s, c).last().last() == s.last(),
{
    lemma_split_chars(s.drop_last(), c);
}

proof fn lemma_components_upto_same(a: Seq<Seq<char>>, b: Seq<Seq<char>>, n: int)
    requires
        forall|i: int| 0 <= i < n ==> a[i] == b[i],
    ensures
        components_upto(a, n) == components_upto(b, n),
    decreases n,
{
    if n > 0 {
        lemma_components_upto_same(a, b, n - 1);
    }
}

/// A path with nothing left once its end is stripped has no component.
proof fn lemma_tail_empty(p: Seq<char>)
    requires
        strip_tail(p).len() == 0,
    ensures
        components(p).len() == 0,
    decreases p.len(),
{
    if p.len() > 0 {
        let t = p.drop_last();
        let pt = split_on(t, '/');
        let pp = split_on(p, '/');
        lemma_tail_empty(t);
        lemma_split_chars(t, '/');
        if p.last() == '/' {
            assert(pp == pt.push(seq![]));
            lemma_components_upto_same(pp, pt, pt.len() as int);
            assert(!is_component(pp[pt.len() as int], pt.len() as int));
            assert(components(p) == components_upto(pp, pt.len() as int));
        } else {
            let t2 = t.drop_last();
            let q = split_on(t2, '/');
            lemma_split_chars(t2, '/');
            assert(pt == q.push(seq![]));
            assert(pp == pt.drop_last().push(seq!['.']));
            lemma_components_upto_same(pp, pt, pt.len() - 1);
            assert(pt.len() >= 2);
            assert(pp[pp.len() - 1] == seq!['.']);
            assert(!is_component(pp[pp.len() - 1], pp.len() - 1));
            assert(components(p) == components_upto(pp, pp.len() - 1));
            assert(!is_component(pt[pt.len() - 1], pt.len() - 1));
            assert(components(t) == components_upto(pt, pt.len() - 1));
        }
    } else {
        let pp = split_on(p, '/');
        assert(pp == seq![Seq::<char>::empty()]);
        assert(!is_component(pp[0], 0));
        assert(components_upto(pp, 0) == Seq::<Seq<char>>::empty());
    }
}

/// A path with a component has a parent.
pub proof fn lemma_components_have_parent(p: Seq<char>)
    requires
        components(p).len() > 0,
    ensures
        has_parent(p),
{
    if strip_tail(p).len() == 0 {
        lemma_tail_empty(p);
    }
}

/// A path that ends in a character other than '/' and '.' has a component.
pub proof fn lemma_last_is_component(p: Seq<char>)
    requires
        p.len() > 0,
        p.last() != '/',
        p.last() != '.',
    ensures
        components(p).len() > 0,
{
    let pieces = split_on(p, '/');
    lemma_split_last(p, '/');
    lemma_split_chars(p, '/');
    let n = pieces.len() as int;
    assert(pieces[n - 1].last() != '.');
    assert(pieces[n - 1] != seq!['.']);
    assert(is_component(pieces[n - 1], n - 1));
}

/// Splits a text at the occurrences of `c`.
fn split_chars(s: &Vec<char>, c: char) -> (r: Vec<Vec<char>>)
    ensures
        r@.map_values(|x: Vec<char>| x@) == split_on(s@, c),
{
    let mut parts: Vec<Vec<char>> = Vec::new();
    let mut cur: Vec<char> = Vec::new();
    let mut i: usize = 0;
    proof {
        assert(s@.subrange(0, 0) =~= seq![]);
    }
    while i < s.len()
        invariant
            i <= s@.len(),
            parts@.map_values(|x: Vec<char>| x@).push(cur@) == split_on(s@.subrange(0, i as int), c),
        decreases s@.len() - i,
    {
        let ghost pre = s@.subrange(0, i as int);
        let ghost post = s@.subrange(0, i + 1);
        proof {
            assert(post.drop_last() =~= pre);
            assert(post.last() == s@[i as int]);
        }
        if s[i] == c {
            let ghost before = parts@.map_values(|x: Vec<char>| x@);
            let done = cur;
            parts.push(done);
            cur = Vec::new();
            proof {
                assert(parts@.map_values(|x: Vec<char>| x@) =~= before.push(done@));
                assert(parts@.map_values(|x: Vec<char>| x@).push(cur@) =~= split_on(post, c));
            }
        } else {
            let ghost cur_before = cur@;
            cur.push(s[i]);
            proof {
                let pv = parts@.map_values(|x: Vec<char>| x@);
                assert(pv.push(cur_before).drop_last() =~= pv);
                assert(pv.push(cur@) =~= split_on(post, c));
            }
        }
        i = i + 1;
    }
    let ghost before = parts@.map_values(|x: Vec<char>| x@);
    parts.push(cur);
    proof {
        assert(s@.subrange(0, s@.len() as int) =~= s@);
        assert(parts@.map_values(|x: Vec<char>| x@) =~= before.push(parts@.last()@));
    }
    parts
}

fn chars_equal(a: &Vec<char>, b: &Vec<char>) -> (r: bool)
    ensures
        r == (a@ == b@),
{
    if a.len() != b.len() {
        return false;
    }
    let mut i: usize = 0;
    while i < a.len()
        invariant
            a@.len() == b@.len(),
            i <= a@.len(),
            forall|j: int| 0 <= j < i ==> a@[j] == b@[j],
        decreases a@.len() - i,
    {
        if a[i] != b[i] {
            return false;
        }
        i = i + 1;
    }
    proof {
        assert(a@ =~= b@);
    }
    true
}

fn path_components(p: &str) -> (r: Vec<Vec<char>>)
    ensures
        r@.map_values(|x: Vec<char>| x@) == components(p@),
{
    let v = chars_of(p);
    let pieces = split_chars(&v, '/');
    let ghost pv = pieces@.map_values(|x: Vec<char>| x@);
    let mut out: Vec<Vec<char>> = Vec::new();
    let mut i: usize = 0;
    while i < pieces.len()
        invariant
            i <= pieces@.len(),
            pv == pieces@.map_values(|x: Vec<char>| x@),
            out@.map_values(|x: Vec<char>| x@) == components_upto(pv, i as int),
        decreases pieces@.len() - i,
    {
        let piece = &pieces[i];
        let keep = piece.len() > 0 && (i == 0 || !(piece.len() == 1 && piece[0] == '.'));
        proof {
            assert(pv[i as int] == piece@);
            if piece@ == seq!['.'] {
                assert(piece@.len() == 1 && piece@[0] == '.');
            }
            if piece@.len() == 1 && piece@[0] == '.' {
                assert(piece@ =~= seq!['.']);
            }
        }
        if keep {
            let ghost before = out@.map_values(|x: Vec<char>| x@);
            out.push(pieces[i].clone());
            proof {
                assert(out@.map_values(|x: Vec<char>| x@) =~= before.push(pv[i as int]));
            }
        }
        i = i + 1;
    }
    out
}

/// Whether two paths are the same path, component by component.
pub fn paths_equal(a: &str, b: &str) -> (r: bool)
    ensures
        r == same_path(a@, b@),
{
    let va = chars_of(a);
    let vb = chars_of(b);
    let ra = va.len() > 0 && va[0] == '/';
    let rb = vb.len() > 0 && vb[0] == '/';
    if ra != rb {
        return false;
    }
    let ca = path_components(a);
    let cb = path_components(b);
    let ghost sa = ca@.map_values(|x: Vec<char>| x@);
    let ghost sb = cb@.map_values(|x: Vec<char>| x@);
    if ca.len() != cb.len() {
        proof {
            assert(sa.len() != sb.len());
        }
        return false;
    }
    let mut i: usize = 0;
    while i < ca.len()
        invariant
            ca@.len() == cb@.len(),
            i <= ca@.len(),
            sa == ca@.map_values(|x: Vec<char>| x@),
            sb == cb@.map_values(|x: Vec<char>| x@),
            sa == components(a@),
            sb == components(b@),
            is_rooted(a@) == is_rooted(b@),
            forall|j: int| 0 <= j < i ==> sa[j] == sb[j],
        decreases ca@.len() - i,
    {
        if !chars_equal(&ca[i], &cb[i]) {
            proof {
                assert(sa[i as int] != sb[i as int]);
                assert(sa != sb);
                assert(components(a@) != components(b@));
            }
            return false;
        }
        i = i + 1;
    }
    proof {
        assert(sa =~= sb);
    }
    true
}

} // verus!
