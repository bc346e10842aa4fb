//! A model of Unix paths held as text, following the rules of std's `Path` on Unix:
//! pieces between `/` separators, the components they make, joining, prefix tests and
//! prefix removal.

use vstd::prelude::*;

use crate::text::chars_eq;

verus! {

/// A piece of a path that yields no component: empty (from repeated or trailing
/// separators) or a single `.`.
pub open spec fn is_trivial(seg: Seq<char>) -> bool {
    seg.len() == 0 || seg == seq!['.']
}

/// The pieces of `s` between `/` separators, from left to right; a string with `n`
/// separators has `n + 1` pieces.
pub open spec fn segments(s: Seq<char>) -> Seq<Seq<char>>
    decreases s.len(),
{
    if s.len() == 0 {
        seq![Seq::<char>::empty()]
    } else {
        let r = segments(s.drop_last());
        if s.last() == '/' {
            r.push(Seq::<char>::empty())
        } else {
            r.update(r.len() - 1, r.last().push(s.last()))
        }
    }
}

/// The pieces in `segs` put back together with `/` between them.
pub open spec fn join(segs: Seq<Seq<char>>) -> Seq<char>
    decreases segs.len(),
{
    if segs.len() == 0 {
        Seq::<char>::empty()
    } else if segs.len() == 1 {
        segs[0]
    } else {
        join(segs.drop_last()) + seq!['/'] + segs.last()
    }
}

/// The pieces of `segs` that are not trivial, in order.
pub open spec fn normals(segs: Seq<Seq<char>>) -> Seq<Seq<char>>
    decreases segs.len(),
{
    if segs.len() == 0 {
        Seq::<Seq<char>>::empty()
    } else if is_trivial(segs.last()) {
        normals(segs.drop_last())
    } else {
        normals(segs.drop_last()).push(segs.last())
    }
}

/// The label that stands for the root directory among components.
pub open spec fn root_label() -> Seq<char> {
    seq!['/']
}

/// The label that stands for a leading `.` among components.
pub open spec fn cur_label() -> Seq<char> {
    seq!['.']
}

/// A path is absolute on Unix when it begins with `/`.
pub open spec fn is_absolute(s: Seq<char>) -> bool {
    s.len() > 0 && s[0] == '/'
}

/// The components of a path, as std's `Path::components` yields them on Unix: the
/// root first for an absolute path, a `.` first for a relative path whose first piece
/// is `.`, then each piece that is neither empty nor `.`.
pub open spec fn components(s: Seq<char>) -> Seq<Seq<char>> {
    let segs = segments(s);
    if is_absolute(s) {
        seq![root_label()] + normals(segs.drop_first())
    } else if segs[0] == cur_label() {
        seq![cur_label()] + normals(segs.drop_first())
    } else {
        normals(segs)
    }
}

/// Two paths are equal when their components are (std's `Path` equality).
pub open spec fn path_eq(a: Seq<char>, b: Seq<char>) -> bool {
    components(a) == components(b)
}

/// `base`'s components are a prefix of `s`'s (std's `Path::starts_with`).
pub open spec fn path_starts_with(s: Seq<char>, base: Seq<char>) -> bool {
    let c = components(s);
    let b = components(base);
    b.len() <= c.len() && c.take(b.len() as int) == b
}

/// `p` appended to `base` as std's `PathBuf::push` does on Unix: an absolute `p`
/// replaces `base`; otherwise a separator is put between them unless `base` is empty
/// or already ends with one.
pub open spec fn join_path(base: Seq<char>, p: Seq<char>) -> Seq<char> {
    if is_absolute(p) {
        p
    } else if base.len() > 0 && base.last() != '/' {
        base + seq!['/'] + p
    } else {
        base + p
    }
}

/// `segs` after its first `n` non-trivial pieces and every piece before them.
pub open spec fn drop_comps(segs: Seq<Seq<char>>, n: nat) -> Seq<Seq<char>>
    decreases segs.len(),
{
    if n == 0 || segs.len() == 0 {
        segs
    } else if is_trivial(segs[0]) {
        drop_comps(segs.drop_first(), n)
    } else {
        drop_comps(segs.drop_first(), (n - 1) as nat)
    }
}

/// `segs` without its leading trivial pieces.
pub open spec fn trim_front(segs: Seq<Seq<char>>) -> Seq<Seq<char>>
    decreases segs.len(),
{
    if segs.len() > 0 && is_trivial(segs[0]) {
        trim_front(segs.drop_first())
    } else {
        segs
    }
}

/// `segs` without its trailing trivial pieces.
pub open spec fn trim_back(segs: Seq<Seq<char>>) -> Seq<Seq<char>>
    decreases segs.len(),
{
    if segs.len() > 0 && is_trivial(segs.last()) {
        trim_back(segs.drop_last())
    } else {
        segs
    }
}

/// The text that std's `Path::strip_prefix` gives back once `n` components of `s` have
/// been matched: with no component matched, `s` without trailing trivial pieces (its
/// root or leading `.` kept); otherwise the text after the `n`-th component with
/// leading and trailing trivial pieces removed.
pub open spec fn rest_after(s: Seq<char>, n: nat) -> Seq<char> {
    let segs = segments(s);
    let head_comp = is_absolute(s) || segs[0] == cur_label();
    if n == 0 {
        if head_comp {
            let tail = trim_back(segs.drop_first());
            if tail.len() == 0 {
                segs[0] + (if is_absolute(s) { seq!['/'] } else { Seq::<char>::empty() })
            } else {
                join(seq![segs[0]] + tail)
            }
        } else {
            join(trim_back(segs))
        }
    } else if head_comp {
        join(trim_back(trim_front(drop_comps(segs.drop_first(), (n - 1) as nat))))
    } else {
        join(trim_back(trim_front(drop_comps(segs, n))))
    }
}

/// std's `Path::strip_prefix`: the rest of `s` when `base` is a prefix of it.
pub open spec fn strip_prefix(s: Seq<char>, base: Seq<char>) -> Option<Seq<char>> {
    if path_starts_with(s, base) {
        Some(rest_after(s, components(base).len()))
    } else {
        None
    }
}


/// The texts held by a vector of character vectors.
pub open spec fn views(v: Seq<Vec<char>>) -> Seq<Seq<char>> {
    v.map_values(|x: Vec<char>| x@)
}

proof fn lemma_views_push(v: Seq<Vec<char>>, x: Vec<char>)
    ensures
        views(v.push(x)) == views(v).push(x@),
{
    assert(views(v.push(x)) =~= views(v).push(x@));
}

/// A copy of a character vector.
pub fn copy_chars(v: &Vec<char>) -> (r: Vec<char>)
    ensures
        r@ == v@,
{
    let mut r: Vec<char> = Vec::new();
    let mut i: usize = 0;
    while i < v.len()
        invariant
            i <= v.len(),
            r@ == v@.take(i as int),
        decreases v.len() - i,
    {
        r.push(v[i]);
        proof {
            assert(v@.take(i as int).push(v@[i as int]) =~= v@.take(i + 1));
        }
        i = i + 1;
    }
    proof {
        assert(v@.take(v.len() as int) =~= v@);
    }
    r
}

/// The pieces of `p` between separators.
pub fn split_segments(p: &Vec<char>) -> (segs: Vec<Vec<char>>)
    ensures
        views(segs@) == segments(p@),
{
    let mut done: Vec<Vec<char>> = Vec::new();
    let mut cur: Vec<char> = Vec::new();
    let mut i: usize = 0;
    proof {
        assert(p@.take(0) =~= Seq::<char>::empty());
        assert(views(done@).push(cur@) =~= seq![Seq::<char>::empty()]);
    }
    while i < p.len()
        invariant
            i <= p.len(),
            views(done@).push(cur@) == segments(p@.take(i as int)),
        decreases p.len() - i,
    {
        let c = p[i];
        let ghost prev = views(done@).push(cur@);
        proof {
            assert(p@.take(i + 1).drop_last() =~= p@.take(i as int));
            assert(p@.take(i + 1).last() == c);
        }
        if c == '/' {
            proof {
                lemma_views_push(done@, cur);
            }
            done.push(cur);
            cur = Vec::new();
            proof {
                assert(views(done@).push(cur@) =~= prev.push(Seq::<char>::empty()));
            }
        } else {
            cur.push(c);
            proof {
                assert(views(done@).push(cur@) =~= prev.update(
                    prev.len() - 1,
                    prev.last().push(c),
                ));
            }
        }
        i = i + 1;
    }
    proof {
        assert(p@.take(p.len() as int) =~= p@);
        lemma_views_push(done@, cur);
    }
    done.push(cur);
    done
}

/// Whether a piece is trivial.
pub fn is_trivial_exec(seg: &Vec<char>) -> (r: bool)
    ensures
        r == is_trivial(seg@),
{
    if seg.len() == 0 {
        true
    } else if seg.len() == 1 && seg[0] == '.' {
        assert(seg@ =~= seq!['.']);
        true
    } else {
        assert(seg@.len() != 1 || seg@[0] != '.');
        false
    }
}

/// The non-trivial pieces of `segs` from index `start` on.
pub fn normals_from(segs: &Vec<Vec<char>>, start: usize) -> (r: Vec<Vec<char>>)
    requires
        start <= segs.len(),
    ensures
        views(r@) == normals(views(segs@).skip(start as int)),
{
    let ghost all = views(segs@);
    let mut r: Vec<Vec<char>> = Vec::new();
    let mut i: usize = start;
    proof {
        assert(all.subrange(start as int, start as int) =~= Seq::<Seq<char>>::empty());
    }
    while i < segs.len()
        invariant
            start <= i <= segs.len(),
            all == views(segs@),
            views(r@) == normals(all.subrange(start as int, i as int)),
        decreases segs.len() - i,
    {
        proof {
            assert(all.subrange(start as int, i + 1).drop_last() =~= all.subrange(
                start as int,
                i as int,
            ));
            assert(all.subrange(start as int, i + 1).last() == segs@[i as int]@);
        }
        if !is_trivial_exec(&segs[i]) {
            let c = copy_chars(&segs[i]);
            proof {
                lemma_views_push(r@, c);
            }
            r.push(c);
        }
        i = i + 1;
    }
    proof {
        assert(all.subrange(start as int, segs.len() as int) =~= all.skip(start as int));
    }
    r
}


proof fn lemma_segments_nonempty(s: Seq<char>)
    ensures
        segments(s).len() >= 1,
    decreases s.len(),
{
    if s.len() > 0 {
        lemma_segments_nonempty(s.drop_last());
    }
}

proof fn lemma_views_add(a: Seq<Vec<char>>, b: Seq<Vec<char>>)
    ensures
        views(a + b) == views(a) + views(b),
{
    assert(views(a + b) =~= views(a) + views(b));
}

/// The components of `p`.
pub fn components_of(p: &Vec<char>) -> (r: Vec<Vec<char>>)
    ensures
        views(r@) == components(p@),
{
    let segs = split_segments(p);
    proof {
        lemma_segments_nonempty(p@);
    }
    let dot: Vec<char> = vec!['.'];
    proof {
        assert(dot@ =~= cur_label());
        assert(views(segs@).skip(1) =~= views(segs@).drop_first());
    }
    if p.len() > 0 && p[0] == '/' {
        let mut first: Vec<char> = Vec::new();
        first.push('/');
        let mut r: Vec<Vec<char>> = Vec::new();
        r.push(first);
        let mut n = normals_from(&segs, 1);
        proof {
            lemma_views_add(r@, n@);
            assert(first@ =~= root_label());
            assert(views(r@) =~= seq![root_label()]);
        }
        r.append(&mut n);
        r
    } else if chars_eq(&segs[0], &dot) {
        let mut first: Vec<char> = Vec::new();
        first.push('.');
        let mut r: Vec<Vec<char>> = Vec::new();
        r.push(first);
        let mut n = normals_from(&segs, 1);
        proof {
            lemma_views_add(r@, n@);
            assert(first@ =~= cur_label());
            assert(views(r@) =~= seq![cur_label()]);
        }
        r.append(&mut n);
        r
    } else {
        let r = normals_from(&segs, 0);
        proof {
            assert(views(segs@).skip(0) =~= views(segs@));
        }
        r
    }
}

/// Whether the texts in `b` are a prefix of the texts in `c`.
fn is_prefix_of(b: &Vec<Vec<char>>, c: &Vec<Vec<char>>) -> (r: bool)
    ensures
        r == (views(b@).len() <= views(c@).len() && views(c@).take(views(b@).len() as int)
            == views(b@)),
{
    if b.len() > c.len() {
        return false;
    }
    let mut i: usize = 0;
    while i < b.len()
        invariant
            i <= b.len() <= c.len(),
            forall|j: int| 0 <= j < i ==> views(c@)[j] == views(b@)[j],
        decreases b.len() - i,
    {
        if !chars_eq(&b[i], &c[i]) {
            assert(views(c@).take(views(b@).len() as int)[i as int] != views(b@)[i as int]);
            return false;
        }
        i = i + 1;
    }
    assert(views(c@).take(views(b@).len() as int) =~= views(b@));
    true
}

/// std's `Path::starts_with` on `s` and `base`.
pub fn starts_with_exec(s: &Vec<char>, base: &Vec<char>) -> (r: bool)
    ensures
        r == path_starts_with(s@, base@),
{
    let c = components_of(s);
    let b = components_of(base);
    is_prefix_of(&b, &c)
}

/// std's `Path` equality on `a` and `b`.
pub fn path_eq_exec(a: &Vec<char>, b: &Vec<char>) -> (r: bool)
    ensures
        r == path_eq(a@, b@),
{
    let ca = components_of(a);
    let cb = components_of(b);
    let r = ca.len() == cb.len() && is_prefix_of(&ca, &cb);
    proof {
        if ca.len() == cb.len() {
            assert(views(cb@).take(views(ca@).len() as int) =~= views(cb@));
        }
        if r {
            assert(views(ca@) =~= views(cb@));
        } else if ca.len() != cb.len() {
            assert(views(ca@).len() != views(cb@).len());
        }
    }
    r
}

/// `p` appended to `base` as std's `PathBuf::join` does.
pub fn join_path_exec(base: &Vec<char>, p: &Vec<char>) -> (r: Vec<char>)
    ensures
        r@ == join_path(base@, p@),
{
    if p.len() > 0 && p[0] == '/' {
        return copy_chars(p);
    }
    let mut r = copy_chars(base);
    if base.len() > 0 && base[base.len() - 1] != '/' {
        r.push('/');
    }
    let mut q = copy_chars(p);
    r.append(&mut q);
    r
}

/// The index `j` at which `drop_comps(views(segs).skip(start), n)` begins.
fn drop_comps_index(segs: &Vec<Vec<char>>, start: usize, n: usize) -> (j: usize)
    requires
        start <= segs.len(),
    ensures
        start <= j <= segs.len(),
        drop_comps(views(segs@).skip(start as int), n as nat) == views(segs@).skip(j as int),
{
    let ghost all = views(segs@);
    let mut i = start;
    let mut m = n;
    while m > 0 && i < segs.len()
        invariant
            start <= i <= segs.len(),
            all == views(segs@),
            drop_comps(all.skip(start as int), n as nat) == drop_comps(all.skip(i as int), m as nat),
        decreases segs.len() - i,
    {
        proof {
            assert(all.skip(i as int).drop_first() =~= all.skip(i + 1));
            assert(all.skip(i as int)[0] == segs@[i as int]@);
        }
        if !is_trivial_exec(&segs[i]) {
            m = m - 1;
        }
        i = i + 1;
    }
    proof {
        if i == segs.len() {
            assert(all.skip(i as int).len() == 0);
        }
    }
    i
}

/// The index at which `trim_front(views(segs).skip(start))` begins.
fn trim_front_index(segs: &Vec<Vec<char>>, start: usize) -> (j: usize)
    requires
        start <= segs.len(),
    ensures
        start <= j <= segs.len(),
        trim_front(views(segs@).skip(start as int)) == views(segs@).skip(j as int),
{
    let ghost all = views(segs@);
    let mut i = start;
    while i < segs.len() && is_trivial_exec(&segs[i])
        invariant
            start <= i <= segs.len(),
            all == views(segs@),
            trim_front(all.skip(start as int)) == trim_front(all.skip(i as int)),
        decreases segs.len() - i,
    {
        proof {
            assert(all.skip(i as int).drop_first() =~= all.skip(i + 1));
            assert(all.skip(i as int)[0] == segs@[i as int]@);
        }
        i = i + 1;
    }
    proof {
        if i < segs.len() {
            assert(all.skip(i as int)[0] == segs@[i as int]@);
        }
    }
    i
}

/// The index at which `trim_back(views(segs).skip(start))` ends.
fn trim_back_end(segs: &Vec<Vec<char>>, start: usize) -> (j: usize)
    requires
        start <= segs.len(),
    ensures
        start <= j <= segs.len(),
        trim_back(views(segs@).skip(start as int)) == views(segs@).subrange(start as int, j as int),
{
    let ghost all = views(segs@);
    let mut i = segs.len();
    proof {
        assert(all.skip(start as int) =~= all.subrange(start as int, segs.len() as int));
    }
    while i > start && is_trivial_exec(&segs[i - 1])
        invariant
            start <= i <= segs.len(),
            all == views(segs@),
            trim_back(all.skip(start as int)) == trim_back(all.subrange(start as int, i as int)),
        decreases i,
    {
        proof {
            assert(all.subrange(start as int, i as int).drop_last() =~= all.subrange(
                start as int,
                i - 1,
            ));
            assert(all.subrange(start as int, i as int).last() == segs@[i - 1]@);
        }
        i = i - 1;
    }
    proof {
        if i > start {
            assert(all.subrange(start as int, i as int).last() == segs@[i - 1]@);
        }
    }
    i
}

/// The pieces `segs[lo..hi]` joined with separators.
fn join_range(segs: &Vec<Vec<char>>, lo: usize, hi: usize) -> (r: Vec<char>)
    requires
        lo <= hi <= segs.len(),
    ensures
        r@ == join(views(segs@).subrange(lo as int, hi as int)),
{
    let ghost all = views(segs@);
    let mut r: Vec<char> = Vec::new();
    if lo == hi {
        return r;
    }
    r = copy_chars(&segs[lo]);
    let mut k = lo + 1;
    proof {
        assert(all.subrange(lo as int, lo + 1) =~= seq![segs@[lo as int]@]);
    }
    while k < hi
        invariant
            lo < k <= hi <= segs.len(),
            all == views(segs@),
            r@ == join(all.subrange(lo as int, k as int)),
        decreases hi - k,
    {
        proof {
            assert(all.subrange(lo as int, k + 1).drop_last() =~= all.subrange(lo as int, k as int));
            assert(all.subrange(lo as int, k + 1).last() == segs@[k as int]@);
        }
        r.push('/');
        let mut c = copy_chars(&segs[k]);
        r.append(&mut c);
        k = k + 1;
    }
    r
}

/// The text std's `Path::strip_prefix` gives back after `n` components of `p`.
#[verifier::spinoff_prover]
fn rest_after_exec(p: &Vec<char>, n: usize) -> (r: Vec<char>)
    ensures
        r@ == rest_after(p@, n as nat),
{
    let segs = split_segments(p);
    proof {
        lemma_segments_nonempty(p@);
    }
    let ghost all = views(segs@);
    let dot: Vec<char> = vec!['.'];
    let absolute = p.len() > 0 && p[0] == '/';
    let head = absolute || chars_eq(&segs[0], &dot);
    proof {
        assert(dot@ =~= cur_label());
    }
    if n == 0 {
        if head {
            let hi = trim_back_end(&segs, 1);
            if hi == 1 {
                let mut r = copy_chars(&segs[0]);
                if absolute {
                    r.push('/');
                }
                proof {
                    assert(trim_back(all.drop_first()).len() == 0);
                    if !absolute {
                        assert(r@ =~= all[0] + Seq::<char>::empty());
                    }
                }
                r
            } else {
                proof {
                    assert(all.drop_first() =~= all.skip(1));
                    assert(seq![all[0]] + all.subrange(1, hi as int) =~= all.subrange(0, hi as int));
                }
                join_range(&segs, 0, hi)
            }
        } else {
            let hi = trim_back_end(&segs, 0);
            proof {
                assert(all.skip(0) =~= all);
            }
            join_range(&segs, 0, hi)
        }
    } else {
        let start: usize = if head { 1 } else { 0 };
        let m: usize = if head { n - 1 } else { n };
        let j = drop_comps_index(&segs, start, m);
        let lo = trim_front_index(&segs, j);
        let hi = trim_back_end(&segs, lo);
        proof {
            assert(all.drop_first() =~= all.skip(1));
            assert(all.skip(0) =~= all);
            assert(all.skip(lo as int) == trim_front(all.skip(j as int)));
        }
        join_range(&segs, lo, hi)
    }
}

/// std's `Path::strip_prefix` on `s` and `base`.
pub fn strip_prefix_exec(s: &Vec<char>, base: &Vec<char>) -> (r: Option<Vec<char>>)
    ensures
        r matches Some(t) ==> strip_prefix(s@, base@) == Some(t@),
        r is None ==> strip_prefix(s@, base@) is None,
{
    let c = components_of(s);
    let b = components_of(base);
    if is_prefix_of(&b, &c) {
        Some(rest_after_exec(s, b.len()))
    } else {
        None
    }
}


/// No character of `s` is a separator.
pub open spec fn no_sep(s: Seq<char>) -> bool {
    forall|i: int| 0 <= i < s.len() ==> s[i] != '/'
}

/// No piece of `segs` holds a separator.
pub open spec fn all_no_sep(segs: Seq<Seq<char>>) -> bool {
    forall|i: int| 0 <= i < segs.len() ==> no_sep(#[trigger] segs[i])
}

pub proof fn lemma_segments_no_sep(s: Seq<char>)
    ensures
        all_no_sep(segments(s)),
        segments(s).len() >= 1,
    decreases s.len(),
{
    if s.len() > 0 {
        lemma_segments_no_sep(s.drop_last());
        let r = segments(s.drop_last());
        if s.last() != '/' {
            let l = r.last().push(s.last());
            assert(no_sep(r[r.len() - 1]));
            assert(no_sep(l));
            let u = r.update(r.len() - 1, l);
            assert forall|i: int| 0 <= i < u.len() implies no_sep(#[trigger] u[i]) by {
                if i != r.len() - 1 {
                    assert(u[i] == r[i]);
                }
            }
        } else {
            let u = r.push(Seq::<char>::empty());
            assert forall|i: int| 0 <= i < u.len() implies no_sep(#[trigger] u[i]) by {
                if i < r.len() {
                    assert(u[i] == r[i]);
                }
            }
        }
    }
}

/// A separator between two texts splits their pieces apart.
#[verifier::spinoff_prover]
pub proof fn lemma_segments_sep(a: Seq<char>, b: Seq<char>)
    ensures
        segments(a + seq!['/'] + b) == segments(a) + segments(b),
    decreases b.len(),
{
    lemma_segments_nonempty(a);
    lemma_segments_nonempty(b);
    let ab = a + seq!['/'] + b;
    if b.len() == 0 {
        assert(ab.drop_last() =~= a);
        assert(segments(a).push(Seq::<char>::empty()) =~= segments(a) + segments(b));
    } else {
        let b0 = b.drop_last();
        lemma_segments_sep(a, b0);
        lemma_segments_nonempty(b0);
        assert(ab.drop_last() =~= a + seq!['/'] + b0);
        assert(ab.last() == b.last());
        let sa = segments(a);
        let sb0 = segments(b0);
        if b.last() == '/' {
            assert((sa + sb0).push(Seq::<char>::empty()) =~= sa + sb0.push(Seq::<char>::empty()));
        } else {
            let r = sa + sb0;
            assert(r.update(r.len() - 1, r.last().push(b.last())) =~= sa + sb0.update(
                sb0.len() - 1,
                sb0.last().push(b.last()),
            ));
        }
    }
}

/// A text without separators is a single piece.
pub proof fn lemma_segments_single(s: Seq<char>)
    requires
        no_sep(s),
    ensures
        segments(s) == seq![s],
    decreases s.len(),
{
    if s.len() > 0 {
        lemma_segments_single(s.drop_last());
        assert(s.drop_last().push(s.last()) =~= s);
        assert(seq![s.drop_last()].update(0, s.drop_last().push(s.last())) =~= seq![s]);
    } else {
        assert(s =~= Seq::<char>::empty());
    }
}

/// Splitting joined pieces gives the pieces back.
pub proof fn lemma_segments_join(segs: Seq<Seq<char>>)
    requires
        segs.len() >= 1,
        all_no_sep(segs),
    ensures
        segments(join(segs)) == segs,
    decreases segs.len(),
{
    if segs.len() == 1 {
        assert(no_sep(segs[0]));
        lemma_segments_single(segs[0]);
        assert(seq![segs[0]] =~= segs);
    } else {
        let init = segs.drop_last();
        assert forall|i: int| 0 <= i < init.len() implies no_sep(#[trigger] init[i]) by {
            assert(init[i] == segs[i]);
        }
        lemma_segments_join(init);
        assert(no_sep(segs[segs.len() - 1]));
        lemma_segments_single(segs.last());
        lemma_segments_sep(join(init), segs.last());
        assert(init + seq![segs.last()] =~= segs);
    }
}

/// The non-trivial pieces of two lists put end to end.
pub proof fn lemma_normals_add(a: Seq<Seq<char>>, b: Seq<Seq<char>>)
    ensures
        normals(a + b) == normals(a) + normals(b),
    decreases b.len(),
{
    if b.len() == 0 {
        assert(a + b =~= a);
        assert(normals(a) + normals(b) =~= normals(a));
    } else {
        lemma_normals_add(a, b.drop_last());
        assert((a + b).drop_last() =~= a + b.drop_last());
        assert((a + b).last() == b.last());
        if !is_trivial(b.last()) {
            assert((normals(a) + normals(b.drop_last())).push(b.last()) =~= normals(a) + normals(
                b.drop_last(),
            ).push(b.last()));
        }
    }
}

proof fn lemma_normals_cons(x: Seq<char>, l: Seq<Seq<char>>)
    ensures
        normals(seq![x] + l) == (if is_trivial(x) {
            normals(l)
        } else {
            seq![x] + normals(l)
        }),
{
    lemma_normals_add(seq![x], l);
    assert(seq![x].drop_last() =~= Seq::<Seq<char>>::empty());
    assert(normals(Seq::<Seq<char>>::empty()) =~= Seq::<Seq<char>>::empty());
    if is_trivial(x) {
        assert(normals(seq![x]) =~= Seq::<Seq<char>>::empty());
        assert(Seq::<Seq<char>>::empty() + normals(l) =~= normals(l));
    } else {
        assert(normals(seq![x]) =~= seq![x]);
    }
}

pub proof fn lemma_normals_trim_front(l: Seq<Seq<char>>)
    ensures
        normals(trim_front(l)) == normals(l),
    decreases l.len(),
{
    if l.len() > 0 && is_trivial(l[0]) {
        lemma_normals_trim_front(l.drop_first());
        assert(seq![l[0]] + l.drop_first() =~= l);
        lemma_normals_cons(l[0], l.drop_first());
    }
}

pub proof fn lemma_normals_trim_back(l: Seq<Seq<char>>)
    ensures
        normals(trim_back(l)) == normals(l),
    decreases l.len(),
{
    if l.len() > 0 && is_trivial(l.last()) {
        lemma_normals_trim_back(l.drop_last());
    }
}

pub proof fn lemma_normals_drop_comps(l: Seq<Seq<char>>, n: nat)
    requires
        n <= normals(l).len(),
    ensures
        normals(drop_comps(l, n)) == normals(l).skip(n as int),
    decreases l.len(),
{
    if n == 0 {
        assert(normals(l).skip(0) =~= normals(l));
    } else if l.len() == 0 {
    } else {
        assert(seq![l[0]] + l.drop_first() =~= l);
        lemma_normals_cons(l[0], l.drop_first());
        if is_trivial(l[0]) {
            lemma_normals_drop_comps(l.drop_first(), n);
        } else {
            lemma_normals_drop_comps(l.drop_first(), (n - 1) as nat);
            assert((seq![l[0]] + normals(l.drop_first())).skip(n as int) =~= normals(
                l.drop_first(),
            ).skip(n - 1));
        }
    }
}

/// Every non-trivial piece is a piece of the list.
pub proof fn lemma_normals_no_sep(l: Seq<Seq<char>>)
    requires
        all_no_sep(l),
    ensures
        all_no_sep(normals(l)),
        forall|i: int| 0 <= i < normals(l).len() ==> !is_trivial(#[trigger] normals(l)[i]),
    decreases l.len(),
{
    if l.len() > 0 {
        let init = l.drop_last();
        assert forall|i: int| 0 <= i < init.len() implies no_sep(#[trigger] init[i]) by {
            assert(init[i] == l[i]);
        }
        lemma_normals_no_sep(init);
        assert(no_sep(l[l.len() - 1]));
    }
}

proof fn lemma_all_no_sep_drop_first(l: Seq<Seq<char>>)
    requires
        all_no_sep(l),
        l.len() > 0,
    ensures
        all_no_sep(l.drop_first()),
{
    assert forall|i: int| 0 <= i < l.drop_first().len() implies no_sep(#[trigger] l.drop_first()[i]) by {
        assert(l.drop_first()[i] == l[i + 1]);
    }
}

proof fn lemma_all_no_sep_drop_last(l: Seq<Seq<char>>)
    requires
        all_no_sep(l),
        l.len() > 0,
    ensures
        all_no_sep(l.drop_last()),
{
    assert forall|i: int| 0 <= i < l.drop_last().len() implies no_sep(#[trigger] l.drop_last()[i]) by {
        assert(l.drop_last()[i] == l[i]);
    }
}

pub proof fn lemma_drop_comps_no_sep(l: Seq<Seq<char>>, n: nat)
    requires
        all_no_sep(l),
    ensures
        all_no_sep(drop_comps(l, n)),
    decreases l.len(),
{
    if n != 0 && l.len() != 0 {
        lemma_all_no_sep_drop_first(l);
        if is_trivial(l[0]) {
            lemma_drop_comps_no_sep(l.drop_first(), n);
        } else {
            lemma_drop_comps_no_sep(l.drop_first(), (n - 1) as nat);
        }
    }
}

/// After trimming, a list is empty or starts with a non-trivial piece.
pub proof fn lemma_trim_front_shape(l: Seq<Seq<char>>)
    requires
        all_no_sep(l),
    ensures
        all_no_sep(trim_front(l)),
        trim_front(l).len() > 0 ==> !is_trivial(trim_front(l)[0]),
    decreases l.len(),
{
    if l.len() > 0 && is_trivial(l[0]) {
        lemma_all_no_sep_drop_first(l);
        lemma_trim_front_shape(l.drop_first());
    }
}

/// Trimming the end of a list whose first piece is not trivial keeps that piece.
pub proof fn lemma_trim_back_shape(l: Seq<Seq<char>>)
    requires
        all_no_sep(l),
    ensures
        all_no_sep(trim_back(l)),
        l.len() > 0 && !is_trivial(l[0]) ==> trim_back(l).len() > 0 && trim_back(l)[0] == l[0],
    decreases l.len(),
{
    if l.len() > 0 && is_trivial(l.last()) {
        lemma_all_no_sep_drop_last(l);
        lemma_trim_back_shape(l.drop_last());
        if !is_trivial(l[0]) {
            assert(l.len() > 1);
            assert(l.drop_last()[0] == l[0]);
        }
    }
}

/// Joined pieces begin with the first piece.
pub proof fn lemma_join_first(segs: Seq<Seq<char>>)
    requires
        segs.len() > 0,
    ensures
        join(segs).len() >= segs[0].len(),
        join(segs).take(segs[0].len() as int) == segs[0],
    decreases segs.len(),
{
    if segs.len() > 1 {
        lemma_join_first(segs.drop_last());
        let j = join(segs.drop_last());
        assert((j + seq!['/'] + segs.last()).take(segs[0].len() as int) =~= j.take(
            segs[0].len() as int,
        ));
    } else {
        assert(segs[0].take(segs[0].len() as int) =~= segs[0]);
    }
}


/// A path that starts with an absolute path is absolute.
proof fn lemma_starts_with_absolute(s: Seq<char>, base: Seq<char>)
    requires
        is_absolute(base),
        path_starts_with(s, base),
    ensures
        is_absolute(s),
{
    let segs = segments(s);
    lemma_segments_no_sep(s);
    let cs = components(s);
    let cb = components(base);
    assert(cb[0] == root_label());
    assert(cs.take(cb.len() as int)[0] == cs[0]);
    if !is_absolute(s) {
        if segs[0] == cur_label() {
            assert(cs[0] == cur_label());
            assert(cur_label()[0] != root_label()[0]);
        } else {
            lemma_normals_no_sep(segs);
            assert(cs[0] == normals(segs)[0]);
            assert(no_sep(normals(segs)[0]));
            assert(root_label()[0] == '/');
        }
    }
}

/// The pieces that `strip_prefix` joins for an absolute `s` after `n` components.
pub open spec fn rest_pieces(s: Seq<char>, n: nat) -> Seq<Seq<char>> {
    trim_back(trim_front(drop_comps(segments(s).drop_first(), (n - 1) as nat)))
}

/// The shape of the rest pieces: no separators, the non-trivial ones are the
/// components after the first `n`, and the first piece is not trivial.
#[verifier::spinoff_prover]
proof fn lemma_rest_pieces(s: Seq<char>, n: nat)
    requires
        is_absolute(s),
        1 <= n <= components(s).len(),
    ensures
        all_no_sep(rest_pieces(s, n)),
        normals(rest_pieces(s, n)) == normals(segments(s).drop_first()).skip(n - 1),
        rest_pieces(s, n).len() > 0 ==> !is_trivial(rest_pieces(s, n)[0]),
        rest_after(s, n) == join(rest_pieces(s, n)),
{
    let is = segments(s);
    lemma_segments_no_sep(s);
    let id = is.drop_first();
    lemma_all_no_sep_drop_first(is);
    let d = drop_comps(id, (n - 1) as nat);
    lemma_drop_comps_no_sep(id, (n - 1) as nat);
    let f = trim_front(d);
    lemma_trim_front_shape(d);
    lemma_trim_back_shape(f);
    lemma_normals_drop_comps(id, (n - 1) as nat);
    lemma_normals_trim_front(d);
    lemma_normals_trim_back(f);
}

/// The rest of an absolute path after the home directory it lies strictly in: it is
/// relative, and joining it back onto the home directory gives a path with the same
/// components.
#[verifier::spinoff_prover]
pub proof fn lemma_rest_in_home(s: Seq<char>, h: Seq<char>)
    requires
        is_absolute(h),
        path_starts_with(s, h),
        !path_eq(s, h),
    ensures
        strip_prefix(s, h) is Some,
        strip_prefix(s, h)->Some_0.len() > 0,
        !is_absolute(strip_prefix(s, h)->Some_0),
        path_eq(join_path(h, strip_prefix(s, h)->Some_0), s),
        exists|t: Seq<Seq<char>>|
            clean_pieces(t) && #[trigger] join(t) == strip_prefix(s, h)->Some_0,
{
    lemma_starts_with_absolute(s, h);
    let k = components(h).len();
    let t = rest_pieces(s, k);
    lemma_rest_pieces(s, k);
    let rel = join(t);
    let hs = segments(h);
    let is = segments(s);
    let nh = normals(hs.drop_first());
    let ni = normals(is.drop_first());
    let ch = components(h);
    let ci = components(s);
    assert(ni.take(k - 1) =~= nh) by {
        assert forall|j: int| 0 <= j < k - 1 implies ni[j] == nh[j] by {
            assert(ci.take(k as int)[j + 1] == ch[j + 1]);
        }
    }
    if t.len() == 0 {
        assert(normals(t) =~= Seq::<Seq<char>>::empty());
        assert(ni =~= ni.take(k - 1) + ni.skip(k - 1));
        assert(ci =~= ch);
    }
    lemma_join_first(t);
    assert(no_sep(t[0]));
    assert(rel[0] == t[0][0]) by {
        assert(rel.take(t[0].len() as int)[0] == rel[0]);
    }
    lemma_segments_join(t);
    lemma_join_home_rest(h, rel, t);
    assert(ci =~= seq![root_label()] + ni.take(k - 1) + ni.skip(k - 1));
    lemma_trim_back_last(trim_front(drop_comps(segments(s).drop_first(), (k - 1) as nat)));
    assert(clean_pieces(t));
}

/// A non-empty list of pieces without separators whose first and last pieces are not
/// trivial: what `strip_prefix` joins into a rest.
pub open spec fn clean_pieces(t: Seq<Seq<char>>) -> bool {
    &&& t.len() > 0
    &&& all_no_sep(t)
    &&& !is_trivial(t[0])
    &&& !is_trivial(t.last())
}

proof fn lemma_trim_back_last(l: Seq<Seq<char>>)
    ensures
        trim_back(l).len() > 0 ==> !is_trivial(trim_back(l).last()),
    decreases l.len(),
{
    if l.len() > 0 && is_trivial(l.last()) {
        lemma_trim_back_last(l.drop_last());
    }
}

proof fn lemma_trim_front_drop_comps_add(a: Seq<Seq<char>>, b: Seq<Seq<char>>)
    ensures
        trim_front(drop_comps(a + b, normals(a).len())) == trim_front(b),
    decreases a.len(),
{
    if a.len() == 0 {
        assert(a + b =~= b);
    } else {
        let x = a[0];
        let a1 = a.drop_first();
        assert(seq![x] + a1 =~= a);
        assert((a + b).drop_first() =~= a1 + b);
        assert((a + b)[0] == x);
        lemma_normals_cons(x, a1);
        lemma_trim_front_drop_comps_add(a1, b);
        if is_trivial(x) {
            if normals(a).len() == 0 {
                assert(trim_front(a + b) == trim_front(a1 + b));
                assert(normals(a1).len() == 0);
            }
        }
    }
}

/// The home directory's components, counted from the pieces before a separator.
proof fn lemma_home_pieces(h: Seq<char>)
    requires
        is_absolute(h),
    ensures
        ({
            let a = if h.last() == '/' {
                h.drop_last()
            } else {
                h
            };
            &&& segments(a).len() >= 1
            &&& normals(segments(a).drop_first()) == normals(segments(h).drop_first())
            &&& components(h).len() == normals(segments(a).drop_first()).len() + 1
        }),
{
    let a = if h.last() == '/' {
        h.drop_last()
    } else {
        h
    };
    lemma_segments_nonempty(a);
    let sa = segments(a);
    let hd = segments(h).drop_first();
    if h.last() == '/' {
        assert(segments(h) == sa.push(Seq::<char>::empty()));
        assert(hd =~= sa.drop_first().push(Seq::<char>::empty()));
        assert(hd.drop_last() =~= sa.drop_first());
        assert(is_trivial(hd.last()));
    }
}

/// The rest of a clean rest joined onto the home directory is that rest.
#[verifier::spinoff_prover]
pub proof fn lemma_rest_of_joined(h: Seq<char>, t: Seq<Seq<char>>)
    requires
        is_absolute(h),
        clean_pieces(t),
    ensures
        path_starts_with(join_path(h, join(t)), h),
        !path_eq(join_path(h, join(t)), h),
        strip_prefix(join_path(h, join(t)), h) == Some(join(t)),
{
    let rel = join(t);
    lemma_join_first(t);
    assert(no_sep(t[0]));
    assert(rel[0] == t[0][0]) by {
        assert(rel.take(t[0].len() as int)[0] == rel[0]);
    }
    lemma_segments_join(t);
    lemma_join_home_rest(h, rel, t);
    let p = join_path(h, rel);
    let ch = components(h);
    let cp = components(p);
    lemma_normals_add(Seq::<Seq<char>>::empty(), t);
    assert(normals(t).len() > 0) by {
        assert(seq![t[0]] + t.drop_first() =~= t);
        lemma_normals_cons(t[0], t.drop_first());
    }
    assert(cp.take(ch.len() as int) =~= ch);
    assert(cp.len() != ch.len());
    // the rest after the home directory
    let a = if h.last() == '/' {
        h.drop_last()
    } else {
        h
    };
    assert(p =~= a + seq!['/'] + rel) by {
        if h.last() == '/' {
            assert(h =~= h.drop_last() + seq!['/']);
        }
    }
    assert(p[0] == '/');
    lemma_segments_sep(a, rel);
    lemma_home_pieces(h);
    let sa = segments(a);
    assert((sa + t).drop_first() =~= sa.drop_first() + t);
    lemma_trim_front_drop_comps_add(sa.drop_first(), t);
    assert(trim_front(t) == t);
    assert(trim_back(t) == t);
    assert(rest_after(p, ch.len()) == rel);
}

/// The components of a relative rest joined onto an absolute home directory.
#[verifier::spinoff_prover]
proof fn lemma_join_home_rest(h: Seq<char>, rel: Seq<char>, t: Seq<Seq<char>>)
    requires
        is_absolute(h),
        rel.len() > 0,
        rel[0] != '/',
        segments(rel) == t,
    ensures
        components(join_path(h, rel)) == components(h) + normals(t),
{
    let a = if h.last() == '/' {
        h.drop_last()
    } else {
        h
    };
    let p = join_path(h, rel);
    assert(p =~= a + seq!['/'] + rel) by {
        if h.last() == '/' {
            assert(h =~= h.drop_last() + seq!['/']);
        }
    }
    assert(p[0] == '/');
    lemma_segments_sep(a, rel);
    lemma_home_pieces(h);
    let sa = segments(a);
    assert((sa + t).drop_first() =~= sa.drop_first() + t);
    lemma_normals_add(sa.drop_first(), t);
    assert(components(p) =~= components(h) + normals(t));
}


/// The index of the last non-trivial piece of `segs`, or -1 when there is none.
pub open spec fn last_nontrivial(segs: Seq<Seq<char>>) -> int
    decreases segs.len(),
{
    if segs.len() == 0 {
        -1
    } else if !is_trivial(segs.last()) {
        segs.len() - 1
    } else {
        last_nontrivial(segs.drop_last())
    }
}

/// The index of the last `.` in `name`, or -1 when there is none.
pub open spec fn last_dot(name: Seq<char>) -> int
    decreases name.len(),
{
    if name.len() == 0 {
        -1
    } else if name.last() == '.' {
        name.len() - 1
    } else {
        last_dot(name.drop_last())
    }
}

/// std's `Path::file_stem` of a file name: the name up to its last `.`, or the whole
/// name when it has no `.` or its only one comes first.
pub open spec fn file_stem(name: Seq<char>) -> Seq<char> {
    if last_dot(name) <= 0 {
        name
    } else {
        name.take(last_dot(name))
    }
}

/// std's `Path::with_extension(p, "bak")` on Unix: when the last component of `p` is a
/// file name (neither the root, `.` nor `..`), the text up to the end of its stem
/// followed by `.bak`; otherwise `p` unchanged.
pub open spec fn with_bak_extension(p: Seq<char>) -> Seq<char> {
    let segs = segments(p);
    let j = last_nontrivial(segs);
    if j < 0 || segs[j] == seq!['.', '.'] {
        p
    } else {
        let head = if j == 0 {
            Seq::<char>::empty()
        } else {
            join(segs.take(j)) + seq!['/']
        };
        head + file_stem(segs[j]) + seq!['.', 'b', 'a', 'k']
    }
}

/// One past the index of the last non-trivial piece of `segs` (0 when none).
fn last_nontrivial_end(segs: &Vec<Vec<char>>) -> (j: usize)
    ensures
        j <= segs.len(),
        last_nontrivial(views(segs@)) == j - 1,
{
    let ghost all = views(segs@);
    let mut j = segs.len();
    proof {
        assert(all.take(segs.len() as int) =~= all);
    }
    while j > 0 && is_trivial_exec(&segs[j - 1])
        invariant
            j <= segs.len(),
            all == views(segs@),
            last_nontrivial(all) == last_nontrivial(all.take(j as int)),
        decreases j,
    {
        proof {
            assert(all.take(j as int).drop_last() =~= all.take(j - 1));
            assert(all.take(j as int).last() == segs@[j - 1]@);
        }
        j = j - 1;
    }
    proof {
        if j > 0 {
            assert(all.take(j as int).last() == segs@[j - 1]@);
        } else {
            assert(all.take(0).len() == 0);
        }
    }
    j
}

/// The length of the stem of a file name.
fn stem_len(name: &Vec<char>) -> (n: usize)
    ensures
        n <= name.len(),
        name@.take(n as int) == file_stem(name@),
{
    let mut d = name.len();
    proof {
        assert(name@.take(name.len() as int) =~= name@);
    }
    while d > 0 && name[d - 1] != '.'
        invariant
            d <= name.len(),
            last_dot(name@) == last_dot(name@.take(d as int)),
        decreases d,
    {
        proof {
            assert(name@.take(d as int).drop_last() =~= name@.take(d - 1));
        }
        d = d - 1;
    }
    proof {
        if d > 0 {
            assert(name@.take(d as int).last() == '.');
        } else {
            assert(name@.take(0).len() == 0);
        }
    }
    if d <= 1 {
        name.len()
    } else {
        d - 1
    }
}

/// `p` with the extension of its file name replaced by `bak` (std's
/// `Path::with_extension`).
#[verifier::spinoff_prover]
pub fn with_bak_extension_exec(p: &Vec<char>) -> (r: Vec<char>)
    ensures
        r@ == with_bak_extension(p@),
{
    let segs = split_segments(p);
    let ghost all = views(segs@);
    let j = last_nontrivial_end(&segs);
    if j == 0 {
        return copy_chars(p);
    }
    let k = j - 1;
    let name = &segs[k];
    assert(all[k as int] == name@);
    if name.len() == 2 && name[0] == '.' && name[1] == '.' {
        assert(name@ =~= seq!['.', '.']);
        return copy_chars(p);
    }
    assert(name@ != seq!['.', '.']);
    let stem_end = stem_len(name);
    let mut r = join_range(&segs, 0, k);
    if k > 0 {
        r.push('/');
    }
    let ghost start = r@;
    let mut i: usize = 0;
    while i < stem_end
        invariant
            i <= stem_end <= name.len(),
            r@ == start + name@.take(i as int),
        decreases stem_end - i,
    {
        r.push(name[i]);
        proof {
            assert(start + name@.take(i + 1) =~= (start + name@.take(i as int)).push(name@[i as int]));
        }
        i = i + 1;
    }
    r.push('.');
    r.push('b');
    r.push('a');
    r.push('k');
    proof {
        assert(all.subrange(0, k as int) =~= all.take(k as int));
        if k == 0 {
            assert(start =~= Seq::<char>::empty());
        }
        assert(r@ =~= with_bak_extension(p@));
    }
    r
}

} // verus!
