//! Unix-style paths as the plan-mode and `@` commands see them: a path is
//! its list of non-empty `/`-separated segments, absolute when it starts
//! with `/`.

use vstd::prelude::*;
use crate::text::{
    chars_of, copy_chars, eq_lit, join, join_from, key_is, keys_in_order, law_stable_order_unique,
    parts_le, push_char, push_chars, sort_by_parts_key, string_of, sub_chars, views,
};

verus! {

/// Length of the leading run of characters other than `/`.
pub open spec fn seg_len(s: Seq<char>) -> nat
    decreases s.len(),
{
    if s.len() == 0 || s[0] == '/' {
        0
    } else {
        1 + seg_len(s.drop_first())
    }
}

pub proof fn lemma_seg_len_bound(s: Seq<char>)
    ensures
        seg_len(s) <= s.len(),
        s.len() > 0 && s[0] != '/' ==> seg_len(s) >= 1,
    decreases s.len(),
{
    if s.len() > 0 && s[0] != '/' {
        lemma_seg_len_bound(s.drop_first());
    }
}

/// The non-empty `/`-separated segments of a path, in order.
pub open spec fn segments(s: Seq<char>) -> Seq<Seq<char>>
    decreases s.len(),
{
    if s.len() == 0 {
        seq![]
    } else if s[0] == '/' {
        segments(s.drop_first())
    } else {
        let n = seg_len(s);
        proof {
            lemma_seg_len_bound(s);
        }
        seq![s.take(n as int)] + segments(s.skip(n as int))
    }
}

/// Whether a path is absolute.
pub open spec fn is_absolute(s: Seq<char>) -> bool {
    s.len() > 0 && s[0] == '/'
}

/// A path reduced to its location: whether it is absolute, and its
/// components.
#[verifier::ext_equal]
pub struct PathModel {
    pub absolute: bool,
    pub components: Seq<Seq<char>>,
}

/// `base` joined with `p`: `p` itself when absolute, else `p`'s
/// segments appended to `base`'s.
pub open spec fn joined(base: Seq<char>, p: Seq<char>) -> PathModel {
    if is_absolute(p) {
        PathModel { absolute: true, components: segments(p) }
    } else {
        PathModel { absolute: is_absolute(base), components: segments(base) + segments(p) }
    }
}

/// Lexical normalization of components, left to right: `.` is dropped,
/// `..` removes the last kept component (if any), anything else is kept.
pub open spec fn normalize(c: Seq<Seq<char>>) -> Seq<Seq<char>>
    decreases c.len(),
{
    if c.len() == 0 {
        seq![]
    } else {
        let prev = normalize(c.drop_last());
        let x = c.last();
        if x == "."@ {
            prev
        } else if x == ".."@ {
            if prev.len() > 0 {
                prev.drop_last()
            } else {
                prev
            }
        } else {
            prev.push(x)
        }
    }
}

/// The lexically normalized form of a path.
pub open spec fn normalized(p: PathModel) -> PathModel {
    PathModel { absolute: p.absolute, components: normalize(p.components) }
}

/// Whether `prefix` is a prefix of `s`.
pub open spec fn is_prefix(prefix: Seq<Seq<char>>, s: Seq<Seq<char>>) -> bool {
    prefix.len() <= s.len() && s.take(prefix.len() as int) == prefix
}

/// Component-wise prefix (`Path::starts_with`): the root of an absolute
/// path is its first component, so a relative base is a prefix of an
/// absolute path only when it has no components, and an absolute base is
/// never a prefix of a relative path.
pub open spec fn path_starts_with(p: PathModel, base: PathModel) -> bool {
    if base.absolute == p.absolute {
        is_prefix(base.components, p.components)
    } else {
        !base.absolute && base.components.len() == 0
    }
}

/// How a path is displayed: its components joined by `/`, after a leading
/// `/` when absolute.
pub open spec fn display(p: PathModel) -> Seq<char> {
    if p.absolute {
        seq!['/'] + join(p.components, "/"@)
    } else {
        join(p.components, "/"@)
    }
}

/// A component that can stand in a parsed path: not empty, no `/`.
pub open spec fn plain_segment(w: Seq<char>) -> bool {
    w.len() > 0 && !w.contains('/')
}

/// Every segment of a path is non-empty and holds no `/`.
pub proof fn lemma_segments_plain(s: Seq<char>)
    ensures
        forall|k: int| 0 <= k < segments(s).len() ==> plain_segment(#[trigger] segments(s)[k]),
    decreases s.len(),
{
    if s.len() == 0 {
    } else if s[0] == '/' {
        lemma_segments_plain(s.drop_first());
        assert(segments(s) == segments(s.drop_first()));
    } else {
        let n = seg_len(s);
        lemma_seg_len_bound(s);
        lemma_seg_len_run(s);
        lemma_segments_plain(s.skip(n as int));
        let w = segments(s);
        assert(w == seq![s.take(n as int)] + segments(s.skip(n as int)));
        assert forall|k: int| 0 <= k < w.len() implies plain_segment(#[trigger] w[k]) by {
            if k > 0 {
                assert(w[k] == segments(s.skip(n as int))[k - 1]);
            } else {
                assert(w[0] == s.take(n as int));
                assert forall|i: int| 0 <= i < n implies s.take(n as int)[i] != '/' by {
                    assert(s.take(n as int)[i] == s[i]);
                }
            }
        }
    }
}

/// The leading run has no `/`.
pub proof fn lemma_seg_len_run(s: Seq<char>)
    ensures
        forall|i: int| 0 <= i < seg_len(s) ==> #[trigger] s[i] != '/',
    decreases s.len(),
{
    if s.len() > 0 && s[0] != '/' {
        let u = s.drop_first();
        lemma_seg_len_run(u);
        lemma_seg_len_bound(u);
        assert forall|i: int| 0 <= i < seg_len(s) implies #[trigger] s[i] != '/' by {
            if i > 0 {
                assert(s[i] == u[i - 1]);
            }
        }
    }
}

/// Normalization never keeps `.` or `..`, and keeps plain components plain.
pub proof fn lemma_normalize_keeps(c: Seq<Seq<char>>)
    ensures
        forall|k: int|
            0 <= k < normalize(c).len() ==> #[trigger] normalize(c)[k] != "."@ && normalize(c)[k]
                != ".."@,
        (forall|k: int| 0 <= k < c.len() ==> plain_segment(#[trigger] c[k])) ==> (forall|k: int|
            0 <= k < normalize(c).len() ==> plain_segment(#[trigger] normalize(c)[k])),
    decreases c.len(),
{
    if c.len() > 0 {
        let p = c.drop_last();
        lemma_normalize_keeps(p);
        let r = normalize(c);
        let prev = normalize(p);
        assert(c[c.len() - 1] == c.last());
        if forall|k: int| 0 <= k < c.len() ==> plain_segment(#[trigger] c[k]) {
            assert forall|k: int| 0 <= k < p.len() implies plain_segment(#[trigger] p[k]) by {
                assert(p[k] == c[k]);
            }
        }
        assert forall|k: int| 0 <= k < r.len() implies #[trigger] r[k] != "."@ && r[k] != ".."@ by {
            if k < prev.len() && r[k] == prev[k] {
            } else {
                assert(r[k] == c.last());
            }
        }
        if forall|k: int| 0 <= k < c.len() ==> plain_segment(#[trigger] c[k]) {
            assert forall|k: int| 0 <= k < r.len() implies plain_segment(#[trigger] r[k]) by {
                if k < prev.len() && r[k] == prev[k] {
                } else {
                    assert(r[k] == c.last());
                }
            }
        }
    }
}

/// Normalizing a normalized path changes nothing.
pub proof fn law_normalize_idempotent(c: Seq<Seq<char>>)
    ensures
        normalize(normalize(c)) == normalize(c),
{
    lemma_normalize_keeps(c);
    lemma_normalize_identity(normalize(c));
}

/// Components without `.` and `..` are already normal.
pub proof fn lemma_normalize_identity(c: Seq<Seq<char>>)
    requires
        forall|k: int| 0 <= k < c.len() ==> #[trigger] c[k] != "."@ && c[k] != ".."@,
    ensures
        normalize(c) == c,
    decreases c.len(),
{
    if c.len() > 0 {
        lemma_normalize_identity(c.drop_last());
        assert(c[c.len() - 1] == c.last());
        assert(c.drop_last().push(c.last()) =~= c);
    }
}

pub proof fn lemma_seg_len_concat(a: Seq<char>, b: Seq<char>)
    ensures
        seg_len(a + seq!['/'] + b) == seg_len(a),
    decreases a.len(),
{
    let s = a + seq!['/'] + b;
    if a.len() == 0 {
        assert(s[0] == '/');
    } else {
        assert(s[0] == a[0]);
        if a[0] != '/' {
            assert(s.drop_first() =~= a.drop_first() + seq!['/'] + b);
            lemma_seg_len_concat(a.drop_first(), b);
        }
    }
}

/// Segments of two paths joined by `/` are the segments of each, in order.
pub proof fn lemma_segments_concat(a: Seq<char>, b: Seq<char>)
    ensures
        segments(a + seq!['/'] + b) == segments(a) + segments(b),
    decreases a.len(),
{
    let s = a + seq!['/'] + b;
    if a.len() == 0 {
        assert(s.drop_first() =~= b);
        assert(segments(a) =~= Seq::<Seq<char>>::empty());
        assert(segments(s) =~= segments(a) + segments(b));
    } else if a[0] == '/' {
        assert(s.drop_first() =~= a.drop_first() + seq!['/'] + b);
        lemma_segments_concat(a.drop_first(), b);
        assert(segments(s) =~= segments(a) + segments(b));
    } else {
        lemma_seg_len_concat(a, b);
        lemma_seg_len_bound(a);
        let n = seg_len(a);
        assert(s.take(n as int) =~= a.take(n as int));
        assert(s.skip(n as int) =~= a.skip(n as int) + seq!['/'] + b);
        lemma_segments_concat(a.skip(n as int), b);
        assert(segments(s) =~= segments(a) + segments(b));
    }
}

/// A plain component is its own single segment.
pub proof fn lemma_segments_single(w: Seq<char>)
    requires
        plain_segment(w),
    ensures
        segments(w) == seq![w],
{
    assert forall|k: int| 0 <= k < w.len() implies #[trigger] w[k] != '/' by {
        if w[k] == '/' {
            assert(w.contains('/'));
        }
    }
    lemma_seg_len_exact(w, w.len() as int);
    assert(w.take(w.len() as int) =~= w);
    assert(w.skip(w.len() as int) =~= Seq::<char>::empty());
    assert(segments(w.skip(w.len() as int)) =~= Seq::<Seq<char>>::empty());
    assert(segments(w) =~= seq![w]);
}

/// Plain components joined by `/` split back into the same components.
pub proof fn lemma_segments_of_join(c: Seq<Seq<char>>)
    requires
        forall|k: int| 0 <= k < c.len() ==> plain_segment(#[trigger] c[k]),
    ensures
        segments(join(c, seq!['/'])) == c,
    decreases c.len(),
{
    if c.len() == 0 {
        assert(segments(Seq::<char>::empty()) =~= Seq::<Seq<char>>::empty());
    } else if c.len() == 1 {
        lemma_segments_single(c[0]);
        assert(seq![c[0]] =~= c);
    } else {
        let p = c.drop_last();
        lemma_segments_of_join(p);
        assert(c[c.len() - 1] == c.last());
        lemma_segments_single(c.last());
        lemma_segments_concat(join(p, seq!['/']), c.last());
        assert(p.push(c.last()) =~= c);
        assert(segments(join(c, seq!['/'])) =~= p + seq![c.last()]);
    }
}

/// A path with plain components, displayed and read back, is the same path.
pub proof fn law_display_parses_back(p: PathModel)
    requires
        forall|k: int| 0 <= k < p.components.len() ==> plain_segment(#[trigger] p.components[k]),
    ensures
        is_absolute(display(p)) == (p.absolute || (p.components.len() > 0 && p.components[0][0]
            == '/')),
        segments(display(p)) == p.components,
{
    reveal_strlit("/");
    assert("/"@ =~= seq!['/']);
    lemma_segments_of_join(p.components);
    if p.absolute {
        let s = seq!['/'] + join(p.components, seq!['/']);
        assert(s.drop_first() =~= join(p.components, seq!['/']));
        assert(segments(s) == segments(s.drop_first()));
    } else if p.components.len() > 0 {
        lemma_join_first(p.components);
    }
}

/// A non-empty join starts with the first part's first character.
pub proof fn lemma_join_first(c: Seq<Seq<char>>)
    requires
        c.len() > 0,
        forall|k: int| 0 <= k < c.len() ==> plain_segment(#[trigger] c[k]),
    ensures
        join(c, seq!['/']).len() > 0,
        join(c, seq!['/'])[0] == c[0][0],
    decreases c.len(),
{
    assert(plain_segment(c[0]));
    if c.len() > 1 {
        let p = c.drop_last();
        assert(plain_segment(p[0]));
        lemma_join_first(p);
        assert(p[0] == c[0]);
    }
}

/// An executable path: absolute flag and components.
pub struct PathBuf {
    pub absolute: bool,
    pub components: Vec<Vec<char>>,
}

impl PathBuf {
    pub open spec fn model(&self) -> PathModel {
        PathModel { absolute: self.absolute, components: views(self.components@) }
    }
}

pub proof fn lemma_seg_len_exact(t: Seq<char>, m: int)
    requires
        0 <= m <= t.len(),
        forall|k: int| 0 <= k < m ==> #[trigger] t[k] != '/',
        m == t.len() || t[m] == '/',
    ensures
        seg_len(t) == m,
    decreases m,
{
    if m > 0 {
        let u = t.drop_first();
        assert forall|k: int| 0 <= k < m - 1 implies #[trigger] u[k] != '/' by {
            assert(u[k] == t[k + 1]);
        }
        if m < t.len() {
            assert(u[m - 1] == t[m]);
        }
        lemma_seg_len_exact(u, m - 1);
    }
}

/// The segments of a path string.
pub fn split_segments(s: &[char]) -> (out: Vec<Vec<char>>)
    ensures
        views(out@) == segments(s@),
{
    let n = s.len();
    let mut out: Vec<Vec<char>> = Vec::new();
    let mut i: usize = 0;
    assert(s@.skip(0) =~= s@);
    while i < n
        invariant
            n == s@.len(),
            i <= n,
            segments(s@) == views(out@) + segments(s@.skip(i as int)),
        decreases n - i,
    {
        let ghost rest = s@.skip(i as int);
        if s[i] == '/' {
            assert(rest.drop_first() =~= s@.skip(i + 1));
            i += 1;
        } else {
            let mut j: usize = i;
            let mut w: Vec<char> = Vec::new();
            while j < n && s[j] != '/'
                invariant
                    n == s@.len(),
                    i <= j <= n,
                    w@ == s@.subrange(i as int, j as int),
                    forall|k: int| i <= k < j ==> #[trigger] s@[k] != '/',
                decreases n - j,
            {
                w.push(s[j]);
                j += 1;
                assert(w@ =~= s@.subrange(i as int, j as int));
            }
            proof {
                assert forall|k: int| 0 <= k < j - i implies #[trigger] rest[k] != '/' by {
                    assert(rest[k] == s@[i + k]);
                }
                if j < n {
                    assert(rest[j - i] == s@[j as int]);
                }
                lemma_seg_len_exact(rest, j - i);
                assert(rest.take(j - i) =~= w@);
                assert(rest.skip(j - i) =~= s@.skip(j as int));
            }
            let ghost before = out@;
            out.push(w);
            assert(views(out@) =~= views(before) + seq![w@]);
            i = j;
        }
    }
    assert(s@.skip(n as int) =~= Seq::<char>::empty());
    assert(segments(s@.skip(n as int)) =~= Seq::<Seq<char>>::empty());
    assert(views(out@) + Seq::<Seq<char>>::empty() =~= views(out@));
    out
}

/// Parses a path string.
pub fn parse_path(s: &str) -> (p: PathBuf)
    ensures
        p.model() == (PathModel { absolute: is_absolute(s@), components: segments(s@) }),
{
    let chars = chars_of(s);
    let absolute = chars.len() > 0 && chars[0] == '/';
    PathBuf { absolute, components: split_segments(chars.as_slice()) }
}

/// `base.join(p)`.
pub fn join_paths(base: &str, p: &str) -> (r: PathBuf)
    ensures
        r.model() == joined(base@, p@),
{
    let pp = parse_path(p);
    if pp.absolute {
        pp
    } else {
        let mut b = parse_path(base);
        let ghost b0 = views(b.components@);
        let ghost cv = views(pp.components@);
        let mut k: usize = 0;
        while k < pp.components.len()
            invariant
                k <= pp.components@.len(),
                cv == views(pp.components@),
                cv == segments(p@),
                b0 == segments(base@),
                !is_absolute(p@),
                b.absolute == is_absolute(base@),
                views(b.components@) == b0 + cv.take(k as int),
            decreases pp.components@.len() - k,
        {
            let w = copy_chars(&pp.components[k]);
            let ghost bc = b.components@;
            b.components.push(w);
            assert(views(b.components@) =~= views(bc).push(w@));
            assert(cv.take(k + 1) =~= cv.take(k as int).push(cv[k as int]));
            k += 1;
        }
        assert(cv.take(pp.components@.len() as int) =~= cv);
        assert(b.model() =~= joined(base@, p@));
        b
    }
}

/// Lexically normalizes components.
pub fn normalize_components(c: &Vec<Vec<char>>) -> (r: Vec<Vec<char>>)
    ensures
        views(r@) == normalize(views(c@)),
{
    let ghost cv = views(c@);
    let mut out: Vec<Vec<char>> = Vec::new();
    let mut i: usize = 0;
    assert(cv.take(0) =~= Seq::<Seq<char>>::empty());
    while i < c.len()
        invariant
            i <= c@.len(),
            cv == views(c@),
            views(out@) == normalize(cv.take(i as int)),
        decreases c@.len() - i,
    {
        let ghost ti = cv.take(i + 1);
        assert(ti.drop_last() =~= cv.take(i as int));
        assert(ti.last() == c@[i as int]@);
        let ghost before = out@;
        if eq_lit(c[i].as_slice(), ".") {
        } else if eq_lit(c[i].as_slice(), "..") {
            if out.len() > 0 {
                out.pop();
                assert(views(out@) =~= views(before).drop_last());
            }
        } else {
            out.push(copy_chars(&c[i]));
            assert(views(out@) =~= views(before).push(c@[i as int]@));
        }
        i += 1;
    }
    assert(cv.take(c@.len() as int) =~= cv);
    out
}

/// Whether two character sequences are equal.
pub fn eq_chars(a: &[char], b: &[char]) -> (r: bool)
    ensures
        r == (a@ == b@),
{
    if a.len() != b.len() {
        return false;
    }
    let mut i: usize = 0;
    while i < a.len()
        invariant
            a@.len() == b@.len(),
            i <= a@.len(),
            forall|k: int| 0 <= k < i ==> a@[k] == b@[k],
        decreases a@.len() - i,
    {
        if a[i] != b[i] {
            return false;
        }
        i += 1;
    }
    assert(a@ =~= b@);
    true
}

/// Whether the components `prefix` start the components `c`.
pub fn components_prefix(prefix: &Vec<Vec<char>>, c: &Vec<Vec<char>>) -> (r: bool)
    ensures
        r == is_prefix(views(prefix@), views(c@)),
{
    if prefix.len() > c.len() {
        return false;
    }
    let mut i: usize = 0;
    while i < prefix.len()
        invariant
            prefix@.len() <= c@.len(),
            i <= prefix@.len(),
            forall|k: int| 0 <= k < i ==> prefix@[k]@ == c@[k]@,
        decreases prefix@.len() - i,
    {
        if !eq_chars(prefix[i].as_slice(), c[i].as_slice()) {
            assert(views(c@).take(prefix@.len() as int)[i as int] == c@[i as int]@);
            return false;
        }
        i += 1;
    }
    assert(views(c@).take(prefix@.len() as int) =~= views(prefix@));
    true
}

/// `Path::starts_with` on parsed paths.
pub fn starts_with(p: &PathBuf, base: &PathBuf) -> (r: bool)
    ensures
        r == path_starts_with(p.model(), base.model()),
{
    if base.absolute == p.absolute {
        components_prefix(&base.components, &p.components)
    } else {
        !base.absolute && base.components.len() == 0
    }
}

/// The display string of a path.
pub fn display_path(p: &PathBuf) -> (s: String)
    ensures
        s@ == display(p.model()),
{
    let body = join_from(&p.components, 0, "/");
    assert(views(p.components@).skip(0) =~= views(p.components@));
    if p.absolute {
        let mut s = String::new();
        push_char(&mut s, '/');
        push_chars(&mut s, body.as_slice());
        assert(s@ =~= seq!['/'] + body@);
        s
    } else {
        string_of(body.as_slice())
    }
}

/// The text of `base` joined with `p` (`Path::join`): `p` when absolute,
/// else `p` after `base` and a `/` unless `base` is empty or ends in `/`.
pub open spec fn join_text(base: Seq<char>, p: Seq<char>) -> Seq<char> {
    if is_absolute(p) {
        p
    } else if base.len() == 0 {
        p
    } else if base.last() == '/' {
        base + p
    } else {
        base + seq!['/'] + p
    }
}

/// `Path::join` on text.
pub fn join_path_text(base: &[char], p: &[char]) -> (r: Vec<char>)
    ensures
        r@ == join_text(base@, p@),
{
    if p.len() > 0 && p[0] == '/' {
        let r = sub_chars(p, 0, p.len());
        assert(r@ =~= p@);
        r
    } else if base.len() == 0 {
        let r = sub_chars(p, 0, p.len());
        assert(r@ =~= p@);
        r
    } else {
        let mut r = sub_chars(base, 0, base.len());
        assert(r@ =~= base@);
        if base[base.len() - 1] != '/' {
            r.push('/');
        }
        let ghost mid = r@;
        let mut i: usize = 0;
        while i < p.len()
            invariant
                i <= p@.len(),
                r@ == mid + p@.take(i as int),
            decreases p@.len() - i,
        {
            r.push(p[i]);
            i += 1;
            assert(r@ =~= mid + p@.take(i as int));
        }
        assert(p@.take(p@.len() as int) =~= p@);
        r
    }
}

/// The key a path is listed by: its segments.
pub open spec fn path_key(p: String) -> Seq<Seq<char>> {
    segments(p@)
}

/// `s` lists `paths` in file order: by their segments, part by part in text
/// order (see [`parts_le`]), paths with the same segments in their order
/// in `paths`.
pub open spec fn listing_order_of(s: Seq<String>, paths: Seq<String>) -> bool {
    let key = |p: String| path_key(p);
    &&& keys_in_order(s, key)
    &&& s.to_multiset() == paths.to_multiset()
    &&& forall|k: Seq<Seq<char>>| #[trigger] s.filter(key_is(key, k)) == paths.filter(key_is(key, k))
}

/// A list of paths has one arrangement in file order.
pub proof fn law_listing_order_unique(s: Seq<String>, t: Seq<String>, paths: Seq<String>)
    requires
        listing_order_of(s, paths),
        listing_order_of(t, paths),
    ensures
        s == t,
{
    let key = |p: String| path_key(p);
    assert forall|k: Seq<Seq<char>>| #[trigger] s.filter(key_is(key, k)) == t.filter(key_is(key, k)) by {
        assert(s.filter(key_is(key, k)) == paths.filter(key_is(key, k)));
        assert(t.filter(key_is(key, k)) == paths.filter(key_is(key, k)));
    }
    law_stable_order_unique(s, t, key);
}

/// Puts paths in file order (see [`listing_order_of`]).
pub fn sort_paths(paths: Vec<String>) -> (r: Vec<String>)
    ensures
        listing_order_of(r@, paths@),
{
    let mut keys: Vec<Vec<Vec<char>>> = Vec::new();
    let mut i: usize = 0;
    while i < paths.len()
        invariant
            i <= paths@.len(),
            keys@.len() == i,
            forall|k: int| 0 <= k < i ==> #[trigger] views(keys@[k]@) == path_key(paths@[k]),
        decreases paths@.len() - i,
    {
        let c = chars_of(paths[i].as_str());
        let parts = split_segments(c.as_slice());
        assert(c@ == paths@[i as int]@);
        assert(views(parts@) == segments(paths@[i as int]@));
        let ghost before = keys@;
        keys.push(parts);
        assert forall|k: int| 0 <= k <= i implies #[trigger] views(keys@[k]@) == path_key(paths@[k]) by {
            if k < i {
                assert(keys@[k] == before[k]);
            }
        }
        i += 1;
    }
    let ghost key = |p: String| path_key(p);
    sort_by_parts_key(paths, keys, Ghost(key))
}

/// The first `max_files` paths in file order, or all of them when there
/// are fewer.
pub fn select_paths(paths: Vec<String>, max_files: usize) -> (r: Vec<String>)
    ensures
        r@.len() == if paths@.len() < max_files {
            paths@.len()
        } else {
            max_files as nat
        },
        exists|s: Seq<String>| #[trigger] listing_order_of(s, paths@) && r@ == s.take(r@.len() as int),
        forall|s: Seq<String>| #[trigger] listing_order_of(s, paths@) ==> r@ == s.take(r@.len() as int),
{
    let ghost input = paths@;
    let mut r = sort_paths(paths);
    let ghost sorted = r@;
    proof {
        vstd::seq_lib::to_multiset_len(sorted);
        vstd::seq_lib::to_multiset_len(input);
    }
    r.truncate(max_files);
    assert(r@ =~= sorted.take(r@.len() as int));
    assert forall|s: Seq<String>| #[trigger] listing_order_of(s, input) implies r@ == s.take(
        r@.len() as int,
    ) by {
        law_listing_order_unique(s, sorted, input);
    }
    r
}

/// A path lies within each of its ancestors: a path of the same kind whose
/// components continue the base's, by any number of components.
pub proof fn law_path_within_ancestor(absolute: bool, base: Seq<Seq<char>>, extra: Seq<Seq<char>>)
    ensures
        path_starts_with(
            PathModel { absolute, components: base + extra },
            PathModel { absolute, components: base },
        ),
{
    assert((base + extra).take(base.len() as int) =~= base);
}

/// A path lies within a base of the same kind only when its components
/// continue the base's.
pub proof fn law_within_means_continuation(p: PathModel, base: PathModel)
    requires
        p.absolute == base.absolute,
        path_starts_with(p, base),
    ensures
        p.components == base.components + p.components.skip(base.components.len() as int),
{
    assert(p.components =~= p.components.take(base.components.len() as int) + p.components.skip(
        base.components.len() as int,
    ));
}

} // verus!

