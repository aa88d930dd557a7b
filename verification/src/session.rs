//! Session records: which session names are allowed, where a session is
//! stored, and how stored sessions are listed.

use vstd::prelude::*;
use vstd::string::*;
use crate::paths::{
    is_absolute, join_text, lemma_segments_concat, lemma_segments_single, plain_segment, segments,
};
use crate::text::{
    chars_of, eq_lit, key_is, lemma_parts_le_single, lemma_text_le_total, parts_le, sort_by_parts_key,
    string_of, string_views, sub_chars, text_le, trim, trim_chars, views,
};
use crate::tools::{
    lemma_newline_index_exact, newline_index, split_lines, strip_cr, text_lines,
};

verus! {

/// One turn of a conversation.
#[derive(Debug, Clone, PartialEq, Eq)]
pub struct SessionTurn {
    pub role: String,
    pub content: String,
}

/// A stored session: its name and its file.
#[derive(Debug, Clone, PartialEq, Eq)]
pub struct StoredSession {
    pub id: String,
    pub path: String,
}

/// Where sessions are stored.
#[derive(Debug, Clone)]
pub struct SessionStore {
    pub root: String,
}

/// A character allowed in a session name: ASCII letter or digit, `-`, `_`.
pub open spec fn session_id_char(c: char) -> bool {
    ('a' <= c && c <= 'z') || ('A' <= c && c <= 'Z') || ('0' <= c && c <= '9') || c == '-' || c
        == '_'
}

/// Why a session name is refused, if it is: an empty name, or one with
/// other characters, or one that is `.`, `..` or an absolute path.
pub open spec fn session_id_error(id: Seq<char>) -> Option<Seq<char>> {
    if id.len() == 0 {
        Some("session_id must not be empty"@)
    } else if !(forall|i: int| 0 <= i < id.len() ==> session_id_char(#[trigger] id[i])) || id
        == "."@ || id == ".."@ || id[0] == '/' {
        Some("session_id contains unsupported characters"@)
    } else {
        None
    }
}

/// Checks a session name (see [`session_id_error`]).
pub fn validate_session_id(session_id: &str) -> (r: Result<(), String>)
    ensures
        match r {
            Ok(()) => session_id_error(session_id@).is_none(),
            Err(e) => session_id_error(session_id@) == Some(e@),
        },
{
    let id = chars_of(session_id);
    if id.len() == 0 {
        return Err(String::from_str("session_id must not be empty"));
    }
    let mut valid = true;
    let mut i: usize = 0;
    while i < id.len()
        invariant
            i <= id@.len(),
            valid == (forall|k: int| 0 <= k < i ==> session_id_char(#[trigger] id@[k])),
        decreases id@.len() - i,
    {
        let c = id[i];
        let ok = ('a' <= c && c <= 'z') || ('A' <= c && c <= 'Z') || ('0' <= c && c <= '9') || c
            == '-' || c == '_';
        if !ok {
            valid = false;
        }
        i += 1;
    }
    if !valid || eq_lit(id.as_slice(), ".") || eq_lit(id.as_slice(), "..") || id[0] == '/' {
        return Err(String::from_str("session_id contains unsupported characters"));
    }
    Ok(())
}

impl SessionStore {
    pub fn new(root: &str) -> (s: Self)
        ensures
            s.root@ == root@,
    {
        SessionStore { root: String::from_str(root) }
    }

    /// The file of a session: `<id>.jsonl` under the root.
    pub fn session_path(&self, session_id: &str) -> (p: String)
        ensures
            p@ == join_text(self.root@, session_id@ + ".jsonl"@),
    {
        let root = chars_of(self.root.as_str());
        let mut name = chars_of(session_id);
        let ext = chars_of(".jsonl");
        let ghost n0 = name@;
        let mut k: usize = 0;
        while k < ext.len()
            invariant
                k <= ext@.len(),
                name@ == n0 + ext@.take(k as int),
            decreases ext@.len() - k,
        {
            name.push(ext[k]);
            k += 1;
            assert(name@ =~= n0 + ext@.take(k as int));
        }
        assert(ext@.take(ext@.len() as int) =~= ext@);
        let p = crate::paths::join_path_text(root.as_slice(), name.as_slice());
        string_of(p.as_slice())
    }
}

/// The session a directory entry holds, by its file name: a name ending in
/// `.jsonl` with something before it holds the session named by that part.
pub open spec fn session_id_of(file_name: Seq<char>) -> Option<Seq<char>> {
    if file_name.len() > 6 && file_name.skip(file_name.len() - 6) == ".jsonl"@ {
        Some(file_name.take(file_name.len() - 6))
    } else {
        None
    }
}

/// Sessions in order of their names.
pub open spec fn sorted_by_id(s: Seq<StoredSession>) -> bool {
    forall|i: int, j: int| 0 <= i < j < s.len() ==> text_le(#[trigger] s[i].id@, #[trigger] s[j].id@)
}

/// The sessions named `id`.
pub open spec fn id_is(id: Seq<char>) -> spec_fn(StoredSession) -> bool {
    |s: StoredSession| s.id@ == id
}

/// Sorts sessions by name, keeping sessions of equal names in their order.
pub fn sort_sessions(v: Vec<StoredSession>) -> (r: Vec<StoredSession>)
    ensures
        sorted_by_id(r@),
        r@.to_multiset() == v@.to_multiset(),
        forall|id: Seq<char>| #[trigger] r@.filter(id_is(id)) == v@.filter(id_is(id)),
{
    let mut keys: Vec<Vec<Vec<char>>> = Vec::new();
    let mut i: usize = 0;
    while i < v.len()
        invariant
            i <= v@.len(),
            keys@.len() == i,
            forall|k: int| 0 <= k < i ==> #[trigger] views(keys@[k]@) == seq![v@[k].id@],
        decreases v@.len() - i,
    {
        let one = vec![chars_of(v[i].id.as_str())];
        assert(views(one@) =~= seq![v@[i as int].id@]);
        keys.push(one);
        i += 1;
    }
    let ghost key = |s: StoredSession| seq![s.id@];
    let r = sort_by_parts_key(v, keys, Ghost(key));
    assert forall|a: int, b: int| 0 <= a < b < r@.len() implies text_le(
        #[trigger] r@[a].id@,
        #[trigger] r@[b].id@,
    ) by {
        assert(parts_le(key(r@[a]), key(r@[b])));
        lemma_parts_le_single(r@[a].id@, r@[b].id@);
    }
    assert forall|id: Seq<char>| #[trigger] r@.filter(id_is(id)) == v@.filter(id_is(id)) by {
        assert(r@.filter(key_is(key, seq![id])) == v@.filter(key_is(key, seq![id])));
        assert forall|s: StoredSession| #[trigger] id_is(id)(s) == key_is(key, seq![id])(s) by {
            if seq![s.id@] == seq![id] {
                assert(seq![s.id@][0] == seq![id][0]);
            }
        }
        assert(id_is(id) =~= key_is(key, seq![id]));
    }
    r
}

/// Rearranging a sequence rearranges its image under any map.
pub proof fn lemma_map_permutation<A, B>(a: Seq<A>, b: Seq<A>, f: spec_fn(A) -> B)
    requires
        a.to_multiset() == b.to_multiset(),
    ensures
        a.map_values(f).to_multiset() == b.map_values(f).to_multiset(),
    decreases a.len(),
{
    broadcast use vstd::seq_lib::group_to_multiset_ensures, vstd::multiset::group_multiset_axioms;
    vstd::seq_lib::to_multiset_len(a);
    vstd::seq_lib::to_multiset_len(b);
    if a.len() == 0 {
        assert(b.len() == 0);
        assert(a.map_values(f) =~= b.map_values(f));
    } else {
        let x = a[0];
        assert(a.to_multiset().count(x) > 0) by {
            vstd::seq_lib::to_multiset_contains(a, x);
            assert(a.contains(x)) by { assert(a[0] == x); }
        }
        vstd::seq_lib::to_multiset_contains(b, x);
        assert(b.contains(x));
        let j = choose|j: int| 0 <= j < b.len() && b[j] == x;
        vstd::seq_lib::to_multiset_remove(b, j);
        vstd::seq_lib::to_multiset_remove(a, 0);
        assert(a.remove(0) =~= a.drop_first());
        lemma_map_permutation(a.drop_first(), b.remove(j), f);
        let am = a.map_values(f);
        let bm = b.map_values(f);
        assert(b.remove(j).map_values(f) =~= bm.remove(j));
        assert(a.drop_first().map_values(f) =~= am.remove(0));
        vstd::seq_lib::to_multiset_remove(bm, j);
        vstd::seq_lib::to_multiset_remove(am, 0);
        assert(am[0] == f(x));
        assert(bm[j] == f(x));
        vstd::seq_lib::to_multiset_contains(am, f(x));
        vstd::seq_lib::to_multiset_contains(bm, f(x));
        assert(am.contains(f(x)));
        assert(bm.contains(f(x)));
        assert(am.to_multiset() =~= am.to_multiset().remove(f(x)).insert(f(x)));
        assert(bm.to_multiset() =~= bm.to_multiset().remove(f(x)).insert(f(x)));
    }
}

/// The name and file of a stored session.
pub open spec fn session_view(s: StoredSession) -> (Seq<char>, Seq<char>) {
    (s.id@, s.path@)
}

/// A session stored under an accepted name is listed under that name: the
/// file name `<id>.jsonl` of [`SessionStore::session_path`] gives back `id`.
pub proof fn law_stored_session_lists_under_its_name(id: Seq<char>)
    requires
        session_id_error(id).is_none(),
    ensures
        session_id_of(id + ".jsonl"@) == Some(id),
{
    reveal_strlit(".jsonl");
    let name = id + ".jsonl"@;
    assert(name.skip(name.len() - 6) =~= ".jsonl"@);
    assert(name.take(name.len() - 6) =~= id);
}

/// An accepted session name makes a file directly inside the store's root:
/// the file's path has the root's components plus one more, `<id>.jsonl`,
/// which is neither `.` nor `..` and holds no `/`.
pub proof fn law_session_file_stays_in_root(root: Seq<char>, id: Seq<char>)
    requires
        session_id_error(id).is_none(),
    ensures
        segments(join_text(root, id + ".jsonl"@)) == segments(root).push(id + ".jsonl"@),
        plain_segment(id + ".jsonl"@),
        id + ".jsonl"@ != "."@,
        id + ".jsonl"@ != ".."@,
{
    reveal_strlit(".jsonl");
    reveal_strlit(".");
    reveal_strlit("..");
    let name = id + ".jsonl"@;
    assert(".jsonl"@ =~= seq!['.', 'j', 's', 'o', 'n', 'l']);
    assert forall|i: int| 0 <= i < name.len() implies #[trigger] name[i] != '/' by {
        if i < id.len() {
            assert(name[i] == id[i]);
            assert(session_id_char(id[i]));
        } else {
            assert(name[i] == ".jsonl"@[i - id.len()]);
        }
    }
    assert(!name.contains('/')) by {
        if name.contains('/') {
            let i = choose|i: int| 0 <= i < name.len() && name[i] == '/';
            assert(name[i] != '/');
        }
    }
    assert(name.len() > 6);
    assert(name != "."@ && name != ".."@) by {
        assert("."@.len() == 1);
        assert(".."@.len() == 2);
    }
    assert(!is_absolute(name));
    lemma_segments_single(name);
    if root.len() == 0 {
        assert(segments(root) =~= Seq::<Seq<char>>::empty());
        assert(segments(root).push(name) =~= seq![name]);
    } else if root.last() == '/' {
        let r0 = root.drop_last();
        assert(root =~= r0 + seq!['/'] + Seq::<char>::empty());
        lemma_segments_concat(r0, Seq::<char>::empty());
        assert(segments(Seq::<char>::empty()) =~= Seq::<Seq<char>>::empty());
        assert(root + name =~= r0 + seq!['/'] + name);
        lemma_segments_concat(r0, name);
        assert(segments(root) =~= segments(r0));
    } else {
        lemma_segments_concat(root, name);
    }
}

/// Directory entries as (file name, path) texts.
pub open spec fn entry_views(e: Seq<(String, String)>) -> Seq<(Seq<char>, Seq<char>)> {
    e.map_values(|p: (String, String)| (p.0@, p.1@))
}

/// The sessions among directory entries (see [`session_id_of`]), in entry
/// order, as (name, path).
pub open spec fn listed_sessions(entries: Seq<(Seq<char>, Seq<char>)>) -> Seq<(Seq<char>, Seq<char>)>
    decreases entries.len(),
{
    if entries.len() == 0 {
        seq![]
    } else {
        let prev = listed_sessions(entries.drop_last());
        match session_id_of(entries.last().0) {
            Some(id) => prev.push((id, entries.last().1)),
            None => prev,
        }
    }
}

/// The session held by a file name, if any.
pub fn session_id_from_name(name: &str) -> (r: Option<String>)
    ensures
        match r {
            Some(id) => session_id_of(name@) == Some(id@),
            None => session_id_of(name@).is_none(),
        },
{
    let n = chars_of(name);
    if n.len() <= 6 {
        return None;
    }
    let ext = sub_chars(n.as_slice(), n.len() - 6, n.len());
    assert(ext@ =~= n@.skip(n@.len() - 6));
    if !eq_lit(ext.as_slice(), ".jsonl") {
        return None;
    }
    let stem = sub_chars(n.as_slice(), 0, n.len() - 6);
    assert(stem@ =~= n@.take(n@.len() - 6));
    Some(string_of(stem.as_slice()))
}

/// The (name, path) pairs named `id`.
pub open spec fn named(id: Seq<char>) -> spec_fn((Seq<char>, Seq<char>)) -> bool {
    |p: (Seq<char>, Seq<char>)| p.0 == id
}

/// Mapping then filtering is filtering by the mapped test, then mapping.
proof fn lemma_map_filter<A, B>(
    s: Seq<A>,
    g: spec_fn(A) -> B,
    h: spec_fn(B) -> bool,
    f: spec_fn(A) -> bool,
)
    requires
        forall|x: A| #[trigger] f(x) == h(g(x)),
    ensures
        s.map_values(g).filter(h) == s.filter(f).map_values(g),
    decreases s.len(),
{
    reveal(Seq::filter);
    if s.len() > 0 {
        lemma_map_filter(s.drop_last(), g, h, f);
        assert(s.map_values(g).drop_last() =~= s.drop_last().map_values(g));
        assert(s.map_values(g).last() == g(s.last()));
        if f(s.last()) {
            assert(s.filter(f).map_values(g) =~= s.drop_last().filter(f).map_values(g).push(
                g(s.last()),
            ));
        }
    } else {
        assert(s.map_values(g) =~= Seq::<B>::empty());
        assert(s.filter(f).map_values(g) =~= Seq::<B>::empty());
    }
}

/// The stored sessions among directory entries, given as (file name,
/// path), ordered by name; sessions of equal names keep the entries' order.
pub fn sessions_from_entries(entries: &Vec<(String, String)>) -> (r: Vec<StoredSession>)
    ensures
        sorted_by_id(r@),
        r@.map_values(|s: StoredSession| session_view(s)).to_multiset() == listed_sessions(
            entry_views(entries@),
        ).to_multiset(),
        forall|id: Seq<char>|
            r@.map_values(|s: StoredSession| session_view(s)).filter(#[trigger] named(id))
                == listed_sessions(entry_views(entries@)).filter(named(id)),
{
    let ghost ev = entry_views(entries@);
    let mut found: Vec<StoredSession> = Vec::new();
    let mut i: usize = 0;
    assert(ev.take(0) =~= Seq::<(Seq<char>, Seq<char>)>::empty());
    assert(found@.map_values(|s: StoredSession| session_view(s)) =~= Seq::<(Seq<char>, Seq<char>)>::empty());
    while i < entries.len()
        invariant
            i <= entries@.len(),
            ev == entry_views(entries@),
            found@.map_values(|s: StoredSession| session_view(s)) == listed_sessions(ev.take(i as int)),
        decreases entries@.len() - i,
    {
        let ghost ti = ev.take(i + 1);
        assert(ti.drop_last() =~= ev.take(i as int));
        assert(ti.last() == (entries@[i as int].0@, entries@[i as int].1@));
        let ghost before = found@;
        match session_id_from_name(entries[i].0.as_str()) {
            Some(id) => {
                found.push(StoredSession { id, path: String::from_str(entries[i].1.as_str()) });
                assert(found@.map_values(|s: StoredSession| session_view(s)) =~= before.map_values(
                    |s: StoredSession| session_view(s),
                ).push(session_view(found@[found@.len() - 1])));
            },
            None => {},
        }
        i += 1;
    }
    assert(ev.take(entries@.len() as int) =~= ev);
    let ghost unsorted = found@;
    let r = sort_sessions(found);
    proof {
        let g = |s: StoredSession| session_view(s);
        lemma_map_permutation(r@, unsorted, g);
        assert forall|id: Seq<char>|
            r@.map_values(g).filter(#[trigger] named(id)) == listed_sessions(ev).filter(named(id)) by {
            lemma_map_filter(r@, g, named(id), id_is(id));
            lemma_map_filter(unsorted, g, named(id), id_is(id));
            assert(r@.filter(id_is(id)) == unsorted.filter(id_is(id)));
            assert(unsorted.map_values(g) == listed_sessions(ev));
        }
    }
    r
}

/// The session with the greatest name: the last of a sorted listing.
pub fn latest_of(sessions: Vec<StoredSession>) -> (r: Option<StoredSession>)
    ensures
        match r {
            Some(s) => sessions@.len() > 0 && s == sessions@.last(),
            None => sessions@.len() == 0,
        },
{
    let mut sessions = sessions;
    sessions.pop()
}

/// In a listing ordered by name, the last session has the greatest name.
pub proof fn law_latest_session_has_greatest_id(s: Seq<StoredSession>)
    requires
        sorted_by_id(s),
        s.len() > 0,
    ensures
        forall|k: int| 0 <= k < s.len() ==> text_le(#[trigger] s[k].id@, s.last().id@),
{
    assert forall|k: int| 0 <= k < s.len() implies text_le(#[trigger] s[k].id@, s.last().id@) by {
        if k < s.len() - 1 {
            assert(text_le(s[k].id@, s[s.len() - 1].id@));
        } else {
            lemma_text_le_total(s[k].id@, s[k].id@);
        }
    }
}

/// The records of a session file: its lines that are not blank.
pub open spec fn session_records(content: Seq<char>) -> Seq<Seq<char>> {
    text_lines(content).filter(|l: Seq<char>| trim(l).len() > 0)
}

/// The records of a session file, in order (see [`session_records`]).
pub fn session_record_lines(content: &str) -> (r: Vec<String>)
    ensures
        string_views(r@) == session_records(content@),
{
    let chars = chars_of(content);
    let lines = split_lines(chars.as_slice());
    let ghost lv = views(lines@);
    let ghost pred = |l: Seq<char>| trim(l).len() > 0;
    let mut out: Vec<String> = Vec::new();
    let mut i: usize = 0;
    assert(lv.take(0) =~= Seq::<Seq<char>>::empty());
    while i < lines.len()
        invariant
            i <= lines@.len(),
            lv == views(lines@),
            pred == (|l: Seq<char>| trim(l).len() > 0),
            string_views(out@) == lv.take(i as int).filter(pred),
        decreases lines@.len() - i,
    {
        let ghost ti = lv.take(i + 1);
        assert(ti.drop_last() =~= lv.take(i as int));
        assert(ti.last() == lines@[i as int]@);
        reveal(Seq::filter);
        let ghost before = string_views(out@);
        let t = trim_chars(lines[i].as_slice());
        if t.len() > 0 {
            out.push(string_of(lines[i].as_slice()));
            assert(string_views(out@) =~= before.push(lines@[i as int]@));
        }
        i += 1;
    }
    assert(lv.take(lines@.len() as int) =~= lv);
    out
}

/// A record a session file can hold on a line of its own: no line feed in
/// it, no carriage return at its end, and not blank.
pub open spec fn storable_record(r: Seq<char>) -> bool {
    &&& forall|k: int| 0 <= k < r.len() ==> r[k] != '\n'
    &&& !(r.len() > 0 && r.last() == '\r')
    &&& trim(r).len() > 0
}

/// The text of a session file to which the records `rs` were appended in
/// turn, each followed by a line feed.
pub open spec fn written_records(rs: Seq<Seq<char>>) -> Seq<char>
    decreases rs.len(),
{
    if rs.len() == 0 {
        seq![]
    } else {
        written_records(rs.drop_last()) + rs.last() + "\n"@
    }
}

/// The lines of a text that ends a line, followed by more text, are the
/// lines of the first part followed by those of the rest.
proof fn lemma_text_lines_concat(x: Seq<char>, y: Seq<char>)
    requires
        x.len() > 0,
        x.last() == '\n',
    ensures
        text_lines(x + y) == text_lines(x) + text_lines(y),
    decreases x.len(),
{
    let xy = x + y;
    let k = newline_index(x) as int;
    lemma_newline_index_bound(x);
    assert forall|m: int| 0 <= m < k implies #[trigger] xy[m] != '\n' by {
        lemma_newline_index_before(x, m);
    }
    lemma_newline_index_at(x);
    lemma_newline_index_exact(xy, k);
    assert(xy.take(k) =~= x.take(k));
    let rest = x.skip(k + 1);
    assert(xy.skip(k + 1) =~= rest + y);
    if rest.len() == 0 {
        assert(rest + y =~= y);
        assert(text_lines(rest) =~= Seq::<Seq<char>>::empty());
    } else {
        assert(rest.last() == x.last());
        lemma_text_lines_concat(rest, y);
    }
    assert(text_lines(x) == seq![strip_cr(x.take(k))] + text_lines(rest));
    assert(text_lines(xy) == seq![strip_cr(xy.take(k))] + text_lines(rest + y));
    assert(text_lines(xy) =~= text_lines(x) + text_lines(y));
}

proof fn lemma_newline_index_bound(s: Seq<char>)
    ensures
        newline_index(s) <= s.len(),
        s.len() > 0 && s.last() == '\n' ==> newline_index(s) < s.len(),
    decreases s.len(),
{
    if s.len() > 0 && s[0] != '\n' {
        lemma_newline_index_bound(s.drop_first());
        if s.last() == '\n' && s.len() > 1 {
            assert(s.drop_first().last() == s.last());
        }
    }
}

proof fn lemma_newline_index_before(s: Seq<char>, m: int)
    requires
        0 <= m < newline_index(s),
    ensures
        m < s.len(),
        s[m] != '\n',
    decreases s.len(),
{
    if m > 0 {
        lemma_newline_index_before(s.drop_first(), m - 1);
        assert(s.drop_first()[m - 1] == s[m]);
    }
}

proof fn lemma_newline_index_at(s: Seq<char>)
    requires
        newline_index(s) < s.len(),
    ensures
        s[newline_index(s) as int] == '\n',
    decreases s.len(),
{
    if s[0] != '\n' {
        lemma_newline_index_at(s.drop_first());
    }
}

/// Appending a record and a line feed to a session file that is empty or
/// ends a line adds exactly that record to the records read back.
pub proof fn law_appended_record_is_read_back(content: Seq<char>, r: Seq<char>)
    requires
        content.len() == 0 || content.last() == '\n',
        storable_record(r),
    ensures
        session_records(content + r + "\n"@) == session_records(content).push(r),
{
    let line = r + "\n"@;
    reveal_strlit("\n");
    assert(content + r + "\n"@ =~= content + line);
    assert forall|k: int| 0 <= k < r.len() implies #[trigger] line[k] != '\n' by {
        assert(line[k] == r[k]);
    }
    assert(line[r.len() as int] == '\n');
    lemma_newline_index_exact(line, r.len() as int);
    assert(line.take(r.len() as int) =~= r);
    assert(line.skip(r.len() + 1 as int) =~= Seq::<char>::empty());
    assert(strip_cr(r) == r);
    assert(text_lines(line.skip(r.len() + 1 as int)) =~= Seq::<Seq<char>>::empty());
    assert(text_lines(line) == seq![strip_cr(line.take(r.len() as int))] + text_lines(
        line.skip(r.len() + 1 as int),
    ));
    assert(text_lines(line) =~= seq![r]);
    if content.len() == 0 {
        assert(content + line =~= line);
        assert(text_lines(content) =~= Seq::<Seq<char>>::empty());
    } else {
        lemma_text_lines_concat(content, line);
    }
    assert(text_lines(content + line) =~= text_lines(content) + seq![r]);
    let pred = |l: Seq<char>| trim(l).len() > 0;
    Seq::filter_distributes_over_add(text_lines(content), seq![r], pred);
    reveal(Seq::filter);
    assert(seq![r].filter(pred) =~= seq![r]);
    assert(session_records(content + r + "\n"@) =~= session_records(content).push(r));
}

/// Records appended in turn to an empty session file, one per line, are
/// read back exactly, in order.
pub proof fn law_written_records_are_read_back(rs: Seq<Seq<char>>)
    requires
        forall|k: int| 0 <= k < rs.len() ==> storable_record(#[trigger] rs[k]),
    ensures
        session_records(written_records(rs)) == rs,
    decreases rs.len(),
{
    if rs.len() > 0 {
        let prev = rs.drop_last();
        assert forall|k: int| 0 <= k < prev.len() implies storable_record(#[trigger] prev[k]) by {
            assert(prev[k] == rs[k]);
        }
        law_written_records_are_read_back(prev);
        let c = written_records(prev);
        if c.len() > 0 {
            lemma_written_records_end_line(prev);
        }
        assert(storable_record(rs[rs.len() - 1]));
        law_appended_record_is_read_back(c, rs.last());
        assert(prev.push(rs.last()) =~= rs);
    } else {
        assert(text_lines(written_records(rs)) =~= Seq::<Seq<char>>::empty());
        reveal(Seq::filter);
    }
}

proof fn lemma_written_records_end_line(rs: Seq<Seq<char>>)
    requires
        written_records(rs).len() > 0,
    ensures
        written_records(rs).last() == '\n',
{
    if rs.len() > 0 {
        reveal_strlit("\n");
        let w = written_records(rs.drop_last()) + rs.last() + "\n"@;
        assert(w.last() == '\n');
    }
}

} // verus!

