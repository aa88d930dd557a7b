//! `@path` commands: which files an `@` reference may name, and the text
//! that replaces the reference once one of them has been read.

use vstd::prelude::*;
use vstd::string::*;
use crate::paths::{
    components_prefix, is_absolute, join_path_text, join_text, segments, split_segments,
};
use crate::text::{
    chars_of, chars_of_all, copy_chars, eq_lit, join, join_from, push_chars, string_of,
    string_views, strings_of_all, sub_chars, trim, trim_chars, views,
};
use crate::tools::FileContent;
use crate::tool_registry::ToolRequest;

verus! {

/// Index of the first space in `s`, or its length when there is none.
pub open spec fn space_index(s: Seq<char>) -> nat
    decreases s.len(),
{
    if s.len() == 0 || s[0] == ' ' {
        0
    } else {
        1 + space_index(s.drop_first())
    }
}

pub proof fn lemma_space_index_exact(t: Seq<char>, m: int)
    requires
        0 <= m <= t.len(),
        forall|k: int| 0 <= k < m ==> #[trigger] t[k] != ' ',
        m == t.len() || t[m] == ' ',
    ensures
        space_index(t) == m,
    decreases m,
{
    if m > 0 {
        let u = t.drop_first();
        assert forall|k: int| 0 <= k < m - 1 implies #[trigger] u[k] != ' ' by {
            assert(u[k] == t[k + 1]);
        }
        if m < t.len() {
            assert(u[m - 1] == t[m]);
        }
        lemma_space_index_exact(u, m - 1);
    }
}

/// The path and the trailing text of an `@` command, or `None` when the
/// input is not one: after trimming it must start with `@`; the path runs
/// to the first space, the rest is the tail, both trimmed; an empty path
/// makes no command.
pub open spec fn at_request(input: Seq<char>) -> Option<(Seq<char>, Seq<char>)> {
    let t = trim(input);
    if t.len() == 0 || t[0] != '@' {
        None
    } else {
        let r = t.skip(1);
        let k = space_index(r);
        let path = if k < r.len() {
            trim(r.take(k as int))
        } else {
            trim(r)
        };
        let tail = if k < r.len() {
            trim(r.skip(k + 1 as int))
        } else {
            seq![]
        };
        if path.len() == 0 {
            None
        } else {
            Some((path, tail))
        }
    }
}

/// Where an `@` path is looked for, in order: the path itself when
/// absolute; otherwise under the working directory, then under each
/// include directory (itself taken relative to the working directory).
pub open spec fn candidate_paths(raw: Seq<char>, cwd: Seq<char>, extra_dirs: Seq<Seq<char>>) -> Seq<
    Seq<char>,
> {
    if is_absolute(raw) {
        seq![raw]
    } else {
        seq![join_text(cwd, raw)] + extra_dirs.map_values(
            |d: Seq<char>| join_text(join_text(cwd, d), raw),
        )
    }
}

/// What makes two paths equal (`Path::eq`): absoluteness, a leading `.`
/// component of a relative path, and the remaining components other than
/// `.`.
pub struct PathKey {
    pub absolute: bool,
    pub cur_dir: bool,
    pub parts: Seq<Seq<char>>,
}

pub open spec fn starts_with_cur_dir(s: Seq<char>) -> bool {
    !is_absolute(s) && s.len() > 0 && s[0] == '.' && (s.len() == 1 || s[1] == '/')
}

pub open spec fn path_key(s: Seq<char>) -> PathKey {
    PathKey {
        absolute: is_absolute(s),
        cur_dir: starts_with_cur_dir(s),
        parts: segments(s).filter(|x: Seq<char>| x != "."@),
    }
}

/// `c` without the paths equal to an earlier one.
pub open spec fn unique_paths(c: Seq<Seq<char>>) -> Seq<Seq<char>>
    decreases c.len(),
{
    if c.len() == 0 {
        seq![]
    } else {
        let prev = unique_paths(c.drop_last());
        if exists|j: int| 0 <= j < c.len() - 1 && path_key(#[trigger] c[j]) == path_key(c.last()) {
            prev
        } else {
            prev.push(c.last())
        }
    }
}

/// How many files one candidate of an `@` command may contribute.
pub const AT_COMMAND_MAX_FILES: usize = 64;

/// An `@` command ready to run: its path, its tail and the places to try.
#[derive(Debug)]
pub struct AtCommandPlan {
    pub raw_path: String,
    pub tail: String,
    pub candidates: Vec<String>,
}

/// The next thing to do for an `@` command.
#[derive(Debug)]
pub enum AtStep {
    /// Read the files at `candidates[i]`.
    Read(usize),
    /// The command expands to this text.
    Expanded(String),
    /// No candidate held any file.
    Failed(String),
}

/// The heading and text of one file in an expansion.
pub open spec fn file_block(f: FileContent) -> Seq<char> {
    "## "@ + f.path@ + "\n"@ + f.content@
}

/// The expansion of an `@` command from the files read: one block per
/// file, blank-line separated, then the tail when there is one.
pub open spec fn at_payload(files: Seq<FileContent>, tail: Seq<char>) -> Seq<char> {
    let body = join(files.map_values(|f: FileContent| file_block(f)), "\n\n"@);
    if tail.len() == 0 {
        body
    } else {
        body + "\n\n"@ + tail
    }
}

/// The error when no candidate held a file.
pub open spec fn at_failure(raw: Seq<char>, candidates: Seq<Seq<char>>) -> Seq<char> {
    "Failed to resolve @ command path: "@ + raw + ". Searched: "@ + join(candidates, ", "@)
}

/// The step after reading candidate `index`: the expansion when the read
/// gave files, else the next candidate, else the failure.
pub open spec fn next_step(
    raw: Seq<char>,
    tail: Seq<char>,
    candidates: Seq<Seq<char>>,
    index: int,
    read: Option<Seq<FileContent>>,
) -> AtStepModel {
    match read {
        Some(files) if files.len() > 0 => AtStepModel::Expanded(at_payload(files, tail)),
        _ => if index + 1 < candidates.len() {
            AtStepModel::Read(index + 1)
        } else {
            AtStepModel::Failed(at_failure(raw, candidates))
        },
    }
}

/// The abstract value of an [`AtStep`].
pub enum AtStepModel {
    Read(int),
    Expanded(Seq<char>),
    Failed(Seq<char>),
}

impl AtStep {
    pub open spec fn model(&self) -> AtStepModel {
        match self {
            AtStep::Read(i) => AtStepModel::Read(*i as int),
            AtStep::Expanded(s) => AtStepModel::Expanded(s@),
            AtStep::Failed(s) => AtStepModel::Failed(s@),
        }
    }
}

/// Splits an `@` command line into its path and tail.
pub fn parse_at_command(input: &str) -> (r: Option<(Vec<char>, Vec<char>)>)
    ensures
        match (r, at_request(input@)) {
            (Some((p, t)), Some((sp, st))) => p@ == sp && t@ == st,
            (None, None) => true,
            _ => false,
        },
{
    let chars = chars_of(input);
    let t = trim_chars(chars.as_slice());
    if t.len() == 0 || t[0] != '@' {
        return None;
    }
    let r = sub_chars(t.as_slice(), 1, t.len());
    assert(r@ =~= t@.skip(1));
    let mut k: usize = 0;
    while k < r.len() && r[k] != ' '
        invariant
            k <= r@.len(),
            forall|m: int| 0 <= m < k ==> #[trigger] r@[m] != ' ',
        decreases r@.len() - k,
    {
        k += 1;
    }
    proof {
        lemma_space_index_exact(r@, k as int);
    }
    let (path, tail) = if k < r.len() {
        let head = sub_chars(r.as_slice(), 0, k);
        let rest = sub_chars(r.as_slice(), k + 1, r.len());
        assert(head@ =~= r@.take(k as int));
        assert(rest@ =~= r@.skip(k + 1));
        (trim_chars(head.as_slice()), trim_chars(rest.as_slice()))
    } else {
        (trim_chars(r.as_slice()), Vec::new())
    };
    if path.len() == 0 {
        None
    } else {
        assert(tail@ =~= at_request(input@)->Some_0.1);
        Some((path, tail))
    }
}

/// The places an `@` path is looked for (see [`candidate_paths`]).
pub fn candidate_list(raw: &[char], cwd: &[char], extra_dirs: &Vec<Vec<char>>) -> (r: Vec<Vec<char>>)
    ensures
        views(r@) == candidate_paths(raw@, cwd@, views(extra_dirs@)),
{
    let mut out: Vec<Vec<char>> = Vec::new();
    if raw.len() > 0 && raw[0] == '/' {
        let whole = sub_chars(raw, 0, raw.len());
        assert(whole@ =~= raw@);
        out.push(whole);
        assert(views(out@) =~= seq![raw@]);
        return out;
    }
    out.push(join_path_text(cwd, raw));
    let ghost inc = views(extra_dirs@);
    let ghost f = |d: Seq<char>| join_text(join_text(cwd@, d), raw@);
    let mut i: usize = 0;
    while i < extra_dirs.len()
        invariant
            i <= extra_dirs@.len(),
            inc == views(extra_dirs@),
            !is_absolute(raw@),
            f == (|d: Seq<char>| join_text(join_text(cwd@, d), raw@)),
            views(out@) == seq![join_text(cwd@, raw@)] + inc.take(i as int).map_values(f),
        decreases extra_dirs@.len() - i,
    {
        let base = join_path_text(cwd, extra_dirs[i].as_slice());
        let c = join_path_text(base.as_slice(), raw);
        let ghost before = views(out@);
        out.push(c);
        assert(inc.take(i + 1).map_values(f) =~= inc.take(i as int).map_values(f).push(f(inc[i as int])));
        assert(views(out@) =~= before.push(c@));
        i += 1;
    }
    assert(inc.take(extra_dirs@.len() as int) =~= inc);
    out
}

/// The executable form of a [`PathKey`].
pub struct ExecPathKey {
    pub absolute: bool,
    pub cur_dir: bool,
    pub parts: Vec<Vec<char>>,
}

/// The equality key of a path.
pub fn key_of(s: &[char]) -> (k: ExecPathKey)
    ensures
        k.absolute == path_key(s@).absolute,
        k.cur_dir == path_key(s@).cur_dir,
        views(k.parts@) == path_key(s@).parts,
{
    let absolute = s.len() > 0 && s[0] == '/';
    let cur_dir = !absolute && s.len() > 0 && s[0] == '.' && (s.len() == 1 || s[1] == '/');
    let segs = split_segments(s);
    let ghost sv = views(segs@);
    let ghost pred = |x: Seq<char>| x != "."@;
    let mut parts: Vec<Vec<char>> = Vec::new();
    let mut i: usize = 0;
    assert(sv.take(0) =~= Seq::<Seq<char>>::empty());
    while i < segs.len()
        invariant
            i <= segs@.len(),
            sv == views(segs@),
            pred == (|x: Seq<char>| x != "."@),
            views(parts@) == sv.take(i as int).filter(pred),
        decreases segs@.len() - i,
    {
        let ghost ti = sv.take(i + 1);
        assert(ti.drop_last() =~= sv.take(i as int));
        assert(ti.last() == segs@[i as int]@);
        reveal(Seq::filter);
        let ghost before = views(parts@);
        if !eq_lit(segs[i].as_slice(), ".") {
            parts.push(copy_chars(&segs[i]));
            assert(views(parts@) =~= before.push(segs@[i as int]@));
        }
        i += 1;
    }
    assert(sv.take(segs@.len() as int) =~= sv);
    ExecPathKey { absolute, cur_dir, parts }
}

/// Whether two paths are equal as paths.
pub fn same_key(a: &ExecPathKey, b: &ExecPathKey) -> (r: bool)
    ensures
        r == (a.absolute == b.absolute && a.cur_dir == b.cur_dir && views(a.parts@) == views(
            b.parts@,
        )),
{
    if a.absolute != b.absolute || a.cur_dir != b.cur_dir || a.parts.len() != b.parts.len() {
        assert(a.parts@.len() != b.parts@.len() ==> views(a.parts@).len() != views(b.parts@).len());
        return false;
    }
    let r = components_prefix(&a.parts, &b.parts);
    assert(views(b.parts@).take(a.parts@.len() as int) =~= views(b.parts@));
    r
}

/// Whether key `k` fits path `p`.
pub open spec fn key_fits(k: ExecPathKey, p: Seq<char>) -> bool {
    k.absolute == path_key(p).absolute && k.cur_dir == path_key(p).cur_dir && views(k.parts@)
        == path_key(p).parts
}

/// `c` without the paths equal to an earlier one (see [`unique_paths`]).
pub fn dedupe_paths(c: &Vec<Vec<char>>) -> (r: Vec<Vec<char>>)
    ensures
        views(r@) == unique_paths(views(c@)),
{
    let ghost cv = views(c@);
    let mut keys: Vec<ExecPathKey> = Vec::new();
    let mut i: usize = 0;
    while i < c.len()
        invariant
            i <= c@.len(),
            cv == views(c@),
            keys@.len() == i,
            forall|k: int| 0 <= k < i ==> key_fits(#[trigger] keys@[k], cv[k]),
        decreases c@.len() - i,
    {
        keys.push(key_of(c[i].as_slice()));
        i += 1;
    }
    let mut out: Vec<Vec<char>> = Vec::new();
    let mut i: usize = 0;
    assert(cv.take(0) =~= Seq::<Seq<char>>::empty());
    while i < c.len()
        invariant
            i <= c@.len(),
            cv == views(c@),
            keys@.len() == c@.len(),
            forall|k: int| 0 <= k < c@.len() ==> key_fits(#[trigger] keys@[k], cv[k]),
            views(out@) == unique_paths(cv.take(i as int)),
        decreases c@.len() - i,
    {
        let ghost ti = cv.take(i + 1);
        assert(ti.drop_last() =~= cv.take(i as int));
        assert(ti.last() == cv[i as int]);
        let mut found = false;
        let mut j: usize = 0;
        while j < i
            invariant
                j <= i < c@.len(),
                keys@.len() == c@.len(),
                forall|k: int| 0 <= k < c@.len() ==> key_fits(#[trigger] keys@[k], cv[k]),
                found == (exists|m: int| 0 <= m < j && path_key(#[trigger] cv[m]) == path_key(cv[i as int])),
            decreases i - j,
        {
            assert(key_fits(keys@[j as int], cv[j as int]));
            assert(key_fits(keys@[i as int], cv[i as int]));
            if same_key(&keys[j], &keys[i]) {
                assert(path_key(cv[j as int]) =~= path_key(cv[i as int]));
                found = true;
            }
            j += 1;
        }
        proof {
            assert forall|m: int| 0 <= m < ti.len() - 1 implies #[trigger] ti[m] == cv[m] by {}
            if found {
                let m = choose|m: int| 0 <= m < i && path_key(#[trigger] cv[m]) == path_key(cv[i as int]);
                assert(ti[m] == cv[m]);
            }
        }
        if !found {
            let ghost before = views(out@);
            out.push(copy_chars(&c[i]));
            assert(views(out@) =~= before.push(cv[i as int]));
        }
        i += 1;
    }
    assert(cv.take(c@.len() as int) =~= cv);
    out
}

/// Keeping first occurrences keeps at least one path of a non-empty list.
pub proof fn lemma_unique_paths_nonempty(c: Seq<Seq<char>>)
    requires
        c.len() > 0,
    ensures
        unique_paths(c).len() > 0,
    decreases c.len(),
{
    if c.len() > 1 {
        lemma_unique_paths_nonempty(c.drop_last());
    } else {
        assert(!(exists|j: int| 0 <= j < c.len() - 1 && path_key(#[trigger] c[j]) == path_key(c.last())));
    }
}

/// Every kept path comes from the list.
pub proof fn lemma_unique_paths_from(c: Seq<Seq<char>>)
    ensures
        forall|k: int| 0 <= k < unique_paths(c).len() ==> exists|j: int|
            0 <= j < c.len() && c[j] == #[trigger] unique_paths(c)[k],
    decreases c.len(),
{
    if c.len() > 0 {
        let p = c.drop_last();
        lemma_unique_paths_from(p);
        let u = unique_paths(c);
        let prev = unique_paths(p);
        assert forall|k: int| 0 <= k < u.len() implies exists|j: int|
            0 <= j < c.len() && c[j] == #[trigger] u[k] by {
            if k < prev.len() {
                assert(u[k] == prev[k]);
                let j = choose|j: int| 0 <= j < p.len() && p[j] == prev[k];
                assert(c[j] == p[j]);
            } else {
                assert(u[k] == c[c.len() - 1]);
            }
        }
    }
}

/// The places an `@` command tries are pairwise different paths.
pub proof fn law_candidates_distinct(c: Seq<Seq<char>>)
    ensures
        forall|a: int, b: int|
            0 <= a < b < unique_paths(c).len() ==> path_key(#[trigger] unique_paths(c)[a]) != path_key(
                #[trigger] unique_paths(c)[b],
            ),
    decreases c.len(),
{
    if c.len() > 0 {
        let p = c.drop_last();
        law_candidates_distinct(p);
        lemma_unique_paths_from(p);
        let u = unique_paths(c);
        let prev = unique_paths(p);
        assert forall|a: int, b: int| 0 <= a < b < u.len() implies path_key(#[trigger] u[a])
            != path_key(#[trigger] u[b]) by {
            assert(u[a] == prev[a]);
            if b < prev.len() {
                assert(u[b] == prev[b]);
            } else {
                assert(u[b] == c.last());
                let j = choose|j: int| 0 <= j < p.len() && p[j] == #[trigger] prev[a];
                assert(p[j] == c[j]);
            }
        }
    }
}

/// Prepares an `@` command: `None` when `input` is not one (see
/// [`at_request`]); otherwise its path, its tail, and the distinct places
/// to look, in the order of [`candidate_paths`].
pub fn plan_at_command(input: &str, cwd: &str, extra_dirs: &Vec<String>) -> (r: Option<
    AtCommandPlan,
>)
    ensures
        match (r, at_request(input@)) {
            (None, None) => true,
            (Some(p), Some((raw, tail))) => {
                &&& p.raw_path@ == raw
                &&& p.tail@ == tail
                &&& string_views(p.candidates@) == unique_paths(
                    candidate_paths(raw, cwd@, string_views(extra_dirs@)),
                )
                &&& p.candidates@.len() > 0
            },
            _ => false,
        },
{
    match parse_at_command(input) {
        None => None,
        Some((raw, tail)) => {
            let cwd_chars = chars_of(cwd);
            let dirs = chars_of_all(extra_dirs);
            let all = candidate_list(raw.as_slice(), cwd_chars.as_slice(), &dirs);
            let unique = dedupe_paths(&all);
            proof {
                lemma_unique_paths_nonempty(views(all@));
            }
            let candidates = strings_of_all(&unique);
            Some(
                AtCommandPlan {
                    raw_path: string_of(raw.as_slice()),
                    tail: string_of(tail.as_slice()),
                    candidates,
                },
            )
        },
    }
}

/// The abstract contents of a read, if any.
pub open spec fn read_view(read: Option<Vec<FileContent>>) -> Option<Seq<FileContent>> {
    match read {
        Some(v) => Some(v@),
        None => None,
    }
}

/// The expansion text for the files read (see [`at_payload`]).
pub fn expansion_text(files: &Vec<FileContent>, tail: &String) -> (s: String)
    ensures
        s@ == at_payload(files@, tail@),
{
    let ghost blocks_spec = files@.map_values(|f: FileContent| file_block(f));
    let mut blocks: Vec<Vec<char>> = Vec::new();
    let mut i: usize = 0;
    while i < files.len()
        invariant
            i <= files@.len(),
            blocks_spec == files@.map_values(|f: FileContent| file_block(f)),
            views(blocks@) == blocks_spec.take(i as int),
        decreases files@.len() - i,
    {
        let mut b = chars_of("## ");
        let p = chars_of(files[i].path.as_str());
        let nl = chars_of("\n");
        let c = chars_of(files[i].content.as_str());
        let ghost b0 = b@;
        append_all(&mut b, &p);
        append_all(&mut b, &nl);
        append_all(&mut b, &c);
        assert(b@ =~= file_block(files@[i as int]));
        let ghost before = views(blocks@);
        blocks.push(b);
        assert(views(blocks@) =~= before.push(file_block(files@[i as int])));
        assert(blocks_spec.take(i + 1) =~= blocks_spec.take(i as int).push(blocks_spec[i as int]));
        i += 1;
    }
    assert(blocks_spec.take(files@.len() as int) =~= blocks_spec);
    let body = join_from(&blocks, 0, "\n\n");
    assert(views(blocks@).skip(0) =~= views(blocks@));
    let mut s = string_of(body.as_slice());
    if tail.unicode_len() > 0 {
        s.append("\n\n");
        s.append(tail.as_str());
    }
    s
}

/// Appends the characters of `w` to `v`.
pub fn append_all(v: &mut Vec<char>, w: &Vec<char>)
    ensures
        final(v)@ == old(v)@ + w@,
{
    let mut i: usize = 0;
    while i < w.len()
        invariant
            i <= w@.len(),
            v@ == old(v)@ + w@.take(i as int),
        decreases w@.len() - i,
    {
        v.push(w[i]);
        i += 1;
        assert(v@ =~= old(v)@ + w@.take(i as int));
    }
    assert(w@.take(w@.len() as int) =~= w@);
}

/// Whether a read gave at least one file.
pub open spec fn read_has_files(read: Option<Seq<FileContent>>) -> bool {
    match read {
        Some(files) => files.len() > 0,
        None => false,
    }
}

/// The first candidate from `i` on whose read gave files, or `n` when none.
pub open spec fn first_hit(reads: Seq<Option<Seq<FileContent>>>, i: int, n: int) -> int
    decreases n - i,
{
    if i >= n {
        n
    } else if read_has_files(reads[i]) {
        i
    } else {
        first_hit(reads, i + 1, n)
    }
}

/// The outcome of an `@` command whose candidates' reads would give
/// `reads`: the expansion of the first candidate that holds files, else
/// the failure naming every candidate.
pub open spec fn at_outcome(
    raw: Seq<char>,
    tail: Seq<char>,
    candidates: Seq<Seq<char>>,
    reads: Seq<Option<Seq<FileContent>>>,
) -> Result<Seq<char>, Seq<char>> {
    let h = first_hit(reads, 0, candidates.len() as int);
    if h < candidates.len() {
        Ok(at_payload(reads[h]->Some_0, tail))
    } else {
        Err(at_failure(raw, candidates))
    }
}

/// Following the steps from candidate `i` on, each read answered by
/// `reads`, until the command expands or fails.
pub open spec fn follow_steps(
    raw: Seq<char>,
    tail: Seq<char>,
    candidates: Seq<Seq<char>>,
    reads: Seq<Option<Seq<FileContent>>>,
    i: int,
) -> Result<Seq<char>, Seq<char>>
    decreases candidates.len() - i,
{
    if i < 0 || i >= candidates.len() {
        Err(at_failure(raw, candidates))
    } else {
        match next_step(raw, tail, candidates, i, reads[i]) {
            AtStepModel::Read(j) => if j == i + 1 {
                follow_steps(raw, tail, candidates, reads, i + 1)
            } else {
                Err(at_failure(raw, candidates))
            },
            AtStepModel::Expanded(text) => Ok(text),
            AtStepModel::Failed(message) => Err(message),
        }
    }
}

/// The candidates read when following the steps from candidate `i` on,
/// each read answered by `reads`, in the order they are read.
pub open spec fn candidates_read(
    raw: Seq<char>,
    tail: Seq<char>,
    candidates: Seq<Seq<char>>,
    reads: Seq<Option<Seq<FileContent>>>,
    i: int,
) -> Seq<int>
    decreases candidates.len() - i,
{
    if i < 0 || i >= candidates.len() {
        seq![]
    } else {
        match next_step(raw, tail, candidates, i, reads[i]) {
            AtStepModel::Read(j) => if j == i + 1 {
                seq![i] + candidates_read(raw, tail, candidates, reads, i + 1)
            } else {
                seq![i]
            },
            _ => seq![i],
        }
    }
}

/// Running an `@` command from its first step reads the candidates in
/// order, from the first up to the first whose read holds files (or all of
/// them when none does), and gives [`at_outcome`].
pub proof fn law_at_command_protocol(
    raw: Seq<char>,
    tail: Seq<char>,
    candidates: Seq<Seq<char>>,
    reads: Seq<Option<Seq<FileContent>>>,
)
    requires
        candidates.len() > 0,
    ensures
        follow_steps(raw, tail, candidates, reads, 0) == at_outcome(raw, tail, candidates, reads),
        ({
            let n = candidates.len() as int;
            let h = first_hit(reads, 0, n);
            candidates_read(raw, tail, candidates, reads, 0) == Seq::new(
                (if h < n { h + 1 } else { n }) as nat,
                |k: int| k,
            )
        }),
{
    lemma_follow_steps_from(raw, tail, candidates, reads, 0);
    lemma_candidates_read_from(raw, tail, candidates, reads, 0);
}

proof fn lemma_candidates_read_from(
    raw: Seq<char>,
    tail: Seq<char>,
    candidates: Seq<Seq<char>>,
    reads: Seq<Option<Seq<FileContent>>>,
    i: int,
)
    requires
        0 <= i < candidates.len(),
    ensures
        ({
            let n = candidates.len() as int;
            let h = first_hit(reads, i, n);
            let end = if h < n { h + 1 } else { n };
            candidates_read(raw, tail, candidates, reads, i) == Seq::new(
                (end - i) as nat,
                |k: int| k + i,
            )
        }),
    decreases candidates.len() - i,
{
    let n = candidates.len() as int;
    if read_has_files(reads[i]) {
        assert(first_hit(reads, i, n) == i);
        assert(candidates_read(raw, tail, candidates, reads, i) =~= seq![i]);
        assert(Seq::new(1nat, |k: int| k + i) =~= seq![i]);
    } else {
        assert(first_hit(reads, i, n) == first_hit(reads, i + 1, n));
        if i + 1 < n {
            lemma_candidates_read_from(raw, tail, candidates, reads, i + 1);
            let h = first_hit(reads, i + 1, n);
            let end = if h < n { h + 1 } else { n };
            lemma_first_hit_range(reads, i + 1, n);
            assert(seq![i] + Seq::new((end - (i + 1)) as nat, |k: int| k + (i + 1)) =~= Seq::new(
                (end - i) as nat,
                |k: int| k + i,
            ));
        } else {
            assert(first_hit(reads, i + 1, n) == n);
            assert(candidates_read(raw, tail, candidates, reads, i) =~= seq![i]);
            assert(Seq::new(1nat, |k: int| k + i) =~= seq![i]);
        }
    }
}

proof fn lemma_first_hit_range(reads: Seq<Option<Seq<FileContent>>>, i: int, n: int)
    requires
        i <= n,
    ensures
        i <= first_hit(reads, i, n) <= n,
    decreases n - i,
{
    if i < n && !read_has_files(reads[i]) {
        lemma_first_hit_range(reads, i + 1, n);
    }
}

proof fn lemma_follow_steps_from(
    raw: Seq<char>,
    tail: Seq<char>,
    candidates: Seq<Seq<char>>,
    reads: Seq<Option<Seq<FileContent>>>,
    i: int,
)
    requires
        0 <= i < candidates.len(),
    ensures
        ({
            let h = first_hit(reads, i, candidates.len() as int);
            follow_steps(raw, tail, candidates, reads, i) == if h < candidates.len() {
                Ok::<Seq<char>, Seq<char>>(at_payload(reads[h]->Some_0, tail))
            } else {
                Err(at_failure(raw, candidates))
            }
        }),
    decreases candidates.len() - i,
{
    let n = candidates.len() as int;
    if read_has_files(reads[i]) {
        assert(first_hit(reads, i, n) == i);
    } else {
        assert(first_hit(reads, i, n) == first_hit(reads, i + 1, n));
        if i + 1 < n {
            lemma_follow_steps_from(raw, tail, candidates, reads, i + 1);
        } else {
            assert(first_hit(reads, i + 1, n) == n);
        }
    }
}

impl AtCommandPlan {
    /// The first step: read the first candidate.
    pub fn first_step(&self) -> (s: AtStep)
        ensures
            s.model() == AtStepModel::Read(0),
    {
        AtStep::Read(0)
    }

    /// The tool request for step `Read(index)`: the files at that
    /// candidate, at most [`AT_COMMAND_MAX_FILES`] of them.
    pub fn read_request(&self, index: usize) -> (r: ToolRequest)
        requires
            index < self.candidates@.len(),
        ensures
            match r {
                ToolRequest::ReadManyFiles { path, max_files } => path@
                    == self.candidates@[index as int]@ && max_files == AT_COMMAND_MAX_FILES,
                _ => false,
            },
    {
        ToolRequest::ReadManyFiles { path: self.candidates[index].clone(), max_files: AT_COMMAND_MAX_FILES }
    }

    /// What to do after reading candidate `index` (see [`next_step`]);
    /// `read` is `None` when that read failed.
    pub fn after_read(&self, index: usize, read: Option<Vec<FileContent>>) -> (s: AtStep)
        requires
            index < self.candidates@.len(),
        ensures
            s.model() == next_step(
                self.raw_path@,
                self.tail@,
                string_views(self.candidates@),
                index as int,
                read_view(read),
            ),
    {
        match read {
            Some(files) if files.len() > 0 => {
                return AtStep::Expanded(expansion_text(&files, &self.tail));
            },
            _ => {},
        }
        if index < self.candidates.len() - 1 {
            AtStep::Read(index + 1)
        } else {
            let mut s = String::from_str("Failed to resolve @ command path: ");
            s.append(self.raw_path.as_str());
            s.append(". Searched: ");
            let cands = chars_of_all(&self.candidates);
            let listed = join_from(&cands, 0, ", ");
            assert(views(cands@).skip(0) =~= views(cands@));
            push_chars(&mut s, listed.as_slice());
            AtStep::Failed(s)
        }
    }
}

} // verus!

