//! Values exchanged with the file and shell tools, and the text processing
//! those tools perform.

use vstd::prelude::*;
use vstd::string::*;
use crate::text::{
    cat2, chars_of, contains_chars, eq_lit, contains_text, decimal, decimal_chars, occurs_at,
    key_is, lemma_parts_le_single, occurs_at_exec, parts_le, push_chars, sort_by_parts_key, string_of,
    sub_chars, text_le, views,
};

verus! {

/// Why a tool call failed.
#[derive(Debug, Clone, Copy, PartialEq, Eq, Structural)]
pub enum ToolErrorKind {
    NotFound,
    NotFile,
    NotDirectory,
    InvalidInput,
    Io,
}

/// A failed tool call.
#[derive(Debug, Clone)]
pub struct ToolError {
    pub kind: ToolErrorKind,
    pub message: String,
}

/// One entry of a directory listing.
#[derive(Debug, Clone)]
pub struct DirectoryEntry {
    pub name: String,
    pub path: String,
    pub is_directory: bool,
}

/// One line that a text search matched.
#[derive(Debug, Clone)]
pub struct GrepMatch {
    pub path: String,
    pub line_number: usize,
    pub line: String,
}

/// A file and its text.
#[derive(Debug, Clone)]
pub struct FileContent {
    pub path: String,
    pub content: String,
}

/// What writing a file did.
#[derive(Debug, Clone)]
pub struct WriteFileResult {
    pub path: String,
    pub bytes_written: usize,
}

/// What a replacement in a file did.
#[derive(Debug, Clone)]
pub struct ReplaceResult {
    pub path: String,
    pub occurrences: usize,
    pub bytes_written: usize,
}

/// What a shell command printed and how it ended.
#[derive(Debug, Clone)]
pub struct ShellCommandResult {
    pub command: String,
    pub status_code: Option<i32>,
    pub stdout: String,
    pub stderr: String,
}

impl ToolError {
    /// The kind and message of the error.
    pub open spec fn view_pair(&self) -> (ToolErrorKind, Seq<char>) {
        (self.kind, self.message@)
    }

    /// How the error is shown: its message.
    pub fn to_string(&self) -> (s: String)
        ensures
            s@ == self.message@,
    {
        self.message.clone()
    }
}

/// The message for a path-related failure of the given kind: a missing
/// path, a path that is not a file or not a directory, or one of a type
/// that cannot be read.
pub open spec fn path_error_message(kind: ToolErrorKind, path: Seq<char>) -> Seq<char> {
    match kind {
        ToolErrorKind::NotFound => "Path does not exist: "@ + path,
        ToolErrorKind::NotFile => "Path is not a file: "@ + path,
        ToolErrorKind::NotDirectory => "Path is not a directory: "@ + path,
        _ => "Unsupported path type: "@ + path,
    }
}

/// The error for a path that is missing, not a file, not a directory, or
/// of an unsupported type (reported as an I/O error).
pub fn path_error(kind: ToolErrorKind, path: &str) -> (e: ToolError)
    ensures
        e.kind == (match kind {
            ToolErrorKind::NotFound | ToolErrorKind::NotFile | ToolErrorKind::NotDirectory => kind,
            _ => ToolErrorKind::Io,
        }),
        e.message@ == path_error_message(kind, path@),
{
    let p = chars_of(path);
    match kind {
        ToolErrorKind::NotFound => ToolError { kind, message: cat2("Path does not exist: ", p.as_slice()) },
        ToolErrorKind::NotFile => ToolError { kind, message: cat2("Path is not a file: ", p.as_slice()) },
        ToolErrorKind::NotDirectory => ToolError { kind, message: cat2("Path is not a directory: ", p.as_slice()) },
        _ => ToolError { kind: ToolErrorKind::Io, message: cat2("Unsupported path type: ", p.as_slice()) },
    }
}

/// The error for an input/output failure at `path`, described by `detail`.
pub fn io_error(path: &str, detail: &str) -> (e: ToolError)
    ensures
        e.kind == ToolErrorKind::Io,
        e.message@ == "I/O error at "@ + path@ + ": "@ + detail@,
{
    let mut m = String::from_str("I/O error at ");
    m.append(path);
    m.append(": ");
    m.append(detail);
    ToolError { kind: ToolErrorKind::Io, message: m }
}

/// Whether a directory is left out of recursive file searches: `.git`,
/// `node_modules` and `target`, by name; a path without a (UTF-8) name is
/// searched.
pub fn should_skip_directory(name: Option<&str>) -> (b: bool)
    ensures
        b == match name {
            Some(n) => n@ == ".git"@ || n@ == "node_modules"@ || n@ == "target"@,
            None => false,
        },
{
    match name {
        Some(n) => {
            let c = chars_of(n);
            eq_lit(c.as_slice(), ".git") || eq_lit(c.as_slice(), "node_modules") || eq_lit(
                c.as_slice(),
                "target",
            )
        },
        None => false,
    }
}

/// How many times `pat` occurs in `s`, counting from the left without
/// overlaps (`str::matches(..).count()`).
pub open spec fn count_matches(s: Seq<char>, pat: Seq<char>) -> nat
    decreases s.len(),
{
    if s.len() == 0 || pat.len() == 0 {
        0
    } else if occurs_at(s, pat, 0) {
        1 + count_matches(s.skip(pat.len() as int), pat)
    } else {
        count_matches(s.drop_first(), pat)
    }
}

/// `s` with every occurrence of `pat`, counted as in [`count_matches`],
/// replaced by `rep` (`str::replace`).
pub open spec fn replace_all(s: Seq<char>, pat: Seq<char>, rep: Seq<char>) -> Seq<char>
    decreases s.len(),
{
    if s.len() == 0 || pat.len() == 0 {
        s
    } else if occurs_at(s, pat, 0) {
        rep + replace_all(s.skip(pat.len() as int), pat, rep)
    } else {
        seq![s[0]] + replace_all(s.drop_first(), pat, rep)
    }
}

/// Replacing changes the length by the number of occurrences times the
/// difference in length between the replacement and the replaced text; with
/// no occurrence the text is unchanged.
pub proof fn law_replace_all_length(s: Seq<char>, pat: Seq<char>, rep: Seq<char>)
    requires
        pat.len() > 0,
    ensures
        replace_all(s, pat, rep).len() == s.len() + count_matches(s, pat) * (rep.len() - pat.len()),
        count_matches(s, pat) == 0 ==> replace_all(s, pat, rep) == s,
    decreases s.len(),
{
    if s.len() > 0 {
        if occurs_at(s, pat, 0) {
            law_replace_all_length(s.skip(pat.len() as int), pat, rep);
            assert(s.skip(pat.len() as int).len() == s.len() - pat.len());
            assert(replace_all(s, pat, rep) == rep + replace_all(s.skip(pat.len() as int), pat, rep));
            assert(count_matches(s, pat) * (rep.len() - pat.len()) == (rep.len() - pat.len())
                + count_matches(s.skip(pat.len() as int), pat) * (rep.len() - pat.len())) by (nonlinear_arith)
                requires
                    count_matches(s, pat) == 1 + count_matches(s.skip(pat.len() as int), pat),
            ;
            assert(replace_all(s, pat, rep).len() == s.len() + count_matches(s, pat) * (rep.len() - pat.len()));
        } else {
            law_replace_all_length(s.drop_first(), pat, rep);
            assert(replace_all(s, pat, rep) == seq![s[0]] + replace_all(s.drop_first(), pat, rep));
            assert(count_matches(s, pat) == count_matches(s.drop_first(), pat));
            let d: int = rep.len() - pat.len();
            let c: int = count_matches(s, pat) as int;
            let c1: int = count_matches(s.drop_first(), pat) as int;
            assert(c * d == c1 * d);
            assert(replace_all(s, pat, rep).len() == 1 + replace_all(s.drop_first(), pat, rep).len());
            assert(replace_all(s, pat, rep).len() == s.len() + count_matches(s, pat) * (rep.len() - pat.len()));
            if count_matches(s, pat) == 0 {
                assert(replace_all(s, pat, rep) =~= seq![s[0]] + s.drop_first());
            }
        }
    } else {
        assert(count_matches(s, pat) == 0);
        assert(count_matches(s, pat) * (rep.len() - pat.len()) == 0);
    }
}

/// The text to replace must not be empty.
pub fn validate_old_string(old_string: &str) -> (r: Result<(), ToolError>)
    ensures
        r is Err <==> old_string@.len() == 0,
        r matches Err(e) ==> e.view_pair() == (ToolErrorKind::InvalidInput, "old_string must not be empty"@),
{
    if old_string.unicode_len() == 0 {
        Err(ToolError { kind: ToolErrorKind::InvalidInput, message: String::from_str("old_string must not be empty") })
    } else {
        Ok(())
    }
}

/// A replacement to write back: the new text and how many occurrences it
/// replaced.
pub struct Replacement {
    pub updated: String,
    pub occurrences: usize,
}

/// The outcome of replacing `old` by `new` in `current` (the file shown as
/// `path`): an error when `old` does not occur, or occurs more than once
/// while `allow_multiple` is off; otherwise the new text and the count.
pub open spec fn replacement_outcome(
    current: Seq<char>,
    old: Seq<char>,
    new: Seq<char>,
    allow_multiple: bool,
    path: Seq<char>,
) -> Result<(Seq<char>, nat), (ToolErrorKind, Seq<char>)> {
    let n = count_matches(current, old);
    if n == 0 {
        Err((ToolErrorKind::InvalidInput, "old_string was not found in "@ + path))
    } else if n > 1 && !allow_multiple {
        Err(
            (
                ToolErrorKind::InvalidInput,
                "old_string matched "@ + decimal(n) + " times in "@ + path
                    + ". Set allow_multiple to replace all matches."@,
            ),
        )
    } else {
        Ok((replace_all(current, old, new), n))
    }
}

/// Counts the occurrences of `pat` in `s` and replaces them by `rep`.
pub fn count_and_replace(s: &[char], pat: &[char], rep: &[char]) -> (r: (Vec<char>, usize))
    requires
        pat@.len() > 0,
    ensures
        r.0@ == replace_all(s@, pat@, rep@),
        r.1 == count_matches(s@, pat@),
{
    let n = s.len();
    let mut out: Vec<char> = Vec::new();
    let mut count: usize = 0;
    let mut i: usize = 0;
    assert(s@.skip(0) =~= s@);
    while i < n
        invariant
            n == s@.len(),
            pat@.len() > 0,
            i <= n,
            count <= i,
            count + count_matches(s@.skip(i as int), pat@) == count_matches(s@, pat@),
            out@ + replace_all(s@.skip(i as int), pat@, rep@) == replace_all(s@, pat@, rep@),
        decreases n - i,
    {
        let ghost rest = s@.skip(i as int);
        let ghost before = out@;
        assert(rest.len() > 0);
        if occurs_at_exec(s, pat, i) {
            assert(rest.subrange(0, pat@.len() as int) =~= s@.subrange(i as int, i + pat@.len()));
            assert(occurs_at(rest, pat@, 0));
            assert(rest.skip(pat@.len() as int) =~= s@.skip(i + pat@.len()));
            let mut k: usize = 0;
            while k < rep.len()
                invariant
                    k <= rep@.len(),
                    out@ == before + rep@.take(k as int),
                decreases rep@.len() - k,
            {
                out.push(rep[k]);
                k += 1;
                assert(out@ =~= before + rep@.take(k as int));
            }
            assert(rep@.take(rep@.len() as int) =~= rep@);
            assert(out@ + replace_all(s@.skip(i + pat@.len()), pat@, rep@) =~= before + (rep@
                + replace_all(rest.skip(pat@.len() as int), pat@, rep@)));
            count += 1;
            i += pat.len();
        } else {
            proof {
                if occurs_at(rest, pat@, 0) {
                    assert(rest.subrange(0, pat@.len() as int) =~= s@.subrange(i as int, i + pat@.len()));
                }
            }
            assert(rest.drop_first() =~= s@.skip(i + 1));
            out.push(s[i]);
            assert(out@ + replace_all(s@.skip(i + 1), pat@, rep@) =~= before + (seq![rest[0]]
                + replace_all(rest.drop_first(), pat@, rep@)));
            i += 1;
        }
    }
    assert(s@.skip(n as int).len() == 0);
    assert(out@ + s@.skip(n as int) =~= out@);
    (out, count)
}

/// Decides a replacement (see [`replacement_outcome`]); `old_string` has
/// already been found non-empty by [`validate_old_string`].
pub fn plan_replacement(
    current: &str,
    old_string: &str,
    new_string: &str,
    allow_multiple: bool,
    path: &str,
) -> (r: Result<Replacement, ToolError>)
    requires
        old_string@.len() > 0,
    ensures
        match (r, replacement_outcome(current@, old_string@, new_string@, allow_multiple, path@)) {
            (Ok(rep), Ok((text, n))) => rep.updated@ == text && rep.occurrences == n,
            (Err(e), Err(pair)) => e.view_pair() == pair,
            _ => false,
        },
{
    let s = chars_of(current);
    let pat = chars_of(old_string);
    let rep = chars_of(new_string);
    let (updated, count) = count_and_replace(s.as_slice(), pat.as_slice(), rep.as_slice());
    let p = chars_of(path);
    if count == 0 {
        return Err(ToolError { kind: ToolErrorKind::InvalidInput, message: cat2("old_string was not found in ", p.as_slice()) });
    }
    if count > 1 && !allow_multiple {
        let mut m = String::from_str("old_string matched ");
        let digits = decimal_chars(count as u64);
        push_chars(&mut m, digits.as_slice());
        m.append(" times in ");
        push_chars(&mut m, p.as_slice());
        m.append(". Set allow_multiple to replace all matches.");
        return Err(ToolError { kind: ToolErrorKind::InvalidInput, message: m });
    }
    Ok(Replacement { updated: string_of(updated.as_slice()), occurrences: count })
}

/// Index of the first line feed in `s`, or its length when there is none.
pub open spec fn newline_index(s: Seq<char>) -> nat
    decreases s.len(),
{
    if s.len() == 0 || s[0] == '\n' {
        0
    } else {
        1 + newline_index(s.drop_first())
    }
}

pub proof fn lemma_newline_index_exact(t: Seq<char>, m: int)
    requires
        0 <= m <= t.len(),
        forall|k: int| 0 <= k < m ==> #[trigger] t[k] != '\n',
        m == t.len() || t[m] == '\n',
    ensures
        newline_index(t) == m,
    decreases m,
{
    if m > 0 {
        let u = t.drop_first();
        assert forall|k: int| 0 <= k < m - 1 implies #[trigger] u[k] != '\n' by {
            assert(u[k] == t[k + 1]);
        }
        if m < t.len() {
            assert(u[m - 1] == t[m]);
        }
        lemma_newline_index_exact(u, m - 1);
    }
}

/// A line ended by a line feed loses a carriage return before it.
pub open spec fn strip_cr(line: Seq<char>) -> Seq<char> {
    if line.len() > 0 && line.last() == '\r' {
        line.drop_last()
    } else {
        line
    }
}

/// The lines of a text (`str::lines`): split at line feeds, a carriage
/// return before a line feed dropped, no empty line after a final line feed.
pub open spec fn text_lines(s: Seq<char>) -> Seq<Seq<char>>
    decreases s.len(),
{
    if s.len() == 0 {
        seq![]
    } else {
        let k = newline_index(s);
        if k < s.len() {
            seq![strip_cr(s.take(k as int))] + text_lines(s.skip(k + 1 as int))
        } else {
            seq![s]
        }
    }
}

/// The lines of `lines` that contain `query`, with their 1-based numbers.
pub open spec fn grep_hits(lines: Seq<Seq<char>>, query: Seq<char>) -> Seq<(nat, Seq<char>)>
    decreases lines.len(),
{
    if lines.len() == 0 {
        seq![]
    } else {
        let prev = grep_hits(lines.drop_last(), query);
        if contains_text(lines.last(), query) {
            prev.push((lines.len(), lines.last()))
        } else {
            prev
        }
    }
}

/// The report of writing `content` to the file shown as `path`: the path
/// and the number of bytes of `content` in UTF-8.
pub fn write_file_result(path: &str, content: &str) -> (r: WriteFileResult)
    requires
        vstd::utf8::encode_utf8(content@).len() <= usize::MAX,
    ensures
        r.path@ == path@,
        r.bytes_written == vstd::utf8::encode_utf8(content@).len(),
{
    WriteFileResult { path: path.to_owned(), bytes_written: content.len() }
}

/// The report of writing `replacement` back to the file shown as `path`:
/// the path, the occurrences replaced, and the bytes of the new text in
/// UTF-8.
pub fn replace_result(path: &str, replacement: &Replacement) -> (r: ReplaceResult)
    requires
        vstd::utf8::encode_utf8(replacement.updated@).len() <= usize::MAX,
    ensures
        r.path@ == path@,
        r.occurrences == replacement.occurrences,
        r.bytes_written == vstd::utf8::encode_utf8(replacement.updated@).len(),
{
    ReplaceResult {
        path: path.to_owned(),
        occurrences: replacement.occurrences,
        bytes_written: replacement.updated.as_str().len(),
    }
}

/// Directory entries in order of their names.
pub open spec fn sorted_by_name(s: Seq<DirectoryEntry>) -> bool {
    forall|i: int, j: int|
        0 <= i < j < s.len() ==> text_le(#[trigger] s[i].name@, #[trigger] s[j].name@)
}

/// The entries named `name`.
pub open spec fn name_is(name: Seq<char>) -> spec_fn(DirectoryEntry) -> bool {
    |e: DirectoryEntry| e.name@ == name
}

/// Sorts a directory listing by entry name, keeping entries of equal names
/// in their order.
pub fn sort_entries(v: Vec<DirectoryEntry>) -> (r: Vec<DirectoryEntry>)
    ensures
        sorted_by_name(r@),
        r@.to_multiset() == v@.to_multiset(),
        forall|name: Seq<char>| #[trigger] r@.filter(name_is(name)) == v@.filter(name_is(name)),
{
    let mut keys: Vec<Vec<Vec<char>>> = Vec::new();
    let mut i: usize = 0;
    while i < v.len()
        invariant
            i <= v@.len(),
            keys@.len() == i,
            forall|k: int| 0 <= k < i ==> #[trigger] views(keys@[k]@) == seq![v@[k].name@],
        decreases v@.len() - i,
    {
        let one = vec![chars_of(v[i].name.as_str())];
        assert(views(one@) =~= seq![v@[i as int].name@]);
        keys.push(one);
        i += 1;
    }
    let ghost key = |e: DirectoryEntry| seq![e.name@];
    let r = sort_by_parts_key(v, keys, Ghost(key));
    assert forall|a: int, b: int| 0 <= a < b < r@.len() implies text_le(
        #[trigger] r@[a].name@,
        #[trigger] r@[b].name@,
    ) by {
        assert(parts_le(key(r@[a]), key(r@[b])));
        lemma_parts_le_single(r@[a].name@, r@[b].name@);
    }
    assert forall|name: Seq<char>| #[trigger] r@.filter(name_is(name)) == v@.filter(name_is(name)) by {
        assert(r@.filter(key_is(key, seq![name])) == v@.filter(key_is(key, seq![name])));
        assert forall|e: DirectoryEntry| #[trigger] name_is(name)(e) == key_is(key, seq![name])(e) by {
            if seq![e.name@] == seq![name] {
                assert(seq![e.name@][0] == seq![name][0]);
            }
        }
        assert(name_is(name) =~= key_is(key, seq![name]));
    }
    r
}

/// Splits a text into lines (see [`text_lines`]).
pub fn split_lines(s: &[char]) -> (out: Vec<Vec<char>>)
    ensures
        views(out@) == text_lines(s@),
{
    let n = s.len();
    let mut out: Vec<Vec<char>> = Vec::new();
    let mut i: usize = 0;
    assert(s@.skip(0) =~= s@);
    while i < n
        invariant
            n == s@.len(),
            i <= n,
            text_lines(s@) == views(out@) + text_lines(s@.skip(i as int)),
        decreases n - i,
    {
        let ghost rest = s@.skip(i as int);
        let mut j: usize = i;
        while j < n && s[j] != '\n'
            invariant
                n == s@.len(),
                i <= j <= n,
                forall|k: int| i <= k < j ==> #[trigger] s@[k] != '\n',
            decreases n - j,
        {
            j += 1;
        }
        proof {
            assert forall|k: int| 0 <= k < j - i implies #[trigger] rest[k] != '\n' by {
                assert(rest[k] == s@[i + k]);
            }
            if j < n {
                assert(rest[j - i] == s@[j as int]);
            }
            lemma_newline_index_exact(rest, j - i);
        }
        let ghost before = views(out@);
        if j < n {
            let end = if j > i && s[j - 1] == '\r' { j - 1 } else { j };
            let line = sub_chars(s, i, end);
            assert(line@ =~= strip_cr(rest.take(j - i)));
            out.push(line);
            assert(rest.skip(j - i + 1) =~= s@.skip(j + 1));
            assert(views(out@) =~= before.push(line@));
            i = j + 1;
        } else {
            let line = sub_chars(s, i, n);
            assert(line@ =~= rest);
            out.push(line);
            assert(views(out@) =~= before.push(line@));
            assert(s@.skip(n as int) =~= Seq::<char>::empty());
            i = n;
        }
    }
    assert(s@.skip(n as int) =~= Seq::<char>::empty());
    assert(views(out@) + Seq::<Seq<char>>::empty() =~= views(out@));
    out
}

/// Whether the matches found are the hits for the file at `path`.
pub open spec fn grep_result_is(m: Seq<GrepMatch>, path: Seq<char>, hits: Seq<(nat, Seq<char>)>) -> bool {
    &&& m.len() == hits.len()
    &&& forall|k: int|
        0 <= k < m.len() ==> (#[trigger] m[k]).path@ == path && m[k].line_number == hits[k].0
            && m[k].line@ == hits[k].1
}

/// The lines of one file's `content` that contain `query`, in order.
pub fn grep_text(path: &str, content: &str, query: &str) -> (r: Vec<GrepMatch>)
    ensures
        grep_result_is(r@, path@, grep_hits(text_lines(content@), query@)),
{
    let chars = chars_of(content);
    let q = chars_of(query);
    let lines = split_lines(chars.as_slice());
    let ghost lv = views(lines@);
    let mut out: Vec<GrepMatch> = Vec::new();
    let mut i: usize = 0;
    assert(lv.take(0) =~= Seq::<Seq<char>>::empty());
    while i < lines.len()
        invariant
            i <= lines@.len(),
            lv == views(lines@),
            q@ == query@,
            grep_result_is(out@, path@, grep_hits(lv.take(i as int), query@)),
        decreases lines@.len() - i,
    {
        let ghost ti = lv.take(i + 1);
        assert(ti.drop_last() =~= lv.take(i as int));
        assert(ti.last() == lines@[i as int]@);
        let ghost before = out@;
        if contains_chars(lines[i].as_slice(), q.as_slice()) {
            out.push(GrepMatch { path: String::from_str(path), line_number: i + 1, line: string_of(lines[i].as_slice()) });
            assert forall|k: int| 0 <= k < out@.len() implies (#[trigger] out@[k]).path@ == path@
                && out@[k].line_number == grep_hits(ti, query@)[k].0 && out@[k].line@ == grep_hits(ti, query@)[k].1 by {
                if k < before.len() {
                    assert(out@[k] == before[k]);
                }
            }
        }
        i += 1;
    }
    assert(lv.take(lines@.len() as int) =~= lv);
    out
}

/// A search reports exactly the lines in which the query occurs somewhere,
/// each with its 1-based number, in the order of the lines.
pub proof fn law_grep_reports_lines_containing_query(lines: Seq<Seq<char>>, query: Seq<char>)
    ensures
        forall|n: nat, l: Seq<char>|
            #[trigger] grep_hits(lines, query).contains((n, l)) <==> (1 <= n <= lines.len() && l
                == lines[n - 1] && exists|i: int|
                0 <= i && i + query.len() <= l.len() && #[trigger] l.subrange(i, i + query.len()) == query),
        forall|a: int, b: int|
            0 <= a < b < grep_hits(lines, query).len() ==> #[trigger] grep_hits(lines, query)[a].0
                < #[trigger] grep_hits(lines, query)[b].0,
    decreases lines.len(),
{
    if lines.len() > 0 {
        let prev = lines.drop_last();
        law_grep_reports_lines_containing_query(prev, query);
        let p = grep_hits(prev, query);
        let g = grep_hits(lines, query);
        let n0 = lines.len();
        assert forall|n: nat, l: Seq<char>| #[trigger] g.contains((n, l)) <==> (1 <= n <= lines.len()
            && l == lines[n - 1] && exists|i: int|
            0 <= i && i + query.len() <= l.len() && #[trigger] l.subrange(i, i + query.len()) == query) by {
            if 1 <= n < n0 {
                assert(prev[n - 1] == lines[n - 1]);
            }
            if contains_text(lines.last(), query) {
                assert(g == p.push((n0, lines.last())));
                if g.contains((n, l)) {
                    let k = choose|k: int| 0 <= k < g.len() && g[k] == (n, l);
                    if k < p.len() {
                        assert(p[k] == g[k]);
                        assert(p.contains((n, l)));
                    }
                }
                if p.contains((n, l)) {
                    let k = choose|k: int| 0 <= k < p.len() && p[k] == (n, l);
                    assert(g[k] == p[k]);
                }
                if n == n0 && l == lines[n - 1] {
                    assert(g[g.len() - 1] == (n, l));
                }
            } else {
                assert(g == p);
                if n == n0 && l == lines[n - 1] && exists|i: int|
                    0 <= i && i + query.len() <= l.len() && #[trigger] l.subrange(i, i + query.len()) == query {
                    let i = choose|i: int|
                        0 <= i && i + query.len() <= l.len() && #[trigger] l.subrange(i, i + query.len()) == query;
                    assert(occurs_at(lines.last(), query, i));
                }
                if g.contains((n, l)) && n == n0 {
                    let k = choose|k: int| 0 <= k < p.len() && p[k] == (n, l);
                    assert(p.contains(p[k]));
                }
            }
        }
        assert forall|a: int, b: int| 0 <= a < b < g.len() implies #[trigger] g[a].0 < #[trigger] g[b].0 by {
            if b < p.len() {
                assert(g[a] == p[a] && g[b] == p[b]);
            } else {
                assert(g[a] == p[a]);
                assert(p[a] == (p[a].0, p[a].1));
                assert(p.contains((p[a].0, p[a].1)));
                assert(g[b].0 == n0);
            }
        }
    }
}

} // verus!

