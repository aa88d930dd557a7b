//! Character-level text helpers shared by the command parsers.

use vstd::prelude::*;
use vstd::string::*;

verus! {

/// Unicode `White_Space` property, as used by `char::is_whitespace`.
pub open spec fn is_ws(c: char) -> bool {
    ||| ('\u{9}' <= c && c <= '\u{d}')
    ||| c == ' '
    ||| c == '\u{85}'
    ||| c == '\u{a0}'
    ||| c == '\u{1680}'
    ||| ('\u{2000}' <= c && c <= '\u{200a}')
    ||| c == '\u{2028}'
    ||| c == '\u{2029}'
    ||| c == '\u{202f}'
    ||| c == '\u{205f}'
    ||| c == '\u{3000}'
}

/// Executable whitespace test.
pub fn is_whitespace(c: char) -> (b: bool)
    ensures
        b == is_ws(c),
{
    ('\u{9}' <= c && c <= '\u{d}') || c == ' ' || c == '\u{85}' || c == '\u{a0}' || c == '\u{1680}'
        || ('\u{2000}' <= c && c <= '\u{200a}') || c == '\u{2028}' || c == '\u{2029}' || c
        == '\u{202f}' || c == '\u{205f}' || c == '\u{3000}'
}

/// The characters of a string slice, in order.
pub fn chars_of(s: &str) -> (v: Vec<char>)
    ensures
        v@ == s@,
{
    broadcast use vstd::string::group_string_axioms;
    let mut v: Vec<char> = Vec::new();
    for c in it: s.chars()
        invariant
            it.seq() == s@,
            v@ == s@.take(it.index()),
    {
        assert(s@.take(it.index() + 1) =~= s@.take(it.index()).push(c));
        v.push(c);
    }
    assert(v@ =~= s@);
    v
}

/// Appends one character to a string by calling `String::push`, which vstd
/// does not specify; the contract, taken on trust from its documentation,
/// is that the string's characters gain `c` at the end.
#[verifier::external_body]
pub fn push_char(s: &mut String, c: char)
    ensures
        final(s)@ == old(s)@.push(c),
{
    s.push(c);
}

/// Appends characters to a string.
pub fn push_chars(s: &mut String, v: &[char])
    ensures
        final(s)@ == old(s)@ + v@,
{
    let mut i: usize = 0;
    while i < v.len()
        invariant
            i <= v@.len(),
            s@ == old(s)@ + v@.take(i as int),
        decreases v@.len() - i,
    {
        push_char(s, v[i]);
        i += 1;
        assert(s@ =~= old(s)@ + v@.take(i as int));
    }
    assert(v@.take(v@.len() as int) =~= v@);
}

/// A copy of a character vector.
pub fn copy_chars(v: &Vec<char>) -> (r: Vec<char>)
    ensures
        r@ == v@,
{
    let mut r: Vec<char> = Vec::new();
    let mut i: usize = 0;
    while i < v.len()
        invariant
            i <= v@.len(),
            r@ == v@.take(i as int),
        decreases v@.len() - i,
    {
        r.push(v[i]);
        i += 1;
        assert(r@ =~= v@.take(i as int));
    }
    assert(v@.take(v@.len() as int) =~= v@);
    r
}

/// Builds a string from characters.
pub fn string_of(v: &[char]) -> (s: String)
    ensures
        s@ == v@,
{
    let mut s = String::new();
    push_chars(&mut s, v);
    s
}

/// Appends a string slice to a string.
pub fn push_str(s: &mut String, t: &str)
    ensures
        final(s)@ == old(s)@ + t@,
{
    s.append(t);
}


/// Length of the maximal run of non-whitespace characters at the start of `s`.
pub open spec fn word_len(s: Seq<char>) -> nat
    decreases s.len(),
{
    if s.len() == 0 || is_ws(s[0]) {
        0
    } else {
        1 + word_len(s.drop_first())
    }
}

pub proof fn lemma_word_len_bound(s: Seq<char>)
    ensures
        word_len(s) <= s.len(),
        s.len() > 0 && !is_ws(s[0]) ==> word_len(s) >= 1,
    decreases s.len(),
{
    if s.len() > 0 && !is_ws(s[0]) {
        lemma_word_len_bound(s.drop_first());
    }
}

/// The whitespace-separated words of `s`, in order (`str::split_whitespace`).
pub open spec fn words(s: Seq<char>) -> Seq<Seq<char>>
    decreases s.len(),
{
    if s.len() == 0 {
        seq![]
    } else if is_ws(s[0]) {
        words(s.drop_first())
    } else {
        let n = word_len(s);
        proof {
            lemma_word_len_bound(s);
        }
        seq![s.take(n as int)] + words(s.skip(n as int))
    }
}

/// Every word has at least one character.
pub proof fn lemma_words_nonempty(s: Seq<char>)
    ensures
        forall|k: int| 0 <= k < words(s).len() ==> #[trigger] words(s)[k].len() > 0,
    decreases s.len(),
{
    if s.len() == 0 {
        assert(words(s).len() == 0);
    } else if is_ws(s[0]) {
        lemma_words_nonempty(s.drop_first());
        assert(words(s) == words(s.drop_first()));
    } else {
        let n = word_len(s);
        lemma_word_len_bound(s);
        lemma_words_nonempty(s.skip(n as int));
        let w = words(s);
        assert(w == seq![s.take(n as int)] + words(s.skip(n as int)));
        assert(w[0] == s.take(n as int));
        assert(w[0].len() == n);
        assert forall|k: int| 0 <= k < w.len() implies #[trigger] w[k].len() > 0 by {
            if k > 0 {
                assert(w[k] == words(s.skip(n as int))[k - 1]);
            }
        }
    }
}

/// A run of `m` non-whitespace characters that ends at a whitespace
/// character or at the end is exactly the leading word.
pub proof fn lemma_word_len_exact(t: Seq<char>, m: int)
    requires
        0 <= m <= t.len(),
        forall|k: int| 0 <= k < m ==> !is_ws(#[trigger] t[k]),
        m == t.len() || is_ws(t[m]),
    ensures
        word_len(t) == m,
    decreases m,
{
    if m > 0 {
        assert(!is_ws(t[0]));
        let u = t.drop_first();
        assert forall|k: int| 0 <= k < m - 1 implies !is_ws(#[trigger] u[k]) by {
            assert(u[k] == t[k + 1]);
        }
        if m < t.len() {
            assert(u[m - 1] == t[m]);
        }
        lemma_word_len_exact(u, m - 1);
    }
}

/// The character views of a vector of character vectors.
pub open spec fn views(v: Seq<Vec<char>>) -> Seq<Seq<char>> {
    v.map_values(|w: Vec<char>| w@)
}

/// Splits `s` into its whitespace-separated words.
pub fn split_words(s: &[char]) -> (out: Vec<Vec<char>>)
    ensures
        views(out@) == words(s@),
{
    let n = s.len();
    let mut out: Vec<Vec<char>> = Vec::new();
    let mut i: usize = 0;
    assert(s@.skip(0) =~= s@);
    while i < n
        invariant
            n == s@.len(),
            i <= n,
            words(s@) == views(out@) + words(s@.skip(i as int)),
        decreases n - i,
    {
        let ghost rest = s@.skip(i as int);
        if is_whitespace(s[i]) {
            assert(rest.drop_first() =~= s@.skip(i + 1));
            i += 1;
        } else {
            let mut j: usize = i;
            let mut w: Vec<char> = Vec::new();
            while j < n && !is_whitespace(s[j])
                invariant
                    n == s@.len(),
                    i <= j <= n,
                    w@ == s@.subrange(i as int, j as int),
                    forall|k: int| i <= k < j ==> !is_ws(#[trigger] s@[k]),
                decreases n - j,
            {
                w.push(s[j]);
                j += 1;
                assert(w@ =~= s@.subrange(i as int, j as int));
            }
            proof {
                assert forall|k: int| 0 <= k < j - i implies !is_ws(#[trigger] rest[k]) by {
                    assert(rest[k] == s@[i + k]);
                }
                if j < n {
                    assert(rest[j - i] == s@[j as int]);
                }
                lemma_word_len_exact(rest, j - i);
                assert(rest.take(j - i) =~= w@);
                assert(rest.skip(j - i) =~= s@.skip(j as int));
            }
            let ghost before = out@;
            out.push(w);
            assert(views(out@) =~= views(before) + seq![w@]);
            i = j;
        }
    }
    assert(s@.skip(n as int) =~= Seq::<char>::empty());
    assert(words(s@.skip(n as int)) =~= Seq::<Seq<char>>::empty());
    assert(views(out@) + Seq::<Seq<char>>::empty() =~= views(out@));
    out
}

/// Whether the characters equal the text of `lit`.
pub fn eq_lit(v: &[char], lit: &str) -> (b: bool)
    ensures
        b == (v@ == lit@),
{
    let n = lit.unicode_len();
    if v.len() != n {
        return false;
    }
    let mut i: usize = 0;
    while i < n
        invariant
            n == lit@.len(),
            n == v@.len(),
            i <= n,
            forall|k: int| 0 <= k < i ==> v@[k] == lit@[k],
        decreases n - i,
    {
        if v[i] != lit.get_char(i) {
            return false;
        }
        i += 1;
    }
    assert(v@ =~= lit@);
    true
}

/// `pre`, then `mid`.
pub fn cat2(pre: &str, mid: &[char]) -> (s: String)
    ensures
        s@ == pre@ + mid@,
{
    let mut s = String::from_str(pre);
    push_chars(&mut s, mid);
    s
}

/// `pre`, then `mid`, then `post`.
pub fn cat3(pre: &str, mid: &[char], post: &str) -> (s: String)
    ensures
        s@ == pre@ + mid@ + post@,
{
    let mut s = String::from_str(pre);
    push_chars(&mut s, mid);
    push_str(&mut s, post);
    s
}

/// The strings of `parts` separated by `sep` (`join`).
pub open spec fn join(parts: Seq<Seq<char>>, sep: Seq<char>) -> Seq<char>
    decreases parts.len(),
{
    if parts.len() == 0 {
        seq![]
    } else if parts.len() == 1 {
        parts[0]
    } else {
        join(parts.drop_last(), sep) + sep + parts.last()
    }
}

/// Joins `parts[from..]` with `sep`.
pub fn join_from(parts: &Vec<Vec<char>>, from: usize, sep: &str) -> (s: Vec<char>)
    requires
        from <= parts@.len(),
    ensures
        s@ == join(views(parts@).skip(from as int), sep@),
{
    let sepv = chars_of(sep);
    let mut s: Vec<char> = Vec::new();
    let mut i: usize = from;
    let ghost all = views(parts@);
    assert(all.subrange(from as int, from as int) =~= Seq::<Seq<char>>::empty());
    while i < parts.len()
        invariant
            from <= i <= parts@.len(),
            all == views(parts@),
            sepv@ == sep@,
            s@ == join(all.subrange(from as int, i as int), sep@),
        decreases parts@.len() - i,
    {
        let ghost prev = all.subrange(from as int, i as int);
        let ghost next = all.subrange(from as int, i + 1);
        assert(next.drop_last() =~= prev);
        assert(next.last() == parts@[i as int]@);
        if i > from {
            let mut k: usize = 0;
            while k < sepv.len()
                invariant
                    k <= sepv@.len(),
                    s@ == join(prev, sep@) + sepv@.take(k as int),
                decreases sepv@.len() - k,
            {
                s.push(sepv[k]);
                k += 1;
                assert(s@ =~= join(prev, sep@) + sepv@.take(k as int));
            }
            assert(sepv@.take(sepv@.len() as int) =~= sepv@);
        }
        let ghost base = s@;
        let mut k: usize = 0;
        while k < parts[i].len()
            invariant
                i < parts@.len(),
                k <= parts@[i as int]@.len(),
                s@ == base + parts@[i as int]@.take(k as int),
            decreases parts@[i as int]@.len() - k,
        {
            s.push(parts[i][k]);
            k += 1;
            assert(s@ =~= base + parts@[i as int]@.take(k as int));
        }
        assert(parts@[i as int]@.take(parts@[i as int]@.len() as int) =~= parts@[i as int]@);
        if i == from {
            assert(next.len() == 1);
            assert(s@ =~= next[0]);
        }
        i += 1;
    }
    assert(all.subrange(from as int, parts@.len() as int) =~= all.skip(from as int));
    s
}

/// `s` without its leading whitespace.
pub open spec fn trim_start(s: Seq<char>) -> Seq<char>
    decreases s.len(),
{
    if s.len() > 0 && is_ws(s[0]) {
        trim_start(s.drop_first())
    } else {
        s
    }
}

/// `s` without its trailing whitespace.
pub open spec fn trim_end(s: Seq<char>) -> Seq<char>
    decreases s.len(),
{
    if s.len() > 0 && is_ws(s.last()) {
        trim_end(s.drop_last())
    } else {
        s
    }
}

/// `s` without leading and trailing whitespace (`str::trim`).
pub open spec fn trim(s: Seq<char>) -> Seq<char> {
    trim_end(trim_start(s))
}

/// The characters `s[from..to]`.
pub fn sub_chars(s: &[char], from: usize, to: usize) -> (r: Vec<char>)
    requires
        from <= to <= s@.len(),
    ensures
        r@ == s@.subrange(from as int, to as int),
{
    let mut r: Vec<char> = Vec::new();
    let mut i: usize = from;
    while i < to
        invariant
            from <= i <= to,
            to <= s@.len(),
            r@ == s@.subrange(from as int, i as int),
        decreases to - i,
    {
        r.push(s[i]);
        i += 1;
        assert(r@ =~= s@.subrange(from as int, i as int));
    }
    r
}

/// Trims whitespace from both ends.
pub fn trim_chars(s: &[char]) -> (r: Vec<char>)
    ensures
        r@ == trim(s@),
{
    let n = s.len();
    let mut i: usize = 0;
    assert(s@.skip(0) =~= s@);
    while i < n && is_whitespace(s[i])
        invariant
            i <= n,
            n == s@.len(),
            trim_start(s@) == trim_start(s@.skip(i as int)),
        decreases n - i,
    {
        assert(s@.skip(i as int).drop_first() =~= s@.skip(i + 1));
        i += 1;
    }
    let ghost ts = s@.skip(i as int);
    assert(trim_start(ts) == ts);
    let mut j: usize = n;
    assert(ts.take(ts.len() as int) =~= ts);
    while j > i && is_whitespace(s[j - 1])
        invariant
            i <= j <= n,
            n == s@.len(),
            ts == s@.skip(i as int),
            trim_end(ts) == trim_end(ts.take(j - i)),
        decreases j,
    {
        assert(ts.take(j - i).drop_last() =~= ts.take(j - 1 - i));
        assert(ts.take(j - i).last() == s@[j - 1]);
        j -= 1;
    }
    if j > i {
        assert(ts.take(j - i).last() == s@[j - 1]);
    }
    assert(trim_end(ts.take(j - i)) == ts.take(j - i));
    assert(ts.take(j - i) =~= s@.subrange(i as int, j as int));
    sub_chars(s, i, j)
}

/// Whether `pat` occurs in `s` starting at index `i`.
pub open spec fn occurs_at(s: Seq<char>, pat: Seq<char>, i: int) -> bool {
    0 <= i && i + pat.len() <= s.len() && s.subrange(i, i + pat.len()) == pat
}

/// Whether `pat` occurs anywhere in `s` (`str::contains`).
pub open spec fn contains_text(s: Seq<char>, pat: Seq<char>) -> bool {
    exists|i: int| occurs_at(s, pat, i)
}

/// Whether `pat` occurs in `s` at index `i`.
pub fn occurs_at_exec(s: &[char], pat: &[char], i: usize) -> (b: bool)
    ensures
        b == occurs_at(s@, pat@, i as int),
{
    if i > s.len() || pat.len() > s.len() - i {
        return false;
    }
    let n = s.len();
    let mut k: usize = 0;
    while k < pat.len()
        invariant
            n == s@.len(),
            i <= s@.len(),
            i + pat@.len() <= s@.len(),
            k <= pat@.len(),
            forall|m: int| 0 <= m < k ==> s@[i + m] == pat@[m],
        decreases pat@.len() - k,
    {
        if s[i + k] != pat[k] {
            assert(s@.subrange(i as int, i + pat@.len())[k as int] == s@[i + k]);
            return false;
        }
        k += 1;
    }
    assert(s@.subrange(i as int, i + pat@.len()) =~= pat@);
    true
}

/// Whether `pat` occurs in `s`.
pub fn contains_chars(s: &[char], pat: &[char]) -> (b: bool)
    ensures
        b == contains_text(s@, pat@),
{
    let mut i: usize = 0;
    while i < s.len()
        invariant
            i <= s@.len(),
            forall|m: int| 0 <= m < i ==> !occurs_at(s@, pat@, m),
        decreases s@.len() - i,
    {
        if occurs_at_exec(s, pat, i) {
            return true;
        }
        i += 1;
    }
    if occurs_at_exec(s, pat, i) {
        return true;
    }
    assert forall|m: int| !occurs_at(s@, pat@, m) by {
        if 0 <= m && m <= s@.len() {
            assert(m < i || m == i);
        }
    }
    false
}

/// The decimal digit for `d < 10`.
pub open spec fn digit(d: nat) -> char {
    if d == 0 {
        '0'
    } else if d == 1 {
        '1'
    } else if d == 2 {
        '2'
    } else if d == 3 {
        '3'
    } else if d == 4 {
        '4'
    } else if d == 5 {
        '5'
    } else if d == 6 {
        '6'
    } else if d == 7 {
        '7'
    } else if d == 8 {
        '8'
    } else {
        '9'
    }
}

/// The decimal notation of `n`, without leading zeros.
pub open spec fn decimal(n: nat) -> Seq<char>
    decreases n,
{
    if n < 10 {
        seq![digit(n)]
    } else {
        decimal(n / 10).push(digit(n % 10))
    }
}

fn digit_char(d: u64) -> (c: char)
    requires
        d < 10,
    ensures
        c == digit(d as nat),
{
    if d == 0 {
        '0'
    } else if d == 1 {
        '1'
    } else if d == 2 {
        '2'
    } else if d == 3 {
        '3'
    } else if d == 4 {
        '4'
    } else if d == 5 {
        '5'
    } else if d == 6 {
        '6'
    } else if d == 7 {
        '7'
    } else if d == 8 {
        '8'
    } else {
        '9'
    }
}

/// The decimal notation of `n`.
pub fn decimal_chars(n: u64) -> (r: Vec<char>)
    ensures
        r@ == decimal(n as nat),
    decreases n,
{
    if n < 10 {
        let mut r: Vec<char> = Vec::new();
        r.push(digit_char(n));
        r
    } else {
        let mut r = decimal_chars(n / 10);
        r.push(digit_char(n % 10));
        r
    }
}

/// The decimal notation of a signed number, `-` first when negative.
pub open spec fn signed_decimal(n: int) -> Seq<char> {
    if n < 0 {
        seq!['-'] + decimal((-n) as nat)
    } else {
        decimal(n as nat)
    }
}

/// The decimal notation of `n`.
pub fn signed_decimal_chars(n: i32) -> (r: Vec<char>)
    ensures
        r@ == signed_decimal(n as int),
{
    if n < 0 {
        let m: u64 = if n == i32::MIN {
            2147483648u64
        } else {
            (-n) as u64
        };
        let digits = decimal_chars(m);
        let mut r: Vec<char> = Vec::new();
        r.push('-');
        let mut i: usize = 0;
        while i < digits.len()
            invariant
                i <= digits@.len(),
                r@ == seq!['-'] + digits@.take(i as int),
            decreases digits@.len() - i,
        {
            r.push(digits[i]);
            i += 1;
            assert(r@ =~= seq!['-'] + digits@.take(i as int));
        }
        assert(digits@.take(digits@.len() as int) =~= digits@);
        r
    } else {
        decimal_chars(n as u64)
    }
}

/// The character views of a sequence of strings.
pub open spec fn string_views(v: Seq<String>) -> Seq<Seq<char>> {
    v.map_values(|s: String| s@)
}

/// The characters of each string.
pub fn chars_of_all(v: &[String]) -> (r: Vec<Vec<char>>)
    ensures
        views(r@) == string_views(v@),
{
    let mut r: Vec<Vec<char>> = Vec::new();
    let mut i: usize = 0;
    while i < v.len()
        invariant
            i <= v@.len(),
            views(r@) == string_views(v@).take(i as int),
        decreases v@.len() - i,
    {
        let ghost before = views(r@);
        r.push(chars_of(v[i].as_str()));
        assert(views(r@) =~= before.push(v@[i as int]@));
        assert(string_views(v@).take(i + 1) =~= string_views(v@).take(i as int).push(v@[i as int]@));
        i += 1;
    }
    assert(string_views(v@).take(v@.len() as int) =~= string_views(v@));
    r
}

/// A string for each character vector.
pub fn strings_of_all(v: &Vec<Vec<char>>) -> (r: Vec<String>)
    ensures
        string_views(r@) == views(v@),
{
    let mut r: Vec<String> = Vec::new();
    let mut i: usize = 0;
    while i < v.len()
        invariant
            i <= v@.len(),
            string_views(r@) == views(v@).take(i as int),
        decreases v@.len() - i,
    {
        let ghost before = string_views(r@);
        r.push(string_of(v[i].as_slice()));
        assert(string_views(r@) =~= before.push(v@[i as int]@));
        assert(views(v@).take(i + 1) =~= views(v@).take(i as int).push(v@[i as int]@));
        i += 1;
    }
    assert(views(v@).take(v@.len() as int) =~= views(v@));
    r
}

/// Code-point order on text, as `String` compares (UTF-8 byte order
/// agrees with code-point order).
pub open spec fn text_le(a: Seq<char>, b: Seq<char>) -> bool
    decreases a.len(),
{
    if a.len() == 0 {
        true
    } else if b.len() == 0 {
        false
    } else if a[0] != b[0] {
        a[0] < b[0]
    } else {
        text_le(a.drop_first(), b.drop_first())
    }
}

pub proof fn lemma_text_le_total(a: Seq<char>, b: Seq<char>)
    ensures
        text_le(a, b) || text_le(b, a),
    decreases a.len(),
{
    if a.len() > 0 && b.len() > 0 && a[0] == b[0] {
        lemma_text_le_total(a.drop_first(), b.drop_first());
    }
}

pub proof fn lemma_text_le_transitive(a: Seq<char>, b: Seq<char>, c: Seq<char>)
    requires
        text_le(a, b),
        text_le(b, c),
    ensures
        text_le(a, c),
    decreases a.len(),
{
    if a.len() > 0 && b.len() > 0 && c.len() > 0 && a[0] == b[0] && b[0] == c[0] {
        lemma_text_le_transitive(a.drop_first(), b.drop_first(), c.drop_first());
    }
}

pub fn text_le_exec(a: &[char], b: &[char]) -> (r: bool)
    ensures
        r == text_le(a@, b@),
{
    let mut i: usize = 0;
    assert(a@.skip(0) =~= a@);
    assert(b@.skip(0) =~= b@);
    while i < a.len() && i < b.len() && a[i] == b[i]
        invariant
            i <= a@.len(),
            i <= b@.len(),
            text_le(a@, b@) == text_le(a@.skip(i as int), b@.skip(i as int)),
        decreases a@.len() - i,
    {
        assert(a@.skip(i as int).drop_first() =~= a@.skip(i + 1));
        assert(b@.skip(i as int).drop_first() =~= b@.skip(i + 1));
        i += 1;
    }
    if i == a.len() {
        true
    } else if i == b.len() {
        false
    } else {
        assert(a@.skip(i as int)[0] == a@[i as int]);
        assert(b@.skip(i as int)[0] == b@[i as int]);
        a[i] < b[i]
    }
}

pub proof fn lemma_text_le_reflexive(a: Seq<char>)
    ensures
        text_le(a, a),
    decreases a.len(),
{
    if a.len() > 0 {
        lemma_text_le_reflexive(a.drop_first());
    }
}

pub proof fn lemma_text_le_antisymmetric(a: Seq<char>, b: Seq<char>)
    requires
        text_le(a, b),
        text_le(b, a),
    ensures
        a == b,
    decreases a.len(),
{
    if a.len() > 0 && b.len() > 0 {
        lemma_text_le_antisymmetric(a.drop_first(), b.drop_first());
        assert(a =~= seq![a[0]] + a.drop_first());
        assert(b =~= seq![b[0]] + b.drop_first());
    }
}

/// Order on paths given by their parts: part by part in text order, and a
/// path before every longer path that begins with its parts.
pub open spec fn parts_le(a: Seq<Seq<char>>, b: Seq<Seq<char>>) -> bool
    decreases a.len(),
{
    if a.len() == 0 {
        true
    } else if b.len() == 0 {
        false
    } else if a[0] != b[0] {
        text_le(a[0], b[0])
    } else {
        parts_le(a.drop_first(), b.drop_first())
    }
}

pub proof fn lemma_parts_le_reflexive(a: Seq<Seq<char>>)
    ensures
        parts_le(a, a),
    decreases a.len(),
{
    if a.len() > 0 {
        lemma_parts_le_reflexive(a.drop_first());
    }
}

pub proof fn lemma_parts_le_total(a: Seq<Seq<char>>, b: Seq<Seq<char>>)
    ensures
        parts_le(a, b) || parts_le(b, a),
    decreases a.len(),
{
    if a.len() > 0 && b.len() > 0 {
        if a[0] != b[0] {
            lemma_text_le_total(a[0], b[0]);
        } else {
            lemma_parts_le_total(a.drop_first(), b.drop_first());
        }
    }
}

pub proof fn lemma_parts_le_transitive(a: Seq<Seq<char>>, b: Seq<Seq<char>>, c: Seq<Seq<char>>)
    requires
        parts_le(a, b),
        parts_le(b, c),
    ensures
        parts_le(a, c),
    decreases a.len(),
{
    if a.len() > 0 && b.len() > 0 && c.len() > 0 {
        if a[0] == b[0] && b[0] == c[0] {
            lemma_parts_le_transitive(a.drop_first(), b.drop_first(), c.drop_first());
        } else if a[0] != b[0] && b[0] != c[0] {
            lemma_text_le_transitive(a[0], b[0], c[0]);
            if a[0] == c[0] {
                lemma_text_le_antisymmetric(a[0], b[0]);
            }
        }
    }
}

/// A one-part key orders as its text.
pub proof fn lemma_parts_le_single(a: Seq<char>, b: Seq<char>)
    ensures
        parts_le(seq![a], seq![b]) == text_le(a, b),
{
    if a == b {
        lemma_text_le_reflexive(a);
        lemma_parts_le_reflexive(seq![a]);
    }
}

pub proof fn lemma_parts_le_antisymmetric(a: Seq<Seq<char>>, b: Seq<Seq<char>>)
    requires
        parts_le(a, b),
        parts_le(b, a),
    ensures
        a == b,
    decreases a.len(),
{
    if a.len() > 0 && b.len() > 0 {
        if a[0] != b[0] {
            lemma_text_le_antisymmetric(a[0], b[0]);
        } else {
            lemma_parts_le_antisymmetric(a.drop_first(), b.drop_first());
            assert(a =~= seq![a[0]] + a.drop_first());
            assert(b =~= seq![b[0]] + b.drop_first());
        }
    }
}

/// Compares two keys made of parts (see [`parts_le`]).
pub fn parts_le_exec(a: &Vec<Vec<char>>, b: &Vec<Vec<char>>) -> (r: bool)
    ensures
        r == parts_le(views(a@), views(b@)),
{
    let ghost va = views(a@);
    let ghost vb = views(b@);
    let mut i: usize = 0;
    assert(va.skip(0) =~= va);
    assert(vb.skip(0) =~= vb);
    loop
        invariant
            i <= a@.len(),
            i <= b@.len(),
            va == views(a@),
            vb == views(b@),
            parts_le(va, vb) == parts_le(va.skip(i as int), vb.skip(i as int)),
        decreases a@.len() - i,
    {
        if i == a.len() {
            return true;
        }
        if i == b.len() {
            return false;
        }
        let le = text_le_exec(a[i].as_slice(), b[i].as_slice());
        let ge = text_le_exec(b[i].as_slice(), a[i].as_slice());
        assert(va.skip(i as int)[0] == a@[i as int]@);
        assert(vb.skip(i as int)[0] == b@[i as int]@);
        if !(le && ge) {
            proof {
                if a@[i as int]@ == b@[i as int]@ {
                    lemma_text_le_reflexive(a@[i as int]@);
                }
            }
            return le;
        }
        proof {
            lemma_text_le_antisymmetric(a@[i as int]@, b@[i as int]@);
        }
        assert(va.skip(i as int).drop_first() =~= va.skip(i + 1));
        assert(vb.skip(i as int).drop_first() =~= vb.skip(i + 1));
        i += 1;
    }
}

/// The items whose key is `k`.
pub open spec fn key_is<T>(key: spec_fn(T) -> Seq<Seq<char>>, k: Seq<Seq<char>>) -> spec_fn(
    T,
) -> bool {
    |x: T| key(x) == k
}

/// Filtering after a push: the item is kept when it passes.
pub proof fn lemma_filter_push<T>(s: Seq<T>, x: T, f: spec_fn(T) -> bool)
    ensures
        s.push(x).filter(f) == if f(x) {
            s.filter(f).push(x)
        } else {
            s.filter(f)
        },
{
    reveal(Seq::filter);
    assert(s.push(x).drop_last() =~= s);
}

/// Inserting at `p` an item that passes, when nothing from `p` on passes,
/// adds it at the end of what passes; an item that fails adds nothing.
proof fn lemma_filter_insert<T>(s: Seq<T>, p: int, x: T, f: spec_fn(T) -> bool)
    requires
        0 <= p <= s.len(),
        f(x) ==> forall|k: int| p <= k < s.len() ==> !f(#[trigger] s[k]),
    ensures
        s.insert(p, x).filter(f) == if f(x) {
            s.filter(f).push(x)
        } else {
            s.filter(f)
        },
{
    broadcast use Seq::filter_distributes_over_add, Seq::lemma_filter_prepend;

    let head = s.take(p);
    let rest = s.skip(p);
    assert(s.insert(p, x) =~= head + (seq![x] + rest));
    assert(s =~= head + rest);
    if f(x) {
        assert forall|k: int| 0 <= k < rest.len() implies !f(#[trigger] rest[k]) by {
            assert(rest[k] == s[p + k]);
        }
        rest.lemma_all_neg_filter_empty(f);
        assert(rest.filter(f) =~= Seq::<T>::empty());
        assert(head.filter(f) + (seq![x] + rest.filter(f)) =~= (head.filter(f) + rest.filter(
            f,
        )).push(x));
    } else {
        rest.lemma_filter_prepend(x, f);
        assert(Seq::<T>::empty() + rest.filter(f) =~= rest.filter(f));
    }
}

/// Items in the order of their keys (see [`parts_le`]).
pub open spec fn keys_in_order<T>(s: Seq<T>, key: spec_fn(T) -> Seq<Seq<char>>) -> bool {
    forall|i: int, j: int| 0 <= i < j < s.len() ==> parts_le(key(#[trigger] s[i]), key(#[trigger] s[j]))
}

/// The last item with key `k`, when the last item of `s` has that key.
proof fn lemma_filter_last<T>(s: Seq<T>, f: spec_fn(T) -> bool)
    requires
        s.len() > 0,
    ensures
        s.filter(f) == if f(s.last()) {
            s.drop_last().filter(f).push(s.last())
        } else {
            s.drop_last().filter(f)
        },
{
    reveal(Seq::filter);
}

/// An item with key `k` is in `s` when some item of `s` passes `key_is`.
proof fn lemma_filter_nonempty<T>(s: Seq<T>, key: spec_fn(T) -> Seq<Seq<char>>, k: Seq<Seq<char>>)
    requires
        s.filter(key_is(key, k)).len() > 0,
    ensures
        exists|i: int| 0 <= i < s.len() && key(#[trigger] s[i]) == k,
    decreases s.len(),
{
    reveal(Seq::filter);
    if s.len() == 0 {
        assert(s.filter(key_is(key, k)) =~= Seq::<T>::empty());
    } else if key(s.last()) == k {
        assert(key(s[s.len() - 1]) == k);
    } else {
        lemma_filter_last(s, key_is(key, k));
        lemma_filter_nonempty(s.drop_last(), key, k);
        let i = choose|i: int| 0 <= i < s.drop_last().len() && key(#[trigger] s.drop_last()[i]) == k;
        assert(s.drop_last()[i] == s[i]);
    }
}

/// Two arrangements in key order that agree on the order of the items of
/// each key are the same.
pub proof fn law_stable_order_unique<T>(a: Seq<T>, b: Seq<T>, key: spec_fn(T) -> Seq<Seq<char>>)
    requires
        keys_in_order(a, key),
        keys_in_order(b, key),
        forall|k: Seq<Seq<char>>| #[trigger] a.filter(key_is(key, k)) == b.filter(key_is(key, k)),
    ensures
        a == b,
    decreases a.len() + b.len(),
{
    reveal(Seq::filter);
    if a.len() == 0 && b.len() == 0 {
        assert(a =~= b);
    } else if a.len() == 0 {
        let y = b.last();
        lemma_filter_last(b, key_is(key, key(y)));
        assert(a.filter(key_is(key, key(y))) =~= Seq::<T>::empty());
        assert(b.filter(key_is(key, key(y))).len() > 0);
    } else if b.len() == 0 {
        let x = a.last();
        lemma_filter_last(a, key_is(key, key(x)));
        assert(b.filter(key_is(key, key(x))) =~= Seq::<T>::empty());
        assert(a.filter(key_is(key, key(x))).len() > 0);
    } else {
        let x = a.last();
        let y = b.last();
        let kx = key(x);
        let ky = key(y);
        lemma_filter_last(a, key_is(key, kx));
        lemma_filter_last(b, key_is(key, ky));
        assert(a.filter(key_is(key, kx)) == b.filter(key_is(key, kx)));
        assert(a.filter(key_is(key, ky)) == b.filter(key_is(key, ky)));
        lemma_filter_nonempty(b, key, kx);
        lemma_filter_nonempty(a, key, ky);
        let i = choose|i: int| 0 <= i < b.len() && key(#[trigger] b[i]) == kx;
        let j = choose|j: int| 0 <= j < a.len() && key(#[trigger] a[j]) == ky;
        if i < b.len() - 1 {
            assert(parts_le(key(b[i]), key(b[b.len() - 1])));
        } else {
            lemma_parts_le_reflexive(kx);
        }
        if j < a.len() - 1 {
            assert(parts_le(key(a[j]), key(a[a.len() - 1])));
        } else {
            lemma_parts_le_reflexive(ky);
        }
        lemma_parts_le_antisymmetric(kx, ky);
        lemma_filter_last(a, key_is(key, kx));
        lemma_filter_last(b, key_is(key, kx));
        assert(x == a.filter(key_is(key, kx)).last());
        assert(y == b.filter(key_is(key, kx)).last());
        let a2 = a.drop_last();
        let b2 = b.drop_last();
        assert forall|k: Seq<Seq<char>>| #[trigger] a2.filter(key_is(key, k)) == b2.filter(
            key_is(key, k),
        ) by {
            lemma_filter_last(a, key_is(key, k));
            lemma_filter_last(b, key_is(key, k));
            assert(a.filter(key_is(key, k)) == b.filter(key_is(key, k)));
            if k == kx {
                assert(a2.filter(key_is(key, k)) =~= a.filter(key_is(key, k)).drop_last());
                assert(b2.filter(key_is(key, k)) =~= b.filter(key_is(key, k)).drop_last());
            }
        }
        assert forall|p: int, q: int| 0 <= p < q < a2.len() implies parts_le(
            key(#[trigger] a2[p]),
            key(#[trigger] a2[q]),
        ) by {
            assert(a2[p] == a[p] && a2[q] == a[q]);
        }
        assert forall|p: int, q: int| 0 <= p < q < b2.len() implies parts_le(
            key(#[trigger] b2[p]),
            key(#[trigger] b2[q]),
        ) by {
            assert(b2[p] == b[p] && b2[q] == b[q]);
        }
        law_stable_order_unique(a2, b2, key);
        assert(a =~= a2.push(x));
        assert(b =~= b2.push(y));
    }
}

/// Sorts `v` by keys made of parts (see [`parts_le`]), `keys[k]` being the
/// key of `v[k]`, keeping items with equal keys in their order.
pub(crate) fn sort_by_parts_key<T>(
    v: Vec<T>,
    keys: Vec<Vec<Vec<char>>>,
    Ghost(key): Ghost<spec_fn(T) -> Seq<Seq<char>>>,
) -> (r: Vec<T>)
    requires
        keys@.len() == v@.len(),
        forall|k: int| 0 <= k < v@.len() ==> #[trigger] views(keys@[k]@) == key(v@[k]),
    ensures
        forall|i: int, j: int|
            0 <= i < j < r@.len() ==> parts_le(key(#[trigger] r@[i]), key(#[trigger] r@[j])),
        r@.to_multiset() == v@.to_multiset(),
        forall|k: Seq<Seq<char>>| #[trigger] r@.filter(key_is(key, k)) == v@.filter(key_is(key, k)),
{
    broadcast use vstd::seq_lib::to_multiset_insert, vstd::seq_lib::group_to_multiset_ensures;
    let ghost input = v@;
    let mut out: Vec<T> = Vec::new();
    let mut out_keys: Vec<Vec<Vec<char>>> = Vec::new();
    let mut src = v;
    let mut src_keys = keys;
    assert(input.take(0) =~= Seq::<T>::empty());
    assert(out@ =~= Seq::<T>::empty());
    assert(input.skip(0) =~= input);
    assert forall|k: Seq<Seq<char>>| #[trigger] out@.filter(key_is(key, k)) == input.take(0).filter(
        key_is(key, k),
    ) by {
        reveal(Seq::filter);
    }
    while src.len() > 0
        invariant
            src@.len() + out@.len() == input.len(),
            src@ == input.skip(out@.len() as int),
            src_keys@.len() == src@.len(),
            forall|k: int| 0 <= k < src@.len() ==> #[trigger] views(src_keys@[k]@) == key(src@[k]),
            forall|i: int, j: int|
                0 <= i < j < out@.len() ==> parts_le(key(#[trigger] out@[i]), key(#[trigger] out@[j])),
            out_keys@.len() == out@.len(),
            forall|k: int| 0 <= k < out_keys@.len() ==> #[trigger] views(out_keys@[k]@) == key(out@[k]),
            out@.to_multiset() == input.take(out@.len() as int).to_multiset(),
            forall|k: Seq<Seq<char>>| #[trigger] out@.filter(key_is(key, k)) == input.take(
                out@.len() as int,
            ).filter(key_is(key, k)),
        decreases src@.len(),
    {
        let ghost n: int = out@.len() as int;
        let ghost src_before = src@;
        let ghost keys_before = src_keys@;
        assert(views(keys_before[0]@) == key(src_before[0]));
        let x = src.remove(0);
        let xk = src_keys.remove(0);
        assert(x == input[n]);
        assert(src@ =~= input.skip(n + 1));
        assert forall|k: int| 0 <= k < src@.len() implies #[trigger] views(src_keys@[k]@) == key(
            src@[k],
        ) by {
            assert(src_keys@[k] == keys_before[k + 1]);
            assert(src@[k] == src_before[k + 1]);
        }
        let mut p: usize = 0;
        while p < out.len() && parts_le_exec(&out_keys[p], &xk)
            invariant
                p <= out@.len(),
                out_keys@.len() == out@.len(),
                forall|k: int| 0 <= k < out_keys@.len() ==> #[trigger] views(out_keys@[k]@) == key(out@[k]),
                forall|k: int| 0 <= k < p ==> parts_le(key(#[trigger] out@[k]), key(x)),
                views(xk@) == key(x),
            decreases out@.len() - p,
        {
            p += 1;
        }
        let ghost before = out@;
        proof {
            if p < out@.len() {
                assert(!parts_le(key(out@[p as int]), key(x)));
                lemma_parts_le_total(key(x), key(out@[p as int]));
                assert forall|k: int| p <= k < out@.len() implies parts_le(key(x), key(#[trigger] out@[k]))
                    && key(out@[k]) != key(x) by {
                    if k > p {
                        lemma_parts_le_transitive(key(x), key(out@[p as int]), key(out@[k]));
                        assert(parts_le(key(out@[p as int]), key(out@[k])));
                    } else {
                        lemma_parts_le_reflexive(key(x));
                    }
                }
            }
        }
        out.insert(p, x);
        out_keys.insert(p, xk);
        assert(out@ == before.insert(p as int, x));
        assert forall|k: int| 0 <= k < out_keys@.len() implies #[trigger] views(out_keys@[k]@) == key(
            out@[k],
        ) by {
            if k > p {
                assert(out@[k] == before[k - 1]);
            } else if k < p {
                assert(out@[k] == before[k]);
            }
        }
        assert forall|a: int, b: int| 0 <= a < b < out@.len() implies parts_le(
            key(#[trigger] out@[a]),
            key(#[trigger] out@[b]),
        ) by {
            if b < p {
                assert(out@[a] == before[a] && out@[b] == before[b]);
            } else if b == p {
                assert(out@[a] == before[a]);
            } else if a == p {
                assert(out@[b] == before[b - 1]);
            } else if a < p {
                assert(out@[a] == before[a] && out@[b] == before[b - 1]);
                lemma_parts_le_transitive(key(before[a]), key(x), key(before[b - 1]));
            } else {
                assert(out@[a] == before[a - 1] && out@[b] == before[b - 1]);
            }
        }
        assert(input.take(n + 1) =~= input.take(n).push(x));
        assert(input.take(n).push(x) =~= input.take(n).insert(n, x));
        proof {
            vstd::seq_lib::to_multiset_insert(before, p as int, x);
            vstd::seq_lib::to_multiset_insert(input.take(n), n, x);
        }
        assert(out@.to_multiset() == input.take(n + 1).to_multiset());
        assert forall|k: Seq<Seq<char>>| #[trigger] out@.filter(key_is(key, k)) == input.take(
            n + 1,
        ).filter(key_is(key, k)) by {
            let f = key_is(key, k);
            lemma_filter_insert(before, p as int, x, f);
            lemma_filter_push(input.take(n), x, f);
        }
    }
    assert(input.take(input.len() as int) =~= input);
    out
}

} // verus!


