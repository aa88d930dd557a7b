//! Wildcard patterns of the `glob` tool: `*` matches any run of characters
//! within one path segment, `**` any run across segments, `?` one character
//! other than `/`, every other character itself.

use vstd::prelude::*;
use crate::text::chars_of;

verus! {

/// One element of a wildcard pattern.
#[derive(Debug, Clone, Copy, PartialEq, Eq, Structural)]
pub enum PatternToken {
    Literal(char),
    Star,
    DoubleStar,
    Question,
}

/// The token that a non-empty pattern starts with: `**` is one double
/// star, a lone `*` a star, `?` a question mark, anything else a literal.
pub open spec fn first_token(p: Seq<char>) -> PatternToken {
    if p[0] == '*' {
        if p.len() > 1 && p[1] == '*' {
            PatternToken::DoubleStar
        } else {
            PatternToken::Star
        }
    } else if p[0] == '?' {
        PatternToken::Question
    } else {
        PatternToken::Literal(p[0])
    }
}

/// How many pattern characters the first token takes.
pub open spec fn first_token_len(p: Seq<char>) -> int {
    if p[0] == '*' && p.len() > 1 && p[1] == '*' {
        2
    } else {
        1
    }
}

/// The tokens of a pattern, read from the left.
pub open spec fn tokenize(p: Seq<char>) -> Seq<PatternToken>
    decreases p.len(),
{
    if p.len() == 0 {
        seq![]
    } else {
        seq![first_token(p)] + tokenize(p.skip(first_token_len(p)))
    }
}

/// Whether the text `t` matches the token sequence `p`, read from the end:
/// a star absorbs a last character other than `/`, a double star any last
/// character, `?` one character other than `/`, a literal that character.
pub open spec fn glob_matches(p: Seq<PatternToken>, t: Seq<char>) -> bool
    decreases p.len(), t.len(),
{
    if p.len() == 0 {
        t.len() == 0
    } else {
        match p.last() {
            PatternToken::Star => glob_matches(p.drop_last(), t) || (t.len() > 0 && t.last()
                != '/' && glob_matches(p, t.drop_last())),
            PatternToken::DoubleStar => glob_matches(p.drop_last(), t) || (t.len() > 0
                && glob_matches(p, t.drop_last())),
            PatternToken::Question => t.len() > 0 && t.last() != '/' && glob_matches(
                p.drop_last(),
                t.drop_last(),
            ),
            PatternToken::Literal(c) => t.len() > 0 && t.last() == c && glob_matches(
                p.drop_last(),
                t.drop_last(),
            ),
        }
    }
}

/// A lone `*` matches exactly the texts without `/`; a lone `**` matches
/// every text.
pub proof fn law_star_patterns(t: Seq<char>)
    ensures
        glob_matches(seq![PatternToken::Star], t) == !t.contains('/'),
        glob_matches(seq![PatternToken::DoubleStar], t),
    decreases t.len(),
{
    let star = seq![PatternToken::Star];
    let dstar = seq![PatternToken::DoubleStar];
    assert(star.drop_last() =~= Seq::<PatternToken>::empty());
    assert(dstar.drop_last() =~= Seq::<PatternToken>::empty());
    assert(star.last() == PatternToken::Star);
    assert(dstar.last() == PatternToken::DoubleStar);
    assert(glob_matches(Seq::<PatternToken>::empty(), t) == (t.len() == 0));
    assert(glob_matches(star, t) == (glob_matches(star.drop_last(), t) || (t.len() > 0 && t.last()
        != '/' && glob_matches(star, t.drop_last()))));
    assert(glob_matches(dstar, t) == (glob_matches(dstar.drop_last(), t) || (t.len() > 0
        && glob_matches(dstar, t.drop_last()))));
    if t.len() > 0 {
        law_star_patterns(t.drop_last());
        let p = t.drop_last();
        assert(t =~= p.push(t.last()));
        if t.last() == '/' {
            assert(t[t.len() - 1] == '/');
            assert(t.contains('/'));
        } else {
            assert(t.contains('/') == p.contains('/')) by {
                if t.contains('/') {
                    let i = choose|i: int| 0 <= i < t.len() && t[i] == '/';
                    assert(i < t.len() - 1);
                    assert(p[i] == '/');
                }
                if p.contains('/') {
                    let i = choose|i: int| 0 <= i < p.len() && p[i] == '/';
                    assert(t[i] == '/');
                }
            }
        }
    } else {
        assert(!t.contains('/'));
    }
}

/// Splits a pattern into tokens.
pub fn tokenize_pattern(pattern: &str) -> (tokens: Vec<PatternToken>)
    ensures
        tokens@ == tokenize(pattern@),
{
    let chars = chars_of(pattern);
    let n = chars.len();
    let mut tokens: Vec<PatternToken> = Vec::new();
    let mut i: usize = 0;
    assert(chars@.skip(0) =~= chars@);
    while i < n
        invariant
            n == chars@.len(),
            chars@ == pattern@,
            i <= n,
            tokenize(chars@) == tokens@ + tokenize(chars@.skip(i as int)),
        decreases n - i,
    {
        let ghost rest = chars@.skip(i as int);
        let ghost before = tokens@;
        assert(rest.len() == n - i);
        assert(rest[0] == chars@[i as int]);
        if i + 1 < n {
            assert(rest[1] == chars@[i + 1]);
        }
        let tok = if chars[i] == '*' {
            if i + 1 < n && chars[i + 1] == '*' {
                PatternToken::DoubleStar
            } else {
                PatternToken::Star
            }
        } else if chars[i] == '?' {
            PatternToken::Question
        } else {
            PatternToken::Literal(chars[i])
        };
        let step: usize = if chars[i] == '*' && i + 1 < n && chars[i + 1] == '*' {
            2
        } else {
            1
        };
        assert(tok == first_token(rest));
        assert(step == first_token_len(rest));
        assert(rest.skip(step as int) =~= chars@.skip(i + step));
        tokens.push(tok);
        i += step;
        assert(tokens@ + tokenize(chars@.skip(i as int)) =~= before + tokenize(rest));
    }
    assert(chars@.skip(n as int) =~= Seq::<char>::empty());
    assert(tokens@ + Seq::<PatternToken>::empty() =~= tokens@);
    tokens
}

/// The texts one token stands for: `**` any text, `*` any text without
/// `/`, `?` one character other than `/`, a literal exactly itself.
pub open spec fn piece_matches(tok: PatternToken, piece: Seq<char>) -> bool {
    match tok {
        PatternToken::DoubleStar => true,
        PatternToken::Star => !piece.contains('/'),
        PatternToken::Question => piece.len() == 1 && piece[0] != '/',
        PatternToken::Literal(c) => piece == seq![c],
    }
}

/// Whether `t` is in the language of the tokens `p`: `t` splits into
/// consecutive pieces, one per token, each standing for its token.
pub open spec fn in_language(p: Seq<PatternToken>, t: Seq<char>) -> bool
    decreases p.len(),
{
    if p.len() == 0 {
        t.len() == 0
    } else {
        exists|k: int|
            0 <= k <= t.len() && piece_matches(p.last(), #[trigger] t.skip(k)) && in_language(
                p.drop_last(),
                t.take(k),
            )
    }
}

/// The recursive matcher decides exactly the language of the pattern.
pub proof fn law_wildcard_language(p: Seq<PatternToken>, t: Seq<char>)
    ensures
        glob_matches(p, t) == in_language(p, t),
    decreases p.len(), t.len(),
{
    if p.len() == 0 {
        return;
    }
    let q = p.drop_last();
    let tok = p.last();
    let n = t.len() as int;
    assert(t.take(n) =~= t);
    assert(t.skip(n) =~= Seq::<char>::empty());
    assert(!Seq::<char>::empty().contains('/'));
    if n > 0 {
        assert(t.skip(n - 1) =~= seq![t.last()]);
        assert(t.take(n - 1) =~= t.drop_last());
    }
    match tok {
        PatternToken::Literal(c) => {
            if n > 0 {
                law_wildcard_language(q, t.drop_last());
            }
            if in_language(p, t) {
                let k = choose|k: int|
                    0 <= k <= t.len() && piece_matches(p.last(), #[trigger] t.skip(k)) && in_language(
                        q,
                        t.take(k),
                    );
                assert(t.skip(k).len() == 1);
                assert(k == n - 1);
                assert(t.skip(k)[0] == t.last());
            }
            if glob_matches(p, t) {
                assert(piece_matches(p.last(), t.skip(n - 1)));
            }
        },
        PatternToken::Question => {
            if n > 0 {
                law_wildcard_language(q, t.drop_last());
            }
            if in_language(p, t) {
                let k = choose|k: int|
                    0 <= k <= t.len() && piece_matches(p.last(), #[trigger] t.skip(k)) && in_language(
                        q,
                        t.take(k),
                    );
                assert(k == n - 1);
                assert(t.skip(k)[0] == t.last());
            }
            if glob_matches(p, t) {
                assert(piece_matches(p.last(), t.skip(n - 1)));
            }
        },
        _ => {
            let star = tok == PatternToken::Star;
            law_wildcard_language(q, t);
            if n > 0 {
                law_wildcard_language(p, t.drop_last());
            }
            if in_language(p, t) {
                let k = choose|k: int|
                    0 <= k <= t.len() && piece_matches(p.last(), #[trigger] t.skip(k)) && in_language(
                        q,
                        t.take(k),
                    );
                if k < n {
                    let u = t.drop_last();
                    assert(u.take(k) =~= t.take(k));
                    assert(t.skip(k) =~= u.skip(k).push(t.last()));
                    assert(t.skip(k)[t.skip(k).len() - 1] == t.last());
                    if star {
                        assert(t.last() != '/') by {
                            if t.last() == '/' {
                                assert(t.skip(k).contains('/'));
                            }
                        }
                        assert(!u.skip(k).contains('/')) by {
                            if u.skip(k).contains('/') {
                                let i = choose|i: int| 0 <= i < u.skip(k).len() && u.skip(k)[i] == '/';
                                assert(t.skip(k)[i] == '/');
                            }
                        }
                    }
                    assert(piece_matches(tok, u.skip(k)));
                    assert(in_language(p, u));
                }
            }
            if glob_matches(p, t) {
                if glob_matches(q, t) {
                    assert(piece_matches(tok, t.skip(n)));
                } else {
                    let u = t.drop_last();
                    assert(in_language(p, u));
                    let k = choose|k: int|
                        0 <= k <= u.len() && piece_matches(p.last(), #[trigger] u.skip(k)) && in_language(
                            q,
                            u.take(k),
                        );
                    assert(u.take(k) =~= t.take(k));
                    assert(t.skip(k) =~= u.skip(k).push(t.last()));
                    if star {
                        assert(!t.skip(k).contains('/')) by {
                            if t.skip(k).contains('/') {
                                let i = choose|i: int| 0 <= i < t.skip(k).len() && t.skip(k)[i] == '/';
                                if i < u.skip(k).len() {
                                    assert(u.skip(k)[i] == '/');
                                    assert(u.skip(k).contains('/'));
                                }
                            }
                        }
                    }
                    assert(piece_matches(tok, t.skip(k)));
                }
            }
        },
    }
}

/// Whether `text` matches `pattern`: read left to right into tokens, the
/// whole text must be in the pattern's language (see [`in_language`]);
/// [`glob_matches`] is the same decision read from the end.
pub fn wildcard_match(pattern: &str, text: &str) -> (b: bool)
    ensures
        b == glob_matches(tokenize(pattern@), text@),
        b == in_language(tokenize(pattern@), text@),
{
    let tokens = tokenize_pattern(pattern);
    let chars = chars_of(text);
    proof {
        law_wildcard_language(tokenize(pattern@), text@);
    }
    match_tokens(&tokens, &chars)
}

/// Whether `t` matches the tokens `p`, computed row by row over the
/// prefixes of `p` and `t`.
pub fn match_tokens(p: &Vec<PatternToken>, t: &Vec<char>) -> (b: bool)
    ensures
        b == glob_matches(p@, t@),
{
    let p_len = p.len();
    let t_len = t.len();
    let ghost ps = p@;
    let ghost ts = t@;
    let mut prev: Vec<bool> = Vec::new();
    prev.push(true);
    let mut j: usize = 0;
    while j < t_len
        invariant
            t_len == ts.len(),
            ps == p@,
            ts == t@,
            j <= t_len,
            prev@.len() == j + 1,
            forall|c: int| 0 <= c <= j ==> #[trigger] prev@[c] == glob_matches(ps.take(0), ts.take(c)),
        decreases t_len - j,
    {
        prev.push(false);
        j += 1;
        assert(ts.take(j as int).len() == j);
    }
    let mut i: usize = 0;
    while i < p_len
        invariant
            p_len == ps.len(),
            t_len == ts.len(),
            ps == p@,
            ts == t@,
            i <= p_len,
            prev@.len() == t_len + 1,
            forall|c: int|
                0 <= c <= t_len ==> #[trigger] prev@[c] == glob_matches(ps.take(i as int), ts.take(c)),
        decreases p_len - i,
    {
        let tok = p[i];
        let ghost pi = ps.take(i + 1);
        assert(pi.drop_last() =~= ps.take(i as int));
        assert(pi.last() == tok);
        let mut cur: Vec<bool> = Vec::new();
        let first = match tok {
            PatternToken::Star | PatternToken::DoubleStar => prev[0],
            _ => false,
        };
        assert(ts.take(0).len() == 0);
        cur.push(first);
        let mut j: usize = 0;
        while j < t_len
            invariant
                p_len == ps.len(),
                t_len == ts.len(),
                ps == p@,
                ts == t@,
                i < p_len,
                pi == ps.take(i + 1),
                pi.drop_last() == ps.take(i as int),
                pi.last() == tok,
                j <= t_len,
                prev@.len() == t_len + 1,
                cur@.len() == j + 1,
                forall|c: int|
                    0 <= c <= t_len ==> #[trigger] prev@[c] == glob_matches(ps.take(i as int), ts.take(c)),
                forall|c: int| 0 <= c <= j ==> #[trigger] cur@[c] == glob_matches(pi, ts.take(c)),
            decreases t_len - j,
        {
            let ghost tj = ts.take(j + 1);
            assert(tj.drop_last() =~= ts.take(j as int));
            assert(tj.last() == t@[j as int]);
            let ch = t[j];
            let v = match tok {
                PatternToken::Star => prev[j + 1] || (ch != '/' && cur[j]),
                PatternToken::DoubleStar => prev[j + 1] || cur[j],
                PatternToken::Question => ch != '/' && prev[j],
                PatternToken::Literal(c) => c == ch && prev[j],
            };
            assert(v == glob_matches(pi, tj));
            cur.push(v);
            j += 1;
        }
        prev = cur;
        i += 1;
    }
    assert(ps.take(p_len as int) =~= ps);
    assert(ts.take(t_len as int) =~= ts);
    prev[t_len]
}

/// `s` with every backslash turned into a forward slash.
pub open spec fn forward_slashes(s: Seq<char>) -> Seq<char> {
    s.map_values(|c: char| if c == '\\' { '/' } else { c })
}

/// Whether a file, given by its path relative to the search root, is
/// selected by `pattern`; backslashes in the relative path count as `/`.
pub fn glob_selects(pattern: &str, relative: &str) -> (b: bool)
    ensures
        b == glob_matches(tokenize(pattern@), forward_slashes(relative@)),
        b == in_language(tokenize(pattern@), forward_slashes(relative@)),
{
    proof {
        law_wildcard_language(tokenize(pattern@), forward_slashes(relative@));
    }
    let tokens = tokenize_pattern(pattern);
    let chars = chars_of(relative);
    let mut norm: Vec<char> = Vec::new();
    let mut i: usize = 0;
    while i < chars.len()
        invariant
            i <= chars@.len(),
            chars@ == relative@,
            norm@ == forward_slashes(chars@.take(i as int)),
        decreases chars@.len() - i,
    {
        let c = chars[i];
        norm.push(if c == '\\' { '/' } else { c });
        i += 1;
        assert(norm@ =~= forward_slashes(chars@.take(i as int)));
    }
    assert(chars@.take(chars@.len() as int) =~= chars@);
    match_tokens(&tokens, &norm)
}

} // verus!
