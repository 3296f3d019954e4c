//! Line tokenizer for the configuration grammar.
//!
//! A line is cut into tokens: braces, barewords (flags), quoted strings and
//! `key=value` pairs.  Barewords end at whitespace, braces, quotes or `=`;
//! a quoted string runs to the next quote, verbatim.  `spec_tokenize` is the
//! exact specification of what the executable tokenizer produces.

use vstd::prelude::*;
use crate::strutil::is_space;

verus! {

/// An executable token of one configuration line.
pub enum Token {
    OpenBrace,
    CloseBrace,
    /// A bareword argument or node name.
    Flag(String),
    /// A quoted string argument.
    Quoted(String),
    /// `key=value`; `raw` is the exact text the pair was read from.
    KeyValue { key: String, value: String, raw: String },
}

/// The mathematical shape of a token.
pub enum TokenModel {
    OpenBrace,
    CloseBrace,
    Flag(Seq<char>),
    Quoted(Seq<char>),
    KeyValue { key: Seq<char>, value: Seq<char>, raw: Seq<char> },
}

impl View for Token {
    type V = TokenModel;

    open spec fn view(&self) -> TokenModel {
        match self {
            Token::OpenBrace => TokenModel::OpenBrace,
            Token::CloseBrace => TokenModel::CloseBrace,
            Token::Flag(s) => TokenModel::Flag(s@),
            Token::Quoted(s) => TokenModel::Quoted(s@),
            Token::KeyValue { key, value, raw } => TokenModel::KeyValue {
                key: key@,
                value: value@,
                raw: raw@,
            },
        }
    }
}

/// A character a bareword may hold.
pub open spec fn is_bare_char(c: char) -> bool {
    !is_space(c) && c != '{' && c != '}' && c != '"' && c != '='
}

/// Length of the maximal bareword prefix.
pub open spec fn bare_len(s: Seq<char>) -> int
    decreases s.len(),
{
    if s.len() == 0 || !is_bare_char(s[0]) {
        0
    } else {
        1 + bare_len(s.drop_first())
    }
}

/// Index of the first occurrence of `c`, if any.
pub open spec fn find_char(s: Seq<char>, c: char) -> Option<int>
    decreases s.len(),
{
    if s.len() == 0 {
        None
    } else if s[0] == c {
        Some(0)
    } else {
        match find_char(s.drop_first(), c) {
            None => None,
            Some(i) => Some(i + 1),
        }
    }
}

pub proof fn lemma_bare_len_bounds(s: Seq<char>)
    ensures
        0 <= bare_len(s) <= s.len(),
        forall|j: int| 0 <= j < bare_len(s) ==> is_bare_char(s[j]),
        bare_len(s) < s.len() ==> !is_bare_char(s[bare_len(s)]),
    decreases s.len(),
{
    if s.len() == 0 || !is_bare_char(s[0]) {
    } else {
        lemma_bare_len_bounds(s.drop_first());
        assert(forall|j: int| 1 <= j < s.len() ==> #[trigger] s[j] == s.drop_first()[j - 1]);
    }
}

pub proof fn lemma_find_char(s: Seq<char>, c: char)
    ensures
        match find_char(s, c) {
            Some(i) => 0 <= i < s.len() && s[i] == c && forall|j: int| 0 <= j < i ==> s[j] != c,
            None => forall|j: int| 0 <= j < s.len() ==> s[j] != c,
        },
    decreases s.len(),
{
    if s.len() == 0 {
    } else if s[0] == c {
    } else {
        lemma_find_char(s.drop_first(), c);
        assert(forall|j: int| 1 <= j < s.len() ==> #[trigger] s[j] == s.drop_first()[j - 1]);
    }
}

pub open spec fn clampi(x: int, lo: int, hi: int) -> int {
    if x < lo {
        lo
    } else if x > hi {
        hi
    } else {
        x
    }
}

pub open spec fn cons_tok(t: TokenModel, r: Option<Seq<TokenModel>>) -> Option<Seq<TokenModel>> {
    match r {
        None => None,
        Some(ts) => Some(seq![t] + ts),
    }
}

/// The tokens of one comment-free line, or `None` on malformed text
/// (an unterminated quote, or `=` without a value).
pub open spec fn spec_tokenize(s: Seq<char>) -> Option<Seq<TokenModel>>
    decreases s.len(),
{
    if s.len() == 0 {
        Some(Seq::empty())
    } else if is_space(s[0]) {
        spec_tokenize(s.drop_first())
    } else if s[0] == '{' {
        cons_tok(TokenModel::OpenBrace, spec_tokenize(s.drop_first()))
    } else if s[0] == '}' {
        cons_tok(TokenModel::CloseBrace, spec_tokenize(s.drop_first()))
    } else if s[0] == '"' {
        match find_char(s.drop_first(), '"') {
            None => None,
            Some(i) => {
                let q = s.drop_first().take(i);
                let rest = s.drop_first().skip(clampi(i + 1, 1, s.len() as int - 1));
                cons_tok(TokenModel::Quoted(q), spec_tokenize(rest))
            },
        }
    } else if s[0] == '=' {
        None
    } else {
        let n = clampi(bare_len(s), 1, s.len() as int);
        let word = s.take(n);
        let rest = s.skip(n);
        if rest.len() > 0 && rest[0] == '=' {
            let vrest = rest.drop_first();
            if vrest.len() > 0 && vrest[0] == '"' {
                match find_char(vrest.drop_first(), '"') {
                    None => None,
                    Some(i) => {
                        let value = vrest.drop_first().take(i);
                        let raw = s.take(n + 1 + 1 + i + 1);
                        let rest2 = vrest.drop_first().skip(
                            clampi(i + 1, 1, vrest.len() as int - 1),
                        );
                        cons_tok(
                            TokenModel::KeyValue { key: word, value, raw },
                            spec_tokenize(rest2),
                        )
                    },
                }
            } else {
                let m = bare_len(vrest);
                if m == 0 {
                    None
                } else {
                    let value = vrest.take(m);
                    let raw = s.take(n + 1 + m);
                    let rest2 = vrest.skip(clampi(m, 1, vrest.len() as int));
                    cons_tok(
                        TokenModel::KeyValue { key: word, value, raw },
                        spec_tokenize(rest2),
                    )
                }
            }
        } else {
            cons_tok(TokenModel::Flag(word), spec_tokenize(rest))
        }
    }
}

/// Copy of `v[a..b]` as a string.
pub(crate) fn substring_of(v: &Vec<char>, a: usize, b: usize) -> (r: String)
    requires
        a <= b <= v@.len(),
    ensures
        r@ == v@.subrange(a as int, b as int),
{
    let mut t: Vec<char> = Vec::new();
    let mut i: usize = a;
    while i < b
        invariant
            a <= i <= b <= v@.len(),
            t@ == v@.subrange(a as int, i as int),
        decreases b - i,
    {
        t.push(v[i]);
        proof {
            assert(t@ =~= v@.subrange(a as int, i + 1));
        }
        i += 1;
    }
    crate::strutil::string_from_chars(&t)
}

/// Scan for the maximal bareword starting at `pos`.
fn scan_bare(v: &Vec<char>, pos: usize) -> (r: usize)
    requires
        pos <= v@.len(),
    ensures
        pos <= r <= v@.len(),
        r - pos == bare_len(v@.skip(pos as int)),
{
    let n = v.len();
    let mut i = pos;
    while i < n && is_bare_c(v[i])
        invariant
            pos <= i <= n,
            n == v@.len(),
            forall|j: int| pos <= j < i ==> is_bare_char(v@[j]),
        decreases n - i,
    {
        i += 1;
    }
    proof {
        let s = v@.skip(pos as int);
        assert(forall|j: int| 0 <= j < i - pos ==> s[j] == v@[j + pos] && is_bare_char(s[j]));
        assert(i < n ==> s[i - pos] == v@[i as int]);
        lemma_bare_prefix(s, i - pos);
    }
    i
}

fn is_bare_c(c: char) -> (r: bool)
    ensures
        r == is_bare_char(c),
{
    !(c == ' ' || c == '\t' || c == '\r' || c == '\n' || c == '{' || c == '}' || c == '"'
        || c == '=')
}

proof fn lemma_bare_prefix(s: Seq<char>, k: int)
    requires
        0 <= k <= s.len(),
        forall|j: int| 0 <= j < k ==> is_bare_char(s[j]),
        k < s.len() ==> !is_bare_char(s[k]),
    ensures
        bare_len(s) == k,
    decreases k,
{
    if k == 0 {
    } else {
        assert(is_bare_char(s[0]));
        lemma_bare_prefix(s.drop_first(), k - 1);
    }
}

proof fn lemma_find_prefix(s: Seq<char>, c: char, k: int)
    requires
        0 <= k < s.len(),
        forall|j: int| 0 <= j < k ==> s[j] != c,
        s[k] == c,
    ensures
        find_char(s, c) == Some(k),
    decreases k,
{
    if k == 0 {
    } else {
        lemma_find_prefix(s.drop_first(), c, k - 1);
    }
}

proof fn lemma_find_none(s: Seq<char>, c: char)
    requires
        forall|j: int| 0 <= j < s.len() ==> s[j] != c,
    ensures
        find_char(s, c) is None,
    decreases s.len(),
{
    if s.len() > 0 {
        lemma_find_none(s.drop_first(), c);
    }
}

/// Scan for the next `c` at or after `pos`.
pub(crate) fn scan_for(v: &Vec<char>, pos: usize, c: char) -> (r: Option<usize>)
    requires
        pos <= v@.len(),
    ensures
        match r {
            Some(i) => pos <= i < v@.len() && find_char(v@.skip(pos as int), c) == Some(
                i - pos,
            ),
            None => find_char(v@.skip(pos as int), c) is None,
        },
{
    let n = v.len();
    let mut i = pos;
    while i < n
        invariant
            pos <= i <= n,
            n == v@.len(),
            forall|j: int| pos <= j < i ==> v@[j] != c,
        decreases n - i,
    {
        if v[i] == c {
            proof {
                let s = v@.skip(pos as int);
                assert(forall|j: int| 0 <= j < i - pos ==> s[j] == v@[j + pos]);
                lemma_find_prefix(s, c, i - pos);
            }
            return Some(i);
        }
        i += 1;
    }
    proof {
        let s = v@.skip(pos as int);
        assert(forall|j: int| 0 <= j < s.len() ==> s[j] == v@[j + pos]);
        lemma_find_none(s, c);
    }
    None
}


/// One tokenizer step: read the token starting at `pos` (after skipping
/// nothing; whitespace is its own step) and push it onto `toks`.
#[verifier::rlimit(100)]
fn tok_step(v: &Vec<char>, pos: usize, toks: &mut Vec<Token>) -> (r: Result<usize, ()>)
    requires
        pos < v@.len(),
    ensures
        match r {
            Ok(p2) => pos < p2 <= v@.len() && cons_many(
                final(toks)@.map_values(|t: Token| t@),
                spec_tokenize(v@.skip(p2 as int)),
            ) == cons_many(
                old(toks)@.map_values(|t: Token| t@),
                spec_tokenize(v@.skip(pos as int)),
            ),
            Err(_) => spec_tokenize(v@.skip(pos as int)) is None,
        },
{
    let ghost s = v@.skip(pos as int);
    let ghost done = toks@.map_values(|t: Token| t@);
    let n = v.len();
    proof {
        assert(s[0] == v@[pos as int]);
    }
    let c = v[pos];
    if c == ' ' || c == '\t' || c == '\r' || c == '\n' {
        proof {
            assert(s.drop_first() =~= v@.skip(pos + 1));
        }
        Ok(pos + 1)
    } else if c == '{' {
        toks.push(Token::OpenBrace);
        proof {
            assert(s.drop_first() =~= v@.skip(pos + 1));
            lemma_cons_many_push(done, TokenModel::OpenBrace, spec_tokenize(v@.skip(pos + 1)));
            assert(toks@.map_values(|t: Token| t@) =~= done.push(TokenModel::OpenBrace));
        }
        Ok(pos + 1)
    } else if c == '}' {
        toks.push(Token::CloseBrace);
        proof {
            assert(s.drop_first() =~= v@.skip(pos + 1));
            lemma_cons_many_push(done, TokenModel::CloseBrace, spec_tokenize(v@.skip(pos + 1)));
            assert(toks@.map_values(|t: Token| t@) =~= done.push(TokenModel::CloseBrace));
        }
        Ok(pos + 1)
    } else if c == '"' {
        match scan_for(v, pos + 1, '"') {
            None => {
                proof {
                    assert(s.drop_first() =~= v@.skip(pos + 1));
                }
                Err(())
            },
            Some(e) => {
                let q = substring_of(v, pos + 1, e);
                toks.push(Token::Quoted(q));
                proof {
                    assert(s.drop_first() =~= v@.skip(pos + 1));
                    let i = e - pos - 1;
                    assert(find_char(s.drop_first(), '"') == Some(i));
                    assert(s.drop_first().take(i) =~= v@.subrange(pos + 1, e as int));
                    assert(clampi(i + 1, 1, s.len() as int - 1) == i + 1);
                    assert(s.drop_first().skip(i + 1) =~= v@.skip(e + 1));
                    lemma_cons_many_push(done, TokenModel::Quoted(q@), spec_tokenize(v@.skip(e + 1)));
                    assert(toks@.map_values(|t: Token| t@) =~= done.push(TokenModel::Quoted(q@)));
                }
                Ok(e + 1)
            },
        }
    } else if c == '=' {
        Err(())
    } else {
        let e = scan_bare(v, pos);
        proof {
            assert(bare_len(s) == e - pos);
            lemma_bare_len_bounds(s);
            assert(is_bare_char(s[0]));
            assert(e - pos >= 1) by {
                if bare_len(s) == 0 {
                    assert(!is_bare_char(s[0]));
                }
            }
            assert(clampi(bare_len(s), 1, s.len() as int) == e - pos);
            assert(s.take(e - pos) =~= v@.subrange(pos as int, e as int));
            assert(s.skip(e - pos) =~= v@.skip(e as int));
        }
        let word = substring_of(v, pos, e);
        if e < n && v[e] == '=' {
            proof {
                assert(v@.skip(e as int)[0] == '=');
                assert(v@.skip(e as int).drop_first() =~= v@.skip(e + 1));
            }
            if e + 1 < n && v[e + 1] == '"' {
                proof {
                    assert(v@.skip(e + 1)[0] == '"');
                    assert(v@.skip(e + 1).drop_first() =~= v@.skip(e + 2));
                }
                match scan_for(v, e + 2, '"') {
                    None => Err(()),
                    Some(q2) => {
                        let value = substring_of(v, e + 2, q2);
                        let raw = substring_of(v, pos, q2 + 1);
                        toks.push(Token::KeyValue { key: word, value, raw });
                        proof {
                            let vrest = v@.skip(e + 1);
                            let i = q2 - e - 2;
                            assert(find_char(vrest.drop_first(), '"') == Some(i));
                            assert(vrest.drop_first().take(i) =~= v@.subrange(e + 2, q2 as int));
                            assert(s.take((e - pos) + 1 + 1 + i + 1) =~= v@.subrange(
                                pos as int,
                                q2 + 1,
                            ));
                            assert(vrest.len() == n - e - 1);
                            assert(clampi(i + 1, 1, vrest.len() as int - 1) == i + 1);
                            assert(vrest.drop_first().skip(i + 1) =~= v@.skip(q2 + 1));
                            let t = TokenModel::KeyValue { key: word@, value: value@, raw: raw@ };
                            lemma_cons_many_push(done, t, spec_tokenize(v@.skip(q2 + 1)));
                            assert(toks@.map_values(|tk: Token| tk@) =~= done.push(t));
                        }
                        Ok(q2 + 1)
                    },
                }
            } else {
                let e2 = scan_bare(v, e + 1);
                if e2 == e + 1 {
                    proof {
                        let vrest = v@.skip(e + 1);
                        assert(bare_len(vrest) == 0);
                        assert(vrest.len() > 0 ==> vrest[0] == v@[e + 1]);
                        assert(!(vrest.len() > 0 && vrest[0] == '"'));
                        assert(spec_tokenize(s) is None);
                    }
                    Err(())
                } else {
                    let value = substring_of(v, e + 1, e2);
                    let raw = substring_of(v, pos, e2);
                    toks.push(Token::KeyValue { key: word, value, raw });
                    proof {
                        let vrest = v@.skip(e + 1);
                        let m = e2 - e - 1;
                        assert(bare_len(vrest) == m);
                        assert(m >= 1);
                        assert(vrest[0] == v@[e + 1]);
                        assert(!(vrest.len() > 0 && vrest[0] == '"'));
                        assert(vrest.take(m) =~= v@.subrange(e + 1, e2 as int));
                        assert(s.take((e - pos) + 1 + m) =~= v@.subrange(pos as int, e2 as int));
                        assert(clampi(m, 1, vrest.len() as int) == m);
                        assert(vrest.skip(m) =~= v@.skip(e2 as int));
                        let t = TokenModel::KeyValue { key: word@, value: value@, raw: raw@ };
                        lemma_cons_many_push(done, t, spec_tokenize(v@.skip(e2 as int)));
                        assert(toks@.map_values(|tk: Token| tk@) =~= done.push(t));
                    }
                    Ok(e2)
                }
            }
        } else {
            toks.push(Token::Flag(word));
            proof {
                let rest = s.skip(e - pos);
                assert(rest.len() > 0 ==> rest[0] == v@[e as int]);
                assert(!(rest.len() > 0 && rest[0] == '='));
                let t = TokenModel::Flag(word@);
                lemma_cons_many_push(done, t, spec_tokenize(v@.skip(e as int)));
                assert(toks@.map_values(|tk: Token| tk@) =~= done.push(t));
            }
            Ok(e)
        }
    }
}

/// Tokenize one comment-free line.  Returns `Err(())` exactly when
/// `spec_tokenize` rejects it.
pub fn tokenize_line(v: &Vec<char>) -> (r: Result<Vec<Token>, ()>)
    ensures
        match r {
            Ok(ts) => spec_tokenize(v@) == Some(ts@.map_values(|t: Token| t@)),
            Err(_) => spec_tokenize(v@) is None,
        },
{
    let n = v.len();
    let mut toks: Vec<Token> = Vec::new();
    let mut pos: usize = 0;
    proof {
        assert(v@.skip(0) =~= v@);
        assert(toks@.map_values(|t: Token| t@) =~= Seq::<TokenModel>::empty());
        assert(cons_many(Seq::<TokenModel>::empty(), spec_tokenize(v@)) == spec_tokenize(v@));
    }
    while pos < n
        invariant
            pos <= n,
            n == v@.len(),
            spec_tokenize(v@) == cons_many(
                toks@.map_values(|t: Token| t@),
                spec_tokenize(v@.skip(pos as int)),
            ),
        decreases n - pos,
    {
        match tok_step(v, pos, &mut toks) {
            Ok(p2) => {
                pos = p2;
            },
            Err(_) => {
                return Err(());
            },
        }
    }
    proof {
        assert(v@.skip(n as int) =~= Seq::<char>::empty());
        assert(toks@.map_values(|t: Token| t@) + Seq::<TokenModel>::empty() =~= toks@.map_values(
            |t: Token| t@,
        ));
    }
    Ok(toks)
}

/// Prepend an already-produced token sequence to a tokenizer result.
pub open spec fn cons_many(done: Seq<TokenModel>, r: Option<Seq<TokenModel>>) -> Option<
    Seq<TokenModel>,
> {
    match r {
        None => None,
        Some(ts) => Some(done + ts),
    }
}

proof fn lemma_cons_many_push(done: Seq<TokenModel>, t: TokenModel, r: Option<Seq<TokenModel>>)
    ensures
        cons_many(done, cons_tok(t, r)) == cons_many(done.push(t), r),
{
    match r {
        None => {},
        Some(ts) => {
            assert(done + (seq![t] + ts) =~= done.push(t) + ts);
        },
    }
}

} // verus!
