//! The command template: the tokenizer that splits a command string into
//! literals and placeholders, and the materialiser that substitutes one input
//! and one job id into the template to obtain the concrete command line.

use vstd::prelude::*;
use crate::digits::{dec, to_decimal};

verus! {

/// One token of a command template.
#[derive(Debug, PartialEq)]
pub enum Token {
    /// A verbatim stretch of the command string.
    Literal(String),
    /// `{}`: the whole input.
    Placeholder,
    /// `{.}`: the input with its extension removed.
    RemoveExtension,
    /// `{/}`: the basename of the input.
    Basename,
    /// `{//}`: the directory part of the input.
    Dirname,
    /// `{/.}`: the basename with its extension removed.
    BaseAndExt,
    /// `{#}`: the job id, in decimal.
    Job,
}

/// The mathematical value of a token.
pub ghost enum TokenSpec {
    Literal(Seq<char>),
    Placeholder,
    RemoveExtension,
    Basename,
    Dirname,
    BaseAndExt,
    Job,
}

impl DeepView for Token {
    type V = TokenSpec;

    open spec fn deep_view(&self) -> TokenSpec {
        match self {
            Token::Literal(s) => TokenSpec::Literal(s@),
            Token::Placeholder => TokenSpec::Placeholder,
            Token::RemoveExtension => TokenSpec::RemoveExtension,
            Token::Basename => TokenSpec::Basename,
            Token::Dirname => TokenSpec::Dirname,
            Token::BaseAndExt => TokenSpec::BaseAndExt,
            Token::Job => TokenSpec::Job,
        }
    }
}

/// The pattern `pat` occurs in `s` at position `i`.
pub open spec fn matches_at(s: Seq<char>, i: int, pat: Seq<char>) -> bool {
    0 <= i && i + pat.len() <= s.len() && s.subrange(i, i + pat.len() as int) == pat
}

/// The placeholder starting at position `i` of the command string, with its
/// width, if any starts there.
pub open spec fn placeholder_token(s: Seq<char>, i: int) -> Option<(TokenSpec, int)> {
    if matches_at(s, i, "{//}"@) {
        Some((TokenSpec::Dirname, 4int))
    } else if matches_at(s, i, "{/.}"@) {
        Some((TokenSpec::BaseAndExt, 4int))
    } else if matches_at(s, i, "{/}"@) {
        Some((TokenSpec::Basename, 3int))
    } else if matches_at(s, i, "{.}"@) {
        Some((TokenSpec::RemoveExtension, 3int))
    } else if matches_at(s, i, "{#}"@) {
        Some((TokenSpec::Job, 3int))
    } else if matches_at(s, i, "{}"@) {
        Some((TokenSpec::Placeholder, 2int))
    } else {
        None
    }
}

/// How many characters from position `i` on belong to a literal: everything
/// up to the next placeholder.
pub open spec fn literal_len(s: Seq<char>, i: int) -> nat
    decreases s.len() - i,
{
    if i < 0 || i >= s.len() {
        0
    } else if placeholder_token(s, i) is Some {
        0
    } else {
        1 + literal_len(s, i + 1)
    }
}

proof fn lemma_literal_len_bounds(s: Seq<char>, i: int)
    requires
        0 <= i <= s.len(),
    ensures
        i + literal_len(s, i) <= s.len(),
    decreases s.len() - i,
{
    if i < s.len() && placeholder_token(s, i) is None {
        lemma_literal_len_bounds(s, i + 1);
    }
}

/// The tokens of the command string from position `i` on: placeholders where
/// they stand, maximal literals between them.
pub open spec fn tok_from(s: Seq<char>, i: int) -> Seq<TokenSpec>
    decreases s.len() - i,
    via tok_from_decreases
{
    if i < 0 || i >= s.len() {
        Seq::empty()
    } else {
        match placeholder_token(s, i) {
            Some((t, n)) => seq![t] + tok_from(s, i + n),
            None => seq![TokenSpec::Literal(s.subrange(i, i + literal_len(s, i) as int))]
                + tok_from(s, i + literal_len(s, i) as int),
        }
    }
}

#[via_fn]
proof fn tok_from_decreases(s: Seq<char>, i: int) {
    lemma_pattern_lens();
    if 0 <= i < s.len() && placeholder_token(s, i) is None {
        lemma_literal_len_bounds(s, i);
        assert(literal_len(s, i) >= 1);
    }
}

/// The tokens of a whole command string.
pub open spec fn tokenize_spec(s: Seq<char>) -> Seq<TokenSpec> {
    tok_from(s, 0)
}

/// The exact text a token stands for in the command string.
pub open spec fn token_text(t: TokenSpec) -> Seq<char> {
    match t {
        TokenSpec::Literal(l) => l,
        TokenSpec::Placeholder => "{}"@,
        TokenSpec::RemoveExtension => "{.}"@,
        TokenSpec::Basename => "{/}"@,
        TokenSpec::Dirname => "{//}"@,
        TokenSpec::BaseAndExt => "{/.}"@,
        TokenSpec::Job => "{#}"@,
    }
}

/// The concatenation of the tokens' texts.
pub open spec fn render(ts: Seq<TokenSpec>) -> Seq<char>
    decreases ts.len(),
{
    if ts.len() == 0 {
        Seq::empty()
    } else {
        token_text(ts[0]) + render(ts.drop_first())
    }
}

proof fn lemma_render_from(s: Seq<char>, i: int)
    requires
        0 <= i <= s.len(),
    ensures
        render(tok_from(s, i)) == s.skip(i),
    decreases s.len() - i,
{
    if i == s.len() {
        assert(s.skip(i) =~= Seq::<char>::empty());
    } else {
        match placeholder_token(s, i) {
            Some((t, n)) => {
                lemma_pattern_lens();
                assert(i + n <= s.len());
                lemma_render_from(s, i + n);
                let ts = seq![t] + tok_from(s, i + n);
                assert(ts[0] == t);
                assert(ts.drop_first() =~= tok_from(s, i + n));
                assert(token_text(t) == s.subrange(i, i + n));
                assert(s.skip(i) =~= s.subrange(i, i + n) + s.skip(i + n));
            },
            None => {
                let l = literal_len(s, i) as int;
                lemma_literal_len_bounds(s, i);
                lemma_render_from(s, i + l);
                let t = TokenSpec::Literal(s.subrange(i, i + l));
                let ts = seq![t] + tok_from(s, i + l);
                assert(ts[0] == t);
                assert(ts.drop_first() =~= tok_from(s, i + l));
                assert(s.skip(i) =~= s.subrange(i, i + l) + s.skip(i + l));
            },
        }
    }
}

/// Tokenising loses nothing: the tokens' texts, concatenated, give back the
/// command string.
pub proof fn lemma_tokenize_render(s: Seq<char>)
    ensures
        render(tokenize_spec(s)) == s,
{
    lemma_render_from(s, 0);
    assert(s.skip(0) =~= s);
}

/// Whether `pat` occurs in `s` at position `i`.
fn matches_pat(s: &str, i: usize, pat: &str) -> (r: bool)
    ensures
        r == matches_at(s@, i as int, pat@),
{
    let ls = s.unicode_len();
    let lp = pat.unicode_len();
    if i > ls || lp > ls - i {
        return false;
    }
    let mut j: usize = 0;
    while j < lp
        invariant
            0 <= j <= lp,
            i + lp <= ls,
            ls == s@.len(),
            lp == pat@.len(),
            forall|k: int| 0 <= k < j ==> s@[i + k] == pat@[k],
        decreases lp - j,
    {
        if s.get_char(i + j) != pat.get_char(j) {
            assert(s@.subrange(i as int, i + lp as int)[j as int] != pat@[j as int]);
            return false;
        }
        j = j + 1;
    }
    proof {
        assert(s@.subrange(i as int, i + lp as int) =~= pat@);
    }
    true
}

/// The lengths of the placeholder patterns.
proof fn lemma_pattern_lens()
    ensures
        "{//}"@.len() == 4,
        "{/.}"@.len() == 4,
        "{/}"@.len() == 3,
        "{.}"@.len() == 3,
        "{#}"@.len() == 3,
        "{}"@.len() == 2,
{
    reveal_strlit("{//}");
    reveal_strlit("{/.}");
    reveal_strlit("{/}");
    reveal_strlit("{.}");
    reveal_strlit("{#}");
    reveal_strlit("{}");
}

/// The placeholder starting at position `i`, with its width, if any.
fn placeholder_at(s: &str, i: usize) -> (r: Option<(Token, usize)>)
    ensures
        match r {
            Some((t, n)) => placeholder_token(s@, i as int) == Some((t.deep_view(), n as int))
                && i + n <= s@.len(),
            None => placeholder_token(s@, i as int) is None,
        },
{
    proof {
        lemma_pattern_lens();
    }
    if matches_pat(s, i, "{//}") {
        Some((Token::Dirname, 4))
    } else if matches_pat(s, i, "{/.}") {
        Some((Token::BaseAndExt, 4))
    } else if matches_pat(s, i, "{/}") {
        Some((Token::Basename, 3))
    } else if matches_pat(s, i, "{.}") {
        Some((Token::RemoveExtension, 3))
    } else if matches_pat(s, i, "{#}") {
        Some((Token::Job, 3))
    } else if matches_pat(s, i, "{}") {
        Some((Token::Placeholder, 2))
    } else {
        None
    }
}

/// Split a command string into its template tokens.
pub fn tokenize(comm: &str) -> (r: Vec<Token>)
    ensures
        r.deep_view() == tokenize_spec(comm@),
{
    let len = comm.unicode_len();
    let mut out: Vec<Token> = Vec::new();
    let mut i: usize = 0;
    while i < len
        invariant
            0 <= i <= len,
            len == comm@.len(),
            tokenize_spec(comm@) == out.deep_view() + tok_from(comm@, i as int),
        decreases len - i,
    {
        let ghost pre = out.deep_view();
        match placeholder_at(comm, i) {
            Some((t, n)) => {
                let ghost tv = t.deep_view();
                out.push(t);
                proof {
                    assert(out.deep_view() =~= pre.push(tv));
                    assert(tok_from(comm@, i as int) == seq![tv] + tok_from(comm@, i + n));
                    assert(pre + (seq![tv] + tok_from(comm@, i + n)) =~= pre.push(tv) + tok_from(
                        comm@,
                        i + n,
                    ));
                }
                i = i + n;
            },
            None => {
                let mut j: usize = i;
                while j < len && placeholder_at(comm, j).is_none()
                    invariant
                        i <= j <= len,
                        len == comm@.len(),
                        literal_len(comm@, i as int) == j - i + literal_len(comm@, j as int),
                    decreases len - j,
                {
                    j = j + 1;
                }
                proof {
                    lemma_literal_len_bounds(comm@, i as int);
                    assert(literal_len(comm@, j as int) == 0);
                    assert(literal_len(comm@, i as int) == j - i);
                }
                let lit = String::from_str(comm.substring_char(i, j));
                let ghost tv = TokenSpec::Literal(
                    comm@.subrange(i as int, i + literal_len(comm@, i as int) as int),
                );
                proof {
                    assert(lit@ == comm@.subrange(i as int, j as int));
                }
                out.push(Token::Literal(lit));
                proof {
                    assert(out.deep_view() =~= pre.push(tv));
                    assert(tok_from(comm@, i as int) == seq![tv] + tok_from(comm@, j as int));
                    assert(pre + (seq![tv] + tok_from(comm@, j as int)) =~= pre.push(tv)
                        + tok_from(comm@, j as int));
                }
                i = j;
            },
        }
    }
    proof {
        assert(tok_from(comm@, i as int) =~= Seq::<TokenSpec>::empty());
        assert(out.deep_view() + Seq::<TokenSpec>::empty() =~= out.deep_view());
    }
    out
}

/// The position of the last occurrence of `c`, or -1 when there is none.
pub open spec fn last_pos(s: Seq<char>, c: char) -> int
    decreases s.len(),
{
    if s.len() == 0 {
        -1
    } else if s.last() == c {
        s.len() - 1
    } else {
        last_pos(s.drop_last(), c)
    }
}

proof fn lemma_last_pos_bounds(s: Seq<char>, c: char)
    ensures
        -1 <= last_pos(s, c) < s.len(),
    decreases s.len(),
{
    if s.len() > 0 && s.last() != c {
        lemma_last_pos_bounds(s.drop_last(), c);
    }
}

/// The last occurrence of `c` in `s`, if any.
fn find_last(s: &str, c: char) -> (r: Option<usize>)
    ensures
        match r {
            Some(i) => i as int == last_pos(s@, c) && i < s@.len(),
            None => last_pos(s@, c) == -1,
        },
{
    let len = s.unicode_len();
    let mut best: Option<usize> = None;
    let mut i: usize = 0;
    while i < len
        invariant
            0 <= i <= len,
            len == s@.len(),
            match best {
                Some(b) => b as int == last_pos(s@.take(i as int), c) && b < i,
                None => last_pos(s@.take(i as int), c) == -1,
            },
        decreases len - i,
    {
        proof {
            assert(s@.take(i + 1).drop_last() =~= s@.take(i as int));
            assert(s@.take(i + 1).last() == s@[i as int]);
        }
        if s.get_char(i) == c {
            best = Some(i);
        }
        i = i + 1;
    }
    proof {
        assert(s@.take(len as int) =~= s@);
    }
    best
}

/// Everything after the last slash; the whole input when it has no slash.
pub open spec fn basename(s: Seq<char>) -> Seq<char> {
    if last_pos(s, '/') == -1 {
        s
    } else {
        s.skip(last_pos(s, '/') + 1)
    }
}

/// Everything before the last slash; `.` when the input has no slash.
pub open spec fn dirname(s: Seq<char>) -> Seq<char> {
    if last_pos(s, '/') == -1 {
        "."@
    } else {
        s.take(last_pos(s, '/'))
    }
}

/// The input up to its last dot, when that dot lies after the last slash;
/// unchanged otherwise.
pub open spec fn strip_extension(s: Seq<char>) -> Seq<char> {
    if last_pos(s, '.') > last_pos(s, '/') {
        s.take(last_pos(s, '.'))
    } else {
        s
    }
}

fn basename_of(s: &str) -> (r: String)
    ensures
        r@ == basename(s@),
{
    proof {
        lemma_last_pos_bounds(s@, '/');
    }
    let len = s.unicode_len();
    match find_last(s, '/') {
        None => String::from_str(s),
        Some(i) => {
            let r = String::from_str(s.substring_char(i + 1, len));
            proof {
                assert(r@ =~= basename(s@));
            }
            r
        },
    }
}

fn dirname_of(s: &str) -> (r: String)
    ensures
        r@ == dirname(s@),
{
    proof {
        lemma_last_pos_bounds(s@, '/');
    }
    match find_last(s, '/') {
        None => String::from_str("."),
        Some(i) => {
            let r = String::from_str(s.substring_char(0, i));
            proof {
                assert(r@ =~= dirname(s@));
            }
            r
        },
    }
}

fn strip_extension_of(s: &str) -> (r: String)
    ensures
        r@ == strip_extension(s@),
{
    proof {
        lemma_last_pos_bounds(s@, '.');
        lemma_last_pos_bounds(s@, '/');
    }
    let dot = find_last(s, '.');
    let slash = find_last(s, '/');
    match (dot, slash) {
        (Some(d), None) => {
            let r = String::from_str(s.substring_char(0, d));
            proof {
                assert(r@ =~= strip_extension(s@));
            }
            r
        },
        (Some(d), Some(sl)) => {
            if d > sl {
                let r = String::from_str(s.substring_char(0, d));
                proof {
                    assert(r@ =~= strip_extension(s@));
                }
                r
            } else {
                String::from_str(s)
            }
        },
        _ => String::from_str(s),
    }
}

/// What one token contributes to the concrete command line for `input` and
/// job `id`.
pub open spec fn token_expansion(t: TokenSpec, input: Seq<char>, id: nat) -> Seq<char> {
    match t {
        TokenSpec::Literal(l) => l,
        TokenSpec::Placeholder => input,
        TokenSpec::RemoveExtension => strip_extension(input),
        TokenSpec::Basename => basename(input),
        TokenSpec::Dirname => dirname(input),
        TokenSpec::BaseAndExt => strip_extension(basename(input)),
        TokenSpec::Job => dec(id),
    }
}

/// The whole command line: each token's expansion, concatenated in order.
pub open spec fn command_spec(ts: Seq<TokenSpec>, input: Seq<char>, id: nat) -> Seq<char>
    decreases ts.len(),
{
    if ts.len() == 0 {
        Seq::empty()
    } else {
        command_spec(ts.drop_last(), input, id) + token_expansion(ts.last(), input, id)
    }
}

fn expand_token(t: &Token, input: &str, id: usize) -> (r: String)
    ensures
        r@ == token_expansion(t.deep_view(), input@, id as nat),
{
    match t {
        Token::Literal(l) => l.clone(),
        Token::Placeholder => String::from_str(input),
        Token::RemoveExtension => strip_extension_of(input),
        Token::Basename => basename_of(input),
        Token::Dirname => dirname_of(input),
        Token::BaseAndExt => {
            let b = basename_of(input);
            strip_extension_of(b.as_str())
        },
        Token::Job => to_decimal(id),
    }
}

/// Materialise the template: substitute `input` and the job id into the
/// tokens and return the concrete command line.
pub fn build_command(tokens: &Vec<Token>, input: &str, id: usize) -> (r: String)
    ensures
        r@ == command_spec(tokens.deep_view(), input@, id as nat),
{
    let mut acc = String::new();
    let mut i: usize = 0;
    while i < tokens.len()
        invariant
            0 <= i <= tokens@.len(),
            acc@ == command_spec(tokens.deep_view().take(i as int), input@, id as nat),
        decreases tokens@.len() - i,
    {
        let piece = expand_token(&tokens[i], input, id);
        acc.append(piece.as_str());
        proof {
            let ts = tokens.deep_view();
            assert(ts.take(i + 1).drop_last() =~= ts.take(i as int));
            assert(ts.take(i + 1).last() == ts[i as int]);
        }
        i = i + 1;
    }
    proof {
        assert(tokens.deep_view().take(tokens@.len() as int) =~= tokens.deep_view());
    }
    acc
}

} // verus!
