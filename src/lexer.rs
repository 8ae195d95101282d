//! The lexical layer: raw script characters to a gapless sequence of tokens.
use crate::text::{is_space, space};
use vstd::prelude::*;

verus! {

/// The kind of a lexical token.
#[derive(Clone, Copy, Debug, PartialEq, Eq, Structural)]
pub enum TokenKind {
    /// Whitespace, `@`, an optional name, an optional `:` and an optional state.
    Mention,
    /// Whitespace, `#` and a section name.
    Link,
    /// Whitespace, `:`, a name and optionally `(args)`.
    Command,
    /// `{`, at least one character, and the first `}`.
    InlineBlock,
    /// `//` up to and including the end of the line.
    SinglelineComment,
    /// One character that starts none of the above.
    Text,
}

/// A token: its kind and the characters `start..end` of the input that it covers.
#[derive(Clone, Copy, Debug, PartialEq, Eq, Structural)]
pub struct Token {
    pub kind: TokenKind,
    pub start: usize,
    pub end: usize,
}

/// A character that can start an identifier.
pub open spec fn is_ident_start(c: char) -> bool {
    ('a' <= c && c <= 'z') || ('A' <= c && c <= 'Z') || c == '_'
}

/// A character that can continue an identifier.
pub open spec fn is_ident_char(c: char) -> bool {
    is_ident_start(c) || ('0' <= c && c <= '9')
}

/// The end of the run of identifier characters that starts at `i`.
pub open spec fn ident_rest(s: Seq<char>, i: int) -> int
    decreases s.len() - i,
{
    if 0 <= i < s.len() && is_ident_char(s[i]) {
        ident_rest(s, i + 1)
    } else {
        i
    }
}

/// The end of the longest identifier (`[a-zA-Z_][a-zA-Z_0-9]*`) at `i`; `i` when there is none.
pub open spec fn ident_at(s: Seq<char>, i: int) -> int {
    if 0 <= i < s.len() && is_ident_start(s[i]) {
        ident_rest(s, i + 1)
    } else {
        i
    }
}

/// The first position at or after `i` that holds `c`; `s.len()` when there is none.
pub open spec fn find_char(s: Seq<char>, i: int, c: char) -> int
    decreases s.len() - i,
{
    if i < 0 || i >= s.len() {
        s.len() as int
    } else if s[i] == c {
        i
    } else {
        find_char(s, i + 1, c)
    }
}

/// Whether a whitespace character at `i` is followed by `delim`.
pub open spec fn lead_at(s: Seq<char>, i: int, delim: char) -> bool {
    0 <= i && i + 1 < s.len() && is_space(s[i]) && s[i + 1] == delim
}

/// The end of a mention at `i`. At the very start of the input the leading
/// whitespace may be left out.
pub open spec fn mention_end(s: Seq<char>, i: int) -> Option<int> {
    let at = if i == 0 && s.len() > 0 && s[0] == '@' {
        Some(0int)
    } else if lead_at(s, i, '@') {
        Some(i + 1)
    } else {
        None
    };
    match at {
        Some(a) => {
            let e1 = ident_at(s, a + 1);
            let e2 = if e1 < s.len() && s[e1] == ':' {
                e1 + 1
            } else {
                e1
            };
            Some(ident_at(s, e2))
        },
        None => None,
    }
}

/// The end of a link (whitespace, `#`, a name) at `i`.
pub open spec fn link_end(s: Seq<char>, i: int) -> Option<int> {
    if lead_at(s, i, '#') && ident_at(s, i + 2) > i + 2 {
        Some(ident_at(s, i + 2))
    } else {
        None
    }
}

/// The end of a command (whitespace, `:`, a name, optionally `(args)` up to the first `)`) at `i`.
pub open spec fn command_end(s: Seq<char>, i: int) -> Option<int> {
    let e = ident_at(s, i + 2);
    if lead_at(s, i, ':') && e > i + 2 {
        if e < s.len() && s[e] == '(' && find_char(s, e + 1, ')') < s.len() {
            Some(find_char(s, e + 1, ')') + 1)
        } else {
            Some(e)
        }
    } else {
        None
    }
}

/// The end of an inline block (`{`, at least one character, the first `}`) at `i`.
pub open spec fn inline_end(s: Seq<char>, i: int) -> Option<int> {
    let k = find_char(s, i + 1, '}');
    if 0 <= i < s.len() && s[i] == '{' && i + 1 < k < s.len() {
        Some(k + 1)
    } else {
        None
    }
}

/// The end of a comment (`//` up to and including the next newline) at `i`.
pub open spec fn comment_end(s: Seq<char>, i: int) -> Option<int> {
    let k = find_char(s, i + 2, '\n');
    if 0 <= i && i + 1 < s.len() && s[i] == '/' && s[i + 1] == '/' && k < s.len() {
        Some(k + 1)
    } else {
        None
    }
}

/// The kind and the end of the token that starts at `i`.
pub open spec fn next_token(s: Seq<char>, i: int) -> (TokenKind, int) {
    if let Some(e) = mention_end(s, i) {
        (TokenKind::Mention, e)
    } else if let Some(e) = link_end(s, i) {
        (TokenKind::Link, e)
    } else if let Some(e) = command_end(s, i) {
        (TokenKind::Command, e)
    } else if let Some(e) = inline_end(s, i) {
        (TokenKind::InlineBlock, e)
    } else if let Some(e) = comment_end(s, i) {
        (TokenKind::SinglelineComment, e)
    } else {
        (TokenKind::Text, i + 1)
    }
}

proof fn lemma_ident_rest(s: Seq<char>, i: int)
    ensures
        ident_rest(s, i) >= i,
        0 <= i <= s.len() ==> ident_rest(s, i) <= s.len(),
    decreases s.len() - i,
{
    if 0 <= i < s.len() && is_ident_char(s[i]) {
        lemma_ident_rest(s, i + 1);
    }
}

proof fn lemma_find_char(s: Seq<char>, i: int, c: char)
    ensures
        0 <= i <= s.len() ==> i <= find_char(s, i, c) <= s.len(),
        0 <= i ==> forall|j: int| i <= j < find_char(s, i, c) ==> s[j] != c,
        find_char(s, i, c) < s.len() ==> s[find_char(s, i, c)] == c,
    decreases s.len() - i,
{
    if 0 <= i < s.len() && s[i] != c {
        lemma_find_char(s, i + 1, c);
    }
}

/// Every token covers at least one character and ends within the input.
pub proof fn lemma_next_token(s: Seq<char>, i: int)
    requires
        0 <= i < s.len(),
    ensures
        i < next_token(s, i).1 <= s.len(),
{
    lemma_ident_rest(s, i + 2);
    lemma_ident_rest(s, i + 3);
    lemma_ident_rest(s, 1);
    lemma_ident_rest(s, 2);
    let a = if i == 0 && s[0] == '@' {
        0
    } else {
        i + 1
    };
    let e1 = ident_at(s, a + 1);
    lemma_ident_rest(s, e1 + 1);
    lemma_ident_rest(s, e1 + 2);
    lemma_find_char(s, ident_at(s, i + 2) + 1, ')');
    lemma_find_char(s, i + 1, '}');
    lemma_find_char(s, i + 2, '\n');
}

/// The tokens from position `i` on, after those in `acc`.
pub open spec fn lex_from(s: Seq<char>, i: int, acc: Seq<Token>) -> Seq<Token>
    decreases s.len() - i,
{
    // every token advances and stays in the input (`lemma_next_token`); the test only makes
    // that visible here
    if 0 <= i < s.len() && i < next_token(s, i).1 <= s.len() {
        let t = next_token(s, i);
        lex_from(s, t.1, acc.push(Token { kind: t.0, start: i as usize, end: t.1 as usize }))
    } else {
        acc
    }
}

/// The tokens of a script.
pub open spec fn tokens_of(s: Seq<char>) -> Seq<Token> {
    lex_from(s, 0, seq![])
}

fn ident_char(c: char) -> (r: bool)
    ensures
        r == is_ident_char(c),
{
    ('a' <= c && c <= 'z') || ('A' <= c && c <= 'Z') || c == '_' || ('0' <= c && c <= '9')
}

fn ident_end(s: &[char], i: usize) -> (r: usize)
    requires
        i <= s@.len(),
    ensures
        r == ident_at(s@, i as int),
{
    if i < s.len() && (('a' <= s[i] && s[i] <= 'z') || ('A' <= s[i] && s[i] <= 'Z') || s[i]
        == '_') {
        let mut j = i + 1;
        while j < s.len() && ident_char(s[j])
            invariant
                i < j <= s@.len(),
                ident_rest(s@, i + 1) == ident_rest(s@, j as int),
            decreases s@.len() - j,
        {
            j = j + 1;
        }
        j
    } else {
        i
    }
}

pub(crate) fn find(s: &[char], i: usize, c: char) -> (r: usize)
    requires
        i <= s@.len(),
    ensures
        r == find_char(s@, i as int, c),
{
    let mut j = i;
    while j < s.len() && s[j] != c
        invariant
            i <= j <= s@.len(),
            find_char(s@, i as int, c) == find_char(s@, j as int, c),
        decreases s@.len() - j,
    {
        j = j + 1;
    }
    j
}

fn lead(s: &[char], i: usize, delim: char) -> (r: bool)
    requires
        i < s@.len(),
    ensures
        r == lead_at(s@, i as int, delim),
{
    s.len() - i > 1 && space(s[i]) && s[i + 1] == delim
}

/// The kind and end of the token at `i`.
pub fn scan(s: &[char], i: usize) -> (r: (TokenKind, usize))
    requires
        i < s@.len(),
    ensures
        r.0 == next_token(s@, i as int).0,
        r.1 == next_token(s@, i as int).1,
{
    proof {
        lemma_next_token(s@, i as int);
    }
    let n = s.len();
    if (i == 0 && s[0] == '@') || lead(s, i, '@') {
        let a = if i == 0 && s[0] == '@' {
            0
        } else {
            i + 1
        };
        proof {
            lemma_ident_rest(s@, a + 2);
        }
        let e1 = ident_end(s, a + 1);
        let e2 = if e1 < n && s[e1] == ':' {
            e1 + 1
        } else {
            e1
        };
        proof {
            lemma_ident_rest(s@, e2 + 1);
        }
        return (TokenKind::Mention, ident_end(s, e2));
    }
    if n - i >= 2 {
        proof {
            lemma_ident_rest(s@, i + 3);
        }
        let e = ident_end(s, i + 2);
        if lead(s, i, '#') && e > i + 2 {
            return (TokenKind::Link, e);
        }
        if lead(s, i, ':') && e > i + 2 {
            if e < n && s[e] == '(' {
                let k = find(s, e + 1, ')');
                if k < n {
                    return (TokenKind::Command, k + 1);
                }
            }
            return (TokenKind::Command, e);
        }
    }
    if s[i] == '{' {
        let k = find(s, i + 1, '}');
        if i + 1 < k && k < n {
            return (TokenKind::InlineBlock, k + 1);
        }
    }
    if n - i > 1 && s[i] == '/' && s[i + 1] == '/' {
        let k = find(s, i + 2, '\n');
        if k < n {
            return (TokenKind::SinglelineComment, k + 1);
        }
    }
    (TokenKind::Text, i + 1)
}

/// Splits a script into tokens, from its first character to its last.
pub fn lex(s: &[char]) -> (r: Vec<Token>)
    ensures
        r@ == tokens_of(s@),
{
    let mut out: Vec<Token> = Vec::new();
    let mut i: usize = 0;
    while i < s.len()
        invariant
            i <= s@.len(),
            lex_from(s@, i as int, out@) == tokens_of(s@),
        decreases s@.len() - i,
    {
        let (kind, e) = scan(s, i);
        proof {
            lemma_next_token(s@, i as int);
        }
        out.push(Token { kind, start: i, end: e });
        i = e;
    }
    out
}

/// The tokens after `acc` follow one another without gap or overlap.
pub open spec fn contiguous(toks: Seq<Token>) -> bool {
    forall|k: int| 0 <= k < toks.len() - 1 ==> #[trigger] toks[k].end == toks[k + 1].start
}

proof fn lemma_lex_from_covers(s: Seq<char>, i: int, acc: Seq<Token>)
    requires
        0 <= i <= s.len() <= usize::MAX,
        contiguous(acc),
        acc.len() > 0 ==> acc.last().end == i,
        acc.len() == 0 ==> i == 0,
        forall|k: int| 0 <= k < acc.len() ==> (#[trigger] acc[k]).start < acc[k].end,
    ensures
        contiguous(lex_from(s, i, acc)),
        lex_from(s, i, acc).len() > 0 ==> lex_from(s, i, acc).last().end == s.len(),
        lex_from(s, i, acc).len() >= acc.len(),
        forall|k: int| 0 <= k < acc.len() ==> #[trigger] lex_from(s, i, acc)[k] == acc[k],
        i < s.len() ==> lex_from(s, i, acc).len() > acc.len() && lex_from(s, i, acc)[acc.len() as int].start
            == i,
        i == s.len() ==> lex_from(s, i, acc) == acc,
        forall|k: int|
            0 <= k < lex_from(s, i, acc).len() ==> (#[trigger] lex_from(s, i, acc)[k]).start
                < lex_from(s, i, acc)[k].end,
    decreases s.len() - i,
{
    if i < s.len() {
        lemma_next_token(s, i);
        let t = next_token(s, i);
        let acc2 = acc.push(Token { kind: t.0, start: i as usize, end: t.1 as usize });
        assert forall|k: int| 0 <= k < acc2.len() - 1 implies #[trigger] acc2[k].end == acc2[k
            + 1].start by {
            if k < acc.len() - 1 {
                assert(acc2[k] == acc[k] && acc2[k + 1] == acc[k + 1]);
            }
        }
        lemma_lex_from_covers(s, t.1, acc2);
        assert(lex_from(s, i, acc)[acc.len() as int] == acc2[acc.len() as int]);
        assert forall|k: int| 0 <= k < acc.len() implies #[trigger] lex_from(s, i, acc)[k] == acc[k] by {
            assert(lex_from(s, i, acc)[k] == acc2[k]);
        }
    }
}

/// The tokens cover the whole input, in order, with no gap and no overlap: the first
/// starts at 0, each ends where the next starts, the last ends at the end, and none
/// is empty.
pub proof fn lemma_tokens_cover(s: Seq<char>)
    requires
        s.len() <= usize::MAX,
    ensures
        contiguous(tokens_of(s)),
        s.len() == 0 <==> tokens_of(s).len() == 0,
        s.len() > 0 ==> tokens_of(s)[0].start == 0 && tokens_of(s).last().end == s.len(),
        forall|k: int|
            0 <= k < tokens_of(s).len() ==> (#[trigger] tokens_of(s)[k]).start < tokens_of(s)[k].end,
{
    lemma_lex_from_covers(s, 0, seq![]);
}

} // verus!
