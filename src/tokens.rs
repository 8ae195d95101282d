//! The semantic layer: lexical tokens grouped into mentions, links, commands,
//! inline blocks and paragraphs of text.
use crate::parser::{texts, ParseError};
use crate::lexer::{
    find, find_char, lemma_next_token, lex, lex_from, next_token, tokens_of, Token, TokenKind,
};
use crate::text::{
    copy_range, paragraphs, paragraphs_of, string_of, trim, trim_bounds, trimmed, views,
};
use vstd::prelude::*;

verus! {

/// What a mention sets.
#[derive(PartialEq, Eq, Hash, Debug, Clone)]
pub enum MentionToken {
    /// `@`: the narrator speaks
    Narrator,
    /// `@name`: a character speaks in its default state
    Name(String),
    /// `@:state`: the current character changes state
    State(String),
    /// `@name:state`: a character speaks in a named state
    NameState(String, String),
}

/// A semantic token.
#[derive(PartialEq, Eq, Hash, Debug, Clone)]
pub enum SemanticToken {
    /// `@...`
    Mention(MentionToken),
    /// Paragraphs of plain text, none of them empty
    Text(Vec<String>),
    /// `#name`
    Link(String),
    /// `:name(args)`: the name and the arguments
    Command(String, String),
    /// `{...}`
    InlineBlock(String),
}

/// The value of a `MentionToken`.
pub enum MentionModel {
    Narrator,
    Name(Seq<char>),
    State(Seq<char>),
    NameState(Seq<char>, Seq<char>),
}

/// The value of a `SemanticToken`.
pub enum SemanticModel {
    Mention(MentionModel),
    Text(Seq<Seq<char>>),
    Link(Seq<char>),
    Command(Seq<char>, Seq<char>),
    InlineBlock(Seq<char>),
}

impl View for MentionToken {
    type V = MentionModel;

    open spec fn view(&self) -> MentionModel {
        match self {
            MentionToken::Narrator => MentionModel::Narrator,
            MentionToken::Name(n) => MentionModel::Name(n@),
            MentionToken::State(s) => MentionModel::State(s@),
            MentionToken::NameState(n, s) => MentionModel::NameState(n@, s@),
        }
    }
}

impl View for SemanticToken {
    type V = SemanticModel;

    open spec fn view(&self) -> SemanticModel {
        match self {
            SemanticToken::Mention(m) => SemanticModel::Mention(m@),
            SemanticToken::Text(p) => SemanticModel::Text(texts(p@)),
            SemanticToken::Link(n) => SemanticModel::Link(n@),
            SemanticToken::Command(n, a) => SemanticModel::Command(n@, a@),
            SemanticToken::InlineBlock(b) => SemanticModel::InlineBlock(b@),
        }
    }
}

/// The value of each semantic token.
pub open spec fn semantic_views(v: Seq<SemanticToken>) -> Seq<SemanticModel> {
    v.map_values(|t: SemanticToken| t@)
}

/// `v` without its first character (the delimiter).
pub open spec fn tail(v: Seq<char>) -> Seq<char> {
    if v.len() >= 1 {
        v.subrange(1, v.len() as int)
    } else {
        seq![]
    }
}

/// A mention's text, `@`, then nothing, a name, `:state` or `name:state`.
pub open spec fn decode_mention(v: Seq<char>) -> Result<MentionModel, ParseError> {
    let body = tail(v);
    let k = find_char(body, 0, ':');
    if body.len() == 0 {
        Ok(MentionModel::Narrator)
    } else if k >= body.len() {
        Ok(MentionModel::Name(body))
    } else if find_char(body, k + 1, ':') < body.len() {
        Err(ParseError::MalformedMention)
    } else if trim(body.subrange(0, k)).len() == 0 {
        Ok(MentionModel::State(body.subrange(k + 1, body.len() as int)))
    } else {
        Ok(MentionModel::NameState(body.subrange(0, k), body.subrange(k + 1, body.len() as int)))
    }
}

/// A command's text, `:name` or `:name(args)`: the name is what stands before the first
/// `(`, the arguments what stands between it and the last character.
pub open spec fn decode_command(v: Seq<char>) -> SemanticModel {
    let k = find_char(v, 0, '(');
    if 1 <= k && k + 1 < v.len() {
        SemanticModel::Command(v.subrange(1, k), v.subrange(k + 1, v.len() - 1))
    } else {
        SemanticModel::Command(tail(v), seq![])
    }
}

/// The semantic token of a trimmed lexical token's text, if any.
pub open spec fn decode(kind: TokenKind, v: Seq<char>) -> Result<Option<SemanticModel>, ParseError> {
    match kind {
        TokenKind::Mention => match decode_mention(v) {
            Ok(m) => Ok(Some(SemanticModel::Mention(m))),
            Err(e) => Err(e),
        },
        TokenKind::Link => Ok(Some(SemanticModel::Link(tail(v)))),
        TokenKind::Command => Ok(Some(decode_command(v))),
        TokenKind::InlineBlock => Ok(Some(SemanticModel::InlineBlock(v))),
        _ => Ok(None),
    }
}

/// `out` after the buffered text is emitted as one token of paragraphs (none if empty).
pub open spec fn flush(out: Seq<SemanticModel>, buf: Seq<char>) -> Seq<SemanticModel> {
    if paragraphs(buf).len() == 0 {
        out
    } else {
        out.push(SemanticModel::Text(paragraphs(buf)))
    }
}

/// The semantic tokens of `toks[i..]`, after `out` and the buffered text `buf`.
pub open spec fn reduce_from(
    s: Seq<char>,
    toks: Seq<Token>,
    i: int,
    buf: Seq<char>,
    out: Seq<SemanticModel>,
) -> Result<Seq<SemanticModel>, ParseError>
    decreases toks.len() - i,
{
    if i < 0 || i >= toks.len() {
        Ok(flush(out, buf))
    } else {
        let t = toks[i];
        let text = s.subrange(t.start as int, t.end as int);
        if t.kind == TokenKind::Text {
            reduce_from(s, toks, i + 1, buf + text, out)
        } else {
            match decode(t.kind, trim(text)) {
                Err(e) => Err(e),
                Ok(Some(x)) => reduce_from(s, toks, i + 1, seq![], flush(out, buf).push(x)),
                Ok(None) => reduce_from(s, toks, i + 1, seq![], flush(out, buf)),
            }
        }
    }
}

/// The semantic tokens of a script.
pub open spec fn semantics_of(s: Seq<char>) -> Result<Seq<SemanticModel>, ParseError> {
    reduce_from(s, tokens_of(s), 0, seq![], seq![])
}

proof fn lemma_lex_from_bounds(s: Seq<char>, i: int, acc: Seq<Token>)
    requires
        0 <= i <= s.len() <= usize::MAX,
        forall|k: int|
            0 <= k < acc.len() ==> (#[trigger] acc[k]).start < acc[k].end <= i,
    ensures
        forall|k: int|
            0 <= k < lex_from(s, i, acc).len() ==> (#[trigger] lex_from(s, i, acc)[k]).start
                < lex_from(s, i, acc)[k].end <= s.len(),
    decreases s.len() - i,
{
    if i < s.len() {
        lemma_next_token(s, i);
        let t = next_token(s, i);
        lemma_lex_from_bounds(s, t.1, acc.push(Token { kind: t.0, start: i as usize, end: t.1 as usize }));
    }
}

/// Every token covers a non-empty stretch of the input.
pub proof fn lemma_tokens_in_bounds(s: Seq<char>)
    requires
        s.len() <= usize::MAX,
    ensures
        forall|k: int|
            0 <= k < tokens_of(s).len() ==> (#[trigger] tokens_of(s)[k]).start < tokens_of(s)[k].end
                <= s.len(),
{
    lemma_lex_from_bounds(s, 0, seq![]);
}

/// The mention that a mention token's trimmed text stands for.
pub fn mention_of(v: &[char]) -> (r: Result<MentionToken, ParseError>)
    ensures
        match r {
            Ok(m) => decode_mention(v@) == Ok::<MentionModel, ParseError>(m@),
            Err(e) => decode_mention(v@) == Err::<MentionModel, ParseError>(e),
        },
{
    if v.len() <= 1 {
        assert(tail(v@).len() == 0);
        return Ok(MentionToken::Narrator);
    }
    let body = copy_range(v, 1, v.len());
    let k = find(body.as_slice(), 0, ':');
    if k >= body.len() {
        return Ok(MentionToken::Name(string_of(body.as_slice())));
    }
    if find(body.as_slice(), k + 1, ':') < body.len() {
        return Err(ParseError::MalformedMention);
    }
    let left = copy_range(body.as_slice(), 0, k);
    let right = copy_range(body.as_slice(), k + 1, body.len());
    let t = trimmed(left.as_slice());
    if t.len() == 0 {
        Ok(MentionToken::State(string_of(right.as_slice())))
    } else {
        Ok(MentionToken::NameState(string_of(left.as_slice()), string_of(right.as_slice())))
    }
}

/// The command that a command token's trimmed text stands for.
pub fn command_of(v: &[char]) -> (r: SemanticToken)
    ensures
        r@ == decode_command(v@),
{
    let k = find(v, 0, '(');
    if 1 <= k && k < v.len() && v.len() - k > 1 {
        let name = copy_range(v, 1, k);
        let args = copy_range(v, k + 1, v.len() - 1);
        SemanticToken::Command(string_of(name.as_slice()), string_of(args.as_slice()))
    } else {
        let name = tail_of(v);
        let none: Vec<char> = Vec::new();
        assert(none@ =~= Seq::<char>::empty());
        SemanticToken::Command(string_of(name.as_slice()), string_of(none.as_slice()))
    }
}

fn tail_of(v: &[char]) -> (r: Vec<char>)
    ensures
        r@ == tail(v@),
{
    if v.len() >= 1 {
        copy_range(v, 1, v.len())
    } else {
        let r: Vec<char> = Vec::new();
        assert(r@ =~= Seq::<char>::empty());
        r
    }
}

/// The semantic token of a trimmed lexical token's text, if any.
pub fn decode_token(kind: TokenKind, v: &[char]) -> (r: Result<Option<SemanticToken>, ParseError>)
    ensures
        match r {
            Ok(Some(t)) => decode(kind, v@) == Ok::<Option<SemanticModel>, ParseError>(Some(t@)),
            Ok(None) => decode(kind, v@) == Ok::<Option<SemanticModel>, ParseError>(None),
            Err(e) => decode(kind, v@) == Err::<Option<SemanticModel>, ParseError>(e),
        },
{
    match kind {
        TokenKind::Mention => match mention_of(v) {
            Ok(m) => Ok(Some(SemanticToken::Mention(m))),
            Err(e) => Err(e),
        },
        TokenKind::Link => Ok(Some(SemanticToken::Link(string_of(tail_of(v).as_slice())))),
        TokenKind::Command => Ok(Some(command_of(v))),
        TokenKind::InlineBlock => Ok(Some(SemanticToken::InlineBlock(string_of(v)))),
        _ => Ok(None),
    }
}

fn flush_text(out: &mut Vec<SemanticToken>, buf: &[char])
    ensures
        semantic_views(final(out)@) == flush(semantic_views(old(out)@), buf@),
{
    let ps = paragraphs_of(buf);
    if ps.len() > 0 {
        let mut strings: Vec<String> = Vec::new();
        let mut i: usize = 0;
        while i < ps.len()
            invariant
                i <= ps@.len(),
                texts(strings@) == views(ps@).subrange(0, i as int),
            decreases ps@.len() - i,
        {
            let ghost t0 = texts(strings@);
            let st = string_of(ps[i].as_slice());
            strings.push(st);
            assert(texts(strings@) =~= t0.push(st@));
            i = i + 1;
            assert(texts(strings@) =~= views(ps@).subrange(0, i as int));
        }
        assert(views(ps@).subrange(0, ps@.len() as int) =~= views(ps@));
        let ghost before = semantic_views(out@);
        out.push(SemanticToken::Text(strings));
        assert(semantic_views(out@) =~= before.push(SemanticModel::Text(paragraphs(buf@))));
    }
}

/// The semantic tokens of a script.
pub fn semantic_tokens(s: &[char]) -> (r: Result<Vec<SemanticToken>, ParseError>)
    ensures
        match r {
            Ok(v) => semantics_of(s@) == Ok::<Seq<SemanticModel>, ParseError>(semantic_views(v@)),
            Err(e) => semantics_of(s@) == Err::<Seq<SemanticModel>, ParseError>(e),
        },
{
    let toks = lex(s);
    let n = s.len();
    assert(n == s@.len());
    proof {
        lemma_tokens_in_bounds(s@);
    }
    let mut buf: Vec<char> = Vec::new();
    let mut out: Vec<SemanticToken> = Vec::new();
    let mut i: usize = 0;
    assert(semantic_views(out@) =~= Seq::<SemanticModel>::empty());
    assert(buf@ =~= Seq::<char>::empty());
    while i < toks.len()
        invariant
            toks@ == tokens_of(s@),
            i <= toks@.len(),
            forall|k: int|
                0 <= k < toks@.len() ==> (#[trigger] toks@[k]).start < toks@[k].end <= s@.len(),
            semantics_of(s@) == reduce_from(s@, toks@, i as int, buf@, semantic_views(out@)),
        decreases toks@.len() - i,
    {
        let t = toks[i];
        assert(t == toks@[i as int]);
        if t.kind == TokenKind::Text {
            let mut j = t.start;
            let ghost b0 = buf@;
            while j < t.end
                invariant
                    t.start <= j <= t.end <= s@.len(),
                    buf@ == b0 + s@.subrange(t.start as int, j as int),
                decreases t.end - j,
            {
                buf.push(s[j]);
                j = j + 1;
                assert(buf@ =~= b0 + s@.subrange(t.start as int, j as int));
            }
        } else {
            let (a, b) = trim_bounds(s, t.start, t.end);
            let v = copy_range(s, a, b);
            let d = decode_token(t.kind, v.as_slice());
            match d {
                Err(e) => {
                    return Err(e);
                },
                Ok(x) => {
                    flush_text(&mut out, buf.as_slice());
                    buf = Vec::new();
                    assert(buf@ =~= Seq::<char>::empty());
                    if let Some(x) = x {
                        let ghost before = semantic_views(out@);
                        out.push(x);
                        assert(semantic_views(out@) =~= before.push(x@));
                    }
                },
            }
        }
        i = i + 1;
    }
    flush_text(&mut out, buf.as_slice());
    Ok(out)
}

/// A paragraph token holds at least one paragraph.
pub open spec fn text_ok(t: SemanticModel) -> bool {
    t matches SemanticModel::Text(ps) ==> ps.len() > 0
}

/// Every paragraph token holds at least one paragraph.
pub open spec fn texts_nonempty(ts: Seq<SemanticModel>) -> bool {
    forall|i: int| 0 <= i < ts.len() ==> text_ok(#[trigger] ts[i])
}

proof fn lemma_flush_nonempty(out: Seq<SemanticModel>, buf: Seq<char>)
    requires
        texts_nonempty(out),
    ensures
        texts_nonempty(flush(out, buf)),
{
    let f = flush(out, buf);
    assert forall|i: int| 0 <= i < f.len() implies text_ok(#[trigger] f[i]) by {
        if i < out.len() {
            assert(f[i] == out[i]);
        }
    }
}

proof fn lemma_reduce_nonempty(
    s: Seq<char>,
    toks: Seq<Token>,
    i: int,
    buf: Seq<char>,
    out: Seq<SemanticModel>,
)
    requires
        texts_nonempty(out),
    ensures
        reduce_from(s, toks, i, buf, out) is Ok ==> texts_nonempty(reduce_from(s, toks, i, buf, out)->Ok_0),
    decreases toks.len() - i,
{
    lemma_flush_nonempty(out, buf);
    if 0 <= i < toks.len() {
        let t = toks[i];
        let text = s.subrange(t.start as int, t.end as int);
        if t.kind == TokenKind::Text {
            lemma_reduce_nonempty(s, toks, i + 1, buf + text, out);
        } else {
            match decode(t.kind, trim(text)) {
                Err(e) => {},
                Ok(Some(x)) => {
                    let f = flush(out, buf);
                    assert(x !is Text);
                    assert forall|j: int| 0 <= j < f.push(x).len() implies text_ok(
                        #[trigger] f.push(x)[j],
                    ) by {
                        if j < f.len() {
                            assert(f.push(x)[j] == f[j]);
                        }
                    }
                    lemma_reduce_nonempty(s, toks, i + 1, seq![], f.push(x));
                },
                Ok(None) => {
                    lemma_reduce_nonempty(s, toks, i + 1, seq![], flush(out, buf));
                },
            }
        }
    }
}

/// Paragraph tokens are never empty: a run of text that is all blank gives no token.
pub proof fn lemma_semantics_texts_nonempty(s: Seq<char>)
    ensures
        semantics_of(s) is Ok ==> texts_nonempty(semantics_of(s)->Ok_0),
{
    lemma_reduce_nonempty(s, tokens_of(s), 0, seq![], seq![]);
}

} // verus!
