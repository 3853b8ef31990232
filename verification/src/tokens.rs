//! The scanner: source text to tokens.

use crate::chars::{
    char_is_alphanumeric, char_is_whitespace, is_alphanumeric, is_whitespace, lemma_prefix_len,
    lemma_prefix_len_bounds, prefix_len,
};
use vstd::prelude::*;
use vstd::std_specs::iter::IteratorSpec;

verus! {

/// One lexical unit of a program.
#[derive(Debug, Eq, PartialEq)]
pub enum Token {
    /// A run of letters, digits and underscores. Whether it is a name or a
    /// number is decided by whoever reads it.
    Alphanum(String),
    OpenParen,
    CloseParen,
    OpenBracket,
    CloseBracket,
    OpenBrace,
    CloseBrace,
    Underscore,
    Semicolon,
    Comma,
    EqualSign,
}

/// A token as a mathematical value: the run's text is a sequence of
/// characters.
pub enum TokenView {
    Alphanum(Seq<char>),
    OpenParen,
    CloseParen,
    OpenBracket,
    CloseBracket,
    OpenBrace,
    CloseBrace,
    Underscore,
    Semicolon,
    Comma,
    EqualSign,
}

impl View for Token {
    type V = TokenView;

    open spec fn view(&self) -> TokenView {
        match self {
            Token::Alphanum(s) => TokenView::Alphanum(s@),
            Token::OpenParen => TokenView::OpenParen,
            Token::CloseParen => TokenView::CloseParen,
            Token::OpenBracket => TokenView::OpenBracket,
            Token::CloseBracket => TokenView::CloseBracket,
            Token::OpenBrace => TokenView::OpenBrace,
            Token::CloseBrace => TokenView::CloseBrace,
            Token::Underscore => TokenView::Underscore,
            Token::Semicolon => TokenView::Semicolon,
            Token::Comma => TokenView::Comma,
            Token::EqualSign => TokenView::EqualSign,
        }
    }
}

/// The views of a sequence of tokens, one for one.
pub open spec fn token_views(tokens: Seq<Token>) -> Seq<TokenView> {
    tokens.map_values(|t: Token| t@)
}

/// The text a token is written as.
pub open spec fn token_text(t: TokenView) -> Seq<char> {
    match t {
        TokenView::Alphanum(s) => s,
        TokenView::OpenParen => seq!['('],
        TokenView::CloseParen => seq![')'],
        TokenView::OpenBracket => seq!['['],
        TokenView::CloseBracket => seq![']'],
        TokenView::OpenBrace => seq!['{'],
        TokenView::CloseBrace => seq!['}'],
        TokenView::Underscore => seq!['_'],
        TokenView::Semicolon => seq![';'],
        TokenView::Comma => seq![','],
        TokenView::EqualSign => seq!['='],
    }
}

/// The name a token is reported under.
pub open spec fn token_name(t: TokenView) -> Seq<char> {
    match t {
        TokenView::Alphanum(s) => "Alphanum(\""@ + s + "\")"@,
        TokenView::OpenParen => "OpenParen"@,
        TokenView::CloseParen => "CloseParen"@,
        TokenView::OpenBracket => "OpenBracket"@,
        TokenView::CloseBracket => "CloseBracket"@,
        TokenView::OpenBrace => "OpenBrace"@,
        TokenView::CloseBrace => "CloseBrace"@,
        TokenView::Underscore => "Underscore"@,
        TokenView::Semicolon => "Semicolon"@,
        TokenView::Comma => "Comma"@,
        TokenView::EqualSign => "EqualSign"@,
    }
}

impl Token {
    /// Whether two tokens are the same: the same kind and, for runs, the
    /// same text.
    pub fn same(&self, other: &Token) -> (b: bool)
        ensures
            b == (self@ == other@),
    {
        match (self, other) {
            (Token::Alphanum(a), Token::Alphanum(b)) => {
                let eq = *a == *b;
                assert(eq == (a@ =~= b@));
                eq
            },
            (Token::OpenParen, Token::OpenParen) => true,
            (Token::CloseParen, Token::CloseParen) => true,
            (Token::OpenBracket, Token::OpenBracket) => true,
            (Token::CloseBracket, Token::CloseBracket) => true,
            (Token::OpenBrace, Token::OpenBrace) => true,
            (Token::CloseBrace, Token::CloseBrace) => true,
            (Token::Underscore, Token::Underscore) => true,
            (Token::Semicolon, Token::Semicolon) => true,
            (Token::Comma, Token::Comma) => true,
            (Token::EqualSign, Token::EqualSign) => true,
            _ => false,
        }
    }

    /// The name the token is reported under.
    pub fn name(&self) -> (s: String)
        ensures
            s@ == token_name(self@),
    {
        match self {
            Token::Alphanum(text) => {
                let mut s = String::from_str("Alphanum(\"");
                s.append(text.as_str());
                s.append("\")");
                s
            },
            Token::OpenParen => String::from_str("OpenParen"),
            Token::CloseParen => String::from_str("CloseParen"),
            Token::OpenBracket => String::from_str("OpenBracket"),
            Token::CloseBracket => String::from_str("CloseBracket"),
            Token::OpenBrace => String::from_str("OpenBrace"),
            Token::CloseBrace => String::from_str("CloseBrace"),
            Token::Underscore => String::from_str("Underscore"),
            Token::Semicolon => String::from_str("Semicolon"),
            Token::Comma => String::from_str("Comma"),
            Token::EqualSign => String::from_str("EqualSign"),
        }
    }

    /// The text the token is written as.
    pub fn to_string(&self) -> (s: String)
        ensures
            s@ == token_text(self@),
    {
        proof {
            reveal_strlit("(");
            reveal_strlit(")");
            reveal_strlit("[");
            reveal_strlit("]");
            reveal_strlit("{");
            reveal_strlit("}");
            reveal_strlit("_");
            reveal_strlit(";");
            reveal_strlit(",");
            reveal_strlit("=");
        }
        let s = match self {
            Token::Alphanum(text) => text.clone(),
            Token::OpenParen => String::from_str("("),
            Token::CloseParen => String::from_str(")"),
            Token::OpenBracket => String::from_str("["),
            Token::CloseBracket => String::from_str("]"),
            Token::OpenBrace => String::from_str("{"),
            Token::CloseBrace => String::from_str("}"),
            Token::Underscore => String::from_str("_"),
            Token::Semicolon => String::from_str(";"),
            Token::Comma => String::from_str(","),
            Token::EqualSign => String::from_str("="),
        };
        assert(s@ =~= token_text(self@));
        s
    }
}

/// The tokens after the first.
pub fn rest_of(tokens: &[Token]) -> (rest: &[Token])
    requires
        tokens@.len() > 0,
    ensures
        rest@ == tokens@.skip(1),
        token_views(rest@) == token_views(tokens@).skip(1),
{
    let rest = vstd::slice::slice_subrange(tokens, 1, tokens.len());
    assert(rest@ =~= tokens@.skip(1));
    assert(token_views(rest@) =~= token_views(tokens@).skip(1));
    rest
}

/// The token that a single character stands for outside a run, if any.
pub open spec fn punctuation(c: char) -> Option<TokenView> {
    if c == '(' {
        Some(TokenView::OpenParen)
    } else if c == ')' {
        Some(TokenView::CloseParen)
    } else if c == '[' {
        Some(TokenView::OpenBracket)
    } else if c == ']' {
        Some(TokenView::CloseBracket)
    } else if c == '{' {
        Some(TokenView::OpenBrace)
    } else if c == '}' {
        Some(TokenView::CloseBrace)
    } else if c == ';' {
        Some(TokenView::Semicolon)
    } else if c == '_' {
        Some(TokenView::Underscore)
    } else if c == ',' {
        Some(TokenView::Comma)
    } else if c == '=' {
        Some(TokenView::EqualSign)
    } else {
        None
    }
}

/// Whether `c` continues a run once one has begun.
pub open spec fn is_run_char(c: char) -> bool {
    is_alphanumeric(c) || c == '_'
}

/// `is_run_char` as a value.
pub open spec fn run_class() -> spec_fn(char) -> bool {
    |c: char| is_run_char(c)
}

/// The tokens `front` followed by the outcome `rest` of scanning what comes
/// after them; a failure in `rest` is the failure of the whole.
pub open spec fn scanned_then(front: Seq<TokenView>, rest: Result<Seq<TokenView>, char>) -> Result<
    Seq<TokenView>,
    char,
> {
    match rest {
        Ok(ts) => Ok(front + ts),
        Err(c) => Err(c),
    }
}

/// The tokens of `s`, or the first character that belongs to none.
///
/// White space separates tokens and is otherwise skipped. A letter or digit
/// opens a run, which extends over every following letter, digit and
/// underscore. Any other character is a token by itself or is invalid.
pub open spec fn scan_spec(s: Seq<char>) -> Result<Seq<TokenView>, char>
    decreases s.len(),
{
    if s.len() == 0 {
        Ok(Seq::empty())
    } else if is_whitespace(s[0]) {
        scan_spec(s.skip(1))
    } else if is_alphanumeric(s[0]) {
        let n = 1 + prefix_len(s.skip(1), run_class()) as int;
        proof {
            lemma_prefix_len_bounds(s.skip(1), run_class());
        }
        scanned_then(seq![TokenView::Alphanum(s.take(n))], scan_spec(s.skip(n)))
    } else {
        match punctuation(s[0]) {
            Some(t) => scanned_then(seq![t], scan_spec(s.skip(1))),
            None => Err(s[0]),
        }
    }
}

/// The message reported for a character that belongs to no token.
pub open spec fn invalid_character_message(c: char) -> Seq<char> {
    "Invalid character '"@.push(c).push('\'')
}

/// Whether `res` is what scanning returns when the tokens are `expected`.
pub open spec fn scan_agrees(res: Result<Vec<Token>, String>, expected: Result<Seq<TokenView>, char>) -> bool {
    match expected {
        Ok(ts) => res matches Ok(v) && token_views(v@) == ts,
        Err(c) => res matches Err(msg) && msg@ == invalid_character_message(c),
    }
}

/// Scanning a run: from its first character, a letter or digit, up to the
/// first character that does not continue it.
proof fn lemma_scan_run(src: Seq<char>, start: int, end: int)
    requires
        0 <= start < end <= src.len(),
        is_alphanumeric(src[start]),
        !is_whitespace(src[start]),
        forall|k: int| start < k < end ==> is_run_char(#[trigger] src[k]),
        end == src.len() || !is_run_char(src[end]),
    ensures
        scan_spec(src.skip(start)) == scanned_then(
            seq![TokenView::Alphanum(src.subrange(start, end))],
            scan_spec(src.skip(end)),
        ),
{
    let s = src.skip(start);
    let tail = s.skip(1);
    let n = end - start - 1;
    assert forall|k: int| 0 <= k < n implies run_class()(#[trigger] tail[k]) by {
        assert(tail[k] == src[start + 1 + k]);
    }
    if n < tail.len() {
        assert(tail[n] == src[end]);
    }
    lemma_prefix_len(tail, run_class(), n);
    assert(s.take(n + 1) =~= src.subrange(start, end));
    assert(s.skip(n + 1) =~= src.skip(end));
}

/// Scanning one character outside a run.
proof fn lemma_scan_step(src: Seq<char>, i: int)
    requires
        0 <= i < src.len(),
    ensures
        is_whitespace(src[i]) ==> scan_spec(src.skip(i)) == scan_spec(src.skip(i + 1)),
        !is_whitespace(src[i]) && !is_alphanumeric(src[i]) ==> scan_spec(src.skip(i)) == (match punctuation(
            src[i],
        ) {
            Some(t) => scanned_then(seq![t], scan_spec(src.skip(i + 1))),
            None => Err(src[i]),
        }),
{
    assert(src.skip(i).skip(1) =~= src.skip(i + 1));
}

/// The token that `c` stands for outside a run, if any.
fn punctuation_token(c: char) -> (t: Option<Token>)
    ensures
        match punctuation(c) {
            Some(v) => t matches Some(tok) && tok@ == v,
            None => t is None,
        },
{
    if c == '(' {
        Some(Token::OpenParen)
    } else if c == ')' {
        Some(Token::CloseParen)
    } else if c == '[' {
        Some(Token::OpenBracket)
    } else if c == ']' {
        Some(Token::CloseBracket)
    } else if c == '{' {
        Some(Token::OpenBrace)
    } else if c == '}' {
        Some(Token::CloseBrace)
    } else if c == ';' {
        Some(Token::Semicolon)
    } else if c == '_' {
        Some(Token::Underscore)
    } else if c == ',' {
        Some(Token::Comma)
    } else if c == '=' {
        Some(Token::EqualSign)
    } else {
        None
    }
}

/// The message for a character that belongs to no token.
fn invalid_character(c: char) -> (msg: String)
    ensures
        msg@ == invalid_character_message(c),
{
    let mut msg = String::from_str("Invalid character '");
    msg.push(c);
    msg.push('\'');
    msg
}

/// Splits `source_code` into tokens.
///
/// Fails on the first character that is neither white space, nor part of a
/// run, nor one of `( ) [ ] { } ; , _ =`, with a message that quotes it.
pub fn scan(source_code: &str) -> (res: Result<Vec<Token>, String>)
    ensures
        scan_agrees(res, scan_spec(source_code@)),
{
    let ghost src = source_code@;
    let mut tokens: Vec<Token> = Vec::new();
    let mut buffer = String::new();
    let mut in_run = false;
    let mut it = source_code.chars();
    let ghost i: int = 0;
    let ghost start: int = 0;
    assert(src.skip(0) =~= src);
    assert(token_views(tokens@) =~= Seq::empty());
    assert(Seq::<TokenView>::empty() + scan_spec(src)->Ok_0 =~= scan_spec(src)->Ok_0);
    loop
        invariant
            src == source_code@,
            it.obeys_prophetic_iter_laws(),
            0 <= start <= i <= src.len(),
            it.remaining() == src.skip(i),
            in_run ==> {
                &&& start < i
                &&& is_alphanumeric(src[start])
                &&& !is_whitespace(src[start])
                &&& buffer@ == src.subrange(start, i)
                &&& forall|k: int| start < k < i ==> is_run_char(#[trigger] src[k])
                &&& scan_spec(src) == scanned_then(token_views(tokens@), scan_spec(src.skip(start)))
            },
            !in_run ==> {
                &&& buffer@.len() == 0
                &&& scan_spec(src) == scanned_then(token_views(tokens@), scan_spec(src.skip(i)))
            },
        decreases src.len() - i,
    {
        match it.next() {
            None => {
                if in_run {
                    proof {
                        lemma_scan_run(src, start, i);
                        lemma_push_token(tokens@, Token::Alphanum(buffer), scan_spec(src.skip(i)));
                    }
                    tokens.push(Token::Alphanum(buffer));
                }
                assert(token_views(tokens@) + Seq::<TokenView>::empty() =~= token_views(tokens@));
                return Ok(tokens);
            },
            Some(ch) => {
                assert(ch == src[i]);
                let alphanumeric = char_is_alphanumeric(ch);
                if in_run && (alphanumeric || ch == '_') {
                    buffer.push(ch);
                    assert(buffer@ =~= src.subrange(start, i + 1));
                } else {
                    if in_run {
                        proof {
                            lemma_scan_run(src, start, i);
                            lemma_push_token(tokens@, Token::Alphanum(buffer), scan_spec(src.skip(i)));
                        }
                        tokens.push(Token::Alphanum(buffer));
                        buffer = String::new();
                        in_run = false;
                    }
                    proof {
                        lemma_scan_step(src, i);
                    }
                    if char_is_whitespace(ch) {
                    } else if alphanumeric {
                        buffer.push(ch);
                        in_run = true;
                        proof {
                            start = i;
                        }
                        assert(buffer@ =~= src.subrange(i, i + 1));
                    } else {
                        match punctuation_token(ch) {
                            Some(t) => {
                                proof {
                                    lemma_push_token(tokens@, t, scan_spec(src.skip(i + 1)));
                                }
                                tokens.push(t);
                            },
                            None => {
                                return Err(invalid_character(ch));
                            },
                        }
                    }
                }
                proof {
                    i = i + 1;
                }
            },
        }
    }
}

/// Appending a token to those already scanned.
proof fn lemma_push_token(done: Seq<Token>, t: Token, rest: Result<Seq<TokenView>, char>)
    ensures
        scanned_then(token_views(done), scanned_then(seq![t@], rest)) == scanned_then(
            token_views(done.push(t)),
            rest,
        ),
{
    assert(token_views(done.push(t)) =~= token_views(done) + seq![t@]);
    if let Ok(ts) = rest {
        assert(token_views(done) + (seq![t@] + ts) =~= token_views(done.push(t)) + ts);
    }
}

/// The text of the tokens `ts`, one after the other with nothing between
/// them.
pub open spec fn render(ts: Seq<TokenView>) -> Seq<char>
    decreases ts.len(),
{
    if ts.len() == 0 {
        Seq::empty()
    } else {
        token_text(ts[0]) + render(ts.skip(1))
    }
}

/// The text of the tokens `ts` with the texts `gaps` around them: `gaps[0]`
/// stands before the first token, `gaps[i + 1]` after the token `ts[i]`.
pub open spec fn render_spaced(ts: Seq<TokenView>, gaps: Seq<Seq<char>>) -> Seq<char>
    decreases ts.len(),
{
    if ts.len() == 0 {
        gaps[0]
    } else {
        gaps[0] + token_text(ts[0]) + render_spaced(ts.skip(1), gaps.skip(1))
    }
}

/// Whether `c` is not at once white space and a letter or digit. Within
/// ASCII no character is both. Beyond ASCII this crate knows the two
/// classes by name only, so the laws below ask it of the characters on
/// which the scanner's order of tests would show.
pub open spec fn kept_apart(c: char) -> bool {
    !(is_whitespace(c) && is_alphanumeric(c))
}

/// Whether `s` is the text of a run: it begins with a letter or digit, and
/// goes on with letters, digits and underscores.
pub open spec fn is_run_text(s: Seq<char>) -> bool {
    &&& s.len() > 0
    &&& is_alphanumeric(s[0])
    &&& forall|i: int| 1 <= i < s.len() ==> is_run_char(#[trigger] s[i])
}

/// Whether every run among `ts` has the text of a run, with a first
/// character that is not also white space.
pub open spec fn runs_well_formed(ts: Seq<TokenView>) -> bool {
    forall|i: int|
        0 <= i < ts.len() ==> ((#[trigger] ts[i]) matches TokenView::Alphanum(s) ==> is_run_text(s)
            && kept_apart(s[0]))
}

/// Whether `g` is white space and nothing else, of characters that are not
/// also letters or digits.
pub open spec fn is_gap(g: Seq<char>) -> bool {
    forall|i: int| 0 <= i < g.len() ==> is_whitespace(#[trigger] g[i]) && kept_apart(g[i])
}

/// Whether `gaps` are gaps around the tokens `ts`: one before each and one
/// after the last.
pub open spec fn gaps_around(ts: Seq<TokenView>, gaps: Seq<Seq<char>>) -> bool {
    &&& gaps.len() == ts.len() + 1
    &&& forall|i: int| 0 <= i < gaps.len() ==> is_gap(#[trigger] gaps[i])
}

/// Whether the text of `ts` can be told apart again: no run is followed at
/// once by another run or by an underscore, which its text would swallow.
pub open spec fn unambiguous(ts: Seq<TokenView>) -> bool {
    forall|i: int|
        0 <= i < ts.len() - 1 && (#[trigger] ts[i]) is Alphanum ==> !(ts[i + 1] is Alphanum) && !(ts[i
            + 1] is Underscore)
}

/// Whether the text of `ts` with `gaps` around them can be told apart
/// again: a run is followed by another run or by an underscore only across
/// a gap that is not empty.
pub open spec fn unambiguous_spaced(ts: Seq<TokenView>, gaps: Seq<Seq<char>>) -> bool {
    forall|i: int|
        0 <= i < ts.len() - 1 && (#[trigger] ts[i]) is Alphanum && gaps[i + 1].len() == 0 ==> !(ts[i
            + 1] is Alphanum) && !(ts[i + 1] is Underscore)
}

/// What scanning the text of one token followed by `rest` gives, where the
/// token is no run.
proof fn lemma_scan_punctuation(t: TokenView, rest: Seq<char>)
    requires
        !(t is Alphanum),
    ensures
        scan_spec(token_text(t) + rest) == scanned_then(seq![t], scan_spec(rest)),
        token_text(t).len() == 1,
        !is_run_char(token_text(t)[0]) || t is Underscore,
{
    let s = token_text(t) + rest;
    assert(s.skip(1) =~= rest);
    assert(s[0] == token_text(t)[0]);
}

/// White space before a text does not change what the text scans to.
proof fn lemma_scan_gap(gap: Seq<char>, rest: Seq<char>)
    requires
        is_gap(gap),
    ensures
        scan_spec(gap + rest) == scan_spec(rest),
    decreases gap.len(),
{
    if gap.len() == 0 {
        assert(gap + rest =~= rest);
    } else {
        let s = gap + rest;
        let tail = gap.skip(1);
        assert(s[0] == gap[0]);
        assert(s.skip(1) =~= tail + rest);
        assert forall|i: int| 0 <= i < tail.len() implies is_whitespace(#[trigger] tail[i])
            && kept_apart(tail[i]) by {
            assert(tail[i] == gap[i + 1]);
        }
        lemma_scan_gap(tail, rest);
    }
}

/// The first character of the text of tokens with gaps around them is no
/// part of a run, where the first gap is not empty or the first token is
/// neither a run nor an underscore.
proof fn lemma_spaced_begins(ts: Seq<TokenView>, gaps: Seq<Seq<char>>)
    requires
        gaps_around(ts, gaps),
        gaps[0].len() > 0 || (ts.len() > 0 && !(ts[0] is Alphanum) && !(ts[0] is Underscore)),
    ensures
        render_spaced(ts, gaps).len() > 0,
        !is_run_char(render_spaced(ts, gaps)[0]),
{
    let s = render_spaced(ts, gaps);
    if gaps[0].len() > 0 {
        assert(s[0] == gaps[0][0]);
        assert(is_whitespace(gaps[0][0]) && kept_apart(gaps[0][0]));
    } else {
        lemma_scan_punctuation(ts[0], Seq::empty());
        assert(s[0] == token_text(ts[0])[0]);
    }
}

/// Scanning undoes rendering, whatever white space stands between the
/// tokens: where every run among `ts` has the text of a run, and a run is
/// followed by a run or an underscore only across white space, the text of
/// `ts` with the gaps around them scans to `ts`.
pub proof fn lemma_scan_round_trip_spaced(ts: Seq<TokenView>, gaps: Seq<Seq<char>>)
    requires
        runs_well_formed(ts),
        gaps_around(ts, gaps),
        unambiguous_spaced(ts, gaps),
    ensures
        scan_spec(render_spaced(ts, gaps)) == Ok::<Seq<TokenView>, char>(ts),
    decreases ts.len(),
{
    if ts.len() == 0 {
        lemma_scan_gap(gaps[0], Seq::empty());
        assert(gaps[0] + Seq::<char>::empty() =~= gaps[0]);
        assert(ts =~= Seq::<TokenView>::empty());
    } else {
        let rest = ts.skip(1);
        let rest_gaps = gaps.skip(1);
        assert forall|i: int| 0 <= i < rest.len() implies ((#[trigger] rest[i]) matches TokenView::Alphanum(
            s,
        ) ==> is_run_text(s) && kept_apart(s[0])) by {
            assert(rest[i] == ts[i + 1]);
        }
        assert forall|i: int| 0 <= i < rest_gaps.len() implies is_gap(#[trigger] rest_gaps[i]) by {
            assert(rest_gaps[i] == gaps[i + 1]);
        }
        assert forall|i: int|
            0 <= i < rest.len() - 1 && (#[trigger] rest[i]) is Alphanum && rest_gaps[i + 1].len()
                == 0 implies !(rest[i + 1] is Alphanum) && !(rest[i + 1] is Underscore) by {
            assert(rest[i] == ts[i + 1]);
            assert(rest[i + 1] == ts[i + 2]);
            assert(rest_gaps[i + 1] == gaps[i + 2]);
        }
        lemma_scan_round_trip_spaced(rest, rest_gaps);
        let tail = render_spaced(rest, rest_gaps);
        let text = token_text(ts[0]) + tail;
        assert(render_spaced(ts, gaps) =~= gaps[0] + text);
        lemma_scan_gap(gaps[0], text);
        assert(seq![ts[0]] + rest =~= ts);
        match ts[0] {
            TokenView::Alphanum(run) => {
                let n = run.len() as int;
                assert(text.skip(0) =~= text);
                assert forall|k: int| 0 < k < n implies is_run_char(#[trigger] text[k]) by {
                    assert(text[k] == run[k]);
                }
                assert(text[0] == run[0]);
                if n < text.len() {
                    assert(rest_gaps[0] == gaps[1]);
                    if rest.len() > 0 {
                        assert(rest[0] == ts[1]);
                    } else {
                        assert(tail == rest_gaps[0]);
                    }
                    lemma_spaced_begins(rest, rest_gaps);
                    assert(text[n] == tail[0]);
                }
                lemma_scan_run(text, 0, n);
                assert(text.subrange(0, n) =~= run);
                assert(text.skip(n) =~= tail);
            },
            _ => {
                lemma_scan_punctuation(ts[0], tail);
            },
        }
    }
}

/// With nothing in the gaps, the text with gaps is the text.
proof fn lemma_render_without_gaps(ts: Seq<TokenView>, gaps: Seq<Seq<char>>)
    requires
        gaps.len() == ts.len() + 1,
        forall|i: int| 0 <= i < gaps.len() ==> (#[trigger] gaps[i]).len() == 0,
    ensures
        render_spaced(ts, gaps) == render(ts),
    decreases ts.len(),
{
    if ts.len() == 0 {
        assert(gaps[0] =~= Seq::<char>::empty());
    } else {
        let rest_gaps = gaps.skip(1);
        assert forall|i: int| 0 <= i < rest_gaps.len() implies (#[trigger] rest_gaps[i]).len() == 0 by {
            assert(rest_gaps[i] == gaps[i + 1]);
        }
        lemma_render_without_gaps(ts.skip(1), rest_gaps);
        assert(gaps[0] + token_text(ts[0]) =~= token_text(ts[0]));
    }
}

/// Scanning undoes rendering: where every run among `ts` has the text of a
/// run and no run is followed at once by a run or an underscore, the text of
/// `ts` scans to `ts`.
pub proof fn lemma_scan_round_trip(ts: Seq<TokenView>)
    requires
        runs_well_formed(ts),
        unambiguous(ts),
    ensures
        scan_spec(render(ts)) == Ok::<Seq<TokenView>, char>(ts),
{
    let gaps = Seq::new(ts.len() + 1, |i: int| Seq::<char>::empty());
    lemma_render_without_gaps(ts, gaps);
    lemma_scan_round_trip_spaced(ts, gaps);
}

/// Within ASCII the round trip needs no more than the shape of the text:
/// where every run among `ts` has the text of a run and begins with an
/// ASCII character, every gap is ASCII white space, and a run is followed by
/// a run or an underscore only across white space, the text of `ts` with the
/// gaps around them scans to `ts`.
pub proof fn lemma_scan_round_trip_ascii(ts: Seq<TokenView>, gaps: Seq<Seq<char>>)
    requires
        forall|i: int|
            0 <= i < ts.len() ==> ((#[trigger] ts[i]) matches TokenView::Alphanum(s) ==> is_run_text(s)
                && s[0] <= '\x7f'),
        gaps.len() == ts.len() + 1,
        forall|i: int, k: int|
            0 <= i < gaps.len() && 0 <= k < gaps[i].len() ==> is_whitespace(#[trigger] gaps[i][k])
                && gaps[i][k] <= '\x7f',
        unambiguous_spaced(ts, gaps),
    ensures
        scan_spec(render_spaced(ts, gaps)) == Ok::<Seq<TokenView>, char>(ts),
{
    assert forall|i: int| 0 <= i < gaps.len() implies is_gap(#[trigger] gaps[i]) by {
        let g = gaps[i];
        assert forall|k: int| 0 <= k < g.len() implies is_whitespace(#[trigger] g[k]) && kept_apart(
            g[k],
        ) by {
            assert(is_whitespace(gaps[i][k]) && gaps[i][k] <= '\x7f');
        }
    }
    lemma_scan_round_trip_spaced(ts, gaps);
}

/// What scanning gives scans again to the same tokens from their text,
/// where no run among them is followed at once by a run or an underscore.
pub proof fn lemma_rescan(s: Seq<char>)
    requires
        scan_spec(s) matches Ok(ts) && unambiguous(ts),
    ensures
        scan_spec(s) matches Ok(ts) && scan_spec(render(ts)) == Ok::<Seq<TokenView>, char>(ts),
{
    lemma_scan_runs_well_formed(s);
    lemma_scan_round_trip(scan_spec(s)->Ok_0);
}

/// Every run that scanning finds has the text of a run.
pub proof fn lemma_scan_runs_well_formed(s: Seq<char>)
    ensures
        scan_spec(s) matches Ok(ts) ==> runs_well_formed(ts),
    decreases s.len(),
{
    if s.len() == 0 {
    } else if is_whitespace(s[0]) {
        lemma_scan_runs_well_formed(s.skip(1));
    } else if is_alphanumeric(s[0]) {
        let tail = s.skip(1);
        lemma_prefix_len_bounds(tail, run_class());
        let n = 1 + prefix_len(tail, run_class()) as int;
        lemma_scan_runs_well_formed(s.skip(n));
        if let Ok(rest) = scan_spec(s.skip(n)) {
            let run = s.take(n);
            assert forall|i: int| 1 <= i < run.len() implies is_run_char(#[trigger] run[i]) by {
                assert(run[i] == tail[i - 1]);
                assert(run_class()(tail[i - 1]));
            }
            let ts = seq![TokenView::Alphanum(run)] + rest;
            assert forall|i: int| 0 <= i < ts.len() implies ((#[trigger] ts[i]) matches TokenView::Alphanum(
                r,
            ) ==> is_run_text(r) && kept_apart(r[0])) by {
                if i > 0 {
                    assert(ts[i] == rest[i - 1]);
                }
            }
        }
    } else {
        lemma_scan_runs_well_formed(s.skip(1));
        if let Some(t) = punctuation(s[0]) {
            if let Ok(rest) = scan_spec(s.skip(1)) {
                let ts = seq![t] + rest;
                assert forall|i: int| 0 <= i < ts.len() implies ((#[trigger] ts[i]) matches TokenView::Alphanum(
                    r,
                ) ==> is_run_text(r) && kept_apart(r[0])) by {
                    if i > 0 {
                        assert(ts[i] == rest[i - 1]);
                    }
                }
            }
        }
    }
}

/// Whether `c` can stand in a text that scans: white space, a letter, a
/// digit, or one of the punctuation characters.
pub open spec fn is_source_char(c: char) -> bool {
    is_whitespace(c) || is_alphanumeric(c) || punctuation(c) is Some
}

/// Whether `i` is the place of the first character of `s` that cannot stand
/// in a text that scans.
pub open spec fn first_stray(s: Seq<char>, i: int) -> bool {
    &&& 0 <= i < s.len()
    &&& !is_source_char(s[i])
    &&& forall|j: int| 0 <= j < i ==> is_source_char(#[trigger] s[j])
}

/// Scanning succeeds exactly on the texts in which every character can
/// stand, and else reports the first character that cannot.
pub proof fn lemma_scan_fails_at_first_stray(s: Seq<char>)
    ensures
        match scan_spec(s) {
            Ok(_) => forall|i: int| 0 <= i < s.len() ==> is_source_char(#[trigger] s[i]),
            Err(c) => exists|i: int| #[trigger] first_stray(s, i) && s[i] == c,
        },
    decreases s.len(),
{
    if s.len() == 0 {
    } else if is_whitespace(s[0]) || is_alphanumeric(s[0]) || punctuation(s[0]) is Some {
        let tail = s.skip(1);
        lemma_prefix_len_bounds(tail, run_class());
        let n: int = if !is_whitespace(s[0]) && is_alphanumeric(s[0]) {
            1 + prefix_len(tail, run_class()) as int
        } else {
            1
        };
        let rest = s.skip(n);
        lemma_scan_fails_at_first_stray(rest);
        assert forall|j: int| 0 <= j < n implies is_source_char(#[trigger] s[j]) by {
            if j > 0 {
                assert(s[j] == tail[j - 1]);
                assert(run_class()(tail[j - 1]));
            }
        }
        match scan_spec(rest) {
            Ok(_) => {
                assert forall|i: int| 0 <= i < s.len() implies is_source_char(#[trigger] s[i]) by {
                    if i >= n {
                        assert(s[i] == rest[i - n]);
                    }
                }
            },
            Err(c) => {
                let k = choose|k: int| #[trigger] first_stray(rest, k) && rest[k] == c;
                assert forall|j: int| 0 <= j < n + k implies is_source_char(#[trigger] s[j]) by {
                    if j >= n {
                        assert(s[j] == rest[j - n]);
                    }
                }
                assert(first_stray(s, n + k));
            },
        }
    } else {
        assert(first_stray(s, 0));
    }
}

/// `!is_whitespace` as a value.
pub open spec fn not_whitespace() -> spec_fn(char) -> bool {
    |c: char| !is_whitespace(c)
}

/// The text `s` without its white space.
pub open spec fn without_whitespace(s: Seq<char>) -> Seq<char> {
    s.filter(not_whitespace())
}

/// A text that holds no white space is itself without its white space.
proof fn lemma_nothing_to_drop(s: Seq<char>)
    requires
        forall|i: int| 0 <= i < s.len() ==> !is_whitespace(#[trigger] s[i]),
    ensures
        without_whitespace(s) == s,
    decreases s.len(),
{
    reveal(Seq::filter);
    if s.len() > 0 {
        lemma_nothing_to_drop(s.drop_last());
        assert(s.drop_last().push(s.last()) =~= s);
    }
}

/// Scanning loses white space and nothing else: the texts of the tokens of
/// `s`, one after the other, are `s` without its white space. This is asked
/// of texts in which no character is at once white space and a letter or
/// digit.
pub proof fn lemma_scan_keeps_text(s: Seq<char>)
    requires
        forall|i: int| 0 <= i < s.len() ==> kept_apart(#[trigger] s[i]),
    ensures
        scan_spec(s) matches Ok(ts) ==> render(ts) == without_whitespace(s),
    decreases s.len(),
{
    reveal(Seq::filter);
    if s.len() > 0 && scan_spec(s) is Ok {
        let tail = s.skip(1);
        lemma_prefix_len_bounds(tail, run_class());
        let n: int = if !is_whitespace(s[0]) && is_alphanumeric(s[0]) {
            1 + prefix_len(tail, run_class()) as int
        } else {
            1
        };
        let head = s.take(n);
        let rest = s.skip(n);
        assert(s =~= head + rest);
        Seq::filter_distributes_over_add(head, rest, not_whitespace());
        assert forall|i: int| 0 <= i < rest.len() implies kept_apart(#[trigger] rest[i]) by {
            assert(rest[i] == s[i + n]);
        }
        lemma_scan_keeps_text(rest);
        let ts = scan_spec(s)->Ok_0;
        if is_whitespace(s[0]) {
            assert(head.drop_last().filter(not_whitespace()) =~= Seq::<char>::empty());
            assert(!not_whitespace()(head.last()));
            assert(without_whitespace(head) =~= Seq::<char>::empty());
            assert(render(ts) =~= without_whitespace(s));
        } else {
            assert forall|j: int| 0 <= j < head.len() implies !is_whitespace(#[trigger] head[j]) by {
                assert(head[j] == s[j]);
                if j > 0 {
                    assert(s[j] == tail[j - 1]);
                    assert(run_class()(tail[j - 1]));
                    assert(kept_apart(s[j]));
                }
            }
            lemma_nothing_to_drop(head);
            assert(ts.skip(1) =~= scan_spec(rest)->Ok_0);
            assert(token_text(ts[0]) =~= head);
            assert(render(ts) =~= without_whitespace(s));
        }
    }
}

} // verus!
