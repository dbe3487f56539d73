//! How the text of a literal falls apart into tokens.
//!
//! Splitting text into tokens is the work of the tokenizer that grammars are
//! written for; this module asks it and draws the conclusions. What the
//! tokenizer says may differ from process to process, so every conclusion is
//! drawn from an answer that was got once and is handed on.

use crate::error::{texts, GrammarError, GrammarErrorView, LiteralIssue};
use crate::lexicon::{covers_pattern, scan_pattern};
use crate::model::{ModelPattern, StringLiteral};
use vstd::prelude::*;

verus! {

/// One token of a literal, as the tokenizer sees it.
#[derive(Debug)]
pub enum LexToken {
    /// A word.
    Ident(String),
    /// A single punctuation character.
    Punct(String),
    /// A delimited group.
    Group,
    /// A literal inside the literal.
    Literal,
}

/// The mathematical content of a [`LexToken`].
pub enum LexTokenView {
    Ident(Seq<char>),
    Punct(Seq<char>),
    Group,
    Literal,
}

impl View for LexToken {
    type V = LexTokenView;

    open spec fn view(&self) -> LexTokenView {
        match *self {
            LexToken::Ident(s) => LexTokenView::Ident(s@),
            LexToken::Punct(s) => LexTokenView::Punct(s@),
            LexToken::Group => LexTokenView::Group,
            LexToken::Literal => LexTokenView::Literal,
        }
    }
}

/// Whether `c` is a numeric character in the sense of the standard library.
pub uninterp spec fn numeric_char(c: char) -> bool;

/// Runs `syn::parse_str::<proc_macro2::TokenStream>` on `text` and hands out
/// the token trees of the stream one by one, words and punctuation with their
/// text. Which tokenizer answers depends on the process, so nothing is
/// claimed of what comes back.
#[verifier::external_body]
pub(crate) fn lex(text: &str) -> (r: Option<Vec<LexToken>>) {
    let stream = syn::parse_str::<proc_macro2::TokenStream>(text).ok()?;
    Some(stream.into_iter().map(|tree| match tree {
        proc_macro2::TokenTree::Ident(word) => LexToken::Ident(word.to_string()),
        proc_macro2::TokenTree::Punct(punct) => LexToken::Punct(punct.as_char().to_string()),
        proc_macro2::TokenTree::Group(_) => LexToken::Group,
        proc_macro2::TokenTree::Literal(_) => LexToken::Literal,
    }).collect())
}

/// Asks `syn::parse_str::<syn::Ident>` whether `text` is an identifier; it
/// turns down reserved words and `_`. Nothing is claimed of the answer.
#[verifier::external_body]
pub(crate) fn is_identifier(text: &str) -> (b: bool) {
    syn::parse_str::<syn::Ident>(text).is_ok()
}

/// Asks `syn::parse_str::<syn::Type>` whether `text` is a type. Nothing is
/// claimed of the answer.
#[verifier::external_body]
pub(crate) fn parses_as_type(text: &str) -> (b: bool) {
    syn::parse_str::<syn::Type>(text).is_ok()
}

/// Asks `char::is_numeric` of the standard library whether `c` is numeric.
/// Nothing is claimed but that the answer depends on `c` alone.
#[verifier::external_body]
pub(crate) fn is_numeric(c: char) -> (b: bool)
    ensures
        b == numeric_char(c),
{
    c.is_numeric()
}

/// The text of the type that stands for the token `text`.
pub open spec fn token_type_text(text: Seq<char>) -> Seq<char> {
    "Token!["@ + text + "]"@
}

/// Writes the type that stands for the token `text`.
pub fn write_token_type(text: &str) -> (s: String)
    ensures
        s@ == token_type_text(text@),
{
    let mut s = String::from_str("Token![");
    s.append(text);
    s.append("]");
    s
}

/// One token of a literal together with what the tokenizer said of it when
/// it was asked: whether the token by itself is an identifier, and whether
/// the type that stands for the token is a type. A question that was not
/// asked counts as answered with no.
#[derive(Debug)]
pub struct ScannedToken {
    pub token: LexToken,
    pub is_identifier: bool,
    pub is_token: bool,
}

/// The mathematical content of a [`ScannedToken`].
pub struct ScannedTokenView {
    pub token: LexTokenView,
    pub is_identifier: bool,
    pub is_token: bool,
}

impl View for ScannedToken {
    type V = ScannedTokenView;

    open spec fn view(&self) -> ScannedTokenView {
        ScannedTokenView {
            token: self.token@,
            is_identifier: self.is_identifier,
            is_token: self.is_token,
        }
    }
}

/// The contents of a list of scanned tokens.
pub open spec fn scan_views(tokens: Seq<ScannedToken>) -> Seq<ScannedTokenView> {
    Seq::new(tokens.len(), |i: int| tokens[i]@)
}

/// The contents of the tokens of a literal, where the tokenizer gave any.
pub open spec fn scanned_views(tokens: Option<Vec<ScannedToken>>) -> Option<Seq<ScannedTokenView>> {
    match tokens {
        Some(list) => Some(scan_views(list@)),
        None => None,
    }
}

/// What the tokenizer gave for one text: its tokens with the answers about
/// them, or nothing where it turned the text down.
#[derive(Debug)]
pub struct Scan {
    pub text: String,
    pub tokens: Option<Vec<ScannedToken>>,
}

/// The mathematical content of a [`Scan`].
pub struct ScanView {
    pub text: Seq<char>,
    pub tokens: Option<Seq<ScannedTokenView>>,
}

impl View for Scan {
    type V = ScanView;

    open spec fn view(&self) -> ScanView {
        ScanView { text: self.text@, tokens: scanned_views(self.tokens) }
    }
}

/// The contents of a list of scans.
pub open spec fn lexicon_view(lexicon: Seq<Scan>) -> Seq<ScanView> {
    Seq::new(lexicon.len(), |i: int| lexicon[i]@)
}

/// The first scan of `text` in `lexicon` from position `i` on.
pub open spec fn looked_up(lexicon: Seq<ScanView>, text: Seq<char>, i: nat) -> Option<ScanView>
    decreases lexicon.len() - i,
{
    if i >= lexicon.len() {
        None
    } else if lexicon[i as int].text == text {
        Some(lexicon[i as int])
    } else {
        looked_up(lexicon, text, i + 1)
    }
}

/// The tokens that `lexicon` holds for `text`: those of its first scan of
/// the text, and none where it holds no scan of the text or the tokenizer
/// turned the text down.
pub open spec fn scanned_tokens(lexicon: Seq<ScanView>, text: Seq<char>) -> Option<
    Seq<ScannedTokenView>,
> {
    match looked_up(lexicon, text, 0) {
        Some(scan) => scan.tokens,
        None => None,
    }
}

/// Finds the first scan of `text` in `lexicon`.
pub fn look_up<'a>(lexicon: &'a Vec<Scan>, text: &str) -> (r: Option<&'a Scan>)
    ensures
        match r {
            Some(scan) => looked_up(lexicon_view(lexicon@), text@, 0) == Some(scan@),
            None => looked_up(lexicon_view(lexicon@), text@, 0) is None,
        },
{
    let wanted = String::from_str(text);
    let mut i: usize = 0;
    while i < lexicon.len()
        invariant
            i <= lexicon@.len(),
            wanted@ == text@,
            looked_up(lexicon_view(lexicon@), text@, 0) == looked_up(
                lexicon_view(lexicon@),
                text@,
                i as nat,
            ),
        decreases lexicon@.len() - i,
    {
        assert(lexicon_view(lexicon@)[i as int] == lexicon@[i as int]@);
        if lexicon[i].text == wanted {
            return Some(&lexicon[i]);
        }
        i += 1;
    }
    None
}

/// No more is recorded of the token than was asked: only a word can be an
/// identifier, and only a word or punctuation can have a token type.
pub open spec fn plainly_scanned(t: ScannedTokenView) -> bool {
    match t.token {
        LexTokenView::Ident(_) => true,
        LexTokenView::Punct(_) => !t.is_identifier,
        _ => !t.is_identifier && !t.is_token,
    }
}

/// Has the tokenizer split `text` into tokens and asks it about each: about
/// a word whether it is an identifier and whether its token type is a type,
/// about punctuation whether its token type is a type. What comes back is
/// whatever the tokenizer of this process says; of a token that it was not
/// asked about, the answers recorded are no.
pub fn scan_literal(text: &str) -> (scan: Scan)
    ensures
        scan@.text == text@,
        scan@.tokens matches Some(tokens) ==> forall|k: int|
            0 <= k < tokens.len() ==> plainly_scanned(#[trigger] tokens[k]),
{
    let tokens = match lex(text) {
        None => None,
        Some(tokens) => {
            let mut scanned: Vec<ScannedToken> = Vec::new();
            let mut rest = tokens;
            let mut i: usize = 0;
            let n = rest.len();
            while i < n
                invariant
                    i <= n,
                    rest@.len() == n - i,
                    forall|k: int|
                        0 <= k < scanned@.len() ==> plainly_scanned((#[trigger] scanned@[k])@),
                decreases n - i,
            {
                let token = rest.remove(0);
                let entry = match token {
                    LexToken::Ident(word) => {
                        let is_identifier = is_identifier(word.as_str());
                        let is_token = parses_as_type(write_token_type(word.as_str()).as_str());
                        ScannedToken { token: LexToken::Ident(word), is_identifier, is_token }
                    },
                    LexToken::Punct(c) => {
                        let is_token = parses_as_type(write_token_type(c.as_str()).as_str());
                        ScannedToken { token: LexToken::Punct(c), is_identifier: false, is_token }
                    },
                    other => ScannedToken { token: other, is_identifier: false, is_token: false },
                };
                scanned.push(entry);
                i += 1;
            }
            Some(scanned)
        },
    };
    Scan { text: String::from_str(text), tokens }
}

/// What a token of a literal is parsed as.
#[derive(Debug)]
pub enum TokenType {
    /// A keyword that the grammar brings along itself.
    Keyword(String),
    /// A token that the tokenizer knows: punctuation or a reserved word.
    Token(String),
}

/// The mathematical content of a [`TokenType`].
pub enum TokenTypeView {
    Keyword(Seq<char>),
    Token(Seq<char>),
}

impl View for TokenType {
    type V = TokenTypeView;

    open spec fn view(&self) -> TokenTypeView {
        match *self {
            TokenType::Keyword(s) => TokenTypeView::Keyword(s@),
            TokenType::Token(s) => TokenTypeView::Token(s@),
        }
    }
}

/// The contents of a list of token types.
pub open spec fn type_views(types: Seq<TokenType>) -> Seq<TokenTypeView> {
    Seq::new(types.len(), |i: int| types[i]@)
}

/// The complaint about a literal at `lit_span`.
pub open spec fn complaint(
    issue: LiteralIssue,
    text: Seq<char>,
    lit: StringLiteral,
) -> GrammarErrorView {
    GrammarErrorView::Literal { issue, text, span: lit.span }
}

/// What one token of the literal `lit` is parsed as: a word as a custom
/// keyword where it is one, else as a token of the tokenizer where its token
/// type is a type; punctuation as such a token under the same condition;
/// anything else not at all.
pub open spec fn token_verdict(
    t: ScannedTokenView,
    keywords: Seq<Seq<char>>,
    lit: StringLiteral,
) -> Result<
    TokenTypeView,
    GrammarErrorView,
> {
    match t.token {
        LexTokenView::Punct(c) => if t.is_token {
            Ok(TokenTypeView::Token(c))
        } else {
            Err(complaint(LiteralIssue::Punctuation, c, lit))
        },
        LexTokenView::Ident(s) => if keywords.contains(s) {
            Ok(TokenTypeView::Keyword(s))
        } else if t.is_token {
            Ok(TokenTypeView::Token(s))
        } else {
            Err(complaint(LiteralIssue::Identifier, s, lit))
        },
        LexTokenView::Group => Err(complaint(LiteralIssue::TokenTree, lit@, lit)),
        LexTokenView::Literal => Err(complaint(LiteralIssue::TokenTree, lit@, lit)),
    }
}

/// What the first `n` tokens are parsed as, or the complaint about the first
/// of them that cannot be parsed.
pub open spec fn tokens_verdict(
    tokens: Seq<ScannedTokenView>,
    keywords: Seq<Seq<char>>,
    lit: StringLiteral,
    n: nat,
) -> Result<Seq<TokenTypeView>, GrammarErrorView>
    decreases n,
{
    if n == 0 || n > tokens.len() {
        Ok(Seq::empty())
    } else {
        match tokens_verdict(tokens, keywords, lit, (n - 1) as nat) {
            Err(e) => Err(e),
            Ok(types) => match token_verdict(tokens[n - 1], keywords, lit) {
                Ok(t) => Ok(types.push(t)),
                Err(e) => Err(e),
            },
        }
    }
}

/// The text is one of the six delimiters.
pub open spec fn is_delimiter_text(text: Seq<char>) -> bool {
    text == "("@ || text == ")"@ || text == "["@ || text == "]"@ || text == "{"@ || text == "}"@
}

/// The token types that the literal `lit` is parsed as, where the tokenizer
/// gave `scanned` for its text.
///
/// A literal that is a custom keyword is that keyword. A lone delimiter, a
/// boolean, a text that starts with a digit, a text that the tokenizer turned
/// down and an empty token sequence are refused, in this order; else every
/// token is judged in turn.
pub open spec fn literal_verdict(
    lit: StringLiteral,
    keywords: Seq<Seq<char>>,
    scanned: Option<Seq<ScannedTokenView>>,
) -> Result<Seq<TokenTypeView>, GrammarErrorView> {
    let text = lit@;
    if keywords.contains(text) {
        Ok(seq![TokenTypeView::Keyword(text)])
    } else if is_delimiter_text(text) {
        Err(complaint(LiteralIssue::Delimiter, text, lit))
    } else if text == "true"@ || text == "false"@ {
        Err(complaint(LiteralIssue::Boolean, text, lit))
    } else if text.len() > 0 && numeric_char(text[0]) {
        Err(complaint(LiteralIssue::Numeric, text, lit))
    } else {
        match scanned {
            None => Err(complaint(LiteralIssue::Unlexable, text, lit)),
            Some(tokens) => nonempty_verdict(
                tokens_verdict(tokens, keywords, lit, tokens.len()),
                lit,
            ),
        }
    }
}

/// The verdict `v` on the tokens of `lit`, with an empty list of tokens turned down.
pub open spec fn nonempty_verdict(
    v: Result<Seq<TokenTypeView>, GrammarErrorView>,
    lit: StringLiteral,
) -> Result<
    Seq<TokenTypeView>,
    GrammarErrorView,
> {
    match v {
        Err(e) => Err(e),
        Ok(types) => if types.len() == 0 {
            Err(complaint(LiteralIssue::Empty, lit@, lit))
        } else {
            Ok(types)
        },
    }
}

/// Tells whether one of `list` has the text of `s`.
pub fn contains_text(list: &Vec<String>, s: &str) -> (b: bool)
    ensures
        b == texts(list@).contains(s@),
{
    let wanted = String::from_str(s);
    let mut i: usize = 0;
    while i < list.len()
        invariant
            i <= list@.len(),
            wanted@ == s@,
            forall|k: int| 0 <= k < i ==> (#[trigger] texts(list@)[k]) != s@,
        decreases list@.len() - i,
    {
        if list[i] == wanted {
            assert(texts(list@)[i as int] == s@);
            return true;
        }
        i += 1;
    }
    false
}

fn text_is(s: &String, wanted: &str) -> (b: bool)
    ensures
        b == (s@ == wanted@),
{
    *s == String::from_str(wanted)
}

fn literal_error(issue: LiteralIssue, text: &String, lit: &StringLiteral) -> (e: GrammarError)
    ensures
        e@ == complaint(issue, text@, *lit),
{
    GrammarError::Literal { issue, text: text.clone(), span: lit.span }
}

/// Turns a literal into the token types that it is parsed as, given what
/// the tokenizer gave for its text; see [`literal_verdict`] for what is
/// accepted and what each refusal says.
pub fn resolve_scanned(
    lit: &StringLiteral,
    custom_keywords: &Vec<String>,
    scanned: &Option<Vec<ScannedToken>>,
) -> (r: Result<Vec<TokenType>, GrammarError>)
    ensures
        match r {
            Ok(types) => literal_verdict(*lit, texts(custom_keywords@), scanned_views(*scanned))
                == Ok::<Seq<TokenTypeView>, GrammarErrorView>(type_views(types@)),
            Err(e) => literal_verdict(*lit, texts(custom_keywords@), scanned_views(*scanned))
                == Err::<Seq<TokenTypeView>, GrammarErrorView>(e@),
        },
{
    let ghost keywords = texts(custom_keywords@);
    let s = &lit.value;
    if contains_text(custom_keywords, s.as_str()) {
        let mut types: Vec<TokenType> = Vec::new();
        types.push(TokenType::Keyword(s.clone()));
        assert(type_views(types@) =~= seq![TokenTypeView::Keyword(lit@)]);
        return Ok(types);
    }
    if text_is(s, "(") || text_is(s, ")") || text_is(s, "[") || text_is(s, "]") || text_is(s, "{")
        || text_is(s, "}") {
        return Err(literal_error(LiteralIssue::Delimiter, s, lit));
    }
    if text_is(s, "true") || text_is(s, "false") {
        return Err(literal_error(LiteralIssue::Boolean, s, lit));
    }
    if s.as_str().unicode_len() > 0 && is_numeric(s.as_str().get_char(0)) {
        return Err(literal_error(LiteralIssue::Numeric, s, lit));
    }
    let tokens = match scanned {
        Some(tokens) => tokens,
        None => {
            return Err(literal_error(LiteralIssue::Unlexable, s, lit));
        },
    };
    let ghost views = scan_views(tokens@);
    let mut types: Vec<TokenType> = Vec::new();
    let mut i: usize = 0;
    assert(type_views(types@) =~= Seq::empty());
    while i < tokens.len()
        invariant
            i <= tokens@.len(),
            views == scan_views(tokens@),
            scanned_views(*scanned) == Some(views),
            keywords == texts(custom_keywords@),
            types@.len() == i,
            s@ == lit@,
            literal_verdict(*lit, keywords, Some(views)) == nonempty_verdict(
                tokens_verdict(views, keywords, *lit, views.len()),
                *lit,
            ),
            tokens_verdict(views, keywords, *lit, i as nat) == Ok::<
                Seq<TokenTypeView>,
                GrammarErrorView,
            >(type_views(types@)),
        decreases tokens@.len() - i,
    {
        let ghost before = type_views(types@);
        assert(views[i as int] == tokens@[i as int]@);
        let scanned_token = &tokens[i];
        match &scanned_token.token {
            LexToken::Punct(c) => {
                if !scanned_token.is_token {
                    proof {
                        lemma_verdict_stops(views, keywords, *lit, (i + 1) as nat);
                    }
                    return Err(literal_error(LiteralIssue::Punctuation, c, lit));
                }
                types.push(TokenType::Token(c.clone()));
            },
            LexToken::Ident(word) => {
                if contains_text(custom_keywords, word.as_str()) {
                    types.push(TokenType::Keyword(word.clone()));
                } else if scanned_token.is_token {
                    types.push(TokenType::Token(word.clone()));
                } else {
                    proof {
                        lemma_verdict_stops(views, keywords, *lit, (i + 1) as nat);
                    }
                    return Err(literal_error(LiteralIssue::Identifier, word, lit));
                }
            },
            _ => {
                proof {
                    lemma_verdict_stops(views, keywords, *lit, (i + 1) as nat);
                }
                return Err(literal_error(LiteralIssue::TokenTree, s, lit));
            },
        }
        assert(type_views(types@) =~= before.push(types@[i as int]@));
        i += 1;
    }
    if types.len() == 0 {
        return Err(literal_error(LiteralIssue::Empty, s, lit));
    }
    Ok(types)
}

/// Turns a literal into the token types that it is parsed as, given a
/// lexicon: what [`resolve_scanned`] gives for the tokens that the lexicon
/// holds for the text of the literal.
pub fn resolve_with(lit: &StringLiteral, custom_keywords: &Vec<String>, lexicon: &Vec<Scan>) -> (r:
    Result<Vec<TokenType>, GrammarError>)
    ensures
        match r {
            Ok(types) => literal_verdict(
                *lit,
                texts(custom_keywords@),
                scanned_tokens(lexicon_view(lexicon@), lit@),
            ) == Ok::<Seq<TokenTypeView>, GrammarErrorView>(type_views(types@)),
            Err(e) => literal_verdict(
                *lit,
                texts(custom_keywords@),
                scanned_tokens(lexicon_view(lexicon@), lit@),
            ) == Err::<Seq<TokenTypeView>, GrammarErrorView>(e@),
        },
{
    match look_up(lexicon, lit.value.as_str()) {
        Some(scan) => resolve_scanned(lit, custom_keywords, &scan.tokens),
        None => resolve_scanned(lit, custom_keywords, &None),
    }
}

/// Has the tokenizer scan the literal and turns it into the token types that
/// it is parsed as: the result is what [`literal_verdict`] gives for whatever
/// the tokenizer gave.
pub fn resolve_token_types(lit: &StringLiteral, custom_keywords: &Vec<String>) -> (r: Result<
    Vec<TokenType>,
    GrammarError,
>)
    ensures
        exists|scanned: Option<Seq<ScannedTokenView>>|
            match r {
                Ok(types) => #[trigger] literal_verdict(*lit, texts(custom_keywords@), scanned)
                    == Ok::<Seq<TokenTypeView>, GrammarErrorView>(type_views(types@)),
                Err(e) => literal_verdict(*lit, texts(custom_keywords@), scanned) == Err::<
                    Seq<TokenTypeView>,
                    GrammarErrorView,
                >(e@),
            },
{
    let scan = scan_literal(lit.value.as_str());
    let r = resolve_scanned(lit, custom_keywords, &scan.tokens);
    proof {
        let scanned = scanned_views(scan.tokens);
        assert(match r {
            Ok(types) => literal_verdict(*lit, texts(custom_keywords@), scanned) == Ok::<
                Seq<TokenTypeView>,
                GrammarErrorView,
            >(type_views(types@)),
            Err(e) => literal_verdict(*lit, texts(custom_keywords@), scanned) == Err::<
                Seq<TokenTypeView>,
                GrammarErrorView,
            >(e@),
        });
    }
    r
}

proof fn lemma_verdict_stops(
    tokens: Seq<ScannedTokenView>,
    keywords: Seq<Seq<char>>,
    lit: StringLiteral,
    n: nat,
)
    requires
        n <= tokens.len(),
        tokens_verdict(tokens, keywords, lit, n) is Err,
    ensures
        tokens_verdict(tokens, keywords, lit, tokens.len()) == tokens_verdict(
            tokens,
            keywords,
            lit,
            n,
        ),
    decreases tokens.len() - n,
{
    if n < tokens.len() {
        lemma_verdict_stops(tokens, keywords, lit, n + 1);
    }
}

/// What to look for in the input before a pattern is tried.
#[derive(Debug)]
pub enum PeekToken {
    /// The first token of a literal.
    Token(TokenType),
    /// An opening `[`.
    Bracket,
    /// An opening `{`.
    Brace,
    /// An opening `(`.
    Paren,
}

/// The mathematical content of a [`PeekToken`].
pub enum PeekTokenView {
    Token(TokenTypeView),
    Bracket,
    Brace,
    Paren,
}

impl View for PeekToken {
    type V = PeekTokenView;

    open spec fn view(&self) -> PeekTokenView {
        match *self {
            PeekToken::Token(t) => PeekTokenView::Token(t@),
            PeekToken::Bracket => PeekTokenView::Bracket,
            PeekToken::Brace => PeekTokenView::Brace,
            PeekToken::Paren => PeekTokenView::Paren,
        }
    }
}

/// The token that a match of `p` must begin with, where `p` alone decides it:
/// the first token of a literal, the opening delimiter of a delimited region,
/// and for a pattern wrapped around a single other the token of that one. A
/// literal that cannot be parsed is an error. The tokens of a literal are
/// those that `lexicon` holds for its text.
pub open spec fn simple_peek(
    p: ModelPattern,
    keywords: Seq<Seq<char>>,
    lexicon: Seq<ScanView>,
) -> Result<Option<PeekTokenView>, GrammarErrorView>
    decreases p,
{
    match p {
        ModelPattern::Lit(lit) => match literal_verdict(
            lit,
            keywords,
            scanned_tokens(lexicon, lit@),
        ) {
            Ok(types) => Ok(Some(PeekTokenView::Token(types[0]))),
            Err(e) => Err(e),
        },
        ModelPattern::Bracketed(_, _) => Ok(Some(PeekTokenView::Bracket)),
        ModelPattern::Braced(_, _) => Ok(Some(PeekTokenView::Brace)),
        ModelPattern::Parenthesized(_, _) => Ok(Some(PeekTokenView::Paren)),
        ModelPattern::Optional(inner, _) => simple_peek(*inner, keywords, lexicon),
        ModelPattern::Repeat(inner, _) => simple_peek(*inner, keywords, lexicon),
        ModelPattern::Plus(inner, _) => simple_peek(*inner, keywords, lexicon),
        ModelPattern::SpanBinding(inner, _, _) => simple_peek(*inner, keywords, lexicon),
        ModelPattern::Recover { body, .. } => simple_peek(*body, keywords, lexicon),
        ModelPattern::Group(alts, _) => if alts@.len() == 1 && alts@[0]@.len() > 0 {
            simple_peek(alts@[0]@[0], keywords, lexicon)
        } else {
            Ok(None)
        },
        ModelPattern::Peek(inner, _) => simple_peek(*inner, keywords, lexicon),
        ModelPattern::Not(_, _) => Ok(None),
        ModelPattern::Cut(_) => Ok(None),
        ModelPattern::RuleCall { .. } => Ok(None),
    }
}

/// `r` is the outcome `expected` of looking for a first token.
pub open spec fn peek_is(
    r: Result<Option<PeekToken>, GrammarError>,
    expected: Result<Option<PeekTokenView>, GrammarErrorView>,
) -> bool {
    match r {
        Ok(Some(t)) => expected == Ok::<Option<PeekTokenView>, GrammarErrorView>(Some(t@)),
        Ok(None) => expected == Ok::<Option<PeekTokenView>, GrammarErrorView>(None),
        Err(e) => expected == Err::<Option<PeekTokenView>, GrammarErrorView>(e@),
    }
}

/// Finds the token to look for before `pattern` is tried, given a lexicon;
/// see [`simple_peek`].
pub fn peek_with(pattern: &ModelPattern, kws: &Vec<String>, lexicon: &Vec<Scan>) -> (r: Result<
    Option<PeekToken>,
    GrammarError,
>)
    ensures
        peek_is(r, simple_peek(*pattern, texts(kws@), lexicon_view(lexicon@))),
    decreases pattern,
{
    match pattern {
        ModelPattern::Lit(lit) => {
            match resolve_with(lit, kws, lexicon) {
                Ok(mut token_types) => {
                    assert(type_views(token_types@).len() > 0);
                    let ghost firstview = type_views(token_types@)[0];
                    let first = token_types.remove(0);
                    assert(first@ == firstview);
                    Ok(Some(PeekToken::Token(first)))
                },
                Err(e) => Err(e),
            }
        },
        ModelPattern::Bracketed(_, _) => Ok(Some(PeekToken::Bracket)),
        ModelPattern::Braced(_, _) => Ok(Some(PeekToken::Brace)),
        ModelPattern::Parenthesized(_, _) => Ok(Some(PeekToken::Paren)),
        ModelPattern::Optional(inner, _)
        | ModelPattern::Repeat(inner, _)
        | ModelPattern::Plus(inner, _) => peek_with(inner, kws, lexicon),
        ModelPattern::SpanBinding(inner, _, _) => peek_with(inner, kws, lexicon),
        ModelPattern::Recover { body, .. } => peek_with(body, kws, lexicon),
        ModelPattern::Group(alts, _) => {
            if alts.len() == 1 {
                if alts[0].len() > 0 {
                    peek_with(&alts[0][0], kws, lexicon)
                } else {
                    Ok(None)
                }
            } else {
                Ok(None)
            }
        },
        ModelPattern::Peek(inner, _) => peek_with(inner, kws, lexicon),
        ModelPattern::Not(_, _) => Ok(None),
        _ => Ok(None),
    }
}

/// Has the tokenizer scan the literals of `pattern` and finds the token to
/// look for before the pattern is tried: the result is what [`simple_peek`]
/// gives for a lexicon that holds a scan of every literal of the pattern.
pub fn get_simple_peek(pattern: &ModelPattern, kws: &Vec<String>) -> (r: Result<
    Option<PeekToken>,
    GrammarError,
>)
    ensures
        exists|lexicon: Seq<ScanView>|
            covers_pattern(lexicon, *pattern) && #[trigger] peek_is(
                r,
                simple_peek(*pattern, texts(kws@), lexicon),
            ),
{
    let mut lexicon: Vec<Scan> = Vec::new();
    scan_pattern(pattern, &mut lexicon);
    let r = peek_with(pattern, kws, &lexicon);
    assert(peek_is(r, simple_peek(*pattern, texts(kws@), lexicon_view(lexicon@))));
    r
}

/// The text that a match of `p` must begin with, for an input of characters:
/// as [`simple_peek`], but that a literal is taken as the one piece of text
/// that it is.
pub open spec fn text_peek(p: ModelPattern) -> Option<PeekTokenView>
    decreases p,
{
    match p {
        ModelPattern::Lit(lit) => Some(PeekTokenView::Token(TokenTypeView::Token(lit@))),
        ModelPattern::Bracketed(_, _) => Some(PeekTokenView::Bracket),
        ModelPattern::Braced(_, _) => Some(PeekTokenView::Brace),
        ModelPattern::Parenthesized(_, _) => Some(PeekTokenView::Paren),
        ModelPattern::Optional(inner, _) => text_peek(*inner),
        ModelPattern::Repeat(inner, _) => text_peek(*inner),
        ModelPattern::Plus(inner, _) => text_peek(*inner),
        ModelPattern::SpanBinding(inner, _, _) => text_peek(*inner),
        ModelPattern::Recover { body, .. } => text_peek(*body),
        ModelPattern::Group(alts, _) => if alts@.len() == 1 && alts@[0]@.len() > 0 {
            text_peek(alts@[0]@[0])
        } else {
            None
        },
        ModelPattern::Peek(inner, _) => text_peek(*inner),
        ModelPattern::Not(_, _) => None,
        ModelPattern::Cut(_) => None,
        ModelPattern::RuleCall { .. } => None,
    }
}

/// Finds the text to look for before `pattern` is tried on an input of
/// characters; see [`text_peek`].
pub fn get_text_peek(pattern: &ModelPattern) -> (r: Option<PeekToken>)
    ensures
        match r {
            Some(t) => text_peek(*pattern) == Some(t@),
            None => text_peek(*pattern) is None,
        },
    decreases pattern,
{
    match pattern {
        ModelPattern::Lit(lit) => Some(PeekToken::Token(TokenType::Token(lit.value.clone()))),
        ModelPattern::Bracketed(_, _) => Some(PeekToken::Bracket),
        ModelPattern::Braced(_, _) => Some(PeekToken::Brace),
        ModelPattern::Parenthesized(_, _) => Some(PeekToken::Paren),
        ModelPattern::Optional(inner, _)
        | ModelPattern::Repeat(inner, _)
        | ModelPattern::Plus(inner, _) => get_text_peek(inner),
        ModelPattern::SpanBinding(inner, _, _) => get_text_peek(inner),
        ModelPattern::Recover { body, .. } => get_text_peek(body),
        ModelPattern::Group(alts, _) => {
            if alts.len() == 1 && alts[0].len() > 0 {
                get_text_peek(&alts[0][0])
            } else {
                None
            }
        },
        ModelPattern::Peek(inner, _) => get_text_peek(inner),
        _ => None,
    }
}

} // verus!
