//! Positioned tokens of an embedded script.
//!
//! The host hands over a tree of leaves and delimited groups. The tree is
//! flattened into tokens, each with the place it came from, and a sigil
//! (`@` or `$`) is fused with the token that follows it.

use crate::text::parse_usize;
use crate::text::parse_usize_spec;
use vstd::prelude::*;
use vstd::std_specs::cmp::PartialEqSpecImpl;
use vstd::string::StringExecFns;

verus! {

/// A position in host source: a line and a column on it.
#[derive(Clone, Copy, Debug, PartialEq, Eq, Structural)]
pub struct Pos {
    pub line: usize,
    pub column: usize,
}

impl Pos {
    /// The position at `line` and `column`.
    pub fn new(line: usize, column: usize) -> (pos: Self)
        ensures
            pos.line == line,
            pos.column == column,
    {
        Self { line, column }
    }

    /// One column to the left on the same line, stopping at column zero.
    pub fn left(&self) -> (pos: Self)
        ensures
            pos == self.spec_left(),
    {
        Self { line: self.line, column: self.column.saturating_sub(1) }
    }

    /// One column to the right on the same line, stopping at the largest column.
    pub fn right(&self) -> (pos: Self)
        ensures
            pos == self.spec_right(),
    {
        Self { line: self.line, column: self.column.saturating_add(1) }
    }

    pub open spec fn spec_left(self) -> Pos {
        Pos {
            line: self.line,
            column: if self.column == 0 {
                0usize
            } else {
                (self.column - 1) as usize
            },
        }
    }

    pub open spec fn spec_right(self) -> Pos {
        Pos {
            line: self.line,
            column: if self.column == usize::MAX {
                usize::MAX
            } else {
                (self.column + 1) as usize
            },
        }
    }
}

/// A handle to a location in host source. The library carries it from a
/// token to the diagnostics that point at the token and never looks inside.
#[derive(Clone, Copy, Debug, PartialEq, Eq, Structural)]
pub struct Span {
    pub id: usize,
}

/// What the host reports of a location: its handle, where it starts and
/// ends, and its debug text. A host that keeps no lines and columns reports
/// line zero, and the debug text then holds a byte range.
#[derive(Debug)]
pub struct SpanInfo {
    pub span: Span,
    pub start: Pos,
    pub end: Pos,
    pub debug: String,
}

/// How a group of the host tree is delimited.
#[derive(Clone, Copy, Debug, PartialEq, Eq, Structural)]
pub enum Delimiter {
    Parenthesis,
    Brace,
    Bracket,
    /// No visible delimiter: the group opens and closes with empty text.
    Invisible,
}

/// A fragment of the host's syntax tree.
#[derive(Debug)]
pub enum TokenTree {
    /// One atom with its literal text.
    Leaf { text: String, info: SpanInfo },
    /// A delimited group and what it holds.
    Group { delimiter: Delimiter, info: SpanInfo, stream: Vec<TokenTree> },
}

/// Attribute of a token.
#[derive(Clone, Copy, Debug, PartialEq, Eq, Structural)]
pub enum TokenAttr {
    /// No attribute
    Plain,
    /// Starts with `$`
    Var,
    /// Starts with `@`
    Cap,
}

/// One atom of the embedded script, or the marker of a delimiter.
#[derive(Debug)]
pub struct Token {
    source: String,
    span: Span,
    start: Pos,
    end: Pos,
    attr: TokenAttr,
}

/// What a token is, as a value.
pub struct TokenView {
    pub source: Seq<char>,
    pub span: Span,
    pub start: Pos,
    pub end: Pos,
    pub attr: TokenAttr,
}

impl TokenView {
    /// The same token with another attribute.
    pub open spec fn with_attr(self, attr: TokenAttr) -> TokenView {
        TokenView { attr, ..self }
    }

    /// Whether two tokens name the same placeholder: the text and the
    /// attribute count, the place does not.
    pub open spec fn same_key(self, other: TokenView) -> bool {
        self.source == other.source && self.attr == other.attr
    }
}

impl View for Token {
    type V = TokenView;

    closed spec fn view(&self) -> TokenView {
        TokenView {
            source: self.source@,
            span: self.span,
            start: self.start,
            end: self.end,
            attr: self.attr,
        }
    }
}

impl Clone for Token {
    fn clone(&self) -> (r: Self)
        ensures
            r@ == self@,
    {
        Token {
            source: self.source.clone(),
            span: self.span,
            start: self.start,
            end: self.end,
            attr: self.attr,
        }
    }
}

impl PartialEq for Token {
    fn eq(&self, other: &Self) -> (r: bool) {
        self.source == other.source && self.attr == other.attr
    }
}

impl Eq for Token {

}

impl PartialEqSpecImpl for Token {
    open spec fn obeys_eq_spec() -> bool {
        true
    }

    open spec fn eq_spec(&self, other: &Self) -> bool {
        self@.same_key(other@)
    }
}

/// The pattern that finds a byte range in the debug text of a location.
pub const BYTE_RANGE_PATTERN: &'static str = "bytes\\(([0-9]+)\\.\\.([0-9]+)\\)";

/// The first two capture groups of the leftmost match of the regular
/// expression `pattern` in `text`; `None` where nothing matches or the
/// pattern does not compile.
pub uninterp spec fn regex_capture_pair(pattern: Seq<char>, text: Seq<char>) -> Option<
    (Option<Seq<char>>, Option<Seq<char>>),
>;

/// The views of a pair of optional strings.
pub open spec fn capture_pair_view(groups: Option<(Option<String>, Option<String>)>) -> Option<
    (Option<Seq<char>>, Option<Seq<char>>),
> {
    match groups {
        Some((a, b)) => Some(
            (
                match a {
                    Some(a) => Some(a@),
                    None => None,
                },
                match b {
                    Some(b) => Some(b@),
                    None => None,
                },
            ),
        ),
        None => None,
    }
}

/// Compiles `pattern` with `regex::Regex::new`, searches `text` with
/// `Regex::captures` and hands out the text of groups one and two. Nothing
/// is proved of the matching: the result is only given its name.
#[verifier::external_body]
fn capture_pair(pattern: &str, text: &str) -> (groups: Option<(Option<String>, Option<String>)>)
    ensures
        capture_pair_view(groups) == regex_capture_pair(pattern@, text@),
{
    let re = regex::Regex::new(pattern).ok()?;
    let caps = re.captures(text)?;
    Some(
        (
            caps.get(1).map(|m| m.as_str().to_string()),
            caps.get(2).map(|m| m.as_str().to_string()),
        ),
    )
}

/// The two numbers that a pair of captured groups writes.
pub open spec fn byte_range_spec(groups: Option<(Option<Seq<char>>, Option<Seq<char>>)>) -> Option<
    (usize, usize),
> {
    match groups {
        Some((Some(a), Some(b))) => match (parse_usize_spec(a), parse_usize_spec(b)) {
            (Some(x), Some(y)) => Some((x, y)),
            _ => None,
        },
        _ => None,
    }
}

/// Reads the two ends of a byte range from a pair of captured groups.
/// Both groups must be there and each must be a number that fits.
pub fn byte_range(groups: Option<(Option<String>, Option<String>)>) -> (r: Option<(usize, usize)>)
    ensures
        r == byte_range_spec(capture_pair_view(groups)),
{
    match groups {
        Some((Some(a), Some(b))) => {
            let x = match parse_usize(a.as_str()) {
                Some(v) => v,
                None => {
                    return None;
                },
            };
            let y = match parse_usize(b.as_str()) {
                Some(v) => v,
                None => {
                    return None;
                },
            };
            Some((x, y))
        },
        _ => None,
    }
}

/// The byte range that the debug text of a location holds, if any.
pub open spec fn parse_pos_spec(debug: Seq<char>) -> Option<(usize, usize)> {
    byte_range_spec(regex_capture_pair(BYTE_RANGE_PATTERN@, debug))
}

/// Finds the byte range in the debug text of a location.
pub fn parse_pos(debug: &str) -> (r: Option<(usize, usize)>)
    ensures
        r == parse_pos_spec(debug@),
{
    byte_range(capture_pair(BYTE_RANGE_PATTERN, debug))
}

/// Where a location without lines and columns lies: on line one, at the
/// columns that its byte range gives.
pub open spec fn fallback_span_pos_spec(debug: Seq<char>) -> Option<(Pos, Pos)> {
    match parse_pos_spec(debug) {
        Some((start, end)) => Some(
            (Pos { line: 1, column: start }, Pos { line: 1, column: end }),
        ),
        None => None,
    }
}

/// Places a location by the byte range in its debug text.
pub fn fallback_span_pos(info: &SpanInfo) -> (r: Option<(Pos, Pos)>)
    ensures
        r == fallback_span_pos_spec(info.debug@),
{
    match parse_pos(info.debug.as_str()) {
        Some((start, end)) => Some((Pos::new(1, start), Pos::new(1, end))),
        None => None,
    }
}

/// Where a location starts and ends. Lines count from one, so line zero
/// means that the host kept no lines, and the byte range decides.
pub open spec fn span_pos_spec(info: SpanInfo) -> Option<(Pos, Pos)> {
    if info.start.line == 0 || info.end.line == 0 {
        fallback_span_pos_spec(info.debug@)
    } else {
        Some((info.start, info.end))
    }
}

/// Where a location starts and ends; `None` where the host gave neither
/// lines nor a byte range.
pub fn span_pos(info: &SpanInfo) -> (r: Option<(Pos, Pos)>)
    ensures
        r == span_pos_spec(*info),
{
    if info.start.line == 0 || info.end.line == 0 {
        return fallback_span_pos(info);
    }
    Some((Pos::new(info.start.line, info.start.column), Pos::new(info.end.line, info.end.column)))
}

/// The text that opens a group.
pub open spec fn open_text(d: Delimiter) -> Seq<char> {
    match d {
        Delimiter::Parenthesis => seq!['('],
        Delimiter::Brace => seq!['{'],
        Delimiter::Bracket => seq!['['],
        Delimiter::Invisible => seq![],
    }
}

/// The text that closes a group.
pub open spec fn close_text(d: Delimiter) -> Seq<char> {
    match d {
        Delimiter::Parenthesis => seq![')'],
        Delimiter::Brace => seq!['}'],
        Delimiter::Bracket => seq![']'],
        Delimiter::Invisible => seq![],
    }
}

/// The texts that open and close a group.
pub fn delimiter(d: Delimiter) -> (r: (String, String))
    ensures
        r.0@ == open_text(d),
        r.1@ == close_text(d),
{
    proof {
        reveal_strlit("(");
        reveal_strlit(")");
        reveal_strlit("{");
        reveal_strlit("}");
        reveal_strlit("[");
        reveal_strlit("]");
        reveal_strlit("");
    }
    let (b, e) = match d {
        Delimiter::Parenthesis => ("(", ")"),
        Delimiter::Brace => ("{", "}"),
        Delimiter::Bracket => ("[", "]"),
        Delimiter::Invisible => ("", ""),
    };
    assert(b@ =~= open_text(d));
    assert(e@ =~= close_text(d));
    (String::from_str(b), String::from_str(e))
}

/// The token of a leaf with the text `source` at the location `info`.
pub open spec fn leaf_token(source: Seq<char>, info: SpanInfo) -> Option<TokenView> {
    match span_pos_spec(info) {
        Some((start, end)) => Some(
            TokenView { source, span: info.span, start, end, attr: TokenAttr::Plain },
        ),
        None => None,
    }
}

/// The marker of a delimiter of the group at the location `info`. The
/// opening marker takes the first column of the group, the closing marker
/// its last.
pub open spec fn delim_token(source: Seq<char>, info: SpanInfo, open: bool) -> Option<TokenView> {
    match span_pos_spec(info) {
        Some((start, end)) => Some(
            TokenView {
                source,
                span: info.span,
                start: if open {
                    start
                } else {
                    end.spec_left()
                },
                end: if open {
                    start.spec_right()
                } else {
                    end
                },
                attr: TokenAttr::Plain,
            },
        ),
        None => None,
    }
}

impl Token {
    /// The token of a leaf; `None` where its location cannot be placed.
    pub fn new(source: String, info: &SpanInfo) -> (r: Option<Self>)
        ensures
            match r {
                Some(t) => leaf_token(source@, *info) == Some(t@),
                None => leaf_token(source@, *info) is None,
            },
    {
        match span_pos(info) {
            Some((start, end)) => Some(
                Self { source, span: info.span, start, end, attr: TokenAttr::Plain },
            ),
            None => None,
        }
    }

    /// The marker of a delimiter; `None` where the group's location cannot
    /// be placed.
    pub fn new_delim(source: String, info: &SpanInfo, open: bool) -> (r: Option<Self>)
        ensures
            match r {
                Some(t) => delim_token(source@, *info, open) == Some(t@),
                None => delim_token(source@, *info, open) is None,
            },
    {
        match span_pos(info) {
            Some((start, end)) => {
                let (start, end) = if open {
                    (start, start.right())
                } else {
                    (end.left(), end)
                };
                Some(Self { source, span: info.span, start, end, attr: TokenAttr::Plain })
            },
            None => None,
        }
    }

    /// The handle of the tree node that the token came from.
    pub fn tree(&self) -> (r: usize)
        ensures
            r == self@.span.id,
    {
        self.span.id
    }

    /// Whether the token is a placeholder of either kind.
    pub fn is_arg(&self) -> (r: bool)
        ensures
            r == (self@.attr != TokenAttr::Plain),
    {
        self.is_var() || self.is_cap()
    }

    /// Whether the token is a placeholder that is bound later.
    pub fn is_var(&self) -> (r: bool)
        ensures
            r == (self@.attr == TokenAttr::Var),
    {
        self.attr == TokenAttr::Var
    }

    /// Whether the token is a placeholder that is captured at once.
    pub fn is_cap(&self) -> (r: bool)
        ensures
            r == (self@.attr == TokenAttr::Cap),
    {
        self.attr == TokenAttr::Cap
    }

    /// The location that diagnostics on this token point at.
    pub fn span(&self) -> (r: Span)
        ensures
            r == self@.span,
    {
        self.span
    }

    /// Where the token starts.
    pub fn start(&self) -> (r: Pos)
        ensures
            r == self@.start,
    {
        self.start
    }

    /// Where the token ends.
    pub fn end(&self) -> (r: Pos)
        ensures
            r == self@.end,
    {
        self.end
    }

    /// The token's attribute.
    pub fn attribute(&self) -> (r: TokenAttr)
        ensures
            r == self@.attr,
    {
        self.attr
    }

    /// The token's text.
    pub fn source(&self) -> (r: &str)
        ensures
            r@ == self@.source,
    {
        self.source.as_str()
    }

    /// The token's text, as the script will hold it.
    pub fn to_string(&self) -> (r: String)
        ensures
            r@ == self@.source,
    {
        self.source.clone()
    }

    /// Whether the token's text is `s`.
    pub fn is(&self, s: &str) -> (r: bool)
        ensures
            r == (self@.source == s@),
    {
        self.source == String::from_str(s)
    }

    /// The same token with the attribute `attr`.
    pub fn attr(self, attr: TokenAttr) -> (r: Self)
        ensures
            r@ == self@.with_attr(attr),
    {
        let mut t = self;
        t.attr = attr;
        t
    }
}

/// The values of a run of tokens.
pub open spec fn token_views(s: Seq<Token>) -> Seq<TokenView> {
    s.map_values(|t: Token| t@)
}

/// The tokens of one tree, in source order: a leaf gives one token, a group
/// gives its opening marker, the tokens of what it holds, and its closing
/// marker. `None` where a location in the tree cannot be placed.
pub open spec fn flat_tree(t: TokenTree) -> Option<Seq<TokenView>>
    decreases t, 0nat,
{
    match t {
        TokenTree::Leaf { text, info } => match leaf_token(text@, info) {
            Some(token) => Some(seq![token]),
            None => None,
        },
        TokenTree::Group { delimiter: d, info, stream } => match (
            delim_token(open_text(d), info, true),
            flat_stream(stream@, stream@.len()),
            delim_token(close_text(d), info, false),
        ) {
            (Some(open), Some(inner), Some(close)) => Some(seq![open] + inner + seq![close]),
            _ => None,
        },
    }
}

/// The tokens of the first `n` trees of `s`, in order.
pub open spec fn flat_stream(s: Seq<TokenTree>, n: nat) -> Option<Seq<TokenView>>
    decreases s, n,
{
    if n == 0 || n > s.len() {
        Some(seq![])
    } else {
        match (flat_stream(s, (n - 1) as nat), flat_tree(s[n - 1])) {
            (Some(before), Some(last)) => Some(before + last),
            _ => None,
        }
    }
}

/// Once a prefix of a stream cannot be flattened, no longer prefix can.
pub proof fn lemma_flat_stream_fails(s: Seq<TokenTree>, k: nat, n: nat)
    requires
        k <= n <= s.len(),
        flat_stream(s, k) is None,
    ensures
        flat_stream(s, n) is None,
    decreases n,
{
    if k < n {
        lemma_flat_stream_fails(s, k, (n - 1) as nat);
    }
}

/// Whether a token is a bare sigil.
pub open spec fn is_sigil(t: TokenView) -> bool {
    t.source == seq!['@'] || t.source == seq!['$']
}

/// The attribute that a sigil gives to the token behind it.
pub open spec fn sigil_attr(t: TokenView) -> TokenAttr {
    if t.source == seq!['@'] {
        TokenAttr::Cap
    } else {
        TokenAttr::Var
    }
}

/// The tokens after each sigil has been fused with the token behind it: the
/// sigil goes, and that token, whatever it is, takes the sigil's attribute
/// and keeps its own text and place. `None` where a sigil stands last.
pub open spec fn fuse(s: Seq<TokenView>) -> Option<Seq<TokenView>>
    decreases s.len(),
{
    if s.len() == 0 {
        Some(seq![])
    } else if is_sigil(s[0]) {
        if s.len() < 2 {
            None
        } else {
            match fuse(s.skip(2)) {
                Some(rest) => Some(seq![s[1].with_attr(sigil_attr(s[0]))] + rest),
                None => None,
            }
        }
    } else {
        match fuse(s.skip(1)) {
            Some(rest) => Some(seq![s[0]] + rest),
            None => None,
        }
    }
}

/// The tokens of a host stream: flattened, then fused.
pub open spec fn retokenize_spec(tt: Seq<TokenTree>) -> Option<Seq<TokenView>> {
    match flat_stream(tt, tt.len()) {
        Some(flat) => fuse(flat),
        None => None,
    }
}

/// The tokens of an embedded script, in source order.
#[derive(Debug)]
pub struct Tokens(Vec<Token>);

impl View for Tokens {
    type V = Seq<TokenView>;

    closed spec fn view(&self) -> Seq<TokenView> {
        token_views(self.0@)
    }
}

impl Tokens {
    /// How many tokens there are.
    pub fn len(&self) -> (n: usize)
        ensures
            n == self@.len(),
    {
        self.0.len()
    }

    /// The token at `index`.
    pub fn get(&self, index: usize) -> (t: &Token)
        requires
            index < self@.len(),
        ensures
            t@ == self@[index as int],
    {
        &self.0[index]
    }

    /// The tokens as a vector, in the same order.
    pub fn into_vec(self) -> (v: Vec<Token>)
        ensures
            token_views(v@) == self@,
    {
        self.0
    }
}

fn push_token(out: &mut Vec<Token>, t: Token)
    ensures
        token_views(final(out)@) == token_views(old(out)@).push(t@),
{
    out.push(t);
    assert(token_views(out@) =~= token_views(old(out)@).push(t@));
}

/// Appends the tokens of `tree` to `out`; `false`, with `out` of no use,
/// where a location in the tree cannot be placed.
fn flatten_tree(tree: &TokenTree, out: &mut Vec<Token>) -> (ok: bool)
    ensures
        ok == flat_tree(*tree).is_some(),
        ok ==> token_views(final(out)@) == token_views(old(out)@) + flat_tree(*tree).unwrap(),
    decreases tree, 0nat,
{
    match tree {
        TokenTree::Leaf { text, info } => {
            match Token::new(text.clone(), info) {
                Some(t) => {
                    push_token(out, t);
                    assert(token_views(out@) =~= token_views(old(out)@) + flat_tree(
                        *tree,
                    ).unwrap());
                    true
                },
                None => false,
            }
        },
        TokenTree::Group { delimiter: d, info, stream } => {
            let (b, e) = delimiter(*d);
            match Token::new_delim(b, info, true) {
                Some(t) => {
                    push_token(out, t);
                },
                None => {
                    return false;
                },
            }
            if !flatten_stream(stream, out) {
                return false;
            }
            match Token::new_delim(e, info, false) {
                Some(t) => {
                    push_token(out, t);
                    assert(token_views(out@) =~= token_views(old(out)@) + flat_tree(
                        *tree,
                    ).unwrap());
                    true
                },
                None => false,
            }
        },
    }
}

/// Appends the tokens of every tree of `stream` to `out`; `false`, with
/// `out` of no use, where a location cannot be placed.
fn flatten_stream(stream: &Vec<TokenTree>, out: &mut Vec<Token>) -> (ok: bool)
    ensures
        ok == flat_stream(stream@, stream@.len()).is_some(),
        ok ==> token_views(final(out)@) == token_views(old(out)@) + flat_stream(
            stream@,
            stream@.len(),
        ).unwrap(),
    decreases stream, 1nat,
{
    let mut i: usize = 0;
    assert(token_views(out@) =~= token_views(old(out)@) + flat_stream(stream@, 0).unwrap());
    while i < stream.len()
        invariant
            i <= stream@.len(),
            flat_stream(stream@, i as nat) is Some,
            token_views(out@) == token_views(old(out)@) + flat_stream(stream@, i as nat).unwrap(),
        decreases stream@.len() - i,
    {
        if !flatten_tree(&stream[i], out) {
            proof {
                lemma_flat_stream_fails(stream@, (i + 1) as nat, stream@.len());
            }
            return false;
        }
        i += 1;
        assert(token_views(out@) =~= token_views(old(out)@) + flat_stream(
            stream@,
            i as nat,
        ).unwrap());
    }
    true
}

/// Whether each sigil among `flat` has a token behind it.
fn sigils_followed(flat: &Vec<Token>) -> (ok: bool)
    ensures
        ok == fuse(token_views(flat@)).is_some(),
{
    let ghost all = token_views(flat@);
    let mut i: usize = 0;
    assert(all.skip(0) =~= all);
    while i < flat.len()
        invariant
            i <= flat@.len(),
            all == token_views(flat@),
            fuse(all).is_some() == fuse(all.skip(i as int)).is_some(),
        decreases flat@.len() - i,
    {
        let ghost rest = all.skip(i as int);
        assert(rest[0] == flat@[i as int]@);
        proof {
            reveal_strlit("@");
            reveal_strlit("$");
            assert("@"@ =~= seq!['@']);
            assert("$"@ =~= seq!['$']);
        }
        if flat[i].is("@") || flat[i].is("$") {
            if i + 1 >= flat.len() {
                assert(rest.len() < 2);
                return false;
            }
            assert(rest.skip(2) =~= all.skip(i + 2));
            i += 2;
        } else {
            assert(rest.skip(1) =~= all.skip(i + 1));
            i += 1;
        }
    }
    true
}

/// Fuses each sigil among `flat` with the token behind it.
fn fuse_tokens(flat: &Vec<Token>) -> (out: Vec<Token>)
    requires
        fuse(token_views(flat@)) is Some,
    ensures
        Some(token_views(out@)) == fuse(token_views(flat@)),
{
    let ghost all = token_views(flat@);
    let mut out: Vec<Token> = Vec::new();
    let mut i: usize = 0;
    assert(all.skip(0) =~= all);
    assert(token_views(out@) =~= Seq::<TokenView>::empty());
    assert(token_views(out@) + fuse(all).unwrap() =~= fuse(all).unwrap());
    while i < flat.len()
        invariant
            i <= flat@.len(),
            all == token_views(flat@),
            fuse(all) is Some,
            fuse(all.skip(i as int)) is Some,
            fuse(all).unwrap() == token_views(out@) + fuse(all.skip(i as int)).unwrap(),
        decreases flat@.len() - i,
    {
        let ghost rest = all.skip(i as int);
        let ghost done = token_views(out@);
        assert(rest[0] == flat@[i as int]@);
        proof {
            reveal_strlit("@");
            reveal_strlit("$");
            assert("@"@ =~= seq!['@']);
            assert("$"@ =~= seq!['$']);
        }
        if flat[i].is("@") {
            assert(rest.len() >= 2);
            assert(rest[1] == flat@[i + 1]@);
            assert(rest.skip(2) =~= all.skip(i + 2));
            push_token(&mut out, flat[i + 1].clone().attr(TokenAttr::Cap));
            assert(done + fuse(rest).unwrap() =~= token_views(out@) + fuse(
                all.skip(i + 2),
            ).unwrap());
            i += 2;
        } else if flat[i].is("$") {
            assert(rest.len() >= 2);
            assert(rest[1] == flat@[i + 1]@);
            assert(rest.skip(2) =~= all.skip(i + 2));
            push_token(&mut out, flat[i + 1].clone().attr(TokenAttr::Var));
            assert(done + fuse(rest).unwrap() =~= token_views(out@) + fuse(
                all.skip(i + 2),
            ).unwrap());
            i += 2;
        } else {
            assert(rest.skip(1) =~= all.skip(i + 1));
            push_token(&mut out, flat[i].clone());
            assert(done + fuse(rest).unwrap() =~= token_views(out@) + fuse(
                all.skip(i + 1),
            ).unwrap());
            i += 1;
        }
    }
    assert(all.skip(i as int) =~= Seq::<TokenView>::empty());
    assert(token_views(out@) + Seq::<TokenView>::empty() =~= token_views(out@));
    out
}

/// Whether a host stream can be turned into tokens: every location in it
/// can be placed, and no sigil stands last.
pub fn retokenizable(tt: &Vec<TokenTree>) -> (ok: bool)
    ensures
        ok == retokenize_spec(tt@).is_some(),
{
    let mut flat: Vec<Token> = Vec::new();
    if !flatten_stream(tt, &mut flat) {
        return false;
    }
    assert(token_views(flat@) =~= flat_stream(tt@, tt@.len()).unwrap());
    sigils_followed(&flat)
}

/// The tokens of a host stream: each tree flattened in source order, then
/// each sigil fused with the token behind it.
pub fn retokenize(tt: Vec<TokenTree>) -> (tokens: Tokens)
    requires
        retokenize_spec(tt@) is Some,
    ensures
        Some(tokens@) == retokenize_spec(tt@),
{
    let mut flat: Vec<Token> = Vec::new();
    flatten_stream(&tt, &mut flat);
    assert(token_views(flat@) =~= flat_stream(tt@, tt@.len()).unwrap());
    Tokens(fuse_tokens(&flat))
}

/// The tokens of a host stream, or `None` where it cannot be turned into
/// tokens.
pub fn try_retokenize(tt: Vec<TokenTree>) -> (r: Option<Tokens>)
    ensures
        match r {
            Some(tokens) => retokenize_spec(tt@) == Some(tokens@),
            None => retokenize_spec(tt@) is None,
        },
{
    if retokenizable(&tt) {
        Some(retokenize(tt))
    } else {
        None
    }
}

/// Whether two tokens that follow each other are the two halves of an
/// operator of the script language that the host has split: both are a
/// plain `.` or both a plain `=`, and the second starts where the first
/// ends.
pub open spec fn splits_operator(a: TokenView, b: TokenView) -> bool {
    &&& a.attr == TokenAttr::Plain
    &&& b.attr == TokenAttr::Plain
    &&& a.source == b.source
    &&& (a.source == seq!['.'] || a.source == seq!['='])
    &&& a.end == b.start
}

/// The operator that two halves make: their texts joined, from the start
/// of the first to the end of the second, at the location of the first.
pub open spec fn joined_operator(a: TokenView, b: TokenView) -> TokenView {
    TokenView {
        source: a.source + b.source,
        span: a.span,
        start: a.start,
        end: b.end,
        attr: TokenAttr::Plain,
    }
}

/// The tokens with split operators joined again: from left to right, each
/// pair of halves becomes one token, and a half that was joined is not
/// joined a second time.
pub open spec fn merge_spec(s: Seq<TokenView>) -> Seq<TokenView>
    decreases s.len(),
{
    if s.len() < 2 {
        s
    } else if splits_operator(s[0], s[1]) {
        seq![joined_operator(s[0], s[1])] + merge_spec(s.skip(2))
    } else {
        seq![s[0]] + merge_spec(s.skip(1))
    }
}

fn halves(a: &Token, b: &Token) -> (r: bool)
    ensures
        r == splits_operator(a@, b@),
{
    proof {
        reveal_strlit(".");
        reveal_strlit("=");
        assert("."@ =~= seq!['.']);
        assert("="@ =~= seq!['=']);
    }
    a.attr == TokenAttr::Plain && b.attr == TokenAttr::Plain && a.source == b.source && (a.is(".")
        || a.is("=")) && a.end == b.start
}

fn join_halves(a: &Token, b: &Token) -> (r: Token)
    ensures
        r@ == joined_operator(a@, b@),
{
    let mut source = a.source.clone();
    source.append(b.source.as_str());
    Token { source, span: a.span, start: a.start, end: b.end, attr: TokenAttr::Plain }
}

/// Joins the operators `..` and `==` again where the host has split them
/// into two tokens. A caller whose host keeps such operators whole, or
/// whose layout puts the halves side by side anyway, has no need of it.
pub fn merge_operators(tokens: Tokens) -> (r: Tokens)
    ensures
        r@ == merge_spec(tokens@),
{
    let toks = tokens.0;
    let ghost all = token_views(toks@);
    let mut out: Vec<Token> = Vec::new();
    let mut i: usize = 0;
    proof {
        assert(all.skip(0) =~= all);
        assert(token_views(out@) + merge_spec(all) =~= merge_spec(all));
    }
    while i < toks.len()
        invariant
            i <= toks@.len(),
            all == token_views(toks@),
            merge_spec(all) == token_views(out@) + merge_spec(all.skip(i as int)),
        decreases toks@.len() - i,
    {
        let ghost rest = all.skip(i as int);
        let ghost done = token_views(out@);
        assert(rest[0] == toks@[i as int]@);
        if i + 1 < toks.len() && halves(&toks[i], &toks[i + 1]) {
            assert(rest[1] == toks@[i + 1]@);
            assert(rest.skip(2) =~= all.skip(i + 2));
            push_token(&mut out, join_halves(&toks[i], &toks[i + 1]));
            assert(done + merge_spec(rest) =~= token_views(out@) + merge_spec(all.skip(i + 2)));
            i += 2;
        } else {
            proof {
                if i + 1 < toks@.len() {
                    assert(rest[1] == toks@[i + 1]@);
                }
                assert(rest.skip(1) =~= all.skip(i + 1));
                if rest.len() < 2 {
                    assert(rest.skip(1) =~= Seq::<TokenView>::empty());
                    assert(merge_spec(rest) =~= seq![rest[0]] + merge_spec(rest.skip(1)));
                }
            }
            push_token(&mut out, toks[i].clone());
            assert(done + merge_spec(rest) =~= token_views(out@) + merge_spec(all.skip(i + 1)));
            i += 1;
        }
    }
    proof {
        assert(all.skip(i as int) =~= Seq::<TokenView>::empty());
        assert(token_views(out@) + Seq::<TokenView>::empty() =~= token_views(out@));
    }
    Tokens(out)
}

} // verus!
