//! The assembled script: its text, its placeholders in the order of their
//! first occurrence, and the index from offsets in the text to the host
//! locations that the text came from.

use crate::text::byte_len;
use crate::text::decimal;
use crate::text::lemma_byte_len_concat;
use crate::text::numbered;
use crate::text::numbered_next;
use crate::text::text_len;
use crate::text::trim_end;
use crate::text::trim_end_spec;
use crate::token::retokenizable;
use crate::token::retokenize;
use crate::token::retokenize_spec;
use crate::token::Pos;
use crate::token::Span;
use crate::token::Token;
use crate::token::TokenAttr;
use crate::token::TokenTree;
use crate::token::TokenView;
use crate::token::Tokens;
use std::collections::BTreeMap;
use vstd::prelude::*;
use vstd::string::StringExecFns;

verus! {

/// The kind of a placeholder.
#[derive(Debug, Clone, Copy, PartialEq, Eq, Structural)]
pub enum ArgType {
    /// Its value is known where the script is defined.
    Cap,
    /// Its value is supplied later.
    Var,
}

/// A named slot of a script whose value comes from the host.
#[derive(Debug)]
pub struct Arg {
    key: Token,
    lua: String,
    argv: String,
    atype: ArgType,
}

/// What a placeholder is, as a value.
pub struct ArgView {
    pub key: TokenView,
    pub lua: Seq<char>,
    pub argv: Seq<char>,
    pub atype: ArgType,
}

impl View for Arg {
    type V = ArgView;

    closed spec fn view(&self) -> ArgView {
        ArgView { key: self.key@, lua: self.lua@, argv: self.argv@, atype: self.atype }
    }
}

impl Clone for Arg {
    fn clone(&self) -> (r: Self)
        ensures
            r@ == self@,
    {
        Arg {
            key: self.key.clone(),
            lua: self.lua.clone(),
            argv: self.argv.clone(),
            atype: self.atype,
        }
    }
}

/// The name that the script uses for the placeholder registered as number
/// `index`, counting from zero.
pub open spec fn lua_name(index: nat) -> Seq<char> {
    "__internal_from_args_"@ + decimal(index)
}

/// The argument slot of the placeholder registered as number `index`:
/// slots count from one.
pub open spec fn argv_name(index: nat) -> Seq<char> {
    "ARGV["@ + decimal(index + 1) + "]"@
}

/// The kind of the placeholder that a token names.
pub open spec fn arg_type_of(key: TokenView) -> ArgType {
    if key.attr == TokenAttr::Cap {
        ArgType::Cap
    } else {
        ArgType::Var
    }
}

/// The placeholder that `key` becomes when it is registered as number `index`.
pub open spec fn arg_for(index: nat, key: TokenView) -> ArgView {
    ArgView { key, lua: lua_name(index), argv: argv_name(index), atype: arg_type_of(key) }
}

/// Whether `key` names a placeholder of `args`.
pub open spec fn registered(args: Seq<ArgView>, key: TokenView) -> bool {
    exists|i: int| 0 <= i < args.len() && (#[trigger] args[i]).key.same_key(key)
}

/// The number under which `key` is registered in `args`.
pub open spec fn index_of(args: Seq<ArgView>, key: TokenView) -> int {
    choose|i: int| 0 <= i < args.len() && (#[trigger] args[i]).key.same_key(key)
}

/// The registry after `key` was looked up: unchanged where `key` is known,
/// else with one more placeholder at the end.
pub open spec fn register(args: Seq<ArgView>, key: TokenView) -> Seq<ArgView> {
    if registered(args, key) {
        args
    } else {
        args.push(arg_for(args.len(), key))
    }
}

/// What holds of every registry: a placeholder's names follow from its
/// number, and no two placeholders share a key.
pub open spec fn registry_wf(args: Seq<ArgView>) -> bool {
    &&& forall|i: int| 0 <= i < args.len() ==> #[trigger] args[i] == arg_for(i as nat, args[i].key)
    &&& forall|i: int, j: int|
        0 <= i < j < args.len() ==> !(#[trigger] args[i]).key.same_key((#[trigger] args[j]).key)
}

/// In a registry a key is found at one number only.
pub proof fn lemma_index_of_unique(args: Seq<ArgView>, key: TokenView, i: int)
    requires
        registry_wf(args),
        0 <= i < args.len(),
        args[i].key.same_key(key),
    ensures
        registered(args, key),
        index_of(args, key) == i,
{
    let j = index_of(args, key);
    assert(0 <= j < args.len() && args[j].key.same_key(key));
    if j < i {
        assert(!args[j].key.same_key(args[i].key));
    } else if i < j {
        assert(!args[i].key.same_key(args[j].key));
    }
}

/// Registering keeps a registry well formed, makes the key known, and moves
/// no placeholder that was there before.
pub proof fn lemma_register_wf(args: Seq<ArgView>, key: TokenView)
    requires
        registry_wf(args),
    ensures
        registry_wf(register(args, key)),
        registered(register(args, key), key),
        args.len() <= register(args, key).len() <= args.len() + 1,
        forall|i: int| 0 <= i < args.len() ==> register(args, key)[i] == args[i],
{
    let after = register(args, key);
    if registered(args, key) {
    } else {
        let n = args.len() as int;
        assert(after[n].key.same_key(key));
        assert forall|i: int, j: int| 0 <= i < j < after.len() implies !(#[trigger] after[i]).key.same_key(
            (#[trigger] after[j]).key,
        ) by {
            if j == n {
                assert(args[i].key.same_key(key) == after[i].key.same_key(after[j].key));
            } else {
                assert(after[i] == args[i] && after[j] == args[j]);
            }
        }
    }
}

impl Arg {
    fn new(key: Token, lua: String, argv: String, atype: ArgType) -> (r: Self)
        ensures
            r@ == (ArgView { key: key@, lua: lua@, argv: argv@, atype }),
    {
        Self { key, lua, argv, atype }
    }

    /// The token that first named the placeholder.
    pub fn key(&self) -> (r: &Token)
        ensures
            r@ == self@.key,
    {
        &self.key
    }

    /// As a host variable, e.g. `x`.
    pub fn as_rust(&self) -> (r: &str)
        ensures
            r@ == self@.key.source,
    {
        self.key.source()
    }

    /// As the script's internal variable, e.g. `__internal_from_args_1`.
    pub fn as_lua(&self) -> (r: &str)
        ensures
            r@ == self@.lua,
    {
        self.lua.as_str()
    }

    /// As an `ARGV` parameter, e.g. `ARGV[1]`.
    pub fn as_argv(&self) -> (r: &str)
        ensures
            r@ == self@.argv,
    {
        self.argv.as_str()
    }

    /// The placeholder's kind.
    pub fn atype(&self) -> (r: ArgType)
        ensures
            r == self@.atype,
    {
        self.atype
    }
}

/// The values of a run of placeholders.
pub open spec fn arg_views(s: Seq<Arg>) -> Seq<ArgView> {
    s.map_values(|a: Arg| a@)
}

/// The placeholders of one script, in the order of their first occurrence.
#[derive(Debug)]
pub struct Args(Vec<Arg>);

impl View for Args {
    type V = Seq<ArgView>;

    closed spec fn view(&self) -> Seq<ArgView> {
        arg_views(self.0@)
    }
}

impl Args {
    /// Whether the registry is well formed.
    pub open spec fn wf(&self) -> bool {
        registry_wf(self@)
    }

    /// The empty registry.
    pub fn new() -> (r: Self)
        ensures
            r@ == Seq::<ArgView>::empty(),
            r.wf(),
    {
        let r = Self(Vec::new());
        assert(r@ =~= Seq::<ArgView>::empty());
        r
    }

    /// Looks `token` up by its text and attribute, registers it as a new
    /// placeholder where it is not known yet, and hands out its placeholder.
    /// Where the key is known, the registry stays as it is and the known
    /// placeholder is handed out. Where it is not, one placeholder is added
    /// behind all others: it is numbered by the length of the registry, its
    /// argument slot is one more, and its kind is that of the token.
    pub fn add(&mut self, token: &Token) -> (arg: Arg)
        requires
            old(self).wf(),
        ensures
            final(self).wf(),
            final(self)@ == register(old(self)@, token@),
            0 <= index_of(final(self)@, token@) < final(self)@.len(),
            arg@ == final(self)@[index_of(final(self)@, token@)],
            arg@.key.same_key(token@),
            registered(old(self)@, token@) ==> final(self)@ == old(self)@ && arg@ == old(self)@[index_of(
                old(self)@,
                token@,
            )],
            !registered(old(self)@, token@) ==> final(self)@ == old(self)@.push(arg@) && arg@
                == arg_for(old(self)@.len(), token@),
    {
        let mut i: usize = 0;
        while i < self.0.len()
            invariant
                i <= self.0@.len(),
                *self == *old(self),
                self.wf(),
                forall|j: int| 0 <= j < i ==> !(#[trigger] self@[j]).key.same_key(token@),
            decreases self.0@.len() - i,
        {
            assert(self@[i as int] == self.0@[i as int]@);
            if self.0[i].key == *token {
                proof {
                    lemma_index_of_unique(self@, token@, i as int);
                }
                return self.0[i].clone();
            }
            i += 1;
        }
        let n: usize = self.0.len();
        let lua = numbered("__internal_from_args_", n, "");
        let argv = numbered_next("ARGV[", n, "]");
        let atype = if token.is_cap() {
            ArgType::Cap
        } else {
            ArgType::Var
        };
        let arg = Arg::new(token.clone(), lua, argv, atype);
        let copy = arg.clone();
        self.0.push(arg);
        proof {
            reveal_strlit("");
            assert(copy@.lua =~= lua_name(n as nat));
            assert(copy@ == arg_for(n as nat, token@));
            assert(!registered(old(self)@, token@));
            assert(self@ =~= register(old(self)@, token@));
            lemma_register_wf(old(self)@, token@);
            lemma_index_of_unique(self@, token@, n as int);
        }
        copy
    }

    /// The registered placeholders, in order.
    pub fn args(&self) -> (r: &[Arg])
        ensures
            arg_views(r@) == self@,
    {
        self.0.as_slice()
    }
}

/// What the assembler holds between two tokens: the text written so far,
/// the placeholders met so far, the index from offsets to host locations,
/// and where the last token ended.
pub struct Assembly {
    pub text: Seq<char>,
    pub args: Seq<ArgView>,
    pub spans: Map<usize, Span>,
    pub pos: Option<Pos>,
}

/// `n` blanks.
pub open spec fn spaces(n: nat) -> Seq<char> {
    Seq::new(n, |i: int| ' ')
}

/// What is written between the last token and `t`: a line break where `t`
/// starts on a later line, else as many blanks as `t` starts to the right
/// of where the last token ended, and nothing before the first token.
pub open spec fn separator(pos: Option<Pos>, t: TokenView) -> Seq<char> {
    let prev = match pos {
        Some(p) => p,
        None => t.start,
    };
    if t.start.line > prev.line {
        seq!['\n']
    } else if t.start.line == prev.line {
        spaces(
            if t.start.column > prev.column {
                (t.start.column - prev.column) as nat
            } else {
                0
            },
        )
    } else {
        seq![]
    }
}

/// Whether `t` is replaced by the internal name of its placeholder.
pub open spec fn substitutes(t: TokenView, convert: bool) -> bool {
    convert && t.attr != TokenAttr::Plain
}

/// The index after every offset from `begin` to `end`, both included, was
/// pointed at `span`.
pub open spec fn cover(m: Map<usize, Span>, begin: nat, end: nat, span: Span) -> Map<usize, Span> {
    Map::new(
        |k: usize| m.contains_key(k) || begin <= k <= end,
        |k: usize|
            if begin <= k <= end {
                span
            } else {
                m[k]
            },
    )
}

/// The placeholders after the assembler has met `t`.
pub open spec fn step_args(args: Seq<ArgView>, t: TokenView, convert: bool) -> Seq<ArgView> {
    if substitutes(t, convert) {
        register(args, t)
    } else {
        args
    }
}

/// The text that the assembler writes for `t`, given the placeholders
/// after it has met `t`.
pub open spec fn step_code(args: Seq<ArgView>, t: TokenView, convert: bool) -> Seq<char> {
    if substitutes(t, convert) {
        args[index_of(args, t)].lua
    } else {
        t.source
    }
}

/// One step of the assembler: the separator and the text of `t` are
/// written, and every offset from where that text starts to where it ends,
/// both included, is pointed at the location of `t`.
pub open spec fn assemble_step(a: Assembly, t: TokenView, convert: bool) -> Assembly {
    let args = step_args(a.args, t, convert);
    let before = a.text + separator(a.pos, t);
    let after = before + step_code(args, t, convert);
    Assembly {
        text: after,
        args,
        spans: cover(a.spans, byte_len(before), byte_len(after), t.span),
        pos: Some(t.end),
    }
}

/// The assembler's state after `tokens`, met from left to right.
pub open spec fn assemble(tokens: Seq<TokenView>, convert: bool) -> Assembly
    decreases tokens.len(),
{
    if tokens.len() == 0 {
        Assembly { text: seq![], args: seq![], spans: Map::empty(), pos: None }
    } else {
        assemble_step(assemble(tokens.drop_last(), convert), tokens.last(), convert)
    }
}

/// The line that binds a placeholder's internal name to its argument slot.
pub open spec fn binding(a: ArgView) -> Seq<char> {
    "local "@ + a.lua + " = "@ + a.argv + "; "@
}

/// The binding lines of `args`, in order.
pub open spec fn bindings(args: Seq<ArgView>) -> Seq<char>
    decreases args.len(),
{
    if args.len() == 0 {
        seq![]
    } else {
        bindings(args.drop_last()) + binding(args.last())
    }
}

/// The text that is sent: the binding lines, a line break and the checked
/// body; empty where placeholders are not converted.
pub open spec fn wrapped_text(args: Seq<ArgView>, script: Seq<char>, convert: bool) -> Seq<char> {
    if convert {
        bindings(args) + "\n"@ + script
    } else {
        seq![]
    }
}

/// What a script is, as a value.
pub struct ScriptView {
    pub script: Seq<char>,
    pub wrapped: Seq<char>,
    pub spans: Map<usize, Span>,
    pub args: Seq<ArgView>,
}

/// The script that `tokens` assemble to.
pub open spec fn script_of(tokens: Seq<TokenView>, convert: bool) -> ScriptView {
    let a = assemble(tokens, convert);
    let script = trim_end_spec(a.text);
    ScriptView {
        script,
        wrapped: wrapped_text(a.args, script, convert),
        spans: a.spans,
        args: a.args,
    }
}

/// The locations that the index holds for the offsets from `lo` to `hi`,
/// both included, by rising offset.
pub open spec fn spans_in(m: Map<usize, Span>, lo: int, hi: int) -> Seq<Span>
    decreases
            (if hi >= lo {
                hi - lo + 1
            } else {
                0
            }),
{
    if lo > hi {
        seq![]
    } else if 0 <= hi <= usize::MAX && m.contains_key(hi as usize) {
        spans_in(m, lo, hi - 1).push(m[hi as usize])
    } else {
        spans_in(m, lo, hi - 1)
    }
}

/// Offsets above every offset of the index add nothing to a query.
pub proof fn lemma_spans_in_clamp(m: Map<usize, Span>, lo: int, hi: int, limit: int)
    requires
        forall|k: usize| m.contains_key(k) ==> k <= limit,
        limit <= hi,
    ensures
        spans_in(m, lo, hi) == spans_in(m, lo, limit),
    decreases hi - limit,
{
    if limit < hi {
        lemma_spans_in_clamp(m, lo, hi - 1, limit);
        if lo > hi {
        } else {
        }
    }
}

/// The registry stays well formed while the assembler runs, and holds at
/// most one placeholder for each token met.
pub proof fn lemma_assemble_wf(tokens: Seq<TokenView>, convert: bool)
    ensures
        registry_wf(assemble(tokens, convert).args),
        assemble(tokens, convert).args.len() <= tokens.len(),
    decreases tokens.len(),
{
    if tokens.len() > 0 {
        lemma_assemble_wf(tokens.drop_last(), convert);
        lemma_register_wf(assemble(tokens.drop_last(), convert).args, tokens.last());
    }
}

/// Every offset of the index lies within the text that was written.
pub proof fn lemma_assemble_limit(tokens: Seq<TokenView>, convert: bool)
    ensures
        forall|k: usize| #[trigger]
            assemble(tokens, convert).spans.contains_key(k) ==> k <= byte_len(
                assemble(tokens, convert).text,
            ),
    decreases tokens.len(),
{
    if tokens.len() > 0 {
        let prev = assemble(tokens.drop_last(), convert);
        let t = tokens.last();
        lemma_assemble_limit(tokens.drop_last(), convert);
        let before = prev.text + separator(prev.pos, t);
        let code = step_code(step_args(prev.args, t, convert), t, convert);
        lemma_byte_len_concat(prev.text, separator(prev.pos, t));
        lemma_byte_len_concat(before, code);
    }
}

fn cover_range(spans: &mut BTreeMap<usize, Span>, begin: usize, end: usize, span: Span)
    requires
        begin <= end,
    ensures
        final(spans)@ == cover(old(spans)@, begin as nat, end as nat, span),
{
    spans.insert(begin, span);
    let mut i: usize = begin;
    assert(spans@ =~= cover(old(spans)@, begin as nat, i as nat, span));
    while i < end
        invariant
            begin <= i <= end,
            spans@ == cover(old(spans)@, begin as nat, i as nat, span),
        decreases end - i,
    {
        i += 1;
        spans.insert(i, span);
        assert(spans@ =~= cover(old(spans)@, begin as nat, i as nat, span));
    }
}

fn push_separator(script: &mut String, pos: Option<Pos>, t: &Token)
    ensures
        final(script)@ == old(script)@ + separator(pos, t@),
{
    let line: usize = t.start().line;
    let col: usize = t.start().column;
    let (prev_line, prev_col) = match pos {
        Some(p) => (p.line, p.column),
        None => (line, col),
    };
    proof {
        reveal_strlit("\n");
        reveal_strlit(" ");
    }
    if line > prev_line {
        script.append("\n");
        assert(script@ =~= old(script)@ + separator(pos, t@));
    } else if line == prev_line {
        let n: usize = col.saturating_sub(prev_col);
        let mut i: usize = 0;
        assert(script@ =~= old(script)@ + spaces(0));
        while i < n
            invariant
                i <= n,
                script@ == old(script)@ + spaces(i as nat),
            decreases n - i,
        {
            proof {
                reveal_strlit(" ");
            }
            script.append(" ");
            i += 1;
            assert(script@ =~= old(script)@ + spaces(i as nat));
        }
    } else {
        assert(script@ =~= old(script)@ + separator(pos, t@));
    }
}

fn bindings_text(args: &Args) -> (out: String)
    ensures
        out@ == bindings(args@),
{
    let items = args.args();
    let mut out = String::new();
    let mut i: usize = 0;
    assert(args@.take(0) =~= Seq::<ArgView>::empty());
    while i < items.len()
        invariant
            i <= items@.len(),
            arg_views(items@) == args@,
            out@ == bindings(args@.take(i as int)),
        decreases items@.len() - i,
    {
        let a = &items[i];
        assert(a@ == args@[i as int]);
        assert(args@.take(i + 1).drop_last() =~= args@.take(i as int));
        out.append("local ");
        out.append(a.as_lua());
        out.append(" = ");
        out.append(a.as_argv());
        out.append("; ");
        i += 1;
        assert(out@ =~= bindings(args@.take(i as int)));
    }
    assert(args@.take(i as int) =~= args@);
    out
}

/// The assembled unit: the checked body, the text that is sent, the index
/// from offsets of the body to host locations, and the placeholders.
#[derive(Debug)]
pub struct Script {
    script: String,
    wrapped: String,
    spans: BTreeMap<usize, Span>,
    args: Args,
    limit: usize,
}

impl View for Script {
    type V = ScriptView;

    closed spec fn view(&self) -> ScriptView {
        ScriptView {
            script: self.script@,
            wrapped: self.wrapped@,
            spans: self.spans@,
            args: self.args@,
        }
    }
}

impl Script {
    /// Whether the script is well formed: its registry is, and the index
    /// holds no offset beyond the limit that the script keeps.
    pub closed spec fn wf(&self) -> bool {
        &&& registry_wf(self.args@)
        &&& forall|k: usize| self.spans@.contains_key(k) ==> k <= self.limit
    }

    /// Assembles the script of `tokens`. With `convert_args` each
    /// placeholder is registered and replaced by its internal name;
    /// without, every token is written as it is.
    pub fn assemble(tokens: Tokens, convert_args: bool) -> (r: Self)
        ensures
            r@ == script_of(tokens@, convert_args),
            r.wf(),
    {
        let toks = tokens.into_vec();
        let ghost all = tokens@;
        let mut script = String::new();
        let mut spans: BTreeMap<usize, Span> = BTreeMap::new();
        let mut args = Args::new();
        let mut pos: Option<Pos> = None;
        let mut i: usize = 0;
        assert(all.take(0) =~= Seq::<TokenView>::empty());
        while i < toks.len()
            invariant
                i <= toks@.len(),
                all == crate::token::token_views(toks@),
                args.wf(),
                script@ == assemble(all.take(i as int), convert_args).text,
                args@ == assemble(all.take(i as int), convert_args).args,
                spans@ == assemble(all.take(i as int), convert_args).spans,
                pos == assemble(all.take(i as int), convert_args).pos,
            decreases toks@.len() - i,
        {
            let t = &toks[i];
            let ghost prev = assemble(all.take(i as int), convert_args);
            proof {
                assert(t@ == all[i as int]);
                assert(all.take(i + 1).drop_last() =~= all.take(i as int));
                assert(all.take(i + 1).last() == t@);
            }
            let code: String = if t.is_arg() && convert_args {
                let arg = args.add(t);
                String::from_str(arg.as_lua())
            } else {
                t.to_string()
            };
            let span = t.span();
            push_separator(&mut script, pos, t);
            let begin: usize = text_len(script.as_str());
            script.append(code.as_str());
            let end: usize = text_len(script.as_str());
            proof {
                lemma_byte_len_concat(prev.text + separator(prev.pos, t@), code@);
            }
            cover_range(&mut spans, begin, end, span);
            pos = Some(t.end());
            i += 1;
        }
        assert(all.take(i as int) =~= all);
        let limit: usize = text_len(script.as_str());
        let script = trim_end(script.as_str());
        let wrapped = if convert_args {
            let mut w = bindings_text(&args);
            w.append("\n");
            w.append(script.as_str());
            w
        } else {
            String::new()
        };
        proof {
            lemma_assemble_limit(all, convert_args);
        }
        Self { script, wrapped, spans, args, limit }
    }

    /// The script of a host stream: its tokens, assembled.
    pub fn new(tokens: Vec<TokenTree>, convert_args: bool) -> (r: Self)
        requires
            retokenize_spec(tokens@) is Some,
        ensures
            r@ == script_of(retokenize_spec(tokens@).unwrap(), convert_args),
            r.wf(),
    {
        Self::assemble(retokenize(tokens), convert_args)
    }

    /// The script of a host stream, or `None` where the stream cannot be
    /// turned into tokens.
    pub fn try_new(tokens: Vec<TokenTree>, convert_args: bool) -> (r: Option<Self>)
        ensures
            match r {
                Some(s) => retokenize_spec(tokens@) is Some && s@ == script_of(
                    retokenize_spec(tokens@).unwrap(),
                    convert_args,
                ) && s.wf(),
                None => retokenize_spec(tokens@) is None,
            },
    {
        if retokenizable(&tokens) {
            Some(Self::new(tokens, convert_args))
        } else {
            None
        }
    }

    /// The checked body: the script's text with each placeholder replaced
    /// by its internal name.
    pub fn script(&self) -> (r: &str)
        ensures
            r@ == self@.script,
    {
        self.script.as_str()
    }

    /// The text that is sent: the body behind the lines that bind each
    /// internal name to its argument slot.
    pub fn wrap(&self) -> (r: &str)
        ensures
            r@ == self@.wrapped,
    {
        self.wrapped.as_str()
    }

    /// The placeholders, in the order of their first occurrence.
    pub fn args(&self) -> (r: &[Arg])
        ensures
            arg_views(r@) == self@.args,
    {
        self.args.args()
    }

    /// The host locations of the offsets from `range.0` to `range.1` of the
    /// checked body, both included, by rising offset. An empty range gives
    /// no location.
    pub fn range_to_span(&self, range: (usize, usize)) -> (r: Vec<Span>)
        requires
            self.wf(),
        ensures
            r@ == spans_in(self@.spans, range.0 as int, range.1 as int),
    {
        let lo: usize = range.0;
        let hi: usize = if range.1 < self.limit {
            range.1
        } else {
            self.limit
        };
        proof {
            if range.1 >= self.limit {
                lemma_spans_in_clamp(self.spans@, lo as int, range.1 as int, self.limit as int);
            }
        }
        let mut out: Vec<Span> = Vec::new();
        if lo > hi {
            return out;
        }
        let mut k: usize = lo;
        loop
            invariant_except_break
                out@ == spans_in(self.spans@, lo as int, k - 1),
            invariant
                lo <= k <= hi,
            ensures
                out@ == spans_in(self.spans@, lo as int, hi as int),
            decreases hi - k,
        {
            match self.spans.get(&k) {
                Some(span) => {
                    out.push(*span);
                },
                None => {},
            }
            if k == hi {
                break ;
            }
            k += 1;
        }
        out
    }
}

} // verus!
