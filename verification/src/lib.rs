//! Embedding of Lua scripts for a Redis-like store: tokens of the embedded
//! script, the assembled script with its placeholders, the checks run on it,
//! and the builder stages that bind late arguments before dispatch.

pub mod assembly;
pub mod builder;
pub mod chains;
pub mod check;
pub mod patterns;
pub mod script;
pub mod text;
pub mod token;
pub mod types;

use crate::builder::kinds;
use crate::builder::late_names;
use crate::builder::lua_names;
use crate::builder::order_of;
use crate::builder::var_names;
use crate::builder::Info;
use crate::chains::gen_all;
use crate::chains::is_chain_def;
use crate::chains::is_partial_chain_def;
use crate::chains::var_count;
use crate::chains::Generated;
use crate::check::diagnostic_views;
use crate::check::check_outcome;
use crate::check::Checker;
use crate::check::Diagnostic;
use crate::check::DiagnosticView;
use crate::check::SetupError;
use crate::patterns::caps;
use crate::patterns::slot_views;
use crate::patterns::slots_of;
use crate::patterns::to_name;
use crate::script::script_of;
use crate::script::ArgType;
use crate::script::ArgView;
use crate::script::Script;
use crate::token::retokenizable;
use crate::token::retokenize_spec;
use crate::token::TokenTree;
use vstd::prelude::*;
use vstd::string::StringExecFns;

verus! {

/// What a script with placeholders expands to: the script, what the check
/// found, what its builder is made of, the internal names of all its
/// placeholders, the host names of the captured ones, the kinds of all
/// placeholders in order, and the host names of the late ones.
#[derive(Debug)]
pub struct Expansion {
    pub script: Script,
    pub diagnostics: Vec<Diagnostic>,
    pub generated: Generated,
    pub args: Vec<String>,
    pub caps: Vec<String>,
    pub kinds: Vec<ArgType>,
    pub vars: Vec<String>,
}

/// What a plain script expands to: its text, and what the check found.
#[derive(Debug)]
pub struct PlainExpansion {
    pub script: String,
    pub diagnostics: Vec<Diagnostic>,
}

/// The host names of the captured placeholders among `args`, in order.
pub open spec fn cap_names(args: Seq<ArgView>) -> Seq<Seq<char>> {
    Seq::new(
        slots_of(args, ArgType::Cap).len(),
        |k: int| slots_of(args, ArgType::Cap)[k].arg.key.source,
    )
}

/// Whether `e` is an expansion of `tokens` with placeholders: the
/// diagnostics are what a check reports of the script with the internal
/// names of its placeholders allowed, and every other part follows from the
/// tokens.
pub open spec fn is_expansion(e: Expansion, tokens: Seq<TokenTree>) -> bool {
    let args = e.script@.args;
    &&& retokenize_spec(tokens) is Some
    &&& e.script@ == script_of(retokenize_spec(tokens).unwrap(), true)
    &&& e.script.wf()
    &&& e.generated.chains@.len() == var_count(args) + 1
    &&& e.generated.pchains@.len() == var_count(args)
    &&& forall|i: int|
        0 <= i < e.generated.chains@.len() ==> is_chain_def(#[trigger] e.generated.chains@[i], args, i)
    &&& forall|i: int|
        0 <= i < e.generated.pchains@.len() ==> is_partial_chain_def(
            #[trigger] e.generated.pchains@[i],
            args,
            i,
        )
    &&& e.args.deep_view() == lua_names(args)
    &&& e.caps.deep_view() == cap_names(args)
    &&& e.kinds@ == kinds(args)
    &&& e.vars.deep_view() == var_names(args)
    &&& check_outcome(e.script@.spans, e.script@.script, lua_names(args), false) == Some(
        diagnostic_views(e.diagnostics@),
    )
}

/// Whether `e` is an expansion of `tokens` as a plain script: its text is
/// the checked body of the tokens written as they are, and the diagnostics
/// are what a check reports of it with the argument vector `ARGV` allowed.
pub open spec fn is_plain_expansion(e: PlainExpansion, tokens: Seq<TokenTree>) -> bool {
    &&& retokenize_spec(tokens) is Some
    &&& e.script@ == script_of(retokenize_spec(tokens).unwrap(), false).script
    &&& check_outcome(
        script_of(retokenize_spec(tokens).unwrap(), false).spans,
        e.script@,
        seq!["ARGV"@],
        false,
    ) == Some(diagnostic_views(e.diagnostics@))
}

/// What a check reports of `tokens` expanded with placeholders; `None`
/// where the lint engine does not take the bundled configuration.
pub open spec fn lua_outcome(tokens: Seq<TokenTree>) -> Option<Seq<DiagnosticView>> {
    let script = script_of(retokenize_spec(tokens).unwrap(), true);
    check_outcome(script.spans, script.script, lua_names(script.args), false)
}

/// What a check reports of `tokens` expanded as a plain script; `None`
/// where the lint engine does not take the bundled configuration.
pub open spec fn lua_s_outcome(tokens: Seq<TokenTree>) -> Option<Seq<DiagnosticView>> {
    let script = script_of(retokenize_spec(tokens).unwrap(), false);
    check_outcome(script.spans, script.script, seq!["ARGV"@], false)
}

/// Expands a script with placeholders: it is assembled with each
/// placeholder replaced by its internal name, checked with those names
/// allowed, and the stages of its builder are laid out. Refused only
/// where the script parses and the lint engine does not take the bundled
/// configuration.
pub fn lua(input: Vec<TokenTree>) -> (r: Result<Expansion, SetupError>)
    requires
        retokenize_spec(input@) is Some,
    ensures
        match r {
            Ok(e) => is_expansion(e, input@),
            Err(e) => lua_outcome(input@) is None,
        },
{
    let script = Script::new(input, true);
    let names = Info::of(&script).into_args();
    let defined = Info::of(&script).into_args();
    let mut checker = Checker::new();
    let diagnostics = match checker.defines(defined).check(&script) {
        Ok(d) => d,
        Err(e) => {
            return Err(e);
        },
    };
    let generated = gen_all(&script);
    let captured = caps(&script);
    let mut cap_hosts: Vec<String> = Vec::new();
    let mut c: usize = 0;
    while c < captured.len()
        invariant
            c <= captured@.len(),
            slot_views(captured@) == slots_of(script@.args, ArgType::Cap),
            cap_hosts.deep_view() == cap_names(script@.args).take(c as int),
        decreases captured@.len() - c,
    {
        let ghost before = cap_hosts.deep_view();
        assert(slot_views(captured@)[c as int] == captured@[c as int]@);
        cap_hosts.push(to_name(&captured[c]));
        assert(cap_hosts.deep_view() =~= before.push(
            slots_of(script@.args, ArgType::Cap)[c as int].arg.key.source,
        ));
        c += 1;
        assert(cap_hosts.deep_view() =~= cap_names(script@.args).take(c as int));
    }
    assert(cap_names(script@.args).take(c as int) =~= cap_names(script@.args));
    let kinds = order_of(&script);
    let vars = late_names(&script);
    Ok(Expansion { script, diagnostics, generated, args: names, caps: cap_hosts, kinds, vars })
}

/// Expands a script with placeholders, or gives `None` where the input
/// cannot be turned into tokens.
pub fn try_lua(input: Vec<TokenTree>) -> (r: Option<Result<Expansion, SetupError>>)
    ensures
        match r {
            Some(Ok(e)) => is_expansion(e, input@),
            Some(Err(e)) => retokenize_spec(input@) is Some && lua_outcome(input@) is None,
            None => retokenize_spec(input@) is None,
        },
{
    if retokenizable(&input) {
        Some(lua(input))
    } else {
        None
    }
}

/// Expands a plain script: every token is written as it is, and the script
/// is checked with the argument vector `ARGV` allowed. Refused only where
/// the script parses and the lint engine does not take the bundled
/// configuration.
pub fn lua_s(input: Vec<TokenTree>) -> (r: Result<PlainExpansion, SetupError>)
    requires
        retokenize_spec(input@) is Some,
    ensures
        match r {
            Ok(e) => is_plain_expansion(e, input@),
            Err(e) => lua_s_outcome(input@) is None,
        },
{
    let script = Script::new(input, false);
    let mut checker = Checker::new();
    let diagnostics = match checker.define("ARGV").check(&script) {
        Ok(d) => d,
        Err(e) => {
            return Err(e);
        },
    };
    Ok(PlainExpansion { script: String::from_str(script.script()), diagnostics })
}

/// Expands a plain script, or gives `None` where the input cannot be
/// turned into tokens.
pub fn try_lua_s(input: Vec<TokenTree>) -> (r: Option<Result<PlainExpansion, SetupError>>)
    ensures
        match r {
            Some(Ok(e)) => is_plain_expansion(e, input@),
            Some(Err(e)) => retokenize_spec(input@) is Some && lua_s_outcome(input@) is None,
            None => retokenize_spec(input@) is None,
        },
{
    if retokenizable(&input) {
        Some(lua_s(input))
    } else {
        None
    }
}

} // verus!
