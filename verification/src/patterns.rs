//! The pieces of source text that the builder stages of a script are made
//! of: for each placeholder a type parameter, a field and a bound, all
//! numbered as the placeholder is.

use crate::script::arg_views;
use crate::script::Arg;
use crate::script::ArgType;
use crate::script::ArgView;
use crate::script::Script;
use crate::text::decimal;
use crate::text::numbered;
use vstd::prelude::*;
use vstd::string::StringExecFns;

verus! {

/// A placeholder with its number in the script.
pub struct Slot<'a> {
    pub index: usize,
    pub arg: &'a Arg,
}

/// What a slot is, as a value.
pub struct SlotView {
    pub index: int,
    pub arg: ArgView,
}

impl<'a> View for Slot<'a> {
    type V = SlotView;

    open spec fn view(&self) -> SlotView {
        SlotView { index: self.index as int, arg: self.arg@ }
    }
}

/// The values of a run of slots.
pub open spec fn slot_views(s: Seq<Slot>) -> Seq<SlotView> {
    s.map_values(|t: Slot| t@)
}

/// Every placeholder of `args` with its number.
pub open spec fn all_slots(args: Seq<ArgView>) -> Seq<SlotView> {
    Seq::new(args.len(), |i: int| SlotView { index: i, arg: args[i] })
}

/// The placeholders of kind `atype` among `args`, each with its number, in
/// the order of `args`.
pub open spec fn slots_of(args: Seq<ArgView>, atype: ArgType) -> Seq<SlotView>
    decreases args.len(),
{
    if args.len() == 0 {
        seq![]
    } else if args.last().atype == atype {
        slots_of(args.drop_last(), atype).push(
            SlotView { index: args.len() - 1, arg: args.last() },
        )
    } else {
        slots_of(args.drop_last(), atype)
    }
}

/// The name of the type parameter of placeholder number `index`.
pub open spec fn type_text(index: int) -> Seq<char> {
    "A"@ + decimal(index as nat)
}

/// The name of the field of placeholder number `index`.
pub open spec fn param_text(index: int) -> Seq<char> {
    "a"@ + decimal(index as nat)
}

/// The declaration of the field of placeholder number `index`.
pub open spec fn mem_text(index: int) -> Seq<char> {
    param_text(index) + ": Option<"@ + type_text(index) + ">"@
}

/// The constructor parameter of placeholder number `index`.
pub open spec fn arg_text(index: int) -> Seq<char> {
    param_text(index) + ": "@ + type_text(index)
}

/// The statement that hands the value of placeholder number `index` to the
/// invocation.
pub open spec fn invoke_text(index: int) -> Seq<char> {
    "invoke.arg(self."@ + param_text(index) + ".take().unwrap())"@
}

/// The bound on the type parameter of placeholder number `index`: its
/// values must be fit to be laid out as an argument.
pub open spec fn bound_text(index: int) -> Seq<char> {
    type_text(index) + ": redis_lua_host::serde::Serialize"@
}

/// Every placeholder of the script with its number.
pub fn all<'a>(script: &'a Script) -> (r: Vec<Slot<'a>>)
    ensures
        slot_views(r@) == all_slots(script@.args),
{
    let args = script.args();
    let mut out: Vec<Slot<'a>> = Vec::new();
    let mut i: usize = 0;
    while i < args.len()
        invariant
            i <= args@.len(),
            arg_views(args@) == script@.args,
            slot_views(out@) == all_slots(script@.args.take(i as int)),
        decreases args@.len() - i,
    {
        assert(args@[i as int]@ == script@.args[i as int]);
        let ghost before = slot_views(out@);
        out.push(Slot { index: i, arg: &args[i] });
        i += 1;
        assert(slot_views(out@) =~= before.push(
            SlotView { index: i - 1, arg: script@.args[i - 1] },
        ));
        assert(slot_views(out@) =~= all_slots(script@.args.take(i as int)));
    }
    assert(script@.args.take(i as int) =~= script@.args);
    out
}

fn select<'a>(script: &'a Script, atype: ArgType) -> (r: Vec<Slot<'a>>)
    ensures
        slot_views(r@) == slots_of(script@.args, atype),
{
    let args = script.args();
    let mut out: Vec<Slot<'a>> = Vec::new();
    let mut i: usize = 0;
    assert(script@.args.take(0) =~= Seq::<ArgView>::empty());
    while i < args.len()
        invariant
            i <= args@.len(),
            arg_views(args@) == script@.args,
            slot_views(out@) == slots_of(script@.args.take(i as int), atype),
        decreases args@.len() - i,
    {
        assert(args@[i as int]@ == script@.args[i as int]);
        assert(script@.args.take(i + 1).drop_last() =~= script@.args.take(i as int));
        if args[i].atype() == atype {
            out.push(Slot { index: i, arg: &args[i] });
        }
        i += 1;
        assert(slot_views(out@) =~= slots_of(script@.args.take(i as int), atype));
    }
    assert(script@.args.take(i as int) =~= script@.args);
    out
}

/// The placeholders whose value is captured where the script is defined.
pub fn caps<'a>(script: &'a Script) -> (r: Vec<Slot<'a>>)
    ensures
        slot_views(r@) == slots_of(script@.args, ArgType::Cap),
{
    select(script, ArgType::Cap)
}

/// The placeholders whose value is supplied later.
pub fn vars<'a>(script: &'a Script) -> (r: Vec<Slot<'a>>)
    ensures
        slot_views(r@) == slots_of(script@.args, ArgType::Var),
{
    select(script, ArgType::Var)
}

/// The host name of a placeholder: the name of its setter.
pub fn to_name(slot: &Slot) -> (r: String)
    ensures
        r@ == slot@.arg.key.source,
{
    String::from_str(slot.arg.as_rust())
}

/// The type parameter of a placeholder, e.g. `A3`.
pub fn to_type(slot: &Slot) -> (r: String)
    ensures
        r@ == type_text(slot@.index),
{
    let out = numbered("A", slot.index, "");
    proof {
        reveal_strlit("");
        assert(out@ =~= type_text(slot@.index));
    }
    out
}

/// The field of a placeholder, e.g. `a3`.
pub fn to_param(slot: &Slot) -> (r: String)
    ensures
        r@ == param_text(slot@.index),
{
    let out = numbered("a", slot.index, "");
    proof {
        reveal_strlit("");
        assert(out@ =~= param_text(slot@.index));
    }
    out
}

/// The declaration of a placeholder's field, e.g. `a3: Option<A3>`.
pub fn to_mem(slot: &Slot) -> (r: String)
    ensures
        r@ == mem_text(slot@.index),
{
    let mut out = to_param(slot);
    out.append(": Option<");
    out.append(to_type(slot).as_str());
    out.append(">");
    out
}

/// The constructor parameter of a placeholder, e.g. `a3: A3`.
pub fn to_arg(slot: &Slot) -> (r: String)
    ensures
        r@ == arg_text(slot@.index),
{
    let mut out = to_param(slot);
    out.append(": ");
    out.append(to_type(slot).as_str());
    out
}

/// The statement that hands a placeholder's value to the invocation.
pub fn to_invoke(slot: &Slot) -> (r: String)
    ensures
        r@ == invoke_text(slot@.index),
{
    let mut out = String::from_str("invoke.arg(self.");
    out.append(to_param(slot).as_str());
    out.append(".take().unwrap())");
    out
}

/// The bound that lets a placeholder's value be sent.
pub fn to_bound(slot: &Slot) -> (r: String)
    ensures
        r@ == bound_text(slot@.index),
{
    let mut out = to_type(slot);
    out.append(": redis_lua_host::serde::Serialize");
    out
}

/// How many placeholders of the script are supplied later.
pub fn varlen(script: &Script) -> (n: usize)
    ensures
        n == slots_of(script@.args, ArgType::Var).len(),
{
    let v = vars(script);
    assert(slot_views(v@).len() == v@.len());
    v.len()
}

} // verus!
