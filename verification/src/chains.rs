//! The builder stages of a script. A script with `N` late placeholders has
//! the stages `0` to `N`: stage `i` holds the captured values and the first
//! `i` late values, and offers the setter of late placeholder `i`, or, as
//! stage `N`, dispatch. The stages `0` to `N - 1` each have a partial
//! stage beside them, which carries a second fragment along until the first
//! one is complete.
//!
//! This module decides what each stage is made of. It names every piece and
//! leaves the writing of host code to the caller.

use crate::patterns::all;
use crate::patterns::all_slots;
use crate::patterns::arg_text;
use crate::patterns::bound_text;
use crate::patterns::caps;
use crate::patterns::invoke_text;
use crate::patterns::mem_text;
use crate::patterns::param_text;
use crate::patterns::slot_views;
use crate::patterns::slots_of;
use crate::patterns::to_arg;
use crate::patterns::to_bound;
use crate::patterns::to_invoke;
use crate::patterns::to_mem;
use crate::patterns::to_name;
use crate::patterns::to_param;
use crate::patterns::to_type;
use crate::patterns::type_text;
use crate::patterns::varlen;
use crate::patterns::vars;
use crate::patterns::Slot;
use crate::patterns::SlotView;
use crate::script::ArgType;
use crate::script::ArgView;
use crate::script::Script;
use crate::text::decimal;
use crate::text::numbered;
use vstd::prelude::*;

verus! {

/// The number of late placeholders among `args`.
pub open spec fn var_count(args: Seq<ArgView>) -> nat {
    slots_of(args, ArgType::Var).len()
}

/// The placeholders that stage `index` holds: every captured one, then the
/// first `index` late ones.
pub open spec fn stage_slots(args: Seq<ArgView>, index: int) -> Seq<SlotView> {
    slots_of(args, ArgType::Cap) + slots_of(args, ArgType::Var).take(index)
}

/// The late placeholder whose setter stage `index` offers.
pub open spec fn var_slot(args: Seq<ArgView>, index: int) -> SlotView {
    slots_of(args, ArgType::Var)[index]
}

/// The name of stage `index`.
pub open spec fn chain_name(index: int) -> Seq<char> {
    "Chain"@ + decimal(index as nat)
}

/// The name of partial stage `index`.
pub open spec fn pchain_name(index: int) -> Seq<char> {
    "PartialChain"@ + decimal(index as nat)
}

/// A kind of text that is written once for each placeholder of a stage.
#[derive(Clone, Copy, Debug, PartialEq, Eq, Structural)]
pub enum Piece {
    /// The type parameter, e.g. `A0`.
    Type,
    /// The field, e.g. `a0`.
    Param,
    /// The constructor parameter, e.g. `a0: A0`.
    Arg,
    /// The field's declaration, e.g. `a0: Option<A0>`.
    Mem,
    /// The bound that lets the value be sent.
    Bound,
    /// The statement that hands the value to the invocation.
    Invoke,
}

/// The text of kind `piece` for placeholder number `index`.
pub open spec fn piece_text(piece: Piece, index: int) -> Seq<char> {
    match piece {
        Piece::Type => type_text(index),
        Piece::Param => param_text(index),
        Piece::Arg => arg_text(index),
        Piece::Mem => mem_text(index),
        Piece::Bound => bound_text(index),
        Piece::Invoke => invoke_text(index),
    }
}

/// The texts of kind `piece` for `slots`, in order.
pub open spec fn pieces(piece: Piece, slots: Seq<SlotView>) -> Seq<Seq<char>> {
    Seq::new(slots.len(), |k: int| piece_text(piece, slots[k].index))
}

fn piece_of(piece: Piece, slot: &Slot) -> (r: String)
    ensures
        r@ == piece_text(piece, slot@.index),
{
    match piece {
        Piece::Type => to_type(slot),
        Piece::Param => to_param(slot),
        Piece::Arg => to_arg(slot),
        Piece::Mem => to_mem(slot),
        Piece::Bound => to_bound(slot),
        Piece::Invoke => to_invoke(slot),
    }
}

fn push_pieces(out: &mut Vec<String>, piece: Piece, slots: &Vec<Slot>, count: usize)
    requires
        count <= slots@.len(),
    ensures
        final(out).deep_view() == old(out).deep_view() + pieces(
            piece,
            slot_views(slots@).take(count as int),
        ),
{
    let mut k: usize = 0;
    assert(out.deep_view() =~= old(out).deep_view() + pieces(piece, slot_views(slots@).take(0)));
    while k < count
        invariant
            k <= count <= slots@.len(),
            out.deep_view() == old(out).deep_view() + pieces(
                piece,
                slot_views(slots@).take(k as int),
            ),
        decreases count - k,
    {
        let ghost before = out.deep_view();
        let text = piece_of(piece, &slots[k]);
        out.push(text);
        assert(slot_views(slots@)[k as int] == slots@[k as int]@);
        assert(out.deep_view() =~= before.push(piece_text(piece, slots@[k as int]@.index)));
        k += 1;
        assert(out.deep_view() =~= old(out).deep_view() + pieces(
            piece,
            slot_views(slots@).take(k as int),
        ));
    }
}

/// A type's name and the type parameters of the placeholders that it holds.
/// Written out, the name is followed by the parameters that every stage
/// has, then by these.
#[derive(Debug)]
pub struct TyName {
    pub name: String,
    pub types: Vec<String>,
}

/// How a stage is constructed.
#[derive(Debug)]
pub enum Ctor {
    /// The first stage is made of the script's description, what was joined
    /// before, and one value for each captured placeholder.
    New { args: Vec<String>, params: Vec<String> },
    /// A later stage is made of the stage before it and the value of that
    /// stage's late placeholder: every field of the stage before is kept.
    Chain { prev: TyName, var_type: String, var_param: String, params: Vec<String> },
}

/// What a stage offers.
#[derive(Debug)]
pub enum Methods {
    /// The setter of the stage's late placeholder, which gives the next stage.
    Setter { var_name: String, var_type: String, next_name: String, next_tyname: TyName },
    /// Dispatch, on the last stage: every value must be fit to be sent.
    Invoke { bounds: Vec<String> },
}

/// How a first stage is combined with another fragment on its right.
#[derive(Debug)]
pub enum AddImpl {
    /// Late placeholders are open: the two are kept side by side in the
    /// partial stage of this name.
    Partial { pname: String },
    /// The stage is complete: the right side takes it in.
    Take,
}

/// How a first stage takes in a unit that runs before it, and how it is
/// combined with a fragment on its right.
#[derive(Debug)]
pub struct Adders {
    pub tyname: TyName,
    pub name: String,
    pub types: Vec<String>,
    pub params: Vec<String>,
    pub add: AddImpl,
}

/// How the last stage is dispatched: what was joined before runs first,
/// then the value of every placeholder is handed over, in the order of the
/// script's placeholders.
#[derive(Debug)]
pub struct ScriptImpl {
    pub tyname: TyName,
    pub types: Vec<String>,
    pub bounds: Vec<String>,
    pub invokes: Vec<String>,
}

/// Everything that one stage is made of.
#[derive(Debug)]
pub struct ChainDef {
    pub tyname: TyName,
    pub types: Vec<String>,
    pub mems: Vec<String>,
    pub ctors: Ctor,
    pub methods: Methods,
    pub script: Option<ScriptImpl>,
    pub adders: Option<Adders>,
}

/// What a partial stage offers.
#[derive(Debug)]
pub enum PartialMethods {
    /// The setter is handed on to the stage inside, and the result is
    /// wrapped again in the next partial stage.
    Forward { var_name: String, var_type: String, next_name: String, next_tyname: TyName },
    /// The setter completes the stage inside, and the fragment carried
    /// along takes the complete stage in.
    Collapse { var_name: String, var_type: String, complete: TyName },
}

/// How a first partial stage takes in a unit that runs before it, and how
/// it is combined with a fragment on its right.
#[derive(Debug)]
pub struct PartialAdders {
    pub name: String,
    pub types: Vec<String>,
}

/// Everything that one partial stage is made of.
#[derive(Debug)]
pub struct PartialChainDef {
    pub tyname: TyName,
    pub chain_tyname: TyName,
    pub types: Vec<String>,
    pub methods: PartialMethods,
    pub adders: Option<PartialAdders>,
}

/// Whether `t` names stage `index` of a script with the placeholders `args`.
pub open spec fn is_chain_tyname(t: TyName, args: Seq<ArgView>, index: int) -> bool {
    &&& t.name@ == chain_name(index)
    &&& t.types.deep_view() == pieces(Piece::Type, stage_slots(args, index))
}

/// Whether `t` names partial stage `index` of a script with the
/// placeholders `args`.
pub open spec fn is_pchain_tyname(t: TyName, args: Seq<ArgView>, index: int) -> bool {
    &&& t.name@ == pchain_name(index)
    &&& t.types.deep_view() == pieces(Piece::Type, stage_slots(args, index))
}

/// Whether `c` constructs stage `index`.
pub open spec fn is_ctor(c: Ctor, args: Seq<ArgView>, index: int) -> bool {
    match c {
        Ctor::New { args: a, params } => {
            &&& index == 0
            &&& a.deep_view() == pieces(Piece::Arg, stage_slots(args, 0))
            &&& params.deep_view() == pieces(Piece::Param, stage_slots(args, 0))
        },
        Ctor::Chain { prev, var_type, var_param, params } => {
            &&& index > 0
            &&& is_chain_tyname(prev, args, index - 1)
            &&& var_type@ == type_text(var_slot(args, index - 1).index)
            &&& var_param@ == param_text(var_slot(args, index - 1).index)
            &&& params.deep_view() == pieces(Piece::Param, stage_slots(args, index - 1))
        },
    }
}

/// Whether `m` is what stage `index` offers: a setter below the last
/// stage, dispatch on it.
pub open spec fn is_methods(m: Methods, args: Seq<ArgView>, index: int) -> bool {
    match m {
        Methods::Setter { var_name, var_type, next_name, next_tyname } => {
            &&& index < var_count(args)
            &&& var_name@ == var_slot(args, index).arg.key.source
            &&& var_type@ == type_text(var_slot(args, index).index)
            &&& next_name@ == chain_name(index + 1)
            &&& is_chain_tyname(next_tyname, args, index + 1)
        },
        Methods::Invoke { bounds } => {
            &&& index == var_count(args)
            &&& bounds.deep_view() == pieces(Piece::Bound, stage_slots(args, index))
        },
    }
}

/// Whether `a` is how stage `index` is combined: the first stage alone is,
/// as a partial stage while late placeholders are open.
pub open spec fn is_adders(a: Option<Adders>, args: Seq<ArgView>, index: int) -> bool {
    match a {
        Some(a) => {
            &&& index == 0
            &&& is_chain_tyname(a.tyname, args, 0)
            &&& a.name@ == chain_name(0)
            &&& a.types.deep_view() == pieces(Piece::Type, stage_slots(args, 0))
            &&& a.params.deep_view() == pieces(Piece::Param, stage_slots(args, 0))
            &&& match a.add {
                AddImpl::Partial { pname } => var_count(args) > 0 && pname@ == pchain_name(0),
                AddImpl::Take => var_count(args) == 0,
            }
        },
        None => index > 0,
    }
}

/// Whether `s` is how stage `index` is dispatched: the last stage alone is.
pub open spec fn is_script_impl(s: Option<ScriptImpl>, args: Seq<ArgView>, index: int) -> bool {
    match s {
        Some(s) => {
            &&& index == var_count(args)
            &&& is_chain_tyname(s.tyname, args, index)
            &&& s.types.deep_view() == pieces(Piece::Type, stage_slots(args, index))
            &&& s.bounds.deep_view() == pieces(Piece::Bound, stage_slots(args, index))
            &&& s.invokes.deep_view() == pieces(Piece::Invoke, all_slots(args))
        },
        None => index < var_count(args),
    }
}

/// Whether `d` is everything that stage `index` is made of.
pub open spec fn is_chain_def(d: ChainDef, args: Seq<ArgView>, index: int) -> bool {
    &&& is_chain_tyname(d.tyname, args, index)
    &&& d.types.deep_view() == pieces(Piece::Type, stage_slots(args, index))
    &&& d.mems.deep_view() == pieces(Piece::Mem, stage_slots(args, index))
    &&& is_ctor(d.ctors, args, index)
    &&& is_methods(d.methods, args, index)
    &&& is_script_impl(d.script, args, index)
    &&& is_adders(d.adders, args, index)
}

/// Whether `m` is what partial stage `index` offers: the setter is handed
/// on while the stage inside stays incomplete, and collapses the pair when
/// it completes the stage inside.
pub open spec fn is_partial_methods(m: PartialMethods, args: Seq<ArgView>, index: int) -> bool {
    match m {
        PartialMethods::Forward { var_name, var_type, next_name, next_tyname } => {
            &&& index + 1 < var_count(args)
            &&& var_name@ == var_slot(args, index).arg.key.source
            &&& var_type@ == type_text(var_slot(args, index).index)
            &&& next_name@ == pchain_name(index + 1)
            &&& is_pchain_tyname(next_tyname, args, index + 1)
        },
        PartialMethods::Collapse { var_name, var_type, complete } => {
            &&& index + 1 == var_count(args)
            &&& var_name@ == var_slot(args, index).arg.key.source
            &&& var_type@ == type_text(var_slot(args, index).index)
            &&& is_chain_tyname(complete, args, index + 1)
        },
    }
}

/// Whether `a` is how partial stage `index` is combined: the first one
/// alone is.
pub open spec fn is_partial_adders(a: Option<PartialAdders>, args: Seq<ArgView>, index: int) -> bool {
    match a {
        Some(a) => {
            &&& index == 0
            &&& a.name@ == pchain_name(0)
            &&& a.types.deep_view() == pieces(Piece::Type, stage_slots(args, 0))
        },
        None => index > 0,
    }
}

/// Whether `d` is everything that partial stage `index` is made of.
pub open spec fn is_partial_chain_def(d: PartialChainDef, args: Seq<ArgView>, index: int) -> bool {
    &&& index < var_count(args)
    &&& is_pchain_tyname(d.tyname, args, index)
    &&& is_chain_tyname(d.chain_tyname, args, index)
    &&& d.types.deep_view() == pieces(Piece::Type, stage_slots(args, index))
    &&& is_partial_methods(d.methods, args, index)
    &&& is_partial_adders(d.adders, args, index)
}

/// One stage of a script's builder.
#[derive(Clone, Copy, Debug)]
pub struct Chain<'a> {
    index: usize,
    script: &'a Script,
}

/// What a stage is, as a value: its number and the script's placeholders.
pub struct ChainView {
    pub index: int,
    pub args: Seq<ArgView>,
}

impl<'a> View for Chain<'a> {
    type V = ChainView;

    closed spec fn view(&self) -> ChainView {
        ChainView { index: self.index as int, args: self.script@.args }
    }
}

impl<'a> Chain<'a> {
    /// Whether the stage is one of the script's: its number is at most the
    /// number of late placeholders.
    pub open spec fn wf(&self) -> bool {
        0 <= self@.index <= var_count(self@.args)
    }

    /// Whether the stage is the last one, which alone offers dispatch.
    pub open spec fn is_last(&self) -> bool {
        self@.index == var_count(self@.args)
    }

    fn new(index: usize, script: &'a Script) -> (r: Self)
        ensures
            r@ == (ChainView { index: index as int, args: script@.args }),
    {
        Self { index, script }
    }

    /// The number of the stage.
    pub fn index(&self) -> (r: usize)
        ensures
            r == self@.index,
    {
        self.index
    }

    /// The next stage; the last stage has none.
    pub fn next(&self) -> (r: Option<Chain<'a>>)
        requires
            self.wf(),
        ensures
            match r {
                Some(c) => !self.is_last() && c.wf() && c@ == (ChainView {
                    index: self@.index + 1,
                    ..self@
                }),
                None => self.is_last(),
            },
    {
        if self.index < varlen(self.script) {
            Some(Chain::new(self.index + 1, self.script))
        } else {
            None
        }
    }

    /// The stage before; the first stage has none.
    pub fn prev(&self) -> (r: Option<Chain<'a>>)
        requires
            self.wf(),
        ensures
            match r {
                Some(c) => self@.index > 0 && c.wf() && c@ == (ChainView {
                    index: self@.index - 1,
                    ..self@
                }),
                None => self@.index == 0,
            },
    {
        if self.index == 0 {
            None
        } else {
            Some(Chain::new(self.index - 1, self.script))
        }
    }

    /// The partial stage beside this stage; the last stage has none.
    pub fn pchain(&self) -> (r: Option<PartialChain<'a>>)
        requires
            self.wf(),
        ensures
            match r {
                Some(p) => !self.is_last() && p.wf() && p@ == self@,
                None => self.is_last(),
            },
    {
        if self.index < varlen(self.script) {
            Some(PartialChain { chain: *self })
        } else {
            None
        }
    }

    /// The stage's name, e.g. `Chain2`.
    pub fn name(&self) -> (r: String)
        ensures
            r@ == chain_name(self@.index),
    {
        let out = numbered("Chain", self.index, "");
        proof {
            reveal_strlit("");
            assert(out@ =~= chain_name(self@.index));
        }
        out
    }

    /// The stage's type: its name and type parameters.
    pub fn tyname(&self) -> (r: TyName)
        requires
            self.wf(),
        ensures
            is_chain_tyname(r, self@.args, self@.index),
    {
        TyName { name: self.name(), types: self.types() }
    }

    fn stage_pieces(&self, piece: Piece) -> (r: Vec<String>)
        requires
            self.wf(),
        ensures
            r.deep_view() == pieces(piece, stage_slots(self@.args, self@.index)),
    {
        let c = caps(self.script);
        let v = vars(self.script);
        let mut out: Vec<String> = Vec::new();
        push_pieces(&mut out, piece, &c, c.len());
        push_pieces(&mut out, piece, &v, self.index);
        proof {
            let cs = slot_views(c@);
            let vs = slot_views(v@);
            assert(cs.take(c@.len() as int) =~= cs);
            assert(out.deep_view() =~= pieces(piece, cs + vs.take(self.index as int)));
        }
        out
    }

    /// The type parameters of the stage's placeholders, e.g. `A0`, `A1`.
    pub fn types(&self) -> (r: Vec<String>)
        requires
            self.wf(),
        ensures
            r.deep_view() == pieces(Piece::Type, stage_slots(self@.args, self@.index)),
    {
        self.stage_pieces(Piece::Type)
    }

    /// The fields of the stage's placeholders, e.g. `a0`, `a1`.
    pub fn params(&self) -> (r: Vec<String>)
        requires
            self.wf(),
        ensures
            r.deep_view() == pieces(Piece::Param, stage_slots(self@.args, self@.index)),
    {
        self.stage_pieces(Piece::Param)
    }

    /// The constructor parameters of the stage's placeholders.
    pub fn args(&self) -> (r: Vec<String>)
        requires
            self.wf(),
        ensures
            r.deep_view() == pieces(Piece::Arg, stage_slots(self@.args, self@.index)),
    {
        self.stage_pieces(Piece::Arg)
    }

    /// The declarations of the fields of the stage's placeholders.
    pub fn mems(&self) -> (r: Vec<String>)
        requires
            self.wf(),
        ensures
            r.deep_view() == pieces(Piece::Mem, stage_slots(self@.args, self@.index)),
    {
        self.stage_pieces(Piece::Mem)
    }

    /// The bounds on the type parameters of the stage's placeholders.
    pub fn bounds(&self) -> (r: Vec<String>)
        requires
            self.wf(),
        ensures
            r.deep_view() == pieces(Piece::Bound, stage_slots(self@.args, self@.index)),
    {
        self.stage_pieces(Piece::Bound)
    }

    /// The statements that hand every value of the script to the
    /// invocation, in the order of the script's placeholders.
    pub fn invokes(&self) -> (r: Vec<String>)
        ensures
            r.deep_view() == pieces(Piece::Invoke, all_slots(self@.args)),
    {
        let a = all(self.script);
        let mut out: Vec<String> = Vec::new();
        push_pieces(&mut out, Piece::Invoke, &a, a.len());
        proof {
            assert(slot_views(a@).take(a@.len() as int) =~= slot_views(a@));
            assert(out.deep_view() =~= pieces(Piece::Invoke, all_slots(self@.args)));
        }
        out
    }

    /// The name of the stage's setter: the host name of its late placeholder.
    pub fn varname(&self) -> (r: String)
        requires
            self.wf(),
            !self.is_last(),
        ensures
            r@ == var_slot(self@.args, self@.index).arg.key.source,
    {
        let v = vars(self.script);
        assert(slot_views(v@)[self.index as int] == v@[self.index as int]@);
        to_name(&v[self.index])
    }

    /// The field of the stage's late placeholder.
    pub fn varparam(&self) -> (r: String)
        requires
            self.wf(),
            !self.is_last(),
        ensures
            r@ == param_text(var_slot(self@.args, self@.index).index),
    {
        let v = vars(self.script);
        assert(slot_views(v@)[self.index as int] == v@[self.index as int]@);
        to_param(&v[self.index])
    }

    /// The type parameter of the stage's late placeholder.
    pub fn vartype(&self) -> (r: String)
        requires
            self.wf(),
            !self.is_last(),
        ensures
            r@ == type_text(var_slot(self@.args, self@.index).index),
    {
        let v = vars(self.script);
        assert(slot_views(v@)[self.index as int] == v@[self.index as int]@);
        to_type(&v[self.index])
    }

    /// How the stage is constructed: the first from the script and the
    /// captured values, a later one from the stage before and one value.
    pub fn impl_ctors(&self) -> (r: Ctor)
        requires
            self.wf(),
        ensures
            is_ctor(r, self@.args, self@.index),
    {
        match self.prev() {
            Some(prev) => Ctor::Chain {
                prev: prev.tyname(),
                var_type: prev.vartype(),
                var_param: prev.varparam(),
                params: prev.params(),
            },
            None => Ctor::New { args: self.args(), params: self.params() },
        }
    }

    /// What the stage offers: the setter of its late placeholder, or, on
    /// the last stage, dispatch.
    pub fn impl_methods(&self) -> (r: Methods)
        requires
            self.wf(),
        ensures
            is_methods(r, self@.args, self@.index),
    {
        match self.next() {
            Some(next) => Methods::Setter {
                var_name: self.varname(),
                var_type: self.vartype(),
                next_name: next.name(),
                next_tyname: next.tyname(),
            },
            None => Methods::Invoke { bounds: self.bounds() },
        }
    }

    /// How the stage is combined with other fragments. The first stage
    /// alone is: it takes in a unit that runs before it, and with a
    /// fragment on its right it forms a partial stage while late
    /// placeholders are open, else it is taken in by that fragment.
    pub fn impl_adders(&self) -> (r: Option<Adders>)
        requires
            self.wf(),
        ensures
            is_adders(r, self@.args, self@.index),
    {
        if self.prev().is_some() {
            return None;
        }
        let add = match self.pchain() {
            Some(pchain) => AddImpl::Partial { pname: pchain.name() },
            None => AddImpl::Take,
        };
        Some(
            Adders {
                tyname: self.tyname(),
                name: self.name(),
                types: self.types(),
                params: self.params(),
                add,
            },
        )
    }

    /// How the stage is dispatched. The last stage alone is.
    pub fn impl_script(&self) -> (r: Option<ScriptImpl>)
        requires
            self.wf(),
        ensures
            is_script_impl(r, self@.args, self@.index),
    {
        if self.next().is_some() {
            return None;
        }
        Some(
            ScriptImpl {
                tyname: self.tyname(),
                types: self.types(),
                bounds: self.bounds(),
                invokes: self.invokes(),
            },
        )
    }

    /// Everything that the stage is made of.
    pub fn gen(&self) -> (r: ChainDef)
        requires
            self.wf(),
        ensures
            is_chain_def(r, self@.args, self@.index),
    {
        ChainDef {
            tyname: self.tyname(),
            types: self.types(),
            mems: self.mems(),
            ctors: self.impl_ctors(),
            methods: self.impl_methods(),
            script: self.impl_script(),
            adders: self.impl_adders(),
        }
    }
}

/// The partial stage beside a stage that is not the last.
#[derive(Clone, Copy, Debug)]
pub struct PartialChain<'a> {
    chain: Chain<'a>,
}

impl<'a> View for PartialChain<'a> {
    type V = ChainView;

    closed spec fn view(&self) -> ChainView {
        self.chain@
    }
}

impl<'a> PartialChain<'a> {
    /// Whether the partial stage is one of the script's: its number is
    /// below the number of late placeholders.
    pub open spec fn wf(&self) -> bool {
        0 <= self@.index < var_count(self@.args)
    }

    fn new(chain: Chain<'a>) -> (r: Self)
        ensures
            r@ == chain@,
    {
        PartialChain { chain }
    }

    /// The next partial stage; the one beside the last stage but one has
    /// none.
    pub fn next(&self) -> (r: Option<PartialChain<'a>>)
        requires
            self.wf(),
        ensures
            match r {
                Some(p) => self@.index + 1 < var_count(self@.args) && p.wf() && p@ == (ChainView {
                    index: self@.index + 1,
                    ..self@
                }),
                None => self@.index + 1 == var_count(self@.args),
            },
    {
        match self.chain.next() {
            Some(c) => {
                if c.next().is_some() {
                    Some(Self::new(c))
                } else {
                    None
                }
            },
            None => None,
        }
    }

    /// The partial stage's name, e.g. `PartialChain0`.
    pub fn name(&self) -> (r: String)
        ensures
            r@ == pchain_name(self@.index),
    {
        let out = numbered("PartialChain", self.chain.index(), "");
        proof {
            reveal_strlit("");
            assert(out@ =~= pchain_name(self@.index));
        }
        out
    }

    /// The partial stage's type: its name and type parameters.
    pub fn tyname(&self) -> (r: TyName)
        requires
            self.wf(),
        ensures
            is_pchain_tyname(r, self@.args, self@.index),
    {
        TyName { name: self.name(), types: self.chain.types() }
    }

    /// What the partial stage offers: the setter of the stage inside,
    /// wrapped again while that stage stays incomplete, and collapsing the
    /// pair when it completes it.
    pub fn impl_methods(&self) -> (r: PartialMethods)
        requires
            self.wf(),
        ensures
            is_partial_methods(r, self@.args, self@.index),
    {
        let var_name = self.chain.varname();
        let var_type = self.chain.vartype();
        match self.next() {
            Some(next) => PartialMethods::Forward {
                var_name,
                var_type,
                next_name: next.name(),
                next_tyname: next.tyname(),
            },
            None => {
                let complete = self.chain.next().unwrap();
                PartialMethods::Collapse { var_name, var_type, complete: complete.tyname() }
            },
        }
    }

    /// How the partial stage is combined with other fragments. The first
    /// one alone is.
    pub fn impl_adders(&self) -> (r: Option<PartialAdders>)
        requires
            self.wf(),
        ensures
            is_partial_adders(r, self@.args, self@.index),
    {
        if self.chain.prev().is_some() {
            return None;
        }
        Some(PartialAdders { name: self.name(), types: self.chain.types() })
    }

    /// Everything that the partial stage is made of.
    pub fn gen(&self) -> (r: PartialChainDef)
        requires
            self.wf(),
        ensures
            is_partial_chain_def(r, self@.args, self@.index),
    {
        PartialChainDef {
            tyname: self.tyname(),
            chain_tyname: self.chain.tyname(),
            types: self.chain.types(),
            methods: self.impl_methods(),
            adders: self.impl_adders(),
        }
    }
}

/// The stages of a script, from the first to the last.
pub struct ChainIter<'a> {
    chain: Option<Chain<'a>>,
}

impl<'a> ChainIter<'a> {
    /// The stage that comes next, if any.
    pub closed spec fn peek(&self) -> Option<ChainView> {
        match self.chain {
            Some(c) => Some(c@),
            None => None,
        }
    }

    /// Whether the stage that comes next is one of the script's.
    pub closed spec fn wf(&self) -> bool {
        match self.chain {
            Some(c) => c.wf(),
            None => true,
        }
    }

    /// The stages of `script`, starting at the first.
    pub fn new(script: &'a Script) -> (r: Self)
        ensures
            r.wf(),
            r.peek() == Some(ChainView { index: 0, args: script@.args }),
    {
        Self { chain: Some(Chain::new(0, script)) }
    }

    /// The partial stages of the script, starting beside the stage that
    /// comes next.
    pub fn pchains(&self) -> (r: PartialChainIter<'a>)
        requires
            self.wf(),
        ensures
            r.wf(),
            r.peek() == match self.peek() {
                Some(c) => if c.index < var_count(c.args) {
                    Some(c)
                } else {
                    None
                },
                None => None,
            },
    {
        PartialChainIter {
            pchain: match self.chain {
                Some(p) => p.pchain(),
                None => None,
            },
        }
    }

    /// Hands out the stage that comes next and moves on to the one after
    /// it; after the last stage nothing comes.
    pub fn next(&mut self) -> (r: Option<Chain<'a>>)
        requires
            old(self).wf(),
        ensures
            final(self).wf(),
            match r {
                Some(c) => c.wf() && old(self).peek() == Some(c@) && final(self).peek() == (if c@.index
                    < var_count(c@.args) {
                    Some(ChainView { index: c@.index + 1, ..c@ })
                } else {
                    None
                }),
                None => old(self).peek() is None && final(self).peek() is None,
            },
    {
        let ret = match self.chain {
            Some(c) => c,
            None => {
                return None;
            },
        };
        self.chain = ret.next();
        Some(ret)
    }
}

/// The partial stages of a script, from the first on.
pub struct PartialChainIter<'a> {
    pchain: Option<PartialChain<'a>>,
}

impl<'a> PartialChainIter<'a> {
    /// The partial stage that comes next, if any.
    pub closed spec fn peek(&self) -> Option<ChainView> {
        match self.pchain {
            Some(c) => Some(c@),
            None => None,
        }
    }

    /// Whether the partial stage that comes next is one of the script's.
    pub closed spec fn wf(&self) -> bool {
        match self.pchain {
            Some(c) => c.wf(),
            None => true,
        }
    }

    /// Hands out the partial stage that comes next and moves on to the one
    /// after it; after the last one nothing comes.
    pub fn next(&mut self) -> (r: Option<PartialChain<'a>>)
        requires
            old(self).wf(),
        ensures
            final(self).wf(),
            match r {
                Some(c) => c.wf() && old(self).peek() == Some(c@) && final(self).peek() == (if c@.index
                    + 1 < var_count(c@.args) {
                    Some(ChainView { index: c@.index + 1, ..c@ })
                } else {
                    None
                }),
                None => old(self).peek() is None && final(self).peek() is None,
            },
    {
        let ret = match self.pchain {
            Some(c) => c,
            None => {
                return None;
            },
        };
        self.pchain = ret.next();
        Some(ret)
    }
}

/// Every stage and every partial stage of one script.
#[derive(Debug)]
pub struct Generated {
    pub chains: Vec<ChainDef>,
    pub pchains: Vec<PartialChainDef>,
}

/// Everything that the builder of `script` is made of: with `N` late
/// placeholders, the `N + 1` stages in order, of which the last alone is
/// dispatched, and the `N` partial stages in order.
pub fn gen_all(script: &Script) -> (r: Generated)
    ensures
        r.chains@.len() == var_count(script@.args) + 1,
        r.pchains@.len() == var_count(script@.args),
        forall|i: int|
            0 <= i < r.chains@.len() ==> is_chain_def(#[trigger] r.chains@[i], script@.args, i),
        forall|i: int|
            0 <= i < r.pchains@.len() ==> is_partial_chain_def(
                #[trigger] r.pchains@[i],
                script@.args,
                i,
            ),
        forall|i: int|
            0 <= i < r.chains@.len() ==> ((#[trigger] r.chains@[i]).script is Some <==> i == var_count(
                script@.args,
            )),
{
    let mut chains = ChainIter::new(script);
    let mut pchains = chains.pchains();
    let ghost args = script@.args;
    let ghost n = var_count(args) as int;
    let mut cs: Vec<ChainDef> = Vec::new();
    let mut ps: Vec<PartialChainDef> = Vec::new();
    loop
        invariant_except_break
            chains.peek() == (if cs@.len() <= n {
                Some(ChainView { index: cs@.len() as int, args })
            } else {
                None
            }),
        invariant
            chains.wf(),
            cs@.len() <= n + 1,
            n == var_count(args),
            forall|i: int| 0 <= i < cs@.len() ==> is_chain_def(#[trigger] cs@[i], args, i),
        ensures
            cs@.len() == n + 1,
        decreases n + 1 - cs@.len(),
    {
        match chains.next() {
            Some(c) => {
                cs.push(c.gen());
            },
            None => {
                break ;
            },
        }
    }
    loop
        invariant_except_break
            pchains.peek() == (if ps@.len() < n {
                Some(ChainView { index: ps@.len() as int, args })
            } else {
                None
            }),
        invariant
            pchains.wf(),
            ps@.len() <= n,
            n == var_count(args),
            forall|i: int| 0 <= i < ps@.len() ==> is_partial_chain_def(#[trigger] ps@[i], args, i),
        ensures
            ps@.len() == n,
        decreases n - ps@.len(),
    {
        match pchains.next() {
            Some(c) => {
                ps.push(c.gen());
            },
            None => {
                break ;
            },
        }
    }
    Generated { chains: cs, pchains: ps }
}

} // verus!
