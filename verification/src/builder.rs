//! Binding late arguments and combining fragments before dispatch.
//!
//! A stage holds one fragment: its captured values, the late values bound
//! so far, and the unit that runs before it. Setters bind the late
//! placeholders in the order of the script; only a stage with every value
//! bound gives a unit that can be dispatched. Two fragments are combined
//! with `add`: the left one always runs first.

use crate::script::arg_views;
use crate::script::ArgType;
use crate::script::ArgView;
use crate::script::Script;
use crate::text::clone_strings;
use crate::text::decimal;
use crate::text::push_decimal;
use crate::types::ScriptArg;
use crate::types::ScriptArgView;
use vstd::prelude::*;
use vstd::string::StringExecFns;

verus! {

/// What is known of one fragment: the text that is sent, the body that was
/// checked, and the internal names of its placeholders in order.
#[derive(Debug)]
pub struct Info {
    script: String,
    body: String,
    args: Vec<String>,
}

/// What a fragment's description is, as a value.
pub struct InfoView {
    pub script: Seq<char>,
    pub body: Seq<char>,
    pub args: Seq<Seq<char>>,
}

impl View for Info {
    type V = InfoView;

    closed spec fn view(&self) -> InfoView {
        InfoView { script: self.script@, body: self.body@, args: self.args.deep_view() }
    }
}

impl Clone for Info {
    fn clone(&self) -> (r: Self)
        ensures
            r@ == self@,
    {
        Info { script: self.script.clone(), body: self.body.clone(), args: clone_strings(&self.args) }
    }
}

/// The internal names of `args`, in order.
pub open spec fn lua_names(args: Seq<ArgView>) -> Seq<Seq<char>> {
    Seq::new(args.len(), |i: int| args[i].lua)
}

/// The kinds of `args`, in order.
pub open spec fn kinds(args: Seq<ArgView>) -> Seq<ArgType> {
    Seq::new(args.len(), |i: int| args[i].atype)
}

/// The host names of the late placeholders among `args`, in order.
pub open spec fn var_names(args: Seq<ArgView>) -> Seq<Seq<char>>
    decreases args.len(),
{
    if args.len() == 0 {
        seq![]
    } else if args.last().atype == ArgType::Var {
        var_names(args.drop_last()).push(args.last().key.source)
    } else {
        var_names(args.drop_last())
    }
}

impl Info {
    /// The description with the given parts.
    pub fn new(script: String, body: String, args: Vec<String>) -> (r: Self)
        ensures
            r@ == (InfoView { script: script@, body: body@, args: args.deep_view() }),
    {
        Self { script, body, args }
    }

    /// The description of `script`.
    pub fn of(script: &Script) -> (r: Self)
        ensures
            r@ == (InfoView {
                script: script@.wrapped,
                body: script@.script,
                args: lua_names(script@.args),
            }),
    {
        let args = script.args();
        let mut names: Vec<String> = Vec::new();
        let mut i: usize = 0;
        while i < args.len()
            invariant
                i <= args@.len(),
                arg_views(args@) == script@.args,
                names.deep_view() == lua_names(script@.args).take(i as int),
            decreases args@.len() - i,
        {
            assert(args@[i as int]@ == script@.args[i as int]);
            let ghost before = names.deep_view();
            names.push(String::from_str(args[i].as_lua()));
            assert(names.deep_view() =~= before.push(script@.args[i as int].lua));
            i += 1;
            assert(names.deep_view() =~= lua_names(script@.args).take(i as int));
        }
        assert(lua_names(script@.args).take(i as int) =~= lua_names(script@.args));
        Self {
            script: String::from_str(script.wrap()),
            body: String::from_str(script.script()),
            args: names,
        }
    }

    /// The text that is sent.
    pub fn script(&self) -> (r: &str)
        ensures
            r@ == self@.script,
    {
        self.script.as_str()
    }

    /// The body that was checked.
    pub fn body(&self) -> (r: &str)
        ensures
            r@ == self@.body,
    {
        self.body.as_str()
    }

    /// The internal names of the placeholders, in order.
    pub fn args(&self) -> (r: &Vec<String>)
        ensures
            r.deep_view() == self@.args,
    {
        &self.args
    }

    /// The internal names of the placeholders, in order, for keeps.
    pub fn into_args(self) -> (r: Vec<String>)
        ensures
            r.deep_view() == self@.args,
    {
        self.args
    }
}

/// The values of a run of arguments.
pub open spec fn arg_values(s: Seq<ScriptArg>) -> Seq<ScriptArgView> {
    s.map_values(|a: ScriptArg| a@)
}

fn clone_args(v: &Vec<ScriptArg>) -> (r: Vec<ScriptArg>)
    ensures
        arg_values(r@) == arg_values(v@),
{
    let mut out: Vec<ScriptArg> = Vec::new();
    let mut i: usize = 0;
    while i < v.len()
        invariant
            i <= v@.len(),
            arg_values(out@) == arg_values(v@).take(i as int),
        decreases v@.len() - i,
    {
        let ghost before = arg_values(out@);
        out.push(v[i].clone());
        assert(arg_values(out@) =~= before.push(v@[i as int]@));
        i += 1;
        assert(arg_values(out@) =~= arg_values(v@).take(i as int));
    }
    assert(arg_values(v@).take(i as int) =~= arg_values(v@));
    out
}

/// One fragment with every value bound: the effect of dispatching it is
/// that its values are appended, in order, to the arguments that go out.
#[derive(Debug)]
pub struct Fragment {
    info: Info,
    values: Vec<ScriptArg>,
}

/// What a bound fragment is, as a value.
pub struct FragmentView {
    pub info: InfoView,
    pub values: Seq<ScriptArgView>,
}

impl View for Fragment {
    type V = FragmentView;

    closed spec fn view(&self) -> FragmentView {
        FragmentView { info: self.info@, values: arg_values(self.values@) }
    }
}

impl Clone for Fragment {
    fn clone(&self) -> (r: Self)
        ensures
            r@ == self@,
    {
        Fragment { info: self.info.clone(), values: clone_args(&self.values) }
    }
}

impl Fragment {
    /// The fragment's description.
    pub fn info(&self) -> (r: &Info)
        ensures
            r@ == self@.info,
    {
        &self.info
    }

    /// The fragment's values, in the order of its placeholders.
    pub fn values(&self) -> (r: &Vec<ScriptArg>)
        ensures
            arg_values(r@) == self@.values,
    {
        &self.values
    }
}

/// The values of a run of fragments.
pub open spec fn fragment_views(s: Seq<Fragment>) -> Seq<FragmentView> {
    s.map_values(|f: Fragment| f@)
}

/// The arguments that go out when `fragments` are dispatched: the values
/// of each fragment, in its own order, one fragment behind the other.
pub open spec fn unit_args(fragments: Seq<FragmentView>) -> Seq<ScriptArgView>
    decreases fragments.len(),
{
    if fragments.len() == 0 {
        seq![]
    } else {
        unit_args(fragments.drop_last()) + fragments.last().values
    }
}

/// The arguments of fragments put one behind the other are their arguments
/// put one behind the other.
pub proof fn lemma_unit_args_concat(a: Seq<FragmentView>, b: Seq<FragmentView>)
    ensures
        unit_args(a + b) == unit_args(a) + unit_args(b),
    decreases b.len(),
{
    if b.len() == 0 {
        assert(a + b =~= a);
        assert(unit_args(a) + unit_args(b) =~= unit_args(a));
    } else {
        assert((a + b).drop_last() =~= a + b.drop_last());
        assert((a + b).last() == b.last());
        lemma_unit_args_concat(a, b.drop_last());
        assert(unit_args(a + b) =~= unit_args(a) + unit_args(b));
    }
}

/// Whether value number `p` of `values` is packed.
pub open spec fn packed_at(values: Seq<ScriptArgView>, p: int) -> bool {
    0 <= p < values.len() && values[p].pack
}

/// The line that binds the internal name `name` to argument slot `slot`:
/// a packed argument is unpacked on the way.
pub open spec fn slot_binding(name: Seq<char>, slot: nat, packed: bool) -> Seq<char> {
    if packed {
        "local "@ + name + " = cmsgpack.unpack(ARGV["@ + decimal(slot) + "]) "@
    } else {
        "local "@ + name + " = ARGV["@ + decimal(slot) + "] "@
    }
}

/// The binding lines of the first `n` placeholders of a fragment whose
/// first argument slot comes behind slot `first`.
pub open spec fn fragment_bindings(f: FragmentView, first: nat, n: nat) -> Seq<char>
    decreases n,
{
    if n == 0 || n > f.info.args.len() {
        seq![]
    } else {
        fragment_bindings(f, first, (n - 1) as nat) + slot_binding(
            f.info.args[n - 1],
            first + n,
            packed_at(f.values, n - 1),
        )
    }
}

/// The text of one fragment in a unit: its body in a scope of its own,
/// behind its binding lines. The value of the last fragment is returned.
pub open spec fn fragment_text(f: FragmentView, first: nat, last: bool) -> Seq<char> {
    (if last {
        "return (function() "@
    } else {
        "(function() "@
    }) + fragment_bindings(f, first, f.info.args.len()) + f.info.body + " end)();\n"@
}

/// How many placeholders the first `n` of `fragments` have between them.
pub open spec fn names_before(fragments: Seq<FragmentView>, n: nat) -> nat
    decreases n,
{
    if n == 0 || n > fragments.len() {
        0
    } else {
        names_before(fragments, (n - 1) as nat) + fragments[n - 1].info.args.len()
    }
}

/// The text of the first `n` of `fragments`, one behind the other.
pub open spec fn unit_text(fragments: Seq<FragmentView>, n: nat) -> Seq<char>
    decreases n,
{
    if n == 0 || n > fragments.len() {
        seq![]
    } else {
        unit_text(fragments, (n - 1) as nat) + fragment_text(
            fragments[n - 1],
            names_before(fragments, (n - 1) as nat),
            n == fragments.len(),
        )
    }
}

/// The placeholders of a prefix are no more than those of the whole.
pub proof fn lemma_names_before_monotone(fragments: Seq<FragmentView>, k: nat, n: nat)
    requires
        k <= n <= fragments.len(),
    ensures
        names_before(fragments, k) <= names_before(fragments, n),
    decreases n,
{
    if k < n {
        lemma_names_before_monotone(fragments, k, (n - 1) as nat);
    }
}

/// What can be dispatched: fragments with every value bound, in the order
/// in which their effects take place.
#[derive(Debug)]
pub struct Unit {
    fragments: Vec<Fragment>,
}

impl View for Unit {
    type V = Seq<FragmentView>;

    closed spec fn view(&self) -> Seq<FragmentView> {
        fragment_views(self.fragments@)
    }
}

impl Clone for Unit {
    fn clone(&self) -> (r: Self)
        ensures
            r@ == self@,
    {
        let mut fragments: Vec<Fragment> = Vec::new();
        let mut i: usize = 0;
        while i < self.fragments.len()
            invariant
                i <= self.fragments@.len(),
                fragment_views(fragments@) == self@.take(i as int),
            decreases self.fragments@.len() - i,
        {
            let ghost before = fragment_views(fragments@);
            fragments.push(self.fragments[i].clone());
            assert(fragment_views(fragments@) =~= before.push(self.fragments@[i as int]@));
            i += 1;
            assert(fragment_views(fragments@) =~= self@.take(i as int));
        }
        assert(self@.take(i as int) =~= self@);
        Unit { fragments }
    }
}

impl Unit {
    /// The unit without any fragment: nothing runs before a fresh stage.
    pub fn empty() -> (r: Self)
        ensures
            r@ == Seq::<FragmentView>::empty(),
    {
        let r = Self { fragments: Vec::new() };
        assert(r@ =~= Seq::<FragmentView>::empty());
        r
    }

    /// The unit of one fragment with the values `values`, in the order of
    /// its placeholders.
    pub fn of(info: Info, values: Vec<ScriptArg>) -> (r: Self)
        ensures
            r@ == seq![FragmentView { info: info@, values: arg_values(values@) }],
            unit_args(r@) == arg_values(values@),
    {
        let mut fragments: Vec<Fragment> = Vec::new();
        fragments.push(Fragment { info, values });
        let r = Self { fragments };
        proof {
            let one = seq![FragmentView { info: info@, values: arg_values(values@) }];
            assert(r@ =~= one);
            assert(one.drop_last() =~= Seq::<FragmentView>::empty());
            assert(unit_args(one.drop_last()) =~= Seq::<ScriptArgView>::empty());
            assert(one.last().values == arg_values(values@));
            assert(unit_args(one) =~= arg_values(values@));
        }
        r
    }

    /// The unit that runs `other`, then this unit.
    pub fn join(self, other: Unit) -> (r: Self)
        ensures
            r@ == other@ + self@,
            unit_args(r@) == unit_args(other@) + unit_args(self@),
    {
        let mut fragments = other.fragments;
        let mut own = self.fragments;
        fragments.append(&mut own);
        let r = Self { fragments };
        proof {
            assert(r@ =~= other@ + self@);
            lemma_unit_args_concat(other@, self@);
        }
        r
    }

    /// The fragments, in the order of their effects.
    pub fn fragments(&self) -> (r: &Vec<Fragment>)
        ensures
            fragment_views(r@) == self@,
    {
        &self.fragments
    }

    /// The text that is sent for the unit. Each fragment runs in a scope
    /// of its own, in the order of the unit, with its internal names bound
    /// to its own slots among the arguments that go out; a packed argument
    /// is unpacked on the way. The value of the last fragment is returned.
    pub fn script(&self) -> (r: String)
        requires
            names_before(self@, self@.len()) < usize::MAX,
        ensures
            r@ == unit_text(self@, self@.len()),
    {
        let mut out = String::new();
        let mut first: usize = 0;
        let mut j: usize = 0;
        let n: usize = self.fragments.len();
        while j < n
            invariant
                j <= n,
                n == self.fragments@.len(),
                n == self@.len(),
                names_before(self@, self@.len()) < usize::MAX,
                first == names_before(self@, j as nat),
                out@ == unit_text(self@, j as nat),
            decreases n - j,
        {
            let f = &self.fragments[j];
            let ghost before = out@;
            proof {
                assert(self@[j as int] == f@);
                lemma_names_before_monotone(self@, (j + 1) as nat, self@.len());
            }
            if j + 1 == n {
                out.append("return (function() ");
            } else {
                out.append("(function() ");
            }
            let ghost opened = out@;
            let names = f.info.args();
            let count: usize = names.len();
            let mut p: usize = 0;
            assert(out@ =~= opened + fragment_bindings(f@, first as nat, 0));
            while p < count
                invariant
                    p <= count,
                    count == names@.len(),
                    names.deep_view() == f@.info.args,
                    first + count < usize::MAX,
                    out@ == opened + fragment_bindings(f@, first as nat, p as nat),
                decreases count - p,
            {
                let ghost bound = out@;
                let packed = p < f.values.len() && f.values[p].pack();
                proof {
                    assert(names.deep_view()[p as int] == names@[p as int]@);
                    if p < f.values@.len() {
                        assert(f@.values[p as int] == f.values@[p as int]@);
                    }
                    assert(packed == packed_at(f@.values, p as int));
                }
                out.append("local ");
                out.append(names[p].as_str());
                if packed {
                    out.append(" = cmsgpack.unpack(ARGV[");
                    push_decimal(&mut out, first + p + 1);
                    out.append("]) ");
                } else {
                    out.append(" = ARGV[");
                    push_decimal(&mut out, first + p + 1);
                    out.append("] ");
                }
                p += 1;
                assert(out@ =~= bound + slot_binding(
                    f@.info.args[p - 1],
                    (first + p) as nat,
                    packed,
                ));
                assert(out@ =~= opened + fragment_bindings(f@, first as nat, p as nat));
            }
            out.append(f.info.body());
            out.append(" end)();\n");
            first = first + count;
            j += 1;
            assert(out@ =~= before + fragment_text(
                self@[j - 1],
                names_before(self@, (j - 1) as nat),
                j == self@.len(),
            ));
        }
        out
    }

    /// The arguments that go out: the values of each fragment, in its own
    /// order, one fragment behind the other.
    pub fn args(&self) -> (r: Vec<ScriptArg>)
        ensures
            arg_values(r@) == unit_args(self@),
    {
        let mut out: Vec<ScriptArg> = Vec::new();
        let mut i: usize = 0;
        assert(self@.take(0) =~= Seq::<FragmentView>::empty());
        assert(arg_values(out@) =~= Seq::<ScriptArgView>::empty());
        while i < self.fragments.len()
            invariant
                i <= self.fragments@.len(),
                arg_values(out@) == unit_args(self@.take(i as int)),
            decreases self.fragments@.len() - i,
        {
            let ghost before = arg_values(out@);
            let mut values = clone_args(&self.fragments[i].values);
            out.append(&mut values);
            proof {
                assert(self@[i as int] == self.fragments@[i as int]@);
                assert(self@.take(i + 1).drop_last() =~= self@.take(i as int));
                assert(self@.take(i + 1).last() == self@[i as int]);
                assert(arg_values(out@) =~= before + self@[i as int].values);
            }
            i += 1;
        }
        assert(self@.take(i as int) =~= self@);
        out
    }
}

/// The values of a fragment in the order of its placeholders: `order` says
/// of each placeholder whether its value is the next of `caps` or the next
/// of `vars`.
pub open spec fn merge(order: Seq<ArgType>, caps: Seq<ScriptArgView>, vars: Seq<ScriptArgView>) -> Seq<
    ScriptArgView,
>
    decreases order.len(),
{
    if order.len() == 0 {
        seq![]
    } else if order.last() == ArgType::Cap {
        if caps.len() == 0 {
            merge(order.drop_last(), caps, vars)
        } else {
            merge(order.drop_last(), caps.drop_last(), vars).push(caps.last())
        }
    } else {
        if vars.len() == 0 {
            merge(order.drop_last(), caps, vars)
        } else {
            merge(order.drop_last(), caps, vars.drop_last()).push(vars.last())
        }
    }
}

/// How many of `order` are of kind `atype`.
pub open spec fn count_kind(order: Seq<ArgType>, atype: ArgType) -> nat
    decreases order.len(),
{
    if order.len() == 0 {
        0
    } else if order.last() == atype {
        count_kind(order.drop_last(), atype) + 1
    } else {
        count_kind(order.drop_last(), atype)
    }
}

/// The host names of the late placeholders are as many as the late
/// placeholders.
pub proof fn lemma_var_names_len(args: Seq<ArgView>)
    ensures
        var_names(args).len() == count_kind(kinds(args), ArgType::Var),
    decreases args.len(),
{
    if args.len() > 0 {
        assert(kinds(args).drop_last() =~= kinds(args.drop_last()));
        lemma_var_names_len(args.drop_last());
    }
}

/// Why a builder refused a call.
#[derive(Debug, PartialEq, Eq)]
pub enum BuildError {
    /// The script has `wanted` captured placeholders, and `got` values
    /// were given for them.
    CapCount { wanted: usize, got: usize },
    /// A setter was called on a stage with every value bound.
    Complete,
    /// A setter was called out of order: `expected` is the late
    /// placeholder that comes next.
    WrongSetter { expected: String },
    /// Dispatch was asked for while the late placeholder `name` had no
    /// value.
    Missing { name: String },
    /// The fragment has `wanted` late placeholders, and `got` names were
    /// given for them.
    NameCount { wanted: usize, got: usize },
}

/// One fragment while its late values are bound.
#[derive(Debug)]
pub struct Stage {
    info: Info,
    inner: Unit,
    order: Vec<ArgType>,
    names: Vec<String>,
    caps: Vec<ScriptArg>,
    vars: Vec<ScriptArg>,
}

/// What a stage is, as a value: the fragment's description, the fragments
/// that run before it, the kinds of its placeholders in order, the host
/// names of the late ones, the captured values and the late values bound so
/// far.
pub struct StageView {
    pub info: InfoView,
    pub inner: Seq<FragmentView>,
    pub order: Seq<ArgType>,
    pub names: Seq<Seq<char>>,
    pub caps: Seq<ScriptArgView>,
    pub vars: Seq<ScriptArgView>,
}

impl StageView {
    /// Whether the stage is well formed: it holds one value for each
    /// captured placeholder, one name for each late one, and no more late
    /// values than names.
    pub open spec fn wf(self) -> bool {
        &&& self.caps.len() == count_kind(self.order, ArgType::Cap)
        &&& self.names.len() == count_kind(self.order, ArgType::Var)
        &&& self.vars.len() <= self.names.len()
    }

    /// The number of the stage: how many late values are bound.
    pub open spec fn index(self) -> nat {
        self.vars.len()
    }

    /// Whether every value is bound, so that the stage can be dispatched.
    pub open spec fn is_terminal(self) -> bool {
        self.vars.len() == self.names.len()
    }

    /// The next stage, with `value` bound to the late placeholder that
    /// comes next.
    pub open spec fn set(self, value: ScriptArgView) -> StageView {
        StageView { vars: self.vars.push(value), ..self }
    }

    /// The same stage with `other` running before everything that ran
    /// before it.
    pub open spec fn take(self, other: Seq<FragmentView>) -> StageView {
        StageView { inner: other + self.inner, ..self }
    }

    /// The stage's own fragment, with its values in the order of its
    /// placeholders.
    pub open spec fn fragment(self) -> FragmentView {
        FragmentView { info: self.info, values: merge(self.order, self.caps, self.vars) }
    }

    /// What is dispatched: the fragments that run before, then the stage's
    /// own.
    pub open spec fn unit(self) -> Seq<FragmentView> {
        self.inner.push(self.fragment())
    }
}

impl View for Stage {
    type V = StageView;

    closed spec fn view(&self) -> StageView {
        StageView {
            info: self.info@,
            inner: self.inner@,
            order: self.order@,
            names: self.names.deep_view(),
            caps: arg_values(self.caps@),
            vars: arg_values(self.vars@),
        }
    }
}

fn clone_kinds(v: &Vec<ArgType>) -> (r: Vec<ArgType>)
    ensures
        r@ == v@,
{
    let mut out: Vec<ArgType> = Vec::new();
    let mut i: usize = 0;
    while i < v.len()
        invariant
            i <= v@.len(),
            out@ == v@.take(i as int),
        decreases v@.len() - i,
    {
        out.push(v[i]);
        i += 1;
        assert(out@ =~= v@.take(i as int));
    }
    assert(v@.take(i as int) =~= v@);
    out
}

impl Clone for Stage {
    fn clone(&self) -> (r: Self)
        ensures
            r@ == self@,
    {
        Stage {
            info: self.info.clone(),
            inner: self.inner.clone(),
            order: clone_kinds(&self.order),
            names: clone_strings(&self.names),
            caps: clone_args(&self.caps),
            vars: clone_args(&self.vars),
        }
    }
}

fn merge_values(order: &Vec<ArgType>, caps: &Vec<ScriptArg>, vars: &Vec<ScriptArg>) -> (r: Vec<
    ScriptArg,
>)
    requires
        caps@.len() == count_kind(order@, ArgType::Cap),
        vars@.len() == count_kind(order@, ArgType::Var),
    ensures
        arg_values(r@) == merge(order@, arg_values(caps@), arg_values(vars@)),
{
    let mut out: Vec<ScriptArg> = Vec::new();
    let ncaps: usize = caps.len();
    let nvars: usize = vars.len();
    let mut c: usize = 0;
    let mut v: usize = 0;
    let mut i: usize = 0;
    proof {
        assert(order@.take(0) =~= Seq::<ArgType>::empty());
        assert(arg_values(out@) =~= Seq::<ScriptArgView>::empty());
    }
    while i < order.len()
        invariant
            i <= order@.len(),
            c == count_kind(order@.take(i as int), ArgType::Cap),
            v == count_kind(order@.take(i as int), ArgType::Var),
            c <= caps@.len(),
            v <= vars@.len(),
            ncaps == caps@.len(),
            nvars == vars@.len(),
            caps@.len() == count_kind(order@, ArgType::Cap),
            vars@.len() == count_kind(order@, ArgType::Var),
            arg_values(out@) == merge(
                order@.take(i as int),
                arg_values(caps@).take(c as int),
                arg_values(vars@).take(v as int),
            ),
        decreases order@.len() - i,
    {
        let ghost before = arg_values(out@);
        proof {
            assert(order@.take(i + 1).drop_last() =~= order@.take(i as int));
            assert(order@.take(i + 1).last() == order@[i as int]);
            lemma_count_kind_take(order@, i + 1, ArgType::Cap);
            lemma_count_kind_take(order@, i + 1, ArgType::Var);
        }
        if order[i] == ArgType::Cap {
            assert(count_kind(order@.take(i + 1), ArgType::Cap) == c + 1);
            out.push(caps[c].clone());
            proof {
                let cs = arg_values(caps@).take(c + 1);
                assert(cs.drop_last() =~= arg_values(caps@).take(c as int));
                assert(cs.last() == caps@[c as int]@);
                assert(arg_values(out@) =~= before.push(caps@[c as int]@));
            }
            c += 1;
        } else {
            assert(count_kind(order@.take(i + 1), ArgType::Var) == v + 1);
            out.push(vars[v].clone());
            proof {
                let vs = arg_values(vars@).take(v + 1);
                assert(vs.drop_last() =~= arg_values(vars@).take(v as int));
                assert(vs.last() == vars@[v as int]@);
                assert(arg_values(out@) =~= before.push(vars@[v as int]@));
            }
            v += 1;
        }
        i += 1;
    }
    proof {
        assert(order@.take(i as int) =~= order@);
        assert(arg_values(caps@).take(c as int) =~= arg_values(caps@));
        assert(arg_values(vars@).take(v as int) =~= arg_values(vars@));
    }
    out
}

/// A prefix holds no more of a kind than the whole.
pub proof fn lemma_count_kind_take(order: Seq<ArgType>, k: int, atype: ArgType)
    requires
        0 <= k <= order.len(),
    ensures
        count_kind(order.take(k), atype) <= count_kind(order, atype),
    decreases order.len() - k,
{
    if k < order.len() {
        lemma_count_kind_take(order, k + 1, atype);
        assert(order.take(k + 1).drop_last() =~= order.take(k));
    } else {
        assert(order.take(k) =~= order);
    }
}

/// The kinds of the placeholders of `script`, in order.
pub fn order_of(script: &Script) -> (r: Vec<ArgType>)
    ensures
        r@ == kinds(script@.args),
{
    let args = script.args();
    let mut order: Vec<ArgType> = Vec::new();
    let mut i: usize = 0;
    while i < args.len()
        invariant
            i <= args@.len(),
            arg_views(args@) == script@.args,
            order@ == kinds(script@.args).take(i as int),
        decreases args@.len() - i,
    {
        assert(args@[i as int]@ == script@.args[i as int]);
        order.push(args[i].atype());
        i += 1;
        assert(order@ =~= kinds(script@.args).take(i as int));
    }
    assert(kinds(script@.args).take(i as int) =~= kinds(script@.args));
    order
}

/// The host names of the late placeholders of `script`, in order.
pub fn late_names(script: &Script) -> (r: Vec<String>)
    ensures
        r.deep_view() == var_names(script@.args),
{
    let args = script.args();
    let mut names: Vec<String> = Vec::new();
    let mut i: usize = 0;
    proof {
        assert(script@.args.take(0) =~= Seq::<ArgView>::empty());
        assert(names.deep_view() =~= var_names(script@.args.take(0)));
    }
    while i < args.len()
        invariant
            i <= args@.len(),
            arg_views(args@) == script@.args,
            names.deep_view() == var_names(script@.args.take(i as int)),
        decreases args@.len() - i,
    {
        let ghost before = script@.args.take(i as int);
        let ghost names_before = names.deep_view();
        assert(args@[i as int]@ == script@.args[i as int]);
        if args[i].atype() == ArgType::Var {
            names.push(String::from_str(args[i].as_rust()));
            assert(names.deep_view() =~= names_before.push(script@.args[i as int].key.source));
        }
        i += 1;
        proof {
            let now = script@.args.take(i as int);
            assert(now.drop_last() =~= before);
            assert(now.last() == script@.args[i - 1]);
        }
    }
    assert(script@.args.take(i as int) =~= script@.args);
    names
}

fn count_of(order: &Vec<ArgType>, atype: ArgType) -> (n: usize)
    ensures
        n == count_kind(order@, atype),
{
    let mut n: usize = 0;
    let mut i: usize = 0;
    assert(order@.take(0) =~= Seq::<ArgType>::empty());
    while i < order.len()
        invariant
            i <= order@.len(),
            n <= i,
            n == count_kind(order@.take(i as int), atype),
        decreases order@.len() - i,
    {
        assert(order@.take(i + 1).drop_last() =~= order@.take(i as int));
        assert(order@.take(i + 1).last() == order@[i as int]);
        if order[i] == atype {
            n += 1;
        }
        i += 1;
    }
    assert(order@.take(i as int) =~= order@);
    n
}

impl Stage {
    /// The first stage of `script`: nothing runs before it, the captured
    /// placeholders have the values `caps`, in their order, and no late
    /// value is bound. Refused where `caps` are not as many as the
    /// captured placeholders.
    pub fn new(script: &Script, caps: Vec<ScriptArg>) -> (r: Result<Self, BuildError>)
        ensures
            match r {
                Ok(s) => {
                    &&& caps@.len() == count_kind(kinds(script@.args), ArgType::Cap)
                    &&& s@ == (StageView {
                        info: InfoView {
                            script: script@.wrapped,
                            body: script@.script,
                            args: lua_names(script@.args),
                        },
                        inner: Seq::<FragmentView>::empty(),
                        order: kinds(script@.args),
                        names: var_names(script@.args),
                        caps: arg_values(caps@),
                        vars: Seq::<ScriptArgView>::empty(),
                    })
                    &&& s@.wf()
                },
                Err(e) => {
                    &&& caps@.len() != count_kind(kinds(script@.args), ArgType::Cap)
                    &&& e == (BuildError::CapCount {
                        wanted: count_kind(kinds(script@.args), ArgType::Cap) as usize,
                        got: caps@.len() as usize,
                    })
                },
            },
    {
        proof {
            lemma_var_names_len(script@.args);
        }
        match Self::from_parts(Info::of(script), order_of(script), late_names(script), caps) {
            Ok(s) => Ok(s),
            Err(e) => Err(e),
        }
    }

    /// The first stage of a fragment that is known by its parts: its
    /// description, the kinds of its placeholders in order, the host names
    /// of the late ones, and the values of the captured ones. Refused
    /// where the values are not as many as the captured placeholders, or
    /// the names not as many as the late ones.
    pub fn from_parts(
        info: Info,
        order: Vec<ArgType>,
        names: Vec<String>,
        caps: Vec<ScriptArg>,
    ) -> (r: Result<Self, BuildError>)
        ensures
            match r {
                Ok(s) => {
                    &&& caps@.len() == count_kind(order@, ArgType::Cap)
                    &&& names@.len() == count_kind(order@, ArgType::Var)
                    &&& s@ == (StageView {
                        info: info@,
                        inner: Seq::<FragmentView>::empty(),
                        order: order@,
                        names: names.deep_view(),
                        caps: arg_values(caps@),
                        vars: Seq::<ScriptArgView>::empty(),
                    })
                    &&& s@.wf()
                },
                Err(BuildError::CapCount { wanted, got }) => {
                    &&& caps@.len() != count_kind(order@, ArgType::Cap)
                    &&& wanted == count_kind(order@, ArgType::Cap)
                    &&& got == caps@.len()
                },
                Err(BuildError::NameCount { wanted, got }) => {
                    &&& caps@.len() == count_kind(order@, ArgType::Cap)
                    &&& names@.len() != count_kind(order@, ArgType::Var)
                    &&& wanted == count_kind(order@, ArgType::Var)
                    &&& got == names@.len()
                },
                Err(_) => false,
            },
    {
        let wanted_caps = count_of(&order, ArgType::Cap);
        if caps.len() != wanted_caps {
            return Err(BuildError::CapCount { wanted: wanted_caps, got: caps.len() });
        }
        let wanted_names = count_of(&order, ArgType::Var);
        if names.len() != wanted_names {
            return Err(BuildError::NameCount { wanted: wanted_names, got: names.len() });
        }
        let s = Stage { info, inner: Unit::empty(), order, names, caps, vars: Vec::new() };
        assert(s@.vars =~= Seq::<ScriptArgView>::empty());
        Ok(s)
    }

    /// The number of the stage: how many late values are bound.
    pub fn index(&self) -> (r: usize)
        ensures
            r == self@.index(),
    {
        self.vars.len()
    }

    /// Whether every value is bound.
    pub fn is_terminal(&self) -> (r: bool)
        ensures
            r == self@.is_terminal(),
    {
        self.vars.len() == self.names.len()
    }

    /// The host name of the late placeholder that comes next.
    pub fn next_name(&self) -> (r: Option<&str>)
        requires
            self@.wf(),
        ensures
            match r {
                Some(n) => !self@.is_terminal() && n@ == self@.names[self@.index() as int],
                None => self@.is_terminal(),
            },
    {
        if self.vars.len() < self.names.len() {
            Some(self.names[self.vars.len()].as_str())
        } else {
            None
        }
    }

    /// Binds `value` to the late placeholder `name` and gives the next
    /// stage. Refused on a stage with every value bound, and where `name`
    /// is not the late placeholder that comes next.
    pub fn set(self, name: &str, value: ScriptArg) -> (r: Result<Self, BuildError>)
        requires
            self@.wf(),
        ensures
            match r {
                Ok(s) => {
                    &&& !self@.is_terminal()
                    &&& name@ == self@.names[self@.index() as int]
                    &&& s@ == self@.set(value@)
                    &&& s@.wf()
                },
                Err(BuildError::Complete) => self@.is_terminal(),
                Err(BuildError::WrongSetter { expected }) => {
                    &&& !self@.is_terminal()
                    &&& expected@ == self@.names[self@.index() as int]
                    &&& name@ != expected@
                },
                Err(_) => false,
            },
    {
        if self.vars.len() == self.names.len() {
            return Err(BuildError::Complete);
        }
        let expected = self.names[self.vars.len()].clone();
        if expected != String::from_str(name) {
            return Err(BuildError::WrongSetter { expected });
        }
        let mut s = self;
        s.vars.push(value);
        assert(s@.vars =~= self@.vars.push(value@));
        Ok(s)
    }

    /// The same stage with `other` running first: before the stage's own
    /// fragment and before everything that ran before it.
    pub fn take(self, other: Unit) -> (r: Self)
        ensures
            r@ == self@.take(other@),
    {
        Stage {
            info: self.info,
            inner: self.inner.join(other),
            order: self.order,
            names: self.names,
            caps: self.caps,
            vars: self.vars,
        }
    }

    /// What is dispatched: the fragments that run before, then the stage's
    /// own fragment with its values in the order of its placeholders.
    /// Refused while a late placeholder has no value.
    pub fn finish(self) -> (r: Result<Unit, BuildError>)
        requires
            self@.wf(),
        ensures
            match r {
                Ok(u) => self@.is_terminal() && u@ == self@.unit(),
                Err(BuildError::Missing { name }) => !self@.is_terminal() && name@
                    == self@.names[self@.index() as int],
                Err(_) => false,
            },
    {
        if self.vars.len() < self.names.len() {
            return Err(BuildError::Missing { name: self.names[self.vars.len()].clone() });
        }
        let values = merge_values(&self.order, &self.caps, &self.vars);
        let own = Fragment { info: self.info, values };
        let mut fragments = self.inner.fragments;
        let ghost before = fragment_views(fragments@);
        fragments.push(own);
        let u = Unit { fragments };
        assert(u@ =~= before.push(own@));
        Ok(u)
    }
}

/// Dispatching a stage that took `other` in sends the arguments of `other`
/// first, then what the stage would have sent without it, each fragment's
/// values in its own order.
pub proof fn lemma_take_runs_other_first(stage: StageView, other: Seq<FragmentView>)
    ensures
        stage.take(other).unit() == other + stage.unit(),
        unit_args(stage.take(other).unit()) == unit_args(other) + unit_args(stage.unit()),
{
    assert(stage.take(other).unit() =~= other + stage.unit());
    lemma_unit_args_concat(other, stage.unit());
}

/// One fragment or several combined, while late values are bound.
#[derive(Debug)]
pub enum Builder {
    /// One fragment, with what runs before it.
    Chain(Stage),
    /// A fragment with late placeholders open, and on its right what it
    /// was combined with, which waits until the fragment is complete.
    Partial(Box<PartialStage>),
}

/// A fragment with late placeholders open, and what was combined with it.
#[derive(Debug)]
pub struct PartialStage {
    chain: Stage,
    next: Builder,
}

/// What a builder is, as a value.
pub enum BuilderView {
    Chain(StageView),
    Partial(StageView, Box<BuilderView>),
}

impl BuilderView {
    /// Whether the builder is well formed: every stage in it is, and a
    /// stage with something waiting on its right has late placeholders
    /// open.
    pub open spec fn wf(self) -> bool
        decreases self,
    {
        match self {
            BuilderView::Chain(s) => s.wf(),
            BuilderView::Partial(s, next) => s.wf() && !s.is_terminal() && next.wf(),
        }
    }

    /// The stage whose setter comes next: the leftmost one.
    pub open spec fn front(self) -> StageView {
        match self {
            BuilderView::Chain(s) => s,
            BuilderView::Partial(s, next) => s,
        }
    }

    /// The builder with `other` running before everything else.
    pub open spec fn take(self, other: Seq<FragmentView>) -> BuilderView {
        match self {
            BuilderView::Chain(s) => BuilderView::Chain(s.take(other)),
            BuilderView::Partial(s, next) => BuilderView::Partial(s.take(other), next),
        }
    }

    /// The builder combined with `other` on its right. A complete stage is
    /// taken in by `other` and runs first; a stage with late placeholders
    /// open keeps `other` waiting on its right.
    pub open spec fn add(self, other: BuilderView) -> BuilderView
        decreases self,
    {
        match self {
            BuilderView::Chain(s) => if s.is_terminal() {
                other.take(s.unit())
            } else {
                BuilderView::Partial(s, Box::new(other))
            },
            BuilderView::Partial(s, next) => BuilderView::Partial(s, Box::new(next.add(other))),
        }
    }

    /// The builder after `value` was bound to the late placeholder that
    /// comes next. Where that completes a stage with something waiting on
    /// its right, the complete stage is taken in and runs first.
    pub open spec fn set(self, value: ScriptArgView) -> BuilderView {
        match self {
            BuilderView::Chain(s) => BuilderView::Chain(s.set(value)),
            BuilderView::Partial(s, next) => if s.set(value).is_terminal() {
                next.take(s.set(value).unit())
            } else {
                BuilderView::Partial(s.set(value), next)
            },
        }
    }

    /// What is dispatched, where every value is bound.
    pub open spec fn unit(self) -> Option<Seq<FragmentView>> {
        match self {
            BuilderView::Chain(s) => if s.is_terminal() {
                Some(s.unit())
            } else {
                None
            },
            BuilderView::Partial(s, next) => None,
        }
    }
}

/// Taking a unit in keeps a builder well formed.
pub proof fn lemma_take_wf(b: BuilderView, other: Seq<FragmentView>)
    requires
        b.wf(),
    ensures
        b.take(other).wf(),
{
}

/// Combining keeps builders well formed.
pub proof fn lemma_add_wf(a: BuilderView, b: BuilderView)
    requires
        a.wf(),
        b.wf(),
    ensures
        a.add(b).wf(),
    decreases a,
{
    match a {
        BuilderView::Chain(s) => {
            lemma_take_wf(b, s.unit());
        },
        BuilderView::Partial(s, next) => {
            lemma_add_wf(*next, b);
        },
    }
}

/// Combination is biased to the left: two complete fragments combined are
/// dispatched as the left one, then the right one, and the arguments of
/// the left one go out first.
pub proof fn lemma_add_runs_left_first(a: StageView, b: StageView)
    requires
        a.is_terminal(),
        b.is_terminal(),
    ensures
        BuilderView::Chain(a).add(BuilderView::Chain(b)).unit() == Some(a.unit() + b.unit()),
        unit_args(a.unit() + b.unit()) == unit_args(a.unit()) + unit_args(b.unit()),
{
    lemma_take_runs_other_first(b, a.unit());
    lemma_unit_args_concat(a.unit(), b.unit());
}

/// A fragment with one late placeholder open, combined with a second
/// fragment and then completed, is dispatched before the second fragment.
pub proof fn lemma_deferred_join(a: StageView, b: BuilderView, value: ScriptArgView)
    requires
        a.wf(),
        a.index() + 1 == a.names.len(),
    ensures
        BuilderView::Chain(a).add(b).set(value) == b.take(a.set(value).unit()),
{
}

impl View for Builder {
    type V = BuilderView;

    closed spec fn view(&self) -> BuilderView
        decreases self,
    {
        match self {
            Builder::Chain(s) => BuilderView::Chain(s@),
            Builder::Partial(p) => BuilderView::Partial(p.chain@, Box::new(p.next@)),
        }
    }
}

impl Clone for Builder {
    /// A second builder with the same fragments and values: one script can
    /// be bound and sent many times.
    fn clone(&self) -> (r: Self)
        ensures
            r@ == self@,
        decreases self,
    {
        match self {
            Builder::Chain(s) => Builder::Chain(s.clone()),
            Builder::Partial(p) => Builder::Partial(
                Box::new(PartialStage { chain: p.chain.clone(), next: p.next.clone() }),
            ),
        }
    }
}

impl Builder {
    /// The builder of `script`, at its first stage: the captured
    /// placeholders have the values `caps`, in their order. Refused where
    /// `caps` are not as many as the captured placeholders.
    pub fn new(script: &Script, caps: Vec<ScriptArg>) -> (r: Result<Self, BuildError>)
        ensures
            match r {
                Ok(b) => {
                    &&& caps@.len() == count_kind(kinds(script@.args), ArgType::Cap)
                    &&& b@ == BuilderView::Chain(
                        StageView {
                            info: InfoView {
                                script: script@.wrapped,
                                body: script@.script,
                                args: lua_names(script@.args),
                            },
                            inner: Seq::<FragmentView>::empty(),
                            order: kinds(script@.args),
                            names: var_names(script@.args),
                            caps: arg_values(caps@),
                            vars: Seq::<ScriptArgView>::empty(),
                        },
                    )
                    &&& b@.wf()
                },
                Err(e) => {
                    &&& caps@.len() != count_kind(kinds(script@.args), ArgType::Cap)
                    &&& e == (BuildError::CapCount {
                        wanted: count_kind(kinds(script@.args), ArgType::Cap) as usize,
                        got: caps@.len() as usize,
                    })
                },
            },
    {
        match Stage::new(script, caps) {
            Ok(s) => Ok(Builder::Chain(s)),
            Err(e) => Err(e),
        }
    }

    /// The builder of a fragment that is known by its parts, at its first
    /// stage. Refused where the values are not as many as the captured
    /// placeholders, or the names not as many as the late ones.
    pub fn from_parts(
        info: Info,
        order: Vec<ArgType>,
        names: Vec<String>,
        caps: Vec<ScriptArg>,
    ) -> (r: Result<Self, BuildError>)
        ensures
            match r {
                Ok(b) => {
                    &&& caps@.len() == count_kind(order@, ArgType::Cap)
                    &&& names@.len() == count_kind(order@, ArgType::Var)
                    &&& b@ == BuilderView::Chain(
                        StageView {
                            info: info@,
                            inner: Seq::<FragmentView>::empty(),
                            order: order@,
                            names: names.deep_view(),
                            caps: arg_values(caps@),
                            vars: Seq::<ScriptArgView>::empty(),
                        },
                    )
                    &&& b@.wf()
                },
                Err(BuildError::CapCount { wanted, got }) => {
                    &&& caps@.len() != count_kind(order@, ArgType::Cap)
                    &&& wanted == count_kind(order@, ArgType::Cap)
                    &&& got == caps@.len()
                },
                Err(BuildError::NameCount { wanted, got }) => {
                    &&& caps@.len() == count_kind(order@, ArgType::Cap)
                    &&& names@.len() != count_kind(order@, ArgType::Var)
                    &&& wanted == count_kind(order@, ArgType::Var)
                    &&& got == names@.len()
                },
                Err(_) => false,
            },
    {
        match Stage::from_parts(info, order, names, caps) {
            Ok(s) => Ok(Builder::Chain(s)),
            Err(e) => Err(e),
        }
    }

    /// Whether every value is bound, so that the builder can be dispatched.
    pub fn is_complete(&self) -> (r: bool)
        ensures
            r == self@.unit().is_some(),
    {
        match self {
            Builder::Chain(s) => s.is_terminal(),
            Builder::Partial(p) => false,
        }
    }

    /// Binds `value` to the late placeholder `name`. Refused where every
    /// value of the leftmost fragment is bound, and where `name` is not the
    /// late placeholder that comes next.
    pub fn set(self, name: &str, value: ScriptArg) -> (r: Result<Self, BuildError>)
        requires
            self@.wf(),
        ensures
            match r {
                Ok(b) => {
                    &&& !self@.front().is_terminal()
                    &&& name@ == self@.front().names[self@.front().index() as int]
                    &&& b@ == self@.set(value@)
                    &&& b@.wf()
                },
                Err(BuildError::Complete) => self@.front().is_terminal(),
                Err(BuildError::WrongSetter { expected }) => {
                    &&& !self@.front().is_terminal()
                    &&& expected@ == self@.front().names[self@.front().index() as int]
                    &&& name@ != expected@
                },
                Err(_) => false,
            },
    {
        match self {
            Builder::Chain(s) => match s.set(name, value) {
                Ok(s) => Ok(Builder::Chain(s)),
                Err(e) => Err(e),
            },
            Builder::Partial(p) => {
                let p = *p;
                let chain = match p.chain.set(name, value) {
                    Ok(c) => c,
                    Err(e) => {
                        return Err(e);
                    },
                };
                if chain.is_terminal() {
                    let unit = chain.finish().unwrap();
                    proof {
                        lemma_take_wf(p.next@, unit@);
                    }
                    Ok(p.next.take(unit))
                } else {
                    Ok(Builder::Partial(Box::new(PartialStage { chain, next: p.next })))
                }
            },
        }
    }

    /// The builder with `other` running before everything else.
    pub fn take(self, other: Unit) -> (r: Self)
        ensures
            r@ == self@.take(other@),
    {
        match self {
            Builder::Chain(s) => Builder::Chain(s.take(other)),
            Builder::Partial(p) => {
                let p = *p;
                Builder::Partial(Box::new(PartialStage { chain: p.chain.take(other), next: p.next }))
            },
        }
    }

    /// The builder combined with `other` on its right: what this builder
    /// holds runs before what `other` holds. A complete fragment is taken
    /// in by `other` at once; a fragment with late placeholders open keeps
    /// `other` waiting until its last setter is called.
    pub fn add(self, other: Builder) -> (r: Self)
        requires
            self@.wf(),
            other@.wf(),
        ensures
            r@ == self@.add(other@),
            r@.wf(),
        decreases self,
    {
        proof {
            lemma_add_wf(self@, other@);
        }
        match self {
            Builder::Chain(s) => {
                if s.is_terminal() {
                    other.take(s.finish().unwrap())
                } else {
                    Builder::Partial(Box::new(PartialStage { chain: s, next: other }))
                }
            },
            Builder::Partial(p) => {
                let p = *p;
                Builder::Partial(Box::new(PartialStage { chain: p.chain, next: p.next.add(other) }))
            },
        }
    }

    /// What is dispatched. Refused while a late placeholder of the
    /// leftmost fragment has no value.
    pub fn finish(self) -> (r: Result<Unit, BuildError>)
        requires
            self@.wf(),
        ensures
            match r {
                Ok(u) => self@.unit() == Some(u@),
                Err(BuildError::Missing { name }) => self@.unit() is None && name@
                    == self@.front().names[self@.front().index() as int],
                Err(_) => false,
            },
    {
        match self {
            Builder::Chain(s) => s.finish(),
            Builder::Partial(p) => {
                let p = *p;
                p.chain.finish()
            },
        }
    }
}

} // verus!
