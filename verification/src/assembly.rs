//! What holds of every assembled script: one placeholder for each key, the
//! placeholders in the order of their first occurrence, offsets that find
//! their way back to a host location, and a layout that adds white space
//! only.

use crate::script::assemble;
use crate::script::index_of;
use crate::script::lemma_assemble_wf;
use crate::script::lemma_index_of_unique;
use crate::script::lemma_register_wf;
use crate::script::argv_name;
use crate::script::lua_name;
use crate::script::registered;
use crate::script::script_of;
use crate::script::separator;
use crate::script::spaces;
use crate::script::spans_in;
use crate::script::step_args;
use crate::script::step_code;
use crate::script::substitutes;
use crate::script::Assembly;
use crate::text::byte_len;
use crate::text::decimal;
use crate::text::lemma_decimal_injective;
use crate::text::is_white_space;
use crate::text::lemma_byte_len_at_least_len;
use crate::text::lemma_byte_len_concat;
use crate::text::trim_end_spec;
use crate::token::Span;
use crate::token::TokenView;
use vstd::prelude::*;

verus! {

/// The state of the assembler before it meets token number `j`.
pub open spec fn before(tokens: Seq<TokenView>, convert: bool, j: int) -> Assembly {
    assemble(tokens.take(j), convert)
}

/// The state of the assembler after it has met token number `j`.
pub open spec fn after(tokens: Seq<TokenView>, convert: bool, j: int) -> Assembly {
    assemble(tokens.take(j + 1), convert)
}

/// The text that the assembler writes for token number `j`.
pub open spec fn code_of(tokens: Seq<TokenView>, convert: bool, j: int) -> Seq<char> {
    step_code(after(tokens, convert, j).args, tokens[j], convert)
}

/// The offset at which the text of token number `j` starts.
pub open spec fn begin_of(tokens: Seq<TokenView>, convert: bool, j: int) -> nat {
    let prev = before(tokens, convert, j);
    byte_len(prev.text + separator(prev.pos, tokens[j]))
}

/// The offset at which the text of token number `j` ends.
pub open spec fn end_of(tokens: Seq<TokenView>, convert: bool, j: int) -> nat {
    byte_len(after(tokens, convert, j).text)
}

/// The state after token `j` is one step from the state before it.
pub proof fn lemma_after_is_step(tokens: Seq<TokenView>, convert: bool, j: int)
    requires
        0 <= j < tokens.len(),
    ensures
        after(tokens, convert, j) == crate::script::assemble_step(
            before(tokens, convert, j),
            tokens[j],
            convert,
        ),
        begin_of(tokens, convert, j) <= end_of(tokens, convert, j),
{
    assert(tokens.take(j + 1).drop_last() =~= tokens.take(j));
    assert(tokens.take(j + 1).last() == tokens[j]);
    let prev = before(tokens, convert, j);
    lemma_byte_len_concat(
        prev.text + separator(prev.pos, tokens[j]),
        step_code(step_args(prev.args, tokens[j], convert), tokens[j], convert),
    );
}

/// What the assembler has registered and indexed after some tokens stays
/// as it is, number by number and offset by offset, when more tokens follow.
pub proof fn lemma_assemble_grows(tokens: Seq<TokenView>, convert: bool, k: int)
    requires
        0 <= k <= tokens.len(),
    ensures
        assemble(tokens.take(k), convert).args.len() <= assemble(tokens, convert).args.len(),
        forall|n: int|
            0 <= n < assemble(tokens.take(k), convert).args.len() ==> assemble(
                tokens,
                convert,
            ).args[n] == #[trigger] assemble(tokens.take(k), convert).args[n],
        forall|o: usize| #[trigger]
            assemble(tokens.take(k), convert).spans.contains_key(o) ==> assemble(
                tokens,
                convert,
            ).spans.contains_key(o),
    decreases tokens.len(),
{
    if k == tokens.len() {
        assert(tokens.take(k) =~= tokens);
    } else {
        assert(tokens.drop_last().take(k) =~= tokens.take(k));
        lemma_assemble_grows(tokens.drop_last(), convert, k);
        lemma_assemble_wf(tokens.drop_last(), convert);
        lemma_register_wf(assemble(tokens.drop_last(), convert).args, tokens.last());
    }
}

/// Two occurrences of one placeholder are one placeholder: the registry
/// holds its key once, both occurrences find it under the same number, and
/// the same internal name is written for both.
pub proof fn lemma_one_placeholder_per_key(tokens: Seq<TokenView>, i: int, j: int)
    requires
        0 <= i < j < tokens.len(),
        substitutes(tokens[i], true),
        tokens[i].same_key(tokens[j]),
    ensures
        registered(after(tokens, true, i).args, tokens[i]),
        registered(after(tokens, true, j).args, tokens[j]),
        registered(assemble(tokens, true).args, tokens[i]),
        index_of(after(tokens, true, i).args, tokens[i]) == index_of(
            after(tokens, true, j).args,
            tokens[j],
        ),
        index_of(after(tokens, true, i).args, tokens[i]) == index_of(
            assemble(tokens, true).args,
            tokens[i],
        ),
        code_of(tokens, true, i) == code_of(tokens, true, j),
        forall|a: int, b: int|
            0 <= a < assemble(tokens, true).args.len() && 0 <= b < assemble(tokens, true).args.len()
                && (#[trigger] assemble(tokens, true).args[a]).key.same_key(tokens[i]) && (
            #[trigger] assemble(tokens, true).args[b]).key.same_key(tokens[i]) ==> a == b,
{
    let reg_i = after(tokens, true, i).args;
    let reg_j = after(tokens, true, j).args;
    let reg = assemble(tokens, true).args;
    lemma_after_is_step(tokens, true, i);
    lemma_after_is_step(tokens, true, j);
    lemma_assemble_wf(tokens.take(i), true);
    lemma_assemble_wf(tokens.take(i + 1), true);
    lemma_assemble_wf(tokens.take(j + 1), true);
    lemma_assemble_wf(tokens, true);
    lemma_register_wf(before(tokens, true, i).args, tokens[i]);
    let n = index_of(reg_i, tokens[i]);
    assert(0 <= n < reg_i.len() && reg_i[n].key.same_key(tokens[i]));
    assert(tokens.take(j + 1).take(i + 1) =~= tokens.take(i + 1));
    lemma_assemble_grows(tokens.take(j + 1), true, i + 1);
    lemma_assemble_grows(tokens, true, i + 1);
    assert(reg_j[n] == reg_i[n]);
    assert(reg[n] == reg_i[n]);
    lemma_index_of_unique(reg_j, tokens[j], n);
    lemma_index_of_unique(reg, tokens[i], n);
    assert forall|a: int, b: int|
        0 <= a < reg.len() && 0 <= b < reg.len() && (#[trigger] reg[a]).key.same_key(tokens[i]) && (
        #[trigger] reg[b]).key.same_key(tokens[i]) implies a == b by {
        lemma_index_of_unique(reg, tokens[i], a);
        lemma_index_of_unique(reg, tokens[i], b);
    }
}

/// The token at which placeholder number `n` was registered.
pub open spec fn origin(tokens: Seq<TokenView>, n: int) -> int
    decreases tokens.len(),
{
    if tokens.len() == 0 {
        -1
    } else if n < assemble(tokens.drop_last(), true).args.len() {
        origin(tokens.drop_last(), n)
    } else {
        tokens.len() - 1
    }
}

/// Every placeholder token that the assembler has met is registered.
pub proof fn lemma_met_is_registered(tokens: Seq<TokenView>, p: int)
    requires
        0 <= p < tokens.len(),
        substitutes(tokens[p], true),
    ensures
        registered(assemble(tokens, true).args, tokens[p]),
{
    lemma_after_is_step(tokens, true, p);
    lemma_assemble_wf(tokens.take(p), true);
    lemma_register_wf(before(tokens, true, p).args, tokens[p]);
    let reg_p = after(tokens, true, p).args;
    let n = index_of(reg_p, tokens[p]);
    assert(0 <= n < reg_p.len() && reg_p[n].key.same_key(tokens[p]));
    lemma_assemble_grows(tokens, true, p + 1);
    assert(assemble(tokens, true).args[n].key.same_key(tokens[p]));
}

/// Placeholder number `n` was registered at the first token that names it:
/// that token is its key, and no token before it has the same key.
pub proof fn lemma_origin_is_first(tokens: Seq<TokenView>, n: int)
    requires
        0 <= n < assemble(tokens, true).args.len(),
    ensures
        0 <= origin(tokens, n) < tokens.len(),
        tokens[origin(tokens, n)] == assemble(tokens, true).args[n].key,
        substitutes(tokens[origin(tokens, n)], true),
        forall|p: int|
            0 <= p < origin(tokens, n) ==> !(#[trigger] tokens[p]).same_key(
                assemble(tokens, true).args[n].key,
            ),
        n > 0 ==> origin(tokens, n - 1) < origin(tokens, n),
    decreases tokens.len(),
{
    if tokens.len() == 0 {
    } else {
        let head = tokens.drop_last();
        let t = tokens.last();
        let prev = assemble(head, true).args;
        lemma_assemble_wf(head, true);
        lemma_register_wf(prev, t);
        if n < prev.len() {
            lemma_origin_is_first(head, n);
            assert forall|p: int| 0 <= p < origin(tokens, n) implies !(#[trigger] tokens[p]).same_key(
                assemble(tokens, true).args[n].key,
            ) by {
                assert(tokens[p] == head[p]);
            }
        } else {
            assert(substitutes(t, true) && !registered(prev, t));
            assert(n == prev.len());
            assert forall|p: int| 0 <= p < origin(tokens, n) implies !(#[trigger] tokens[p]).same_key(
                assemble(tokens, true).args[n].key,
            ) by {
                if tokens[p].same_key(t) {
                    assert(head[p] == tokens[p]);
                    lemma_met_is_registered(head, p);
                    let m = index_of(prev, head[p]);
                    assert(prev[m].key.same_key(t));
                }
            }
            if n > 0 {
                lemma_origin_is_first(head, n - 1);
            }
        }
    }
}

/// The placeholders stand in the order of their first occurrence, and
/// their argument slots count up from one without a gap: placeholder
/// number `n` has slot `n + 1` and the internal name of number `n`.
pub proof fn lemma_registry_order(tokens: Seq<TokenView>, a: int, b: int)
    requires
        0 <= a < b < assemble(tokens, true).args.len(),
    ensures
        0 <= origin(tokens, a) < origin(tokens, b) < tokens.len(),
        assemble(tokens, true).args[a].argv == argv_name(a as nat),
        assemble(tokens, true).args[b].argv == argv_name(b as nat),
        assemble(tokens, true).args[a].lua == lua_name(a as nat),
        assemble(tokens, true).args[b].lua == lua_name(b as nat),
    decreases b - a,
{
    lemma_assemble_wf(tokens, true);
    lemma_origin_is_first(tokens, a);
    lemma_origin_is_first(tokens, b);
    if a + 1 < b {
        lemma_registry_order(tokens, a, b - 1);
    }
}

/// Two placeholders never share an internal name or an argument slot.
pub proof fn lemma_names_distinct(tokens: Seq<TokenView>, a: int, b: int)
    requires
        0 <= a < assemble(tokens, true).args.len(),
        0 <= b < assemble(tokens, true).args.len(),
        a != b,
    ensures
        assemble(tokens, true).args[a].lua != assemble(tokens, true).args[b].lua,
        assemble(tokens, true).args[a].argv != assemble(tokens, true).args[b].argv,
{
    lemma_assemble_wf(tokens, true);
    let reg = assemble(tokens, true).args;
    assert(reg[a] == crate::script::arg_for(a as nat, reg[a].key));
    assert(reg[b] == crate::script::arg_for(b as nat, reg[b].key));
    if reg[a].lua == reg[b].lua {
        let p = "__internal_from_args_"@;
        let x = decimal(a as nat);
        let y = decimal(b as nat);
        assert((p + x).subrange(p.len() as int, (p + x).len() as int) =~= x);
        assert((p + y).subrange(p.len() as int, (p + y).len() as int) =~= y);
        lemma_decimal_injective(a as nat, b as nat);
    }
    if reg[a].argv == reg[b].argv {
        let p = "ARGV["@;
        let q = "]"@;
        let x = decimal((a + 1) as nat);
        let y = decimal((b + 1) as nat);
        assert((p + x + q).len() == p.len() + x.len() + q.len());
        assert((p + y + q).len() == p.len() + y.len() + q.len());
        assert((p + x + q).subrange(p.len() as int, (p.len() + x.len()) as int) =~= x);
        assert((p + y + q).subrange(p.len() as int, (p.len() + y.len()) as int) =~= y);
        lemma_decimal_injective((a + 1) as nat, (b + 1) as nat);
    }
}

/// Every offset of the index points at the location of a token whose text
/// spans that offset.
pub proof fn lemma_index_points_at_token(tokens: Seq<TokenView>, convert: bool, o: usize)
    requires
        assemble(tokens, convert).spans.contains_key(o),
    ensures
        exists|j: int|
            0 <= j < tokens.len() && begin_of(tokens, convert, j) <= o <= end_of(tokens, convert, j)
                && assemble(tokens, convert).spans[o] == (#[trigger] tokens[j]).span,
    decreases tokens.len(),
{
    if tokens.len() > 0 {
        let last = tokens.len() - 1;
        assert(tokens.take(last + 1) =~= tokens);
        lemma_after_is_step(tokens, convert, last);
        assert(tokens.take(last) =~= tokens.drop_last());
        if begin_of(tokens, convert, last) <= o <= end_of(tokens, convert, last) {
            assert(assemble(tokens, convert).spans[o] == tokens[last].span);
        } else {
            let head = tokens.drop_last();
            lemma_index_points_at_token(head, convert, o);
            let j = choose|j: int|
                0 <= j < head.len() && begin_of(head, convert, j) <= o <= end_of(head, convert, j)
                    && assemble(head, convert).spans[o] == (#[trigger] head[j]).span;
            assert(head.take(j) =~= tokens.take(j));
            assert(head.take(j + 1) =~= tokens.take(j + 1));
            assert(tokens[j] == head[j]);
        }
    }
}

/// Every offset from the start to the end of a token's text, both
/// included, is in the index.
pub proof fn lemma_token_range_indexed(tokens: Seq<TokenView>, convert: bool, j: int, o: usize)
    requires
        0 <= j < tokens.len(),
        begin_of(tokens, convert, j) <= o <= end_of(tokens, convert, j),
    ensures
        assemble(tokens, convert).spans.contains_key(o),
{
    lemma_after_is_step(tokens, convert, j);
    lemma_assemble_grows(tokens, convert, j + 1);
    assert(after(tokens, convert, j).spans.contains_key(o));
    assert(assemble(tokens.take(j + 1), convert).spans.contains_key(o));
}

/// A query over a range that holds an indexed offset gives at least one
/// location.
pub proof fn lemma_query_finds(m: Map<usize, Span>, lo: int, hi: int, o: usize)
    requires
        lo <= o <= hi,
        m.contains_key(o),
    ensures
        spans_in(m, lo, hi).len() >= 1,
        spans_in(m, lo, hi).contains(m[o]),
    decreases hi - o,
{
    if o < hi {
        lemma_query_finds(m, lo, hi - 1, o);
        let shorter = spans_in(m, lo, hi - 1);
        let i = choose|i: int| 0 <= i < shorter.len() && shorter[i] == m[o];
        assert(spans_in(m, lo, hi)[i] == m[o]);
    } else {
        let all = spans_in(m, lo, hi);
        assert(all[all.len() - 1] == m[o]);
    }
}

/// The offset at which a token's text starts, where that text is not
/// empty, keeps the location of that token however many tokens follow: no
/// later token writes at or before the end of an earlier one's text.
pub proof fn lemma_start_kept(tokens: Seq<TokenView>, convert: bool, j: int, n: int, o: usize)
    requires
        0 <= j < n <= tokens.len(),
        o == begin_of(tokens, convert, j),
        begin_of(tokens, convert, j) < end_of(tokens, convert, j),
    ensures
        assemble(tokens.take(n), convert).spans.contains_key(o),
        assemble(tokens.take(n), convert).spans[o] == tokens[j].span,
        end_of(tokens, convert, j) <= byte_len(assemble(tokens.take(n), convert).text),
    decreases n - j,
{
    if n == j + 1 {
        lemma_after_is_step(tokens, convert, j);
    } else {
        lemma_start_kept(tokens, convert, j, n - 1, o);
        lemma_after_is_step(tokens, convert, n - 1);
        let prev = before(tokens, convert, n - 1);
        lemma_byte_len_concat(prev.text, separator(prev.pos, tokens[n - 1]));
        assert(o < begin_of(tokens, convert, n - 1));
    }
}

/// A query that starts at an indexed offset gives the location of that
/// offset first.
pub proof fn lemma_query_starts_with(m: Map<usize, Span>, lo: usize, hi: int)
    requires
        lo <= hi,
        m.contains_key(lo),
    ensures
        spans_in(m, lo as int, hi).len() >= 1,
        spans_in(m, lo as int, hi)[0] == m[lo],
    decreases hi - lo,
{
    if lo < hi {
        lemma_query_starts_with(m, lo, hi - 1);
    } else {
        assert(spans_in(m, lo as int, hi - 1) =~= Seq::<Span>::empty());
    }
}

/// A query that starts where the text of a token starts gives the location
/// of that token first, where the token's text is not empty. A diagnostic
/// on a token of the checked body, which takes the first location of its
/// range, therefore points at the host location of that very token.
pub proof fn lemma_token_start_maps_to_token(
    tokens: Seq<TokenView>,
    convert: bool,
    j: int,
    o: usize,
    hi: usize,
)
    requires
        0 <= j < tokens.len(),
        code_of(tokens, convert, j).len() > 0,
        o == begin_of(tokens, convert, j),
        o <= hi,
    ensures
        script_of(tokens, convert).spans.contains_key(o),
        script_of(tokens, convert).spans[o] == tokens[j].span,
        spans_in(script_of(tokens, convert).spans, o as int, hi as int).len() >= 1,
        spans_in(script_of(tokens, convert).spans, o as int, hi as int)[0] == tokens[j].span,
{
    lemma_after_is_step(tokens, convert, j);
    let prev = before(tokens, convert, j);
    lemma_byte_len_concat(prev.text + separator(prev.pos, tokens[j]), code_of(tokens, convert, j));
    lemma_byte_len_at_least_len(code_of(tokens, convert, j));
    lemma_start_kept(tokens, convert, j, tokens.len() as int, o);
    assert(tokens.take(tokens.len() as int) =~= tokens);
    lemma_query_starts_with(script_of(tokens, convert).spans, o, hi as int);
}

/// A query over a range of the checked body that touches the text of a
/// token gives at least one host location, and every location of the index
/// is that of a token whose text spans the offset. An offset that lies
/// strictly between two tokens, inside two or more blanks, is in no
/// token's text and is not in the index.
pub proof fn lemma_span_coverage(
    tokens: Seq<TokenView>,
    convert: bool,
    j: int,
    lo: usize,
    hi: usize,
    o: usize,
)
    requires
        0 <= j < tokens.len(),
        begin_of(tokens, convert, j) <= o <= end_of(tokens, convert, j),
        lo <= o <= hi,
    ensures
        spans_in(script_of(tokens, convert).spans, lo as int, hi as int).len() >= 1,
        exists|k: int|
            0 <= k < tokens.len() && begin_of(tokens, convert, k) <= o <= end_of(tokens, convert, k)
                && script_of(tokens, convert).spans[o] == (#[trigger] tokens[k]).span,
{
    lemma_token_range_indexed(tokens, convert, j, o);
    lemma_query_finds(assemble(tokens, convert).spans, lo as int, hi as int, o);
    lemma_index_points_at_token(tokens, convert, o);
}

/// A query over the whole checked body of a script with at least one token
/// gives at least one host location.
pub proof fn lemma_whole_body_has_span(tokens: Seq<TokenView>, convert: bool, hi: usize)
    requires
        tokens.len() > 0,
    ensures
        spans_in(script_of(tokens, convert).spans, 0, hi as int).len() >= 1,
{
    lemma_after_is_step(tokens, convert, 0);
    assert(tokens.take(0) =~= Seq::<TokenView>::empty());
    assert(spaces(0) =~= Seq::<char>::empty());
    let prev = before(tokens, convert, 0);
    assert(prev.text + separator(prev.pos, tokens[0]) =~= Seq::<char>::empty());
    assert(begin_of(tokens, convert, 0) == 0);
    lemma_span_coverage(tokens, convert, 0, 0, hi, 0);
}

/// `s` without its white space.
pub open spec fn strip(s: Seq<char>) -> Seq<char>
    decreases s.len(),
{
    if s.len() == 0 {
        s
    } else if is_white_space(s.last()) {
        strip(s.drop_last())
    } else {
        strip(s.drop_last()).push(s.last())
    }
}

/// Leaving out white space goes through concatenation.
pub proof fn lemma_strip_concat(a: Seq<char>, b: Seq<char>)
    ensures
        strip(a + b) == strip(a) + strip(b),
    decreases b.len(),
{
    if b.len() == 0 {
        assert(a + b =~= a);
        assert(strip(a) + strip(b) =~= strip(a));
    } else {
        assert((a + b).drop_last() =~= a + b.drop_last());
        lemma_strip_concat(a, b.drop_last());
        assert((a + b).last() == b.last());
        if is_white_space(b.last()) {
        } else {
            assert(strip(a + b) =~= strip(a) + strip(b));
        }
    }
}

/// Text that holds white space only leaves nothing.
pub proof fn lemma_strip_white(s: Seq<char>)
    requires
        forall|i: int| 0 <= i < s.len() ==> is_white_space(#[trigger] s[i]),
    ensures
        strip(s) == Seq::<char>::empty(),
    decreases s.len(),
{
    if s.len() > 0 {
        assert(is_white_space(s[s.len() - 1]));
        lemma_strip_white(s.drop_last());
    }
}

/// Trimming the end cuts off white space only.
pub proof fn lemma_strip_trim(s: Seq<char>)
    ensures
        strip(trim_end_spec(s)) == strip(s),
    decreases s.len(),
{
    if s.len() > 0 && is_white_space(s.last()) {
        lemma_strip_trim(s.drop_last());
    }
}

/// The texts written for the tokens, one behind the other with nothing
/// between them.
pub open spec fn codes(tokens: Seq<TokenView>, convert: bool) -> Seq<char>
    decreases tokens.len(),
{
    if tokens.len() == 0 {
        seq![]
    } else {
        codes(tokens.drop_last(), convert) + step_code(
            assemble(tokens, convert).args,
            tokens.last(),
            convert,
        )
    }
}

/// The layout adds white space only: with white space left out, the
/// checked body is the texts written for the tokens, in order, where each
/// placeholder was written as its internal name and every other token as
/// its own text.
pub proof fn lemma_layout_adds_white_space_only(tokens: Seq<TokenView>, convert: bool)
    ensures
        strip(assemble(tokens, convert).text) == strip(codes(tokens, convert)),
        strip(script_of(tokens, convert).script) == strip(codes(tokens, convert)),
    decreases tokens.len(),
{
    lemma_strip_trim(assemble(tokens, convert).text);
    if tokens.len() > 0 {
        let head = tokens.drop_last();
        let t = tokens.last();
        let prev = assemble(head, convert);
        lemma_layout_adds_white_space_only(head, convert);
        let sep = separator(prev.pos, t);
        let code = step_code(assemble(tokens, convert).args, t, convert);
        lemma_strip_white(sep);
        lemma_strip_concat(prev.text, sep);
        lemma_strip_concat(prev.text + sep, code);
        lemma_strip_concat(codes(head, convert), code);
        assert(strip(prev.text) + strip(sep) =~= strip(prev.text));
    }
}

} // verus!
