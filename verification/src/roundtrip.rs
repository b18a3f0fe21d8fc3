//! The round-trip law: serialized CSS re-tokenizes to the same
//! declarations, so serializing again reproduces the text exactly.
//!
//! The law holds for declaration lists whose text fields cannot collide with
//! the tokenizer's significant characters: properties, values and scope
//! names are trimmed and avoid braces, semicolons, quotes, backslashes and
//! slashes (values and names may still contain colons); a scope's kind
//! agrees with its name; and no declaration sits in a hoisted (`@property`)
//! block, whose re-parse deliberately flattens the surrounding selectors
//! away. [`lemma_round_trip`] states both halves: re-tokenizing
//! reconstructs the declarations and the fresh state, and re-serializing
//! yields identical text.

use vstd::prelude::*;

use crate::model::{SpecDecl, SpecScope};
use crate::parse::{init_state, lemma_parse_concat, spec_parse, spec_step,
    emit_at_semicolon, scope_type_of, LexMode, ParseOutcome, SpecState};
use crate::serialize::{close_line, closes, common_prefix_len, decl_line, first_hoisted, indent,
    init_ser_state, is_hoisted_scope, open_line, opens, ser_run, ser_step, spec_to_css,
    SerState};
use crate::text::{is_css_space, lemma_trim_padded, spec_trim};

verus! {

/// A character without lexical significance for the tokenizer.
pub open spec fn plain_char(c: char) -> bool {
    c != '/' && c != '\\' && c != '"' && c != '\'' && c != '{' && c != '}' && c != ';' && c != ':'
}

/// Text of plain characters only.
pub open spec fn plain_text(s: Seq<char>) -> bool {
    forall|i: int| 0 <= i < s.len() ==> plain_char(s[i])
}

/// A character allowed in scope names and values: plain, or a colon (as in
/// `&:hover` or `url(http://...)`).
pub open spec fn value_char(c: char) -> bool {
    plain_char(c) || c == ':'
}

/// Text of value characters only.
pub open spec fn value_text(s: Seq<char>) -> bool {
    forall|i: int| 0 <= i < s.len() ==> value_char(s[i])
}

/// A scope that survives the round trip: its name is trimmed value text,
/// its kind is the one the tokenizer infers from the name, and it is not a
/// hoisted block.
pub open spec fn clean_scope(s: SpecScope) -> bool {
    &&& value_text(s.name)
    &&& spec_trim(s.name) == s.name
    &&& s.scope_type == scope_type_of(s.name)
    &&& !is_hoisted_scope(s)
}

/// A declaration whose text fields survive the round trip: closed, with a
/// plain trimmed property and a trimmed value of value text.
pub open spec fn clean_fields(d: SpecDecl) -> bool {
    &&& d.closed
    &&& plain_text(d.property)
    &&& spec_trim(d.property) == d.property
    &&& value_text(d.value)
    &&& spec_trim(d.value) == d.value
}

/// A declaration that survives the round trip: clean fields and clean
/// scopes throughout.
pub open spec fn clean_decl(d: SpecDecl) -> bool {
    &&& clean_fields(d)
    &&& forall|i: int| 0 <= i < d.scope.len() ==> clean_scope(#[trigger] d.scope[i])
}

/// A declaration list that survives the round trip.
pub open spec fn clean_decls(decls: Seq<SpecDecl>) -> bool {
    forall|i: int| 0 <= i < decls.len() ==> clean_decl(#[trigger] decls[i])
}

/// The parser's state between complete tokens under a given scope stack.
pub open spec fn state_of(scopes: Seq<SpecScope>) -> SpecState {
    SpecState { scopes, buffer: Seq::empty(), colon: None, mode: LexMode::Top }
}

/// Parsing plain text in plain mode only accumulates it; nothing else in
/// the state moves.
proof fn lemma_parse_plain(st: SpecState, s: Seq<char>)
    requires
        st.mode == LexMode::Top,
        plain_text(s),
    ensures
        spec_parse(st, s) == (ParseOutcome {
            state: SpecState { buffer: st.buffer + s, ..st },
            decls: Seq::empty(),
        }),
    decreases s.len(),
{
    if s.len() == 0 {
        assert(st.buffer + s =~= st.buffer);
        assert(SpecState { buffer: st.buffer + s, ..st } =~= st);
    } else {
        let c = s[0];
        let st1 = spec_step(st, c).0;
        assert(st1 =~= SpecState { buffer: st.buffer.push(c), ..st });
        assert(spec_step(st, c).1 is None);
        assert(plain_text(s.skip(1)));
        lemma_parse_plain(st1, s.skip(1));
        assert(st1.buffer + s.skip(1) =~= st.buffer + s);
        assert(SpecState { buffer: st1.buffer + s.skip(1), ..st1 } =~= SpecState {
            buffer: st.buffer + s,
            ..st
        });
        assert(crate::parse::opt_seq(None) + Seq::<SpecDecl>::empty() =~= Seq::<
            SpecDecl,
        >::empty());
    }
}

/// Parsing value text in plain mode accumulates it; the scope stack and the
/// mode do not move, an already recorded colon stays recorded, and nothing
/// is emitted.
proof fn lemma_parse_value(st: SpecState, s: Seq<char>)
    requires
        st.mode == LexMode::Top,
        value_text(s),
    ensures
        spec_parse(st, s).state.scopes == st.scopes,
        spec_parse(st, s).state.buffer == st.buffer + s,
        spec_parse(st, s).state.mode == LexMode::Top,
        st.colon is Some ==> spec_parse(st, s).state.colon == st.colon,
        spec_parse(st, s).decls == Seq::<SpecDecl>::empty(),
    decreases s.len(),
{
    if s.len() == 0 {
        assert(st.buffer + s =~= st.buffer);
    } else {
        let c = s[0];
        let st1 = spec_step(st, c).0;
        assert(spec_step(st, c).1 is None);
        assert(st1.buffer == st.buffer.push(c));
        assert(st1.scopes == st.scopes && st1.mode == LexMode::Top);
        assert(st.colon is Some ==> st1.colon == st.colon);
        assert(value_text(s.skip(1)));
        lemma_parse_value(st1, s.skip(1));
        assert(st1.buffer + s.skip(1) =~= st.buffer + s);
        assert(crate::parse::opt_seq(None) + Seq::<SpecDecl>::empty() =~= Seq::<
            SpecDecl,
        >::empty());
    }
}

/// Parsing one opening line from between-token state pushes exactly the
/// written scope.
proof fn lemma_parse_open_line(scopes: Seq<SpecScope>, sc: SpecScope, level: nat)
    requires
        value_text(sc.name),
        spec_trim(sc.name) == sc.name,
        sc.scope_type == scope_type_of(sc.name),
    ensures
        spec_parse(state_of(scopes), open_line(level, sc.name)) == (ParseOutcome {
            state: state_of(scopes.push(sc)),
            decls: Seq::empty(),
        }),
{
    let st = state_of(scopes);
    let ws1 = seq!['\n'] + indent(level);
    let pre = ws1 + sc.name + seq![' '];
    assert(open_line(level, sc.name) =~= pre.push('{'));
    assert forall|j: int| 0 <= j < ws1.len() implies is_css_space(ws1[j]) by {
        if j > 0 {
            assert(ws1[j] == indent(level)[j - 1]);
        }
    }
    assert forall|j: int| 0 <= j < pre.len() implies value_char(pre[j]) by {
        if j < ws1.len() {
            assert(pre[j] == ws1[j]);
        } else if j < ws1.len() + sc.name.len() {
            assert(pre[j] == sc.name[j - ws1.len()]);
        } else {
            assert(pre[j] == ' ');
        }
    }
    lemma_parse_value(st, pre);
    let mid = spec_parse(st, pre).state;
    assert(mid.buffer =~= pre);
    crate::parse::lemma_parse_snoc(st, pre, '{');
    lemma_trim_padded(ws1, sc.name, seq![' ']);
    assert(pre =~= ws1 + sc.name + seq![' ']);
    let stepped = spec_step(mid, '{').0;
    assert(spec_trim(mid.buffer) == sc.name);
    assert(stepped.scopes =~= scopes.push(SpecScope {
        name: sc.name,
        scope_type: scope_type_of(sc.name),
    }));
    assert(SpecScope { name: sc.name, scope_type: scope_type_of(sc.name) } =~= sc);
    assert(stepped =~= state_of(scopes.push(sc)));
    assert(spec_parse(st, pre).decls + crate::parse::opt_seq(spec_step(mid, '{').1) =~= Seq::<
        SpecDecl,
    >::empty());
}

/// Parsing one closing line from between-token state pops one scope.
proof fn lemma_parse_close_line(scopes: Seq<SpecScope>, level: nat)
    requires
        scopes.len() > 0,
    ensures
        spec_parse(state_of(scopes), close_line(level)) == (ParseOutcome {
            state: state_of(scopes.drop_last()),
            decls: Seq::empty(),
        }),
{
    let st = state_of(scopes);
    let pre = seq!['\n'] + indent(level);
    assert(close_line(level) =~= pre.push('}'));
    assert forall|j: int| 0 <= j < pre.len() implies value_char(pre[j]) by {
        if j > 0 {
            assert(pre[j] == indent(level)[j - 1]);
        }
    }
    lemma_parse_value(st, pre);
    let mid = spec_parse(st, pre).state;
    crate::parse::lemma_parse_snoc(st, pre, '}');
    let stepped = spec_step(mid, '}').0;
    assert(stepped =~= state_of(scopes.drop_last()));
    assert(spec_parse(st, pre).decls + crate::parse::opt_seq(spec_step(mid, '}').1) =~= Seq::<
        SpecDecl,
    >::empty());
}

/// Parsing one declaration line from between-token state emits exactly that
/// declaration and returns to between-token state.
proof fn lemma_parse_decl_line(scopes: Seq<SpecScope>, d: SpecDecl, level: nat)
    requires
        d.closed,
        plain_text(d.property),
        spec_trim(d.property) == d.property,
        value_text(d.value),
        spec_trim(d.value) == d.value,
        d.scope == scopes,
    ensures
        spec_parse(state_of(scopes), decl_line(level, d.property, d.value)) == (ParseOutcome {
            state: state_of(scopes),
            decls: seq![d],
        }),
{
    let st = state_of(scopes);
    let ws1 = seq!['\n'] + indent(level);
    let p1 = ws1 + d.property;
    let p2 = seq![' '] + d.value;
    let head = p1.push(':') + p2;
    assert(decl_line(level, d.property, d.value) =~= head.push(';'));

    assert forall|j: int| 0 <= j < ws1.len() implies is_css_space(ws1[j]) && plain_char(
        ws1[j],
    ) by {
        if j > 0 {
            assert(ws1[j] == indent(level)[j - 1]);
        }
    }
    assert forall|j: int| 0 <= j < p1.len() implies plain_char(p1[j]) by {
        if j < ws1.len() {
            assert(p1[j] == ws1[j]);
        } else {
            assert(p1[j] == d.property[j - ws1.len()]);
        }
    }
    assert forall|j: int| 0 <= j < p2.len() implies value_char(p2[j]) by {
        if j > 0 {
            assert(p2[j] == d.value[j - 1]);
        }
    }

    // The whitespace and the property accumulate; no colon is recorded.
    lemma_parse_plain(st, p1);
    let st1 = spec_parse(st, p1).state;
    // The colon is recorded at the end of the accumulated text.
    crate::parse::lemma_parse_snoc(st, p1, ':');
    let st2 = spec_step(st1, ':').0;
    assert(st2.colon == Some(p1.len() as int));
    assert(st2.buffer == p1.push(':'));
    // The value accumulates behind the recorded colon.
    lemma_parse_concat(st, p1.push(':'), p2);
    lemma_parse_value(st2, p2);
    let st3 = spec_parse(st2, p2).state;
    assert(st3.buffer =~= head);
    assert(st3.colon == Some(p1.len() as int));
    // The semicolon completes the declaration.
    crate::parse::lemma_parse_snoc(st, head, ';');
    let i = p1.len() as int;
    assert(st3.buffer.take(i) =~= p1);
    assert(st3.buffer.skip(i + 1) =~= p2);
    lemma_trim_padded(ws1, d.property, Seq::empty());
    assert(p1 =~= ws1 + d.property + Seq::<char>::empty());
    lemma_trim_padded(seq![' '], d.value, Seq::empty());
    assert(p2 =~= seq![' '] + d.value + Seq::<char>::empty());
    let emitted = emit_at_semicolon(st3);
    assert(emitted == Some(SpecDecl {
        property: d.property,
        value: d.value,
        closed: true,
        scope: scopes,
    }));
    assert(emitted->Some_0 =~= d);
    let st4 = spec_step(st3, ';').0;
    assert(st4 =~= state_of(scopes));
    assert(spec_parse(st, head).decls =~= Seq::<SpecDecl>::empty());
    assert(Seq::<SpecDecl>::empty() + crate::parse::opt_seq(emitted) =~= seq![d]);
}

/// Parsing the opening lines for the scopes of `target` from level `j` on,
/// with the outer part of `target` already open, opens the rest.
proof fn lemma_parse_opens(target: Seq<SpecScope>, j: nat)
    requires
        j <= target.len(),
        forall|i: int| j <= i < target.len() ==> clean_scope(#[trigger] target[i]),
    ensures
        spec_parse(state_of(target.take(j as int)), opens(target, j)) == (ParseOutcome {
            state: state_of(target),
            decls: Seq::empty(),
        }),
    decreases target.len() - j,
{
    if j == target.len() {
        assert(target.take(j as int) =~= target);
    } else {
        let line = open_line(j, target[j as int].name);
        lemma_parse_open_line(target.take(j as int), target[j as int], j);
        assert(target.take(j as int).push(target[j as int]) =~= target.take(j as int + 1));
        lemma_parse_concat(state_of(target.take(j as int)), line, opens(target, (j + 1) as nat));
        lemma_parse_opens(target, (j + 1) as nat);
        assert(opens(target, j) =~= line + opens(target, (j + 1) as nat));
        assert(Seq::<SpecDecl>::empty() + Seq::<SpecDecl>::empty() =~= Seq::<
            SpecDecl,
        >::empty());
    }
}

/// Parsing the closing lines from the current depth down to `lo` pops the
/// scope stack back to its outermost `lo` entries.
proof fn lemma_parse_closes(scopes: Seq<SpecScope>, lo: nat)
    requires
        lo <= scopes.len(),
    ensures
        spec_parse(state_of(scopes), closes(scopes.len(), lo)) == (ParseOutcome {
            state: state_of(scopes.take(lo as int)),
            decls: Seq::empty(),
        }),
    decreases scopes.len() - lo,
{
    if scopes.len() == lo {
        assert(scopes.take(lo as int) =~= scopes);
    } else {
        let hi = scopes.len();
        let line = close_line((hi - 1) as nat);
        lemma_parse_close_line(scopes, (hi - 1) as nat);
        assert(scopes.drop_last() =~= scopes.take(hi - 1));
        lemma_parse_concat(state_of(scopes), line, closes((hi - 1) as nat, lo));
        lemma_parse_closes(scopes.take(hi - 1), lo);
        assert(scopes.take(hi - 1).len() == hi - 1);
        assert(scopes.take(hi - 1).take(lo as int) =~= scopes.take(lo as int));
        assert(closes(hi, lo) == line + closes((hi - 1) as nat, lo));
        assert(Seq::<SpecDecl>::empty() + Seq::<SpecDecl>::empty() =~= Seq::<
            SpecDecl,
        >::empty());
    }
}

/// The common prefix length never exceeds either stack, and the stacks agree
/// below it.
proof fn lemma_common_prefix_props(a: Seq<SpecScope>, b: Seq<SpecScope>)
    ensures
        common_prefix_len(a, b) <= a.len(),
        common_prefix_len(a, b) <= b.len(),
        forall|j: int| 0 <= j < common_prefix_len(a, b) ==> a[j] == b[j],
    decreases a.len(),
{
    if a.len() == 0 || b.len() == 0 || a[0] != b[0] {
    } else {
        lemma_common_prefix_props(a.skip(1), b.skip(1));
        assert forall|j: int| 0 <= j < common_prefix_len(a, b) implies a[j] == b[j] by {
            if j > 0 {
                assert(a.skip(1)[j - 1] == b.skip(1)[j - 1]);
            }
        }
    }
}

/// The regular text one declaration contributes, given the scopes left open
/// by the previous one.
pub open spec fn chunk_text(prev: Seq<SpecScope>, d: SpecDecl) -> Seq<char> {
    let k = common_prefix_len(prev, d.scope);
    closes(prev.len(), k) + opens(d.scope, k) + decl_line(d.scope.len(), d.property, d.value)
}

/// Parsing one declaration's chunk closes and reopens scopes and emits
/// exactly that declaration.
proof fn lemma_parse_chunk(prev: Seq<SpecScope>, d: SpecDecl)
    requires
        clean_decl(d),
    ensures
        spec_parse(state_of(prev), chunk_text(prev, d)) == (ParseOutcome {
            state: state_of(d.scope),
            decls: seq![d],
        }),
{
    let k = common_prefix_len(prev, d.scope);
    lemma_common_prefix_props(prev, d.scope);
    let cl = closes(prev.len(), k);
    let op = opens(d.scope, k);
    let dl = decl_line(d.scope.len(), d.property, d.value);
    lemma_parse_closes(prev, k);
    assert(prev.take(k as int) =~= d.scope.take(k as int));
    lemma_parse_opens(d.scope, k);
    lemma_parse_decl_line(d.scope, d, d.scope.len());
    lemma_parse_concat(state_of(prev), cl, op + dl);
    lemma_parse_concat(state_of(d.scope.take(k as int)), op, dl);
    assert(chunk_text(prev, d) =~= cl + (op + dl));
    assert(Seq::<SpecDecl>::empty() + (Seq::<SpecDecl>::empty() + seq![d]) =~= seq![d]);
}

/// The whole regular text of a declaration list, given the scopes left open
/// before it.
pub open spec fn reg_text(prev: Seq<SpecScope>, decls: Seq<SpecDecl>) -> Seq<char>
    decreases decls.len(),
{
    if decls.len() == 0 {
        Seq::empty()
    } else {
        chunk_text(prev, decls[0]) + reg_text(decls[0].scope, decls.skip(1))
    }
}

/// The scopes left open after a declaration list.
pub open spec fn end_scopes(prev: Seq<SpecScope>, decls: Seq<SpecDecl>) -> Seq<SpecScope> {
    if decls.len() == 0 {
        prev
    } else {
        decls.last().scope
    }
}

/// Parsing the regular text of a clean declaration list reconstructs the
/// list and leaves the last declaration's scopes open.
proof fn lemma_parse_reg_text(prev: Seq<SpecScope>, decls: Seq<SpecDecl>)
    requires
        clean_decls(decls),
    ensures
        spec_parse(state_of(prev), reg_text(prev, decls)) == (ParseOutcome {
            state: state_of(end_scopes(prev, decls)),
            decls: decls,
        }),
    decreases decls.len(),
{
    if decls.len() == 0 {
        assert(spec_parse(state_of(prev), reg_text(prev, decls)).decls =~= decls);
    } else {
        let d = decls[0];
        lemma_parse_chunk(prev, d);
        assert(clean_decls(decls.skip(1)));
        lemma_parse_reg_text(d.scope, decls.skip(1));
        lemma_parse_concat(state_of(prev), chunk_text(prev, d), reg_text(d.scope, decls.skip(1)));
        assert(seq![d] + decls.skip(1) =~= decls);
        if decls.skip(1).len() == 0 {
            assert(end_scopes(d.scope, decls.skip(1)) =~= d.scope);
            assert(end_scopes(prev, decls) =~= d.scope);
        } else {
            assert(decls.skip(1).last() == decls.last());
        }
    }
}

proof fn lemma_first_hoisted_none(scopes: Seq<SpecScope>)
    requires
        forall|i: int| 0 <= i < scopes.len() ==> !is_hoisted_scope(#[trigger] scopes[i]),
    ensures
        first_hoisted(scopes) is None,
    decreases scopes.len(),
{
    if scopes.len() > 0 {
        lemma_first_hoisted_none(scopes.skip(1));
    }
}

/// On a clean declaration list the serializer never touches the hoisted
/// buffer: it appends each declaration's chunk to the regular buffer and
/// tracks the last declaration's scopes.
proof fn lemma_ser_run_regular(st: SerState, decls: Seq<SpecDecl>)
    requires
        st.prev_hoisted is None,
        clean_decls(decls),
    ensures
        ser_run(st, decls) == (SerState {
            hoisted: st.hoisted,
            regular: st.regular + reg_text(st.prev_scopes, decls),
            prev_scopes: end_scopes(st.prev_scopes, decls),
            prev_hoisted: None,
        }),
    decreases decls.len(),
{
    if decls.len() == 0 {
        assert(st.regular + reg_text(st.prev_scopes, decls) =~= st.regular);
        assert(ser_run(st, decls) =~= SerState {
            hoisted: st.hoisted,
            regular: st.regular + reg_text(st.prev_scopes, decls),
            prev_scopes: end_scopes(st.prev_scopes, decls),
            prev_hoisted: None,
        });
    } else {
        let d = decls[0];
        assert(clean_decl(d));
        lemma_first_hoisted_none(d.scope);
        let st1 = ser_step(st, d);
        assert(st1.hoisted == st.hoisted);
        assert(st1.prev_hoisted is None);
        assert(st1.regular =~= st.regular + chunk_text(st.prev_scopes, d));
        assert(st1.prev_scopes == d.scope);
        assert(clean_decls(decls.skip(1)));
        lemma_ser_run_regular(st1, decls.skip(1));
        assert((st.regular + chunk_text(st.prev_scopes, d)) + reg_text(d.scope, decls.skip(1))
            =~= st.regular + reg_text(st.prev_scopes, decls));
        if decls.skip(1).len() == 0 {
            assert(end_scopes(st.prev_scopes, decls) =~= d.scope);
        } else {
            assert(decls.skip(1).last() == decls.last());
        }
        assert(ser_run(st, decls) =~= SerState {
            hoisted: st.hoisted,
            regular: st.regular + reg_text(st.prev_scopes, decls),
            prev_scopes: end_scopes(st.prev_scopes, decls),
            prev_hoisted: None,
        });
    }
}

/// The round-trip law: serializing a clean, fully closed declaration list,
/// re-tokenizing the text as one chunk, and serializing again is the
/// identity on both the declarations and the text. Re-tokenizing ends in
/// the fresh parser state: every scope the text opens, it closes.
pub proof fn lemma_round_trip(decls: Seq<SpecDecl>)
    requires
        clean_decls(decls),
    ensures
        spec_parse(init_state(), spec_to_css(decls)) == (ParseOutcome {
            state: init_state(),
            decls,
        }),
        spec_to_css(spec_parse(init_state(), spec_to_css(decls)).decls) == spec_to_css(decls),
{
    lemma_ser_run_regular(init_ser_state(), decls);
    let run = ser_run(init_ser_state(), decls);
    let body = reg_text(Seq::empty(), decls);
    let endsc = end_scopes(Seq::empty(), decls);
    assert(run.regular =~= body);
    let tail = closes(endsc.len(), 0);
    assert(spec_to_css(decls) =~= body + tail);
    lemma_parse_reg_text(Seq::empty(), decls);
    lemma_parse_closes(endsc, 0);
    lemma_parse_concat(state_of(Seq::empty()), body, tail);
    assert(state_of(Seq::empty()) =~= init_state());
    assert(endsc.take(0) =~= Seq::<SpecScope>::empty());
    assert(decls + Seq::<SpecDecl>::empty() =~= decls);
    assert(spec_parse(init_state(), spec_to_css(decls)) =~= ParseOutcome {
        state: init_state(),
        decls,
    });
}

/// The declaration lines of one hoisted block.
pub open spec fn hlines(decls: Seq<SpecDecl>) -> Seq<char>
    decreases decls.len(),
{
    if decls.len() == 0 {
        Seq::empty()
    } else {
        crate::serialize::hoisted_decl_line(decls[0].property, decls[0].value) + hlines(
            decls.skip(1),
        )
    }
}

/// A declaration list as it reads back out of a serialized hoisted block:
/// the same properties and values, each under the block's scope alone.
pub open spec fn reshaped(decls: Seq<SpecDecl>, h: SpecScope) -> Seq<SpecDecl> {
    decls.map_values(
        |d: SpecDecl| SpecDecl { property: d.property, value: d.value, closed: true, scope: seq![h] },
    )
}

/// Every declaration of the list lies in the hoisted block `h`.
pub open spec fn all_in_hoisted(decls: Seq<SpecDecl>, h: SpecScope) -> bool {
    forall|i: int| 0 <= i < decls.len() ==> clean_fields(#[trigger] decls[i]) && first_hoisted(
        decls[i].scope,
    ) == Some(h)
}

/// With a hoisted block already open, the serializer appends one line per
/// declaration of that block and touches nothing else.
proof fn lemma_ser_run_hoisted(st: SerState, decls: Seq<SpecDecl>, h: SpecScope)
    requires
        st.prev_hoisted == Some(h),
        all_in_hoisted(decls, h),
    ensures
        ser_run(st, decls) == (SerState {
            hoisted: st.hoisted + hlines(decls),
            regular: st.regular,
            prev_scopes: st.prev_scopes,
            prev_hoisted: Some(h),
        }),
    decreases decls.len(),
{
    if decls.len() == 0 {
        assert(st.hoisted + hlines(decls) =~= st.hoisted);
        assert(ser_run(st, decls) =~= SerState {
            hoisted: st.hoisted + hlines(decls),
            regular: st.regular,
            prev_scopes: st.prev_scopes,
            prev_hoisted: Some(h),
        });
    } else {
        let d = decls[0];
        let st1 = ser_step(st, d);
        assert(st1.hoisted =~= st.hoisted + crate::serialize::hoisted_decl_line(
            d.property,
            d.value,
        ));
        assert(st1.prev_hoisted == Some(h));
        assert(all_in_hoisted(decls.skip(1), h));
        lemma_ser_run_hoisted(st1, decls.skip(1), h);
        assert((st.hoisted + crate::serialize::hoisted_decl_line(d.property, d.value)) + hlines(
            decls.skip(1),
        ) =~= st.hoisted + hlines(decls));
        assert(ser_run(st, decls) =~= SerState {
            hoisted: st.hoisted + hlines(decls),
            regular: st.regular,
            prev_scopes: st.prev_scopes,
            prev_hoisted: Some(h),
        });
    }
}

/// The serialized text of a nonempty list that lies in one hoisted block:
/// the block opened once, one line per declaration, the block closed.
proof fn lemma_to_css_hoisted(decls: Seq<SpecDecl>, h: SpecScope)
    requires
        decls.len() > 0,
        all_in_hoisted(decls, h),
    ensures
        spec_to_css(decls) == crate::serialize::hoisted_open(h.name) + hlines(decls)
            + crate::serialize::hoisted_close(),
{
    let d = decls[0];
    let st1 = ser_step(init_ser_state(), d);
    assert(st1.hoisted =~= crate::serialize::hoisted_open(h.name)
        + crate::serialize::hoisted_decl_line(d.property, d.value));
    assert(st1.prev_hoisted == Some(h));
    assert(st1.regular =~= Seq::<char>::empty());
    assert(st1.prev_scopes =~= Seq::<SpecScope>::empty());
    assert(all_in_hoisted(decls.skip(1), h));
    lemma_ser_run_hoisted(st1, decls.skip(1), h);
    let run = ser_run(init_ser_state(), decls);
    assert(run.hoisted =~= crate::serialize::hoisted_open(h.name) + hlines(decls));
    assert(closes(0, 0) =~= Seq::<char>::empty());
    assert(spec_to_css(decls) =~= crate::serialize::hoisted_open(h.name) + hlines(decls)
        + crate::serialize::hoisted_close());
}

/// Parsing the lines of a hoisted block emits the declarations under the
/// block's scope alone.
proof fn lemma_parse_hlines(decls: Seq<SpecDecl>, h: SpecScope)
    requires
        forall|i: int| 0 <= i < decls.len() ==> clean_fields(#[trigger] decls[i]),
    ensures
        spec_parse(state_of(seq![h]), hlines(decls)) == (ParseOutcome {
            state: state_of(seq![h]),
            decls: reshaped(decls, h),
        }),
    decreases decls.len(),
{
    if decls.len() == 0 {
        assert(reshaped(decls, h) =~= Seq::<SpecDecl>::empty());
    } else {
        let d = decls[0];
        let d2 = SpecDecl { property: d.property, value: d.value, closed: true, scope: seq![h] };
        let line = crate::serialize::hoisted_decl_line(d.property, d.value);
        assert(line =~= decl_line(1, d.property, d.value)) by {
            assert(indent(1) =~= seq![' ', ' ']);
        }
        lemma_parse_decl_line(seq![h], d2, 1);
        lemma_parse_concat(state_of(seq![h]), line, hlines(decls.skip(1)));
        lemma_parse_hlines(decls.skip(1), h);
        assert(hlines(decls) =~= line + hlines(decls.skip(1)));
        assert(seq![d2] + reshaped(decls.skip(1), h) =~= reshaped(decls, h));
    }
}

/// The round-trip law for a hoisted block: a nonempty declaration list with
/// clean text fields that lies entirely in one `@property` block with a
/// clean name serializes, re-tokenizes and re-serializes to identical text.
/// Re-parsing flattens each declaration's scope stack to the block alone,
/// which serializes the same way.
pub proof fn lemma_round_trip_hoisted(decls: Seq<SpecDecl>, h: SpecScope)
    requires
        decls.len() > 0,
        value_text(h.name),
        spec_trim(h.name) == h.name,
        is_hoisted_scope(h),
        all_in_hoisted(decls, h),
    ensures
        spec_to_css(spec_parse(init_state(), spec_to_css(decls)).decls) == spec_to_css(decls),
{
    lemma_to_css_hoisted(decls, h);
    // The block's name starts with `@`, so re-tokenizing infers an at-rule.
    assert(h.name[0] == '@') by {
        assert(h.name.take(9)[0] == h.name[0]);
        assert(crate::text::at_property_prefix()[0] == '@');
    }
    assert(h.scope_type == scope_type_of(h.name));
    // The opening of the block is an ordinary opening line at depth zero.
    let op = crate::serialize::hoisted_open(h.name);
    assert(op =~= open_line(0, h.name)) by {
        assert(indent(0) =~= Seq::<char>::empty());
    }
    lemma_parse_open_line(Seq::empty(), h, 0);
    assert(Seq::<SpecScope>::empty().push(h) =~= seq![h]);
    assert(state_of(Seq::<SpecScope>::empty()) =~= init_state());
    // The body lines re-tokenize to the flattened declarations.
    lemma_parse_hlines(decls, h);
    // The closing of the block is a closing line at depth zero followed by
    // a newline that stays pending.
    let cl = crate::serialize::hoisted_close();
    assert(cl =~= close_line(0).push('\n')) by {
        assert(indent(0) =~= Seq::<char>::empty());
    }
    lemma_parse_close_line(seq![h], 0);
    assert(seq![h].drop_last() =~= Seq::<SpecScope>::empty());
    crate::parse::lemma_parse_snoc(state_of(seq![h]), close_line(0), '\n');
    lemma_parse_concat(init_state(), op, hlines(decls) + cl);
    lemma_parse_concat(state_of(seq![h]), hlines(decls), cl);
    assert(spec_to_css(decls) =~= op + (hlines(decls) + cl));
    let out = spec_parse(init_state(), spec_to_css(decls));
    assert(out.decls =~= reshaped(decls, h)) by {
        assert(spec_parse(state_of(seq![h]), cl).decls =~= Seq::<SpecDecl>::empty());
        assert(Seq::<SpecDecl>::empty() + (reshaped(decls, h) + Seq::<SpecDecl>::empty())
            =~= reshaped(decls, h));
    }
    // The flattened list lies in the same block with the same lines, so it
    // serializes to the same text.
    assert(first_hoisted(seq![h]) == Some(h));
    assert(all_in_hoisted(reshaped(decls, h), h));
    assert(reshaped(decls, h).len() > 0);
    lemma_to_css_hoisted(reshaped(decls, h), h);
    lemma_hlines_reshaped(decls, h);
}

proof fn lemma_hlines_reshaped(decls: Seq<SpecDecl>, h: SpecScope)
    ensures
        hlines(reshaped(decls, h)) == hlines(decls),
    decreases decls.len(),
{
    if decls.len() > 0 {
        lemma_hlines_reshaped(decls.skip(1), h);
        assert(reshaped(decls, h).skip(1) =~= reshaped(decls.skip(1), h));
        assert(hlines(reshaped(decls, h)) =~= hlines(decls));
    } else {
        assert(reshaped(decls, h).len() == 0);
    }
}

} // verus!
