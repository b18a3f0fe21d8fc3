//! The incremental, resumable CSS tokenizer.
//!
//! [`parse_css`] consumes one raw text chunk, starting from an optional
//! state carried over from the previous chunk, and returns the new state
//! together with the declarations completed inside the chunk. The grammar is
//! permissive by design: unmatched braces and unterminated comments or
//! strings never fail, they simply persist in the state, so that work in
//! progress (e.g. in an interactive editor) can still be parsed.
//!
//! The whole machine is specified character by character by [`spec_step`];
//! [`spec_parse`] folds it over a text. Resumability — splitting a text at
//! any point and threading the state gives the same result as parsing it
//! whole — is proved in [`lemma_resumability`].

use vstd::prelude::*;

use crate::model::{clone_scopes, scope_views, CssScope, Declaration, ScopeType, SpecDecl,
    SpecScope};
use crate::text::{spec_trim, trimmed_substring};

verus! {

use vstd::string::StrSliceExecFns;

/// Where in the lexical grammar the tokenizer currently stands. The pending
/// partial token is a single tagged mode, so that impossible combinations
/// (e.g. inside a comment and a string at once) cannot be represented.
#[derive(Clone, Copy, Debug, PartialEq, Eq, Structural)]
pub enum LexMode {
    /// Plain CSS text.
    Top,
    /// Immediately after a backslash in plain text; the next character is
    /// taken verbatim.
    TopEscape,
    /// A `/` was seen in plain text; a following `*` starts a comment.
    SlashSeen,
    /// Inside a `/* ... */` comment.
    InComment,
    /// Inside a comment, immediately after a `*`; a following `/` ends it.
    StarSeen,
    /// Inside a string literal opened by the given quote character.
    InString(char),
    /// Inside a string literal, immediately after a backslash.
    StringEscape(char),
}

/// The state threaded between chunk calls: the live scope stack, the raw
/// text of the token under construction, the position of the first
/// unquoted `:` inside it (the property/value split), and the lexical mode.
///
/// The fields are public: a caller may rewrite `current_scopes` between
/// chunks to nest the remaining declarations under a synthetic wrapper
/// scope.
#[derive(Debug)]
pub struct ParserState {
    pub current_scopes: Vec<CssScope>,
    pub buffer: String,
    pub colon: Option<usize>,
    pub mode: LexMode,
}

/// The mathematical value of a [`ParserState`].
#[verifier::ext_equal]
pub struct SpecState {
    pub scopes: Seq<SpecScope>,
    pub buffer: Seq<char>,
    pub colon: Option<int>,
    pub mode: LexMode,
}

impl View for ParserState {
    type V = SpecState;

    open spec fn view(&self) -> SpecState {
        SpecState {
            scopes: scope_views(self.current_scopes),
            buffer: self.buffer@,
            colon: match self.colon {
                Some(i) => Some(i as int),
                None => None,
            },
            mode: self.mode,
        }
    }
}

/// The state at the beginning of a literal: no scopes, nothing pending.
pub open spec fn init_state() -> SpecState {
    SpecState { scopes: Seq::empty(), buffer: Seq::empty(), colon: None, mode: LexMode::Top }
}

impl ParserState {
    /// A fresh state, used when no previous state is carried over.
    pub fn new() -> (res: Self)
        ensures
            res@ == init_state(),
    {
        let res = ParserState {
            current_scopes: Vec::new(),
            buffer: String::new(),
            colon: None,
            mode: LexMode::Top,
        };
        proof {
            assert(res@ =~= init_state());
        }
        res
    }
}

impl Clone for ParserState {
    fn clone(&self) -> (res: Self)
        ensures
            res@ == self@,
    {
        let res = ParserState {
            current_scopes: clone_scopes(&self.current_scopes),
            buffer: self.buffer.clone(),
            colon: self.colon,
            mode: self.mode,
        };
        proof {
            assert(res@ =~= self@);
        }
        res
    }
}

/// A scope name starting with `@` opens an at-rule block; anything else is
/// a selector.
pub open spec fn scope_type_of(name: Seq<char>) -> ScopeType {
    if name.len() > 0 && name[0] == '@' {
        ScopeType::AtRule
    } else {
        ScopeType::Selector
    }
}

/// The declaration completed when a `;` arrives: the pending text is split
/// at the first unquoted colon, both halves are trimmed, and the current
/// scope stack is captured. Without such a colon, nothing is emitted.
pub open spec fn emit_at_semicolon(st: SpecState) -> Option<SpecDecl> {
    match st.colon {
        Some(i) => if 0 <= i < st.buffer.len() {
            Some(
                SpecDecl {
                    property: spec_trim(st.buffer.take(i)),
                    value: spec_trim(st.buffer.skip(i + 1)),
                    closed: true,
                    scope: st.scopes,
                },
            )
        } else {
            None
        },
        None => None,
    }
}

/// One character of plain CSS text (mode `Top`).
pub open spec fn top_step(st: SpecState, c: char) -> (SpecState, Option<SpecDecl>) {
    if c == '/' {
        (SpecState { mode: LexMode::SlashSeen, ..st }, None)
    } else if c == '\\' {
        (SpecState { buffer: st.buffer.push(c), mode: LexMode::TopEscape, ..st }, None)
    } else if c == '"' || c == '\'' {
        (SpecState { buffer: st.buffer.push(c), mode: LexMode::InString(c), ..st }, None)
    } else if c == '{' {
        let name = spec_trim(st.buffer);
        (
            SpecState {
                scopes: st.scopes.push(SpecScope { name, scope_type: scope_type_of(name) }),
                buffer: Seq::empty(),
                colon: None,
                mode: LexMode::Top,
            },
            None,
        )
    } else if c == '}' {
        (
            SpecState {
                scopes: if st.scopes.len() > 0 {
                    st.scopes.drop_last()
                } else {
                    st.scopes
                },
                buffer: Seq::empty(),
                colon: None,
                mode: LexMode::Top,
            },
            None,
        )
    } else if c == ';' {
        (
            SpecState { buffer: Seq::empty(), colon: None, mode: LexMode::Top, ..st },
            emit_at_semicolon(st),
        )
    } else if c == ':' {
        (
            SpecState {
                colon: if st.colon is None {
                    Some(st.buffer.len() as int)
                } else {
                    st.colon
                },
                buffer: st.buffer.push(c),
                ..st
            },
            None,
        )
    } else {
        (SpecState { buffer: st.buffer.push(c), ..st }, None)
    }
}

/// One character in any mode.
pub open spec fn spec_step(st: SpecState, c: char) -> (SpecState, Option<SpecDecl>) {
    match st.mode {
        LexMode::Top => top_step(st, c),
        LexMode::TopEscape => (
            SpecState { buffer: st.buffer.push(c), mode: LexMode::Top, ..st },
            None,
        ),
        LexMode::SlashSeen => if c == '*' {
            (SpecState { mode: LexMode::InComment, ..st }, None)
        } else {
            top_step(SpecState { buffer: st.buffer.push('/'), mode: LexMode::Top, ..st }, c)
        },
        LexMode::InComment => if c == '*' {
            (SpecState { mode: LexMode::StarSeen, ..st }, None)
        } else {
            (st, None)
        },
        LexMode::StarSeen => if c == '/' {
            (SpecState { mode: LexMode::Top, ..st }, None)
        } else if c == '*' {
            (st, None)
        } else {
            (SpecState { mode: LexMode::InComment, ..st }, None)
        },
        LexMode::InString(q) => (
            SpecState {
                buffer: st.buffer.push(c),
                mode: if c == '\\' {
                    LexMode::StringEscape(q)
                } else if c == q {
                    LexMode::Top
                } else {
                    LexMode::InString(q)
                },
                ..st
            },
            None,
        ),
        LexMode::StringEscape(q) => (
            SpecState { buffer: st.buffer.push(c), mode: LexMode::InString(q), ..st },
            None,
        ),
    }
}

/// The state and the emitted declarations after a whole text.
#[verifier::ext_equal]
pub struct ParseOutcome {
    pub state: SpecState,
    pub decls: Seq<SpecDecl>,
}

/// The emitted declaration of one step, as a (possibly empty) sequence.
pub open spec fn opt_seq(e: Option<SpecDecl>) -> Seq<SpecDecl> {
    match e {
        Some(d) => seq![d],
        None => Seq::empty(),
    }
}

/// Folds [`spec_step`] over a text, collecting the emitted declarations in
/// source order.
pub open spec fn spec_parse(st: SpecState, text: Seq<char>) -> ParseOutcome
    decreases text.len(),
{
    if text.len() == 0 {
        ParseOutcome { state: st, decls: Seq::empty() }
    } else {
        let first = spec_step(st, text[0]);
        let rest = spec_parse(first.0, text.skip(1));
        ParseOutcome { state: rest.state, decls: opt_seq(first.1) + rest.decls }
    }
}

/// The views of a sequence of declarations.
pub open spec fn decl_views(s: Seq<Declaration>) -> Seq<SpecDecl> {
    s.map_values(|d: Declaration| d@)
}

/// The view of an optionally emitted declaration.
pub open spec fn opt_decl_view(e: Option<Declaration>) -> Option<SpecDecl> {
    match e {
        Some(d) => Some(d@),
        None => None,
    }
}

/// Parsing a concatenation equals parsing the two halves in sequence,
/// threading the state and appending the declarations. This holds for every
/// split, including splits inside comments, strings and partial tokens.
pub proof fn lemma_parse_concat(st: SpecState, a: Seq<char>, b: Seq<char>)
    ensures
        spec_parse(st, a + b) == (ParseOutcome {
            state: spec_parse(spec_parse(st, a).state, b).state,
            decls: spec_parse(st, a).decls + spec_parse(spec_parse(st, a).state, b).decls,
        }),
    decreases a.len(),
{
    if a.len() == 0 {
        assert(a + b =~= b);
        assert(spec_parse(st, a).decls + spec_parse(st, b).decls =~= spec_parse(st, b).decls);
        assert(spec_parse(st, a + b) =~= ParseOutcome {
            state: spec_parse(spec_parse(st, a).state, b).state,
            decls: spec_parse(st, a).decls + spec_parse(spec_parse(st, a).state, b).decls,
        });
    } else {
        let first = spec_step(st, a[0]);
        assert((a + b)[0] == a[0]);
        assert((a + b).skip(1) =~= a.skip(1) + b);
        lemma_parse_concat(first.0, a.skip(1), b);
        let mid = spec_parse(first.0, a.skip(1));
        assert(opt_seq(first.1) + (mid.decls + spec_parse(mid.state, b).decls) =~= (opt_seq(
            first.1,
        ) + mid.decls) + spec_parse(mid.state, b).decls);
        assert(spec_parse(st, a + b) =~= ParseOutcome {
            state: spec_parse(spec_parse(st, a).state, b).state,
            decls: spec_parse(st, a).decls + spec_parse(spec_parse(st, a).state, b).decls,
        });
    }
}

/// Appending one character to a text appends one step to its parse.
pub proof fn lemma_parse_snoc(st: SpecState, a: Seq<char>, c: char)
    ensures
        spec_parse(st, a.push(c)) == (ParseOutcome {
            state: spec_step(spec_parse(st, a).state, c).0,
            decls: spec_parse(st, a).decls + opt_seq(spec_step(spec_parse(st, a).state, c).1),
        }),
{
    lemma_parse_concat(st, a, seq![c]);
    assert(a.push(c) =~= a + seq![c]);
    let pre = spec_parse(st, a);
    let one = seq![c];
    assert(one.skip(1) =~= Seq::<char>::empty());
    let last = spec_step(pre.state, c);
    assert(spec_parse(pre.state, one) =~= ParseOutcome {
        state: last.0,
        decls: opt_seq(last.1),
    }) by {
        assert(one[0] == c);
        assert(one.skip(1).len() == 0);
        assert(spec_parse(last.0, one.skip(1)) =~= ParseOutcome {
            state: last.0,
            decls: Seq::<SpecDecl>::empty(),
        });
        assert(opt_seq(last.1) + Seq::<SpecDecl>::empty() =~= opt_seq(last.1));
    }
}

/// Resumability: for any text and any split index, parsing the first part
/// from a fresh state and the second part from the resulting state yields
/// the same concatenated declarations and the same final state as parsing
/// the whole text in one call.
pub proof fn lemma_resumability(text: Seq<char>, k: int)
    requires
        0 <= k <= text.len(),
    ensures
        spec_parse(init_state(), text) == (ParseOutcome {
            state: spec_parse(
                spec_parse(init_state(), text.take(k)).state,
                text.skip(k),
            ).state,
            decls: spec_parse(init_state(), text.take(k)).decls + spec_parse(
                spec_parse(init_state(), text.take(k)).state,
                text.skip(k),
            ).decls,
        }),
{
    lemma_parse_concat(init_state(), text.take(k), text.skip(k));
    assert(text.take(k) + text.skip(k) =~= text);
}

/// One character of plain CSS text, executable. The caller has already put
/// the state into mode `Top`.
fn top_char(state: &mut ParserState, c: char) -> (emitted: Option<Declaration>)
    requires
        old(state).mode == LexMode::Top,
    ensures
        final(state)@ == top_step(old(state)@, c).0,
        opt_decl_view(emitted) == top_step(old(state)@, c).1,
{
    if c == '/' {
        state.mode = LexMode::SlashSeen;
        proof {
            assert(state@ =~= top_step(old(state)@, c).0);
        }
        None
    } else if c == '\\' {
        state.buffer.push(c);
        state.mode = LexMode::TopEscape;
        proof {
            assert(state@ =~= top_step(old(state)@, c).0);
        }
        None
    } else if c == '"' || c == '\'' {
        state.buffer.push(c);
        state.mode = LexMode::InString(c);
        proof {
            assert(state@ =~= top_step(old(state)@, c).0);
        }
        None
    } else if c == '{' {
        let n = state.buffer.unicode_len();
        let name = trimmed_substring(state.buffer.as_str(), 0, n);
        proof {
            assert(state.buffer@.subrange(0, n as int) =~= state.buffer@);
        }
        let scope_type = {
            let name_len = name.unicode_len();
            if name_len > 0 && name.as_str().get_char(0) == '@' {
                ScopeType::AtRule
            } else {
                ScopeType::Selector
            }
        };
        let scope = CssScope { name, scope_type };
        state.current_scopes.push(scope);
        state.buffer = String::new();
        state.colon = None;
        proof {
            assert(scope_views(state.current_scopes) =~= scope_views(
                old(state).current_scopes,
            ).push(SpecScope {
                name: spec_trim(old(state)@.buffer),
                scope_type: scope_type_of(spec_trim(old(state)@.buffer)),
            }));
            assert(state@ =~= top_step(old(state)@, c).0);
        }
        None
    } else if c == '}' {
        if state.current_scopes.len() > 0 {
            state.current_scopes.pop();
        }
        state.buffer = String::new();
        state.colon = None;
        proof {
            if old(state).current_scopes.len() > 0 {
                assert(scope_views(state.current_scopes) =~= scope_views(
                    old(state).current_scopes,
                ).drop_last());
            }
            assert(state@ =~= top_step(old(state)@, c).0);
        }
        None
    } else if c == ';' {
        let emitted = match state.colon {
            Some(i) => {
                let n = state.buffer.unicode_len();
                if i < n {
                    let property = trimmed_substring(state.buffer.as_str(), 0, i);
                    let value = trimmed_substring(state.buffer.as_str(), i + 1, n);
                    let scope = clone_scopes(&state.current_scopes);
                    proof {
                        assert(state.buffer@.subrange(0, i as int) =~= state.buffer@.take(i as int));
                        assert(state.buffer@.subrange(i + 1, n as int) =~= state.buffer@.skip(
                            i + 1,
                        ));
                    }
                    Some(Declaration { property, value, closed: true, scope })
                } else {
                    None
                }
            },
            None => None,
        };
        state.buffer = String::new();
        state.colon = None;
        proof {
            assert(state@ =~= top_step(old(state)@, c).0);
            match &emitted {
                Some(d) => {
                    assert(d@ =~= emit_at_semicolon(old(state)@).unwrap());
                },
                None => {},
            }
        }
        emitted
    } else if c == ':' {
        if state.colon.is_none() {
            let len = state.buffer.unicode_len();
            state.colon = Some(len);
        }
        state.buffer.push(c);
        proof {
            assert(state@ =~= top_step(old(state)@, c).0);
        }
        None
    } else {
        state.buffer.push(c);
        proof {
            assert(state@ =~= top_step(old(state)@, c).0);
        }
        None
    }
}

/// One character in any mode, executable.
fn step_char(state: &mut ParserState, c: char) -> (emitted: Option<Declaration>)
    ensures
        final(state)@ == spec_step(old(state)@, c).0,
        opt_decl_view(emitted) == spec_step(old(state)@, c).1,
{
    match state.mode {
        LexMode::Top => top_char(state, c),
        LexMode::TopEscape => {
            state.buffer.push(c);
            state.mode = LexMode::Top;
            proof {
                assert(state@ =~= spec_step(old(state)@, c).0);
            }
            None
        },
        LexMode::SlashSeen => {
            if c == '*' {
                state.mode = LexMode::InComment;
                proof {
                    assert(state@ =~= spec_step(old(state)@, c).0);
                }
                None
            } else {
                state.buffer.push('/');
                state.mode = LexMode::Top;
                proof {
                    assert(state@ =~= SpecState {
                        buffer: old(state)@.buffer.push('/'),
                        mode: LexMode::Top,
                        ..old(state)@
                    });
                }
                top_char(state, c)
            }
        },
        LexMode::InComment => {
            if c == '*' {
                state.mode = LexMode::StarSeen;
            }
            proof {
                assert(state@ =~= spec_step(old(state)@, c).0);
            }
            None
        },
        LexMode::StarSeen => {
            if c == '/' {
                state.mode = LexMode::Top;
            } else if c == '*' {
            } else {
                state.mode = LexMode::InComment;
            }
            proof {
                assert(state@ =~= spec_step(old(state)@, c).0);
            }
            None
        },
        LexMode::InString(q) => {
            state.buffer.push(c);
            if c == '\\' {
                state.mode = LexMode::StringEscape(q);
            } else if c == q {
                state.mode = LexMode::Top;
            }
            proof {
                assert(state@ =~= spec_step(old(state)@, c).0);
            }
            None
        },
        LexMode::StringEscape(q) => {
            state.buffer.push(c);
            state.mode = LexMode::InString(q);
            proof {
                assert(state@ =~= spec_step(old(state)@, c).0);
            }
            None
        },
    }
}

/// Parses one raw chunk of CSS text. `state` is `None` at the start of a
/// literal and the previous call's state for every later chunk. Returns the
/// state to thread into the next call and the declarations that were
/// completed inside this chunk, in source order.
///
/// The result is exactly the character-by-character machine [`spec_parse`]:
/// no input is rejected, and nothing panics.
pub fn parse_css(text: &str, state: Option<ParserState>) -> (res: (ParserState, Vec<Declaration>))
    ensures
        ({
            let init = match state {
                Some(st) => st@,
                None => init_state(),
            };
            res.0@ == spec_parse(init, text@).state && decl_views(res.1@) == spec_parse(
                init,
                text@,
            ).decls
        }),
{
    let ghost init: SpecState = match &state {
        Some(st) => st@,
        None => init_state(),
    };
    let mut current = match state {
        Some(st) => st,
        None => ParserState::new(),
    };
    let mut declarations: Vec<Declaration> = Vec::new();
    let n = text.unicode_len();
    let mut i: usize = 0;
    while i < n
        invariant
            i <= n,
            n == text@.len(),
            current@ == spec_parse(init, text@.take(i as int)).state,
            decl_views(declarations@) == spec_parse(init, text@.take(i as int)).decls,
        decreases n - i,
    {
        let c = text.get_char(i);
        let ghost prefix = text@.take(i as int);
        let emitted = step_char(&mut current, c);
        proof {
            lemma_parse_snoc(init, prefix, c);
            assert(text@.take(i + 1) =~= prefix.push(c));
        }
        match emitted {
            Some(d) => {
                declarations.push(d);
                proof {
                    assert(decl_views(declarations@) =~= spec_parse(init, text@.take(
                        i + 1,
                    )).decls);
                }
            },
            None => {
                proof {
                    assert(decl_views(declarations@) =~= spec_parse(init, text@.take(
                        i + 1,
                    )).decls);
                }
            },
        }
        i = i + 1;
    }
    proof {
        assert(text@.take(n as int) =~= text@);
    }
    (current, declarations)
}

} // verus!
