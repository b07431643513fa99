//! General properties of the parser, proved once and for all.
//!
//! The central result is [`lemma_parse_encoding`]: running the parser over
//! the canonical encoding of any non-empty sequence of pairs with non-empty
//! keys and values succeeds and yields exactly the mapping those pairs
//! denote.  From it follow the exact-content statement for unique keys
//! ([`lemma_unique_pairs_parse_exact`]), the last-write-wins statement for
//! duplicate keys ([`lemma_duplicate_key_last_wins`]), and the round trip
//! through the serializer ([`lemma_serialize_round_trip`]).
//! [`lemma_parse_result_nonempty`] shows that every mapping the parser
//! returns is itself serializable: all its keys and values are non-empty.

use vstd::prelude::*;

use crate::form_map::{
    lemma_map_of_get, lemma_map_of_len, map_of, pair_views, unique_keys, FormMap,
};
use crate::machine::{
    flush_pending, init_state, parse_spec, run, step, CollectState, ParseError, ParserState,
    StrParseState,
};
use crate::serial::{esc, is_special, pair_enc, pairs_enc};

verus! {

/// Every key and every value of the pairs is non-empty.
pub open spec fn nonempty_pairs(ps: Seq<(Seq<char>, Seq<char>)>) -> bool {
    forall|i: int| 0 <= i < ps.len() ==> (#[trigger] ps[i]).0.len() > 0 && ps[i].1.len() > 0
}

/// Inserting a sequence of pairs into a mapping, front to back.
pub open spec fn insert_all(
    m: Map<Seq<char>, Seq<char>>,
    ps: Seq<(Seq<char>, Seq<char>)>,
) -> Map<Seq<char>, Seq<char>>
    decreases ps.len(),
{
    if ps.len() == 0 {
        m
    } else {
        insert_all(m.insert(ps[0].0, ps[0].1), ps.drop_first())
    }
}

proof fn lemma_insert_all_push(
    m: Map<Seq<char>, Seq<char>>,
    ps: Seq<(Seq<char>, Seq<char>)>,
    p: (Seq<char>, Seq<char>),
)
    ensures
        insert_all(m, ps.push(p)) == insert_all(m, ps).insert(p.0, p.1),
    decreases ps.len(),
{
    if ps.len() == 0 {
        assert(ps.push(p)[0] == p);
        assert(ps.push(p).drop_first() =~= Seq::<(Seq<char>, Seq<char>)>::empty());
        assert(insert_all(m.insert(p.0, p.1), Seq::<(Seq<char>, Seq<char>)>::empty()) == m.insert(
            p.0,
            p.1,
        ));
        assert(insert_all(m, Seq::<(Seq<char>, Seq<char>)>::empty()) == m);
    } else {
        assert(ps.push(p)[0] == ps[0]);
        assert(ps.push(p).drop_first() =~= ps.drop_first().push(p));
        lemma_insert_all_push(m.insert(ps[0].0, ps[0].1), ps.drop_first(), p);
    }
}

/// Folding the pairs front to back gives the same mapping as [`map_of`].
proof fn lemma_insert_all_map_of(ps: Seq<(Seq<char>, Seq<char>)>)
    ensures
        insert_all(Map::empty(), ps) == map_of(ps),
    decreases ps.len(),
{
    if ps.len() > 0 {
        lemma_insert_all_map_of(ps.drop_last());
        lemma_insert_all_push(Map::empty(), ps.drop_last(), ps.last());
        assert(ps.drop_last().push(ps.last()) =~= ps);
    }
}

/// While a key is open (`BuildKey`/`Default`), consuming the escaped
/// encoding of a token appends that token to the key buffer.
proof fn lemma_run_key_chars(s: ParserState, t: Seq<char>, rest: Seq<char>)
    requires
        s.main == CollectState::BuildKey,
        s.sub == StrParseState::Default,
    ensures
        run(s, esc(t) + rest) == run(ParserState { key: s.key + t, ..s }, rest),
    decreases t.len(),
{
    if t.len() == 0 {
        assert(esc(t) + rest =~= rest);
        assert(s.key + t =~= s.key);
        assert(ParserState { key: s.key + t, ..s } =~= s);
        assert(run(s, esc(t) + rest) == run(s, rest));
    } else {
        let c = t[0];
        let t1 = t.drop_first();
        let inp = esc(t) + rest;
        if is_special(c) {
            assert(esc(t) == seq!['\\', c] + esc(t1));
            assert(inp.len() >= 2 && inp[0] == '\\' && inp[1] == c);
            let s1 = ParserState { sub: StrParseState::SpecialChar, ..s };
            assert(step(s, '\\') == Ok::<ParserState, ParseError>(s1));
            let inp1 = inp.drop_first();
            assert(run(s, inp) == run(s1, inp1));
            assert(inp1[0] == c);
            let s2 = ParserState { key: s.key.push(c), sub: StrParseState::Default, ..s };
            assert(step(s1, c) == Ok::<ParserState, ParseError>(s2));
            assert(run(s1, inp1) == run(s2, inp1.drop_first()));
            assert(inp1.drop_first() =~= esc(t1) + rest);
            lemma_run_key_chars(s2, t1, rest);
            assert(s.key.push(c) + t1 =~= s.key + t);
            assert(ParserState { key: s2.key + t1, ..s2 } =~= ParserState { key: s.key + t, ..s });
        } else {
            assert(esc(t) == seq![c] + esc(t1));
            assert(inp[0] == c);
            let s2 = ParserState { key: s.key.push(c), ..s };
            assert(step(s, c) == Ok::<ParserState, ParseError>(s2));
            assert(run(s, inp) == run(s2, inp.drop_first()));
            assert(inp.drop_first() =~= esc(t1) + rest);
            lemma_run_key_chars(s2, t1, rest);
            assert(s.key.push(c) + t1 =~= s.key + t);
            assert(ParserState { key: s2.key + t1, ..s2 } =~= ParserState { key: s.key + t, ..s });
        }
    }
}

/// While a value is open (`BuildVal`/`Default`), consuming the escaped
/// encoding of a token appends that token to the value buffer.
proof fn lemma_run_val_chars(s: ParserState, t: Seq<char>, rest: Seq<char>)
    requires
        s.main == CollectState::BuildVal,
        s.sub == StrParseState::Default,
    ensures
        run(s, esc(t) + rest) == run(ParserState { value: s.value + t, ..s }, rest),
    decreases t.len(),
{
    if t.len() == 0 {
        assert(esc(t) + rest =~= rest);
        assert(s.value + t =~= s.value);
        assert(ParserState { value: s.value + t, ..s } =~= s);
        assert(run(s, esc(t) + rest) == run(s, rest));
    } else {
        let c = t[0];
        let t1 = t.drop_first();
        let inp = esc(t) + rest;
        if is_special(c) {
            assert(esc(t) == seq!['\\', c] + esc(t1));
            assert(inp.len() >= 2 && inp[0] == '\\' && inp[1] == c);
            let s1 = ParserState { sub: StrParseState::SpecialChar, ..s };
            assert(step(s, '\\') == Ok::<ParserState, ParseError>(s1));
            let inp1 = inp.drop_first();
            assert(run(s, inp) == run(s1, inp1));
            assert(inp1[0] == c);
            let s2 = ParserState { value: s.value.push(c), sub: StrParseState::Default, ..s };
            assert(step(s1, c) == Ok::<ParserState, ParseError>(s2));
            assert(run(s1, inp1) == run(s2, inp1.drop_first()));
            assert(inp1.drop_first() =~= esc(t1) + rest);
            lemma_run_val_chars(s2, t1, rest);
            assert(s.value.push(c) + t1 =~= s.value + t);
            assert(ParserState { value: s2.value + t1, ..s2 } =~= ParserState {
                value: s.value + t,
                ..s
            });
        } else {
            assert(esc(t) == seq![c] + esc(t1));
            assert(inp[0] == c);
            let s2 = ParserState { value: s.value.push(c), ..s };
            assert(step(s, c) == Ok::<ParserState, ParseError>(s2));
            assert(run(s, inp) == run(s2, inp.drop_first()));
            assert(inp.drop_first() =~= esc(t1) + rest);
            lemma_run_val_chars(s2, t1, rest);
            assert(s.value.push(c) + t1 =~= s.value + t);
            assert(ParserState { value: s2.value + t1, ..s2 } =~= ParserState {
                value: s.value + t,
                ..s
            });
        }
    }
}

/// From `PrepKey`/`Default`, consuming the escaped encoding of a non-empty
/// token flushes any pending pair and opens a key holding exactly that token.
proof fn lemma_run_key_start(s: ParserState, t: Seq<char>, rest: Seq<char>)
    requires
        s.main == CollectState::PrepKey,
        s.sub == StrParseState::Default,
        s.key.len() == 0 ==> s.value.len() == 0,
        t.len() > 0,
    ensures
        run(s, esc(t) + rest) == run(
            ParserState {
                main: CollectState::BuildKey,
                sub: StrParseState::Default,
                key: t,
                value: Seq::empty(),
                map: flush_pending(s).map,
            },
            rest,
        ),
{
    let f = flush_pending(s);
    assert(f.key =~= Seq::<char>::empty());
    assert(f.value =~= Seq::<char>::empty());
    let c = t[0];
    let t1 = t.drop_first();
    let inp = esc(t) + rest;
    if is_special(c) {
        assert(esc(t) == seq!['\\', c] + esc(t1));
        assert(inp.len() >= 2 && inp[0] == '\\' && inp[1] == c);
        let s1 = ParserState { main: CollectState::BuildKey, sub: StrParseState::SpecialChar, ..f };
        assert(step(s, '\\') == Ok::<ParserState, ParseError>(s1));
        let inp1 = inp.drop_first();
        assert(run(s, inp) == run(s1, inp1));
        assert(inp1[0] == c);
        let s2 = ParserState { key: f.key.push(c), sub: StrParseState::Default, ..s1 };
        assert(step(s1, c) == Ok::<ParserState, ParseError>(s2));
        assert(run(s1, inp1) == run(s2, inp1.drop_first()));
        assert(inp1.drop_first() =~= esc(t1) + rest);
        lemma_run_key_chars(s2, t1, rest);
        assert(s2.key + t1 =~= t);
        assert(ParserState { key: s2.key + t1, ..s2 } =~= ParserState {
            main: CollectState::BuildKey,
            sub: StrParseState::Default,
            key: t,
            value: Seq::empty(),
            map: f.map,
        });
    } else {
        assert(esc(t) == seq![c] + esc(t1));
        assert(inp[0] == c);
        let s2 = ParserState {
            main: CollectState::BuildKey,
            sub: StrParseState::Default,
            key: f.key.push(c),
            ..f
        };
        assert(step(s, c) == Ok::<ParserState, ParseError>(s2));
        assert(run(s, inp) == run(s2, inp.drop_first()));
        assert(inp.drop_first() =~= esc(t1) + rest);
        lemma_run_key_chars(s2, t1, rest);
        assert(s2.key + t1 =~= t);
        assert(ParserState { key: s2.key + t1, ..s2 } =~= ParserState {
            main: CollectState::BuildKey,
            sub: StrParseState::Default,
            key: t,
            value: Seq::empty(),
            map: f.map,
        });
    }
}

/// From `PrepVal`/`Default`, consuming the escaped encoding of a non-empty
/// token opens a value and appends exactly that token to the value buffer.
proof fn lemma_run_val_start(s: ParserState, t: Seq<char>, rest: Seq<char>)
    requires
        s.main == CollectState::PrepVal,
        s.sub == StrParseState::Default,
        t.len() > 0,
    ensures
        run(s, esc(t) + rest) == run(
            ParserState {
                main: CollectState::BuildVal,
                sub: StrParseState::Default,
                value: s.value + t,
                ..s
            },
            rest,
        ),
{
    let c = t[0];
    let t1 = t.drop_first();
    let inp = esc(t) + rest;
    if is_special(c) {
        assert(esc(t) == seq!['\\', c] + esc(t1));
        assert(inp.len() >= 2 && inp[0] == '\\' && inp[1] == c);
        let s1 = ParserState { main: CollectState::BuildVal, sub: StrParseState::SpecialChar, ..s };
        assert(step(s, '\\') == Ok::<ParserState, ParseError>(s1));
        let inp1 = inp.drop_first();
        assert(run(s, inp) == run(s1, inp1));
        assert(inp1[0] == c);
        let s2 = ParserState { value: s.value.push(c), sub: StrParseState::Default, ..s1 };
        assert(step(s1, c) == Ok::<ParserState, ParseError>(s2));
        assert(run(s1, inp1) == run(s2, inp1.drop_first()));
        assert(inp1.drop_first() =~= esc(t1) + rest);
        lemma_run_val_chars(s2, t1, rest);
        assert(s2.value + t1 =~= s.value + t);
        assert(ParserState { value: s2.value + t1, ..s2 } =~= ParserState {
            main: CollectState::BuildVal,
            sub: StrParseState::Default,
            value: s.value + t,
            ..s
        });
    } else {
        assert(esc(t) == seq![c] + esc(t1));
        assert(inp[0] == c);
        let s2 = ParserState {
            main: CollectState::BuildVal,
            sub: StrParseState::Default,
            value: s.value.push(c),
            ..s
        };
        assert(step(s, c) == Ok::<ParserState, ParseError>(s2));
        assert(run(s, inp) == run(s2, inp.drop_first()));
        assert(inp.drop_first() =~= esc(t1) + rest);
        lemma_run_val_chars(s2, t1, rest);
        assert(s2.value + t1 =~= s.value + t);
        assert(ParserState { value: s2.value + t1, ..s2 } =~= ParserState {
            main: CollectState::BuildVal,
            sub: StrParseState::Default,
            value: s.value + t,
            ..s
        });
    }
}

/// Escaping for the inside of a quoted token: only the quote and the
/// backslash need a backslash there; spaces and colons are literal.
pub open spec fn esc_q(s: Seq<char>) -> Seq<char>
    decreases s.len(),
{
    if s.len() == 0 {
        Seq::empty()
    } else if s[0] == '"' || s[0] == '\\' {
        seq!['\\', s[0]] + esc_q(s.drop_first())
    } else {
        seq![s[0]] + esc_q(s.drop_first())
    }
}

/// The surface form of one token: escaped and unquoted, or quoted with its
/// content escaped for the inside of quotes.
pub open spec fn tok_enc(t: Seq<char>, quoted: bool) -> Seq<char> {
    if quoted {
        seq!['"'] + esc_q(t) + seq!['"']
    } else {
        esc(t)
    }
}

/// What such a token leaves in the buffer: a quoted token keeps its quotes.
pub open spec fn tok_buf(t: Seq<char>, quoted: bool) -> Seq<char> {
    if quoted {
        seq!['"'] + t + seq!['"']
    } else {
        t
    }
}

/// Inside a quoted key (`BuildKey`/`InStr`), consuming the in-quote escaped
/// encoding of a token appends that token to the key buffer.
proof fn lemma_run_key_instr(s: ParserState, t: Seq<char>, rest: Seq<char>)
    requires
        s.main == CollectState::BuildKey,
        s.sub == StrParseState::InStr,
    ensures
        run(s, esc_q(t) + rest) == run(ParserState { key: s.key + t, ..s }, rest),
    decreases t.len(),
{
    if t.len() == 0 {
        assert(esc_q(t) + rest =~= rest);
        assert(s.key + t =~= s.key);
        assert(ParserState { key: s.key + t, ..s } =~= s);
        assert(run(s, esc_q(t) + rest) == run(s, rest));
    } else {
        let c = t[0];
        let t1 = t.drop_first();
        let inp = esc_q(t) + rest;
        if c == '"' || c == '\\' {
            assert(esc_q(t) == seq!['\\', c] + esc_q(t1));
            assert(inp.len() >= 2 && inp[0] == '\\' && inp[1] == c);
            let s1 = ParserState { sub: StrParseState::InStrSpecial, ..s };
            assert(step(s, '\\') == Ok::<ParserState, ParseError>(s1));
            let inp1 = inp.drop_first();
            assert(run(s, inp) == run(s1, inp1));
            assert(inp1[0] == c);
            let s2 = ParserState { key: s.key.push(c), sub: StrParseState::InStr, ..s };
            assert(step(s1, c) == Ok::<ParserState, ParseError>(s2));
            assert(run(s1, inp1) == run(s2, inp1.drop_first()));
            assert(inp1.drop_first() =~= esc_q(t1) + rest);
            lemma_run_key_instr(s2, t1, rest);
            assert(s.key.push(c) + t1 =~= s.key + t);
            assert(ParserState { key: s2.key + t1, ..s2 } =~= ParserState { key: s.key + t, ..s });
        } else {
            assert(esc_q(t) == seq![c] + esc_q(t1));
            assert(inp[0] == c);
            let s2 = ParserState { key: s.key.push(c), ..s };
            assert(step(s, c) == Ok::<ParserState, ParseError>(s2));
            assert(run(s, inp) == run(s2, inp.drop_first()));
            assert(inp.drop_first() =~= esc_q(t1) + rest);
            lemma_run_key_instr(s2, t1, rest);
            assert(s.key.push(c) + t1 =~= s.key + t);
            assert(ParserState { key: s2.key + t1, ..s2 } =~= ParserState { key: s.key + t, ..s });
        }
    }
}

/// Inside a quoted value (`BuildVal`/`InStr`), consuming the in-quote
/// escaped encoding of a token appends that token to the value buffer.
proof fn lemma_run_val_instr(s: ParserState, t: Seq<char>, rest: Seq<char>)
    requires
        s.main == CollectState::BuildVal,
        s.sub == StrParseState::InStr,
    ensures
        run(s, esc_q(t) + rest) == run(ParserState { value: s.value + t, ..s }, rest),
    decreases t.len(),
{
    if t.len() == 0 {
        assert(esc_q(t) + rest =~= rest);
        assert(s.value + t =~= s.value);
        assert(ParserState { value: s.value + t, ..s } =~= s);
        assert(run(s, esc_q(t) + rest) == run(s, rest));
    } else {
        let c = t[0];
        let t1 = t.drop_first();
        let inp = esc_q(t) + rest;
        if c == '"' || c == '\\' {
            assert(esc_q(t) == seq!['\\', c] + esc_q(t1));
            assert(inp.len() >= 2 && inp[0] == '\\' && inp[1] == c);
            let s1 = ParserState { sub: StrParseState::InStrSpecial, ..s };
            assert(step(s, '\\') == Ok::<ParserState, ParseError>(s1));
            let inp1 = inp.drop_first();
            assert(run(s, inp) == run(s1, inp1));
            assert(inp1[0] == c);
            let s2 = ParserState { value: s.value.push(c), sub: StrParseState::InStr, ..s };
            assert(step(s1, c) == Ok::<ParserState, ParseError>(s2));
            assert(run(s1, inp1) == run(s2, inp1.drop_first()));
            assert(inp1.drop_first() =~= esc_q(t1) + rest);
            lemma_run_val_instr(s2, t1, rest);
            assert(s.value.push(c) + t1 =~= s.value + t);
            assert(ParserState { value: s2.value + t1, ..s2 } =~= ParserState {
                value: s.value + t,
                ..s
            });
        } else {
            assert(esc_q(t) == seq![c] + esc_q(t1));
            assert(inp[0] == c);
            let s2 = ParserState { value: s.value.push(c), ..s };
            assert(step(s, c) == Ok::<ParserState, ParseError>(s2));
            assert(run(s, inp) == run(s2, inp.drop_first()));
            assert(inp.drop_first() =~= esc_q(t1) + rest);
            lemma_run_val_instr(s2, t1, rest);
            assert(s.value.push(c) + t1 =~= s.value + t);
            assert(ParserState { value: s2.value + t1, ..s2 } =~= ParserState {
                value: s.value + t,
                ..s
            });
        }
    }
}

/// From `PrepKey`/`Default`, consuming a key token in either surface form
/// flushes any pending pair and leaves the token's buffer content as the
/// open key; an unquoted key awaits its colon in `Default`, a quoted one in
/// `OutStr`.
proof fn lemma_run_key_tok(s: ParserState, t: Seq<char>, quoted: bool, rest: Seq<char>)
    requires
        s.main == CollectState::PrepKey,
        s.sub == StrParseState::Default,
        s.key.len() == 0 ==> s.value.len() == 0,
        !quoted ==> t.len() > 0,
    ensures
        run(s, tok_enc(t, quoted) + rest) == run(
            ParserState {
                main: CollectState::BuildKey,
                sub: if quoted {
                    StrParseState::OutStr
                } else {
                    StrParseState::Default
                },
                key: tok_buf(t, quoted),
                value: Seq::empty(),
                map: flush_pending(s).map,
            },
            rest,
        ),
{
    if !quoted {
        lemma_run_key_start(s, t, rest);
    } else {
        let f = flush_pending(s);
        assert(f.key =~= Seq::<char>::empty());
        assert(f.value =~= Seq::<char>::empty());
        let inp = tok_enc(t, quoted) + rest;
        assert(inp =~= seq!['"'] + (esc_q(t) + (seq!['"'] + rest)));
        assert(inp[0] == '"');
        let s1 = ParserState {
            main: CollectState::BuildKey,
            sub: StrParseState::InStr,
            key: f.key.push('"'),
            ..f
        };
        assert(step(s, '"') == Ok::<ParserState, ParseError>(s1));
        assert(run(s, inp) == run(s1, inp.drop_first()));
        assert(inp.drop_first() =~= esc_q(t) + (seq!['"'] + rest));
        lemma_run_key_instr(s1, t, seq!['"'] + rest);
        let s2 = ParserState { key: s1.key + t, ..s1 };
        assert((seq!['"'] + rest)[0] == '"');
        let s3 = ParserState { key: s2.key.push('"'), sub: StrParseState::OutStr, ..s2 };
        assert(step(s2, '"') == Ok::<ParserState, ParseError>(s3));
        assert(run(s2, seq!['"'] + rest) == run(s3, (seq!['"'] + rest).drop_first()));
        assert((seq!['"'] + rest).drop_first() =~= rest);
        assert(s3.key =~= tok_buf(t, quoted));
        assert(s3 =~= ParserState {
            main: CollectState::BuildKey,
            sub: StrParseState::OutStr,
            key: tok_buf(t, quoted),
            value: Seq::empty(),
            map: f.map,
        });
    }
}

/// From `PrepVal`/`Default` with an empty value buffer, consuming a value
/// token in either surface form leaves the token's buffer content as the
/// value; a quoted value completes the pair and jumps to `PrepKey`, an
/// unquoted one stays open in `BuildVal`.
proof fn lemma_run_val_tok(s: ParserState, t: Seq<char>, quoted: bool, rest: Seq<char>)
    requires
        s.main == CollectState::PrepVal,
        s.sub == StrParseState::Default,
        s.value.len() == 0,
        !quoted ==> t.len() > 0,
    ensures
        run(s, tok_enc(t, quoted) + rest) == run(
            ParserState {
                main: if quoted {
                    CollectState::PrepKey
                } else {
                    CollectState::BuildVal
                },
                sub: StrParseState::Default,
                value: tok_buf(t, quoted),
                ..s
            },
            rest,
        ),
{
    if !quoted {
        lemma_run_val_start(s, t, rest);
        assert(s.value + t =~= t);
        assert(ParserState {
            main: CollectState::BuildVal,
            sub: StrParseState::Default,
            value: s.value + t,
            ..s
        } =~= ParserState {
            main: CollectState::BuildVal,
            sub: StrParseState::Default,
            value: tok_buf(t, quoted),
            ..s
        });
    } else {
        let inp = tok_enc(t, quoted) + rest;
        assert(inp =~= seq!['"'] + (esc_q(t) + (seq!['"'] + rest)));
        assert(inp[0] == '"');
        let s1 = ParserState {
            main: CollectState::BuildVal,
            sub: StrParseState::InStr,
            value: s.value.push('"'),
            ..s
        };
        assert(step(s, '"') == Ok::<ParserState, ParseError>(s1));
        assert(run(s, inp) == run(s1, inp.drop_first()));
        assert(inp.drop_first() =~= esc_q(t) + (seq!['"'] + rest));
        lemma_run_val_instr(s1, t, seq!['"'] + rest);
        let s2 = ParserState { value: s1.value + t, ..s1 };
        assert((seq!['"'] + rest)[0] == '"');
        let s3 = ParserState {
            value: s2.value.push('"'),
            main: CollectState::PrepKey,
            sub: StrParseState::Default,
            ..s2
        };
        assert(step(s2, '"') == Ok::<ParserState, ParseError>(s3));
        assert(run(s2, seq!['"'] + rest) == run(s3, (seq!['"'] + rest).drop_first()));
        assert((seq!['"'] + rest).drop_first() =~= rest);
        assert(s3.value =~= tok_buf(t, quoted));
        assert(s3 =~= ParserState {
            main: CollectState::PrepKey,
            sub: StrParseState::Default,
            value: tok_buf(t, quoted),
            ..s
        });
    }
}

/// Running the machine from `PrepKey`/`Default` over the canonical encoding
/// of a non-empty pair sequence leaves the last pair in the buffers and all
/// earlier pairs (after any pending flush) in the mapping.
proof fn lemma_run_pairs(s: ParserState, ps: Seq<(Seq<char>, Seq<char>)>)
    requires
        s.main == CollectState::PrepKey,
        s.sub == StrParseState::Default,
        s.key.len() == 0 ==> s.value.len() == 0,
        ps.len() > 0,
        nonempty_pairs(ps),
    ensures
        run(s, pairs_enc(ps)) == Ok::<ParserState, ParseError>(
            ParserState {
                main: CollectState::BuildVal,
                sub: StrParseState::Default,
                key: ps.last().0,
                value: ps.last().1,
                map: insert_all(flush_pending(s).map, ps.drop_last()),
            },
        ),
    decreases ps.len(),
{
    let f = flush_pending(s);
    let k0 = ps[0].0;
    let v0 = ps[0].1;
    if ps.len() == 1 {
        let rest1 = seq![':'] + esc(v0);
        assert(pairs_enc(ps) == pair_enc(ps[0]));
        assert(pairs_enc(ps) =~= esc(k0) + rest1);
        lemma_run_key_start(s, k0, rest1);
        let s1 = ParserState {
            main: CollectState::BuildKey,
            sub: StrParseState::Default,
            key: k0,
            value: Seq::empty(),
            map: f.map,
        };
        assert(rest1[0] == ':');
        let s2 = ParserState { main: CollectState::PrepVal, ..s1 };
        assert(step(s1, ':') == Ok::<ParserState, ParseError>(s2));
        assert(rest1.drop_first() =~= esc(v0));
        assert(esc(v0) =~= esc(v0) + Seq::<char>::empty());
        lemma_run_val_start(s2, v0, Seq::empty());
        let s3 = ParserState {
            main: CollectState::BuildVal,
            sub: StrParseState::Default,
            value: s2.value + v0,
            ..s2
        };
        assert(run(s3, Seq::empty()) == Ok::<ParserState, ParseError>(s3));
        assert(s2.value + v0 =~= v0);
        assert(ps.drop_last() =~= Seq::<(Seq<char>, Seq<char>)>::empty());
        assert(s3 =~= ParserState {
            main: CollectState::BuildVal,
            sub: StrParseState::Default,
            key: ps.last().0,
            value: ps.last().1,
            map: insert_all(f.map, ps.drop_last()),
        });
    } else {
        let tail = ps.drop_first();
        let rest2 = seq![' '] + pairs_enc(tail);
        let rest1 = seq![':'] + (esc(v0) + rest2);
        assert(pairs_enc(ps) == pair_enc(ps[0]) + seq![' '] + pairs_enc(tail));
        assert(pairs_enc(ps) =~= esc(k0) + rest1);
        lemma_run_key_start(s, k0, rest1);
        let s1 = ParserState {
            main: CollectState::BuildKey,
            sub: StrParseState::Default,
            key: k0,
            value: Seq::empty(),
            map: f.map,
        };
        assert(rest1[0] == ':');
        let s2 = ParserState { main: CollectState::PrepVal, ..s1 };
        assert(step(s1, ':') == Ok::<ParserState, ParseError>(s2));
        assert(rest1.drop_first() =~= esc(v0) + rest2);
        lemma_run_val_start(s2, v0, rest2);
        let s3 = ParserState {
            main: CollectState::BuildVal,
            sub: StrParseState::Default,
            value: s2.value + v0,
            ..s2
        };
        assert(s2.value + v0 =~= v0);
        assert(rest2[0] == ' ');
        let s4 = ParserState { main: CollectState::PrepKey, ..s3 };
        assert(step(s3, ' ') == Ok::<ParserState, ParseError>(s4));
        assert(rest2.drop_first() =~= pairs_enc(tail));
        assert(s4.key =~= k0);
        assert(k0.len() > 0);
        lemma_run_pairs(s4, tail);
        assert(flush_pending(s4).map =~= f.map.insert(k0, v0));
        assert(tail.last() == ps.last());
        assert(ps.drop_last()[0] == ps[0]);
        assert(ps.drop_last().len() > 0);
        assert(ps.drop_last().drop_first() =~= tail.drop_last());
        assert(insert_all(f.map, ps.drop_last()) == insert_all(
            f.map.insert(k0, v0),
            tail.drop_last(),
        ));
    }
}

/// One pair of a general form line: key content, whether the key is
/// quoted, value content, whether the value is quoted.
pub open spec fn form_pair_enc(p: (Seq<char>, bool, Seq<char>, bool)) -> Seq<char> {
    tok_enc(p.0, p.1) + seq![':'] + tok_enc(p.2, p.3)
}

/// A whole form line: the pairs' surface forms joined by single spaces.
pub open spec fn form_pairs_enc(ps: Seq<(Seq<char>, bool, Seq<char>, bool)>) -> Seq<char>
    decreases ps.len(),
{
    if ps.len() == 0 {
        Seq::empty()
    } else if ps.len() == 1 {
        form_pair_enc(ps[0])
    } else {
        form_pair_enc(ps[0]) + seq![' '] + form_pairs_enc(ps.drop_first())
    }
}

/// The buffer contents the pairs leave behind: quoted tokens keep their
/// quotes.
pub open spec fn form_bufs(ps: Seq<(Seq<char>, bool, Seq<char>, bool)>) -> Seq<
    (Seq<char>, Seq<char>),
> {
    ps.map_values(
        |p: (Seq<char>, bool, Seq<char>, bool)| (tok_buf(p.0, p.1), tok_buf(p.2, p.3)),
    )
}

/// Unquoted tokens must be non-empty; quoted tokens may hold anything.
pub open spec fn wf_form_pairs(ps: Seq<(Seq<char>, bool, Seq<char>, bool)>) -> bool {
    forall|i: int|
        0 <= i < ps.len() ==> ((!(#[trigger] ps[i]).1 ==> ps[i].0.len() > 0) && (!ps[i].3
            ==> ps[i].2.len() > 0))
}

/// Running the machine from `PrepKey`/`Default` over a general form line
/// leaves the last pair's buffers open and all earlier pairs (after any
/// pending flush) in the mapping.
proof fn lemma_run_form_pairs(s: ParserState, ps: Seq<(Seq<char>, bool, Seq<char>, bool)>)
    requires
        s.main == CollectState::PrepKey,
        s.sub == StrParseState::Default,
        s.key.len() == 0 ==> s.value.len() == 0,
        ps.len() > 0,
        wf_form_pairs(ps),
    ensures
        run(s, form_pairs_enc(ps)) == Ok::<ParserState, ParseError>(
            ParserState {
                main: if ps.last().3 {
                    CollectState::PrepKey
                } else {
                    CollectState::BuildVal
                },
                sub: StrParseState::Default,
                key: tok_buf(ps.last().0, ps.last().1),
                value: tok_buf(ps.last().2, ps.last().3),
                map: insert_all(flush_pending(s).map, form_bufs(ps).drop_last()),
            },
        ),
    decreases ps.len(),
{
    let f = flush_pending(s);
    let k0 = ps[0].0;
    let kq = ps[0].1;
    let v0 = ps[0].2;
    let vq = ps[0].3;
    let kb = tok_buf(k0, kq);
    let vb = tok_buf(v0, vq);
    assert(kb.len() > 0);
    assert(vb.len() > 0);
    if ps.len() == 1 {
        let rest1 = seq![':'] + tok_enc(v0, vq);
        assert(form_pairs_enc(ps) == form_pair_enc(ps[0]));
        assert(form_pairs_enc(ps) =~= tok_enc(k0, kq) + rest1);
        lemma_run_key_tok(s, k0, kq, rest1);
        let s1 = ParserState {
            main: CollectState::BuildKey,
            sub: if kq {
                StrParseState::OutStr
            } else {
                StrParseState::Default
            },
            key: kb,
            value: Seq::empty(),
            map: f.map,
        };
        assert(rest1[0] == ':');
        let s2 = ParserState {
            main: CollectState::PrepVal,
            sub: StrParseState::Default,
            key: kb,
            value: Seq::empty(),
            map: f.map,
        };
        assert(step(s1, ':') == Ok::<ParserState, ParseError>(s2));
        assert(run(s1, rest1) == run(s2, rest1.drop_first()));
        assert(rest1.drop_first() =~= tok_enc(v0, vq));
        assert(tok_enc(v0, vq) =~= tok_enc(v0, vq) + Seq::<char>::empty());
        lemma_run_val_tok(s2, v0, vq, Seq::empty());
        let s3 = ParserState {
            main: if vq {
                CollectState::PrepKey
            } else {
                CollectState::BuildVal
            },
            sub: StrParseState::Default,
            value: vb,
            ..s2
        };
        assert(run(s3, Seq::empty()) == Ok::<ParserState, ParseError>(s3));
        assert(form_bufs(ps).drop_last() =~= Seq::<(Seq<char>, Seq<char>)>::empty());
        assert(insert_all(f.map, Seq::<(Seq<char>, Seq<char>)>::empty()) == f.map);
        assert(s3 =~= ParserState {
            main: if ps.last().3 {
                CollectState::PrepKey
            } else {
                CollectState::BuildVal
            },
            sub: StrParseState::Default,
            key: tok_buf(ps.last().0, ps.last().1),
            value: tok_buf(ps.last().2, ps.last().3),
            map: insert_all(f.map, form_bufs(ps).drop_last()),
        });
    } else {
        let tail = ps.drop_first();
        let rest2 = seq![' '] + form_pairs_enc(tail);
        let rest1 = seq![':'] + (tok_enc(v0, vq) + rest2);
        assert(form_pairs_enc(ps) == form_pair_enc(ps[0]) + seq![' '] + form_pairs_enc(tail));
        assert(form_pairs_enc(ps) =~= tok_enc(k0, kq) + rest1);
        lemma_run_key_tok(s, k0, kq, rest1);
        let s1 = ParserState {
            main: CollectState::BuildKey,
            sub: if kq {
                StrParseState::OutStr
            } else {
                StrParseState::Default
            },
            key: kb,
            value: Seq::empty(),
            map: f.map,
        };
        assert(rest1[0] == ':');
        let s2 = ParserState {
            main: CollectState::PrepVal,
            sub: StrParseState::Default,
            key: kb,
            value: Seq::empty(),
            map: f.map,
        };
        assert(step(s1, ':') == Ok::<ParserState, ParseError>(s2));
        assert(run(s1, rest1) == run(s2, rest1.drop_first()));
        assert(rest1.drop_first() =~= tok_enc(v0, vq) + rest2);
        lemma_run_val_tok(s2, v0, vq, rest2);
        let s3 = ParserState {
            main: if vq {
                CollectState::PrepKey
            } else {
                CollectState::BuildVal
            },
            sub: StrParseState::Default,
            value: vb,
            ..s2
        };
        assert(rest2[0] == ' ');
        let s4 = if vq {
            ParserState {
                main: CollectState::PrepKey,
                sub: StrParseState::Default,
                key: Seq::empty(),
                value: Seq::empty(),
                map: f.map.insert(kb, vb),
            }
        } else {
            ParserState { main: CollectState::PrepKey, ..s3 }
        };
        assert(step(s3, ' ') == Ok::<ParserState, ParseError>(s4));
        assert(run(s3, rest2) == run(s4, rest2.drop_first()));
        assert(rest2.drop_first() =~= form_pairs_enc(tail));
        lemma_run_form_pairs(s4, tail);
        assert(flush_pending(s4).map =~= f.map.insert(kb, vb));
        assert(tail.last() == ps.last());
        assert(form_bufs(ps).drop_last()[0] == (kb, vb));
        assert(form_bufs(ps).drop_last().len() > 0);
        assert(form_bufs(ps).drop_last().drop_first() =~= form_bufs(tail).drop_last());
        assert(insert_all(f.map, form_bufs(ps).drop_last()) == insert_all(
            f.map.insert(kb, vb),
            form_bufs(tail).drop_last(),
        ));
    }
}

/// Parsing a form line of any mix of quoted and unquoted tokens succeeds
/// and yields exactly the mapping the pairs' buffer contents denote, the
/// last occurrence of a key winning.
pub proof fn lemma_parse_form_pairs(ps: Seq<(Seq<char>, bool, Seq<char>, bool)>)
    requires
        ps.len() > 0,
        wf_form_pairs(ps),
    ensures
        parse_spec(form_pairs_enc(ps)) == Ok::<Map<Seq<char>, Seq<char>>, ParseError>(
            map_of(form_bufs(ps)),
        ),
{
    lemma_run_form_pairs(init_state(), ps);
    assert(flush_pending(init_state()).map =~= Map::<Seq<char>, Seq<char>>::empty());
    assert(tok_buf(ps.last().0, ps.last().1).len() > 0);
    assert(tok_buf(ps.last().2, ps.last().3).len() > 0);
    lemma_insert_all_push(Map::empty(), form_bufs(ps).drop_last(), form_bufs(ps).last());
    assert(form_bufs(ps).drop_last().push(form_bufs(ps).last()) =~= form_bufs(ps));
    assert(form_bufs(ps).last() == (
        tok_buf(ps.last().0, ps.last().1),
        tok_buf(ps.last().2, ps.last().3),
    ));
    lemma_insert_all_map_of(form_bufs(ps));
}

/// For `N` space-separated pairs in any mix of quoted and unquoted form
/// whose buffer contents have all-unique keys, the parse succeeds and the
/// mapping holds exactly those `N` pairs.
pub proof fn lemma_unique_form_pairs_exact(ps: Seq<(Seq<char>, bool, Seq<char>, bool)>)
    requires
        ps.len() > 0,
        wf_form_pairs(ps),
        unique_keys(form_bufs(ps)),
    ensures
        parse_spec(form_pairs_enc(ps)) == Ok::<Map<Seq<char>, Seq<char>>, ParseError>(
            map_of(form_bufs(ps)),
        ),
        map_of(form_bufs(ps)).dom().finite(),
        map_of(form_bufs(ps)).dom().len() == ps.len(),
        forall|i: int|
            0 <= i < ps.len() ==> map_of(form_bufs(ps)).dom().contains(
                (#[trigger] form_bufs(ps)[i]).0,
            ) && map_of(form_bufs(ps))[form_bufs(ps)[i].0] == form_bufs(ps)[i].1,
{
    lemma_parse_form_pairs(ps);
    lemma_map_of_len(form_bufs(ps));
    assert forall|i: int|
        0 <= i < ps.len() implies map_of(form_bufs(ps)).dom().contains(
        (#[trigger] form_bufs(ps)[i]).0,
    ) && map_of(form_bufs(ps))[form_bufs(ps)[i].0] == form_bufs(ps)[i].1 by {
        lemma_map_of_get(form_bufs(ps), i);
    }
}

/// Parsing the canonical encoding of any non-empty sequence of pairs with
/// non-empty keys and values succeeds and yields exactly the mapping those
/// pairs denote, the last occurrence of a key winning.
pub proof fn lemma_parse_encoding(ps: Seq<(Seq<char>, Seq<char>)>)
    requires
        ps.len() > 0,
        nonempty_pairs(ps),
    ensures
        parse_spec(pairs_enc(ps)) == Ok::<Map<Seq<char>, Seq<char>>, ParseError>(map_of(ps)),
{
    lemma_run_pairs(init_state(), ps);
    assert(flush_pending(init_state()).map =~= Map::<Seq<char>, Seq<char>>::empty());
    assert(ps.last().0.len() > 0 && ps.last().1.len() > 0);
    lemma_insert_all_push(Map::empty(), ps.drop_last(), ps.last());
    assert(ps.drop_last().push(ps.last()) =~= ps);
    lemma_insert_all_map_of(ps);
}

/// For `N` space-separated pairs with all-unique, non-empty keys and
/// values, the parse succeeds and the mapping has exactly `N` entries,
/// each pair found under its own key with its own value.
pub proof fn lemma_unique_pairs_parse_exact(ps: Seq<(Seq<char>, Seq<char>)>)
    requires
        ps.len() > 0,
        nonempty_pairs(ps),
        unique_keys(ps),
    ensures
        parse_spec(pairs_enc(ps)) == Ok::<Map<Seq<char>, Seq<char>>, ParseError>(map_of(ps)),
        map_of(ps).dom().finite(),
        map_of(ps).dom().len() == ps.len(),
        forall|i: int|
            0 <= i < ps.len() ==> map_of(ps).dom().contains((#[trigger] ps[i]).0) && map_of(ps)[
                ps[i].0
            ] == ps[i].1,
{
    lemma_parse_encoding(ps);
    lemma_map_of_len(ps);
    assert forall|i: int|
        0 <= i < ps.len() implies map_of(ps).dom().contains((#[trigger] ps[i]).0) && map_of(ps)[
        ps[i].0
    ] == ps[i].1 by {
        lemma_map_of_get(ps, i);
    }
}

proof fn lemma_run_leading_spaces(s: ParserState, n: nat, rest: Seq<char>)
    requires
        s.main == CollectState::PrepKey,
        s.sub == StrParseState::Default,
        s.key.len() == 0,
    ensures
        run(s, Seq::new(n, |i: int| ' ') + rest) == run(s, rest),
    decreases n,
{
    let sp = Seq::new(n, |i: int| ' ');
    if n == 0 {
        assert(sp + rest =~= rest);
    } else {
        assert(sp[0] == ' ');
        assert(flush_pending(s) == s);
        assert(step(s, ' ') == Ok::<ParserState, ParseError>(s));
        assert(run(s, sp + rest) == run(s, (sp + rest).drop_first()));
        assert((sp + rest).drop_first() =~= Seq::new((n - 1) as nat, |i: int| ' ') + rest);
        lemma_run_leading_spaces(s, (n - 1) as nat, rest);
    }
}

/// A run of leading spaces never affects the outcome of a parse.
pub proof fn lemma_parse_leading_spaces(n: nat, input: Seq<char>)
    ensures
        parse_spec(Seq::new(n, |i: int| ' ') + input) == parse_spec(input),
{
    lemma_run_leading_spaces(init_state(), n, input);
}

/// Two pairs with the same key: the later value wins and the earlier one
/// does not appear.
pub proof fn lemma_duplicate_key_last_wins(k: Seq<char>, v1: Seq<char>, v2: Seq<char>)
    requires
        k.len() > 0,
        v1.len() > 0,
        v2.len() > 0,
    ensures
        parse_spec(pairs_enc(seq![(k, v1), (k, v2)])) == Ok::<
            Map<Seq<char>, Seq<char>>,
            ParseError,
        >(Map::empty().insert(k, v2)),
{
    let ps = seq![(k, v1), (k, v2)];
    assert(nonempty_pairs(ps));
    lemma_parse_encoding(ps);
    let ps1 = seq![(k, v1)];
    assert(ps1.drop_last() =~= Seq::<(Seq<char>, Seq<char>)>::empty());
    assert(map_of(Seq::<(Seq<char>, Seq<char>)>::empty()) =~= Map::<Seq<char>, Seq<char>>::empty());
    assert(map_of(ps1) =~= Map::<Seq<char>, Seq<char>>::empty().insert(k, v1));
    assert(ps.drop_last() =~= ps1);
    assert(ps.last() == (k, v2));
    assert(map_of(ps) =~= Map::<Seq<char>, Seq<char>>::empty().insert(k, v1).insert(k, v2));
    assert(map_of(ps) =~= Map::<Seq<char>, Seq<char>>::empty().insert(k, v2));
}

/// Round trip: re-parsing the canonical serialization of a well-formed
/// mapping with non-empty keys and values reproduces an equal mapping.
pub proof fn lemma_serialize_round_trip(m: FormMap)
    requires
        m.wf(),
        m.entries@.len() > 0,
        forall|i: int|
            0 <= i < m.entries@.len() ==> (#[trigger] m.entries@[i]).0@.len() > 0
                && m.entries@[i].1@.len() > 0,
    ensures
        parse_spec(pairs_enc(pair_views(m.entries@))) == Ok::<
            Map<Seq<char>, Seq<char>>,
            ParseError,
        >(m@),
{
    let ps = pair_views(m.entries@);
    assert forall|i: int| 0 <= i < ps.len() implies (#[trigger] ps[i]).0.len() > 0
        && ps[i].1.len() > 0 by {
        assert(ps[i] == (m.entries@[i].0@, m.entries@[i].1@));
    }
    lemma_parse_encoding(ps);
}

/// The per-state invariant behind [`lemma_parse_result_nonempty`]: the
/// mapping only ever holds non-empty keys and values, and whenever a flush
/// can fire the buffers it would flush are non-empty.
pub open spec fn st_inv(s: ParserState) -> bool {
    &&& forall|k: Seq<char>|
        #[trigger] s.map.dom().contains(k) ==> k.len() > 0 && s.map[k].len() > 0
    &&& (s.main == CollectState::PrepKey && s.key.len() > 0 ==> s.value.len() > 0)
    &&& (s.main == CollectState::BuildVal && s.sub == StrParseState::Default ==> s.value.len()
        > 0)
}

proof fn lemma_step_inv(s: ParserState, c: char)
    requires
        st_inv(s),
        step(s, c) is Ok,
    ensures
        st_inv(step(s, c)->Ok_0),
{
}

proof fn lemma_run_inv(s: ParserState, input: Seq<char>)
    requires
        st_inv(s),
        run(s, input) is Ok,
    ensures
        st_inv(run(s, input)->Ok_0),
    decreases input.len(),
{
    if input.len() > 0 {
        lemma_step_inv(s, input[0]);
        lemma_run_inv(step(s, input[0])->Ok_0, input.drop_first());
    }
}

/// Every mapping the parser returns has only non-empty keys and values, so
/// it is itself serializable.
pub proof fn lemma_parse_result_nonempty(input: Seq<char>, m: Map<Seq<char>, Seq<char>>)
    requires
        parse_spec(input) == Ok::<Map<Seq<char>, Seq<char>>, ParseError>(m),
    ensures
        forall|k: Seq<char>| #[trigger] m.dom().contains(k) ==> k.len() > 0 && m[k].len() > 0,
{
    assert(st_inv(init_state()));
    lemma_run_inv(init_state(), input);
}

} // verus!
