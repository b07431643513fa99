//! Specification of the form-syntax state machine.
//!
//! The machine reads one character per step.  A [`CollectState`] says which
//! logical field is being built (key or value, and whether the field is still
//! open), and a [`StrParseState`] says how characters are currently decoded
//! (plain, inside a quoted token, right after an escaping backslash, ...).
//!
//! [`step`] is the single-character transition function; [`run`] folds it over
//! an input sequence; [`finish`] applies the end-of-input rule; [`parse_spec`]
//! is the meaning of a whole parse.  The executable parser is verified against
//! `parse_spec`.

use vstd::prelude::*;

verus! {

/// Which logical field the parser is building.
#[derive(Clone, Copy, PartialEq, Eq, Debug)]
pub enum CollectState {
    /// Waiting for the first character of a key.
    PrepKey,
    /// A key is open and accumulating characters.
    BuildKey,
    /// A colon was seen; waiting for the first character of the value.
    PrepVal,
    /// A value is open and accumulating characters.
    BuildVal,
}

/// How the current character stream is being decoded.
#[derive(Clone, Copy, PartialEq, Eq, Debug)]
pub enum StrParseState {
    /// No quoting or escaping is active.
    Default,
    /// An unquoted key was ended by a space; only spaces or a colon may follow.
    EndKey,
    /// The previous character was an escaping backslash outside quotes.
    SpecialChar,
    /// Inside a quoted token.
    InStr,
    /// A quoted key was closed; only spaces or a colon may follow.
    OutStr,
    /// The previous character was an escaping backslash inside quotes.
    InStrSpecial,
}

/// The classified parse failures.  All are terminal: the first illegal
/// transition aborts the parse and no partial mapping is returned.
#[derive(Clone, Copy, PartialEq, Eq, Debug)]
pub enum ParseError {
    /// A colon was encountered before any key content.
    NoKey,
    /// An illegal character while a key is open or awaiting its colon.
    InvalidKeyFormat,
    /// A quote or colon inside an unquoted value, or an unterminated
    /// trailing pair (including empty input).
    InvalidValueFormat,
    /// Defensive guard for state combinations the automaton never reaches.
    OutOfState,
}

/// The full specification-level configuration of the machine: both state
/// components, the two accumulator buffers, and the mapping built so far.
#[verifier::ext_equal]
pub ghost struct ParserState {
    pub main: CollectState,
    pub sub: StrParseState,
    pub key: Seq<char>,
    pub value: Seq<char>,
    pub map: Map<Seq<char>, Seq<char>>,
}

/// The state a fresh parse starts in: empty buffers, empty mapping,
/// waiting for a key.
pub open spec fn init_state() -> ParserState {
    ParserState {
        main: CollectState::PrepKey,
        sub: StrParseState::Default,
        key: Seq::empty(),
        value: Seq::empty(),
        map: Map::empty(),
    }
}

/// Entering `PrepKey` with a non-empty key buffer flushes the pending pair
/// into the mapping (last write wins) and clears both buffers.  This happens
/// before the triggering character is interpreted.
pub open spec fn flush_pending(s: ParserState) -> ParserState {
    if s.key.len() > 0 {
        ParserState {
            key: Seq::empty(),
            value: Seq::empty(),
            map: s.map.insert(s.key, s.value),
            ..s
        }
    } else {
        s
    }
}

/// One step of the machine: the sub-state is examined first, then the
/// collection state, then the character class (space, colon, backslash,
/// quote, other).
pub open spec fn step(s: ParserState, c: char) -> Result<ParserState, ParseError> {
    match s.sub {
        StrParseState::Default => match s.main {
            CollectState::PrepKey => {
                let t = flush_pending(s);
                if c == ' ' {
                    Ok(t)
                } else if c == ':' {
                    Err(ParseError::NoKey)
                } else if c == '\\' {
                    Ok(ParserState { main: CollectState::BuildKey, sub: StrParseState::SpecialChar, ..t })
                } else if c == '"' {
                    Ok(ParserState {
                        main: CollectState::BuildKey,
                        sub: StrParseState::InStr,
                        key: t.key.push(c),
                        ..t
                    })
                } else {
                    Ok(ParserState {
                        main: CollectState::BuildKey,
                        sub: StrParseState::Default,
                        key: t.key.push(c),
                        ..t
                    })
                }
            },
            CollectState::BuildKey => {
                if c == ' ' {
                    Ok(ParserState { sub: StrParseState::EndKey, ..s })
                } else if c == '"' {
                    Err(ParseError::InvalidKeyFormat)
                } else if c == '\\' {
                    Ok(ParserState { sub: StrParseState::SpecialChar, ..s })
                } else if c == ':' {
                    Ok(ParserState { main: CollectState::PrepVal, ..s })
                } else {
                    Ok(ParserState { key: s.key.push(c), ..s })
                }
            },
            CollectState::PrepVal => {
                if c == ' ' {
                    Ok(s)
                } else if c == ':' {
                    Err(ParseError::InvalidValueFormat)
                } else if c == '\\' {
                    Ok(ParserState { main: CollectState::BuildVal, sub: StrParseState::SpecialChar, ..s })
                } else if c == '"' {
                    Ok(ParserState {
                        main: CollectState::BuildVal,
                        sub: StrParseState::InStr,
                        value: s.value.push(c),
                        ..s
                    })
                } else {
                    Ok(ParserState {
                        main: CollectState::BuildVal,
                        sub: StrParseState::Default,
                        value: s.value.push(c),
                        ..s
                    })
                }
            },
            CollectState::BuildVal => {
                if c == '"' || c == ':' {
                    Err(ParseError::InvalidValueFormat)
                } else if c == ' ' {
                    Ok(ParserState { main: CollectState::PrepKey, ..s })
                } else if c == '\\' {
                    Ok(ParserState { sub: StrParseState::SpecialChar, ..s })
                } else {
                    Ok(ParserState { value: s.value.push(c), ..s })
                }
            },
        },
        StrParseState::EndKey => match s.main {
            CollectState::BuildKey => {
                if c == ' ' {
                    Ok(s)
                } else if c == ':' {
                    Ok(ParserState { main: CollectState::PrepVal, sub: StrParseState::Default, ..s })
                } else {
                    Err(ParseError::InvalidKeyFormat)
                }
            },
            _ => Err(ParseError::OutOfState),
        },
        StrParseState::SpecialChar => match s.main {
            CollectState::BuildKey => Ok(ParserState { key: s.key.push(c), sub: StrParseState::Default, ..s }),
            CollectState::BuildVal => Ok(ParserState { value: s.value.push(c), sub: StrParseState::Default, ..s }),
            _ => Err(ParseError::OutOfState),
        },
        StrParseState::InStr => match s.main {
            CollectState::BuildKey => {
                if c == '"' {
                    Ok(ParserState { key: s.key.push(c), sub: StrParseState::OutStr, ..s })
                } else if c == '\\' {
                    Ok(ParserState { sub: StrParseState::InStrSpecial, ..s })
                } else {
                    Ok(ParserState { key: s.key.push(c), ..s })
                }
            },
            CollectState::BuildVal => {
                if c == '"' {
                    Ok(ParserState {
                        value: s.value.push(c),
                        main: CollectState::PrepKey,
                        sub: StrParseState::Default,
                        ..s
                    })
                } else if c == '\\' {
                    Ok(ParserState { sub: StrParseState::InStrSpecial, ..s })
                } else {
                    Ok(ParserState { value: s.value.push(c), ..s })
                }
            },
            _ => Err(ParseError::OutOfState),
        },
        StrParseState::OutStr => match s.main {
            CollectState::BuildKey => {
                if c == ' ' {
                    Ok(s)
                } else if c == ':' {
                    Ok(ParserState { main: CollectState::PrepVal, sub: StrParseState::Default, ..s })
                } else {
                    Err(ParseError::InvalidKeyFormat)
                }
            },
            _ => Err(ParseError::OutOfState),
        },
        StrParseState::InStrSpecial => match s.main {
            CollectState::BuildKey => Ok(ParserState { key: s.key.push(c), sub: StrParseState::InStr, ..s }),
            CollectState::BuildVal => Ok(ParserState { value: s.value.push(c), sub: StrParseState::InStr, ..s }),
            _ => Err(ParseError::OutOfState),
        },
    }
}

/// Folding [`step`] over an input sequence, left to right, stopping at the
/// first error.
pub open spec fn run(s: ParserState, input: Seq<char>) -> Result<ParserState, ParseError>
    decreases input.len(),
{
    if input.len() == 0 {
        Ok(s)
    } else {
        match step(s, input[0]) {
            Ok(t) => run(t, input.drop_first()),
            Err(e) => Err(e),
        }
    }
}

/// The end-of-input rule: a final pair is flushed only if both buffers are
/// non-empty; otherwise the whole parse fails (this covers empty input and a
/// dangling key with no value).
pub open spec fn finish(s: ParserState) -> Result<Map<Seq<char>, Seq<char>>, ParseError> {
    if s.key.len() > 0 && s.value.len() > 0 {
        Ok(s.map.insert(s.key, s.value))
    } else {
        Err(ParseError::InvalidValueFormat)
    }
}

/// The meaning of parsing a whole input: run the machine from the initial
/// state over every character, then apply the end-of-input rule.
pub open spec fn parse_spec(input: Seq<char>) -> Result<Map<Seq<char>, Seq<char>>, ParseError> {
    match run(init_state(), input) {
        Ok(s) => finish(s),
        Err(e) => Err(e),
    }
}

} // verus!
