//! The executable parser, verified against the specification machine.
//!
//! [`parse`] walks the input once, character by character, mirroring
//! [`crate::machine::step`]; the loop invariant says that running the
//! specification machine over the remaining suffix from the current state
//! gives the same outcome as running it over the whole input from the
//! initial state.

use vstd::prelude::*;

use crate::form_map::FormMap;
use crate::machine::{
    finish, init_state, parse_spec, run, step, CollectState, ParseError, ParserState, StrParseState,
};

verus! {

/// Parse one line of the form mini-language into a mapping, or fail with
/// the first error the state machine reports.  The result is exactly what
/// the specification machine computes: `Ok` with the specified mapping, or
/// the specified error, for every input.
pub fn parse(input: &Vec<char>) -> (r: Result<FormMap, ParseError>)
    ensures
        match r {
            Ok(m) => m.wf() && parse_spec(input@) == Ok::<Map<Seq<char>, Seq<char>>, ParseError>(
                m@,
            ),
            Err(e) => parse_spec(input@) == Err::<Map<Seq<char>, Seq<char>>, ParseError>(e),
        },
{
    let mut map = FormMap::new();
    let mut key: Vec<char> = Vec::new();
    let mut value: Vec<char> = Vec::new();
    let mut main = CollectState::PrepKey;
    let mut sub = StrParseState::Default;
    let ghost mut st = init_state();

    proof {
        assert(input@.skip(0) =~= input@);
    }
    let n = input.len();
    for i in 0..n
        invariant
            n == input@.len(),
            st == (ParserState { main, sub, key: key@, value: value@, map: map@ }),
            map.wf(),
            run(st, input@.skip(i as int)) == run(init_state(), input@),
    {
        let c = input[i];
        let ghost st0 = st;
        proof {
            assert(input@.skip(i as int).len() > 0);
            assert(input@.skip(i as int)[0] == c);
            assert(input@.skip(i as int).drop_first() =~= input@.skip(i as int + 1));
        }
        match sub {
            StrParseState::Default => match main {
                CollectState::PrepKey => {
                    if key.len() > 0 {
                        map.insert(key, value);
                        key = Vec::new();
                        value = Vec::new();
                    }
                    proof {
                        st = crate::machine::flush_pending(st);
                    }
                    match c {
                        ' ' => {},
                        ':' => {
                            proof {
                                assert(run(st0, input@.skip(i as int)) == Err::<
                                    ParserState,
                                    ParseError,
                                >(ParseError::NoKey));
                            }
                            return Err(ParseError::NoKey);
                        },
                        '\\' => {
                            main = CollectState::BuildKey;
                            sub = StrParseState::SpecialChar;
                            proof {
                                st = ParserState {
                                    main: CollectState::BuildKey,
                                    sub: StrParseState::SpecialChar,
                                    ..st
                                };
                            }
                        },
                        '"' => {
                            key.push(c);
                            main = CollectState::BuildKey;
                            sub = StrParseState::InStr;
                            proof {
                                st = ParserState {
                                    main: CollectState::BuildKey,
                                    sub: StrParseState::InStr,
                                    key: st.key.push(c),
                                    ..st
                                };
                            }
                        },
                        _ => {
                            key.push(c);
                            main = CollectState::BuildKey;
                            sub = StrParseState::Default;
                            proof {
                                st = ParserState {
                                    main: CollectState::BuildKey,
                                    sub: StrParseState::Default,
                                    key: st.key.push(c),
                                    ..st
                                };
                            }
                        },
                    }
                },
                CollectState::BuildKey => match c {
                    ' ' => {
                        sub = StrParseState::EndKey;
                        proof {
                            st = ParserState { sub: StrParseState::EndKey, ..st };
                        }
                    },
                    '"' => {
                        proof {
                            assert(run(st0, input@.skip(i as int)) == Err::<ParserState, ParseError>(
                                ParseError::InvalidKeyFormat,
                            ));
                        }
                        return Err(ParseError::InvalidKeyFormat);
                    },
                    '\\' => {
                        sub = StrParseState::SpecialChar;
                        proof {
                            st = ParserState { sub: StrParseState::SpecialChar, ..st };
                        }
                    },
                    ':' => {
                        main = CollectState::PrepVal;
                        proof {
                            st = ParserState { main: CollectState::PrepVal, ..st };
                        }
                    },
                    _ => {
                        key.push(c);
                        proof {
                            st = ParserState { key: st.key.push(c), ..st };
                        }
                    },
                },
                CollectState::PrepVal => match c {
                    ' ' => {},
                    ':' => {
                        proof {
                            assert(run(st0, input@.skip(i as int)) == Err::<ParserState, ParseError>(
                                ParseError::InvalidValueFormat,
                            ));
                        }
                        return Err(ParseError::InvalidValueFormat);
                    },
                    '\\' => {
                        main = CollectState::BuildVal;
                        sub = StrParseState::SpecialChar;
                        proof {
                            st = ParserState {
                                main: CollectState::BuildVal,
                                sub: StrParseState::SpecialChar,
                                ..st
                            };
                        }
                    },
                    '"' => {
                        value.push(c);
                        main = CollectState::BuildVal;
                        sub = StrParseState::InStr;
                        proof {
                            st = ParserState {
                                main: CollectState::BuildVal,
                                sub: StrParseState::InStr,
                                value: st.value.push(c),
                                ..st
                            };
                        }
                    },
                    _ => {
                        value.push(c);
                        main = CollectState::BuildVal;
                        sub = StrParseState::Default;
                        proof {
                            st = ParserState {
                                main: CollectState::BuildVal,
                                sub: StrParseState::Default,
                                value: st.value.push(c),
                                ..st
                            };
                        }
                    },
                },
                CollectState::BuildVal => match c {
                    '"' | ':' => {
                        proof {
                            assert(run(st0, input@.skip(i as int)) == Err::<ParserState, ParseError>(
                                ParseError::InvalidValueFormat,
                            ));
                        }
                        return Err(ParseError::InvalidValueFormat);
                    },
                    ' ' => {
                        main = CollectState::PrepKey;
                        proof {
                            st = ParserState { main: CollectState::PrepKey, ..st };
                        }
                    },
                    '\\' => {
                        sub = StrParseState::SpecialChar;
                        proof {
                            st = ParserState { sub: StrParseState::SpecialChar, ..st };
                        }
                    },
                    _ => {
                        value.push(c);
                        proof {
                            st = ParserState { value: st.value.push(c), ..st };
                        }
                    },
                },
            },
            StrParseState::EndKey => match main {
                CollectState::BuildKey => match c {
                    ' ' => {},
                    ':' => {
                        main = CollectState::PrepVal;
                        sub = StrParseState::Default;
                        proof {
                            st = ParserState {
                                main: CollectState::PrepVal,
                                sub: StrParseState::Default,
                                ..st
                            };
                        }
                    },
                    _ => {
                        proof {
                            assert(run(st0, input@.skip(i as int)) == Err::<ParserState, ParseError>(
                                ParseError::InvalidKeyFormat,
                            ));
                        }
                        return Err(ParseError::InvalidKeyFormat);
                    },
                },
                _ => {
                    proof {
                        assert(run(st0, input@.skip(i as int)) == Err::<ParserState, ParseError>(
                            ParseError::OutOfState,
                        ));
                    }
                    return Err(ParseError::OutOfState);
                },
            },
            StrParseState::SpecialChar => match main {
                CollectState::BuildKey => {
                    key.push(c);
                    sub = StrParseState::Default;
                    proof {
                        st = ParserState { key: st.key.push(c), sub: StrParseState::Default, ..st };
                    }
                },
                CollectState::BuildVal => {
                    value.push(c);
                    sub = StrParseState::Default;
                    proof {
                        st = ParserState {
                            value: st.value.push(c),
                            sub: StrParseState::Default,
                            ..st
                        };
                    }
                },
                _ => {
                    proof {
                        assert(run(st0, input@.skip(i as int)) == Err::<ParserState, ParseError>(
                            ParseError::OutOfState,
                        ));
                    }
                    return Err(ParseError::OutOfState);
                },
            },
            StrParseState::InStr => match main {
                CollectState::BuildKey => match c {
                    '"' => {
                        key.push(c);
                        sub = StrParseState::OutStr;
                        proof {
                            st = ParserState {
                                key: st.key.push(c),
                                sub: StrParseState::OutStr,
                                ..st
                            };
                        }
                    },
                    '\\' => {
                        sub = StrParseState::InStrSpecial;
                        proof {
                            st = ParserState { sub: StrParseState::InStrSpecial, ..st };
                        }
                    },
                    _ => {
                        key.push(c);
                        proof {
                            st = ParserState { key: st.key.push(c), ..st };
                        }
                    },
                },
                CollectState::BuildVal => match c {
                    '"' => {
                        value.push(c);
                        main = CollectState::PrepKey;
                        sub = StrParseState::Default;
                        proof {
                            st = ParserState {
                                value: st.value.push(c),
                                main: CollectState::PrepKey,
                                sub: StrParseState::Default,
                                ..st
                            };
                        }
                    },
                    '\\' => {
                        sub = StrParseState::InStrSpecial;
                        proof {
                            st = ParserState { sub: StrParseState::InStrSpecial, ..st };
                        }
                    },
                    _ => {
                        value.push(c);
                        proof {
                            st = ParserState { value: st.value.push(c), ..st };
                        }
                    },
                },
                _ => {
                    proof {
                        assert(run(st0, input@.skip(i as int)) == Err::<ParserState, ParseError>(
                            ParseError::OutOfState,
                        ));
                    }
                    return Err(ParseError::OutOfState);
                },
            },
            StrParseState::OutStr => match main {
                CollectState::BuildKey => match c {
                    ' ' => {},
                    ':' => {
                        main = CollectState::PrepVal;
                        sub = StrParseState::Default;
                        proof {
                            st = ParserState {
                                main: CollectState::PrepVal,
                                sub: StrParseState::Default,
                                ..st
                            };
                        }
                    },
                    _ => {
                        proof {
                            assert(run(st0, input@.skip(i as int)) == Err::<ParserState, ParseError>(
                                ParseError::InvalidKeyFormat,
                            ));
                        }
                        return Err(ParseError::InvalidKeyFormat);
                    },
                },
                _ => {
                    proof {
                        assert(run(st0, input@.skip(i as int)) == Err::<ParserState, ParseError>(
                            ParseError::OutOfState,
                        ));
                    }
                    return Err(ParseError::OutOfState);
                },
            },
            StrParseState::InStrSpecial => match main {
                CollectState::BuildKey => {
                    key.push(c);
                    sub = StrParseState::InStr;
                    proof {
                        st = ParserState { key: st.key.push(c), sub: StrParseState::InStr, ..st };
                    }
                },
                CollectState::BuildVal => {
                    value.push(c);
                    sub = StrParseState::InStr;
                    proof {
                        st = ParserState { value: st.value.push(c), sub: StrParseState::InStr, ..st };
                    }
                },
                _ => {
                    proof {
                        assert(run(st0, input@.skip(i as int)) == Err::<ParserState, ParseError>(
                            ParseError::OutOfState,
                        ));
                    }
                    return Err(ParseError::OutOfState);
                },
            },
        }
        proof {
            assert(step(st0, c) == Ok::<ParserState, ParseError>(st));
            assert(run(st0, input@.skip(i as int)) == run(st, input@.skip(i as int + 1)));
        }
    }
    proof {
        assert(input@.skip(n as int) =~= Seq::<char>::empty());
        assert(run(init_state(), input@) == Ok::<ParserState, ParseError>(st));
    }
    if key.len() > 0 && value.len() > 0 {
        map.insert(key, value);
        proof {
            assert(finish(st) == Ok::<Map<Seq<char>, Seq<char>>, ParseError>(map@));
        }
        Ok(map)
    } else {
        proof {
            assert(finish(st) == Err::<Map<Seq<char>, Seq<char>>, ParseError>(
                ParseError::InvalidValueFormat,
            ));
        }
        Err(ParseError::InvalidValueFormat)
    }
}

} // verus!
