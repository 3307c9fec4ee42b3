//! The mathematical model of the lexer.
//!
//! [`lex`] maps an input character sequence and a selector stack to the
//! complete parse outcome: the ordered event sequence, the warnings raised
//! along the way, the fatal error if one stops the parse, and the final
//! stack. The executable [`crate::lexer::Lexer`] is proved to compute exactly
//! this function.

use vstd::prelude::*;

use crate::chars::is_sel_start_char;
use crate::events::EventV;
use crate::events::LexError;
use crate::events::Warning;
use crate::scan::ScanKind;
use crate::scan::lemma_scan_len;
use crate::scan::lemma_skip_ws;
use crate::scan::lemma_terminator_at;
use crate::scan::scan_len;
use crate::scan::skip_ws;
use crate::scan::terminator_at;

verus! {

/// The outcome of the declaration loop inside one block.
pub struct BlockOut {
    /// The `Rule` events emitted, in order.
    pub events: Seq<EventV>,
    /// Whether the loop stopped on a property name not followed by `:`.
    pub missing_colon: bool,
    /// The fatal error, when the input ends inside the block.
    pub error: Option<LexError>,
    /// What is left of the input; on a clean stop it begins with the
    /// closing `}`, which the loop does not consume.
    pub rest: Seq<char>,
}

/// The complete outcome of a parse.
pub struct LexOut {
    /// The events emitted, in order.
    pub events: Seq<EventV>,
    /// The recoverable faults reported, in order.
    pub warnings: Seq<Warning>,
    /// The fatal error that stopped the parse, if any.
    pub error: Option<LexError>,
    /// The selector stack when the parse ends.
    pub stack: Seq<Seq<Seq<char>>>,
}

/// Selector-group parsing: while the head is not `{`, take a token (stopping
/// at a space, a comma, or `{`), skip whitespace, and consume one separating
/// comma with the whitespace after it. The `{` itself is left in place.
pub open spec fn sel_group(s: Seq<char>) -> (Seq<Seq<char>>, Seq<char>)
    decreases s.len(),
{
    if s.len() == 0 || s[0] == '{' {
        (Seq::<Seq<char>>::empty(), s)
    } else {
        let n = scan_len(ScanKind::SelectorToken, s) as int;
        let tok = s.take(n);
        let s1 = skip_ws(s.skip(n));
        let s2 = if s1.len() > 0 && s1[0] == ',' {
            skip_ws(s1.skip(1))
        } else {
            s1
        };
        proof {
            lemma_scan_len(ScanKind::SelectorToken, s);
            lemma_skip_ws(s.skip(n));
            if s1.len() > 0 && s1[0] == ',' {
                lemma_skip_ws(s1.skip(1));
            }
            if n == 0 {
                assert(s.skip(0) =~= s);
            }
        }
        let sub = sel_group(s2);
        (seq![tok] + sub.0, sub.1)
    }
}

/// The declaration loop inside a block, entered with the opening `{` and the
/// whitespace after it already consumed. Each round scans a property name,
/// requires `:`, scans the value up to `;`, consumes the `;`, emits the
/// `Rule`, and skips trailing whitespace; it stops before a closing `}`. A
/// missing `:` stops the loop with a warning; input ending where a character
/// is needed is fatal.
pub open spec fn block_body(s: Seq<char>) -> BlockOut
    decreases s.len(),
{
    if s.len() == 0 {
        BlockOut {
            events: Seq::<EventV>::empty(),
            missing_colon: false,
            error: Some(LexError::UnexpectedEndOfInput),
            rest: s,
        }
    } else if s[0] == '}' {
        BlockOut { events: Seq::<EventV>::empty(), missing_colon: false, error: None, rest: s }
    } else {
        let n = scan_len(ScanKind::RuleName, s) as int;
        let name = s.take(n);
        let s1 = skip_ws(s.skip(n));
        if s1.len() == 0 {
            BlockOut {
                events: Seq::<EventV>::empty(),
                missing_colon: false,
                error: Some(LexError::UnexpectedEndOfInput),
                rest: s1,
            }
        } else if s1[0] != ':' {
            BlockOut {
                events: Seq::<EventV>::empty(),
                missing_colon: true,
                error: None,
                rest: s1,
            }
        } else {
            let s2 = skip_ws(s1.skip(1));
            let n2 = scan_len(ScanKind::RuleValue, s2) as int;
            let value = s2.take(n2);
            let s3 = s2.skip(n2);
            if s3.len() == 0 {
                BlockOut {
                    events: Seq::<EventV>::empty(),
                    missing_colon: false,
                    error: Some(LexError::UnexpectedEndOfInput),
                    rest: s3,
                }
            } else {
                let s4 = skip_ws(s3.skip(1));
                proof {
                    lemma_scan_len(ScanKind::RuleName, s);
                    lemma_skip_ws(s.skip(n));
                    lemma_skip_ws(s1.skip(1));
                    lemma_scan_len(ScanKind::RuleValue, s2);
                    lemma_skip_ws(s3.skip(1));
                }
                let sub = block_body(s4);
                BlockOut {
                    events: seq![EventV::Rule(name, value)] + sub.events,
                    missing_colon: sub.missing_colon,
                    error: sub.error,
                    rest: sub.rest,
                }
            }
        }
    }
}

/// The selector-group step always consumes something when the head is not
/// `{`, and never grows the input.
pub proof fn lemma_sel_group_rest(s: Seq<char>)
    ensures
        sel_group(s).1.len() <= s.len(),
        s.len() > 0 && s[0] != '{' ==> sel_group(s).1.len() < s.len(),
    decreases s.len(),
{
    if s.len() == 0 || s[0] == '{' {
    } else {
        let n = scan_len(ScanKind::SelectorToken, s) as int;
        let s1 = skip_ws(s.skip(n));
        let s2 = if s1.len() > 0 && s1[0] == ',' {
            skip_ws(s1.skip(1))
        } else {
            s1
        };
        lemma_scan_len(ScanKind::SelectorToken, s);
        lemma_skip_ws(s.skip(n));
        if s1.len() > 0 && s1[0] == ',' {
            lemma_skip_ws(s1.skip(1));
        }
        if n == 0 {
            assert(s.skip(0) =~= s);
        }
        lemma_sel_group_rest(s2);
    }
}

/// The declaration loop never grows the input.
pub proof fn lemma_block_body_rest(s: Seq<char>)
    ensures
        block_body(s).rest.len() <= s.len(),
    decreases s.len(),
{
    if s.len() == 0 || s[0] == '}' {
    } else {
        let n = scan_len(ScanKind::RuleName, s) as int;
        let s1 = skip_ws(s.skip(n));
        lemma_scan_len(ScanKind::RuleName, s);
        lemma_skip_ws(s.skip(n));
        if s1.len() == 0 || s1[0] != ':' {
        } else {
            let s2 = skip_ws(s1.skip(1));
            let n2 = scan_len(ScanKind::RuleValue, s2) as int;
            let s3 = s2.skip(n2);
            lemma_skip_ws(s1.skip(1));
            lemma_scan_len(ScanKind::RuleValue, s2);
            if s3.len() == 0 {
            } else {
                lemma_skip_ws(s3.skip(1));
                lemma_block_body_rest(skip_ws(s3.skip(1)));
            }
        }
    }
}

/// The lexer itself: skip whitespace, then dispatch on the head character,
/// in fixed priority order, until the input is drained.
///
/// - `*`, `.`, `#` or an alphabetic character opens a selector group, which
///   is emitted and pushed on the stack;
/// - `{` runs the declaration loop;
/// - `}` closes the most recently opened scope, or raises a warning when none
///   is open;
/// - `/*` scans a comment up to the first `*/`;
/// - any other character is fatal: no construct would consume it.
pub open spec fn lex(s: Seq<char>, stack: Seq<Seq<Seq<char>>>) -> LexOut
    decreases s.len(),
{
    let r = skip_ws(s);
    if r.len() == 0 {
        LexOut {
            events: Seq::<EventV>::empty(),
            warnings: Seq::<Warning>::empty(),
            error: None,
            stack,
        }
    } else if is_sel_start_char(r[0]) {
        let g = sel_group(r);
        proof {
            lemma_skip_ws(s);
            lemma_sel_group_rest(r);
        }
        let sub = lex(g.1, stack.push(g.0));
        LexOut {
            events: seq![EventV::StartSelector(g.0)] + sub.events,
            warnings: sub.warnings,
            error: sub.error,
            stack: sub.stack,
        }
    } else if r[0] == '{' {
        let b = block_body(skip_ws(r.skip(1)));
        let warns = if b.missing_colon {
            seq![Warning::MissingColon]
        } else {
            Seq::<Warning>::empty()
        };
        if b.error is Some {
            LexOut { events: b.events, warnings: warns, error: b.error, stack }
        } else {
            proof {
                lemma_skip_ws(s);
                lemma_skip_ws(r.skip(1));
                lemma_block_body_rest(skip_ws(r.skip(1)));
            }
            let sub = lex(b.rest, stack);
            LexOut {
                events: b.events + sub.events,
                warnings: warns + sub.warnings,
                error: sub.error,
                stack: sub.stack,
            }
        }
    } else if r[0] == '}' {
        proof {
            lemma_skip_ws(s);
        }
        if stack.len() > 0 {
            let sub = lex(r.skip(1), stack.drop_last());
            LexOut {
                events: seq![EventV::EndSelector(stack.last())] + sub.events,
                warnings: sub.warnings,
                error: sub.error,
                stack: sub.stack,
            }
        } else {
            let sub = lex(r.skip(1), stack);
            LexOut {
                events: sub.events,
                warnings: seq![Warning::UnpairedCloseSelector] + sub.warnings,
                error: sub.error,
                stack: sub.stack,
            }
        }
    } else if r.len() >= 2 && r[0] == '/' && r[1] == '*' {
        match terminator_at(r.skip(2)) {
            Some(n) => {
                proof {
                    lemma_skip_ws(s);
                    lemma_terminator_at(r.skip(2));
                }
                let sub = lex(r.skip(2).skip(n as int + 2), stack);
                LexOut {
                    events: seq![EventV::Comment(r.skip(2).take(n as int))] + sub.events,
                    warnings: sub.warnings,
                    error: sub.error,
                    stack: sub.stack,
                }
            },
            None => LexOut {
                events: Seq::<EventV>::empty(),
                warnings: Seq::<Warning>::empty(),
                error: Some(LexError::UnexpectedEndOfInput),
                stack,
            },
        }
    } else {
        LexOut {
            events: Seq::<EventV>::empty(),
            warnings: Seq::<Warning>::empty(),
            error: Some(LexError::UnrecognizedCharacter(r[0])),
            stack,
        }
    }
}

} // verus!
