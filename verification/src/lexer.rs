//! The executable lexer, verified against the model in [`crate::model`].

use vstd::prelude::*;
use vstd::string::StrSliceExecFns;

use crate::chars::char_is_alphabetic;
use crate::events::Event;
use crate::events::EventV;
use crate::events::LexError;
use crate::events::Warning;
use crate::model::block_body;
use crate::model::lex;
use crate::model::sel_group;
use crate::scan::ScanKind;
use crate::scan::char_matches;
use crate::scan::lemma_scan_len_exact;
use crate::scan::lemma_skip_ws;
use crate::scan::lemma_terminator_at_exact;
use crate::scan::lemma_terminator_at_none;
use crate::scan::scan_len;
use crate::scan::skip_ws;
use crate::scan::terminator_at;

verus! {

/// Relies on `String::push`: appends one character at the end of the string.
pub assume_specification[ String::push ](s: &mut String, ch: char)
    ensures
        final(s)@ == old(s)@.push(ch),
;

/// The lexer: the input characters with a cursor over them, the events
/// emitted so far, the warnings raised so far, and the stack of open selector
/// scopes.
pub struct Lexer {
    content: Vec<char>,
    pos: usize,
    data: Vec<Event>,
    warns: Vec<Warning>,
    selector_stack: Vec<Vec<String>>,
}

impl Lexer {
    /// The unconsumed input.
    pub closed spec fn remaining(&self) -> Seq<char> {
        self.content@.skip(self.pos as int)
    }

    /// The events emitted so far, as model values.
    pub closed spec fn events(&self) -> Seq<EventV> {
        self.data.deep_view()
    }

    /// The warnings raised so far.
    pub closed spec fn warnings_view(&self) -> Seq<Warning> {
        self.warns@
    }

    /// The open selector scopes, innermost last.
    pub closed spec fn stack_view(&self) -> Seq<Seq<Seq<char>>> {
        self.selector_stack.deep_view()
    }

    /// The cursor never passes the end of the input.
    pub closed spec fn wf(&self) -> bool {
        self.pos <= self.content@.len()
    }

    /// A fresh lexer over the full input text: nothing consumed, nothing
    /// emitted, no open scope.
    pub fn new(contents: &str) -> (l: Lexer)
        ensures
            l.wf(),
            l.remaining() == contents@,
            l.events() == Seq::<EventV>::empty(),
            l.warnings_view() == Seq::<Warning>::empty(),
            l.stack_view() == Seq::<Seq<Seq<char>>>::empty(),
    {
        let n = contents.unicode_len();
        let mut content: Vec<char> = Vec::new();
        let mut i: usize = 0;
        while i < n
            invariant
                i <= n,
                n == contents@.len(),
                content@ == contents@.take(i as int),
            decreases n - i,
        {
            content.push(contents.get_char(i));
            proof {
                assert(content@ =~= contents@.take(i + 1));
            }
            i += 1;
        }
        let l = Lexer {
            content,
            pos: 0,
            data: Vec::new(),
            warns: Vec::new(),
            selector_stack: Vec::new(),
        };
        proof {
            assert(l.remaining() =~= contents@);
            assert(l.events() =~= Seq::<EventV>::empty());
            assert(l.stack_view() =~= Seq::<Seq<Seq<char>>>::empty());
        }
        l
    }

    /// Returns the characters of the unconsumed input at `[from, to)` as a
    /// string and drops everything before `to`.
    fn take_slice(&mut self, from: usize, to: usize) -> (s: String)
        requires
            old(self).wf(),
            from <= to,
            to <= old(self).remaining().len(),
        ensures
            final(self).wf(),
            s@ == old(self).remaining().subrange(from as int, to as int),
            final(self).remaining() == old(self).remaining().skip(to as int),
            final(self).events() == old(self).events(),
            final(self).warnings_view() == old(self).warnings_view(),
            final(self).stack_view() == old(self).stack_view(),
    {
        let mut s = String::new();
        let mut i: usize = from;
        while i < to
            invariant
                from <= i <= to,
                self == old(self),
                self.wf(),
                self.pos + to <= self.content.len(),
                s@ == old(self).remaining().subrange(from as int, i as int),
            decreases to - i,
        {
            s.push(self.content[self.pos + i]);
            proof {
                assert(s@ =~= old(self).remaining().subrange(from as int, i + 1));
            }
            i += 1;
        }
        self.pos = self.pos + to;
        proof {
            assert(self.remaining() =~= old(self).remaining().skip(to as int));
        }
        s
    }

    /// Scans from offset `start`, advancing while the predicate of kind `k`
    /// holds, then takes the scanned characters with [`Self::take_slice`].
    fn take_while_from(&mut self, start: usize, k: ScanKind) -> (s: String)
        requires
            old(self).wf(),
            start <= old(self).remaining().len(),
        ensures
            final(self).wf(),
            ({
                let n = scan_len(k, old(self).remaining().skip(start as int)) as int;
                &&& s@ == old(self).remaining().subrange(start as int, start + n)
                &&& final(self).remaining() == old(self).remaining().skip(start + n)
            }),
            final(self).events() == old(self).events(),
            final(self).warnings_view() == old(self).warnings_view(),
            final(self).stack_view() == old(self).stack_view(),
    {
        let ghost tail = old(self).remaining().skip(start as int);
        let mut i: usize = start;
        while i < self.content.len() - self.pos && char_matches(k, self.content[self.pos + i])
            invariant
                start <= i,
                self == old(self),
                self.wf(),
                self.pos + i <= self.content.len(),
                tail == old(self).remaining().skip(start as int),
                forall|j: int|
                    0 <= j < i - start ==> crate::scan::scan_pred(k, #[trigger] tail[j]),
            decreases old(self).remaining().len() - i,
        {
            i += 1;
        }
        proof {
            lemma_scan_len_exact(k, tail, (i - start) as nat);
        }
        self.take_slice(start, i)
    }

    /// Scans from the head of the unconsumed input.
    fn take_while(&mut self, k: ScanKind) -> (s: String)
        requires
            old(self).wf(),
        ensures
            final(self).wf(),
            ({
                let n = scan_len(k, old(self).remaining()) as int;
                &&& s@ == old(self).remaining().take(n)
                &&& final(self).remaining() == old(self).remaining().skip(n)
            }),
            final(self).events() == old(self).events(),
            final(self).warnings_view() == old(self).warnings_view(),
            final(self).stack_view() == old(self).stack_view(),
    {
        proof {
            assert(old(self).remaining().skip(0) =~= old(self).remaining());
        }
        let s = self.take_while_from(0, k);
        proof {
            let n = scan_len(k, old(self).remaining()) as int;
            assert(old(self).remaining().subrange(0, n) =~= old(self).remaining().take(n));
        }
        s
    }

    /// Consumes a `}` and closes the most recently opened selector scope; on
    /// an empty stack it raises [`Warning::UnpairedCloseSelector`] instead and
    /// emits nothing.
    fn parse_end_selector(&mut self)
        requires
            old(self).wf(),
            old(self).remaining().len() > 0,
            old(self).remaining()[0] == '}',
        ensures
            final(self).wf(),
            final(self).remaining() == old(self).remaining().skip(1),
            old(self).stack_view().len() > 0 ==> {
                &&& final(self).events() == old(self).events().push(
                    EventV::EndSelector(old(self).stack_view().last()),
                )
                &&& final(self).stack_view() == old(self).stack_view().drop_last()
                &&& final(self).warnings_view() == old(self).warnings_view()
            },
            old(self).stack_view().len() == 0 ==> {
                &&& final(self).events() == old(self).events()
                &&& final(self).stack_view() == old(self).stack_view()
                &&& final(self).warnings_view() == old(self).warnings_view().push(
                    Warning::UnpairedCloseSelector,
                )
            },
    {
        let ghost sv = old(self).stack_view();
        let _brace = self.take_slice(0, 1);
        let popped = self.selector_stack.pop();
        match popped {
            Some(group) => {
                let ghost gv = group.deep_view();
                proof {
                    assert(gv == sv.last());
                    assert(self.stack_view() =~= sv.drop_last());
                }
                let ghost ev0 = self.events();
                self.data.push(Event::EndSelector(group));
                proof {
                    assert(self.events() =~= ev0.push(EventV::EndSelector(gv)));
                }
            },
            None => {
                self.warns.push(Warning::UnpairedCloseSelector);
                proof {
                    assert(sv.len() == 0) by {
                        assert(sv.len() == old(self).selector_stack@.len());
                    }
                }
            },
        }
    }

    /// Parses one selector group: comma-separated tokens up to (and not
    /// including) a `{`, emits `StartSelector` and pushes the group on the
    /// stack.
    fn parse_start_selector(&mut self)
        requires
            old(self).wf(),
        ensures
            final(self).wf(),
            final(self).remaining() == sel_group(old(self).remaining()).1,
            final(self).events() == old(self).events().push(
                EventV::StartSelector(sel_group(old(self).remaining()).0),
            ),
            final(self).stack_view() == old(self).stack_view().push(
                sel_group(old(self).remaining()).0,
            ),
            final(self).warnings_view() == old(self).warnings_view(),
    {
        let ghost rem0 = old(self).remaining();
        let mut selectors: Vec<String> = Vec::new();
        let mut group: Vec<String> = Vec::new();
        while self.pos < self.content.len() && self.content[self.pos] != '{'
            invariant
                self.wf(),
                self.events() == old(self).events(),
                self.warnings_view() == old(self).warnings_view(),
                self.stack_view() == old(self).stack_view(),
                selectors.deep_view() == group.deep_view(),
                sel_group(rem0).0 == selectors.deep_view() + sel_group(self.remaining()).0,
                sel_group(rem0).1 == sel_group(self.remaining()).1,
            decreases self.content.len() - self.pos,
        {
            let ghost rem = self.remaining();
            let tok = self.take_while(ScanKind::SelectorToken);
            self.trim_whitespaces();
            if self.pos < self.content.len() && self.content[self.pos] == ',' {
                let _comma = self.take_slice(0, 1);
                self.trim_whitespaces();
            }
            proof {
                let n = scan_len(ScanKind::SelectorToken, rem) as int;
                let s1 = skip_ws(rem.skip(n));
                crate::scan::lemma_scan_len(ScanKind::SelectorToken, rem);
                lemma_skip_ws(rem.skip(n));
                if s1.len() > 0 && s1[0] == ',' {
                    lemma_skip_ws(s1.skip(1));
                }
                if n == 0 {
                    assert(rem.skip(0) =~= rem);
                }
                assert(rem.len() > 0 && rem[0] != '{');
                assert(sel_group(rem).0 == seq![rem.take(n)] + sel_group(self.remaining()).0);
                assert(sel_group(rem).1 == sel_group(self.remaining()).1);
                assert(self.remaining().len() < rem.len());
            }
            let ghost sd = selectors.deep_view();
            let tok_dup = tok.clone();
            selectors.push(tok);
            group.push(tok_dup);
            proof {
                assert(selectors.deep_view() =~= sd.push(selectors@.last()@));
                assert(group.deep_view() =~= sd.push(selectors@.last()@));
                assert(sel_group(rem0).0 =~= selectors.deep_view() + sel_group(
                    self.remaining(),
                ).0);
            }
        }
        proof {
            assert(sel_group(self.remaining()).0 == Seq::<Seq<char>>::empty());
            assert(sel_group(self.remaining()).1 == self.remaining());
            assert(sel_group(rem0).0 =~= selectors.deep_view());
        }
        let ghost gv = sel_group(rem0).0;
        let ghost ev0 = self.events();
        let ghost sv0 = self.stack_view();
        self.data.push(Event::StartSelector(selectors));
        self.selector_stack.push(group);
        proof {
            assert(self.events() =~= ev0.push(EventV::StartSelector(gv)));
            assert(self.stack_view() =~= sv0.push(gv));
        }
    }

    /// Parses one declaration block: consumes the leading `{`, then scans
    /// `name: value;` declarations, emitting a `Rule` for each, until the
    /// closing `}` (left unconsumed). A property name not followed by `:`
    /// raises [`Warning::MissingColon`] and stops the block; input ending
    /// inside the block is a fatal [`LexError::UnexpectedEndOfInput`].
    fn parse_rules(&mut self) -> (r: Result<(), LexError>)
        requires
            old(self).wf(),
            old(self).remaining().len() > 0,
            old(self).remaining()[0] == '{',
        ensures
            final(self).wf(),
            ({
                let b = block_body(skip_ws(old(self).remaining().skip(1)));
                &&& final(self).remaining() == b.rest
                &&& final(self).events() == old(self).events() + b.events
                &&& final(self).warnings_view() == old(self).warnings_view() + (
                if b.missing_colon {
                    seq![Warning::MissingColon]
                } else {
                    Seq::<Warning>::empty()
                })
                &&& final(self).stack_view() == old(self).stack_view()
                &&& match r {
                    Ok(u) => b.error is None,
                    Err(e) => b.error == Some(e),
                }
            }),
    {
        let _brace = self.take_slice(0, 1);
        self.trim_whitespaces();
        let ghost s0 = self.remaining();
        let ghost mut done: Seq<EventV> = Seq::<EventV>::empty();
        proof {
            assert(self.events() =~= old(self).events() + done);
        }
        loop
            invariant
                self.wf(),
                self.stack_view() == old(self).stack_view(),
                self.warnings_view() == old(self).warnings_view(),
                self.events() == old(self).events() + done,
                block_body(s0).events == done + block_body(self.remaining()).events,
                block_body(s0).missing_colon == block_body(self.remaining()).missing_colon,
                block_body(s0).error == block_body(self.remaining()).error,
                block_body(s0).rest == block_body(self.remaining()).rest,
                s0 == skip_ws(old(self).remaining().skip(1)),
            decreases self.content.len() - self.pos,
        {
            let ghost cur = self.remaining();
            if self.pos >= self.content.len() {
                proof {
                    assert(cur.len() == 0);
                    assert(block_body(s0).events =~= done);
                }
                return Err(LexError::UnexpectedEndOfInput);
            }
            if self.content[self.pos] == '}' {
                proof {
                    assert(block_body(s0).events =~= done);
                }
                return Ok(());
            }
            let name = self.take_while(ScanKind::RuleName);
            self.trim_whitespaces();
            proof {
                let n = scan_len(ScanKind::RuleName, cur) as int;
                crate::scan::lemma_scan_len(ScanKind::RuleName, cur);
                lemma_skip_ws(cur.skip(n));
                assert(self.remaining() == skip_ws(cur.skip(n)));
            }
            if self.pos >= self.content.len() {
                proof {
                    assert(block_body(cur).error == Some(LexError::UnexpectedEndOfInput));
                    assert(block_body(s0).events =~= done);
                }
                return Err(LexError::UnexpectedEndOfInput);
            }
            if self.content[self.pos] != ':' {
                self.warns.push(Warning::MissingColon);
                proof {
                    assert(block_body(cur).missing_colon);
                    assert(block_body(s0).events =~= done);
                    assert(self.warnings_view() =~= old(self).warnings_view() + seq![
                        Warning::MissingColon,
                    ]);
                }
                return Ok(());
            }
            let _colon = self.take_slice(0, 1);
            self.trim_whitespaces();
            let ghost s2 = self.remaining();
            let value = self.take_while(ScanKind::RuleValue);
            proof {
                crate::scan::lemma_scan_len(ScanKind::RuleValue, s2);
            }
            if self.pos >= self.content.len() {
                proof {
                    assert(block_body(cur).error == Some(LexError::UnexpectedEndOfInput));
                    assert(block_body(s0).events =~= done);
                }
                return Err(LexError::UnexpectedEndOfInput);
            }
            let _semi = self.take_slice(0, 1);
            let ghost ev0 = self.events();
            let ghost namev = name@;
            let ghost valuev = value@;
            self.data.push(Event::Rule(name, value));
            self.trim_whitespaces();
            proof {
                let n = scan_len(ScanKind::RuleName, cur) as int;
                let s1 = skip_ws(cur.skip(n));
                lemma_skip_ws(s1.skip(1));
                assert(self.events() =~= ev0.push(EventV::Rule(namev, valuev)));
                assert(block_body(cur).events == seq![EventV::Rule(namev, valuev)]
                    + block_body(self.remaining()).events);
                done = done.push(EventV::Rule(namev, valuev));
                assert(self.events() =~= old(self).events() + done);
                assert(block_body(s0).events =~= done + block_body(self.remaining()).events);
                if n == 0 {
                    assert(cur.skip(0) =~= cur);
                }
                let n2 = scan_len(ScanKind::RuleValue, s2) as int;
                let s3 = s2.skip(n2);
                lemma_skip_ws(s3.skip(1));
                assert(self.remaining().len() < cur.len());
            }
        }
    }

    /// Parses one comment: consumes the leading `/*`, emits the text up to
    /// the first `*/` as a `Comment`, and consumes that terminator. A comment
    /// the input ends inside is a fatal [`LexError::UnexpectedEndOfInput`],
    /// and nothing is consumed.
    fn parse_comment(&mut self) -> (r: Result<(), LexError>)
        requires
            old(self).wf(),
            old(self).remaining().len() >= 2,
            old(self).remaining()[0] == '/',
            old(self).remaining()[1] == '*',
        ensures
            final(self).wf(),
            final(self).warnings_view() == old(self).warnings_view(),
            final(self).stack_view() == old(self).stack_view(),
            ({
                let inner = old(self).remaining().skip(2);
                match terminator_at(inner) {
                    Some(n) => {
                        &&& r == Ok::<(), LexError>(())
                        &&& final(self).events() == old(self).events().push(
                            EventV::Comment(inner.take(n as int)),
                        )
                        &&& final(self).remaining() == inner.skip(n as int + 2)
                    },
                    None => {
                        &&& r == Err::<(), LexError>(LexError::UnexpectedEndOfInput)
                        &&& final(self).events() == old(self).events()
                        &&& final(self).remaining() == old(self).remaining()
                    },
                }
            }),
    {
        let ghost rem0 = self.remaining();
        let ghost inner = rem0.skip(2);
        let mut i: usize = 2;
        while i < self.content.len() - self.pos - 1 && !(self.content[self.pos + i] == '*'
            && self.content[self.pos + i + 1] == '/')
            invariant
                self.wf(),
                self == old(self),
                self.remaining().len() >= 2,
                2 <= i,
                i <= self.content.len() - self.pos,
                rem0 == self.remaining(),
                inner == rem0.skip(2),
                forall|j: int|
                    0 <= j < i - 2 ==> !(#[trigger] inner[j] == '*' && inner[j + 1] == '/'),
            decreases self.content.len() - self.pos - i,
        {
            proof {
                assert(inner[i - 2] == rem0[i as int]);
                assert(inner[i - 1] == rem0[i as int + 1]);
            }
            i += 1;
        }
        if i >= self.content.len() - self.pos - 1 {
            proof {
                assert forall|j: int| 0 <= j && j + 1 < inner.len() implies !(#[trigger] inner[j]
                    == '*' && inner[j + 1] == '/') by {}
                lemma_terminator_at_none(inner);
            }
            return Err(LexError::UnexpectedEndOfInput);
        }
        proof {
            assert(inner[i - 2] == rem0[i as int]);
            assert(inner[i - 1] == rem0[i as int + 1]);
            lemma_terminator_at_exact(inner, (i - 2) as nat);
        }
        let comment = self.take_slice(2, i);
        let _term = self.take_slice(0, 2);
        let ghost ev0 = self.events();
        let ghost cv = comment@;
        self.data.push(Event::Comment(comment));
        proof {
            let n = (i - 2) as int;
            assert(cv =~= inner.take(n));
            assert(self.events() =~= ev0.push(EventV::Comment(inner.take(n))));
            assert(rem0.skip(i as int).skip(2) =~= inner.skip(n + 2));
        }
        Ok(())
    }

    /// Parses the whole input: repeatedly skips whitespace and dispatches on
    /// the head character until the input is drained, then hands out the
    /// event sequence. The outcome is exactly [`lex`] applied to the
    /// unconsumed input and the open scopes: on success the returned events,
    /// the warnings raised and the final stack are the model's; a fatal fault
    /// stops the parse and is returned, with everything emitted up to that
    /// point kept in the lexer.
    pub fn parse(&mut self) -> (r: Result<Vec<Event>, LexError>)
        requires
            old(self).wf(),
        ensures
            final(self).wf(),
            ({
                let out = lex(old(self).remaining(), old(self).stack_view());
                &&& final(self).warnings_view() == old(self).warnings_view() + out.warnings
                &&& final(self).stack_view() == out.stack
                &&& match r {
                    Ok(events) => {
                        &&& out.error is None
                        &&& events.deep_view() == old(self).events() + out.events
                        &&& final(self).events() == Seq::<EventV>::empty()
                        &&& final(self).remaining().len() == 0
                    },
                    Err(e) => {
                        &&& out.error == Some(e)
                        &&& final(self).events() == old(self).events() + out.events
                    },
                }
            }),
    {
        let ghost rem0 = old(self).remaining();
        let ghost st0 = old(self).stack_view();
        let ghost out = lex(rem0, st0);
        let ghost mut done: Seq<EventV> = Seq::<EventV>::empty();
        let ghost mut warned: Seq<Warning> = Seq::<Warning>::empty();
        proof {
            assert(self.events() =~= old(self).events() + done);
            assert(self.warnings_view() =~= old(self).warnings_view() + warned);
        }
        loop
            invariant
                self.wf(),
                self.events() == old(self).events() + done,
                self.warnings_view() == old(self).warnings_view() + warned,
                rem0 == old(self).remaining(),
                st0 == old(self).stack_view(),
                out == lex(rem0, st0),
                out.events == done + lex(self.remaining(), self.stack_view()).events,
                out.warnings == warned + lex(self.remaining(), self.stack_view()).warnings,
                out.error == lex(self.remaining(), self.stack_view()).error,
                out.stack == lex(self.remaining(), self.stack_view()).stack,
            decreases self.remaining().len(),
        {
            let ghost pre = self.remaining();
            self.trim_whitespaces();
            let ghost cur = self.remaining();
            let ghost st = self.stack_view();
            proof {
                lemma_skip_ws(pre);
                lemma_skip_ws(cur);
                assert(skip_ws(cur) == cur);
                assert(lex(pre, st) == lex(cur, st));
            }
            if self.pos >= self.content.len() {
                proof {
                    assert(out.events =~= done);
                    assert(out.warnings =~= warned);
                }
                let mut taken: Vec<Event> = Vec::new();
                core::mem::swap(&mut taken, &mut self.data);
                proof {
                    assert(self.events() =~= Seq::<EventV>::empty());
                    assert(taken.deep_view() == old(self).events() + out.events);
                }
                return Ok(taken);
            }
            let c = self.content[self.pos];
            if c == '*' || c == '.' || c == '#' || char_is_alphabetic(c) {
                let ghost g = sel_group(cur);
                self.parse_start_selector();
                proof {
                    let sub = lex(g.1, st.push(g.0));
                    assert(lex(cur, st).events == seq![EventV::StartSelector(g.0)] + sub.events);
                    done = done.push(EventV::StartSelector(g.0));
                    assert(self.events() =~= old(self).events() + done);
                    assert(out.events =~= done + sub.events);
                    crate::model::lemma_sel_group_rest(cur);
                    assert(self.remaining().len() < pre.len());
                }
            } else if c == '{' {
                let ghost b = block_body(skip_ws(cur.skip(1)));
                let ghost bw: Seq<Warning> = if b.missing_colon {
                    seq![Warning::MissingColon]
                } else {
                    Seq::<Warning>::empty()
                };
                let res = self.parse_rules();
                proof {
                    done = done + b.events;
                    warned = warned + bw;
                    assert(self.events() =~= old(self).events() + done);
                    assert(self.warnings_view() =~= old(self).warnings_view() + warned);
                }
                match res {
                    Err(e) => {
                        proof {
                            assert(out.events =~= done);
                            assert(out.warnings =~= warned);
                        }
                        return Err(e);
                    },
                    Ok(_u) => {
                        proof {
                            let sub = lex(b.rest, st);
                            assert(lex(cur, st).events == b.events + sub.events);
                            assert(out.events =~= done + sub.events);
                            assert(out.warnings =~= warned + sub.warnings);
                            lemma_skip_ws(cur.skip(1));
                            crate::model::lemma_block_body_rest(skip_ws(cur.skip(1)));
                            assert(self.remaining().len() < pre.len());
                        }
                    },
                }
            } else if c == '}' {
                self.parse_end_selector();
                proof {
                    if st.len() > 0 {
                        let sub = lex(cur.skip(1), st.drop_last());
                        assert(lex(cur, st).events == seq![EventV::EndSelector(st.last())]
                            + sub.events);
                        done = done.push(EventV::EndSelector(st.last()));
                        assert(self.events() =~= old(self).events() + done);
                        assert(out.events =~= done + sub.events);
                    } else {
                        let sub = lex(cur.skip(1), st);
                        assert(lex(cur, st).warnings == seq![Warning::UnpairedCloseSelector]
                            + sub.warnings);
                        warned = warned.push(Warning::UnpairedCloseSelector);
                        assert(self.warnings_view() =~= old(self).warnings_view() + warned);
                        assert(out.warnings =~= warned + sub.warnings);
                    }
                }
            } else if c == '/' && self.pos + 1 < self.content.len() && self.content[self.pos + 1]
                == '*' {
                let ghost inner = cur.skip(2);
                let res = self.parse_comment();
                if let Err(e) = res {
                    proof {
                        assert(terminator_at(inner) is None);
                        assert(out.events =~= done);
                        assert(out.warnings =~= warned);
                    }
                    return Err(e);
                }
                proof {
                    let n = terminator_at(inner)->0;
                    crate::scan::lemma_terminator_at(inner);
                    let sub = lex(inner.skip(n as int + 2), st);
                    assert(lex(cur, st).events == seq![EventV::Comment(inner.take(n as int))]
                        + sub.events);
                    done = done.push(EventV::Comment(inner.take(n as int)));
                    assert(self.events() =~= old(self).events() + done);
                    assert(out.events =~= done + sub.events);
                    assert(self.remaining().len() < pre.len());
                }
            } else {
                proof {
                    assert(!crate::chars::is_sel_start_char(cur[0]));
                    assert(out.error == Some(LexError::UnrecognizedCharacter(cur[0])));
                    assert(out.events =~= done);
                    assert(out.warnings =~= warned);
                }
                return Err(LexError::UnrecognizedCharacter(c));
            }
        }
    }

    /// The warnings raised so far, in the order they were raised.
    pub fn warnings(&self) -> (w: &Vec<Warning>)
        ensures
            w@ == self.warnings_view(),
    {
        &self.warns
    }

    /// How many selector scopes are open: the depth of the selector stack.
    pub fn open_scopes(&self) -> (n: usize)
        ensures
            n == self.stack_view().len(),
    {
        self.selector_stack.len()
    }

    /// Discards leading whitespace.
    fn trim_whitespaces(&mut self)
        requires
            old(self).wf(),
        ensures
            final(self).wf(),
            final(self).remaining() == skip_ws(old(self).remaining()),
            final(self).events() == old(self).events(),
            final(self).warnings_view() == old(self).warnings_view(),
            final(self).stack_view() == old(self).stack_view(),
    {
        let _ws = self.take_while(ScanKind::Whitespace);
    }
}

} // verus!
