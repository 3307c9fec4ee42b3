//! Laws of the lexer, stated and proved over the model in [`crate::model`].

use vstd::prelude::*;

use crate::chars::is_alpha_char;
use crate::chars::is_ascii_white_char;
use crate::chars::is_sel_start_char;
use crate::chars::is_white_char;
use crate::events::EventV;
use crate::events::Warning;
use crate::model::BlockOut;
use crate::model::LexOut;
use crate::model::block_body;
use crate::model::lex;
use crate::model::sel_group;
use crate::scan::ScanKind;
use crate::scan::lemma_scan_len_exact;
use crate::scan::lemma_skip_ws;
use crate::scan::scan_len;
use crate::scan::scan_pred;
use crate::scan::skip_ws;

verus! {

/// The event sequence depends only on the input text, not on when or how
/// often it is computed: two fresh parses of equal texts give identical
/// outcomes.
pub proof fn lemma_lex_deterministic(s1: Seq<char>, s2: Seq<char>)
    requires
        s1 == s2,
    ensures
        lex(s1, Seq::<Seq<Seq<char>>>::empty()) == lex(s2, Seq::<Seq<Seq<char>>>::empty()),
{
}

/// An unpaired `}` — one met with no selector scope open — produces no event
/// at all and leaves the stack empty: on any input made of whitespace and `}`
/// characters only, the parse succeeds with no events, an empty final stack,
/// and only `UnpairedCloseSelector` warnings.
pub proof fn lemma_unpaired_close(s: Seq<char>)
    requires
        forall|i: int| 0 <= i < s.len() ==> is_white_char(#[trigger] s[i]) || s[i] == '}',
    ensures
        ({
            let out = lex(s, Seq::<Seq<Seq<char>>>::empty());
            &&& out.events == Seq::<EventV>::empty()
            &&& out.stack == Seq::<Seq<Seq<char>>>::empty()
            &&& out.error is None
            &&& forall|i: int|
                0 <= i < out.warnings.len() ==> #[trigger] out.warnings[i]
                    == Warning::UnpairedCloseSelector
        }),
    decreases s.len(),
{
    let r = skip_ws(s);
    lemma_skip_ws(s);
    if r.len() == 0 {
    } else {
        assert(r[0] == s[s.len() - r.len()]);
        assert(r[0] == '}');
        assert(!is_sel_start_char(r[0]));
        assert forall|i: int| 0 <= i < r.skip(1).len() implies is_white_char(
            #[trigger] r.skip(1)[i],
        ) || r.skip(1)[i] == '}' by {
            crate::scan::lemma_scan_len(ScanKind::Whitespace, s);
            let k = scan_len(ScanKind::Whitespace, s) as int;
            assert(r == s.skip(k));
            assert(k == s.len() - r.len());
            assert(r.skip(1)[i] == r[i + 1]);
            assert(r[i + 1] == s[s.len() - r.len() + i + 1]);
            assert(is_white_char(s[s.len() - r.len() + i + 1]) || s[s.len() - r.len() + i + 1]
                == '}');
        }
        lemma_unpaired_close(r.skip(1));
        let out = lex(s, Seq::<Seq<Seq<char>>>::empty());
        let sub = lex(r.skip(1), Seq::<Seq<Seq<char>>>::empty());
        assert(out.events =~= sub.events);
        assert forall|i: int| 0 <= i < out.warnings.len() implies #[trigger] out.warnings[i]
            == Warning::UnpairedCloseSelector by {
            if i > 0 {
                assert(out.warnings[i] == sub.warnings[i - 1]);
            }
        }
    }
}

/// A well-formed declaration: the name is non-empty and alphabetic/hyphen
/// only, and the value contains no `;` and does not begin with whitespace.
/// (The name's first character is also required not to be whitespace, which
/// every alphabetic character satisfies; the model keeps the two classes
/// independent outside ASCII.)
pub open spec fn wf_decl(d: (Seq<char>, Seq<char>)) -> bool {
    &&& d.0.len() > 0
    &&& !is_white_char(d.0[0])
    &&& forall|i: int| 0 <= i < d.0.len() ==> is_alpha_char(#[trigger] d.0[i]) || d.0[i] == '-'
    &&& forall|i: int| 0 <= i < d.1.len() ==> #[trigger] d.1[i] != ';'
    &&& d.1.len() > 0 ==> !is_white_char(d.1[0])
}

/// One declaration, rendered as the lexer reads it: `name: value;` with
/// optional whitespace around the `:` and before the next construct.
pub open spec fn decl_render(
    name: Seq<char>,
    w1: Seq<char>,
    w2: Seq<char>,
    value: Seq<char>,
    w3: Seq<char>,
) -> Seq<char> {
    name + w1 + seq![':'] + w2 + value + seq![';'] + w3
}

/// Only ASCII whitespace characters.
pub open spec fn all_ascii_white(w: Seq<char>) -> bool {
    forall|i: int| 0 <= i < w.len() ==> is_ascii_white_char(#[trigger] w[i])
}

/// Declaration round-trip: inside a block, a well-formed `name: value;` pair
/// — whatever ASCII whitespace stands around the `:` and after the `;` —
/// yields exactly the event `Rule(name, value)`, with that whitespace
/// stripped and the value kept verbatim, and the block parse continues at
/// `rest` unharmed.
#[verifier::rlimit(50)]
pub proof fn lemma_declaration_round_trip(
    name: Seq<char>,
    w1: Seq<char>,
    w2: Seq<char>,
    value: Seq<char>,
    w3: Seq<char>,
    rest: Seq<char>,
)
    requires
        wf_decl((name, value)),
        all_ascii_white(w1),
        all_ascii_white(w2),
        all_ascii_white(w3),
        rest.len() > 0,
        !is_white_char(rest[0]),
    ensures
        ({
            let sub = block_body(rest);
            block_body(decl_render(name, w1, w2, value, w3) + rest) == (BlockOut {
                events: seq![EventV::Rule(name, value)] + sub.events,
                missing_colon: sub.missing_colon,
                error: sub.error,
                rest: sub.rest,
            })
        }),
{
    let s = decl_render(name, w1, w2, value, w3) + rest;
    assert(s.len() > 0 && s[0] == name[0]);
    assert(!is_ascii_white_char(':')) by {
        assert(':' as u32 == 0x3A);
    }
    assert(s[0] != '}') by {
        assert(is_alpha_char(name[0]) || name[0] == '-');
    }
    // The name scan stops exactly after `name`.
    assert forall|i: int| 0 <= i < name.len() implies scan_pred(
        ScanKind::RuleName,
        #[trigger] s[i],
    ) by {
        assert(s[i] == name[i]);
    }
    let stop0 = if w1.len() > 0 {
        w1[0]
    } else {
        ':'
    };
    assert(s[name.len() as int] == stop0);
    assert(!scan_pred(ScanKind::RuleName, stop0));
    lemma_scan_len_exact(ScanKind::RuleName, s, name.len());
    let n = name.len() as int;
    assert(s.take(n) =~= name);
    // Whitespace up to the `:`.
    let t1 = s.skip(n);
    assert(t1 =~= w1 + seq![':'] + w2 + value + seq![';'] + w3 + rest);
    assert forall|i: int| 0 <= i < w1.len() implies is_white_char(#[trigger] t1[i]) by {
        assert(t1[i] == w1[i]);
    }
    assert(t1[w1.len() as int] == ':');
    lemma_scan_len_exact(ScanKind::Whitespace, t1, w1.len());
    let s1 = skip_ws(t1);
    assert(s1 =~= seq![':'] + w2 + value + seq![';'] + w3 + rest);
    assert(s1[0] == ':');
    // Whitespace after the `:`, then the value scan stops at the `;`.
    let t2 = s1.skip(1);
    assert(t2 =~= w2 + value + seq![';'] + w3 + rest);
    assert forall|i: int| 0 <= i < w2.len() implies is_white_char(#[trigger] t2[i]) by {
        assert(t2[i] == w2[i]);
    }
    assert(t2[w2.len() as int] == if value.len() > 0 {
        value[0]
    } else {
        ';'
    });
    assert(!is_white_char(';')) by {
        assert(';' as u32 == 0x3B);
    }
    lemma_scan_len_exact(ScanKind::Whitespace, t2, w2.len());
    let s2 = skip_ws(t2);
    assert(s2 =~= value + seq![';'] + w3 + rest);
    assert forall|i: int| 0 <= i < value.len() implies scan_pred(
        ScanKind::RuleValue,
        #[trigger] s2[i],
    ) by {
        assert(s2[i] == value[i]);
    }
    assert(s2[value.len() as int] == ';');
    lemma_scan_len_exact(ScanKind::RuleValue, s2, value.len());
    assert(s2.take(value.len() as int) =~= value);
    let s3 = s2.skip(value.len() as int);
    assert(s3 =~= seq![';'] + w3 + rest);
    // Whitespace after the `;`, then the loop continues at `rest`.
    let t3 = s3.skip(1);
    assert(t3 =~= w3 + rest);
    assert forall|i: int| 0 <= i < w3.len() implies is_white_char(#[trigger] t3[i]) by {
        assert(t3[i] == w3[i]);
    }
    assert(t3[w3.len() as int] == rest[0]);
    lemma_scan_len_exact(ScanKind::Whitespace, t3, w3.len());
    assert(skip_ws(t3) =~= rest);
}

/// A well-formed single selector token: non-empty, opening with a selector
/// start character that is not whitespace, and containing no space, comma or
/// `{` anywhere.
pub open spec fn wf_sel_token(t: Seq<char>) -> bool {
    &&& t.len() > 0
    &&& is_sel_start_char(t[0])
    &&& !is_white_char(t[0])
    &&& forall|i: int| 0 <= i < t.len() ==> scan_pred(ScanKind::SelectorToken, #[trigger] t[i])
}

/// One whitespace-separated declaration inside a block: `name`, the
/// whitespace before and after the `:`, the `value`, and the whitespace after
/// the `;`.
pub struct DeclDesc {
    /// The property name.
    pub name: Seq<char>,
    /// Whitespace between the name and the `:`.
    pub w1: Seq<char>,
    /// Whitespace between the `:` and the value.
    pub w2: Seq<char>,
    /// The raw value text, up to the `;`.
    pub value: Seq<char>,
    /// Whitespace after the `;`.
    pub w3: Seq<char>,
}

/// A well-formed declaration description: the name/value pair is well formed
/// and the separators are ASCII whitespace.
pub open spec fn wf_decl_desc(d: DeclDesc) -> bool {
    &&& wf_decl((d.name, d.value))
    &&& all_ascii_white(d.w1)
    &&& all_ascii_white(d.w2)
    &&& all_ascii_white(d.w3)
}

/// A sequence of declarations rendered back to back.
pub open spec fn decls_render(ds: Seq<DeclDesc>) -> Seq<char>
    decreases ds.len(),
{
    if ds.len() == 0 {
        Seq::<char>::empty()
    } else {
        decl_render(ds[0].name, ds[0].w1, ds[0].w2, ds[0].value, ds[0].w3) + decls_render(
            ds.drop_first(),
        )
    }
}

/// The `Rule` events those declarations produce, in order.
pub open spec fn rules_of(ds: Seq<DeclDesc>) -> Seq<EventV> {
    Seq::new(ds.len(), |i: int| EventV::Rule(ds[i].name, ds[i].value))
}

/// A block of well-formed declarations followed by anything that opens with
/// `}` is read declaration by declaration, emits exactly their rules, and
/// stops cleanly before the `}`.
pub proof fn lemma_block_decls(ds: Seq<DeclDesc>, rest: Seq<char>)
    requires
        forall|i: int| 0 <= i < ds.len() ==> #[trigger] wf_decl_desc(ds[i]),
        rest.len() > 0,
        rest[0] == '}',
    ensures
        block_body(decls_render(ds) + rest) == (BlockOut {
            events: rules_of(ds),
            missing_colon: false,
            error: None,
            rest,
        }),
    decreases ds.len(),
{
    assert(!is_white_char('}')) by {
        assert('}' as u32 == 0x7D);
    }
    if ds.len() == 0 {
        assert(decls_render(ds) + rest =~= rest);
        assert(rules_of(ds) =~= Seq::<EventV>::empty());
    } else {
        let d = ds[0];
        let tail = ds.drop_first();
        let rest1 = decls_render(tail) + rest;
        assert(rest1.len() > 0);
        assert(!is_white_char(rest1[0])) by {
            if tail.len() == 0 {
                assert(rest1 =~= rest);
            } else {
                assert(wf_decl_desc(tail[0]));
                assert(rest1[0] == tail[0].name[0]);
            }
        }
        lemma_block_decls(tail, rest);
        assert(wf_decl_desc(ds[0]));
        lemma_declaration_round_trip(d.name, d.w1, d.w2, d.value, d.w3, rest1);
        assert(decls_render(ds) + rest =~= decl_render(d.name, d.w1, d.w2, d.value, d.w3) + rest1);
        assert(rules_of(ds) =~= seq![EventV::Rule(d.name, d.value)] + rules_of(tail));
    }
}

/// Leading whitespace changes nothing: the parse of `w + s` is the parse of
/// `s`.
pub proof fn lemma_lex_skips_leading_ws(w: Seq<char>, s: Seq<char>, stack: Seq<Seq<Seq<char>>>)
    requires
        forall|i: int| 0 <= i < w.len() ==> is_white_char(#[trigger] w[i]),
    ensures
        lex(w + s, stack) == lex(s, stack),
{
    let k = scan_len(ScanKind::Whitespace, s);
    crate::scan::lemma_scan_len(ScanKind::Whitespace, s);
    assert forall|i: int| 0 <= i < w.len() + k implies scan_pred(
        ScanKind::Whitespace,
        #[trigger] (w + s)[i],
    ) by {
        if i < w.len() {
            assert((w + s)[i] == w[i]);
        } else {
            assert((w + s)[i] == s[i - w.len()]);
        }
    }
    if w.len() + k < (w + s).len() {
        assert((w + s)[w.len() + k as int] == s[k as int]);
    }
    lemma_scan_len_exact(ScanKind::Whitespace, w + s, (w.len() + k) as nat);
    assert(skip_ws(w + s) =~= skip_ws(s));
}

/// The selector-group parse of a single token, with at most a space-led run
/// of whitespace before its `{`, yields exactly that one-token group and
/// leaves the `{` in place.
pub proof fn lemma_sel_group_single(t: Seq<char>, gap: Seq<char>, rest: Seq<char>)
    requires
        wf_sel_token(t),
        all_ascii_white(gap),
        gap.len() > 0 ==> gap[0] == ' ',
        rest.len() > 0,
        rest[0] == '{',
    ensures
        sel_group(t + gap + rest) == (seq![t], rest),
{
    let s = t + gap + rest;
    assert(s[0] == t[0]);
    assert(s[0] != '{');
    assert forall|i: int| 0 <= i < t.len() implies scan_pred(
        ScanKind::SelectorToken,
        #[trigger] s[i],
    ) by {
        assert(s[i] == t[i]);
    }
    let stop0 = if gap.len() > 0 {
        gap[0]
    } else {
        rest[0]
    };
    assert(s[t.len() as int] == stop0);
    assert(!scan_pred(ScanKind::SelectorToken, stop0));
    lemma_scan_len_exact(ScanKind::SelectorToken, s, t.len());
    let n = t.len() as int;
    assert(s.take(n) =~= t);
    let t1 = s.skip(n);
    assert(t1 =~= gap + rest);
    assert forall|i: int| 0 <= i < gap.len() implies is_white_char(#[trigger] t1[i]) by {
        assert(t1[i] == gap[i]);
    }
    assert(!is_white_char('{')) by {
        assert('{' as u32 == 0x7B);
    }
    assert(t1[gap.len() as int] == rest[0]);
    lemma_scan_len_exact(ScanKind::Whitespace, t1, gap.len());
    assert(skip_ws(t1) =~= rest);
    assert(sel_group(rest).0 =~= Seq::<Seq<char>>::empty());
    assert(seq![t] + Seq::<Seq<char>>::empty() =~= seq![t]);
}

/// The description of one non-nested selector block: whitespace, a single
/// selector token, whitespace, and the braced declarations.
pub struct BlockDesc {
    /// Whitespace in front of the selector.
    pub lead: Seq<char>,
    /// The selector in front of the block.
    pub sel: Seq<char>,
    /// Whitespace between the selector and the `{`; when present it begins
    /// with a space, the character that ends a selector token.
    pub gap: Seq<char>,
    /// Whitespace after the `{`.
    pub pad: Seq<char>,
    /// The declarations inside the block.
    pub decls: Seq<DeclDesc>,
}

/// A well-formed block description.
pub open spec fn wf_block_desc(b: BlockDesc) -> bool {
    &&& all_ascii_white(b.lead)
    &&& wf_sel_token(b.sel)
    &&& all_ascii_white(b.gap)
    &&& b.gap.len() > 0 ==> b.gap[0] == ' '
    &&& all_ascii_white(b.pad)
    &&& forall|i: int| 0 <= i < b.decls.len() ==> #[trigger] wf_decl_desc(b.decls[i])
}

/// The block rendered as input text: `sel { name: value; ... }` with its
/// whitespace.
pub open spec fn block_render(b: BlockDesc) -> Seq<char> {
    b.lead + b.sel + b.gap + seq!['{'] + b.pad + decls_render(b.decls) + seq!['}']
}

/// The events one block produces: its `StartSelector`, its rules, and the
/// matching `EndSelector`.
pub open spec fn block_events(b: BlockDesc) -> Seq<EventV> {
    seq![EventV::StartSelector(seq![b.sel])] + rules_of(b.decls) + seq![
        EventV::EndSelector(seq![b.sel]),
    ]
}

/// A sequence of blocks rendered back to back.
pub open spec fn blocks_render(bs: Seq<BlockDesc>) -> Seq<char>
    decreases bs.len(),
{
    if bs.len() == 0 {
        Seq::<char>::empty()
    } else {
        block_render(bs[0]) + blocks_render(bs.drop_first())
    }
}

/// The events a sequence of blocks produces, block after block.
pub open spec fn blocks_events(bs: Seq<BlockDesc>) -> Seq<EventV>
    decreases bs.len(),
{
    if bs.len() == 0 {
        Seq::<EventV>::empty()
    } else {
        block_events(bs[0]) + blocks_events(bs.drop_first())
    }
}

/// Lexing one well-formed block followed by anything: the block's events come
/// out first — its `StartSelector`, its rules, its `EndSelector` — and the
/// parse then continues on the remainder with the stack exactly as it was.
pub proof fn lemma_one_block(b: BlockDesc, after: Seq<char>, stack: Seq<Seq<Seq<char>>>)
    requires
        wf_block_desc(b),
    ensures
        ({
            let sub = lex(after, stack);
            lex(block_render(b) + after, stack) == (LexOut {
                events: block_events(b) + sub.events,
                warnings: sub.warnings,
                error: sub.error,
                stack: sub.stack,
            })
        }),
{
    let g = seq![b.sel];
    let close = seq!['}'] + after;
    let dr = decls_render(b.decls) + close;
    let open_rest = seq!['{'] + b.pad + dr;
    let core = b.sel + b.gap + open_rest;
    assert(!is_white_char('{')) by {
        assert('{' as u32 == 0x7B);
    }
    assert(!is_white_char('}')) by {
        assert('}' as u32 == 0x7D);
    }
    // Leading whitespace is skipped before the selector.
    assert(block_render(b) + after =~= b.lead + core);
    lemma_lex_skips_leading_ws(b.lead, core, stack);
    // The head is the selector's first character: no whitespace is skipped.
    assert(core[0] == b.sel[0]);
    lemma_skip_ws(core);
    assert(skip_ws(core) == core);
    assert(is_sel_start_char(core[0]));
    // The selector group is the one token, with the `{` left in place.
    lemma_sel_group_single(b.sel, b.gap, open_rest);
    assert(core == b.sel + b.gap + open_rest);
    assert(sel_group(core) == (g, open_rest));
    let st2 = stack.push(g);
    // Inside: whitespace, the declaration loop, then the closing `}` pops the
    // group.
    lemma_skip_ws(open_rest);
    assert(skip_ws(open_rest) == open_rest);
    assert(!is_sel_start_char('{'));
    let inner0 = open_rest.skip(1);
    assert(inner0 =~= b.pad + dr);
    assert(dr.len() > 0);
    assert(!is_white_char(dr[0])) by {
        if b.decls.len() == 0 {
            assert(dr =~= close);
        } else {
            assert(wf_decl_desc(b.decls[0]));
            assert(dr[0] == b.decls[0].name[0]);
        }
    }
    assert forall|i: int| 0 <= i < b.pad.len() implies is_white_char(#[trigger] inner0[i]) by {
        assert(inner0[i] == b.pad[i]);
    }
    assert(inner0[b.pad.len() as int] == dr[0]);
    lemma_scan_len_exact(ScanKind::Whitespace, inner0, b.pad.len());
    assert(skip_ws(inner0) =~= dr);
    lemma_block_decls(b.decls, close);
    assert(block_body(skip_ws(inner0)) == (BlockOut {
        events: rules_of(b.decls),
        missing_colon: false,
        error: None,
        rest: close,
    }));
    lemma_skip_ws(close);
    assert(skip_ws(close) == close);
    assert(!is_sel_start_char('}'));
    assert(st2.len() > 0 && st2.last() == g);
    assert(st2.drop_last() =~= stack);
    assert(close.skip(1) =~= after);
    let sub = lex(after, stack);
    // Assemble the pieces.
    let out3 = lex(close, st2);
    assert(out3.events =~= seq![EventV::EndSelector(g)] + sub.events);
    assert(out3.warnings == sub.warnings && out3.error == sub.error && out3.stack == sub.stack);
    let out2 = lex(open_rest, st2);
    assert(out2.events =~= rules_of(b.decls) + out3.events);
    assert(out2.warnings =~= out3.warnings);
    assert(out2.error == out3.error && out2.stack == out3.stack);
    let out = lex(core, stack);
    assert(out.events =~= seq![EventV::StartSelector(g)] + out2.events);
    assert(out.events =~= block_events(b) + sub.events);
    assert(out.warnings == sub.warnings && out.error == sub.error && out.stack == sub.stack);
    assert(lex(block_render(b) + after, stack) == out);
}

/// For any sequence of well-formed, non-nested selector blocks, the parse
/// succeeds with exactly one `StartSelector`/`EndSelector` pair per block,
/// each closing the group it opened, no warnings, and the stack as it began.
pub proof fn lemma_blocks(bs: Seq<BlockDesc>, stack: Seq<Seq<Seq<char>>>)
    requires
        forall|i: int| 0 <= i < bs.len() ==> #[trigger] wf_block_desc(bs[i]),
    ensures
        lex(blocks_render(bs), stack) == (LexOut {
            events: blocks_events(bs),
            warnings: Seq::<Warning>::empty(),
            error: None,
            stack,
        }),
    decreases bs.len(),
{
    if bs.len() == 0 {
        lemma_skip_ws(blocks_render(bs));
    } else {
        let tail = bs.drop_first();
        lemma_blocks(tail, stack);
        lemma_one_block(bs[0], blocks_render(tail), stack);
        assert(blocks_render(bs) == block_render(bs[0]) + blocks_render(tail));
        assert(blocks_events(bs) =~= block_events(bs[0]) + blocks_events(tail));
    }
}

/// For any input of `n` syntactically well-formed, non-nested selector
/// blocks, the event sequence holds exactly `n` `StartSelector`/`EndSelector`
/// pairs, each `EndSelector` closing the group opened last and not yet
/// closed, and the selector stack is empty again at the end.
pub proof fn lemma_balanced_blocks(bs: Seq<BlockDesc>)
    requires
        forall|i: int| 0 <= i < bs.len() ==> #[trigger] wf_block_desc(bs[i]),
    ensures
        lex(blocks_render(bs), Seq::<Seq<Seq<char>>>::empty()) == (LexOut {
            events: blocks_events(bs),
            warnings: Seq::<Warning>::empty(),
            error: None,
            stack: Seq::<Seq<Seq<char>>>::empty(),
        }),
{
    lemma_blocks(bs, Seq::<Seq<Seq<char>>>::empty());
}

} // verus!
