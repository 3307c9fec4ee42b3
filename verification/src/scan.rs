//! Prefix scanning over character sequences.
//!
//! The lexer consumes its input through a small family of scans: each takes
//! the longest prefix whose characters satisfy a fixed predicate. The spec
//! functions here say exactly how long that prefix is; the lemmas give the
//! facts the executable loops and the laws need.

use vstd::prelude::*;

use crate::chars::is_alpha_char;
use crate::chars::is_white_char;

verus! {

/// The predicates the lexer scans with.
#[derive(Clone, Copy)]
pub enum ScanKind {
    /// A selector token: stops at a space, a comma, or `{`.
    SelectorToken,
    /// A declaration's property name: alphabetic characters and `-`.
    RuleName,
    /// A declaration's value: everything up to `;`.
    RuleValue,
    /// Insignificant whitespace.
    Whitespace,
}

/// Whether `c` continues a scan of kind `k`.
pub open spec fn scan_pred(k: ScanKind, c: char) -> bool {
    match k {
        ScanKind::SelectorToken => c != ' ' && c != ',' && c != '{',
        ScanKind::RuleName => is_alpha_char(c) || c == '-',
        ScanKind::RuleValue => c != ';',
        ScanKind::Whitespace => is_white_char(c),
    }
}

/// Executable counterpart of [`scan_pred`].
pub fn char_matches(k: ScanKind, c: char) -> (r: bool)
    ensures
        r == scan_pred(k, c),
{
    match k {
        ScanKind::SelectorToken => c != ' ' && c != ',' && c != '{',
        ScanKind::RuleName => crate::chars::char_is_alphabetic(c) || c == '-',
        ScanKind::RuleValue => c != ';',
        ScanKind::Whitespace => crate::chars::is_whitespace_char(c),
    }
}

/// The length of the longest prefix of `s` whose characters all satisfy the
/// predicate of kind `k`.
pub open spec fn scan_len(k: ScanKind, s: Seq<char>) -> nat
    decreases s.len(),
{
    if s.len() > 0 && scan_pred(k, s[0]) {
        (1 + scan_len(k, s.drop_first())) as nat
    } else {
        0
    }
}

/// The scanned prefix satisfies the predicate throughout, and the scan stops
/// at the first character that fails it.
pub proof fn lemma_scan_len(k: ScanKind, s: Seq<char>)
    ensures
        scan_len(k, s) <= s.len(),
        forall|i: int| 0 <= i < scan_len(k, s) ==> scan_pred(k, #[trigger] s[i]),
        scan_len(k, s) < s.len() ==> !scan_pred(k, s[scan_len(k, s) as int]),
    decreases s.len(),
{
    if s.len() > 0 && scan_pred(k, s[0]) {
        lemma_scan_len(k, s.drop_first());
        assert forall|i: int| 0 <= i < scan_len(k, s) implies scan_pred(k, #[trigger] s[i]) by {
            if i > 0 {
                assert(s[i] == s.drop_first()[i - 1]);
            }
        }
        if scan_len(k, s) < s.len() {
            assert(s[scan_len(k, s) as int] == s.drop_first()[scan_len(k, s.drop_first()) as int]);
        }
    }
}

/// The scan length is determined by any witness position: if the first `n`
/// characters satisfy the predicate and the next one (if any) does not, the
/// scan takes exactly `n` characters.
pub proof fn lemma_scan_len_exact(k: ScanKind, s: Seq<char>, n: nat)
    requires
        n <= s.len(),
        forall|i: int| 0 <= i < n ==> scan_pred(k, #[trigger] s[i]),
        n < s.len() ==> !scan_pred(k, s[n as int]),
    ensures
        scan_len(k, s) == n,
    decreases s.len(),
{
    if s.len() > 0 && scan_pred(k, s[0]) {
        assert forall|i: int| 0 <= i < n - 1 implies scan_pred(k, #[trigger] s.drop_first()[i]) by {
            assert(s.drop_first()[i] == s[i + 1]);
        }
        if n - 1 < s.drop_first().len() {
            assert(s.drop_first()[n - 1] == s[n as int]);
        }
        lemma_scan_len_exact(k, s.drop_first(), (n - 1) as nat);
    }
}

/// `s` with its leading whitespace removed.
pub open spec fn skip_ws(s: Seq<char>) -> Seq<char> {
    s.skip(scan_len(ScanKind::Whitespace, s) as int)
}

/// What skipping whitespace leaves behind: a suffix no longer than `s` whose
/// head, if any, is not whitespace; skipping twice changes nothing, and a
/// sequence that does not start with whitespace is left whole.
pub proof fn lemma_skip_ws(s: Seq<char>)
    ensures
        skip_ws(s).len() <= s.len(),
        skip_ws(s).len() > 0 ==> !is_white_char(skip_ws(s)[0]),
        skip_ws(s).len() > 0 ==> skip_ws(s)[0] == s[s.len() - skip_ws(s).len()],
        skip_ws(skip_ws(s)) == skip_ws(s),
        s.len() > 0 && !is_white_char(s[0]) ==> skip_ws(s) == s,
        s.len() > 0 && is_white_char(s[0]) ==> skip_ws(s).len() < s.len(),
        s.len() == 0 ==> skip_ws(s) == s,
        forall|i: int|
            0 <= i < s.len() - skip_ws(s).len() ==> is_white_char(
                #[trigger] s[i],
            ),
{
    lemma_scan_len(ScanKind::Whitespace, s);
    let n = scan_len(ScanKind::Whitespace, s) as int;
    if skip_ws(s).len() > 0 {
        assert(skip_ws(s)[0] == s[n]);
    }
    if s.len() > 0 && !is_white_char(s[0]) {
        assert(skip_ws(s) =~= s);
    }
    lemma_scan_len_exact(ScanKind::Whitespace, skip_ws(s), 0);
    assert(skip_ws(skip_ws(s)) =~= skip_ws(s));
    if s.len() == 0 {
        assert(skip_ws(s) =~= s);
    }
}

/// The index, within `s`, of the first `*/` pair, if there is one.
pub open spec fn terminator_at(s: Seq<char>) -> Option<nat>
    decreases s.len(),
{
    if s.len() < 2 {
        None
    } else if s[0] == '*' && s[1] == '/' {
        Some(0nat)
    } else {
        match terminator_at(s.drop_first()) {
            Some(n) => Some((n + 1) as nat),
            None => None,
        }
    }
}

/// Where the terminator search lands: at the first position holding `*/`, or
/// nowhere when no such pair occurs.
pub proof fn lemma_terminator_at(s: Seq<char>)
    ensures
        match terminator_at(s) {
            Some(n) => n + 2 <= s.len() && s[n as int] == '*' && s[n as int + 1] == '/' && forall|j: int|
                0 <= j < n ==> !(#[trigger] s[j] == '*' && s[j + 1] == '/'),
            None => forall|j: int|
                0 <= j && j + 1 < s.len() ==> !(#[trigger] s[j] == '*' && s[j + 1] == '/'),
        },
    decreases s.len(),
{
    if s.len() < 2 {
    } else if s[0] == '*' && s[1] == '/' {
    } else {
        lemma_terminator_at(s.drop_first());
        assert forall|j: int| 0 <= j && j + 1 < s.len() implies (s[j] == s.drop_first()[j - 1]
            || j == 0) by {}
        match terminator_at(s.drop_first()) {
            Some(n) => {
                assert(s[n as int + 1] == s.drop_first()[n as int]);
                assert(s[n as int + 2] == s.drop_first()[n as int + 1]);
                assert forall|j: int| 0 <= j < n + 1 implies !(#[trigger] s[j] == '*' && s[j + 1] == '/') by {
                    if j > 0 {
                        assert(s[j] == s.drop_first()[j - 1]);
                        assert(s[j + 1] == s.drop_first()[j]);
                    }
                }
            },
            None => {
                assert forall|j: int| 0 <= j && j + 1 < s.len() implies !(#[trigger] s[j] == '*'
                    && s[j + 1] == '/') by {
                    if j > 0 {
                        assert(s[j] == s.drop_first()[j - 1]);
                        assert(s[j + 1] == s.drop_first()[j]);
                    }
                }
            },
        }
    }
}

/// The terminator search, like the scans, is determined by a witness: the
/// first `*/` position fixes the result.
pub proof fn lemma_terminator_at_exact(s: Seq<char>, n: nat)
    requires
        n + 2 <= s.len(),
        s[n as int] == '*',
        s[n as int + 1] == '/',
        forall|j: int| 0 <= j < n ==> !(#[trigger] s[j] == '*' && s[j + 1] == '/'),
    ensures
        terminator_at(s) == Some(n),
    decreases s.len(),
{
    if n == 0 {
    } else {
        assert(s.drop_first()[n - 1] == s[n as int]);
        assert(s.drop_first()[n as int] == s[n as int + 1]);
        assert forall|j: int| 0 <= j < n - 1 implies !(#[trigger] s.drop_first()[j] == '*'
            && s.drop_first()[j + 1] == '/') by {
            assert(s.drop_first()[j] == s[j + 1]);
            assert(s.drop_first()[j + 1] == s[j + 2]);
        }
        lemma_terminator_at_exact(s.drop_first(), (n - 1) as nat);
    }
}

/// When no `*/` pair occurs anywhere, the terminator search fails.
pub proof fn lemma_terminator_at_none(s: Seq<char>)
    requires
        forall|j: int| 0 <= j && j + 1 < s.len() ==> !(#[trigger] s[j] == '*' && s[j + 1] == '/'),
    ensures
        terminator_at(s) is None,
    decreases s.len(),
{
    if s.len() < 2 {
    } else {
        assert forall|j: int| 0 <= j && j + 1 < s.drop_first().len() implies !(
        #[trigger] s.drop_first()[j] == '*' && s.drop_first()[j + 1] == '/') by {
            assert(s.drop_first()[j] == s[j + 1]);
            assert(s.drop_first()[j + 1] == s[j + 2]);
        }
        lemma_terminator_at_none(s.drop_first());
    }
}

} // verus!
