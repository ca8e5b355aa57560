//! The two text-scanning primitives: the divergence-index finder and the
//! balanced-bracket scanner.

use vstd::prelude::*;
use vstd::string::StrSliceExecFns;

verus! {

/// The number of leading characters at which `a` and `b` agree: the scan
/// proceeds from the front and stops at the first mismatch or at the end of
/// the shorter sequence.
pub open spec fn divergence_idx(a: Seq<char>, b: Seq<char>) -> nat
    decreases a.len(),
{
    if a.len() == 0 || b.len() == 0 || a[0] != b[0] {
        0
    } else {
        (1 + divergence_idx(a.drop_first(), b.drop_first())) as nat
    }
}

/// `divergence_idx(a, b)` is the unique `k` such that `a` and `b` agree on
/// every position before `k`, and `k` is either a mismatch position or the
/// length of the shorter sequence.
pub proof fn lemma_divergence_characterization(a: Seq<char>, b: Seq<char>, k: nat)
    requires
        k <= a.len(),
        k <= b.len(),
        forall|i: int| 0 <= i < k ==> a[i] == b[i],
        k == a.len() || k == b.len() || a[k as int] != b[k as int],
    ensures
        divergence_idx(a, b) == k,
    decreases k,
{
    if k == 0 {
    } else {
        lemma_divergence_characterization(a.drop_first(), b.drop_first(), (k - 1) as nat);
    }
}

/// Two identical sequences diverge only at their (common) end: the
/// divergence index of a sequence with itself is its full length.
pub proof fn lemma_divergence_identical(s: Seq<char>)
    ensures
        divergence_idx(s, s) == s.len(),
{
    lemma_divergence_characterization(s, s, s.len());
}

/// If two sequences agree on every position before `k` and differ at `k`,
/// the divergence index is exactly `k`.
pub proof fn lemma_divergence_first_mismatch(a: Seq<char>, b: Seq<char>, k: nat)
    requires
        k < a.len(),
        k < b.len(),
        forall|i: int| 0 <= i < k ==> a[i] == b[i],
        a[k as int] != b[k as int],
    ensures
        divergence_idx(a, b) == k,
{
    lemma_divergence_characterization(a, b, k);
}

/// Find the first non-matching index in two strings.
///
/// The index counts logical characters, not bytes, so the bound is the
/// minimum character length of the two inputs and multi-byte characters
/// are compared whole.
pub fn first_nonequal_idx(left: &str, right: &str) -> (idx: usize)
    ensures
        idx == divergence_idx(left@, right@),
        idx <= left@.len(),
        idx <= right@.len(),
{
    let llen = left.unicode_len();
    let rlen = right.unicode_len();
    let bound = if llen < rlen { llen } else { rlen };
    let mut idx: usize = 0;
    let mut diverged: bool = false;
    while !diverged && idx < bound
        invariant
            idx <= bound,
            bound <= left@.len(),
            bound <= right@.len(),
            bound == left@.len() || bound == right@.len(),
            forall|i: int| 0 <= i < idx ==> left@[i] == right@[i],
            diverged ==> idx < bound && left@[idx as int] != right@[idx as int],
        decreases bound - idx + (if diverged { 0int } else { 1int }),
    {
        if left.get_char(idx) == right.get_char(idx) {
            idx = idx + 1;
        } else {
            diverged = true;
        }
    }
    proof {
        lemma_divergence_characterization(left@, right@, idx as nat);
    }
    idx
}

/// The single failure of the bracket scanner: the input ran out while
/// unmatched opening brackets were still pending. It carries the original,
/// unmodified input for diagnostics.
#[derive(Debug, PartialEq, Eq, Copy, Clone)]
pub enum ScanError<'a> {
    UnterminatedBracketGroup { offending_input: &'a str },
}

/// One step at a time, where the scan of `s` stands when the cursor is at
/// character `i` with `depth` unmatched opening brackets behind it:
/// `Some(k)` means success with the first `k` characters as the prefix,
/// `None` means the input ends while brackets are still open.
///
/// A backslash skips itself and the following character (a trailing
/// backslash skips only itself); an opening bracket deepens the nesting; a
/// closing bracket at depth zero terminates the scan without being
/// consumed; any other character is passed over.
pub open spec fn scan_from(s: Seq<char>, opening: char, closing: char, i: int, depth: int) -> Option<int>
    decreases s.len() - i,
{
    if i < 0 || i >= s.len() {
        if depth == 0 {
            Some(s.len() as int)
        } else {
            None
        }
    } else if s[i] == '\\' {
        if i + 2 <= s.len() {
            scan_from(s, opening, closing, i + 2, depth)
        } else {
            scan_from(s, opening, closing, i + 1, depth)
        }
    } else if s[i] == opening {
        scan_from(s, opening, closing, i + 1, depth + 1)
    } else if s[i] == closing {
        if depth == 0 {
            Some(i)
        } else {
            scan_from(s, opening, closing, i + 1, depth - 1)
        }
    } else {
        scan_from(s, opening, closing, i + 1, depth)
    }
}

/// The outcome of scanning `s` from the start: `Some(k)` gives the
/// character length of the consumed prefix, `None` reports an unterminated
/// bracket group.
pub open spec fn scan_result(s: Seq<char>, opening: char, closing: char) -> Option<int> {
    scan_from(s, opening, closing, 0, 0)
}

/// A successful scan stops either at the very end of the input or exactly
/// on an unescaped closing bracket (one that the escape and opening checks
/// both passed over).
proof fn lemma_scan_from_some(s: Seq<char>, opening: char, closing: char, i: int, depth: int, k: int)
    requires
        0 <= i <= s.len(),
        scan_from(s, opening, closing, i, depth) == Some(k),
    ensures
        i <= k <= s.len(),
        k < s.len() ==> s[k] == closing && s[k] != opening && s[k] != '\\',
    decreases s.len() - i,
{
    if i >= s.len() {
    } else if s[i] == '\\' {
        if i + 2 <= s.len() {
            lemma_scan_from_some(s, opening, closing, i + 2, depth, k);
        } else {
            lemma_scan_from_some(s, opening, closing, i + 1, depth, k);
        }
    } else if s[i] == opening {
        lemma_scan_from_some(s, opening, closing, i + 1, depth + 1, k);
    } else if s[i] == closing {
        if depth != 0 {
            lemma_scan_from_some(s, opening, closing, i + 1, depth - 1, k);
        }
    } else {
        lemma_scan_from_some(s, opening, closing, i + 1, depth, k);
    }
}

/// Re-scanning the remainder of a successful scan is stable: the second
/// scan consumes nothing, returning an empty prefix and the remainder
/// unchanged. The remainder either is empty or starts with the unmatched
/// closing bracket, which terminates the second scan at once.
pub proof fn lemma_rescan_remainder(s: Seq<char>, opening: char, closing: char, k: int)
    requires
        scan_result(s, opening, closing) == Some(k),
    ensures
        0 <= k <= s.len(),
        scan_result(s.subrange(k, s.len() as int), opening, closing) == Some(0int),
{
    lemma_scan_from_some(s, opening, closing, 0, 0, k);
    let r = s.subrange(k, s.len() as int);
    if k < s.len() {
        assert(r[0] == closing && r[0] != opening && r[0] != '\\');
    }
}

/// Scan `input` up to the first unmatched occurrence of `closing`,
/// honouring nested `opening`/`closing` groups and backslash escapes.
///
/// On success the result is `(remainder, prefix)`: the consumed prefix and
/// the unconsumed remainder, two contiguous slices of `input` whose
/// concatenation (prefix first) is the whole input. A terminating unmatched
/// closing bracket is not consumed: it stays as the first character of the
/// remainder. If the input ends while unmatched opening brackets are still
/// pending, the scan fails with [`ScanError::UnterminatedBracketGroup`].
///
/// An escaped character (one right after a backslash) never moves the
/// nesting counter and is kept verbatim in the prefix; a backslash that is
/// the last character escapes nothing. The checks run in the order escape,
/// opening, closing, so if `opening == closing` every unescaped occurrence
/// counts as an opening bracket and the scan succeeds only when none
/// occurs; a backslash used as a bracket is likewise always treated as an
/// escape. All positions count logical characters, so multi-byte bracket
/// characters are matched and sliced at character boundaries.
pub fn take_until_unbalanced<'a>(opening: char, closing: char, input: &'a str) -> (r: Result<
    (&'a str, &'a str),
    ScanError<'a>,
>)
    ensures
        r is Ok <==> scan_result(input@, opening, closing) is Some,
        r matches Ok((remainder, prefix)) ==> {
            &&& scan_result(input@, opening, closing) == Some(prefix@.len() as int)
            &&& prefix@ == input@.subrange(0, prefix@.len() as int)
            &&& remainder@ == input@.subrange(prefix@.len() as int, input@.len() as int)
            &&& prefix@ + remainder@ == input@
        },
        r matches Err(ScanError::UnterminatedBracketGroup { offending_input }) ==> offending_input@
            == input@,
{
    let len = input.unicode_len();
    let mut i: usize = 0;
    let mut depth: usize = 0;
    while i < len
        invariant
            i <= len,
            len == input@.len(),
            depth <= i,
            scan_result(input@, opening, closing) == scan_from(
                input@,
                opening,
                closing,
                i as int,
                depth as int,
            ),
        decreases len - i,
    {
        let c = input.get_char(i);
        if c == '\\' {
            if i + 1 < len {
                i = i + 2;
            } else {
                i = i + 1;
            }
        } else if c == opening {
            depth = depth + 1;
            i = i + 1;
        } else if c == closing {
            if depth == 0 {
                let prefix = input.substring_char(0, i);
                let remainder = input.substring_char(i, len);
                proof {
                    assert(prefix@ + remainder@ =~= input@);
                }
                return Ok((remainder, prefix));
            } else {
                depth = depth - 1;
                i = i + 1;
            }
        } else {
            i = i + 1;
        }
    }
    if depth == 0 {
        let prefix = input.substring_char(0, len);
        let remainder = input.substring_char(len, len);
        proof {
            assert(prefix@ + remainder@ =~= input@);
        }
        Ok((remainder, prefix))
    } else {
        Err(ScanError::UnterminatedBracketGroup { offending_input: input })
    }
}

} // verus!
