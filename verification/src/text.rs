//! Text normalizer for recognized text: collapses the space between two
//! CJK characters while preserving every space that touches a Latin or
//! other non-CJK character.

use vstd::prelude::*;
use vstd::string::*;

verus! {

/// A character in the CJK unified-ideograph block or its extensions,
/// the CJK symbols and punctuation block, or the fullwidth forms.
pub open spec fn is_cjk_char_spec(c: char) -> bool {
    (0x4E00 <= c as u32 && c as u32 <= 0x9FFF)
        || (0x3400 <= c as u32 && c as u32 <= 0x4DBF)
        || (0x20000 <= c as u32 && c as u32 <= 0x2A6DF)
        || (0x2A700 <= c as u32 && c as u32 <= 0x2B73F)
        || (0x2B740 <= c as u32 && c as u32 <= 0x2B81F)
        || (0x2B820 <= c as u32 && c as u32 <= 0x2CEAF)
        || (0x2CEB0 <= c as u32 && c as u32 <= 0x2EBEF)
        || (0x3000 <= c as u32 && c as u32 <= 0x303F)
        || (0xFF00 <= c as u32 && c as u32 <= 0xFFEF)
}

/// Decides whether `c` lies in one of the CJK character classes that the
/// normalizer treats as Chinese text.
pub fn is_cjk_char(c: char) -> (r: bool)
    ensures
        r == is_cjk_char_spec(c),
{
    let u = c as u32;
    (0x4E00 <= u && u <= 0x9FFF)
        || (0x3400 <= u && u <= 0x4DBF)
        || (0x20000 <= u && u <= 0x2A6DF)
        || (0x2A700 <= u && u <= 0x2B73F)
        || (0x2B740 <= u && u <= 0x2B81F)
        || (0x2B820 <= u && u <= 0x2CEAF)
        || (0x2CEB0 <= u && u <= 0x2EBEF)
        || (0x3000 <= u && u <= 0x303F)
        || (0xFF00 <= u && u <= 0xFFEF)
}

/// The character at index `i` survives normalization unless it is a space
/// whose immediate neighbours on both sides are CJK characters.
pub open spec fn keeps_char(s: Seq<char>, i: int) -> bool {
    !(s[i] == ' ' && 0 < i && i + 1 < s.len() && is_cjk_char_spec(s[i - 1])
        && is_cjk_char_spec(s[i + 1]))
}

/// The normalized form of the first `i` characters of `s` (neighbour tests
/// are made against `s` itself, in a single left-to-right pass).
pub open spec fn normalize_prefix(s: Seq<char>, i: int) -> Seq<char>
    decreases i,
{
    if i <= 0 {
        Seq::empty()
    } else if keeps_char(s, i - 1) {
        normalize_prefix(s, i - 1).push(s[i - 1])
    } else {
        normalize_prefix(s, i - 1)
    }
}

/// The normalized form of a character sequence: every space flanked by CJK
/// characters on both sides is dropped, every other character is kept.
pub open spec fn normalize_spec(s: Seq<char>) -> Seq<char> {
    normalize_prefix(s, s.len() as int)
}

/// Collects the characters of a string slice into a vector.
pub fn chars_of(s: &str) -> (r: Vec<char>)
    ensures
        r@ == s@,
{
    let n = s.unicode_len();
    let mut v: Vec<char> = Vec::new();
    let mut i: usize = 0;
    while i < n
        invariant
            i <= n,
            n == s@.len(),
            v@ == s@.take(i as int),
        decreases n - i,
    {
        v.push(s.get_char(i));
        i += 1;
    }
    proof {
        assert(s@.take(n as int) =~= s@);
    }
    v
}

/// Removes every space that stands between two CJK characters; spaces
/// adjacent to any non-CJK character, and all other characters, are kept.
pub fn remove_chinese_spaces(text: &str) -> (r: String)
    ensures
        r@ == normalize_spec(text@),
{
    let chars = chars_of(text);
    let n = chars.len();
    let mut out = String::new();
    let mut i: usize = 0;
    while i < n
        invariant
            chars@ == text@,
            n == chars@.len(),
            i <= n,
            out@ == normalize_prefix(text@, i as int),
        decreases n - i,
    {
        let c = chars[i];
        let keep = if c == ' ' {
            let prev_cjk = if i > 0 {
                is_cjk_char(chars[i - 1])
            } else {
                false
            };
            let next_cjk = if i + 1 < n {
                is_cjk_char(chars[i + 1])
            } else {
                false
            };
            !(prev_cjk && next_cjk)
        } else {
            true
        };
        if keep {
            out.push(c);
        }
        i += 1;
    }
    out
}

/// The index in `s` of the `j`-th character of `normalize_prefix(s, i)`.
spec fn pick(s: Seq<char>, i: int, j: int) -> int
    decreases i,
{
    if i <= 0 {
        0
    } else if keeps_char(s, i - 1) {
        if j == normalize_prefix(s, i - 1).len() {
            i - 1
        } else {
            pick(s, i - 1, j)
        }
    } else {
        pick(s, i - 1, j)
    }
}

proof fn lemma_pick(s: Seq<char>, i: int, j: int)
    requires
        0 <= i <= s.len(),
        0 <= j < normalize_prefix(s, i).len(),
    ensures
        0 <= pick(s, i, j) < i,
        keeps_char(s, pick(s, i, j)),
        normalize_prefix(s, i)[j] == s[pick(s, i, j)],
    decreases i,
{
    if i > 0 {
        if keeps_char(s, i - 1) {
            if j < normalize_prefix(s, i - 1).len() {
                lemma_pick(s, i - 1, j);
            }
        } else {
            lemma_pick(s, i - 1, j);
        }
    }
}

/// Nothing between the last kept character of the prefix and its end is kept.
proof fn lemma_pick_last(s: Seq<char>, i: int)
    requires
        0 <= i <= s.len(),
        normalize_prefix(s, i).len() > 0,
    ensures
        forall|m: int|
            pick(s, i, normalize_prefix(s, i).len() - 1) < m < i ==> !keeps_char(s, m),
    decreases i,
{
    if i > 0 && !keeps_char(s, i - 1) {
        lemma_pick_last(s, i - 1);
    }
}

/// Between the sources of two adjacent kept characters nothing is kept.
proof fn lemma_pick_gap(s: Seq<char>, i: int, j: int)
    requires
        0 <= i <= s.len(),
        0 <= j,
        j + 1 < normalize_prefix(s, i).len(),
    ensures
        pick(s, i, j) < pick(s, i, j + 1),
        forall|m: int| pick(s, i, j) < m < pick(s, i, j + 1) ==> !keeps_char(s, m),
    decreases i,
{
    if i > 0 {
        if keeps_char(s, i - 1) {
            let prev_len = normalize_prefix(s, i - 1).len() as int;
            if j + 1 < prev_len {
                lemma_pick_gap(s, i - 1, j);
            } else {
                lemma_pick(s, i - 1, j);
                lemma_pick_last(s, i - 1);
            }
        } else {
            lemma_pick_gap(s, i - 1, j);
        }
    }
}

/// Every character of a normalized sequence is kept by a second pass: a
/// space that survived has a non-CJK character, or the text's edge, on one
/// side, and that neighbour survives beside it.
proof fn lemma_normalized_all_kept(s: Seq<char>, j: int)
    requires
        0 <= j < normalize_spec(s).len(),
    ensures
        keeps_char(normalize_spec(s), j),
{
    let t = normalize_spec(s);
    let n = s.len() as int;
    if t[j] == ' ' && 0 < j && j + 1 < t.len() {
        let k = pick(s, n, j);
        lemma_pick(s, n, j);
        lemma_pick(s, n, j - 1);
        lemma_pick(s, n, j + 1);
        lemma_pick_gap(s, n, j - 1);
        lemma_pick_gap(s, n, j);
        let kp = pick(s, n, j - 1);
        let kn = pick(s, n, j + 1);
        assert(s[k] == ' ');
        assert(!is_cjk_char_spec(' '));
        if kn != k + 1 {
            assert(!keeps_char(s, k + 1));
            assert(is_cjk_char_spec(s[k]));
            assert(false);
        }
        if kp != k - 1 {
            assert(!keeps_char(s, k - 1));
            assert(is_cjk_char_spec(s[k]));
            assert(false);
        }
        assert(t[j - 1] == s[k - 1]);
        assert(t[j + 1] == s[k + 1]);
        assert(keeps_char(s, k));
        assert(!(is_cjk_char_spec(s[k - 1]) && is_cjk_char_spec(s[k + 1])));
    }
}

/// A sequence all of whose characters are kept normalizes to itself.
pub proof fn lemma_normalize_all_kept_identity(t: Seq<char>)
    requires
        forall|j: int| 0 <= j < t.len() ==> keeps_char(t, j),
    ensures
        normalize_spec(t) == t,
{
    lemma_prefix_all_kept(t, t.len() as int);
    assert(normalize_spec(t) =~= t);
}

proof fn lemma_prefix_all_kept(t: Seq<char>, i: int)
    requires
        0 <= i <= t.len(),
        forall|j: int| 0 <= j < t.len() ==> keeps_char(t, j),
    ensures
        normalize_prefix(t, i) == t.take(i),
    decreases i,
{
    if i > 0 {
        lemma_prefix_all_kept(t, i - 1);
        assert(normalize_prefix(t, i) =~= t.take(i));
    }
}

proof fn lemma_prefix_step(s: Seq<char>, i: int, j: int)
    requires
        0 <= i <= j <= s.len(),
    ensures
        normalize_prefix(s, i).len() <= normalize_prefix(s, j).len(),
        forall|k: int|
            0 <= k < normalize_prefix(s, i).len() ==> normalize_prefix(s, j)[k]
                == normalize_prefix(s, i)[k],
    decreases j - i,
{
    if i < j {
        lemma_prefix_step(s, i, j - 1);
    }
}

/// Normalization removes only the spaces flanked by CJK characters: every
/// character the pass keeps — every non-space, and every space with a
/// non-CJK neighbour or the text's edge beside it — stands in the output,
/// in order, right after the normalized form of what precedes it.
pub proof fn lemma_kept_char_in_output(s: Seq<char>, i: int)
    requires
        0 <= i < s.len(),
        keeps_char(s, i),
    ensures
        normalize_prefix(s, i).len() < normalize_spec(s).len(),
        normalize_spec(s)[normalize_prefix(s, i).len() as int] == s[i],
{
    assert(normalize_prefix(s, i + 1) == normalize_prefix(s, i).push(s[i]));
    lemma_prefix_step(s, i + 1, s.len() as int);
}

/// Normalization is idempotent: a second pass over already-normalized text
/// changes nothing.
pub proof fn lemma_normalize_idempotent(s: Seq<char>)
    ensures
        normalize_spec(normalize_spec(s)) == normalize_spec(s),
{
    let t = normalize_spec(s);
    assert forall|j: int| 0 <= j < t.len() implies keeps_char(t, j) by {
        lemma_normalized_all_kept(s, j);
    }
    lemma_normalize_all_kept_identity(t);
}

} // verus!
