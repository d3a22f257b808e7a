//! Parsing of the platform voice listing: each line encodes a voice name,
//! a whitespace-delimited language code before the last hash mark, and a
//! sample text after it. Codes are normalized (underscores to hyphens),
//! matched against a query exactly or by primary subtag, deduplicated and
//! sorted for the language catalog.

use vstd::prelude::*;
use vstd::string::*;
use crate::results::{LanguageResult, VoiceInfo, VoiceResult};
use crate::strutil::{
    first_at_from,
    has_prefix,
    has_str,
    insert_sorted,
    is_ws,
    is_ws_spec,
    lines_spec,
    sorted_unique,
    split_lines,
    str_eq,
    str_has_prefix,
    string_of_range,
    trim_range,
    trim_spec,
    views_of,
};
use crate::text::chars_of;

verus! {

/// The index of the last occurrence of `c` in `s`, or `-1`.
pub open spec fn last_index_of(s: Seq<char>, c: char) -> int
    decreases s.len(),
{
    if s.len() == 0 {
        -1
    } else if s.last() == c {
        s.len() - 1
    } else {
        last_index_of(s.drop_last(), c)
    }
}

/// The index of the last whitespace character in `s`, or `-1`.
pub open spec fn last_ws_index(s: Seq<char>) -> int
    decreases s.len(),
{
    if s.len() == 0 {
        -1
    } else if is_ws_spec(s.last()) {
        s.len() - 1
    } else {
        last_ws_index(s.drop_last())
    }
}

/// A language code with every underscore replaced by a hyphen.
pub open spec fn normalize_code_spec(s: Seq<char>) -> Seq<char> {
    s.map_values(|c: char| if c == '_' { '-' } else { c })
}

/// Replaces every underscore in a language code with a hyphen.
pub fn normalize_code(s: &str) -> (r: String)
    ensures
        r@ == normalize_code_spec(s@),
{
    let v = chars_of(s);
    let n = v.len();
    let mut r = String::new();
    let mut i: usize = 0;
    while i < n
        invariant
            i <= n,
            n == v@.len(),
            v@ == s@,
            r@ == normalize_code_spec(s@.take(i as int)),
        decreases n - i,
    {
        let c = v[i];
        if c == '_' {
            r.push('-');
        } else {
            r.push(c);
        }
        proof {
            assert(normalize_code_spec(s@.take(i + 1 as int)) =~= normalize_code_spec(
                s@.take(i as int),
            ).push(if s@[i as int] == '_' {
                '-'
            } else {
                s@[i as int]
            }));
        }
        i += 1;
    }
    proof {
        assert(s@.take(n as int) =~= s@);
    }
    r
}

/// What a voice-listing line parses to: the voice name and the normalized
/// language code, read around the last hash mark and the last whitespace
/// before it; or nothing when the line has no hash mark or no whitespace
/// field before it.
pub open spec fn parse_voice_line_spec(line: Seq<char>) -> Option<(Seq<char>, Seq<char>)> {
    let h = last_index_of(line, '#');
    if h < 0 {
        None
    } else {
        let bh = trim_spec(line.take(h));
        let w = last_ws_index(bh);
        if w < 0 {
            None
        } else {
            Some(
                (trim_spec(bh.take(w)), normalize_code_spec(trim_spec(bh.skip(w)))),
            )
        }
    }
}

/// Finds the last occurrence of `c` in `v[0..hi]`.
fn last_char_in_range(v: &Vec<char>, hi: usize, c: char) -> (r: Option<usize>)
    requires
        hi <= v@.len(),
    ensures
        match r {
            Some(k) => k < hi && last_index_of(v@.take(hi as int), c) == k as int,
            None => last_index_of(v@.take(hi as int), c) == -1,
        },
{
    let mut k = hi;
    while k > 0
        invariant
            k <= hi <= v@.len(),
            last_index_of(v@.take(hi as int), c) == last_index_of(v@.take(k as int), c),
        decreases k,
    {
        if v[k - 1] == c {
            proof {
                assert(v@.take(k as int).last() == v@[k - 1]);
            }
            return Some(k - 1);
        }
        proof {
            assert(v@.take(k as int).drop_last() =~= v@.take(k - 1 as int));
        }
        k -= 1;
    }
    proof {
        assert(v@.take(0) =~= Seq::<char>::empty());
    }
    None
}

/// Finds the last whitespace character in `v[lo..hi]`, as an index into `v`.
fn last_ws_in_range(v: &Vec<char>, lo: usize, hi: usize) -> (r: Option<usize>)
    requires
        lo <= hi <= v@.len(),
    ensures
        match r {
            Some(k) => lo <= k < hi && last_ws_index(v@.subrange(lo as int, hi as int)) == k - lo,
            None => last_ws_index(v@.subrange(lo as int, hi as int)) == -1,
        },
{
    let mut k = hi;
    while k > lo
        invariant
            lo <= k <= hi <= v@.len(),
            last_ws_index(v@.subrange(lo as int, hi as int)) == last_ws_index(
                v@.subrange(lo as int, k as int),
            ),
        decreases k,
    {
        if is_ws(v[k - 1]) {
            proof {
                assert(v@.subrange(lo as int, k as int).last() == v@[k - 1]);
            }
            return Some(k - 1);
        }
        proof {
            assert(v@.subrange(lo as int, k as int).drop_last() =~= v@.subrange(
                lo as int,
                k - 1 as int,
            ));
        }
        k -= 1;
    }
    proof {
        assert(v@.subrange(lo as int, lo as int) =~= Seq::<char>::empty());
    }
    None
}

/// Parses one voice-listing line into its voice name and normalized code.
pub fn parse_voice_line(line: &str) -> (r: Option<(String, String)>)
    ensures
        match r {
            Some(p) => parse_voice_line_spec(line@) == Some((p.0@, p.1@)),
            None => parse_voice_line_spec(line@) is None,
        },
{
    let v = chars_of(line);
    let n = v.len();
    proof {
        assert(v@.take(n as int) =~= line@);
    }
    let h = match last_char_in_range(&v, n, '#') {
        Some(h) => h,
        None => {
            return None;
        },
    };
    let (a, b) = trim_range(&v, 0, h);
    proof {
        assert(v@.subrange(0, h as int) =~= line@.take(h as int));
    }
    let w = match last_ws_in_range(&v, a, b) {
        Some(w) => w,
        None => {
            return None;
        },
    };
    let ghost bh = trim_spec(line@.take(h as int));
    let (ca, cb) = trim_range(&v, w, b);
    proof {
        assert(v@.subrange(w as int, b as int) =~= bh.skip(w - a));
    }
    let code_raw = string_of_range(&v, ca, cb);
    let code = normalize_code(code_raw.as_str());
    let (na, nb) = trim_range(&v, a, w);
    proof {
        assert(v@.subrange(a as int, w as int) =~= bh.take(w - a));
    }
    let name = string_of_range(&v, na, nb);
    Some((name, code))
}

/// The primary subtag of a language query: the text before its first
/// hyphen, or the whole query when it has none.
pub open spec fn primary_spec(q: Seq<char>) -> Seq<char> {
    q.take(first_at_from(q, '-', 0))
}

/// Whether a normalized voice code serves a query: it equals the query, or
/// it extends the query's primary subtag with a hyphen.
pub open spec fn query_matches(code: Seq<char>, q: Seq<char>) -> bool {
    code == q || has_prefix(code, primary_spec(q) + "-"@)
}

/// Decides whether a normalized code serves a language query.
pub fn matches_language(code: &str, query: &str) -> (r: bool)
    ensures
        r == query_matches(code@, query@),
{
    if str_eq(code, query) {
        return true;
    }
    let qv = chars_of(query);
    let qn = qv.len();
    let mut d: usize = 0;
    while d < qn && qv[d] != '-'
        invariant
            d <= qn,
            qn == qv@.len(),
            qv@ == query@,
            first_at_from(query@, '-', d as int) == first_at_from(query@, '-', 0),
        decreases qn - d,
    {
        d += 1;
    }
    let mut prefix = string_of_range(&qv, 0, d);
    prefix.push('-');
    proof {
        reveal_strlit("-");
        assert(qv@.subrange(0, d as int) =~= primary_spec(query@));
        assert(prefix@ =~= primary_spec(query@) + "-"@);
    }
    str_has_prefix(code, prefix.as_str())
}

/// Whether a parsed voice entry is listed for a query: its name is
/// non-empty and its code serves the query.
pub open spec fn voice_selected(e: (Seq<char>, Seq<char>), q: Seq<char>) -> bool {
    e.0.len() > 0 && query_matches(e.1, q)
}

/// The voices of the first `i` lines listed for query `q`: for each line
/// that parses and is selected, its name and code, in line order.
pub open spec fn voices_prefix(lines: Seq<Seq<char>>, q: Seq<char>, i: int) -> Seq<
    (Seq<char>, Seq<char>),
>
    decreases i,
{
    if i <= 0 {
        Seq::empty()
    } else {
        voices_prefix(lines, q, i - 1) + match parse_voice_line_spec(lines[i - 1]) {
            Some(e) => if voice_selected(e, q) {
                seq![e]
            } else {
                Seq::empty()
            },
            None => Seq::empty(),
        }
    }
}

/// The voices of a whole listing that serve query `q`.
pub open spec fn voices_spec(text: Seq<char>, q: Seq<char>) -> Seq<(Seq<char>, Seq<char>)> {
    voices_prefix(lines_spec(text), q, lines_spec(text).len() as int)
}

/// Lists the voices of the listing `output` that serve `language`: one
/// entry per selected line, the voice name doubling as its identifier.
pub fn get_voices_for_language(output: &str, language: &str) -> (r: VoiceResult)
    ensures
        r.wf(),
        r.success,
        r.error_message is None,
        r.voices@.len() == voices_spec(output@, language@).len(),
        forall|k: int|
            0 <= k < r.voices@.len() ==> r.voices@[k].name@ == voices_spec(output@, language@)[k].0
                && r.voices@[k].identifier@ == voices_spec(output@, language@)[k].0,
{
    let lines = split_lines(output);
    let n = lines.len();
    let ghost lv = views_of(lines@);
    let mut voices: Vec<VoiceInfo> = Vec::new();
    let mut i: usize = 0;
    while i < n
        invariant
            i <= n,
            n == lines@.len(),
            lv == views_of(lines@),
            lv == lines_spec(output@),
            voices@.len() == voices_prefix(lv, language@, i as int).len(),
            forall|k: int|
                0 <= k < voices@.len() ==> voices@[k].name@ == voices_prefix(
                    lv,
                    language@,
                    i as int,
                )[k].0 && voices@[k].identifier@ == voices_prefix(lv, language@, i as int)[k].0,
        decreases n - i,
    {
        proof {
            assert(lv[i as int] == lines@[i as int]@);
        }
        match parse_voice_line(lines[i].as_str()) {
            Some(entry) => {
                let (name, code) = entry;
                if name.unicode_len() > 0 && matches_language(code.as_str(), language) {
                    let identifier = name.clone();
                    voices.push(VoiceInfo { name, identifier });
                }
            },
            None => {},
        }
        i += 1;
    }
    VoiceResult::ok(voices)
}

/// Whether some line among the first `i` parses to an entry whose code is
/// `x`.
pub open spec fn code_in_prefix(lines: Seq<Seq<char>>, i: int, x: Seq<char>) -> bool {
    exists|j: int|
        0 <= j < i && ((#[trigger] parse_voice_line_spec(lines[j])) matches Some(e) && e.1 == x)
}

/// Whether the listing mentions the normalized code `x` on any line.
pub open spec fn listed_code(text: Seq<char>, x: Seq<char>) -> bool {
    code_in_prefix(lines_spec(text), lines_spec(text).len() as int, x)
}

/// Lists every language code the voice listing mentions, deduplicated and
/// sorted.
pub fn get_supported_tts_languages(output: &str) -> (r: LanguageResult)
    ensures
        r.wf(),
        r.success,
        r.error_message is None,
        sorted_unique(views_of(r.languages@)),
        forall|x: Seq<char>| has_str(r.languages@, x) <==> listed_code(output@, x),
{
    let lines = split_lines(output);
    let n = lines.len();
    let ghost lv = views_of(lines@);
    let mut langs: Vec<String> = Vec::new();
    let mut i: usize = 0;
    while i < n
        invariant
            i <= n,
            n == lines@.len(),
            lv == views_of(lines@),
            lv == lines_spec(output@),
            sorted_unique(views_of(langs@)),
            forall|x: Seq<char>| has_str(langs@, x) <==> code_in_prefix(lv, i as int, x),
        decreases n - i,
    {
        let ghost pre = langs@;
        proof {
            assert(lv[i as int] == lines@[i as int]@);
        }
        match parse_voice_line(lines[i].as_str()) {
            Some(entry) => {
                let (_, code) = entry;
                insert_sorted(&mut langs, code);
                proof {
                    let c = (parse_voice_line_spec(lv[i as int])->0).1;
                    assert forall|x: Seq<char>| has_str(langs@, x) <==> code_in_prefix(
                        lv,
                        i + 1,
                        x,
                    ) by {
                        if has_str(langs@, x) {
                            if x == c {
                                assert(parse_voice_line_spec(lv[i as int]) matches Some(e)
                                    && e.1 == x);
                            } else {
                                let j = choose|j: int|
                                    0 <= j < i && ((#[trigger] parse_voice_line_spec(
                                        lv[j],
                                    )) matches Some(e) && e.1 == x);
                                assert(parse_voice_line_spec(lv[j]) matches Some(e) && e.1 == x);
                            }
                        }
                        if code_in_prefix(lv, i + 1, x) {
                            let j = choose|j: int|
                                0 <= j < i + 1 && ((#[trigger] parse_voice_line_spec(
                                    lv[j],
                                )) matches Some(e) && e.1 == x);
                            if j < i {
                                assert(code_in_prefix(lv, i as int, x));
                            } else {
                                assert(x == c);
                            }
                        }
                    }
                }
            },
            None => {
                proof {
                    assert forall|x: Seq<char>| has_str(langs@, x) <==> code_in_prefix(
                        lv,
                        i + 1,
                        x,
                    ) by {
                        if code_in_prefix(lv, i + 1, x) {
                            let j = choose|j: int|
                                0 <= j < i + 1 && ((#[trigger] parse_voice_line_spec(
                                    lv[j],
                                )) matches Some(e) && e.1 == x);
                            assert(j < i);
                            assert(code_in_prefix(lv, i as int, x));
                        }
                    }
                }
            },
        }
        i += 1;
    }
    LanguageResult::ok(langs)
}

/// Every element of a voice listing for `q` comes from a line that parses
/// to it and is selected for `q`.
proof fn lemma_voices_elem(lines: Seq<Seq<char>>, q: Seq<char>, i: int, k: int)
    requires
        0 <= i,
        0 <= k < voices_prefix(lines, q, i).len(),
    ensures
        exists|j: int|
            0 <= j < i && parse_voice_line_spec(lines[j]) == Some(
                voices_prefix(lines, q, i)[k],
            ) && voice_selected(#[trigger] voices_prefix(lines, q, i)[k], q),
    decreases i,
{
    if i > 0 {
        let prev = voices_prefix(lines, q, i - 1);
        if k < prev.len() {
            lemma_voices_elem(lines, q, i - 1, k);
            let j = choose|j: int|
                0 <= j < i - 1 && parse_voice_line_spec(lines[j]) == Some(prev[k])
                    && voice_selected(prev[k], q);
            assert(voices_prefix(lines, q, i)[k] == prev[k]);
            assert(parse_voice_line_spec(lines[j]) == Some(voices_prefix(lines, q, i)[k]));
        } else {
            assert(parse_voice_line_spec(lines[i - 1]) == Some(voices_prefix(lines, q, i)[k]));
        }
    }
}

/// A line that parses to a selected entry puts that entry into the listing.
proof fn lemma_voices_complete(
    lines: Seq<Seq<char>>,
    q: Seq<char>,
    i: int,
    j: int,
    e: (Seq<char>, Seq<char>),
)
    requires
        0 <= j < i <= lines.len(),
        parse_voice_line_spec(lines[j]) == Some(e),
        voice_selected(e, q),
    ensures
        voices_prefix(lines, q, i).contains(e),
    decreases i,
{
    if j == i - 1 {
        assert(voices_prefix(lines, q, i)[voices_prefix(lines, q, i).len() - 1] == e);
    } else {
        lemma_voices_complete(lines, q, i - 1, j, e);
        let prev = voices_prefix(lines, q, i - 1);
        let w = choose|w: int| 0 <= w < prev.len() && prev[w] == e;
        assert(voices_prefix(lines, q, i)[w] == e);
    }
}

/// Every voice listed for a query would also be listed under its own code,
/// and its code serves the query: the voices for a primary-subtag query are
/// drawn from the voices of the full codes that extend it.
pub proof fn lemma_voice_listed_under_own_code(text: Seq<char>, q: Seq<char>, k: int)
    requires
        0 <= k < voices_spec(text, q).len(),
    ensures
        query_matches(voices_spec(text, q)[k].1, q),
        voices_spec(text, voices_spec(text, q)[k].1).contains(voices_spec(text, q)[k]),
{
    let lines = lines_spec(text);
    let e = voices_spec(text, q)[k];
    lemma_voices_elem(lines, q, lines.len() as int, k);
    let j = choose|j: int|
        0 <= j < lines.len() && parse_voice_line_spec(lines[j]) == Some(e) && voice_selected(e, q);
    assert(query_matches(e.1, e.1));
    lemma_voices_complete(lines, e.1, lines.len() as int, j, e);
}

/// A voice code that serves a primary-subtag query (one without a hyphen)
/// equals the query or begins with the query and a hyphen.
pub proof fn lemma_primary_query_code(code: Seq<char>, q: Seq<char>)
    requires
        query_matches(code, q),
        first_at_from(q, '-', 0) == q.len(),
    ensures
        code == q || has_prefix(code, q + "-"@),
{
    assert(primary_spec(q) =~= q);
}

} // verus!
