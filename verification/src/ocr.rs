//! Recognition orchestration: building the helper invocation, parsing the
//! helper's sentinel-bracketed language listing, and assembling structured
//! recognition results with the staged file released on every path.

use vstd::prelude::*;
use vstd::string::*;
use crate::results::{FailureKind, OcrRequest, OcrResult, SupportedLanguagesResult, failure_message};
use crate::staging::{StagedFile, Stager};
use crate::strutil::{
    find_line,
    find_line_spec,
    join_spec,
    join_strings,
    lines_spec,
    split_lines,
    trim_spec,
    trim_str,
    views_of,
};
use crate::text::{normalize_spec, remove_chinese_spaces};

verus! {

/// The views of an optional list of strings.
pub open spec fn opt_views(o: Option<Vec<String>>) -> Option<Seq<Seq<char>>> {
    match o {
        Some(l) => Some(views_of(l@)),
        None => None,
    }
}

/// The arguments the recognition helper is invoked with: the staged file
/// path first and, when a non-empty language list was requested, a single
/// comma-joined language argument.
pub open spec fn helper_args_spec(path: Seq<char>, languages: Option<Seq<Seq<char>>>) -> Seq<
    Seq<char>,
> {
    match languages {
        Some(l) => if l.len() > 0 {
            seq![path, join_spec(l, ","@)]
        } else {
            seq![path]
        },
        None => seq![path],
    }
}

/// Builds the helper's argument list for a staged file and an optional
/// language request.
pub fn build_helper_args(staged_path: &str, languages: &Option<Vec<String>>) -> (r: Vec<String>)
    ensures
        views_of(r@) == helper_args_spec(staged_path@, opt_views(*languages)),
{
    let mut args: Vec<String> = Vec::new();
    args.push(String::from_str(staged_path));
    match languages {
        Some(l) => {
            if l.len() > 0 {
                args.push(join_strings(l, ","));
            }
        },
        None => {},
    }
    proof {
        assert(views_of(args@) =~= helper_args_spec(staged_path@, opt_views(*languages)));
    }
    args
}

/// The result reported for a helper run: on a zero exit, the trimmed and
/// normalized standard output; otherwise a failure carrying the helper's
/// standard error.
pub fn ocr_result_from_helper(exit_ok: bool, stdout: &str, stderr: &str) -> (r: OcrResult)
    ensures
        r.wf(),
        r.success == exit_ok,
        exit_ok ==> r.text@ == normalize_spec(trim_spec(stdout@)) && r.error_message is None,
        !exit_ok ==> (r.error_message matches Some(m) && m@ == failure_message(
            FailureKind::InvocationFailure,
            stderr@,
        )),
{
    if exit_ok {
        let trimmed = trim_str(stdout);
        OcrResult::ok(remove_chinese_spaces(trimmed.as_str()))
    } else {
        OcrResult::failure(FailureKind::InvocationFailure, stderr)
    }
}

/// The text reported by the native recognition engine: the recognized lines
/// joined by newlines, then normalized.
pub fn assemble_native_text(lines: &Vec<String>) -> (r: String)
    ensures
        r@ == normalize_spec(join_spec(views_of(lines@), "\n"@)),
{
    let joined = join_strings(lines, "\n");
    remove_chinese_spaces(joined.as_str())
}

/// Finishes a helper-strategy recognition: releases the staged file —
/// whatever the outcome — and reports the helper's result.
pub fn finish_helper_ocr(
    stager: &mut Stager,
    staged_path: &str,
    exit_ok: bool,
    stdout: &str,
    stderr: &str,
) -> (r: OcrResult)
    ensures
        !final(stager).is_live(staged_path@),
        forall|p: Seq<char>|
            p != staged_path@ ==> final(stager).is_live(p) == old(stager).is_live(p),
        r.wf(),
        r.success == exit_ok,
        exit_ok ==> r.text@ == normalize_spec(trim_spec(stdout@)) && r.error_message is None,
        !exit_ok ==> (r.error_message matches Some(m) && m@ == failure_message(
            FailureKind::InvocationFailure,
            stderr@,
        )),
{
    stager.release(staged_path);
    ocr_result_from_helper(exit_ok, stdout, stderr)
}

/// Prepares a recognition request for the helper: decodes and stages its
/// payload under the name derived from `token`, and builds the helper's
/// argument list for the staged path and the request's languages. A
/// malformed payload is rejected as a decode failure with nothing staged.
pub fn prepare_ocr_request(stager: &mut Stager, request: &OcrRequest, token: &str) -> (r: Result<
    (StagedFile, Vec<String>),
    OcrResult,
>)
    ensures
        match r {
            Ok(p) => {
                &&& crate::shims::base64_decode_of(request.image_data@) == Some(p.0.bytes@)
                &&& p.0.path@ == crate::staging::temp_name_spec(token@)
                &&& final(stager).is_live(p.0.path@)
                &&& forall|q: Seq<char>|
                    q != p.0.path@ ==> final(stager).is_live(q) == old(stager).is_live(q)
                &&& views_of(p.1@) == helper_args_spec(p.0.path@, opt_views(request.languages))
            },
            Err(res) => {
                &&& crate::shims::base64_decode_of(request.image_data@) is None
                &&& res.wf()
                &&& !res.success
                &&& *final(stager) == *old(stager)
            },
        },
{
    let staged = match stager.stage_image(request.image_data.as_str(), token) {
        Ok(staged) => staged,
        Err(failure) => {
            return Err(failure);
        },
    };
    let args = build_helper_args(staged.path.as_str(), &request.languages);
    Ok((staged, args))
}

/// The language list bracketed by the sentinel lines in the helper's
/// output: the lines strictly between the first start sentinel and the
/// first end sentinel, or nothing when either sentinel is absent or the end
/// precedes the start.
pub open spec fn protocol_languages(text: Seq<char>) -> Option<Seq<Seq<char>>> {
    let lines = lines_spec(text);
    let s = find_line_spec(lines, "SUPPORTED_LANGUAGES_START"@);
    let e = find_line_spec(lines, "SUPPORTED_LANGUAGES_END"@);
    if s < lines.len() && e < lines.len() && s < e {
        Some(lines.subrange(s + 1, e))
    } else {
        None
    }
}

/// Parses the helper's language listing: the lines between the two sentinel
/// markers, deduplicated and sorted for determinism. A listing without both
/// markers in order yields a protocol failure with an empty language list.
pub fn parse_supported_languages(output: &str) -> (r: SupportedLanguagesResult)
    ensures
        r.wf(),
        r.success == (protocol_languages(output@) is Some),
        protocol_languages(output@) matches Some(l) ==> {
            &&& crate::strutil::sorted_unique(views_of(r.languages@))
            &&& forall|x: Seq<char>| crate::strutil::has_str(r.languages@, x) <==> l.contains(x)
            &&& r.error_message is None
        },
        protocol_languages(output@) is None ==> r.languages@.len() == 0
            && r.error_message is Some,
{
    let lines = split_lines(output);
    let n = lines.len();
    let s = find_line(&lines, "SUPPORTED_LANGUAGES_START");
    let e = find_line(&lines, "SUPPORTED_LANGUAGES_END");
    if s < n && e < n && s < e {
        let ghost lv = views_of(lines@);
        let ghost bracketed = lv.subrange(s + 1 as int, e as int);
        let mut langs: Vec<String> = Vec::new();
        let mut i = s + 1;
        while i < e
            invariant
                s + 1 <= i <= e <= n,
                n == lines@.len(),
                lv == views_of(lines@),
                bracketed == lv.subrange(s + 1 as int, e as int),
                crate::strutil::sorted_unique(views_of(langs@)),
                forall|x: Seq<char>|
                    crate::strutil::has_str(langs@, x) <==> exists|j: int|
                        s + 1 <= j < i && (#[trigger] lv[j]) == x,
            decreases e - i,
        {
            let ghost pre = langs@;
            crate::strutil::insert_sorted(&mut langs, lines[i].clone());
            proof {
                assert(lv[i as int] == lines@[i as int]@);
                assert forall|x: Seq<char>|
                    crate::strutil::has_str(langs@, x) <==> exists|j: int|
                        s + 1 <= j < i + 1 && (#[trigger] lv[j]) == x by {
                    if crate::strutil::has_str(langs@, x) {
                        if x == lv[i as int] {
                        } else {
                            assert(crate::strutil::has_str(pre, x));
                            let j = choose|j: int| s + 1 <= j < i && (#[trigger] lv[j]) == x;
                            assert(lv[j] == x);
                        }
                    }
                    if exists|j: int| s + 1 <= j < i + 1 && (#[trigger] lv[j]) == x {
                        let j = choose|j: int| s + 1 <= j < i + 1 && (#[trigger] lv[j]) == x;
                        if j < i {
                            assert(crate::strutil::has_str(pre, x));
                        }
                    }
                }
            }
            i += 1;
        }
        proof {
            assert forall|x: Seq<char>| crate::strutil::has_str(langs@, x)
                <==> bracketed.contains(x) by {
                if crate::strutil::has_str(langs@, x) {
                    let j = choose|j: int| s + 1 <= j < e && (#[trigger] lv[j]) == x;
                    assert(bracketed[j - (s + 1)] == x);
                }
                if bracketed.contains(x) {
                    let k = choose|k: int| 0 <= k < bracketed.len() && bracketed[k] == x;
                    assert(lv[s + 1 + k] == x);
                }
            }
        }
        SupportedLanguagesResult::ok(langs)
    } else {
        SupportedLanguagesResult::failure(
            FailureKind::ProtocolError,
            "language list markers absent",
        )
    }
}

/// The fixed language list reported where the native engine recognizes in
/// the user's profile languages and exposes no enumeration of its own.
pub fn default_supported_languages() -> (r: SupportedLanguagesResult)
    ensures
        r.wf(),
        r.success,
        views_of(r.languages@) == seq!["en-US"@, "zh-CN"@],
        r.error_message is None,
{
    let mut langs: Vec<String> = Vec::new();
    langs.push(String::from_str("en-US"));
    langs.push(String::from_str("zh-CN"));
    proof {
        assert(views_of(langs@) =~= seq!["en-US"@, "zh-CN"@]);
    }
    SupportedLanguagesResult::ok(langs)
}

/// Failed recognition results are equivalent to one another: no success, no
/// text, and a non-empty error message each. Together with `stage_image`'s
/// contract — staging fails exactly when the payload is not valid base64 —
/// repeating a request with a malformed payload fails equivalently each
/// time.
pub proof fn lemma_failed_results_equivalent(r1: OcrResult, r2: OcrResult)
    requires
        r1.wf(),
        !r1.success,
        r2.wf(),
        !r2.success,
    ensures
        r1.success == r2.success,
        r1.text@ == r2.text@,
        r1.error_message is Some && r1.error_message->0@.len() > 0,
        r2.error_message is Some && r2.error_message->0@.len() > 0,
{
}

} // verus!
