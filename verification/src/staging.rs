//! Staging area for binary payloads: decodes a base64 payload, derives a
//! collision-resistant temporary file name for it, and tracks which staged
//! paths are live so that every one of them is released on every exit path.

use vstd::prelude::*;
use vstd::string::*;
use crate::results::{FailureKind, OcrResult};
use crate::shims::base64_decode_of;
use crate::strutil::{find_line, has_str};

verus! {

/// The temporary file name staged for a token: a fixed recognizable prefix,
/// the token, and an image extension.
pub open spec fn temp_name_spec(token: Seq<char>) -> Seq<char> {
    "ocr_temp_"@ + token + ".png"@
}

/// Builds the temporary file name for a token.
pub fn temp_file_name(token: &str) -> (r: String)
    ensures
        r@ == temp_name_spec(token@),
{
    let mut r = String::from_str("ocr_temp_");
    r.append(token);
    r.append(".png");
    r
}

/// A staged payload: the decoded bytes and the temporary path they are to
/// be written to.
pub struct StagedFile {
    pub path: String,
    pub bytes: Vec<u8>,
}

/// The staging area: records, as plain data, which temporary paths are live
/// (staged and not yet released). The surrounding application creates and
/// deletes the actual files exactly where this record says to.
pub struct Stager {
    live: Vec<String>,
}

impl Stager {
    /// Whether a staged file at `path` is live.
    pub closed spec fn is_live(self, path: Seq<char>) -> bool {
        has_str(self.live@, path)
    }

    /// A staging area with nothing staged.
    pub fn new() -> (r: Stager)
        ensures
            forall|p: Seq<char>| !r.is_live(p),
    {
        Stager { live: Vec::new() }
    }

    /// Whether a staged file at `path` is live.
    pub fn is_staged(&self, path: &str) -> (r: bool)
        ensures
            r == self.is_live(path@),
    {
        let i = find_line(&self.live, path);
        proof {
            crate::strutil::lemma_find_path(self.live@, path@);
        }
        i < self.live.len()
    }

    /// Decodes a base64 payload and stages it under the temporary name
    /// derived from `token`; a malformed payload is rejected as a decode
    /// failure and nothing is staged.
    pub fn stage_image(&mut self, payload: &str, token: &str) -> (r: Result<StagedFile, OcrResult>)
        ensures
            match r {
                Ok(f) => {
                    &&& base64_decode_of(payload@) == Some(f.bytes@)
                    &&& f.path@ == temp_name_spec(token@)
                    &&& final(self).is_live(f.path@)
                    &&& forall|p: Seq<char>|
                        p != f.path@ ==> final(self).is_live(p) == old(self).is_live(p)
                },
                Err(res) => {
                    &&& base64_decode_of(payload@) is None
                    &&& res.wf()
                    &&& !res.success
                    &&& exists|d: Seq<char>|
                        res.error_message->0@ == crate::results::failure_message(
                            FailureKind::DecodeError,
                            d,
                        )
                    &&& *final(self) == *old(self)
                },
            },
    {
        match crate::shims::decode_base64(payload) {
            Ok(bytes) => {
                let path = temp_file_name(token);
                let staged = StagedFile { path: path.clone(), bytes };
                self.mark_live(path);
                Ok(staged)
            },
            Err(detail) => Err(OcrResult::failure(FailureKind::DecodeError, detail.as_str())),
        }
    }

    /// Stages a payload under a freshly minted unique token.
    pub fn stage_image_fresh(&mut self, payload: &str) -> (r: Result<StagedFile, OcrResult>)
        ensures
            match r {
                Ok(f) => {
                    &&& base64_decode_of(payload@) == Some(f.bytes@)
                    &&& final(self).is_live(f.path@)
                    &&& forall|p: Seq<char>|
                        p != f.path@ ==> final(self).is_live(p) == old(self).is_live(p)
                },
                Err(res) => {
                    &&& base64_decode_of(payload@) is None
                    &&& res.wf()
                    &&& !res.success
                    &&& *final(self) == *old(self)
                },
            },
    {
        let token = crate::shims::fresh_id();
        self.stage_image(payload, token.as_str())
    }

    /// Records `path` as live.
    fn mark_live(&mut self, path: String)
        ensures
            final(self).is_live(path@),
            forall|p: Seq<char>| p != path@ ==> final(self).is_live(p) == old(self).is_live(p),
    {
        let i = find_line(&self.live, path.as_str());
        proof {
            crate::strutil::lemma_find_path(self.live@, path@);
        }
        if i == self.live.len() {
            self.live.push(path);
            proof {
                let post = self.live@;
                let pre = old(self).live@;
                assert(post[post.len() - 1]@ == path@);
                assert forall|p: Seq<char>|
                    p != path@ implies has_str(post, p) == has_str(pre, p) by {
                    if has_str(post, p) {
                        let w = choose|w: int| 0 <= w < post.len() && post[w]@ == p;
                        assert(w < pre.len() && pre[w]@ == p);
                    }
                    if has_str(pre, p) {
                        let w = choose|w: int| 0 <= w < pre.len() && pre[w]@ == p;
                        assert(post[w]@ == p);
                    }
                }
            }
        }
    }

    /// Releases the staged file at `path`: afterwards nothing is live there.
    /// Releasing a path that is not live is harmless.
    pub fn release(&mut self, path: &str)
        ensures
            !final(self).is_live(path@),
            forall|p: Seq<char>| p != path@ ==> final(self).is_live(p) == old(self).is_live(p),
    {
        loop
            invariant
                forall|p: Seq<char>|
                    p != path@ ==> has_str(self.live@, p) == has_str(old(self).live@, p),
            ensures
                !has_str(self.live@, path@),
                forall|p: Seq<char>|
                    p != path@ ==> has_str(self.live@, p) == has_str(old(self).live@, p),
            decreases self.live@.len(),
        {
            let i = find_line(&self.live, path);
            proof {
                crate::strutil::lemma_find_path(self.live@, path@);
            }
            if i == self.live.len() {
                proof {
                    assert(!has_str(self.live@, path@));
                }
                break;
            }
            let ghost before = self.live@;
            self.live.remove(i);
            proof {
                assert(before[i as int]@ == path@);
                assert forall|p: Seq<char>|
                    p != path@ implies has_str(self.live@, p) == has_str(before, p) by {
                    if has_str(self.live@, p) {
                        let w = choose|w: int| 0 <= w < self.live@.len() && self.live@[w]@ == p;
                        if w < i {
                            assert(before[w]@ == p);
                        } else {
                            assert(before[w + 1]@ == p);
                        }
                    }
                    if has_str(before, p) {
                        let w = choose|w: int| 0 <= w < before.len() && before[w]@ == p;
                        if w < i {
                            assert(self.live@[w]@ == p);
                        } else if w > i {
                            assert(self.live@[w - 1]@ == p);
                        }
                    }
                }
            }
        }
    }
}

} // verus!
