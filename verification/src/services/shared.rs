use vstd::prelude::*;

use crate::text::{append_str, dec_int, push_dec_i64, string_from_chars};

verus! {

/// Payload of a log line sent to the front end.
pub struct LogPayload {
    /// Local time, `%Y-%m-%d %H:%M:%S`.
    pub timestamp: String,
    /// The text of the line.
    pub message: String,
    /// `"info"`, `"warn"` or `"error"`.
    pub level: String,
}

/// The local time as `%Y-%m-%d %H:%M:%S`, through `chrono::Local::now`
/// and `DelayedFormat::to_string`. It reads the clock and the machine's time
/// zone, so nothing is stated of the text it gives.
#[verifier::external_body]
pub fn now_str() -> String {
    chrono::Local::now().format("%Y-%m-%d %H:%M:%S").to_string()
}

impl LogPayload {
    /// A log line of the given level and text, stamped with the current
    /// local time.
    pub fn new(level: &str, message: String) -> (p: LogPayload)
        ensures
            p.level@ == level@,
            p.message@ == message@,
    {
        LogPayload { timestamp: now_str(), message, level: level.to_string() }
    }
}

/// What `Path::parent` gives for a path, as text.
pub uninterp spec fn path_parent_spec(path: Seq<char>) -> Option<Seq<char>>;

/// What `Path::file_stem` gives for a path, as text.
pub uninterp spec fn path_file_stem_spec(path: Seq<char>) -> Option<Seq<char>>;

/// What `Path::extension` gives for a path, as text.
pub uninterp spec fn path_extension_spec(path: Seq<char>) -> Option<Seq<char>>;

/// What `Path::join` gives for a base path and a file name, as text.
pub uninterp spec fn path_join_spec(base: Seq<char>, name: Seq<char>) -> Seq<char>;

/// `Path::exists` on the path. It asks the file system, so nothing is stated
/// of the answer.
#[verifier::external_body]
fn path_exists(path: &str) -> bool {
    std::path::Path::new(path).exists()
}

/// `Path::parent` of the path, converted back to text. The parent of a path
/// given as UTF-8 text is a prefix of it and so is UTF-8 too.
#[verifier::external_body]
fn path_parent(path: &str) -> (r: Option<String>)
    ensures
        match r {
            Some(p) => path_parent_spec(path@) == Some(p@),
            None => path_parent_spec(path@) is None,
        },
{
    std::path::Path::new(path).parent().and_then(|p| p.to_str()).map(|p| p.to_string())
}

/// `Path::file_stem` of the path, converted to text.
#[verifier::external_body]
fn path_file_stem(path: &str) -> (r: Option<String>)
    ensures
        match r {
            Some(p) => path_file_stem_spec(path@) == Some(p@),
            None => path_file_stem_spec(path@) is None,
        },
{
    std::path::Path::new(path).file_stem().and_then(|p| p.to_str()).map(|p| p.to_string())
}

/// `Path::extension` of the path, converted to text.
#[verifier::external_body]
fn path_extension(path: &str) -> (r: Option<String>)
    ensures
        match r {
            Some(p) => path_extension_spec(path@) == Some(p@),
            None => path_extension_spec(path@) is None,
        },
{
    std::path::Path::new(path).extension().and_then(|p| p.to_str()).map(|p| p.to_string())
}

/// `Path::join` of a base path and a file name, converted to text.
#[verifier::external_body]
fn path_join(base: &str, name: &str) -> (r: String)
    ensures
        r@ == path_join_spec(base@, name@),
{
    std::path::Path::new(base).join(name).to_string_lossy().into_owned()
}

/// The `i`-th alternative to `path`: `{stem}_{i}.{ext}` in the same
/// directory, where a missing directory is `.`, a missing stem `output` and a
/// missing extension `jpg`.
pub open spec fn unique_candidate(path: Seq<char>, i: int) -> Seq<char> {
    let parent = match path_parent_spec(path) {
        Some(p) => p,
        None => "."@,
    };
    let stem = match path_file_stem_spec(path) {
        Some(s) => s,
        None => "output"@,
    };
    let ext = match path_extension_spec(path) {
        Some(e) => e,
        None => "jpg"@,
    };
    path_join_spec(parent, stem + "_"@ + dec_int(i) + "."@ + ext)
}

/// Builds the `i`-th alternative name for `path` (see `unique_candidate`).
pub fn candidate_path(path: &str, i: i32) -> (r: String)
    ensures
        r@ == unique_candidate(path@, i as int),
{
    let parent = match path_parent(path) {
        Some(p) => p,
        None => ".".to_string(),
    };
    let stem = match path_file_stem(path) {
        Some(s) => s,
        None => "output".to_string(),
    };
    let ext = match path_extension(path) {
        Some(e) => e,
        None => "jpg".to_string(),
    };
    proof {
        reveal_strlit(".");
        reveal_strlit("output");
        reveal_strlit("jpg");
    }
    let mut name: Vec<char> = Vec::new();
    append_str(&mut name, stem.as_str());
    append_str(&mut name, "_");
    push_dec_i64(&mut name, i as i64);
    append_str(&mut name, ".");
    append_str(&mut name, ext.as_str());
    let name = string_from_chars(&name);
    path_join(parent.as_str(), name.as_str())
}

/// The `i`-th path tried for `path`: the path itself first, then its
/// alternatives `{stem}_1.{ext}`, `{stem}_2.{ext}`, ...
pub open spec fn tried_path(path: Seq<char>, i: int) -> Seq<char> {
    if i == 0 {
        path
    } else {
        unique_candidate(path, i)
    }
}

/// `r` is the first path that was found free, `taken[i]` telling whether
/// the `i`-th path tried (`tried_path`) exists.
pub open spec fn first_free_path(path: Seq<char>, taken: Seq<bool>, r: Seq<char>) -> bool {
    exists|i: int|
        0 <= i < taken.len() && !taken[i] && (forall|j: int| 0 <= j < i ==> #[trigger] taken[j]) && r
            == #[trigger] tried_path(path, i)
}

/// Picks the path to save under from the answers to "does it exist" for
/// the paths tried so far (`taken[i]` for `tried_path(path, i)`): the first
/// one found free, or `None` while every one tried is taken.
pub fn pick_unique_path(path: &str, taken: &Vec<bool>) -> (r: Option<String>)
    requires
        taken@.len() <= i32::MAX + 1,
    ensures
        match r {
            Some(p) => first_free_path(path@, taken@, p@),
            None => forall|i: int| 0 <= i < taken@.len() ==> #[trigger] taken@[i],
        },
{
    let mut i: usize = 0;
    while i < taken.len()
        invariant
            i <= taken@.len() <= i32::MAX + 1,
            forall|j: int| 0 <= j < i ==> #[trigger] taken@[j],
        decreases taken.len() - i,
    {
        if !taken[i] {
            let p = if i == 0 {
                path.to_string()
            } else {
                candidate_path(path, i as i32)
            };
            assert(p@ == tried_path(path@, i as int));
            return Some(p);
        }
        i = i + 1;
    }
    None
}

/// `b` is an answer that `is_taken` gave when asked about `tried_path(path, i)`.
pub open spec fn answer_at<F: Fn(&str) -> bool>(is_taken: F, path: Seq<char>, i: int, b: bool) -> bool {
    exists|p: &str| p@ == tried_path(path, i) && #[trigger] call_ensures(is_taken, (p,), b)
}

/// Every answer in `answers` came from asking `is_taken` about the path tried
/// at its position: `answers[i]` is what `is_taken` returned for
/// `tried_path(path, i)`.
pub open spec fn answers_from<F: Fn(&str) -> bool>(is_taken: F, path: Seq<char>, answers: Seq<bool>) -> bool {
    forall|i: int| 0 <= i < answers.len() ==> #[trigger] answer_at(is_taken, path, i, answers[i])
}

/// What a search for a free path may give back, given the answers it got:
/// the first path found free, or, when every path up to the alternative
/// `i32::MAX` was reported taken, that last alternative.
pub open spec fn resolved_from(path: Seq<char>, answers: Seq<bool>, r: Seq<char>) -> bool {
    first_free_path(path, answers, r) || (answers.len() == i32::MAX + 1 && (forall|i: int|
        0 <= i < answers.len() ==> #[trigger] answers[i]) && r == unique_candidate(path, i32::MAX as int))
}

/// A search for a free path settles on the first path reported free: when
/// the `k`-th path tried was reported free and every one before it taken, the
/// result is that `k`-th path, whatever was asked after it.
pub proof fn lemma_resolved_is_first_reported_free(path: Seq<char>, answers: Seq<bool>, r: Seq<char>, k: int)
    requires
        resolved_from(path, answers, r),
        0 <= k < answers.len(),
        !answers[k],
        forall|j: int| 0 <= j < k ==> answers[j],
    ensures
        r == tried_path(path, k),
{
    let i = choose|i: int|
        0 <= i < answers.len() && !answers[i] && (forall|j: int| 0 <= j < i ==> #[trigger] answers[j]) && r
            == #[trigger] tried_path(path, i);
    if i < k {
        assert(answers[i]);
    } else if k < i {
        assert(answers[k]);
    }
}

/// A search whose every answer was "taken" has asked about every path up
/// to the alternative `i32::MAX`, and gives that last alternative.
pub proof fn lemma_resolved_when_all_taken(path: Seq<char>, answers: Seq<bool>, r: Seq<char>)
    requires
        resolved_from(path, answers, r),
        forall|j: int| 0 <= j < answers.len() ==> answers[j],
    ensures
        answers.len() == i32::MAX + 1,
        r == unique_candidate(path, i32::MAX as int),
{
}

/// `path` itself if `is_taken` reports it free, otherwise the first of
/// `{stem}_1.{ext}`, `{stem}_2.{ext}`, ... that `is_taken` reports free. The
/// paths are asked about in that order, each once, and `pick_unique_path`
/// decides from the answers; should every alternative up to `i32::MAX` be
/// reported taken, the last one is returned. The result is stated over the
/// answers that `is_taken` actually gave.
pub fn resolve_unique_path_with<F: Fn(&str) -> bool>(path: &str, is_taken: &F) -> (r: String)
    requires
        forall|p: &str| is_taken.requires((p,)),
    ensures
        exists|answers: Seq<bool>| answers_from(*is_taken, path@, answers) && resolved_from(path@, answers, r@),
{
    let mut taken: Vec<bool> = Vec::new();
    loop
        invariant
            forall|p: &str| is_taken.requires((p,)),
            taken@.len() <= i32::MAX,
            forall|i: int| 0 <= i < taken@.len() ==> #[trigger] taken@[i],
            answers_from(*is_taken, path@, taken@),
        decreases i32::MAX - taken@.len(),
    {
        let n = taken.len();
        let tried = if n == 0 {
            path.to_string()
        } else {
            candidate_path(path, n as i32)
        };
        let asked: &str = tried.as_str();
        let answer = is_taken(asked);
        proof {
            assert(asked@ == tried_path(path@, n as int));
        }
        let ghost before = taken@;
        taken.push(answer);
        assert(answers_from(*is_taken, path@, taken@)) by {
            assert forall|i: int| 0 <= i < taken@.len() implies #[trigger] answer_at(
                *is_taken,
                path@,
                i,
                taken@[i],
            ) by {
                if i < n {
                    assert(taken@[i] == before[i]);
                    assert(answer_at(*is_taken, path@, i, before[i]));
                } else {
                    assert(asked@ == tried_path(path@, i) && call_ensures(*is_taken, (asked,), taken@[i]));
                }
            }
        }
        match pick_unique_path(path, &taken) {
            Some(p) => {
                return p;
            },
            None => {
                if n as u64 == i32::MAX as u64 {
                    assert(tried@ == unique_candidate(path@, i32::MAX as int));
                    return tried;
                }
            },
        }
    }
}

/// Each of `answers` is what `Path::exists` gave, asked about the path tried
/// at its position (see `answers_from`).
pub closed spec fn answered_by_file_system(path: Seq<char>, answers: Seq<bool>) -> bool {
    answers_from(path_exists, path, answers)
}

/// `path` itself if nothing exists there, otherwise the first of
/// `{stem}_1.{ext}`, `{stem}_2.{ext}`, ... that does not exist yet, so that a
/// saved file never replaces an earlier one. Each path is asked about once,
/// through `Path::exists`, and the result is stated over the answers that
/// the file system gave at the moment it was asked.
pub fn resolve_unique_path(path: &str) -> (r: String)
    ensures
        exists|answers: Seq<bool>| answered_by_file_system(path@, answers) && resolved_from(path@, answers, r@),
{
    let r = resolve_unique_path_with(path, &path_exists);
    proof {
        let answers = choose|answers: Seq<bool>|
            answers_from(path_exists, path@, answers) && resolved_from(path@, answers, r@);
        assert(answered_by_file_system(path@, answers));
    }
    r
}

} // verus!
