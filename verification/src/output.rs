use vstd::prelude::*;
use vstd::string::*;

use crate::skill_tool::SKILL_TOOL_TIMEOUT_SECS;
use crate::text::{decimal, decimal_chars, string_from_chars};

verus! {

/// Bytes of standard output kept in a result.
pub const MAX_OUTPUT_BYTES: usize = 1_048_576;

/// What a tool call gives back.
pub struct ToolResult {
    pub success: bool,
    pub output: String,
    pub error: Option<String>,
}

/// A failed call with no output and the error `msg`.
pub open spec fn is_failure(r: ToolResult, msg: Seq<char>) -> bool {
    &&& !r.success
    &&& r.output@.len() == 0
    &&& r.error matches Some(e) && e@ == msg
}

pub(crate) fn failure(msg: String) -> (r: ToolResult)
    ensures
        is_failure(r, msg@),
{
    ToolResult { success: false, output: String::new(), error: Some(msg) }
}

/// `prefix` followed by `rest`.
pub(crate) fn joined(prefix: &str, rest: &str) -> (r: String)
    ensures
        r@ == prefix@ + rest@,
{
    let mut s = prefix.to_owned();
    s.append(rest);
    s
}

/// What came of building and running a command.
pub enum RunOutcome {
    /// The runtime could not build the command, for this reason.
    BuildFailed(String),
    /// The command ran to its end.
    Completed { stdout: Vec<u8>, stderr: Vec<u8>, success: bool },
    /// Starting or waiting for the command failed, for this reason.
    Failed(String),
    /// The command ran past the time limit.
    TimedOut,
}

/// The note put after standard output that was cut.
pub open spec fn truncation_note() -> Seq<char> {
    "\n... [output truncated]"@
}

/// The bytes of `s` in UTF-8.
pub open spec fn utf8_len(s: Seq<char>) -> nat {
    vstd::utf8::encode_utf8(s).len()
}

/// Whether cutting `s` to `MAX_OUTPUT_BYTES` bytes splits no character
/// (always so where `s` is no longer than that).
pub open spec fn cut_is_clean(s: Seq<char>) -> bool {
    utf8_len(s) <= MAX_OUTPUT_BYTES || vstd::utf8::is_char_boundary(
        vstd::utf8::encode_utf8(s),
        MAX_OUTPUT_BYTES as int,
    )
}

/// Standard output as a result holds it: unchanged up to `MAX_OUTPUT_BYTES`
/// bytes; past that, its first `MAX_OUTPUT_BYTES` bytes and the note.
pub open spec fn shaped_output(s: Seq<char>) -> Seq<char> {
    if utf8_len(s) <= MAX_OUTPUT_BYTES {
        s
    } else {
        vstd::utf8::decode_utf8(vstd::utf8::encode_utf8(s).take(MAX_OUTPUT_BYTES as int))
            + truncation_note()
    }
}

/// What `String::from_utf8_lossy` makes of some bytes.
pub uninterp spec fn utf8_lossy(bytes: Seq<u8>) -> Seq<char>;

/// Trusted: `String::from_utf8_lossy`, which decodes UTF-8 and puts U+FFFD
/// in place of each invalid sequence; its result is named `utf8_lossy`, and
/// on valid UTF-8 it is the decoded text.
#[verifier::external_body]
fn decode_lossy(bytes: &[u8]) -> (s: String)
    ensures
        s@ == utf8_lossy(bytes@),
        vstd::utf8::valid_utf8(bytes@) ==> s@ == vstd::utf8::decode_utf8(bytes@),
{
    String::from_utf8_lossy(bytes).into_owned()
}

/// Standard output cut to `MAX_OUTPUT_BYTES` bytes as `shaped_output` says;
/// the cut must split no character.
pub fn shape_stdout(out: String) -> (r: String)
    requires
        cut_is_clean(out@),
    ensures
        r@ == shaped_output(out@),
        utf8_len(r@) <= MAX_OUTPUT_BYTES + utf8_len(truncation_note()),
{
    broadcast use vstd::utf8::encode_utf8_valid_utf8, vstd::utf8::encode_utf8_decode_utf8;

    if out.as_str().as_bytes().len() > MAX_OUTPUT_BYTES {
        let (head, _) = out.as_str().split_at(MAX_OUTPUT_BYTES);
        let r = joined(head, "\n... [output truncated]");
        proof {
            assert(head.spec_bytes() =~= vstd::utf8::encode_utf8(out@).take(MAX_OUTPUT_BYTES as int));
            assert(vstd::utf8::decode_utf8(vstd::utf8::encode_utf8(head@)) == head@);
            lemma_utf8_len_concat(head@, truncation_note());
        }
        r
    } else {
        out
    }
}

/// The UTF-8 length of two texts put together is the sum of theirs.
pub proof fn lemma_utf8_len_concat(a: Seq<char>, b: Seq<char>)
    ensures
        vstd::utf8::encode_utf8(a + b) == vstd::utf8::encode_utf8(a) + vstd::utf8::encode_utf8(b),
        utf8_len(a + b) == utf8_len(a) + utf8_len(b),
    decreases a.len(),
{
    if a.len() == 0 {
        assert(a + b =~= b);
        assert(vstd::utf8::encode_utf8(a) =~= Seq::<u8>::empty());
        assert(vstd::utf8::encode_utf8(a) + vstd::utf8::encode_utf8(b) =~= vstd::utf8::encode_utf8(b));
    } else {
        lemma_utf8_len_concat(a.drop_first(), b);
        assert((a + b).drop_first() =~= a.drop_first() + b);
        assert((a + b)[0] == a[0]);
        assert(vstd::utf8::encode_utf8(a + b) =~= vstd::utf8::encode_scalar(a[0] as u32)
            + (vstd::utf8::encode_utf8(a.drop_first()) + vstd::utf8::encode_utf8(b)));
    }
}

/// The message of a command that the runtime could not build.
pub open spec fn build_failed_message(reason: Seq<char>) -> Seq<char> {
    "Failed to build command: "@ + reason
}

/// The message of a command that could not be started or waited for.
pub open spec fn execution_failed_message(reason: Seq<char>) -> Seq<char> {
    "Execution failed: "@ + reason
}

/// The message of a command that ran past the time limit.
pub open spec fn timeout_message() -> Seq<char> {
    "Timed out after "@ + decimal(SKILL_TOOL_TIMEOUT_SECS as nat) + "s"@
}

/// The result of a command that ran to its end, or `None` where cutting its
/// standard output to `MAX_OUTPUT_BYTES` bytes would split a character.
pub fn completed_result(stdout: &[u8], stderr: &[u8], success: bool) -> (r: Option<ToolResult>)
    ensures
        !cut_is_clean(utf8_lossy(stdout@)) ==> r is None,
        cut_is_clean(utf8_lossy(stdout@)) ==> (r matches Some(res) && res.success == success
            && res.output@ == shaped_output(utf8_lossy(stdout@)) && (if utf8_lossy(stderr@).len()
            == 0 {
            res.error is None
        } else {
            res.error matches Some(e) && e@ == utf8_lossy(stderr@)
        })),
{
    broadcast use vstd::utf8::encode_utf8_valid_utf8;

    let out = decode_lossy(stdout);
    let err = decode_lossy(stderr);
    if out.as_str().as_bytes().len() > MAX_OUTPUT_BYTES && !out.as_str().is_char_boundary(
        MAX_OUTPUT_BYTES,
    ) {
        return None;
    }
    let output = shape_stdout(out);
    let error = if err.as_str().is_empty() {
        None
    } else {
        Some(err)
    };
    Some(ToolResult { success, output, error })
}

/// The result of a call from what came of running its command, or `None`
/// where cutting the standard output to `MAX_OUTPUT_BYTES` bytes would
/// split a character.
pub fn on_outcome(outcome: RunOutcome) -> (r: Option<ToolResult>)
    ensures
        outcome matches RunOutcome::BuildFailed(e) ==> (r matches Some(res) && is_failure(
            res,
            build_failed_message(e@),
        )),
        outcome matches RunOutcome::Failed(e) ==> (r matches Some(res) && is_failure(
            res,
            execution_failed_message(e@),
        )),
        outcome matches RunOutcome::TimedOut ==> (r matches Some(res) && is_failure(
            res,
            timeout_message(),
        )),
        outcome matches RunOutcome::Completed { stdout, stderr, success } ==> {
            &&& !cut_is_clean(utf8_lossy(stdout@)) ==> r is None
            &&& cut_is_clean(utf8_lossy(stdout@)) ==> (r matches Some(res) && res.success
                == success && res.output@ == shaped_output(utf8_lossy(stdout@)) && (if utf8_lossy(
                stderr@,
            ).len() == 0 {
                res.error is None
            } else {
                res.error matches Some(e) && e@ == utf8_lossy(stderr@)
            }))
        },
{
    match outcome {
        RunOutcome::BuildFailed(e) => Some(failure(joined("Failed to build command: ", e.as_str()))),
        RunOutcome::Failed(e) => Some(failure(joined("Execution failed: ", e.as_str()))),
        RunOutcome::TimedOut => {
            let secs = decimal_chars(SKILL_TOOL_TIMEOUT_SECS as usize);
            let secs = string_from_chars(&secs);
            let mut msg = joined("Timed out after ", secs.as_str());
            msg.append("s");
            Some(failure(msg))
        },
        RunOutcome::Completed { stdout, stderr, success } => completed_result(
            stdout.as_slice(),
            stderr.as_slice(),
            success,
        ),
    }
}


/// Standard output that fits in `MAX_OUTPUT_BYTES` bytes is kept whole;
/// longer output keeps exactly its first `MAX_OUTPUT_BYTES` bytes, followed
/// by the truncation note, so what a result holds never passes that cap by
/// more than the note.
pub proof fn law_output_cap(s: Seq<char>)
    requires
        cut_is_clean(s),
    ensures
        utf8_len(s) <= MAX_OUTPUT_BYTES ==> shaped_output(s) == s,
        utf8_len(s) > MAX_OUTPUT_BYTES ==> vstd::utf8::encode_utf8(shaped_output(s))
            == vstd::utf8::encode_utf8(s).take(MAX_OUTPUT_BYTES as int) + vstd::utf8::encode_utf8(
            truncation_note(),
        ),
        utf8_len(shaped_output(s)) <= MAX_OUTPUT_BYTES + utf8_len(truncation_note()),
{
    broadcast use vstd::utf8::encode_utf8_valid_utf8;

    if utf8_len(s) > MAX_OUTPUT_BYTES {
        let bytes = vstd::utf8::encode_utf8(s);
        let head = bytes.take(MAX_OUTPUT_BYTES as int);
        assert(head =~= bytes.subrange(0, MAX_OUTPUT_BYTES as int));
        vstd::utf8::valid_utf8_split(bytes, MAX_OUTPUT_BYTES as int);
        vstd::utf8::decode_utf8_encode_utf8(head);
        lemma_utf8_len_concat(vstd::utf8::decode_utf8(head), truncation_note());
    }
}

} // verus!

verus! {

/// A result is refused only where the cut at `MAX_OUTPUT_BYTES` falls
/// inside a character: output that fits, or whose cut falls on a character
/// boundary, is always cut cleanly, however long it is.
pub proof fn law_clean_cut_exactly_at_boundaries(s: Seq<char>)
    ensures
        cut_is_clean(s) <==> (utf8_len(s) <= MAX_OUTPUT_BYTES || vstd::utf8::is_char_boundary(
            vstd::utf8::encode_utf8(s),
            MAX_OUTPUT_BYTES as int,
        )),
{
}

/// ASCII output of any length is always cut cleanly.
pub proof fn law_ascii_output_cut_cleanly(s: Seq<char>)
    requires
        vstd::utf8::is_ascii_chars(s),
    ensures
        cut_is_clean(s),
{
    broadcast use vstd::utf8::encode_utf8_valid_utf8;

    let bytes = vstd::utf8::encode_utf8(s);
    vstd::utf8::is_ascii_chars_encode_utf8(s);
    if utf8_len(s) > MAX_OUTPUT_BYTES {
        let k = MAX_OUTPUT_BYTES as int;
        assert(s[k] as u8 == bytes[k]);
        assert('\0' <= s[k] <= '\u{7f}');
        assert((s[k] as u32) < 128);
        assert(bytes[k] < 128);
        vstd::utf8::is_char_boundary_iff_not_is_continuation_byte(bytes, k);
        assert(!vstd::utf8::is_continuation_byte(bytes[k]));
    }
}

} // verus!
