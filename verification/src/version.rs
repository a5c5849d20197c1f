//! Whether ffmpeg is there, and which version it is.

use crate::error::Error;
use crate::text::first_line;
use vstd::prelude::*;

verus! {

/// What bytes read as UTF-8 say, where a replacement character stands for what is not UTF-8.
pub uninterp spec fn lossy_text(bytes: Seq<u8>) -> Seq<char>;

/// `String::from_utf8_lossy`: its result depends on the bytes alone, and is the text that they
/// encode where they are valid UTF-8. How many replacement characters stand for other bytes is
/// left open.
#[verifier::external_body]
fn from_utf8_lossy(bytes: &[u8]) -> (text: String)
    ensures
        text@ == lossy_text(bytes@),
        vstd::utf8::valid_utf8(bytes@) ==> text@ == vstd::utf8::decode_utf8(bytes@),
{
    String::from_utf8_lossy(bytes).into_owned()
}

/// The version that ffmpeg's output tells: its first line, or `unknown` where there is none.
pub open spec fn version_in(output: Seq<char>) -> Seq<char> {
    if crate::text::lines(output).len() == 0 {
        "unknown"@
    } else {
        crate::text::lines(output)[0]
    }
}

/// The version that ffmpeg's output tells.
pub fn version_line(output: &str) -> (version: String)
    ensures
        version@ == version_in(output@),
{
    match first_line(output) {
        Some(line) => line,
        None => "unknown".to_owned(),
    }
}

/// The error where ffmpeg could not be started, for the given reason.
pub fn not_found(why: &str) -> (error: Error)
    ensures
        error@ == crate::error::ErrorView::FFmpeg("ffmpeg not found: "@ + why@),
{
    let mut message = "ffmpeg not found: ".to_owned();
    message.append(why);
    Error::FFmpeg(message)
}

/// The version that ffmpeg told, given whether it ended with success and what it wrote.
pub fn check_version(success: bool, stdout: &[u8]) -> (version: Result<String, Error>)
    ensures
        match version {
            Ok(version) => success && version@ == version_in(lossy_text(stdout@)),
            Err(error) => !success && error@ == crate::error::ErrorView::FFmpeg(
                "ffmpeg version check failed"@,
            ),
        },
        success && vstd::utf8::valid_utf8(stdout@) ==> version is Ok && version->Ok_0@
            == version_in(vstd::utf8::decode_utf8(stdout@)),
{
    if !success {
        return Err(Error::FFmpeg("ffmpeg version check failed".to_owned()));
    }
    Ok(version_line(from_utf8_lossy(stdout).as_str()))
}

/// A version is told exactly when ffmpeg wrote anything; it never spans more than one line.
pub proof fn version_is_one_line(output: Seq<char>)
    ensures
        crate::text::lines(output).len() > 0 <==> output.len() > 0,
        forall|i: int| 0 <= i < version_in(output).len() ==> version_in(output)[i] != '\n',
{
    reveal_strlit("unknown");
    lemma_no_line_feed(output);
}

/// What comes before the end of the first line is no line feed.
proof fn lemma_no_line_feed(text: Seq<char>)
    ensures
        crate::text::line_length(text) <= text.len(),
        forall|i: int| 0 <= i < crate::text::line_length(text) ==> text[i] != '\n',
    decreases text.len(),
{
    if text.len() > 0 && text.first() != '\n' {
        let rest = text.drop_first();
        lemma_no_line_feed(rest);
        assert forall|i: int| 0 <= i < crate::text::line_length(text) implies text[i] != '\n' by {
            if i > 0 {
                assert(text[i] == rest[i - 1]);
            }
        }
    }
}

/// The version is the first line of what ffmpeg wrote, without its line end, whatever follows.
pub proof fn version_is_the_first_line(line: Seq<char>, rest: Seq<char>)
    requires
        forall|i: int| 0 <= i < line.len() ==> line[i] != '\n',
    ensures
        line.len() > 0 ==> version_in(line) == line,
        line.len() > 0 && line[line.len() - 1] == '\r' ==> version_in(line + seq!['\n'] + rest)
            == line.take(line.len() - 1),
        line.len() == 0 || line[line.len() - 1] != '\r' ==> version_in(line + seq!['\n'] + rest)
            == line,
        version_in(Seq::empty()) == "unknown"@,
{
    crate::text::the_last_line_needs_no_line_feed(line);
    crate::text::line_feeds_end_lines(line, rest);
}

} // verus!
