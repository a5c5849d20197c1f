//! What can go wrong when a video is compiled.

use vstd::prelude::*;

verus! {

/// Why there is no video.
#[derive(Debug)]
pub enum Error {
    VideoCompilation(String),
    FFmpeg(String),
    Cancelled,
}

/// An error, its message taken as a sequence of characters.
pub enum ErrorView {
    VideoCompilation(Seq<char>),
    FFmpeg(Seq<char>),
    Cancelled,
}

impl View for Error {
    type V = ErrorView;

    open spec fn view(&self) -> ErrorView {
        match *self {
            Error::VideoCompilation(message) => ErrorView::VideoCompilation(message@),
            Error::FFmpeg(message) => ErrorView::FFmpeg(message@),
            Error::Cancelled => ErrorView::Cancelled,
        }
    }
}

/// The view of an error keeps its sort and its message.
pub proof fn views_keep_the_errors(message: String)
    ensures
        Error::VideoCompilation(message)@ == ErrorView::VideoCompilation(message@),
        Error::FFmpeg(message)@ == ErrorView::FFmpeg(message@),
        Error::Cancelled@ == ErrorView::Cancelled,
{
}

} // verus!
