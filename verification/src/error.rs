//! One error type for the whole engine, and the texts that it shows.

use vstd::prelude::*;

use crate::text;

verus! {

/// What sort of thing the decoding library reports. "Again" and "end of file"
/// are normal control flow in a decode loop and are kept apart from failures.
#[derive(Debug, Clone, Copy, PartialEq, Eq, Structural)]
pub enum FaultKind {
    Again,
    Eof,
    Other,
}

/// What the decoding library reports, with its own words for it.
#[derive(Debug)]
pub struct Fault {
    pub kind: FaultKind,
    pub message: String,
}

#[derive(Debug)]
pub enum Error {
    Ffmpeg(Fault),
    Open { path: String, source: Fault },
    NoPlayableStream(String),
    NoAudioDevice,
    AudioStream(String),
    EngineGone,
}

/// The decoder needs more input before it can hand back a frame.
pub fn is_again(e: &Fault) -> (r: bool)
    ensures
        r == (e.kind is Again),
{
    match e.kind {
        FaultKind::Again => true,
        _ => false,
    }
}

/// The decoder is drained.
pub fn is_eof(e: &Fault) -> (r: bool)
    ensures
        r == (e.kind is Eof),
{
    match e.kind {
        FaultKind::Eof => true,
        _ => false,
    }
}

/// Every fault ends a round of receiving frames, but only a failure is worth
/// a line in the log.
pub fn worth_logging(e: &Fault) -> (r: bool)
    ensures
        r == (e.kind is Other),
{
    !is_again(e) && !is_eof(e)
}

impl Error {
    /// What the viewer or the log is told.
    pub open spec fn text(self) -> Seq<char> {
        match self {
            Error::Ffmpeg(fault) => "ffmpeg: "@ + fault.message@,
            Error::Open { path, source } => "cannot open "@ + path@ + ": "@ + source.message@,
            Error::NoPlayableStream(path) => path@ + " has no stream this player can decode"@,
            Error::NoAudioDevice => "no audio output device"@,
            Error::AudioStream(message) => "audio device rejected the stream: "@ + message@,
            Error::EngineGone => "the playback engine stopped"@,
        }
    }

    pub fn message(&self) -> (r: String)
        ensures
            r@ == self.text(),
    {
        let mut out: Vec<char> = Vec::new();
        match self {
            Error::Ffmpeg(fault) => {
                text::append_str(&mut out, "ffmpeg: ");
                text::append_str(&mut out, fault.message.as_str());
            },
            Error::Open { path, source } => {
                text::append_str(&mut out, "cannot open ");
                text::append_str(&mut out, path.as_str());
                text::append_str(&mut out, ": ");
                text::append_str(&mut out, source.message.as_str());
            },
            Error::NoPlayableStream(path) => {
                text::append_str(&mut out, path.as_str());
                text::append_str(&mut out, " has no stream this player can decode");
            },
            Error::NoAudioDevice => {
                text::append_str(&mut out, "no audio output device");
            },
            Error::AudioStream(message) => {
                text::append_str(&mut out, "audio device rejected the stream: ");
                text::append_str(&mut out, message.as_str());
            },
            Error::EngineGone => {
                text::append_str(&mut out, "the playback engine stopped");
            },
        }
        assert(out@ =~= self.text());
        text::string_of(&out)
    }
}

/// What is reported holds what went wrong: the file that it happened to, and
/// what the decoder or the device said.
pub proof fn an_error_says_what_went_wrong(e: Error)
    ensures
        e matches Error::Open { path, source } ==> e.text() == "cannot open "@ + path@ + ": "@
            + source.message@,
        e matches Error::Ffmpeg(fault) ==> e.text() == "ffmpeg: "@ + fault.message@,
        e matches Error::NoPlayableStream(path) ==> e.text() == path@
            + " has no stream this player can decode"@,
        e matches Error::AudioStream(message) ==> e.text() == "audio device rejected the stream: "@
            + message@,
{
}

} // verus!
