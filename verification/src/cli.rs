//! The commands of the command line, as values, and the values that the
//! library's decisions depend on.
use vstd::prelude::*;

use crate::text::str_eq;

verus! {

/// Which stream variant a download prefers.
#[derive(Debug, Clone, Copy, PartialEq, Eq, Structural)]
pub enum QualityPreference {
    AudioOnly,
    Lowest,
    Highest,
}

/// A parsed command line.
pub struct Cli {
    pub command: CliCommand,
}

/// One command of the command line with its options. `output_root` is the
/// directory that holds the artifact directories and `queues/`.
pub enum CliCommand {
    Download {
        video_link: String,
        auth_token: Option<String>,
        output_root: String,
        quality: QualityPreference,
        skip_metadata: bool,
    },
    Queue {
        channel: String,
        output_root: String,
        limit: usize,
        past_broadcasts_only: bool,
        min_seconds: u64,
    },
    QueueVideo { url: String, output_root: String },
    Process {
        channel: String,
        output_root: String,
        limit: usize,
        past_broadcasts_only: bool,
        min_seconds: u64,
        quality: QualityPreference,
        continue_on_error: bool,
    },
    Status { output_root: String },
    DownloadAll {
        channel: Option<String>,
        output_root: String,
        quality: QualityPreference,
        continue_on_error: bool,
        video_id: Option<String>,
    },
    TranscribeAll { output_root: String, continue_on_error: bool, video_id: Option<String> },
    Cleanup { output_root: String, delete: bool, delete_all: bool, video_id: Option<String> },
}

impl QualityPreference {
    /// Reads a `--quality` value: `audio-only`, `lowest` or `highest`; any
    /// other text means `audio-only`.
    pub fn parse(value: &str) -> (r: Self)
        ensures
            r == (if value@ == "lowest"@ {
                QualityPreference::Lowest
            } else if value@ == "highest"@ {
                QualityPreference::Highest
            } else {
                QualityPreference::AudioOnly
            }),
    {
        proof {
            reveal_strlit("audio-only");
            reveal_strlit("lowest");
            reveal_strlit("highest");
            assert("audio-only"@.len() != "lowest"@.len());
            assert("audio-only"@.len() != "highest"@.len());
        }
        if str_eq(value, "audio-only") {
            QualityPreference::AudioOnly
        } else if str_eq(value, "lowest") {
            QualityPreference::Lowest
        } else if str_eq(value, "highest") {
            QualityPreference::Highest
        } else {
            QualityPreference::AudioOnly
        }
    }
}

} // verus!
