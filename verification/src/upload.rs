//! Shapes one multipart submission for a dispatched pair: three text
//! fields carrying the parsed metadata, and the two files' bytes tagged
//! with their part names and MIME types. The caller reads the files and
//! performs the single network call; no partial body exists — both files'
//! bytes are in hand before a request value can be built.

use vstd::prelude::*;

use crate::paths::file_name;
use crate::paths::file_name_of;
use crate::pipeline::UploadJob;

verus! {

/// One fully composed submission, built fresh per pair.
pub struct UploadRequest {
    /// Value of the `talkgroupId` text field.
    pub talkgroup_id: Vec<u8>,
    /// Value of the `timestamp` text field.
    pub timestamp: Vec<u8>,
    /// Value of the `radioId` text field.
    pub radio_id: Vec<u8>,
    /// File name reported for the audio part.
    pub mp3_name: Vec<u8>,
    /// Full contents of the audio file.
    pub mp3_bytes: Vec<u8>,
    /// File name reported for the transcript part.
    pub txt_name: Vec<u8>,
    /// Full contents of the transcript file.
    pub txt_bytes: Vec<u8>,
}

/// Composes the submission for one job from both files' bytes: the text
/// fields carry the job's metadata unchanged, each part is named after
/// its file, and the bytes go in whole — no streaming, no truncation.
pub fn build_upload_request(job: UploadJob, mp3_bytes: Vec<u8>, txt_bytes: Vec<u8>) -> (r:
    UploadRequest)
    ensures
        r.talkgroup_id@ == job.metadata.talkgroup_id@,
        r.timestamp@ == job.metadata.timestamp@,
        r.radio_id@ == job.metadata.radio_id@,
        r.mp3_name@ == file_name_of(job.pair.mp3_path@),
        r.txt_name@ == file_name_of(job.pair.txt_path@),
        r.mp3_bytes@ == mp3_bytes@,
        r.txt_bytes@ == txt_bytes@,
{
    let mp3_name = file_name(job.pair.mp3_path.as_slice());
    let txt_name = file_name(job.pair.txt_path.as_slice());
    UploadRequest {
        talkgroup_id: job.metadata.talkgroup_id,
        timestamp: job.metadata.timestamp,
        radio_id: job.metadata.radio_id,
        mp3_name,
        mp3_bytes,
        txt_name,
        txt_bytes,
    }
}

/// Name of the text field carrying the talkgroup id.
pub fn talkgroup_field() -> (r: &'static str)
    ensures
        r@ == "talkgroupId"@,
{
    "talkgroupId"
}

/// Name of the text field carrying the timestamp.
pub fn timestamp_field() -> (r: &'static str)
    ensures
        r@ == "timestamp"@,
{
    "timestamp"
}

/// Name of the text field carrying the radio id.
pub fn radio_field() -> (r: &'static str)
    ensures
        r@ == "radioId"@,
{
    "radioId"
}

/// Name of the audio file part.
pub fn mp3_part_name() -> (r: &'static str)
    ensures
        r@ == "mp3"@,
{
    "mp3"
}

/// Name of the transcript file part.
pub fn transcription_part_name() -> (r: &'static str)
    ensures
        r@ == "transcription"@,
{
    "transcription"
}

/// MIME type of the audio part.
pub fn mp3_mime_type() -> (r: &'static str)
    ensures
        r@ == "audio/mpeg"@,
{
    "audio/mpeg"
}

/// MIME type of the transcript part.
pub fn transcription_mime_type() -> (r: &'static str)
    ensures
        r@ == "text/plain"@,
{
    "text/plain"
}

} // verus!
