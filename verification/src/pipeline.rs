//! Turns one filesystem change notification at a time into at most one
//! upload decision. A path enters the pipeline only if it is eligible,
//! both sidecar files of its stem exist, and the audio file's name parses;
//! a short-lived set of recently dispatched stems then collapses the two
//! notifications a pair normally produces — one per sidecar file — into a
//! single submission. The outcome of a submission never enters the state,
//! so one pair's failure cannot block another pair's decision.

use vstd::prelude::*;

use crate::filename::ParsedMetadata;
use crate::filename::parse_filename;
use crate::filename::spec_parse;
use crate::paths::eligible;
use crate::paths::extract_file_info;
use crate::paths::file_name;
use crate::paths::file_name_of;
use crate::paths::name_stem;
use crate::paths::parent_of;
use crate::paths::should_process_file;
use crate::paths::sibling_paths;
use crate::paths::stem_of;
use crate::paths::bytes_eq;
use crate::filename::to_literal_at;

verus! {

/// How many recently dispatched stems are retained. The set is a bounded
/// window, not a ledger: once a stem is pushed out, a fresh pair of
/// notifications for it would be dispatched again.
pub const RECENT_CAP: usize = 64;

/// The two sidecar paths of one physical pair, sharing a stem and parent.
pub struct FilePair {
    /// The media artifact, `<stem>.mp3`.
    pub mp3_path: Vec<u8>,
    /// The transcript, `<stem>.txt`.
    pub txt_path: Vec<u8>,
}

/// Everything the caller needs to submit one pair.
pub struct UploadJob {
    /// The resolved pair; both paths existed at resolution time.
    pub pair: FilePair,
    /// Metadata parsed from the audio file's name.
    pub metadata: ParsedMetadata,
}

/// What the pipeline decides for one changed path.
pub enum Action {
    /// Not ours to upload this time: ineligible, half a pair, an
    /// unparseable name, or a stem already dispatched recently.
    Skip,
    /// Submit this pair, exactly once per retained stem.
    Upload(UploadJob),
}

/// The stem a changed path stands for.
pub open spec fn upload_stem(path: Seq<u8>) -> Seq<u8> {
    stem_of(file_name_of(path))
}

/// A changed path denotes a complete, uploadable pair: it is eligible,
/// resolves to sibling paths, both siblings exist on disk, and the audio
/// file's name carries metadata.
pub open spec fn ready_pair(
    root: Seq<u8>,
    path: Seq<u8>,
    is_regular_file: bool,
    mp3_exists: bool,
    txt_exists: bool,
) -> bool {
    &&& eligible(path, root, is_regular_file)
    &&& sibling_paths(path) is Some
    &&& mp3_exists
    &&& txt_exists
    &&& spec_parse(file_name_of(sibling_paths(path).unwrap().0)) is Some
}

/// The pipeline dispatches an upload exactly when the path denotes a
/// complete pair whose stem was not dispatched recently.
pub open spec fn decides_upload(
    root: Seq<u8>,
    recent: Seq<Seq<u8>>,
    path: Seq<u8>,
    is_regular_file: bool,
    mp3_exists: bool,
    txt_exists: bool,
) -> bool {
    &&& ready_pair(root, path, is_regular_file, mp3_exists, txt_exists)
    &&& !recent.contains(upload_stem(path))
}

/// The retained stems after dispatching `stem`: appended, with the oldest
/// stem dropped once the window is full.
pub open spec fn record_stem(recent: Seq<Seq<u8>>, stem: Seq<u8>) -> Seq<Seq<u8>> {
    if recent.len() >= RECENT_CAP {
        recent.subrange(1, recent.len() as int).push(stem)
    } else {
        recent.push(stem)
    }
}

/// Resolves a candidate path to its pair. The caller reports whether each
/// expected sibling exists on disk at this moment; a pair is returned only
/// when both do. A missing sibling is the common, quiet outcome: the other
/// file's own notification, once it arrives, resolves the pair again.
pub fn resolve_pair(path: &[u8], mp3_exists: bool, txt_exists: bool) -> (r: Option<FilePair>)
    ensures
        r.is_some() == (sibling_paths(path@) is Some && mp3_exists && txt_exists),
        r matches Some(pair) ==> {
            &&& pair.mp3_path@ == sibling_paths(path@).unwrap().0
            &&& pair.txt_path@ == sibling_paths(path@).unwrap().1
        },
{
    match extract_file_info(path) {
        None => None,
        Some((mp3_path, txt_path)) => {
            if mp3_exists && txt_exists {
                Some(FilePair { mp3_path, txt_path })
            } else {
                None
            }
        },
    }
}

/// The per-notification decision state: the watched root and the window
/// of recently dispatched stems.
pub struct Pipeline {
    root: Vec<u8>,
    recent: Vec<Vec<u8>>,
}

impl Pipeline {
    /// The watched root this pipeline was created for.
    pub closed spec fn spec_root(self) -> Seq<u8> {
        self.root@
    }

    /// The stems dispatched recently, oldest first.
    pub closed spec fn spec_recent(self) -> Seq<Seq<u8>> {
        Seq::new(self.recent@.len(), |i: int| self.recent@[i]@)
    }

    /// A pipeline for `root` that has dispatched nothing yet.
    pub fn new(root: Vec<u8>) -> (p: Pipeline)
        ensures
            p.spec_root() == root@,
            p.spec_recent() == Seq::<Seq<u8>>::empty(),
    {
        let p = Pipeline { root, recent: Vec::new() };
        proof {
            assert(p.spec_recent() =~= Seq::<Seq<u8>>::empty());
        }
        p
    }

    /// Whether `stem` is retained in the window.
    fn contains_recent(&self, stem: &[u8]) -> (r: bool)
        ensures
            r == self.spec_recent().contains(stem@),
    {
        let mut k: usize = 0;
        while k < self.recent.len()
            invariant
                k <= self.recent@.len(),
                forall|m: int| 0 <= m < k ==> self.recent@[m]@ != stem@,
            decreases self.recent@.len() - k,
        {
            if bytes_eq(self.recent[k].as_slice(), stem) {
                proof {
                    assert(self.spec_recent()[k as int] == stem@);
                }
                return true;
            }
            k = k + 1;
        }
        proof {
            assert(forall|i: int|
                0 <= i < self.spec_recent().len() ==> self.spec_recent()[i] != stem@);
        }
        false
    }

    /// Retains `stem`, dropping the oldest stem once the window is full.
    fn record(&mut self, stem: Vec<u8>)
        ensures
            final(self).spec_root() == old(self).spec_root(),
            final(self).spec_recent() == record_stem(old(self).spec_recent(), stem@),
    {
        if self.recent.len() >= RECENT_CAP {
            self.recent.remove(0);
        }
        self.recent.push(stem);
        proof {
            assert(self.spec_recent() =~= record_stem(old(self).spec_recent(), stem@));
        }
    }

    /// Decides what to do for one changed path. The caller reports what
    /// only the filesystem knows: whether the path is currently a regular
    /// file, and whether each expected sibling exists. An upload is
    /// dispatched exactly when the path denotes a complete pair whose
    /// stem is not retained; the stem is then retained, so the second
    /// notification a pair normally produces is skipped.
    pub fn step(
        &mut self,
        path: &[u8],
        is_regular_file: bool,
        mp3_exists: bool,
        txt_exists: bool,
    ) -> (a: Action)
        ensures
            final(self).spec_root() == old(self).spec_root(),
            (a is Upload) == decides_upload(
                old(self).spec_root(),
                old(self).spec_recent(),
                path@,
                is_regular_file,
                mp3_exists,
                txt_exists,
            ),
            a matches Action::Upload(job) ==> {
                &&& job.pair.mp3_path@ == sibling_paths(path@).unwrap().0
                &&& job.pair.txt_path@ == sibling_paths(path@).unwrap().1
                &&& Some(
                    (job.metadata.timestamp@, job.metadata.talkgroup_id@, job.metadata.radio_id@),
                ) == spec_parse(file_name_of(sibling_paths(path@).unwrap().0))
                &&& final(self).spec_recent() == record_stem(
                    old(self).spec_recent(),
                    upload_stem(path@),
                )
            },
            a is Skip ==> final(self).spec_recent() == old(self).spec_recent(),
    {
        if !should_process_file(path, self.root.as_slice(), is_regular_file) {
            return Action::Skip;
        }
        let pair = match resolve_pair(path, mp3_exists, txt_exists) {
            None => {
                return Action::Skip;
            },
            Some(pair) => pair,
        };
        let mp3_name = file_name(pair.mp3_path.as_slice());
        let metadata = match parse_filename(mp3_name.as_slice()) {
            None => {
                return Action::Skip;
            },
            Some(m) => m,
        };
        let path_name = file_name(path);
        let stem = name_stem(path_name.as_slice());
        if self.contains_recent(stem.as_slice()) {
            return Action::Skip;
        }
        self.record(stem);
        Action::Upload(UploadJob { pair, metadata })
    }
}

/// A physical pair is dispatched at most once while its stem is retained:
/// once a path's pair is dispatched, a second notification for any path
/// of the same stem — the other sidecar file, or the same file again —
/// is skipped, whatever its own eligibility and existence reports say.
pub proof fn lemma_duplicate_trigger_collapsed(
    root: Seq<u8>,
    recent: Seq<Seq<u8>>,
    path1: Seq<u8>,
    path2: Seq<u8>,
    reg1: bool,
    mp31: bool,
    txt1: bool,
    reg2: bool,
    mp32: bool,
    txt2: bool,
)
    requires
        decides_upload(root, recent, path1, reg1, mp31, txt1),
        upload_stem(path1) == upload_stem(path2),
    ensures
        !decides_upload(
            root,
            record_stem(recent, upload_stem(path1)),
            path2,
            reg2,
            mp32,
            txt2,
        ),
{
    let stem = upload_stem(path1);
    let rec = record_stem(recent, stem);
    assert(rec[rec.len() - 1] == stem);
    assert(rec.contains(upload_stem(path2)));
}

/// One pair's dispatch — whatever came of the submission, which never
/// enters the state — does not block an independent pair: a path of a
/// different stem that denotes a complete, not-yet-dispatched pair is
/// still dispatched afterwards.
pub proof fn lemma_independent_pair_not_blocked(
    root: Seq<u8>,
    recent: Seq<Seq<u8>>,
    path1: Seq<u8>,
    path2: Seq<u8>,
    reg2: bool,
    mp32: bool,
    txt2: bool,
)
    requires
        decides_upload(root, recent, path2, reg2, mp32, txt2),
        upload_stem(path1) != upload_stem(path2),
    ensures
        decides_upload(
            root,
            record_stem(recent, upload_stem(path1)),
            path2,
            reg2,
            mp32,
            txt2,
        ),
{
    let stem1 = upload_stem(path1);
    let stem2 = upload_stem(path2);
    let rec = record_stem(recent, stem1);
    assert(!rec.contains(stem2)) by {
        if rec.contains(stem2) {
            let i = choose|i: int| 0 <= i < rec.len() && rec[i] == stem2;
            if i < rec.len() - 1 {
                if recent.len() >= RECENT_CAP {
                    assert(rec[i] == recent[i + 1]);
                    assert(recent.contains(stem2));
                } else {
                    assert(rec[i] == recent[i]);
                    assert(recent.contains(stem2));
                }
            }
        }
    }
}

/// A pair with a missing sibling is never dispatched: resolution demands
/// that both files exist at the moment of the check.
pub proof fn lemma_missing_sibling_blocks_upload(
    root: Seq<u8>,
    recent: Seq<Seq<u8>>,
    path: Seq<u8>,
    is_regular_file: bool,
    mp3_exists: bool,
    txt_exists: bool,
)
    requires
        !mp3_exists || !txt_exists,
    ensures
        !decides_upload(root, recent, path, is_regular_file, mp3_exists, txt_exists),
{
}

/// A path sitting directly in the watched root is never eligible and so
/// never dispatched, whatever kind of file it is.
pub proof fn lemma_root_level_path_never_eligible(
    root: Seq<u8>,
    recent: Seq<Seq<u8>>,
    path: Seq<u8>,
    is_regular_file: bool,
    mp3_exists: bool,
    txt_exists: bool,
)
    requires
        parent_of(path) == Some(root),
    ensures
        !eligible(path, root, is_regular_file),
        !decides_upload(root, recent, path, is_regular_file, mp3_exists, txt_exists),
{
}

/// A filename without the `__TO_` marker carries no metadata, so its pair
/// is never dispatched — even when both sidecar files exist on disk.
pub proof fn lemma_unparseable_name_blocks_upload(
    root: Seq<u8>,
    recent: Seq<Seq<u8>>,
    path: Seq<u8>,
    is_regular_file: bool,
    mp3_exists: bool,
    txt_exists: bool,
)
    requires
        sibling_paths(path) is Some ==> forall|j: int|
            !to_literal_at(file_name_of(sibling_paths(path).unwrap().0), j),
    ensures
        !decides_upload(root, recent, path, is_regular_file, mp3_exists, txt_exists),
{
    if sibling_paths(path) is Some {
        crate::filename::lemma_no_marker_no_parse(file_name_of(sibling_paths(path).unwrap().0));
    }
}

} // verus!
