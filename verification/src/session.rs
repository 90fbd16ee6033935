//! The course of an upload, as a state machine: a first sync pass, a second
//! sync pass, the choice of ids, the storage check, then each stem and the
//! track config. The caller performs each action (USB transfers, parsing
//! the listing a pass brings back, the storage query) and reports how it
//! went; the session says what comes next.

use vstd::prelude::*;
use crate::catalog::{allocate_upload_ids, max_album_number, max_track_number, listing_view};
use crate::json::JsonValue;
use crate::sync::{sync_plan, steps_view, pass1_steps, pass2_steps, SyncAction};
use crate::text::decimal;
use crate::upload::{
    check_free_space, required_upload_bytes, stem_upload_metadata, is_stem_metadata, sum_sizes,
    StorageShortfall,
};

verus! {

/// Why an upload stopped.
pub enum UploadError {
    /// The first pass met no `RECORD` album, so it brought back no listing.
    RecordMissingFirstPass,
    /// The second pass met no `RECORD` album.
    RecordMissingSecondPass,
    /// No album id of the final listing is `A<n>` with `n > 0`.
    NoValidAlbums,
    /// The device has too little room.
    NotEnoughStorage(StorageShortfall),
}

/// Where an upload stands.
#[derive(Debug, PartialEq, Eq, Structural, Clone, Copy)]
pub enum UploadPhase {
    FirstPass,
    SecondPass,
    StorageCheck,
    Stems,
    TrackConfig,
    Finished,
    Failed,
}

/// What the caller does next.
pub enum UploadAction {
    /// Run this sync plan, then report the listing its final ping brought
    /// back (or that there was none).
    RunPass(Vec<SyncAction>),
    /// Query the device's storage and report the free bytes, with the room
    /// needed: these bytes plus the safety margin.
    QueryStorage(u64),
    /// Send the stem at this index of the session's stems, announced by this
    /// metadata.
    SendStem { index: usize, metadata: JsonValue },
    /// Send a new track config for these ids.
    SendTrackConfig { album_id: String, track_id: String },
    /// The upload is complete.
    Finished,
    /// The upload stopped.
    Failed(UploadError),
}

/// An upload of stems, each given by its slot and its size in bytes.
pub struct UploadSession {
    phase: UploadPhase,
    stems: Vec<(usize, usize)>,
    album_id: String,
    track_id: String,
    next: usize,
}

/// The state of an upload.
pub struct UploadSessionView {
    pub phase: UploadPhase,
    pub stems: Seq<(usize, usize)>,
    pub album_id: Seq<char>,
    pub track_id: Seq<char>,
    pub next: nat,
}

impl View for UploadSession {
    type V = UploadSessionView;

    closed spec fn view(&self) -> UploadSessionView {
        UploadSessionView {
            phase: self.phase,
            stems: self.stems@,
            album_id: self.album_id@,
            track_id: self.track_id@,
            next: self.next as nat,
        }
    }
}

/// The sizes of the stems.
pub open spec fn stem_sizes(stems: Seq<(usize, usize)>) -> Seq<usize> {
    stems.map_values(|s: (usize, usize)| s.1)
}

/// How many of the upload's files (its stems, then the track config) the
/// caller was asked to send before the one now due; every file once the
/// upload is complete.
pub open spec fn files_asked(v: UploadSessionView) -> nat {
    match v.phase {
        UploadPhase::Stems => v.next,
        UploadPhase::TrackConfig => v.stems.len(),
        UploadPhase::Finished => v.stems.len() + 1,
        _ => 0,
    }
}

/// Whether `a` asks for file `k` of the upload of `v`: stem `k`, announced
/// by its metadata, while `k` is below the number of stems; then the track
/// config for the session's ids; then nothing more (the upload is complete).
pub open spec fn asks_for_file(v: UploadSessionView, a: UploadAction, k: nat) -> bool {
    if k < v.stems.len() {
        a matches UploadAction::SendStem { index, metadata } && index == k && is_stem_metadata(
            metadata,
            v.stems[k as int].1 as nat,
            v.track_id,
            v.album_id,
            v.stems[k as int].0 as nat,
        )
    } else if k == v.stems.len() {
        a matches UploadAction::SendTrackConfig { album_id, track_id } && album_id@ == v.album_id
            && track_id@ == v.track_id
    } else {
        a is Finished
    }
}

impl UploadSession {
    #[verifier::type_invariant]
    spec fn well_formed(self) -> bool {
        &&& self.phase == UploadPhase::Stems ==> self.next < self.stems@.len()
        &&& sum_sizes(stem_sizes(self.stems@)) + 1024 <= u64::MAX
    }

    /// Starts an upload of the given stems (slot, size).
    pub fn new(stems: Vec<(usize, usize)>) -> (s: UploadSession)
        requires
            sum_sizes(stem_sizes(stems@)) + 1024 <= u64::MAX,
        ensures
            s@.phase == UploadPhase::FirstPass,
            s@.stems == stems@,
            s@.next == 0,
    {
        UploadSession { phase: UploadPhase::FirstPass, stems, album_id: String::new(), track_id: String::new(), next: 0 }
    }

    /// The first pass over the listing of the opening ping.
    pub fn first_pass(&self, listing: &[(String, Vec<String>)]) -> (a: UploadAction)
        ensures
            a matches UploadAction::RunPass(plan) && steps_view(plan@) == pass1_steps(listing_view(listing@)),
    {
        UploadAction::RunPass(sync_plan(listing, false))
    }

    /// Takes the outcome of a pass: the parsed listing of its final ping, or
    /// `None` when it ended without one.
    pub fn pass_finished(&mut self, listing: Option<Vec<(String, Vec<String>)>>) -> (a: UploadAction)
        requires
            old(self)@.phase == UploadPhase::FirstPass || old(self)@.phase == UploadPhase::SecondPass,
            old(self)@.phase == UploadPhase::SecondPass && listing is Some && max_album_number(
                listing_view(listing->0@),
            ) > 0 ==> max_track_number(listing_view(listing->0@)) < u32::MAX,
        ensures
            final(self)@.stems == old(self)@.stems,
            old(self)@.phase == UploadPhase::FirstPass && listing is None ==> (final(self)@.phase
                == UploadPhase::Failed && a matches UploadAction::Failed(UploadError::RecordMissingFirstPass)),
            old(self)@.phase == UploadPhase::FirstPass && listing is Some ==> ({
                &&& final(self)@.phase == UploadPhase::SecondPass
                &&& a matches UploadAction::RunPass(plan)
                &&& steps_view(plan@) == pass2_steps(listing_view(listing->0@))
            }),
            old(self)@.phase == UploadPhase::SecondPass && listing is None ==> (final(self)@.phase
                == UploadPhase::Failed && a matches UploadAction::Failed(UploadError::RecordMissingSecondPass)),
            old(self)@.phase == UploadPhase::SecondPass && listing is Some && max_album_number(
                listing_view(listing->0@),
            ) == 0 ==> (final(self)@.phase == UploadPhase::Failed && a matches UploadAction::Failed(
                UploadError::NoValidAlbums,
            )),
            old(self)@.phase == UploadPhase::SecondPass && listing is Some && max_album_number(
                listing_view(listing->0@),
            ) > 0 ==> ({
                let l = listing_view(listing->0@);
                &&& final(self)@.phase == UploadPhase::StorageCheck
                &&& final(self)@.album_id == seq!['A'] + decimal(max_album_number(l))
                &&& final(self)@.track_id == seq!['T'] + decimal(max_track_number(l) + 1)
                &&& a matches UploadAction::QueryStorage(n) && n == sum_sizes(stem_sizes(old(self)@.stems)) + 1024
            }),
    {
        proof { use_type_invariant(&*self); }
        match listing {
            None => {
                if self.phase == UploadPhase::FirstPass {
                    self.phase = UploadPhase::Failed;
                    UploadAction::Failed(UploadError::RecordMissingFirstPass)
                } else {
                    self.phase = UploadPhase::Failed;
                    UploadAction::Failed(UploadError::RecordMissingSecondPass)
                }
            },
            Some(l) => {
                if self.phase == UploadPhase::FirstPass {
                    self.phase = UploadPhase::SecondPass;
                    UploadAction::RunPass(sync_plan(l.as_slice(), true))
                } else {
                    match allocate_upload_ids(l.as_slice()) {
                        Err(_) => {
                            self.phase = UploadPhase::Failed;
                            UploadAction::Failed(UploadError::NoValidAlbums)
                        },
                        Ok((album_id, track_id)) => {
                            self.album_id = album_id;
                            self.track_id = track_id;
                            self.phase = UploadPhase::StorageCheck;
                            UploadAction::QueryStorage(self.required_bytes())
                        },
                    }
                }
            },
        }
    }

    fn required_bytes(&self) -> (n: u64)
        ensures
            n == sum_sizes(stem_sizes(self@.stems)) + 1024,
    {
        proof { use_type_invariant(self); }
        let mut sizes: Vec<usize> = Vec::new();
        let mut i: usize = 0;
        while i < self.stems.len()
            invariant
                0 <= i <= self.stems@.len(),
                sizes@ == stem_sizes(self.stems@).take(i as int),
            decreases self.stems@.len() - i,
        {
            sizes.push(self.stems[i].1);
            i = i + 1;
            assert(sizes@ =~= stem_sizes(self.stems@).take(i as int));
        }
        assert(sizes@ =~= stem_sizes(self.stems@));
        required_upload_bytes(sizes.as_slice())
    }

    fn stem_action(&self, index: usize) -> (a: UploadAction)
        requires
            index < self@.stems.len(),
        ensures
            ({
                &&& a matches UploadAction::SendStem { index: i, metadata }
                &&& i == index
                &&& is_stem_metadata(
                    metadata,
                    self@.stems[index as int].1 as nat,
                    self@.track_id,
                    self@.album_id,
                    self@.stems[index as int].0 as nat,
                )
            }),
    {
        let (slot, size) = self.stems[index];
        UploadAction::SendStem {
            index,
            metadata: stem_upload_metadata(size, self.track_id.as_str(), self.album_id.as_str(), slot),
        }
    }

    /// Takes the storage figures: the room needed (with the margin) and the
    /// free bytes. Stems are sent next, or the track config when there is
    /// no stem.
    pub fn storage_known(&mut self, required_with_margin: u64, free: u64) -> (a: UploadAction)
        requires
            old(self)@.phase == UploadPhase::StorageCheck,
        ensures
            final(self)@.stems == old(self)@.stems,
            final(self)@.album_id == old(self)@.album_id,
            final(self)@.track_id == old(self)@.track_id,
            required_with_margin <= free ==> files_asked(final(self)@) == 0 && asks_for_file(
                final(self)@,
                a,
                0,
            ),
            required_with_margin > free ==> ({
                &&& final(self)@.phase == UploadPhase::Failed
                &&& a matches UploadAction::Failed(UploadError::NotEnoughStorage(s))
                &&& s.need_mb == required_with_margin / 1_048_576
                &&& s.free_mb == free / 1_048_576
            }),
            required_with_margin <= free && old(self)@.stems.len() == 0 ==> ({
                &&& final(self)@.phase == UploadPhase::TrackConfig
                &&& a matches UploadAction::SendTrackConfig { album_id, track_id }
                &&& album_id@ == old(self)@.album_id
                &&& track_id@ == old(self)@.track_id
            }),
            required_with_margin <= free && old(self)@.stems.len() > 0 ==> ({
                &&& final(self)@.phase == UploadPhase::Stems
                &&& final(self)@.next == 0
                &&& a matches UploadAction::SendStem { index, metadata }
                &&& index == 0
                &&& is_stem_metadata(
                    metadata,
                    old(self)@.stems[0].1 as nat,
                    old(self)@.track_id,
                    old(self)@.album_id,
                    old(self)@.stems[0].0 as nat,
                )
            }),
    {
        proof { use_type_invariant(&*self); }
        match check_free_space(required_with_margin, free) {
            Err(shortfall) => {
                self.phase = UploadPhase::Failed;
                UploadAction::Failed(UploadError::NotEnoughStorage(shortfall))
            },
            Ok(()) => {
                if self.stems.len() == 0 {
                    self.phase = UploadPhase::TrackConfig;
                    UploadAction::SendTrackConfig { album_id: self.album_id.clone(), track_id: self.track_id.clone() }
                } else {
                    self.next = 0;
                    self.phase = UploadPhase::Stems;
                    self.stem_action(0)
                }
            },
        }
    }

    /// Takes the news that the file last asked for was sent: the next stem
    /// follows, then the track config, then the upload is complete. So the
    /// files go out in order: once storage is known, the `k`-th call asks for
    /// file `k` (`asks_for_file`).
    pub fn file_sent(&mut self) -> (a: UploadAction)
        requires
            old(self)@.phase == UploadPhase::Stems || old(self)@.phase == UploadPhase::TrackConfig,
        ensures
            final(self)@.stems == old(self)@.stems,
            final(self)@.album_id == old(self)@.album_id,
            final(self)@.track_id == old(self)@.track_id,
            files_asked(final(self)@) == files_asked(old(self)@) + 1,
            asks_for_file(final(self)@, a, files_asked(final(self)@)),
            old(self)@.phase == UploadPhase::Stems && old(self)@.next + 1 < old(self)@.stems.len() ==> ({
                &&& final(self)@.phase == UploadPhase::Stems
                &&& final(self)@.next == old(self)@.next + 1
                &&& a matches UploadAction::SendStem { index, metadata }
                &&& index == old(self)@.next + 1
                &&& is_stem_metadata(
                    metadata,
                    old(self)@.stems[index as int].1 as nat,
                    old(self)@.track_id,
                    old(self)@.album_id,
                    old(self)@.stems[index as int].0 as nat,
                )
            }),
            old(self)@.phase == UploadPhase::Stems && old(self)@.next + 1 >= old(self)@.stems.len() ==> ({
                &&& final(self)@.phase == UploadPhase::TrackConfig
                &&& a matches UploadAction::SendTrackConfig { album_id, track_id }
                &&& album_id@ == old(self)@.album_id
                &&& track_id@ == old(self)@.track_id
            }),
            old(self)@.phase == UploadPhase::TrackConfig ==> (final(self)@.phase == UploadPhase::Finished
                && a is Finished),
    {
        proof { use_type_invariant(&*self); }
        if self.phase == UploadPhase::TrackConfig {
            self.phase = UploadPhase::Finished;
            return UploadAction::Finished;
        }
        let count = self.stems.len();
        if self.next + 1 < count {
            self.next = self.next + 1;
            self.stem_action(self.next)
        } else {
            self.phase = UploadPhase::TrackConfig;
            UploadAction::SendTrackConfig { album_id: self.album_id.clone(), track_id: self.track_id.clone() }
        }
    }

    /// Where the upload stands.
    pub fn phase(&self) -> (p: UploadPhase)
        ensures
            p == self@.phase,
    {
        self.phase
    }
}

} // verus!
