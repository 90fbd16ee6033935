//! Stems: their names, the slot each takes on the player, the files a song
//! folder holds for them, and how a song is loaded stem by stem.

use vstd::prelude::*;
use crate::text::{to_lowercase, trim, spec_lowercase, trim_chars, text_eq, ascii_text, ascii_lowercase};

verus! {

/// The four parts a song is split into.
#[derive(Debug, Hash, PartialEq, Eq, Structural, Clone, Copy)]
pub enum StemType {
    Drums,
    Bass,
    Melody,
    Vocals,
}

/// Errors of the stem commands.
pub enum StemError {
    /// The name names no stem; it is kept as given.
    InvalidStem(String),
    /// Audio could not be loaded or played.
    AudioError(String),
}

/// The file-name form of a stem.
pub open spec fn stem_name(stem: StemType) -> Seq<char> {
    match stem {
        StemType::Drums => "drums"@,
        StemType::Bass => "bass"@,
        StemType::Melody => "melody"@,
        StemType::Vocals => "vocals"@,
    }
}

/// The stem a lower-case name names.
pub open spec fn stem_of_name(name: Seq<char>) -> Option<StemType> {
    if name == "drums"@ {
        Some(StemType::Drums)
    } else if name == "bass"@ {
        Some(StemType::Bass)
    } else if name == "melody"@ {
        Some(StemType::Melody)
    } else if name == "vocals"@ {
        Some(StemType::Vocals)
    } else {
        None
    }
}

/// The message of an error.
pub open spec fn error_message(e: StemError) -> Seq<char> {
    match e {
        StemError::InvalidStem(s) => "Invalid stem type: "@ + s@,
        StemError::AudioError(s) => "Audio error: "@ + s@,
    }
}

impl StemError {
    /// The error's message, as the command reports it.
    pub fn message(&self) -> (m: String)
        ensures
            m@ == error_message(*self),
    {
        match self {
            StemError::InvalidStem(s) => {
                let mut m = String::from_str("Invalid stem type: ");
                m.append(s.as_str());
                m
            },
            StemError::AudioError(s) => {
                let mut m = String::from_str("Audio error: ");
                m.append(s.as_str());
                m
            },
        }
    }
}

/// The file-name form of a stem (`drums`, `bass`, `melody`, `vocals`).
pub fn stem_file_stem(stem: StemType) -> (name: &'static str)
    ensures
        name@ == stem_name(stem),
{
    match stem {
        StemType::Drums => "drums",
        StemType::Bass => "bass",
        StemType::Melody => "melody",
        StemType::Vocals => "vocals",
    }
}

/// The stem that a lower-case name names.
pub fn stem_from_lowercase(name: &str) -> (r: Option<StemType>)
    ensures
        r == stem_of_name(name@),
{
    if text_eq(name, "drums") {
        Some(StemType::Drums)
    } else if text_eq(name, "bass") {
        Some(StemType::Bass)
    } else if text_eq(name, "melody") {
        Some(StemType::Melody)
    } else if text_eq(name, "vocals") {
        Some(StemType::Vocals)
    } else {
        None
    }
}

/// The stem a name names, in any letter case.
pub fn stem_from_string(s: &str) -> (r: Result<StemType, StemError>)
    ensures
        match stem_of_name(spec_lowercase(s@)) {
            Some(t) => r == Ok::<StemType, StemError>(t),
            None => r matches Err(StemError::InvalidStem(given)) && given@ == s@,
        },
        ascii_text(s@) ==> match stem_of_name(ascii_lowercase(s@)) {
            Some(t) => r == Ok::<StemType, StemError>(t),
            None => r matches Err(StemError::InvalidStem(given)) && given@ == s@,
        },
{
    let lower = to_lowercase(s);
    match stem_from_lowercase(lower.as_str()) {
        Some(t) => Ok(t),
        None => Err(StemError::InvalidStem(s.to_owned())),
    }
}

/// Every stem's name names it, and no other stem.
pub proof fn lemma_stem_names_roundtrip(stem: StemType)
    ensures
        stem_of_name(stem_name(stem)) == Some(stem),
{
    reveal_strlit("drums");
    reveal_strlit("bass");
    reveal_strlit("melody");
    reveal_strlit("vocals");
    assert("drums"@[0] == 'd' && "bass"@[0] == 'b' && "melody"@[0] == 'm' && "vocals"@[0] == 'v');
    assert("drums"@ != "bass"@ && "drums"@ != "melody"@ && "drums"@ != "vocals"@);
    assert("bass"@ != "melody"@ && "bass"@ != "vocals"@ && "melody"@ != "vocals"@);
}

/// The slot a stem takes on the player: 1 melody, 2 vocals, 3 bass, 4 drums.
pub open spec fn slot_of(stem: StemType) -> nat {
    match stem {
        StemType::Melody => 1,
        StemType::Vocals => 2,
        StemType::Bass => 3,
        StemType::Drums => 4,
    }
}

/// The slot a stem takes on the player.
pub fn upload_slot(stem: StemType) -> (slot: usize)
    ensures
        slot == slot_of(stem),
{
    match stem {
        StemType::Melody => 1,
        StemType::Vocals => 2,
        StemType::Bass => 3,
        StemType::Drums => 4,
    }
}

/// The order in which stems are read from a folder and uploaded.
pub open spec fn upload_order() -> Seq<StemType> {
    seq![StemType::Melody, StemType::Vocals, StemType::Bass, StemType::Drums]
}

/// The stems in upload order: melody, vocals, bass, drums.
pub fn upload_stems_in_order() -> (order: Vec<StemType>)
    ensures
        order@ == upload_order(),
{
    let order = vec![StemType::Melody, StemType::Vocals, StemType::Bass, StemType::Drums];
    assert(order@ =~= upload_order());
    order
}

/// Uploading in that order fills slots 1, 2, 3 and 4 in turn.
pub proof fn lemma_upload_order_fills_slots()
    ensures
        forall|i: int| 0 <= i < 4 ==> slot_of(#[trigger] upload_order()[i]) == i + 1,
{
}

/// The order of the stems in a split result: vocals, drums, bass, melody.
pub open spec fn split_order() -> Seq<StemType> {
    seq![StemType::Vocals, StemType::Drums, StemType::Bass, StemType::Melody]
}

/// The stems in the order a split lists its files.
pub fn split_stems_in_order() -> (order: Vec<StemType>)
    ensures
        order@ == split_order(),
{
    let order = vec![StemType::Vocals, StemType::Drums, StemType::Bass, StemType::Melody];
    assert(order@ =~= split_order());
    order
}

/// The file name of a stem with an extension: `<stem>.<ext>`.
pub fn stem_file_name(stem: StemType, ext: &str) -> (name: String)
    ensures
        name@ == stem_name(stem) + "."@ + ext@,
{
    let mut name = String::from_str(stem_file_stem(stem));
    name.append(".");
    name.append(ext);
    name
}

/// The result of splitting a song: the folder of its stems, the track name,
/// and the stem files (vocals, drums, bass, melody).
pub struct SplitResult {
    pub output_dir: String,
    pub track_name: String,
    pub stems: Vec<String>,
}

/// The name a track is uploaded under: the given name without surrounding
/// white space, or, when that is empty, the folder's name (`track` when
/// the folder has none).
pub open spec fn chosen_track_name(trimmed: Seq<char>, folder_name: Option<Seq<char>>) -> Seq<char> {
    if trimmed.len() == 0 {
        match folder_name {
            Some(f) => f,
            None => "track"@,
        }
    } else {
        trimmed
    }
}

/// Picks the track name from the trimmed name given and the folder's name.
pub fn choose_track_name(trimmed: &str, folder_name: Option<&str>) -> (name: String)
    ensures
        name@ == chosen_track_name(
            trimmed@,
            match folder_name {
                Some(f) => Some(f@),
                None => None,
            },
        ),
{
    if trimmed.is_empty() {
        match folder_name {
            Some(f) => f.to_owned(),
            None => String::from_str("track"),
        }
    } else {
        trimmed.to_owned()
    }
}

/// The name a track is uploaded under, from the name given and the folder's.
pub fn resolve_track_name(track_name: &str, folder_name: Option<&str>) -> (name: String)
    ensures
        name@ == chosen_track_name(
            trim_chars(track_name@),
            match folder_name {
                Some(f) => Some(f@),
                None => None,
            },
        ),
{
    let trimmed = trim(track_name);
    choose_track_name(trimmed.as_str(), folder_name)
}

/// The order in which a song's stems are looked for.
pub open spec fn load_order() -> Seq<StemType> {
    seq![StemType::Drums, StemType::Bass, StemType::Melody, StemType::Vocals]
}

/// The audio file extensions tried for each stem, in order.
pub open spec fn load_extensions() -> Seq<Seq<char>> {
    seq!["wav"@, "mp3"@, "ogg"@, "flac"@]
}

/// The file names (without extension) a stem may have in a folder: its own
/// name, and for the melody also `other`, the name splitters commonly give
/// everything that is not vocals, drums or bass.
pub open spec fn file_stems(stem: StemType) -> Seq<Seq<char>> {
    match stem {
        StemType::Melody => seq!["melody"@, "other"@],
        _ => seq![stem_name(stem)],
    }
}

/// How many files are tried for a stem when a song is loaded: its name with
/// each extension, and for the melody then `other.mp3`.
pub open spec fn candidate_count(stem: StemType) -> nat {
    if stem is Melody {
        5
    } else {
        4
    }
}

/// The name of the `k`-th file tried for a stem: `<stem>.<ext>` with the
/// extensions in order, then (for the melody) `other.mp3`.
pub open spec fn candidate_file(stem: StemType, k: nat) -> Seq<char> {
    if k < 4 {
        stem_name(stem) + "."@ + load_extensions()[k as int]
    } else {
        "other.mp3"@
    }
}

/// The `k`-th file tried for a stem, in `folder`.
pub open spec fn candidate_path(folder: Seq<char>, stem: StemType, k: nat) -> Seq<char> {
    folder + "/"@ + candidate_file(stem, k)
}

fn file_stem_at(stem: StemType, i: usize) -> (name: &'static str)
    requires
        i < file_stems(stem).len(),
    ensures
        name@ == file_stems(stem)[i as int],
{
    match stem {
        StemType::Melody => if i == 0 { "melody" } else { "other" },
        _ => stem_file_stem(stem),
    }
}

fn file_stem_count(stem: StemType) -> (n: usize)
    ensures
        n == file_stems(stem).len(),
{
    match stem {
        StemType::Melody => 2,
        _ => 1,
    }
}

/// The files a stem is uploaded from, in the order they are tried:
/// `melody.mp3` then `other.mp3` for the melody, `<stem>.mp3` otherwise.
pub fn upload_file_names(stem: StemType) -> (names: Vec<String>)
    ensures
        names@.len() == file_stems(stem).len(),
        forall|i: int| 0 <= i < names@.len() ==> (#[trigger] names@[i])@ == file_stems(stem)[i] + ".mp3"@,
        names@.len() >= 1,
        names@[0]@ == stem_name(stem) + ".mp3"@,
{
    let mut names: Vec<String> = Vec::new();
    let count = file_stem_count(stem);
    let mut i: usize = 0;
    while i < count
        invariant
            0 <= i <= count,
            count == file_stems(stem).len(),
            names@.len() == i,
            forall|j: int| 0 <= j < i ==> (#[trigger] names@[j])@ == file_stems(stem)[j] + ".mp3"@,
        decreases count - i,
    {
        let mut name = String::from_str(file_stem_at(stem, i));
        name.append(".mp3");
        names.push(name);
        i = i + 1;
    }
    names
}

/// Loads a song from a folder stem by stem: for each stem (drums, bass,
/// melody, vocals) it proposes `<stem>.wav`, `.mp3`, `.ogg`, `.flac` in turn
/// (for the melody then `other.mp3`, the name of a pre-split melody) until
/// one loads, and counts the stems that loaded.
pub struct SongLoader {
    folder: String,
    stem: usize,
    candidate: usize,
    loaded: usize,
}

/// The state of a song load: the folder, which stem and which of its files
/// is next, and how many stems have loaded.
pub struct SongLoaderView {
    pub folder: Seq<char>,
    pub stem: nat,
    pub candidate: nat,
    pub loaded: nat,
}

impl View for SongLoader {
    type V = SongLoaderView;

    closed spec fn view(&self) -> SongLoaderView {
        SongLoaderView {
            folder: self.folder@,
            stem: self.stem as nat,
            candidate: self.candidate as nat,
            loaded: self.loaded as nat,
        }
    }
}

fn extension(i: usize) -> (ext: &'static str)
    requires
        i < 4,
    ensures
        ext@ == load_extensions()[i as int],
{
    match i {
        0 => "wav",
        1 => "mp3",
        2 => "ogg",
        _ => "flac",
    }
}

fn load_stem_at(i: usize) -> (stem: StemType)
    requires
        i < 4,
    ensures
        stem == load_order()[i as int],
{
    match i {
        0 => StemType::Drums,
        1 => StemType::Bass,
        2 => StemType::Melody,
        _ => StemType::Vocals,
    }
}

impl SongLoader {
    #[verifier::type_invariant]
    spec fn well_formed(self) -> bool {
        &&& self.stem <= 4
        &&& self.stem < 4 ==> self.candidate < candidate_count(load_order()[self.stem as int])
        &&& self.candidate < 5
        &&& self.loaded <= self.stem
    }

    /// Starts loading the song in `folder`.
    pub fn new(folder: &str) -> (l: SongLoader)
        ensures
            l@ == (SongLoaderView { folder: folder@, stem: 0, candidate: 0, loaded: 0 }),
    {
        SongLoader { folder: folder.to_owned(), stem: 0, candidate: 0, loaded: 0 }
    }

    /// The file to try next, and the stem it is for; `None` once every stem
    /// has had its turn.
    pub fn next_candidate(&self) -> (c: Option<(StemType, String)>)
        ensures
            self@.stem < 4 ==> (c matches Some((stem, path)) && stem == load_order()[self@.stem as int]
                && self@.candidate < candidate_count(stem)
                && path@ == candidate_path(self@.folder, stem, self@.candidate)),
            self@.stem >= 4 ==> c is None,
    {
        proof { use_type_invariant(self); }
        if self.stem >= 4 {
            return None;
        }
        let stem = load_stem_at(self.stem);
        let mut path = self.folder.clone();
        path.append("/");
        if self.candidate < 4 {
            path.append(stem_file_stem(stem));
            path.append(".");
            path.append(extension(self.candidate));
        } else {
            path.append("other.mp3");
        }
        assert(path@ =~= candidate_path(self@.folder, stem, self@.candidate));
        Some((stem, path))
    }

    /// Records how the proposed file fared: when it loaded the next stem
    /// comes, else the stem's next file (or the next stem when none is
    /// left).
    pub fn record(&mut self, loaded: bool)
        requires
            old(self)@.stem < 4,
        ensures
            final(self)@.folder == old(self)@.folder,
            loaded ==> final(self)@ == (SongLoaderView {
                folder: old(self)@.folder,
                stem: old(self)@.stem + 1,
                candidate: 0,
                loaded: old(self)@.loaded + 1,
            }),
            !loaded && old(self)@.candidate + 1 < candidate_count(load_order()[old(self)@.stem as int])
                ==> final(self)@ == (SongLoaderView {
                folder: old(self)@.folder,
                stem: old(self)@.stem,
                candidate: old(self)@.candidate + 1,
                loaded: old(self)@.loaded,
            }),
            !loaded && old(self)@.candidate + 1 >= candidate_count(load_order()[old(self)@.stem as int])
                ==> final(self)@ == (SongLoaderView {
                folder: old(self)@.folder,
                stem: old(self)@.stem + 1,
                candidate: 0,
                loaded: old(self)@.loaded,
            }),
    {
        proof { use_type_invariant(&*self); }
        let count: usize = match load_stem_at(self.stem) {
            StemType::Melody => 5,
            _ => 4,
        };
        if loaded {
            self.candidate = 0;
            self.stem = self.stem + 1;
            self.loaded = self.loaded + 1;
        } else if self.candidate + 1 < count {
            self.candidate = self.candidate + 1;
        } else {
            self.candidate = 0;
            self.stem = self.stem + 1;
        }
    }

    /// How many stems have loaded.
    pub fn loaded_count(&self) -> (n: usize)
        ensures
            n == self@.loaded,
            n <= self@.stem <= 4,
    {
        proof { use_type_invariant(self); }
        self.loaded
    }

    /// The outcome of the load: an error when no stem loaded.
    pub fn finish(&self) -> (r: Result<(), StemError>)
        ensures
            self@.loaded == 0 ==> (r matches Err(StemError::AudioError(m)) && m@
                == "No stems could be loaded"@),
            self@.loaded > 0 ==> r is Ok,
    {
        if self.loaded == 0 {
            Err(StemError::AudioError(String::from_str("No stems could be loaded")))
        } else {
            Ok(())
        }
    }
}

/// Each stem is uploaded from the file named after it, and only the melody
/// has a second name, `other`: its own name comes first for every stem. So
/// the slots get, as the slot table says, 1 `melody`, 2 `vocals`, 3 `bass`
/// and 4 `drums`.
pub proof fn lemma_stem_uploaded_from_own_file(stem: StemType)
    ensures
        file_stems(stem)[0] == stem_name(stem),
        stem !is Melody ==> file_stems(stem) == seq![stem_name(stem)],
        stem is Melody ==> file_stems(stem) == seq![stem_name(stem), "other"@],
        slot_of(stem) == 1 ==> file_stems(stem)[0] == "melody"@,
        slot_of(stem) == 2 ==> file_stems(stem)[0] == "vocals"@,
        slot_of(stem) == 3 ==> file_stems(stem)[0] == "bass"@,
        slot_of(stem) == 4 ==> file_stems(stem)[0] == "drums"@,
{
}

} // verus!
