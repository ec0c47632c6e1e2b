use vstd::prelude::*;

verus! {

/// The release program a song came out under.
#[derive(Clone, Copy, PartialEq, Eq, Structural, Debug)]
pub enum ReleaseType {
    Independent,
    NCS,
    Monstercat,
}

/// One track of the catalog. Every text field except `license` is expected to
/// be non-empty; the validators enforce that, the type itself does not.
#[derive(Debug)]
pub struct Song {
    pub id: String,
    pub title: String,
    pub album_name: String,
    pub release_type: ReleaseType,
    pub has_content_id: bool,
    pub streaming_link: String,
    pub license: String,
}

/// The mathematical value of a `Song`: each text field as its character
/// sequence.
pub struct SongView {
    pub id: Seq<char>,
    pub title: Seq<char>,
    pub album_name: Seq<char>,
    pub release_type: ReleaseType,
    pub has_content_id: bool,
    pub streaming_link: Seq<char>,
    pub license: Seq<char>,
}

impl View for Song {
    type V = SongView;

    open spec fn view(&self) -> SongView {
        SongView {
            id: self.id@,
            title: self.title@,
            album_name: self.album_name@,
            release_type: self.release_type,
            has_content_id: self.has_content_id,
            streaming_link: self.streaming_link@,
            license: self.license@,
        }
    }
}

impl DeepView for Song {
    type V = SongView;

    open spec fn deep_view(&self) -> SongView {
        self.view()
    }
}

impl Song {
    /// An explicit copy with the same mathematical value.
    pub fn duplicate(&self) -> (r: Song)
        ensures
            r@ == self@,
    {
        Song {
            id: self.id.clone(),
            title: self.title.clone(),
            album_name: self.album_name.clone(),
            release_type: self.release_type,
            has_content_id: self.has_content_id,
            streaming_link: self.streaming_link.clone(),
            license: self.license.clone(),
        }
    }
}

/// A group of songs sharing one album name; computed by the grouper, never
/// authored directly.
#[derive(Debug)]
pub struct Album {
    pub name: String,
    pub songs: Vec<Song>,
}

/// The mathematical value of an `Album`.
pub struct AlbumView {
    pub name: Seq<char>,
    pub songs: Seq<SongView>,
}

impl View for Album {
    type V = AlbumView;

    open spec fn view(&self) -> AlbumView {
        AlbumView { name: self.name@, songs: self.songs.deep_view() }
    }
}

impl DeepView for Album {
    type V = AlbumView;

    open spec fn deep_view(&self) -> AlbumView {
        self.view()
    }
}

/// A whole catalog payload: the flat song list and, optionally, album
/// groupings derived from it.
#[derive(Debug)]
pub struct MusicData {
    pub songs: Vec<Song>,
    pub albums: Vec<Album>,
}

/// The mathematical value of a `MusicData`.
pub struct MusicDataView {
    pub songs: Seq<SongView>,
    pub albums: Seq<AlbumView>,
}

impl View for MusicData {
    type V = MusicDataView;

    open spec fn view(&self) -> MusicDataView {
        MusicDataView { songs: self.songs.deep_view(), albums: self.albums.deep_view() }
    }
}

impl DeepView for MusicData {
    type V = MusicDataView;

    open spec fn deep_view(&self) -> MusicDataView {
        self.view()
    }
}

/// The outcome of validating one song of a batch: its position, whether it
/// passed, its identifier where the record carries one as text, and every
/// reason it failed.
#[derive(Debug)]
pub struct BatchResult {
    pub index: usize,
    pub valid: bool,
    pub song_id: Option<String>,
    pub errors: Vec<String>,
}

/// The mathematical value of a `BatchResult`.
pub struct BatchResultView {
    pub index: int,
    pub valid: bool,
    pub song_id: Option<Seq<char>>,
    pub errors: Seq<Seq<char>>,
}

impl View for BatchResult {
    type V = BatchResultView;

    open spec fn view(&self) -> BatchResultView {
        BatchResultView {
            index: self.index as int,
            valid: self.valid,
            song_id: self.song_id.deep_view(),
            errors: self.errors.deep_view(),
        }
    }
}

impl DeepView for BatchResult {
    type V = BatchResultView;

    open spec fn deep_view(&self) -> BatchResultView {
        self.view()
    }
}

} // verus!
