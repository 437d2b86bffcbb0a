use crate::catalog::{listed, lookup, track_list, Track, TrackCatalog};
use crate::channel::{DeliveryChannel, DEFAULT_CAPACITY};
use crate::chunk::{Chunk, ONE_MB};
use crate::session::Session;
use crate::source::{ByteSource, ReadOutcome};
use vstd::prelude::*;

verus! {

/// Why a stream could not be started.
pub enum StreamError {
    /// No track is stored under the requested identifier.
    NotFound,
    /// The track's file could not be opened, for the cause given.
    SourceUnavailable(String),
}

/// The service entry point: resolves tracks through the catalog and starts
/// one streaming session per request.
pub struct HubService {
    catalog: TrackCatalog,
    chunk_size: usize,
    capacity: usize,
}

impl HubService {
    pub closed spec fn tracks(&self) -> Seq<(Seq<char>, Seq<char>)> {
        self.catalog@
    }

    pub closed spec fn chunk_size_spec(&self) -> nat {
        self.chunk_size as nat
    }

    pub closed spec fn capacity_spec(&self) -> nat {
        self.capacity as nat
    }

    pub closed spec fn wf(&self) -> bool {
        self.chunk_size > 0 && self.capacity >= 1
    }

    /// A service over `catalog` with chunks of one mebibyte and channels of
    /// 128 chunks.
    pub fn new(catalog: TrackCatalog) -> (r: HubService)
        ensures
            r.wf(),
            r.tracks() == catalog@,
            r.chunk_size_spec() == ONE_MB,
            r.capacity_spec() == DEFAULT_CAPACITY,
    {
        HubService { catalog, chunk_size: ONE_MB, capacity: DEFAULT_CAPACITY }
    }

    /// A service over `catalog` with the given chunk size and channel capacity.
    pub fn with_limits(catalog: TrackCatalog, chunk_size: usize, capacity: usize) -> (r: HubService)
        requires
            chunk_size > 0,
            capacity >= 1,
        ensures
            r.wf(),
            r.tracks() == catalog@,
            r.chunk_size_spec() == chunk_size,
            r.capacity_spec() == capacity,
    {
        HubService { catalog, chunk_size, capacity }
    }

    /// The path of the track to stream, or `NotFound` exactly when no track
    /// is stored under `track_id`.
    pub fn resolve_track(&self, track_id: &String) -> (r: Result<String, StreamError>)
        ensures
            match r {
                Ok(p) => lookup(self.tracks(), track_id@) == Some(p@),
                Err(e) => e is NotFound && lookup(self.tracks(), track_id@) is None,
            },
    {
        match self.catalog.resolve(track_id) {
            Some(path) => Ok(path),
            None => Err(StreamError::NotFound),
        }
    }

    /// Starts the stream of a resolved track, given the outcome of opening its
    /// file: `SourceUnavailable` exactly when the open failed, else a fresh
    /// session that owns the source and the channel it feeds, returned at once
    /// with nothing read yet.
    pub fn stream_audio<T: ByteSource>(&self, opened: Result<T, String>) -> (r: Result<
        (Session<T>, DeliveryChannel),
        StreamError,
    >)
        requires
            self.wf(),
        ensures
            match r {
                Ok((s, ch)) => {
                    &&& opened is Ok
                    &&& s.wf(&ch)
                    &&& s.state() is Producing
                    &&& s.holds_source()
                    &&& s.source() == Some(opened->Ok_0)
                    &&& s.reads() == Seq::<ReadOutcome>::empty()
                    &&& s.held() is None
                    &&& ch.wf()
                    &&& ch.buffered() == Seq::<Chunk>::empty()
                    &&& ch.end() is None
                    &&& s.attempts() == 0
                    &&& s.chunk_size() == self.chunk_size_spec()
                    &&& ch.cap() == self.capacity_spec()
                    &&& ch.sent() == Seq::<Chunk>::empty()
                    &&& !ch.cancelled()
                },
                Err(e) => opened is Err && e == StreamError::SourceUnavailable(opened->Err_0),
            },
    {
        match opened {
            Ok(source) => Ok(Session::start(source, self.chunk_size, self.capacity)),
            Err(cause) => Err(StreamError::SourceUnavailable(cause)),
        }
    }

    /// The stored tracks for the requested ids, in the order in which the
    /// request first names them; unknown ids and repeated ids are left out and
    /// never fail the call.
    pub fn get_track_list(&self, track_ids: &Vec<String>) -> (r: Vec<Track>)
        ensures
            r@.map_values(|t: Track| t@) == track_list(
                self.tracks(),
                track_ids@.map_values(|s: String| s@),
            ),
    {
        self.catalog.get_track_list(track_ids)
    }
}

/// A request naming one stored id and one unknown id, in either order, is
/// answered with the stored track alone, as the catalog holds it; naming the
/// stored id twice still lists it once.
pub proof fn lemma_unknown_id_left_out(
    rows: Seq<(Seq<char>, Seq<char>)>,
    known: Seq<char>,
    unknown: Seq<char>,
)
    requires
        lookup(rows, known) is Some,
        lookup(rows, unknown) is None,
    ensures
        track_list(rows, seq![known, unknown]) == seq![(known, lookup(rows, known)->Some_0)],
        track_list(rows, seq![unknown, known]) == seq![(known, lookup(rows, known)->Some_0)],
        track_list(rows, seq![known, unknown, known]) == seq![
            (known, lookup(rows, known)->Some_0),
        ],
{
    let p = lookup(rows, known)->Some_0;
    assert(seq![known, unknown].drop_last() =~= seq![known]);
    assert(seq![known].drop_last() =~= Seq::<Seq<char>>::empty());
    assert(seq![known].last() == known);
    assert(seq![unknown].last() == unknown);
    assert(seq![known, unknown].last() == unknown);
    assert(seq![unknown, known].last() == known);
    assert(track_list(rows, Seq::<Seq<char>>::empty()) == Seq::<(Seq<char>, Seq<char>)>::empty());
    assert(track_list(rows, seq![known]) =~= seq![(known, p)]);
    assert(seq![unknown, known].drop_last() =~= seq![unknown]);
    assert(seq![unknown].drop_last() =~= Seq::<Seq<char>>::empty());
    assert(track_list(rows, seq![unknown]) =~= Seq::<(Seq<char>, Seq<char>)>::empty());
    assert(track_list(rows, seq![unknown, known]) =~= seq![(known, p)]);
    assert(seq![known, unknown, known].drop_last() =~= seq![known, unknown]);
    assert(seq![known, unknown, known].last() == known);
    assert(seq![(known, p)][0].0 == known);
    assert(track_list(rows, seq![known, unknown]) == seq![(known, p)]);
    assert(listed(seq![(known, p)], known));
    assert(track_list(rows, seq![known, unknown, known]) =~= seq![(known, p)]);
}

} // verus!
