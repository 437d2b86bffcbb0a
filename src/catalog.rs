use vstd::prelude::*;

verus! {

/// A stored track: its identifier and the path of its audio file.
pub struct Track {
    pub track_id: String,
    pub track_path: String,
}

impl Track {
    pub open spec fn view(&self) -> (Seq<char>, Seq<char>) {
        (self.track_id@, self.track_path@)
    }
}

/// The path stored for `id` in `rows`, if any.
pub open spec fn lookup(rows: Seq<(Seq<char>, Seq<char>)>, id: Seq<char>) -> Option<Seq<char>>
    decreases rows.len(),
{
    if rows.len() == 0 {
        None
    } else if rows.last().0 == id {
        Some(rows.last().1)
    } else {
        lookup(rows.drop_last(), id)
    }
}

/// `list` holds a track under `id`.
pub open spec fn listed(list: Seq<(Seq<char>, Seq<char>)>, id: Seq<char>) -> bool {
    exists|j: int| 0 <= j < list.len() && #[trigger] list[j].0 == id
}

/// The answer to a request for `ids`: for each requested id that is stored,
/// in the order in which the request first names it, its track, once; unknown
/// ids are left out, so an empty request asks for no track.
pub open spec fn track_list(rows: Seq<(Seq<char>, Seq<char>)>, ids: Seq<Seq<char>>) -> Seq<
    (Seq<char>, Seq<char>),
>
    decreases ids.len(),
{
    if ids.len() == 0 {
        Seq::empty()
    } else {
        let before = track_list(rows, ids.drop_last());
        match lookup(rows, ids.last()) {
            Some(path) => if listed(before, ids.last()) {
                before
            } else {
                before.push((ids.last(), path))
            },
            None => before,
        }
    }
}

/// The track catalog: tracks unique by identifier.
pub struct TrackCatalog {
    tracks: Vec<Track>,
}

impl TrackCatalog {
    pub closed spec fn view(&self) -> Seq<(Seq<char>, Seq<char>)> {
        self.tracks@.map_values(|t: Track| t@)
    }

    pub fn new() -> (r: TrackCatalog)
        ensures
            r@ == Seq::<(Seq<char>, Seq<char>)>::empty(),
    {
        let r = TrackCatalog { tracks: Vec::new() };
        assert(r@ =~= Seq::<(Seq<char>, Seq<char>)>::empty());
        r
    }

    pub fn len(&self) -> (r: usize)
        ensures
            r == self@.len(),
    {
        self.tracks.len()
    }

    /// Adds a track unless its identifier is already stored; says whether it
    /// was added.
    pub fn insert(&mut self, track: Track) -> (r: bool)
        ensures
            r == (lookup(old(self)@, track.track_id@) is None),
            r ==> final(self)@ == old(self)@.push(track@),
            !r ==> final(self)@ == old(self)@,
    {
        if self.resolve(&track.track_id).is_some() {
            return false;
        }
        let ghost t = track;
        self.tracks.push(track);
        assert(self@ =~= old(self)@.push(t@));
        true
    }

    /// The path stored for `track_id`, if any.
    pub fn resolve(&self, track_id: &String) -> (r: Option<String>)
        ensures
            match r {
                Some(p) => lookup(self@, track_id@) == Some(p@),
                None => lookup(self@, track_id@) is None,
            },
    {
        let mut i: usize = self.tracks.len();
        assert(self@.take(i as int) =~= self@);
        while i > 0
            invariant
                i <= self.tracks@.len(),
                lookup(self@, track_id@) == lookup(self@.take(i as int), track_id@),
            decreases i,
        {
            let ghost prefix = self@.take(i as int);
            assert(prefix.last() == self.tracks@[i - 1]@);
            if self.tracks[i - 1].track_id == *track_id {
                return Some(self.tracks[i - 1].track_path.clone());
            }
            assert(prefix.drop_last() =~= self@.take(i - 1));
            i = i - 1;
        }
        None
    }

    /// Whether `list` holds a track under `track_id`.
    fn lists(list: &Vec<Track>, track_id: &String) -> (r: bool)
        ensures
            r == listed(list@.map_values(|t: Track| t@), track_id@),
    {
        let ghost v = list@.map_values(|t: Track| t@);
        let mut j: usize = 0;
        while j < list.len()
            invariant
                j <= list@.len(),
                v == list@.map_values(|t: Track| t@),
                forall|k: int| 0 <= k < j ==> #[trigger] v[k].0 != track_id@,
            decreases list@.len() - j,
        {
            if list[j].track_id == *track_id {
                assert(v[j as int].0 == track_id@);
                return true;
            }
            j = j + 1;
        }
        false
    }

    /// The tracks for the requested ids, each once, in the order in which the
    /// request first names them; ids that are not stored are left out, and an
    /// empty request gives an empty list.
    pub fn get_track_list(&self, track_ids: &Vec<String>) -> (r: Vec<Track>)
        ensures
            r@.map_values(|t: Track| t@) == track_list(self@, track_ids@.map_values(|s: String| s@)),
    {
        let ghost ids = track_ids@.map_values(|s: String| s@);
        let mut out: Vec<Track> = Vec::new();
        let mut i: usize = 0;
        while i < track_ids.len()
            invariant
                i <= track_ids@.len(),
                ids == track_ids@.map_values(|s: String| s@),
                out@.map_values(|t: Track| t@) == track_list(self@, ids.take(i as int)),
            decreases track_ids@.len() - i,
        {
            let ghost before = out@;
            assert(ids.take(i + 1).drop_last() =~= ids.take(i as int));
            assert(ids.take(i + 1).last() == track_ids@[i as int]@);
            let seen = Self::lists(&out, &track_ids[i]);
            match self.resolve(&track_ids[i]) {
                Some(path) => if seen {
                } else {
                    let ghost t = Track { track_id: track_ids@[i as int], track_path: path };
                    out.push(Track { track_id: track_ids[i].clone(), track_path: path });
                    assert(out@.map_values(|t: Track| t@) =~= before.map_values(|t: Track| t@).push(
                        t@,
                    ));
                },
                None => {},
            }
            i = i + 1;
        }
        assert(ids.take(track_ids@.len() as int) =~= ids);
        out
    }
}

} // verus!
