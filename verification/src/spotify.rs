use vstd::prelude::*;

use crate::chars::chars_of;
use crate::config::{has_prefix, has_prefix_at};
use crate::string_map::StringMap;
use crate::tts::string_views;

verus! {

// ---------------------------------------------------------------------------
// Search
// ---------------------------------------------------------------------------

/// A search hit.
#[derive(Debug)]
pub struct SpotifySearchItem {
    pub name: String,
    pub uri: String,
}

/// One kind of search hits; Spotify sends `null` for hits it withholds.
#[derive(Debug)]
pub struct SpotifySearchPage {
    pub items: Vec<Option<SpotifySearchItem>>,
}

/// The reply to a search for tracks, albums and playlists.
#[derive(Debug)]
pub struct SpotifySearchResponse {
    pub tracks: Option<SpotifySearchPage>,
    pub albums: Option<SpotifySearchPage>,
    pub playlists: Option<SpotifySearchPage>,
}

/// The (name, uri) pairs of a list of hits, skipping the withheld ones.
pub open spec fn hits(items: Seq<Option<SpotifySearchItem>>) -> Seq<(Seq<char>, Seq<char>)>
    decreases items.len(),
{
    if items.len() == 0 {
        Seq::empty()
    } else {
        let rest = hits(items.drop_last());
        match items.last() {
            Some(item) => rest.push((item.name@, item.uri@)),
            None => rest,
        }
    }
}

/// The hits of a page; nothing when the page is absent.
pub open spec fn page_hits(page: Option<SpotifySearchPage>) -> Seq<(Seq<char>, Seq<char>)> {
    match page {
        Some(p) => hits(p.items@),
        None => Seq::empty(),
    }
}

/// Views of (name, uri) pairs.
pub open spec fn pair_views(v: Seq<(String, String)>) -> Seq<(Seq<char>, Seq<char>)> {
    v.map_values(|p: (String, String)| (p.0@, p.1@))
}

fn push_hits(out: &mut Vec<(String, String)>, page: &Option<SpotifySearchPage>)
    ensures
        pair_views(final(out)@) == pair_views(old(out)@) + page_hits(*page),
{
    let ghost start = pair_views(out@);
    match page {
        None => {
            assert(pair_views(out@) =~= start + Seq::<(Seq<char>, Seq<char>)>::empty());
        },
        Some(p) => {
            let mut i: usize = 0;
            while i < p.items.len()
                invariant
                    i <= p.items@.len(),
                    pair_views(out@) == start + hits(p.items@.take(i as int)),
                decreases p.items.len() - i,
            {
                assert(p.items@.take(i + 1).drop_last() =~= p.items@.take(i as int));
                let ghost before = out@;
                match &p.items[i] {
                    Some(item) => {
                        out.push((item.name.clone(), item.uri.clone()));
                        assert(pair_views(out@) =~= pair_views(before).push(
                            (item.name@, item.uri@),
                        ));
                    },
                    None => {},
                }
                i = i + 1;
                assert(pair_views(out@) =~= start + hits(p.items@.take(i as int)));
            }
            assert(p.items@.take(i as int) =~= p.items@);
        },
    }
}

/// The (name, uri) results of a search: tracks, then albums, then playlists.
pub fn search_results(response: &SpotifySearchResponse) -> (r: Vec<(String, String)>)
    ensures
        pair_views(r@) == page_hits(response.tracks) + page_hits(response.albums) + page_hits(
            response.playlists,
        ),
{
    let mut out: Vec<(String, String)> = Vec::new();
    assert(pair_views(out@) =~= Seq::<(Seq<char>, Seq<char>)>::empty());
    push_hits(&mut out, &response.tracks);
    push_hits(&mut out, &response.albums);
    push_hits(&mut out, &response.playlists);
    assert(pair_views(out@) =~= page_hits(response.tracks) + page_hits(response.albums)
        + page_hits(response.playlists));
    out
}

// ---------------------------------------------------------------------------
// Devices
// ---------------------------------------------------------------------------

/// A Spotify Connect device.
#[derive(Debug)]
pub struct SpotifyDevice {
    pub id: String,
    pub is_active: bool,
    pub is_private_session: bool,
    pub is_restricted: bool,
    pub name: String,
    pub supports_volume: bool,
    pub device_type: String,
    pub volume_percent: Option<u8>,
}

/// Device ids by device name; of devices sharing a name, the last listed wins.
pub open spec fn device_map(ds: Seq<SpotifyDevice>) -> Map<Seq<char>, Seq<char>>
    decreases ds.len(),
{
    if ds.len() == 0 {
        Map::empty()
    } else {
        device_map(ds.drop_last()).insert(ds.last().name@, ds.last().id@)
    }
}

/// The device ids of a device list, by device name.
pub fn devices_by_name(devices: &Vec<SpotifyDevice>) -> (m: StringMap)
    ensures
        m@ == device_map(devices@),
{
    let mut m = StringMap::new();
    let mut i: usize = 0;
    while i < devices.len()
        invariant
            i <= devices@.len(),
            m@ == device_map(devices@.take(i as int)),
        decreases devices.len() - i,
    {
        assert(devices@.take(i + 1).drop_last() =~= devices@.take(i as int));
        m.insert(devices[i].name.clone(), devices[i].id.clone());
        i = i + 1;
    }
    assert(devices@.take(i as int) =~= devices@);
    m
}

/// The names of the known devices, each once.
pub fn spotify_get_devices(devices: &StringMap) -> (names: Vec<String>)
    ensures
        forall|k: Seq<char>| #[trigger] devices@.contains_key(k) == string_views(names@).contains(
            k,
        ),
        string_views(names@).no_duplicates(),
{
    devices.keys()
}

/// The id of the device named `device_name`, if it is known.
pub fn device_id_for(devices: &StringMap, device_name: &str) -> (r: Option<String>)
    ensures
        r matches Some(id) ==> devices@.contains_key(device_name@) && id@
            == devices@[device_name@],
        r is None ==> !devices@.contains_key(device_name@),
{
    match devices.get(device_name) {
        Some(id) => Some(String::from_str(id)),
        None => None,
    }
}

// ---------------------------------------------------------------------------
// Playback
// ---------------------------------------------------------------------------

/// Where in a context playback starts.
#[derive(Debug)]
pub struct SpotifyPlayOffset {
    pub uri: Option<String>,
    pub position: Option<u32>,
}

/// The body of a "start playback" request.
#[derive(Debug)]
pub struct SpotifyPlayRequest {
    pub context_uri: Option<String>,
    pub uris: Option<Vec<String>>,
    pub offset: Option<SpotifyPlayOffset>,
    pub position_ms: u32,
}

/// A track URI is played as a list of one track; any other URI (album, playlist,
/// artist) is played as a context.
pub open spec fn plays(r: SpotifyPlayRequest, uri: Seq<char>) -> bool {
    &&& if has_prefix(uri, "spotify:track:"@) {
        &&& r.uris matches Some(v) && string_views(v@) == seq![uri]
        &&& r.context_uri is None
    } else {
        &&& r.context_uri matches Some(c) && c@ == uri
        &&& r.uris is None
    }
    &&& r.offset is None
    &&& r.position_ms == 0
}

/// The request body that plays `uri` from its start.
pub fn play_request(uri: &str) -> (r: SpotifyPlayRequest)
    ensures
        plays(r, uri@),
{
    let mut req = SpotifyPlayRequest {
        context_uri: None,
        uris: None,
        offset: None,
        position_ms: 0,
    };
    let v = chars_of(uri);
    let track = chars_of("spotify:track:");
    assert(v@.subrange(0, v.len() as int) =~= v@);
    if has_prefix_at(&v, 0, v.len(), &track) {
        let mut uris: Vec<String> = Vec::new();
        uris.push(String::from_str(uri));
        assert(string_views(uris@) =~= seq![uri@]);
        req.uris = Some(uris);
    } else {
        req.context_uri = Some(String::from_str(uri));
    }
    req
}

/// Only a track is played as a list of tracks: a URI starting with `spotify:track:` is
/// sent as the one track to play, and every other URI (album, playlist, artist, show)
/// is sent as the context to play, never as a track.
pub proof fn law_only_tracks_play_as_tracks(r: SpotifyPlayRequest, uri: Seq<char>)
    requires
        plays(r, uri),
    ensures
        (uri.len() >= 14 && uri.take(14) == "spotify:track:"@) ==> (r.uris matches Some(v)
            && v@.len() == 1 && v@[0]@ == uri && r.context_uri is None),
        !(uri.len() >= 14 && uri.take(14) == "spotify:track:"@) ==> (r.context_uri matches Some(
            c,
        ) && c@ == uri && r.uris is None),
{
    reveal_strlit("spotify:track:");
    assert("spotify:track:"@.len() == 14);
    if has_prefix(uri, "spotify:track:"@) {
        let v = r.uris->0;
        assert(string_views(v@) == seq![uri]);
        assert(string_views(v@).len() == v@.len());
        assert(string_views(v@)[0] == v@[0]@);
    }
}

} // verus!
