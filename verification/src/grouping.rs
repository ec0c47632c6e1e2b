use vstd::prelude::*;
use crate::model::{Album, AlbumView, Song, SongView};
use crate::text::{lex_lt, lemma_lex_connex, lemma_lex_trans, str_eq, str_lt};
use crate::validation::{parse_songs, spec_songs_payload};

verus! {

/// The songs of `songs` whose album name is exactly `name`, in their
/// original order.
pub open spec fn songs_of_album(songs: Seq<SongView>, name: Seq<char>) -> Seq<SongView> {
    songs.filter(|s: SongView| s.album_name == name)
}

/// The names are strictly ascending, so also pairwise distinct.
pub open spec fn sorted_names(names: Seq<Seq<char>>) -> bool {
    forall|a: int, b: int|
        0 <= a < b < names.len() ==> lex_lt(#[trigger] names[a], #[trigger] names[b])
}

/// The names are exactly the album names occurring among the songs.
pub open spec fn names_cover(songs: Seq<SongView>, names: Seq<Seq<char>>) -> bool {
    &&& forall|j: int|
        0 <= j < names.len() ==> exists|i: int|
            0 <= i < songs.len() && #[trigger] names[j] == songs[i].album_name
    &&& forall|i: int|
        0 <= i < songs.len() ==> names.contains(#[trigger] songs[i].album_name)
}

/// Some album of `albums` is named `name`.
pub open spec fn has_album_named(albums: Seq<AlbumView>, name: Seq<char>) -> bool {
    exists|j: int| 0 <= j < albums.len() && (#[trigger] albums[j]).name == name
}

/// `albums` groups `songs` by album name: one album for each name that
/// occurs, holding exactly the songs of that name in input order, and the
/// album list strictly ascending by name.
pub open spec fn grouped_correctly(songs: Seq<SongView>, albums: Seq<AlbumView>) -> bool {
    &&& forall|j: int|
        0 <= j < albums.len() ==> (#[trigger] albums[j]).songs == songs_of_album(
            songs,
            albums[j].name,
        )
    &&& forall|j: int| 0 <= j < albums.len() ==> (#[trigger] albums[j]).songs.len() > 0
    &&& forall|i: int|
        0 <= i < songs.len() ==> has_album_named(albums, (#[trigger] songs[i]).album_name)
    &&& forall|j: int, k: int|
        0 <= j < k < albums.len() ==> lex_lt(
            (#[trigger] albums[j]).name,
            (#[trigger] albums[k]).name,
        )
}

/// How many songs the albums hold together.
pub open spec fn total_song_count(albums: Seq<AlbumView>) -> int
    decreases albums.len(),
{
    if albums.len() == 0 {
        0
    } else {
        albums[0].songs.len() + total_song_count(albums.drop_first())
    }
}

/// The names of the albums, in album order.
pub open spec fn album_names(albums: Seq<AlbumView>) -> Seq<Seq<char>>
    decreases albums.len(),
{
    if albums.len() == 0 {
        Seq::empty()
    } else {
        seq![albums[0].name] + album_names(albums.drop_first())
    }
}

proof fn lemma_album_names(albums: Seq<AlbumView>)
    ensures
        album_names(albums).len() == albums.len(),
        forall|k: int| 0 <= k < albums.len() ==> album_names(albums)[k] == (#[trigger] albums[k]).name,
    decreases albums.len(),
{
    if albums.len() > 0 {
        let rest = albums.drop_first();
        lemma_album_names(rest);
        assert(forall|k: int| 0 <= k < rest.len() ==> #[trigger] rest[k] == albums[k + 1]);
        assert forall|k: int| 0 <= k < albums.len() implies album_names(albums)[k] == (
        #[trigger] albums[k]).name by {
            if k > 0 {
                assert(album_names(albums)[k] == album_names(rest)[k - 1]);
                assert(album_names(rest)[k - 1] == rest[k - 1].name);
            }
        }
    }
}

/// No two of the names are the same.
pub open spec fn distinct_names(names: Seq<Seq<char>>) -> bool {
    forall|a: int, b: int| 0 <= a < b < names.len() ==> #[trigger] names[a] != #[trigger] names[b]
}

spec fn sum_counts(songs: Seq<SongView>, names: Seq<Seq<char>>) -> int
    decreases names.len(),
{
    if names.len() == 0 {
        0
    } else {
        songs_of_album(songs, names[0]).len() + sum_counts(songs, names.drop_first())
    }
}

proof fn lemma_sum_counts_empty(names: Seq<Seq<char>>)
    ensures
        sum_counts(Seq::<SongView>::empty(), names) == 0,
    decreases names.len(),
{
    if names.len() > 0 {
        lemma_songs_of_album_empty(names[0]);
        lemma_sum_counts_empty(names.drop_first());
    }
}

proof fn lemma_distinct_drop_first(names: Seq<Seq<char>>)
    requires
        distinct_names(names),
        names.len() > 0,
    ensures
        distinct_names(names.drop_first()),
        !names.drop_first().contains(names[0]),
{
    let rest = names.drop_first();
    assert(forall|k: int| 0 <= k < rest.len() ==> #[trigger] rest[k] == names[k + 1]);
    assert forall|k: int| 0 <= k < rest.len() implies #[trigger] rest[k] != names[0] by {
        assert(names[0] != names[k + 1]);
    }
}

proof fn lemma_sum_counts_push(songs: Seq<SongView>, x: SongView, names: Seq<Seq<char>>)
    requires
        distinct_names(names),
    ensures
        sum_counts(songs.push(x), names) == sum_counts(songs, names) + if names.contains(
            x.album_name,
        ) {
            1int
        } else {
            0int
        },
    decreases names.len(),
{
    if names.len() == 0 {
        assert(!names.contains(x.album_name));
    } else {
        let rest = names.drop_first();
        lemma_songs_of_album_step(songs, x, names[0]);
        lemma_distinct_drop_first(names);
        lemma_sum_counts_push(songs, x, rest);
        if x.album_name == names[0] {
            assert(names.contains(x.album_name));
            assert(!rest.contains(x.album_name));
        } else {
            assert(names.contains(x.album_name) == rest.contains(x.album_name)) by {
                if names.contains(x.album_name) {
                    let k = choose|k: int| 0 <= k < names.len() && names[k] == x.album_name;
                    assert(k > 0);
                    assert(rest[k - 1] == x.album_name);
                }
                if rest.contains(x.album_name) {
                    let k = choose|k: int| 0 <= k < rest.len() && rest[k] == x.album_name;
                    assert(names[k + 1] == x.album_name);
                }
            }
        }
    }
}

proof fn lemma_sum_counts_full(songs: Seq<SongView>, names: Seq<Seq<char>>)
    requires
        distinct_names(names),
        forall|i: int| 0 <= i < songs.len() ==> names.contains((#[trigger] songs[i]).album_name),
    ensures
        sum_counts(songs, names) == songs.len(),
    decreases songs.len(),
{
    if songs.len() == 0 {
        assert(songs =~= Seq::<SongView>::empty());
        lemma_sum_counts_empty(names);
    } else {
        let d = songs.drop_last();
        let x = songs.last();
        assert(forall|i: int| 0 <= i < d.len() ==> #[trigger] d[i] == songs[i]);
        lemma_sum_counts_full(d, names);
        lemma_sum_counts_push(d, x, names);
        assert(d.push(x) =~= songs);
        assert(names.contains(x.album_name));
    }
}

proof fn lemma_total_eq_sum(songs: Seq<SongView>, albums: Seq<AlbumView>)
    requires
        forall|j: int|
            0 <= j < albums.len() ==> (#[trigger] albums[j]).songs == songs_of_album(
                songs,
                albums[j].name,
            ),
    ensures
        total_song_count(albums) == sum_counts(songs, album_names(albums)),
    decreases albums.len(),
{
    lemma_album_names(albums);
    if albums.len() > 0 {
        let rest = albums.drop_first();
        assert(forall|k: int| 0 <= k < rest.len() ==> #[trigger] rest[k] == albums[k + 1]);
        lemma_total_eq_sum(songs, rest);
        lemma_album_names(rest);
        assert(album_names(albums).drop_first() =~= album_names(rest));
        assert(albums[0].songs == songs_of_album(songs, albums[0].name));
        assert(album_names(albums)[0] == albums[0].name);
    }
}

/// Grouping no songs yields no albums.
pub proof fn lemma_group_empty(albums: Seq<AlbumView>)
    requires
        grouped_correctly(Seq::<SongView>::empty(), albums),
    ensures
        albums.len() == 0,
{
    if albums.len() > 0 {
        lemma_songs_of_album_empty(albums[0].name);
        assert(albums[0].songs.len() == 0);
    }
}

/// The grouping neither drops nor duplicates a song: counted over all
/// albums, the songs are exactly the input songs.
pub proof fn lemma_grouped_total(songs: Seq<SongView>, albums: Seq<AlbumView>)
    requires
        grouped_correctly(songs, albums),
    ensures
        total_song_count(albums) == songs.len(),
{
    lemma_album_names(albums);
    let names = album_names(albums);
    assert forall|a: int, b: int| 0 <= a < b < names.len() implies #[trigger] names[a]
        != #[trigger] names[b] by {
        assert(lex_lt(albums[a].name, albums[b].name));
        if names[a] == names[b] {
            crate::text::lemma_lex_irrefl(albums[a].name);
        }
    }
    assert forall|i: int| 0 <= i < songs.len() implies names.contains(
        (#[trigger] songs[i]).album_name,
    ) by {
        assert(has_album_named(albums, songs[i].album_name));
        let j = choose|j: int| 0 <= j < albums.len() && (#[trigger] albums[j]).name == songs[i].album_name;
        assert(names[j] == songs[i].album_name);
    }
    lemma_sum_counts_full(songs, names);
    lemma_total_eq_sum(songs, albums);
}

/// Groups a song list given as JSON text into albums: one album per
/// distinct album name, its songs in input order, the album list sorted
/// ascending by name; a malformed payload is reported as an error value
/// instead.
pub fn group_by_album(songs_json: &str) -> (r: Result<Vec<Album>, String>)
    ensures
        match (r, spec_songs_payload(songs_json@)) {
            (Ok(albums), Ok(songs)) => grouped_correctly(songs, albums.deep_view()),
            (Err(e), Err(g)) => e@ == g,
            _ => false,
        },
{
    match parse_songs(songs_json) {
        Ok(songs) => Ok(group_songs(&songs)),
        Err(e) => Err(e),
    }
}

/// Filtering a list extended by one song keeps the filtered front and
/// appends the song exactly when its album name matches.
proof fn lemma_songs_of_album_step(songs: Seq<SongView>, s: SongView, name: Seq<char>)
    ensures
        songs_of_album(songs.push(s), name) == if s.album_name == name {
            songs_of_album(songs, name).push(s)
        } else {
            songs_of_album(songs, name)
        },
{
    reveal(Seq::filter);
    assert(songs.push(s).drop_last() =~= songs);
    assert(songs.push(s).last() == s);
}

proof fn lemma_songs_of_album_empty(name: Seq<char>)
    ensures
        songs_of_album(Seq::<SongView>::empty(), name) == Seq::<SongView>::empty(),
{
    reveal(Seq::filter);
}

/// One album per collected name, in the names' order, each holding its
/// songs, makes a correct grouping.
proof fn lemma_grouped_from_parts(songs: Seq<SongView>, albums: Seq<AlbumView>, names: Seq<Seq<char>>)
    requires
        sorted_names(names),
        names_cover(songs, names),
        albums.len() == names.len(),
        forall|k: int| 0 <= k < albums.len() ==> (#[trigger] albums[k]).name == names[k],
        forall|k: int|
            0 <= k < albums.len() ==> (#[trigger] albums[k]).songs == songs_of_album(
                songs,
                names[k],
            ),
    ensures
        grouped_correctly(songs, albums),
{
    assert forall|i: int| 0 <= i < songs.len() implies has_album_named(
        albums,
        (#[trigger] songs[i]).album_name,
    ) by {
        assert(names.contains(songs[i].album_name));
        let kk = choose|kk: int| 0 <= kk < names.len() && names[kk] == songs[i].album_name;
        assert(0 <= kk < albums.len() && albums[kk].name == songs[i].album_name);
    }
    assert forall|j: int| 0 <= j < albums.len() implies (#[trigger] albums[j]).songs.len()
        > 0 by {
        let ii = choose|ii: int| 0 <= ii < songs.len() && names[j] == songs[ii].album_name;
        lemma_songs_of_album_member(songs, ii);
    }
}

/// The songs of an album named after one of the songs are never empty.
proof fn lemma_songs_of_album_member(songs: Seq<SongView>, ii: int)
    requires
        0 <= ii < songs.len(),
    ensures
        songs_of_album(songs, songs[ii].album_name).len() > 0,
    decreases songs.len(),
{
    reveal(Seq::filter);
    if ii == songs.len() - 1 {
        assert(songs.last() == songs[ii]);
    } else {
        assert(songs.drop_last()[ii] == songs[ii]);
        lemma_songs_of_album_member(songs.drop_last(), ii);
    }
}

/// Puts `nm` into the sorted name list, keeping it sorted; nothing else is
/// added or lost.
fn insert_name(names: &mut Vec<String>, nm: &String)
    requires
        sorted_names(old(names).deep_view()),
    ensures
        sorted_names(final(names).deep_view()),
        final(names).deep_view().contains(nm@),
        forall|x: Seq<char>|
            old(names).deep_view().contains(x) ==> final(names).deep_view().contains(x),
        forall|x: Seq<char>|
            final(names).deep_view().contains(x) ==> old(names).deep_view().contains(x) || x
                == nm@,
{
    let ghost nv0 = names.deep_view();
    proof {
        assert(forall|k: int| 0 <= k < nv0.len() ==> nv0[k] == (#[trigger] names@[k])@);
    }
    let m: usize = names.len();
    let mut j: usize = 0;
    while j < m && str_lt(names[j].as_str(), nm.as_str())
        invariant
            0 <= j <= m,
            m == names@.len(),
            names.deep_view() == nv0,
            forall|k: int| 0 <= k < nv0.len() ==> nv0[k] == (#[trigger] names@[k])@,
            forall|k: int| 0 <= k < j ==> lex_lt(#[trigger] nv0[k], nm@),
        decreases m - j,
    {
        j = j + 1;
    }
    if j < m && str_eq(names[j].as_str(), nm.as_str()) {
        // already present; the list is unchanged
        proof {
            assert(nv0[j as int] == nm@);
            assert(names.deep_view().contains(nm@));
        }
    } else {
        proof {
            if j < m {
                if !lex_lt(nm@, nv0[j as int]) {
                    lemma_lex_connex(nv0[j as int], nm@);
                }
                assert(lex_lt(nm@, nv0[j as int]));
            }
        }
        names.insert(j, nm.clone());
        proof {
            let nv = names.deep_view();
            assert(nv.len() == nv0.len() + 1);
            assert(forall|k: int| 0 <= k < nv.len() ==> nv[k] == (#[trigger] names@[k])@);
            assert(nv[j as int] == nm@);
            assert(forall|k: int| 0 <= k < j ==> nv[k] == nv0[k]);
            assert(forall|k: int| j < k < nv.len() ==> nv[k] == nv0[k - 1]);
            assert forall|a: int, b: int| 0 <= a < b < nv.len() implies lex_lt(
                #[trigger] nv[a],
                #[trigger] nv[b],
            ) by {
                if b < j || a > j {
                } else if a < j && b == j {
                } else if a == j && b > j {
                    if b > j + 1 {
                        lemma_lex_trans(nm@, nv0[j as int], nv0[b - 1]);
                    }
                } else if a < j && b > j {
                    if b > j + 1 {
                        lemma_lex_trans(nm@, nv0[j as int], nv0[b - 1]);
                    }
                    lemma_lex_trans(nv0[a], nm@, nv0[b - 1]);
                }
            }
            assert(nv.contains(nm@));
            assert forall|x: Seq<char>| nv0.contains(x) implies nv.contains(x) by {
                let k = choose|k: int| 0 <= k < nv0.len() && nv0[k] == x;
                if k < j {
                    assert(nv[k] == x);
                } else {
                    assert(nv[k + 1] == x);
                }
            }
            assert forall|x: Seq<char>| nv.contains(x) implies nv0.contains(x) || x == nm@ by {
                let k = choose|k: int| 0 <= k < nv.len() && nv[k] == x;
                if k < j {
                    assert(nv0[k] == x);
                } else if k > j {
                    assert(nv0[k - 1] == x);
                }
            }
        }
    }
}

/// The distinct album names among the songs, strictly sorted.
fn collect_names(songs: &Vec<Song>) -> (names: Vec<String>)
    ensures
        sorted_names(names.deep_view()),
        names_cover(songs.deep_view(), names.deep_view()),
{
    let ghost dv = songs.deep_view();
    proof {
        assert(forall|k: int| 0 <= k < dv.len() ==> dv[k] == (#[trigger] songs@[k])@);
    }
    let n: usize = songs.len();
    let mut names: Vec<String> = Vec::new();
    let mut i: usize = 0;
    proof {
        assert(names.deep_view().len() == 0);
        assert(dv.take(0) =~= Seq::<SongView>::empty());
    }
    while i < n
        invariant
            0 <= i <= n,
            n == dv.len(),
            dv == songs.deep_view(),
            n == songs@.len(),
            forall|k: int| 0 <= k < dv.len() ==> dv[k] == (#[trigger] songs@[k])@,
            sorted_names(names.deep_view()),
            names_cover(dv.take(i as int), names.deep_view()),
        decreases n - i,
    {
        let ghost nv0 = names.deep_view();
        insert_name(&mut names, &songs[i].album_name);
        proof {
            let nv = names.deep_view();
            let pre = dv.take(i as int);
            let cur = dv.take(i + 1);
            assert(cur =~= pre.push(dv[i as int]));
            assert(dv[i as int].album_name == songs@[i as int]@.album_name);
            assert forall|jj: int|
                0 <= jj < nv.len() implies exists|ii: int|
                0 <= ii < cur.len() && #[trigger] nv[jj] == cur[ii].album_name by {
                assert(nv.contains(nv[jj]));
                if nv[jj] == dv[i as int].album_name {
                    assert(cur[i as int] == dv[i as int]);
                    assert(nv[jj] == cur[i as int].album_name);
                } else {
                    assert(nv0.contains(nv[jj]));
                    let kk = choose|kk: int| 0 <= kk < nv0.len() && nv0[kk] == nv[jj];
                    let ii = choose|ii: int|
                        0 <= ii < pre.len() && nv0[kk] == pre[ii].album_name;
                    assert(cur[ii] == pre[ii]);
                    assert(nv[jj] == cur[ii].album_name);
                }
            }
            assert forall|ii: int|
                0 <= ii < cur.len() implies nv.contains(#[trigger] cur[ii].album_name) by {
                if ii < pre.len() {
                    assert(cur[ii] == pre[ii]);
                    assert(nv0.contains(pre[ii].album_name));
                } else {
                    assert(cur[ii] == dv[i as int]);
                }
            }
        }
        i = i + 1;
    }
    proof {
        assert(dv.take(n as int) =~= dv);
    }
    names
}

/// Partitions the songs into albums by exact album name: one album per
/// distinct name, its songs in their input order, the album list sorted
/// strictly ascending by name. No song is dropped or duplicated; the input
/// is left as it is.
pub fn group_songs(songs: &Vec<Song>) -> (albums: Vec<Album>)
    ensures
        grouped_correctly(songs.deep_view(), albums.deep_view()),
{
    let ghost dv = songs.deep_view();
    proof {
        assert(forall|k: int| 0 <= k < dv.len() ==> dv[k] == (#[trigger] songs@[k])@);
    }
    let names = collect_names(songs);
    let ghost nv = names.deep_view();
    proof {
        assert(forall|k: int| 0 <= k < nv.len() ==> nv[k] == (#[trigger] names@[k])@);
    }
    let n: usize = songs.len();
    let m: usize = names.len();
    let mut albums: Vec<Album> = Vec::new();
    let mut j: usize = 0;
    while j < m
        invariant
            0 <= j <= m,
            m == nv.len(),
            nv == names.deep_view(),
            m == names@.len(),
            forall|k: int| 0 <= k < nv.len() ==> nv[k] == (#[trigger] names@[k])@,
            n == dv.len(),
            dv == songs.deep_view(),
            n == songs@.len(),
            forall|k: int| 0 <= k < dv.len() ==> dv[k] == (#[trigger] songs@[k])@,
            sorted_names(nv),
            names_cover(dv, nv),
            albums@.len() == j,
            forall|k: int| 0 <= k < j ==> (#[trigger] albums@[k])@.name == nv[k],
            forall|k: int|
                0 <= k < j ==> (#[trigger] albums@[k])@.songs == songs_of_album(dv, nv[k]),
        decreases m - j,
    {
        let mut group: Vec<Song> = Vec::new();
        let mut i: usize = 0;
        proof {
            assert(dv.take(0) =~= Seq::<SongView>::empty());
            lemma_songs_of_album_empty(nv[j as int]);
            assert(group.deep_view() =~= Seq::<SongView>::empty());
        }
        while i < n
            invariant
                0 <= i <= n,
                n == dv.len(),
                dv == songs.deep_view(),
                n == songs@.len(),
                forall|k: int| 0 <= k < dv.len() ==> dv[k] == (#[trigger] songs@[k])@,
                j < m,
                m == nv.len(),
                nv == names.deep_view(),
                m == names@.len(),
                forall|k: int| 0 <= k < nv.len() ==> nv[k] == (#[trigger] names@[k])@,
                group.deep_view() == songs_of_album(dv.take(i as int), nv[j as int]),
            decreases n - i,
        {
            let ghost group0 = group.deep_view();
            let name_matches = str_eq(songs[i].album_name.as_str(), names[j].as_str());
            if name_matches {
                group.push(songs[i].duplicate());
                proof {
                    assert(group.deep_view() =~= group0.push(dv[i as int]));
                }
            }
            proof {
                lemma_songs_of_album_step(dv.take(i as int), dv[i as int], nv[j as int]);
                assert(dv.take(i + 1) =~= dv.take(i as int).push(dv[i as int]));
                assert(group.deep_view() =~= songs_of_album(dv.take(i + 1), nv[j as int]));
            }
            i = i + 1;
        }
        proof {
            assert(dv.take(n as int) =~= dv);
        }
        let ghost albums0 = albums@;
        albums.push(Album { name: names[j].clone(), songs: group });
        proof {
            assert(albums@[j as int]@.name == nv[j as int]);
            assert(albums@[j as int]@.songs =~= songs_of_album(dv, nv[j as int]));
            assert(forall|k: int| 0 <= k < j ==> albums@[k] == albums0[k]);
        }
        j = j + 1;
    }
    proof {
        let adv = albums.deep_view();
        assert(adv.len() == albums@.len());
        assert(forall|k: int| 0 <= k < adv.len() ==> adv[k] == (#[trigger] albums@[k])@);
        assert forall|k: int| 0 <= k < adv.len() implies (#[trigger] adv[k]).name == nv[k] by {
            assert(adv[k] == albums@[k]@);
        }
        assert forall|k: int| 0 <= k < adv.len() implies (#[trigger] adv[k]).songs
            == songs_of_album(dv, nv[k]) by {
            assert(adv[k] == albums@[k]@);
        }
        lemma_grouped_from_parts(dv, adv, nv);
    }
    albums
}

} // verus!
