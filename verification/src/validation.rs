use vstd::prelude::*;
use vstd::string::StringExecFns;
use crate::json::{
    lemma_arr_deep_view, obj_get, obj_has, obj_lookup, json_parse, parse_json, JsonVal, JsonView,
};
use crate::model::{BatchResult, BatchResultView, ReleaseType, Song, SongView};
use crate::text::{dec_of, str_eq, usize_to_string};

verus! {

/// The release type a text names, if any.
pub open spec fn release_of(s: Seq<char>) -> Option<ReleaseType> {
    if s == "Independent"@ {
        Some(ReleaseType::Independent)
    } else if s == "NCS"@ {
        Some(ReleaseType::NCS)
    } else if s == "Monstercat"@ {
        Some(ReleaseType::Monstercat)
    } else {
        None
    }
}

/// The message rejecting an unknown release type, naming what was given.
pub open spec fn release_type_msg(got: Seq<char>) -> Seq<char> {
    "Field 'releaseType' must be one of: Independent, NCS, Monstercat. Got: "@ + got
}

fn release_type_msg_exec(got: &String) -> (r: String)
    ensures
        r@ == release_type_msg(got@),
{
    let mut m = String::from_str(
        "Field 'releaseType' must be one of: Independent, NCS, Monstercat. Got: ",
    );
    m.append(got.as_str());
    m
}

/// The first structural failure of a song object: a missing field, a field
/// of the wrong type, or an unknown release type. Empty when the object has
/// the song shape.
pub open spec fn song_shape_msg_obj(fs: Seq<(Seq<char>, JsonView)>) -> Seq<char> {
    if !obj_has(fs, "id"@) {
        "Missing required field: id"@
    } else if !obj_has(fs, "title"@) {
        "Missing required field: title"@
    } else if !obj_has(fs, "albumName"@) {
        "Missing required field: albumName"@
    } else if !obj_has(fs, "releaseType"@) {
        "Missing required field: releaseType"@
    } else if !obj_has(fs, "hasContentId"@) {
        "Missing required field: hasContentId"@
    } else if !obj_has(fs, "streamingLink"@) {
        "Missing required field: streamingLink"@
    } else if !obj_has(fs, "license"@) {
        "Missing required field: license"@
    } else if !(obj_get(fs, "id"@) is Str) {
        "Field 'id' must be a string"@
    } else if !(obj_get(fs, "title"@) is Str) {
        "Field 'title' must be a string"@
    } else if !(obj_get(fs, "albumName"@) is Str) {
        "Field 'albumName' must be a string"@
    } else if !(obj_get(fs, "releaseType"@) is Str) {
        "Field 'releaseType' must be a string"@
    } else if !(obj_get(fs, "hasContentId"@) is Bool) {
        "Field 'hasContentId' must be a boolean"@
    } else if !(obj_get(fs, "streamingLink"@) is Str) {
        "Field 'streamingLink' must be a string"@
    } else if !(obj_get(fs, "license"@) is Str) {
        "Field 'license' must be a string"@
    } else if release_of(obj_get(fs, "releaseType"@)->Str_0) is None {
        release_type_msg(obj_get(fs, "releaseType"@)->Str_0)
    } else {
        Seq::empty()
    }
}

/// The first structural failure of a song value; empty when it is an object
/// of the song shape.
pub open spec fn song_shape_msg(v: JsonView) -> Seq<char> {
    if !(v is Obj) {
        "Song must be a JSON object"@
    } else {
        song_shape_msg_obj(v->Obj_0)
    }
}

/// The value is an object carrying all seven song fields with their right
/// types and a recognized release type.
pub open spec fn song_shape_ok(v: JsonView) -> bool {
    &&& v is Obj
    &&& obj_has(v->Obj_0, "id"@)
    &&& obj_has(v->Obj_0, "title"@)
    &&& obj_has(v->Obj_0, "albumName"@)
    &&& obj_has(v->Obj_0, "releaseType"@)
    &&& obj_has(v->Obj_0, "hasContentId"@)
    &&& obj_has(v->Obj_0, "streamingLink"@)
    &&& obj_has(v->Obj_0, "license"@)
    &&& obj_get(v->Obj_0, "id"@) is Str
    &&& obj_get(v->Obj_0, "title"@) is Str
    &&& obj_get(v->Obj_0, "albumName"@) is Str
    &&& obj_get(v->Obj_0, "releaseType"@) is Str
    &&& release_of(obj_get(v->Obj_0, "releaseType"@)->Str_0) is Some
    &&& obj_get(v->Obj_0, "hasContentId"@) is Bool
    &&& obj_get(v->Obj_0, "streamingLink"@) is Str
    &&& obj_get(v->Obj_0, "license"@) is Str
}

/// The song a shaped value describes.
pub open spec fn spec_song_of(v: JsonView) -> SongView {
    let fs = v->Obj_0;
    SongView {
        id: obj_get(fs, "id"@)->Str_0,
        title: obj_get(fs, "title"@)->Str_0,
        album_name: obj_get(fs, "albumName"@)->Str_0,
        release_type: release_of(obj_get(fs, "releaseType"@)->Str_0)->0,
        has_content_id: obj_get(fs, "hasContentId"@)->Bool_0,
        streaming_link: obj_get(fs, "streamingLink"@)->Str_0,
        license: obj_get(fs, "license"@)->Str_0,
    }
}

/// The first failure `validate_song` reports for an object, checked in
/// phases: every field present, then every field of the right type, then
/// every text field other than `license` non-empty, then the release type
/// recognized. Empty when the object is a valid song.
pub open spec fn spec_validate_song_obj(fs: Seq<(Seq<char>, JsonView)>) -> Seq<char> {
    if !obj_has(fs, "id"@) {
        "Missing required field: id"@
    } else if !obj_has(fs, "title"@) {
        "Missing required field: title"@
    } else if !obj_has(fs, "albumName"@) {
        "Missing required field: albumName"@
    } else if !obj_has(fs, "releaseType"@) {
        "Missing required field: releaseType"@
    } else if !obj_has(fs, "hasContentId"@) {
        "Missing required field: hasContentId"@
    } else if !obj_has(fs, "streamingLink"@) {
        "Missing required field: streamingLink"@
    } else if !obj_has(fs, "license"@) {
        "Missing required field: license"@
    } else if !(obj_get(fs, "id"@) is Str) {
        "Field 'id' must be a string"@
    } else if !(obj_get(fs, "title"@) is Str) {
        "Field 'title' must be a string"@
    } else if !(obj_get(fs, "albumName"@) is Str) {
        "Field 'albumName' must be a string"@
    } else if !(obj_get(fs, "releaseType"@) is Str) {
        "Field 'releaseType' must be a string"@
    } else if !(obj_get(fs, "hasContentId"@) is Bool) {
        "Field 'hasContentId' must be a boolean"@
    } else if !(obj_get(fs, "streamingLink"@) is Str) {
        "Field 'streamingLink' must be a string"@
    } else if !(obj_get(fs, "license"@) is Str) {
        "Field 'license' must be a string"@
    } else if obj_get(fs, "id"@)->Str_0.len() == 0 {
        "Field 'id' cannot be empty"@
    } else if obj_get(fs, "title"@)->Str_0.len() == 0 {
        "Field 'title' cannot be empty"@
    } else if obj_get(fs, "albumName"@)->Str_0.len() == 0 {
        "Field 'albumName' cannot be empty"@
    } else if obj_get(fs, "streamingLink"@)->Str_0.len() == 0 {
        "Field 'streamingLink' cannot be empty"@
    } else if release_of(obj_get(fs, "releaseType"@)->Str_0) is None {
        release_type_msg(obj_get(fs, "releaseType"@)->Str_0)
    } else {
        Seq::empty()
    }
}

/// The first failure `validate_song` reports for a value; empty exactly when
/// the value is a valid song record.
pub open spec fn spec_validate_song(v: JsonView) -> Seq<char> {
    if !(v is Obj) {
        "Song must be a JSON object"@
    } else {
        spec_validate_song_obj(v->Obj_0)
    }
}

/// What `validate_song` returns for a text: the parse error, or the first
/// validation failure, or the empty string for a valid song.
pub open spec fn spec_validate_song_text(s: Seq<char>) -> Seq<char> {
    match json_parse(s) {
        Err(e) => "Invalid JSON syntax: "@ + e,
        Ok(v) => spec_validate_song(v),
    }
}

/// Checks one parsed value as a song record and reports the first failure,
/// in `validate_song`'s phase order: presence, types, emptiness, release
/// type; the empty string means a valid song.
#[verifier::rlimit(50)]
pub fn validate_song_value(v: &JsonVal) -> (r: String)
    ensures
        r@ == spec_validate_song(v@),
{
    match v {
        JsonVal::Obj(_) => {},
        _ => {
            return String::from_str("Song must be a JSON object");
        },
    }
    if obj_lookup(v, "id").is_none() {
        return String::from_str("Missing required field: id");
    }
    if obj_lookup(v, "title").is_none() {
        return String::from_str("Missing required field: title");
    }
    if obj_lookup(v, "albumName").is_none() {
        return String::from_str("Missing required field: albumName");
    }
    if obj_lookup(v, "releaseType").is_none() {
        return String::from_str("Missing required field: releaseType");
    }
    if obj_lookup(v, "hasContentId").is_none() {
        return String::from_str("Missing required field: hasContentId");
    }
    if obj_lookup(v, "streamingLink").is_none() {
        return String::from_str("Missing required field: streamingLink");
    }
    if obj_lookup(v, "license").is_none() {
        return String::from_str("Missing required field: license");
    }
    let id_s = match obj_lookup(v, "id").unwrap() {
        JsonVal::Str(s) => s,
        _ => {
            return String::from_str("Field 'id' must be a string");
        },
    };
    let title_s = match obj_lookup(v, "title").unwrap() {
        JsonVal::Str(s) => s,
        _ => {
            return String::from_str("Field 'title' must be a string");
        },
    };
    let album_s = match obj_lookup(v, "albumName").unwrap() {
        JsonVal::Str(s) => s,
        _ => {
            return String::from_str("Field 'albumName' must be a string");
        },
    };
    let rt_s = match obj_lookup(v, "releaseType").unwrap() {
        JsonVal::Str(s) => s,
        _ => {
            return String::from_str("Field 'releaseType' must be a string");
        },
    };
    match obj_lookup(v, "hasContentId").unwrap() {
        JsonVal::Bool(_) => {},
        _ => {
            return String::from_str("Field 'hasContentId' must be a boolean");
        },
    }
    let link_s = match obj_lookup(v, "streamingLink").unwrap() {
        JsonVal::Str(s) => s,
        _ => {
            return String::from_str("Field 'streamingLink' must be a string");
        },
    };
    match obj_lookup(v, "license").unwrap() {
        JsonVal::Str(_) => {},
        _ => {
            return String::from_str("Field 'license' must be a string");
        },
    }
    if id_s.as_str().is_empty() {
        return String::from_str("Field 'id' cannot be empty");
    }
    if title_s.as_str().is_empty() {
        return String::from_str("Field 'title' cannot be empty");
    }
    if album_s.as_str().is_empty() {
        return String::from_str("Field 'albumName' cannot be empty");
    }
    if link_s.as_str().is_empty() {
        return String::from_str("Field 'streamingLink' cannot be empty");
    }
    if !(str_eq(rt_s.as_str(), "Independent") || str_eq(rt_s.as_str(), "NCS") || str_eq(
        rt_s.as_str(),
        "Monstercat",
    )) {
        return release_type_msg_exec(rt_s);
    }
    String::new()
}

/// Validates one song given as JSON text. Returns the empty string when the
/// text parses to a valid song record, else a message naming the first
/// failure, checked in phases: the parse problem, the payload no object,
/// a missing field, a wrongly typed field, an empty text field other than
/// `license`, an unknown release type. A field the text repeats is read as
/// its last occurrence, as `serde_json` reads a `Value`.
pub fn validate_song(song_json: &str) -> (r: String)
    ensures
        r@ == spec_validate_song_text(song_json@),
{
    match parse_json(song_json) {
        Ok(v) => validate_song_value(&v),
        Err(e) => {
            let mut m = String::from_str("Invalid JSON syntax: ");
            m.append(e.as_str());
            m
        },
    }
}

/// Reads a shaped song value into a `Song`; reports the first structural
/// failure otherwise.
#[verifier::rlimit(50)]
pub fn song_from_json(v: &JsonVal) -> (r: Result<Song, String>)
    ensures
        match r {
            Ok(s) => song_shape_ok(v@) && s@ == spec_song_of(v@),
            Err(e) => !song_shape_ok(v@) && e@ == song_shape_msg(v@),
        },
{
    match v {
        JsonVal::Obj(_) => {},
        _ => {
            return Err(String::from_str("Song must be a JSON object"));
        },
    }
    if obj_lookup(v, "id").is_none() {
        return Err(String::from_str("Missing required field: id"));
    }
    if obj_lookup(v, "title").is_none() {
        return Err(String::from_str("Missing required field: title"));
    }
    if obj_lookup(v, "albumName").is_none() {
        return Err(String::from_str("Missing required field: albumName"));
    }
    if obj_lookup(v, "releaseType").is_none() {
        return Err(String::from_str("Missing required field: releaseType"));
    }
    if obj_lookup(v, "hasContentId").is_none() {
        return Err(String::from_str("Missing required field: hasContentId"));
    }
    if obj_lookup(v, "streamingLink").is_none() {
        return Err(String::from_str("Missing required field: streamingLink"));
    }
    if obj_lookup(v, "license").is_none() {
        return Err(String::from_str("Missing required field: license"));
    }
    let id_s = match obj_lookup(v, "id").unwrap() {
        JsonVal::Str(s) => s,
        _ => {
            return Err(String::from_str("Field 'id' must be a string"));
        },
    };
    let title_s = match obj_lookup(v, "title").unwrap() {
        JsonVal::Str(s) => s,
        _ => {
            return Err(String::from_str("Field 'title' must be a string"));
        },
    };
    let album_s = match obj_lookup(v, "albumName").unwrap() {
        JsonVal::Str(s) => s,
        _ => {
            return Err(String::from_str("Field 'albumName' must be a string"));
        },
    };
    let rt_s = match obj_lookup(v, "releaseType").unwrap() {
        JsonVal::Str(s) => s,
        _ => {
            return Err(String::from_str("Field 'releaseType' must be a string"));
        },
    };
    let cid = match obj_lookup(v, "hasContentId").unwrap() {
        JsonVal::Bool(b) => *b,
        _ => {
            return Err(String::from_str("Field 'hasContentId' must be a boolean"));
        },
    };
    let link_s = match obj_lookup(v, "streamingLink").unwrap() {
        JsonVal::Str(s) => s,
        _ => {
            return Err(String::from_str("Field 'streamingLink' must be a string"));
        },
    };
    let lic_s = match obj_lookup(v, "license").unwrap() {
        JsonVal::Str(s) => s,
        _ => {
            return Err(String::from_str("Field 'license' must be a string"));
        },
    };
    let rt = if str_eq(rt_s.as_str(), "Independent") {
        ReleaseType::Independent
    } else if str_eq(rt_s.as_str(), "NCS") {
        ReleaseType::NCS
    } else if str_eq(rt_s.as_str(), "Monstercat") {
        ReleaseType::Monstercat
    } else {
        return Err(release_type_msg_exec(rt_s));
    };
    Ok(
        Song {
            id: id_s.clone(),
            title: title_s.clone(),
            album_name: album_s.clone(),
            release_type: rt,
            has_content_id: cid,
            streaming_link: link_s.clone(),
            license: lic_s.clone(),
        },
    )
}

/// Every element is an object of the song shape.
pub open spec fn all_songs_shaped(elems: Seq<JsonView>) -> bool {
    forall|i: int| 0 <= i < elems.len() ==> song_shape_ok(#[trigger] elems[i])
}

/// The index of the first element without the song shape; the length when
/// all have it.
pub open spec fn first_bad_song(elems: Seq<JsonView>) -> int
    decreases elems.len(),
{
    if elems.len() == 0 {
        0
    } else if !song_shape_ok(elems[0]) {
        0
    } else {
        1 + first_bad_song(elems.drop_first())
    }
}

proof fn lemma_first_bad_song_at(elems: Seq<JsonView>, i: int)
    requires
        0 <= i <= elems.len(),
        forall|k: int| 0 <= k < i ==> song_shape_ok(#[trigger] elems[k]),
        i < elems.len() ==> !song_shape_ok(elems[i]),
    ensures
        first_bad_song(elems) == if i < elems.len() {
            i
        } else {
            elems.len() as int
        },
    decreases elems.len(),
{
    if elems.len() == 0 {
    } else if !song_shape_ok(elems[0]) {
        assert(i == 0);
    } else {
        let rest = elems.drop_first();
        assert(forall|k: int| 0 <= k < rest.len() ==> #[trigger] rest[k] == elems[k + 1]);
        assert(i >= 1);
        lemma_first_bad_song_at(rest, i - 1);
    }
}

/// The songs the shaped elements describe, in order.
pub open spec fn spec_songs_of(elems: Seq<JsonView>) -> Seq<SongView> {
    Seq::new(elems.len(), |i: int| spec_song_of(elems[i]))
}

/// The message naming the first element without the song shape and its
/// failure.
pub open spec fn songs_err_msg(elems: Seq<JsonView>) -> Seq<char> {
    "song at index "@ + dec_of(first_bad_song(elems)) + ": "@ + song_shape_msg(
        elems[first_bad_song(elems)],
    )
}

/// Reads every element as a song; on the first element without the song
/// shape, reports its index and failure instead.
pub fn songs_from_json(arr: &Vec<JsonVal>) -> (r: Result<Vec<Song>, String>)
    ensures
        match r {
            Ok(songs) => all_songs_shaped(arr.deep_view()) && songs.deep_view() == spec_songs_of(
                arr.deep_view(),
            ),
            Err(e) => !all_songs_shaped(arr.deep_view()) && e@ == songs_err_msg(arr.deep_view()),
        },
{
    let ghost evs = arr.deep_view();
    proof {
        assert(forall|k: int| 0 <= k < evs.len() ==> evs[k] == (#[trigger] arr@[k])@);
    }
    let n: usize = arr.len();
    let mut out: Vec<Song> = Vec::new();
    let mut i: usize = 0;
    while i < n
        invariant
            0 <= i <= n,
            n == evs.len(),
            evs == arr.deep_view(),
            n == arr@.len(),
            forall|k: int| 0 <= k < evs.len() ==> evs[k] == (#[trigger] arr@[k])@,
            out.deep_view().len() == i,
            forall|k: int| 0 <= k < i ==> song_shape_ok(#[trigger] evs[k]),
            forall|k: int|
                0 <= k < i ==> out.deep_view()[k] == spec_song_of(#[trigger] evs[k]),
        decreases n - i,
    {
        let ghost out0 = out.deep_view();
        match song_from_json(&arr[i]) {
            Ok(s) => {
                out.push(s);
                proof {
                    assert(out.deep_view() =~= out0.push(spec_song_of(evs[i as int])));
                }
            },
            Err(e) => {
                proof {
                    lemma_first_bad_song_at(evs, i as int);
                }
                let mut m = String::from_str("song at index ");
                let num = usize_to_string(i);
                m.append(num.as_str());
                m.append(": ");
                m.append(e.as_str());
                return Err(m);
            },
        }
        i = i + 1;
    }
    proof {
        assert(out.deep_view() =~= spec_songs_of(evs));
    }
    Ok(out)
}

/// Every element of `validate_song`'s checks passes.
pub open spec fn all_songs_valid(elems: Seq<JsonView>) -> bool {
    forall|i: int| 0 <= i < elems.len() ==> spec_validate_song(#[trigger] elems[i]).len() == 0
}

/// The index of the first element `validate_song` rejects; the length when
/// all pass.
pub open spec fn first_invalid_song(elems: Seq<JsonView>) -> int
    decreases elems.len(),
{
    if elems.len() == 0 {
        0
    } else if spec_validate_song(elems[0]).len() != 0 {
        0
    } else {
        1 + first_invalid_song(elems.drop_first())
    }
}

proof fn lemma_first_invalid_song_at(elems: Seq<JsonView>, i: int)
    requires
        0 <= i <= elems.len(),
        forall|k: int| 0 <= k < i ==> spec_validate_song(#[trigger] elems[k]).len() == 0,
        i < elems.len() ==> spec_validate_song(elems[i]).len() != 0,
    ensures
        first_invalid_song(elems) == if i < elems.len() {
            i
        } else {
            elems.len() as int
        },
    decreases elems.len(),
{
    if elems.len() == 0 {
    } else if spec_validate_song(elems[0]).len() != 0 {
        assert(i == 0);
    } else {
        let rest = elems.drop_first();
        assert(forall|k: int| 0 <= k < rest.len() ==> #[trigger] rest[k] == elems[k + 1]);
        assert(i >= 1);
        lemma_first_invalid_song_at(rest, i - 1);
    }
}

/// An earlier song carries the same identifier.
pub open spec fn dup_before(ss: Seq<SongView>, i: int) -> bool {
    exists|k: int| 0 <= k < i && (#[trigger] ss[k]).id == ss[i].id
}

/// The first index from `i` on whose identifier repeats an earlier one; the
/// length when none does.
pub open spec fn first_dup_from(ss: Seq<SongView>, i: int) -> int
    decreases ss.len() - i,
{
    if i < 0 || i >= ss.len() {
        ss.len() as int
    } else if dup_before(ss, i) {
        i
    } else {
        first_dup_from(ss, i + 1)
    }
}

proof fn lemma_first_dup_at(ss: Seq<SongView>, j: int, i: int)
    requires
        0 <= j <= i <= ss.len(),
        forall|k: int| j <= k < i ==> !dup_before(ss, k),
        i < ss.len() ==> dup_before(ss, i),
    ensures
        first_dup_from(ss, j) == if i < ss.len() {
            i
        } else {
            ss.len() as int
        },
    decreases i - j,
{
    if j < i {
        lemma_first_dup_at(ss, j + 1, i);
    }
}

/// The value is an object with a string `name` and an array `songs` of
/// song-shaped elements.
pub open spec fn album_shape_ok(v: JsonView) -> bool {
    &&& v is Obj
    &&& obj_has(v->Obj_0, "name"@)
    &&& obj_get(v->Obj_0, "name"@) is Str
    &&& obj_has(v->Obj_0, "songs"@)
    &&& obj_get(v->Obj_0, "songs"@) is Arr
    &&& all_songs_shaped(obj_get(v->Obj_0, "songs"@)->Arr_0)
}

/// The first structural failure of an album value; empty when it has the
/// album shape.
pub open spec fn album_shape_msg(v: JsonView) -> Seq<char> {
    if !(v is Obj) {
        "Album must be a JSON object"@
    } else if !obj_has(v->Obj_0, "name"@) {
        "Missing required field: name"@
    } else if !(obj_get(v->Obj_0, "name"@) is Str) {
        "Field 'name' must be a string"@
    } else if !obj_has(v->Obj_0, "songs"@) {
        "Missing required field: songs"@
    } else if !(obj_get(v->Obj_0, "songs"@) is Arr) {
        "Field 'songs' must be an array"@
    } else {
        songs_err_msg(obj_get(v->Obj_0, "songs"@)->Arr_0)
    }
}

/// Every element has the album shape.
pub open spec fn all_albums_shaped(elems: Seq<JsonView>) -> bool {
    forall|i: int| 0 <= i < elems.len() ==> album_shape_ok(#[trigger] elems[i])
}

/// The index of the first element without the album shape; the length when
/// all have it.
pub open spec fn first_bad_album(elems: Seq<JsonView>) -> int
    decreases elems.len(),
{
    if elems.len() == 0 {
        0
    } else if !album_shape_ok(elems[0]) {
        0
    } else {
        1 + first_bad_album(elems.drop_first())
    }
}

proof fn lemma_first_bad_album_at(elems: Seq<JsonView>, i: int)
    requires
        0 <= i <= elems.len(),
        forall|k: int| 0 <= k < i ==> album_shape_ok(#[trigger] elems[k]),
        i < elems.len() ==> !album_shape_ok(elems[i]),
    ensures
        first_bad_album(elems) == if i < elems.len() {
            i
        } else {
            elems.len() as int
        },
    decreases elems.len(),
{
    if elems.len() == 0 {
    } else if !album_shape_ok(elems[0]) {
        assert(i == 0);
    } else {
        let rest = elems.drop_first();
        assert(forall|k: int| 0 <= k < rest.len() ==> #[trigger] rest[k] == elems[k + 1]);
        assert(i >= 1);
        lemma_first_bad_album_at(rest, i - 1);
    }
}

/// The message naming the first element without the album shape and its
/// failure.
pub open spec fn albums_err_msg(elems: Seq<JsonView>) -> Seq<char> {
    "album at index "@ + dec_of(first_bad_album(elems)) + ": "@ + album_shape_msg(
        elems[first_bad_album(elems)],
    )
}

/// Checks one value for the album shape and reports its first structural
/// failure.
fn album_shape_check(v: &JsonVal) -> (r: Result<(), String>)
    ensures
        match r {
            Ok(u) => album_shape_ok(v@),
            Err(e) => !album_shape_ok(v@) && e@ == album_shape_msg(v@),
        },
{
    match v {
        JsonVal::Obj(_) => {},
        _ => {
            return Err(String::from_str("Album must be a JSON object"));
        },
    }
    if obj_lookup(v, "name").is_none() {
        return Err(String::from_str("Missing required field: name"));
    }
    match obj_lookup(v, "name").unwrap() {
        JsonVal::Str(_) => {},
        _ => {
            return Err(String::from_str("Field 'name' must be a string"));
        },
    }
    if obj_lookup(v, "songs").is_none() {
        return Err(String::from_str("Missing required field: songs"));
    }
    let elems = match obj_lookup(v, "songs").unwrap() {
        JsonVal::Arr(a) => a,
        _ => {
            return Err(String::from_str("Field 'songs' must be an array"));
        },
    };
    proof {
        lemma_arr_deep_view(elems);
    }
    match songs_from_json(elems) {
        Ok(_) => Ok(()),
        Err(e) => Err(e),
    }
}

/// The first failure `validate_music_data` reports for a parsed payload, in
/// its checking order: the payload an object, `songs` present and an array,
/// the whole structure well shaped (albums included, when present), every
/// song valid, song identifiers unique, and no albums without songs. Empty
/// when the catalog is valid.
pub open spec fn spec_validate_music_data(v: JsonView) -> Seq<char> {
    if !(v is Obj) {
        "Music data must be a JSON object"@
    } else {
        let fs = v->Obj_0;
        if !obj_has(fs, "songs"@) {
            "Missing required field: songs"@
        } else if !(obj_get(fs, "songs"@) is Arr) {
            "Field 'songs' must be an array"@
        } else {
            let elems = obj_get(fs, "songs"@)->Arr_0;
            if !all_songs_shaped(elems) {
                "Invalid music data structure: "@ + songs_err_msg(elems)
            } else if obj_has(fs, "albums"@) && !(obj_get(fs, "albums"@) is Arr) {
                "Invalid music data structure: field 'albums' must be an array"@
            } else if obj_has(fs, "albums"@) && !all_albums_shaped(obj_get(fs, "albums"@)->Arr_0) {
                "Invalid music data structure: "@ + albums_err_msg(obj_get(fs, "albums"@)->Arr_0)
            } else if !all_songs_valid(elems) {
                "Song at index "@ + dec_of(first_invalid_song(elems)) + " is invalid: "@
                    + spec_validate_song(elems[first_invalid_song(elems)])
            } else if first_dup_from(spec_songs_of(elems), 0) < elems.len() {
                "Duplicate song ID '"@ + spec_songs_of(elems)[first_dup_from(
                    spec_songs_of(elems),
                    0,
                )].id + "' found at index "@ + dec_of(first_dup_from(spec_songs_of(elems), 0))
            } else if elems.len() == 0 && obj_has(fs, "albums"@) && obj_get(
                fs,
                "albums"@,
            )->Arr_0.len() > 0 {
                "Cannot have albums without songs"@
            } else {
                Seq::empty()
            }
        }
    }
}

/// What `validate_music_data` returns for a text: the parse error, or the
/// first failure of the catalog, or the empty string when it is valid.
pub open spec fn spec_validate_music_data_text(s: Seq<char>) -> Seq<char> {
    match json_parse(s) {
        Err(e) => "Invalid JSON syntax: "@ + e,
        Ok(v) => spec_validate_music_data(v),
    }
}

/// Validates a whole catalog given as JSON text. Returns the empty string
/// when it is valid, else a message naming the first failure, checked in
/// this order: the text parses, the payload is an object, `songs` is
/// present and an array, songs and albums have the right structure, every
/// song passes `validate_song`, no song identifier repeats, and a non-empty
/// album list needs songs.
#[verifier::rlimit(100)]
#[verifier::loop_isolation(false)]
pub fn validate_music_data(data_json: &str) -> (r: String)
    ensures
        r@ == spec_validate_music_data_text(data_json@),
{
    let parsed = match parse_json(data_json) {
        Ok(v) => v,
        Err(e) => {
            let mut m = String::from_str("Invalid JSON syntax: ");
            m.append(e.as_str());
            return m;
        },
    };
    match &parsed {
        JsonVal::Obj(_) => {},
        _ => {
            return String::from_str("Music data must be a JSON object");
        },
    }
    if obj_lookup(&parsed, "songs").is_none() {
        return String::from_str("Missing required field: songs");
    }
    let elems = match obj_lookup(&parsed, "songs").unwrap() {
        JsonVal::Arr(a) => a,
        _ => {
            return String::from_str("Field 'songs' must be an array");
        },
    };
    proof {
        lemma_arr_deep_view(elems);
    }
    let ghost evs = elems.deep_view();
    let songs = match songs_from_json(elems) {
        Ok(s) => s,
        Err(e) => {
            let mut m = String::from_str("Invalid music data structure: ");
            m.append(e.as_str());
            return m;
        },
    };
    if obj_lookup(&parsed, "albums").is_some() {
        let albs = match obj_lookup(&parsed, "albums").unwrap() {
            JsonVal::Arr(a) => a,
            _ => {
                return String::from_str(
                    "Invalid music data structure: field 'albums' must be an array",
                );
            },
        };
        proof {
            lemma_arr_deep_view(albs);
        }
        let ghost avs = albs.deep_view();
        let an: usize = albs.len();
        let mut j: usize = 0;
        while j < an
            invariant
                0 <= j <= an,
                an == avs.len(),
                avs == albs.deep_view(),
                an == albs@.len(),
                forall|k: int| 0 <= k < avs.len() ==> avs[k] == (#[trigger] albs@[k])@,
                forall|k: int| 0 <= k < j ==> album_shape_ok(#[trigger] avs[k]),
            decreases an - j,
        {
            match album_shape_check(&albs[j]) {
                Ok(_) => {},
                Err(e) => {
                    proof {
                        lemma_first_bad_album_at(avs, j as int);
                    }
                    let mut m = String::from_str("Invalid music data structure: ");
                    let mut sub = String::from_str("album at index ");
                    let num = usize_to_string(j);
                    sub.append(num.as_str());
                    sub.append(": ");
                    sub.append(e.as_str());
                    m.append(sub.as_str());
                    return m;
                },
            }
            j = j + 1;
        }
    }
    let n: usize = elems.len();
    let mut i: usize = 0;
    while i < n
        invariant
            0 <= i <= n,
            n == evs.len(),
            evs == elems.deep_view(),
            n == elems@.len(),
            forall|k: int| 0 <= k < evs.len() ==> evs[k] == (#[trigger] elems@[k])@,
            forall|k: int| 0 <= k < i ==> spec_validate_song(#[trigger] evs[k]).len() == 0,
        decreases n - i,
    {
        let msg = validate_song_value(&elems[i]);
        if !msg.as_str().is_empty() {
            proof {
                lemma_first_invalid_song_at(evs, i as int);
            }
            let mut m = String::from_str("Song at index ");
            let num = usize_to_string(i);
            m.append(num.as_str());
            m.append(" is invalid: ");
            m.append(msg.as_str());
            return m;
        }
        i = i + 1;
    }
    let ghost ss = spec_songs_of(evs);
    let sn: usize = songs.len();
    let mut i2: usize = 1;
    proof {
        assert(forall|k: int| 0 <= k < ss.len() ==> songs.deep_view()[k] == #[trigger] ss[k]);
        assert(forall|k: int| 0 <= k < songs@.len() ==> songs.deep_view()[k] == (
        #[trigger] songs@[k])@);
    }
    while i2 < sn
        invariant
            1 <= i2 <= sn || (sn == 0 && i2 == 1),
            sn == songs@.len(),
            sn == ss.len(),
            ss == spec_songs_of(evs),
            evs == elems.deep_view(),
            forall|k: int| 0 <= k < ss.len() ==> (#[trigger] songs@[k])@ == ss[k],
            forall|k: int| 0 <= k < i2 ==> !dup_before(ss, k),
        decreases sn - i2,
    {
        let mut k: usize = 0;
        let mut found: bool = false;
        while k < i2
            invariant
                0 <= k <= i2,
                i2 < sn,
                sn == songs@.len(),
                sn == ss.len(),
                forall|kk: int| 0 <= kk < ss.len() ==> (#[trigger] songs@[kk])@ == ss[kk],
                found == exists|kk: int| 0 <= kk < k && (#[trigger] ss[kk]).id == ss[i2 as int].id,
            decreases i2 - k,
        {
            if str_eq(songs[k].id.as_str(), songs[i2].id.as_str()) {
                found = true;
            }
            k = k + 1;
        }
        if found {
            proof {
                lemma_first_dup_at(ss, 0, i2 as int);
            }
            let mut m = String::from_str("Duplicate song ID '");
            m.append(songs[i2].id.as_str());
            m.append("' found at index ");
            let num = usize_to_string(i2);
            m.append(num.as_str());
            return m;
        }
        i2 = i2 + 1;
    }
    proof {
        if sn > 0 {
            lemma_first_dup_at(ss, 0, sn as int);
        } else {
            assert(first_dup_from(ss, 0) == 0);
        }
    }
    if songs.len() == 0 {
        if obj_lookup(&parsed, "albums").is_some() {
            match obj_lookup(&parsed, "albums").unwrap() {
                JsonVal::Arr(a) => {
                    if a.len() > 0 {
                        proof {
                            lemma_arr_deep_view(a);
                        }
                        return String::from_str("Cannot have albums without songs");
                    }
                },
                _ => {},
            }
        }
    }
    String::new()
}

/// What parsing a song-list text yields: the songs, or the error the
/// filter and the grouper report for a malformed payload.
pub open spec fn spec_songs_payload(s: Seq<char>) -> Result<Seq<SongView>, Seq<char>> {
    match json_parse(s) {
        Err(e) => Err("Invalid JSON: "@ + e),
        Ok(v) => if !(v is Arr) {
            Err("Invalid JSON: expected a JSON array of songs"@)
        } else if !all_songs_shaped(v->Arr_0) {
            Err("Invalid JSON: "@ + songs_err_msg(v->Arr_0))
        } else {
            Ok(spec_songs_of(v->Arr_0))
        },
    }
}

/// Reads a JSON text as a list of songs, or reports why it is no such
/// list: a parse failure, a payload that is no array, or an element without
/// the song shape.
pub fn parse_songs(songs_json: &str) -> (r: Result<Vec<Song>, String>)
    ensures
        match (r, spec_songs_payload(songs_json@)) {
            (Ok(songs), Ok(g)) => songs.deep_view() == g,
            (Err(e), Err(g)) => e@ == g,
            _ => false,
        },
{
    let parsed = match parse_json(songs_json) {
        Ok(v) => v,
        Err(e) => {
            let mut m = String::from_str("Invalid JSON: ");
            m.append(e.as_str());
            return Err(m);
        },
    };
    let elems = match &parsed {
        JsonVal::Arr(a) => a,
        _ => {
            return Err(String::from_str("Invalid JSON: expected a JSON array of songs"));
        },
    };
    proof {
        lemma_arr_deep_view(elems);
    }
    match songs_from_json(elems) {
        Ok(s) => Ok(s),
        Err(e) => {
            let mut m = String::from_str("Invalid JSON: ");
            m.append(e.as_str());
            Err(m)
        },
    }
}

/// The message reporting a repeated identifier within a batch.
pub open spec fn dup_id_msg(id: Seq<char>) -> Seq<char> {
    "Duplicate ID '"@ + id + "'"@
}

/// The identifier a record carries, where it is an object whose `id` field
/// is text.
pub open spec fn song_id_of(v: JsonView) -> Option<Seq<char>> {
    if v is Obj && obj_has(v->Obj_0, "id"@) && obj_get(v->Obj_0, "id"@) is Str {
        Some(obj_get(v->Obj_0, "id"@)->Str_0)
    } else {
        None
    }
}

/// The record at `i` carries an identifier that some earlier record of the
/// batch also carries.
pub open spec fn dup_id_before(elems: Seq<JsonView>, i: int) -> bool {
    song_id_of(elems[i]) is Some && exists|k: int|
        0 <= k < i && song_id_of(#[trigger] elems[k]) == song_id_of(elems[i])
}

/// Every element is a JSON object.
pub open spec fn all_objects(elems: Seq<JsonView>) -> bool {
    forall|i: int| 0 <= i < elems.len() ==> (#[trigger] elems[i]) is Obj
}

/// The index of the first element that is no JSON object; the length when
/// all are.
pub open spec fn first_non_object(elems: Seq<JsonView>) -> int
    decreases elems.len(),
{
    if elems.len() == 0 {
        0
    } else if !(elems[0] is Obj) {
        0
    } else {
        1 + first_non_object(elems.subrange(1, elems.len() as int))
    }
}

proof fn lemma_first_non_object_at(elems: Seq<JsonView>, i: int)
    requires
        0 <= i <= elems.len(),
        forall|k: int| 0 <= k < i ==> (#[trigger] elems[k]) is Obj,
        i < elems.len() ==> !(elems[i] is Obj),
    ensures
        first_non_object(elems) == if i < elems.len() {
            i
        } else {
            elems.len() as int
        },
    decreases elems.len(),
{
    if elems.len() == 0 {
    } else if !(elems[0] is Obj) {
        assert(i == 0);
    } else {
        let rest = elems.subrange(1, elems.len() as int);
        assert(forall|k: int| 0 <= k < rest.len() ==> #[trigger] rest[k] == elems[k + 1]);
        assert(i >= 1);
        lemma_first_non_object_at(rest, i - 1);
    }
}

/// The outcome `batch_validate_songs` reports for the record at `i`: its
/// duplicate-identifier reason first, then its `validate_song` failure,
/// both when both apply; valid when neither does. The identifier is carried
/// where the record has one as text.
pub open spec fn spec_batch_entry(elems: Seq<JsonView>, i: int) -> BatchResultView {
    let dup = dup_id_before(elems, i);
    let vmsg = spec_validate_song(elems[i]);
    let errs = (if dup {
        seq![dup_id_msg(song_id_of(elems[i])->0)]
    } else {
        Seq::<Seq<char>>::empty()
    }) + (if vmsg.len() > 0 {
        seq![vmsg]
    } else {
        Seq::<Seq<char>>::empty()
    });
    BatchResultView {
        index: i,
        valid: errs.len() == 0,
        song_id: song_id_of(elems[i]),
        errors: errs,
    }
}

/// One outcome per record of the batch, in order.
pub open spec fn spec_batch_results(elems: Seq<JsonView>) -> Seq<BatchResultView> {
    Seq::new(elems.len(), |i: int| spec_batch_entry(elems, i))
}

/// What `batch_validate_songs` returns for a text. The whole batch is
/// rejected only when the input itself is malformed: it does not parse, it
/// is no array, or an element is no object. An object element that fails
/// validation still gets its own outcome.
pub open spec fn spec_batch_text(s: Seq<char>) -> Result<Seq<BatchResultView>, Seq<char>> {
    match json_parse(s) {
        Err(e) => Err("Invalid JSON syntax: "@ + e),
        Ok(v) => if !(v is Arr) {
            Err("Input must be a JSON array of songs"@)
        } else if !all_objects(v->Arr_0) {
            Err(
                "Failed to parse songs array: song at index "@ + dec_of(
                    first_non_object(v->Arr_0),
                ) + ": Song must be a JSON object"@,
            )
        } else {
            Ok(spec_batch_results(v->Arr_0))
        },
    }
}

/// Validates every record of a batch given as JSON text. Only malformed
/// top-level input — text that does not parse, a payload that is no array,
/// an element that is no object — gives one error for the whole batch.
/// Every object element gets its own outcome: whether its identifier
/// repeats an earlier one in the same batch, and whether it passes
/// `validate_song`, with every failure reason listed, the duplicate reason
/// first.
#[verifier::rlimit(100)]
#[verifier::loop_isolation(false)]
pub fn batch_validate_songs(songs_json: &str) -> (r: Result<Vec<BatchResult>, String>)
    ensures
        match (r, spec_batch_text(songs_json@)) {
            (Ok(rs), Ok(g)) => rs.deep_view() == g,
            (Err(e), Err(g)) => e@ == g,
            _ => false,
        },
{
    let parsed = match parse_json(songs_json) {
        Ok(v) => v,
        Err(e) => {
            let mut m = String::from_str("Invalid JSON syntax: ");
            m.append(e.as_str());
            return Err(m);
        },
    };
    let elems = match &parsed {
        JsonVal::Arr(a) => a,
        _ => {
            return Err(String::from_str("Input must be a JSON array of songs"));
        },
    };
    proof {
        lemma_arr_deep_view(elems);
    }
    let ghost evs = elems.deep_view();
    proof {
        assert(evs.len() == elems@.len());
        assert(forall|k: int| 0 <= k < evs.len() ==> evs[k] == (#[trigger] elems@[k])@);
    }
    let n: usize = elems.len();
    let mut j: usize = 0;
    while j < n
        invariant
            0 <= j <= n,
            forall|k: int| 0 <= k < j ==> (#[trigger] evs[k]) is Obj,
        decreases n - j,
    {
        match &elems[j] {
            JsonVal::Obj(_) => {},
            _ => {
                proof {
                    lemma_first_non_object_at(evs, j as int);
                }
                let mut m = String::from_str("Failed to parse songs array: song at index ");
                let num = usize_to_string(j);
                m.append(num.as_str());
                m.append(": Song must be a JSON object");
                return Err(m);
            },
        }
        j = j + 1;
    }
    proof {
        lemma_first_non_object_at(evs, n as int);
    }
    let mut results: Vec<BatchResult> = Vec::new();
    let mut i: usize = 0;
    while i < n
        invariant
            0 <= i <= n,
            results.deep_view().len() == i,
            forall|k: int|
                0 <= k < i ==> results.deep_view()[k] == spec_batch_entry(evs, k),
        decreases n - i,
    {
        let mut has_id: bool = false;
        let mut id_str: String = String::new();
        match obj_lookup(&elems[i], "id") {
            Some(f) => {
                match f {
                    JsonVal::Str(s) => {
                        has_id = true;
                        id_str = s.clone();
                    },
                    _ => {},
                }
            },
            None => {},
        }
        proof {
            assert(has_id == (song_id_of(evs[i as int]) is Some));
            if has_id {
                assert(id_str@ == song_id_of(evs[i as int])->0);
            }
        }
        let mut k: usize = 0;
        let mut dup: bool = false;
        while k < i
            invariant
                0 <= k <= i,
                i < n,
                has_id == (song_id_of(evs[i as int]) is Some),
                has_id ==> id_str@ == song_id_of(evs[i as int])->0,
                dup == (song_id_of(evs[i as int]) is Some && exists|kk: int|
                    0 <= kk < k && song_id_of(#[trigger] evs[kk]) == song_id_of(evs[i as int])),
            decreases i - k,
        {
            if has_id {
                match obj_lookup(&elems[k], "id") {
                    Some(f) => {
                        match f {
                            JsonVal::Str(b) => {
                                if str_eq(id_str.as_str(), b.as_str()) {
                                    dup = true;
                                }
                            },
                            _ => {},
                        }
                    },
                    None => {},
                }
            }
            k = k + 1;
        }
        let mut errors: Vec<String> = Vec::new();
        if dup {
            let mut m = String::from_str("Duplicate ID '");
            m.append(id_str.as_str());
            m.append("'");
            errors.push(m);
        }
        let vmsg = validate_song_value(&elems[i]);
        let vbad = !vmsg.as_str().is_empty();
        if vbad {
            errors.push(vmsg);
        }
        let valid = errors.len() == 0;
        let ghost results0 = results.deep_view();
        let song_id: Option<String> = if has_id {
            Some(id_str)
        } else {
            None
        };
        let entry = BatchResult { index: i, valid, song_id, errors };
        proof {
            let g = spec_batch_entry(evs, i as int);
            assert(entry@.errors =~= g.errors);
            assert(entry@.song_id == g.song_id);
            assert(entry@ == g);
        }
        results.push(entry);
        proof {
            assert(results.deep_view() =~= results0.push(spec_batch_entry(evs, i as int)));
        }
        i = i + 1;
    }
    proof {
        assert(results.deep_view() =~= spec_batch_results(evs));
    }
    Ok(results)
}

} // verus!
