use vstd::prelude::*;
use vstd::string::StrSliceExecFns;
use crate::json::{json_parse, parse_json};
use crate::model::{ReleaseType, Song, SongView};
use crate::text::{trim_of, trim_str, to_upper, upper_of};
use crate::validation::{
    parse_songs, song_from_json, song_shape_ok, spec_song_of, spec_songs_payload,
};

verus! {

/// A decimal digit.
pub open spec fn is_digit_char(c: char) -> bool {
    '0' <= c && c <= '9'
}

/// Every character of `s` is a decimal digit.
pub open spec fn all_digits(s: Seq<char>) -> bool {
    forall|i: int| 0 <= i < s.len() ==> is_digit_char(#[trigger] s[i])
}

/// `s` is a version tail: one space, one or more digits, a dot, one or more
/// digits.
pub open spec fn is_version_suffix(s: Seq<char>) -> bool {
    &&& s.len() >= 4
    &&& s[0] == ' '
    &&& exists|j: int|
        1 < j < s.len() - 1 && #[trigger] s[j] == '.' && all_digits(s.subrange(1, j)) && all_digits(
            s.subrange(j + 1, s.len() as int),
        )
}

/// `s` is exactly `prefix`, or `prefix` followed by a version tail.
pub open spec fn matches_cc_pattern(s: Seq<char>, prefix: Seq<char>) -> bool {
    ||| s == prefix
    ||| (s.len() > prefix.len() && s.subrange(0, prefix.len() as int) == prefix
        && is_version_suffix(s.subrange(prefix.len() as int, s.len() as int)))
}

/// The license text, uppercased then trimmed, is one of the Creative Commons
/// forms that allow commercial use: `CC BY`, `CC BY-SA` or `CC0`, each with an
/// optional version.
pub open spec fn spec_commercial_cc(s: Seq<char>) -> bool {
    let t = trim_of(upper_of(s));
    ||| matches_cc_pattern(t, "CC BY"@)
    ||| matches_cc_pattern(t, "CC BY-SA"@)
    ||| matches_cc_pattern(t, "CC0"@)
}

fn digit_test(c: char) -> (r: bool)
    ensures
        r == is_digit_char(c),
{
    '0' <= c && c <= '9'
}

/// Decides whether the characters of `t` from `start` on form a version tail.
fn version_suffix_check(t: &str, start: usize, n: usize) -> (r: bool)
    requires
        n == t@.len(),
        start < n,
    ensures
        r == is_version_suffix(t@.subrange(start as int, t@.len() as int)),
{
    let ghost sub = t@.subrange(start as int, t@.len() as int);
    proof {
        assert(forall|k: int| 0 <= k < sub.len() ==> sub[k] == t@[start + k]);
    }
    if n - start < 4 {
        return false;
    }
    if t.get_char(start) != ' ' {
        return false;
    }
    let mut i: usize = start + 1;
    while i < n && digit_test(t.get_char(i))
        invariant
            start + 1 <= i <= n,
            n == t@.len(),
            forall|k: int| start + 1 <= k < i ==> is_digit_char(#[trigger] t@[k]),
        decreases n - i,
    {
        i = i + 1;
    }
    if i == start + 1 {
        // the character right after the space is no digit, so no split point
        // leaves a digit run before the dot
        proof {
            assert(!is_digit_char(t@[start + 1]));
            assert forall|j: int|
                1 < j < sub.len() - 1 && sub[j] == '.' implies !(all_digits(
                sub.subrange(1, j),
            ) && all_digits(sub.subrange(j + 1, sub.len() as int))) by {
                assert(sub.subrange(1, j)[0] == sub[1]);
                assert(sub[1] == t@[start + 1]);
            }
        }
        return false;
    }
    if i == n {
        // digits run to the end: there is no dot after them
        proof {
            assert forall|j: int|
                1 < j < sub.len() - 1 && #[trigger] sub[j] == '.' implies false by {
                assert(sub[j] == t@[start + j]);
                assert(is_digit_char(t@[start + j]));
            }
        }
        return false;
    }
    let dot: usize = i;
    if t.get_char(dot) != '.' {
        // the digit run ends at a character that is neither digit nor dot
        proof {
            assert forall|j: int|
                1 < j < sub.len() - 1 && #[trigger] sub[j] == '.' implies !(all_digits(
                sub.subrange(1, j),
            ) && all_digits(sub.subrange(j + 1, sub.len() as int))) by {
                if start + j < dot {
                    assert(sub[j] == t@[start + j]);
                    assert(is_digit_char(t@[start + j]));
                } else if start + j == dot {
                    assert(sub[j] == t@[dot as int]);
                } else {
                    assert(sub.subrange(1, j)[dot - start - 1] == sub[dot - start]);
                    assert(sub[dot - start] == t@[dot as int]);
                    assert(!is_digit_char(t@[dot as int]));
                }
            }
        }
        return false;
    }
    if dot + 1 == n {
        // the dot is the last character: no digits can follow it
        proof {
            assert forall|j: int|
                1 < j < sub.len() - 1 && #[trigger] sub[j] == '.' implies !(all_digits(
                sub.subrange(1, j),
            ) && all_digits(sub.subrange(j + 1, sub.len() as int))) by {
                if start + j < dot {
                    assert(sub[j] == t@[start + j]);
                    assert(is_digit_char(t@[start + j]));
                }
            }
        }
        return false;
    }
    let mut j: usize = dot + 1;
    while j < n && digit_test(t.get_char(j))
        invariant
            dot + 1 <= j <= n,
            n == t@.len(),
            forall|k: int| dot + 1 <= k < j ==> is_digit_char(#[trigger] t@[k]),
        decreases n - j,
    {
        j = j + 1;
    }
    if j < n {
        // a non-digit after the dot: no split point works
        proof {
            assert(!is_digit_char(t@[j as int]));
            assert forall|jj: int|
                1 < jj < sub.len() - 1 && #[trigger] sub[jj] == '.' implies !(all_digits(
                sub.subrange(1, jj),
            ) && all_digits(sub.subrange(jj + 1, sub.len() as int))) by {
                if start + jj < dot {
                    assert(sub[jj] == t@[start + jj]);
                    assert(is_digit_char(t@[start + jj]));
                } else if start + jj == dot {
                    if j - start <= jj {
                        assert(sub[jj] == t@[start + jj]);
                        assert(is_digit_char(t@[start + jj]));
                    } else {
                        assert(sub.subrange(jj + 1, sub.len() as int)[j - start - jj - 1] == sub[j
                            - start]);
                        assert(sub[j - start] == t@[j as int]);
                    }
                } else {
                    assert(sub.subrange(1, jj)[dot - start - 1] == sub[dot - start]);
                    assert(sub[dot - start] == t@[dot as int]);
                    assert(!is_digit_char(t@[dot as int]));
                }
            }
        }
        return false;
    }
    proof {
        let w = dot - start;
        assert(sub[w] == t@[dot as int]);
        assert(1 < w < sub.len() - 1);
        assert(all_digits(sub.subrange(1, w as int))) by {
            assert(forall|k: int|
                0 <= k < w - 1 ==> sub.subrange(1, w as int)[k] == #[trigger] sub[k + 1]
                    && sub[k + 1] == t@[start + k + 1]);
        }
        assert(all_digits(sub.subrange(w + 1, sub.len() as int))) by {
            assert(forall|k: int|
                0 <= k < sub.len() - w - 1 ==> sub.subrange(w + 1, sub.len() as int)[k]
                    == #[trigger] sub[k + w + 1] && sub[k + w + 1] == t@[start + k + w + 1]);
        }
        assert(sub[0] == t@[start as int]);
    }
    true
}

/// Decides whether `t` is exactly `prefix` or `prefix` followed by a version
/// tail.
fn cc_pattern_match(t: &str, prefix: &str) -> (r: bool)
    ensures
        r == matches_cc_pattern(t@, prefix@),
{
    let nt: usize = t.unicode_len();
    let np: usize = prefix.unicode_len();
    if nt < np {
        return false;
    }
    let mut i: usize = 0;
    while i < np
        invariant
            0 <= i <= np,
            np == prefix@.len(),
            nt == t@.len(),
            nt >= np,
            forall|k: int| 0 <= k < i ==> t@[k] == prefix@[k],
        decreases np - i,
    {
        if t.get_char(i) != prefix.get_char(i) {
            proof {
                assert(t@[i as int] != prefix@[i as int]);
                assert(t@.subrange(0, np as int)[i as int] == t@[i as int]);
            }
            return false;
        }
        i = i + 1;
    }
    if nt == np {
        proof {
            assert(t@ =~= prefix@);
        }
        return true;
    }
    proof {
        assert(t@.subrange(0, np as int) =~= prefix@);
    }
    version_suffix_check(t, np, nt)
}

/// Whether the license text, after uppercasing and trimming, is a commercial
/// Creative Commons license: `CC BY`, `CC BY-SA` or `CC0`, each optionally
/// followed by a version number. Non-commercial variants do not match.
pub fn is_commercial_cc_license(license: &str) -> (r: bool)
    ensures
        r == spec_commercial_cc(license@),
{
    let upper = to_upper(license);
    let t = trim_str(upper.as_str());
    cc_pattern_match(t, "CC BY") || cc_pattern_match(t, "CC BY-SA") || cc_pattern_match(t, "CC0")
}

/// Any license whose uppercased then trimmed text is `CC BY`, `CC BY-SA` or
/// `CC0`, alone or followed by a version number, counts as a commercial
/// Creative Commons license, whatever case or surrounding whitespace the
/// text carries.
pub proof fn lemma_cc_forms_commercial(s: Seq<char>)
    requires
        matches_cc_pattern(trim_of(upper_of(s)), "CC BY"@) || matches_cc_pattern(
            trim_of(upper_of(s)),
            "CC BY-SA"@,
        ) || matches_cc_pattern(trim_of(upper_of(s)), "CC0"@),
    ensures
        spec_commercial_cc(s),
{
}

/// A lowercase ASCII letter mapped to its uppercase form; anything else kept.
pub open spec fn ascii_upper_char(c: char) -> char {
    if 'a' <= c && c <= 'z' {
        ((c as u32) - 0x20) as char
    } else {
        c
    }
}

/// The two sequences are equal up to ASCII case.
pub open spec fn eq_ignore_ascii_case_of(a: Seq<char>, b: Seq<char>) -> bool {
    a.len() == b.len() && forall|i: int|
        0 <= i < a.len() ==> ascii_upper_char(#[trigger] a[i]) == ascii_upper_char(b[i])
}

/// The license text, trimmed, equals the permissive token `BGML-P` up to
/// ASCII case.
pub open spec fn spec_bgml_p(s: Seq<char>) -> bool {
    eq_ignore_ascii_case_of(trim_of(s), "BGML-P"@)
}

/// Whether the trimmed license text is the permissive custom token `BGML-P`,
/// compared without regard to ASCII case. Exact match only.
pub fn is_bgml_p_license(license: &str) -> (r: bool)
    ensures
        r == spec_bgml_p(license@),
{
    let t = trim_str(license);
    proof {
        reveal_strlit("BGML-P");
    }
    let n: usize = t.unicode_len();
    if n != 6 {
        return false;
    }
    (t.get_char(0) == 'B' || t.get_char(0) == 'b') && (t.get_char(1) == 'G' || t.get_char(1)
        == 'g') && (t.get_char(2) == 'M' || t.get_char(2) == 'm') && (t.get_char(3) == 'L'
        || t.get_char(3) == 'l') && t.get_char(4) == '-' && (t.get_char(5) == 'P' || t.get_char(5)
        == 'p')
}

/// A song is creator-friendly if its license is a commercial Creative Commons
/// license, or it is an NCS release, or its license is the permissive custom
/// token.
pub open spec fn spec_creator_friendly(s: SongView) -> bool {
    ||| spec_commercial_cc(s.license)
    ||| s.release_type == ReleaseType::NCS
    ||| spec_bgml_p(s.license)
}

/// Decides whether a song is safe for unrestricted creator use: a commercial
/// Creative Commons license, an NCS release, or the permissive custom token.
/// The three conditions are independent alternatives.
pub fn is_creator_friendly(song: &Song) -> (r: bool)
    ensures
        r == spec_creator_friendly(song@),
{
    if is_commercial_cc_license(song.license.as_str()) {
        return true;
    }
    if song.release_type == ReleaseType::NCS {
        return true;
    }
    if is_bgml_p_license(song.license.as_str()) {
        return true;
    }
    false
}

/// An NCS release is creator-friendly whatever its license text holds, even
/// an empty one.
pub proof fn lemma_ncs_always_creator_friendly(s: SongView)
    requires
        s.release_type == ReleaseType::NCS,
    ensures
        spec_creator_friendly(s),
{
}

/// A song whose trimmed license equals the permissive token up to ASCII case
/// is creator-friendly, whatever case or surrounding whitespace the text
/// carries.
pub proof fn lemma_permissive_token_creator_friendly(s: SongView)
    requires
        spec_bgml_p(s.license),
    ensures
        spec_creator_friendly(s),
{
}

/// The creator-friendly subsequence of `songs`, in their original order.
pub open spec fn spec_filter_friendly(songs: Seq<SongView>) -> Seq<SongView> {
    songs.filter(|s: SongView| spec_creator_friendly(s))
}

/// Keeps exactly the creator-friendly songs, preserving their order. The
/// input is left as it is.
pub fn filter_songs(songs: &Vec<Song>) -> (r: Vec<Song>)
    ensures
        r.deep_view() == spec_filter_friendly(songs.deep_view()),
{
    let ghost dv = songs.deep_view();
    let n: usize = songs.len();
    let mut out: Vec<Song> = Vec::new();
    let mut i: usize = 0;
    proof {
        assert(dv.take(0) =~= Seq::<SongView>::empty());
        assert(spec_filter_friendly(dv.take(0)) =~= Seq::<SongView>::empty()) by {
            reveal(Seq::filter);
        }
        assert(out.deep_view() =~= Seq::<SongView>::empty());
    }
    while i < n
        invariant
            0 <= i <= n,
            n == dv.len(),
            dv == songs.deep_view(),
            n == songs@.len(),
            forall|k: int| 0 <= k < n ==> dv[k] == #[trigger] songs@[k]@,
            out.deep_view() == spec_filter_friendly(dv.take(i as int)),
        decreases n - i,
    {
        let ghost out0 = out.deep_view();
        let friendly = is_creator_friendly(&songs[i]);
        if friendly {
            out.push(songs[i].duplicate());
            proof {
                assert(out.deep_view() =~= out0.push(dv[i as int]));
            }
        }
        proof {
            lemma_filter_friendly_step(dv.take(i as int), dv[i as int]);
            assert(dv.take(i + 1) =~= dv.take(i as int).push(dv[i as int]));
            assert(out.deep_view() =~= spec_filter_friendly(dv.take(i + 1)));
        }
        i = i + 1;
    }
    proof {
        assert(dv.take(n as int) =~= dv);
    }
    out
}

/// Filtering a sequence extended by one song keeps the filtered front and
/// appends the song exactly when it is creator-friendly.
proof fn lemma_filter_friendly_step(songs: Seq<SongView>, s: SongView)
    ensures
        spec_filter_friendly(songs.push(s)) == if spec_creator_friendly(s) {
            spec_filter_friendly(songs).push(s)
        } else {
            spec_filter_friendly(songs)
        },
{
    reveal(Seq::filter);
    assert(songs.push(s).drop_last() =~= songs);
    assert(songs.push(s).last() == s);
}

/// The filter keeps only creator-friendly songs, so applying it twice gives
/// what one application gives: it is idempotent.
pub proof fn lemma_filter_friendly_idempotent(songs: Seq<SongView>)
    ensures
        spec_filter_friendly(spec_filter_friendly(songs)) == spec_filter_friendly(songs),
    decreases songs.len(),
{
    if songs.len() == 0 {
        reveal(Seq::filter);
    } else {
        let d = songs.drop_last();
        let x = songs.last();
        lemma_filter_friendly_idempotent(d);
        assert(songs =~= d.push(x));
        lemma_filter_friendly_step(d, x);
        if spec_creator_friendly(x) {
            lemma_filter_friendly_step(spec_filter_friendly(d), x);
        }
    }
}

/// `a` appears within `b` in order: `b` can be thinned to `a` without
/// reordering anything.
pub open spec fn is_subsequence(a: Seq<SongView>, b: Seq<SongView>) -> bool
    decreases a.len() + b.len(),
{
    if a.len() == 0 {
        true
    } else if b.len() == 0 {
        false
    } else if a.last() == b.last() {
        is_subsequence(a.drop_last(), b.drop_last())
    } else {
        is_subsequence(a, b.drop_last())
    }
}

proof fn lemma_subseq_extend(a: Seq<SongView>, b: Seq<SongView>, x: SongView)
    requires
        is_subsequence(a, b),
    ensures
        is_subsequence(a, b.push(x)),
    decreases b.len(), 1nat,
{
    if a.len() == 0 {
    } else if a.last() == x {
        lemma_subseq_drop_last(a, b);
        assert(b.push(x).drop_last() =~= b);
    } else {
        assert(b.push(x).drop_last() =~= b);
    }
}

proof fn lemma_subseq_drop_last(a: Seq<SongView>, b: Seq<SongView>)
    requires
        is_subsequence(a, b),
        a.len() > 0,
    ensures
        is_subsequence(a.drop_last(), b),
    decreases b.len(), 0nat,
{
    if b.len() == 0 {
    } else if a.last() == b.last() {
        lemma_subseq_extend(a.drop_last(), b.drop_last(), b.last());
        assert(b.drop_last().push(b.last()) =~= b);
    } else {
        lemma_subseq_drop_last(a, b.drop_last());
        lemma_subseq_extend(a.drop_last(), b.drop_last(), b.last());
        assert(b.drop_last().push(b.last()) =~= b);
    }
}

/// Whether a song given as JSON text is creator-friendly; a text that does
/// not parse to a song-shaped record counts as not creator-friendly.
pub open spec fn spec_creator_friendly_text(s: Seq<char>) -> bool {
    match json_parse(s) {
        Err(e) => false,
        Ok(v) => song_shape_ok(v) && spec_creator_friendly(spec_song_of(v)),
    }
}

/// Decides whether a song given as JSON text is creator-friendly. A text
/// that is no song record yields false.
pub fn is_creator_friendly_song(song_json: &str) -> (r: bool)
    ensures
        r == spec_creator_friendly_text(song_json@),
{
    let parsed = match parse_json(song_json) {
        Ok(v) => v,
        Err(_) => {
            return false;
        },
    };
    match song_from_json(&parsed) {
        Ok(song) => is_creator_friendly(&song),
        Err(_) => false,
    }
}

/// Keeps exactly the creator-friendly songs of a list given as JSON text,
/// in their original order; a malformed payload is reported as an error
/// value instead.
pub fn filter_creator_friendly(songs_json: &str) -> (r: Result<Vec<Song>, String>)
    ensures
        match (r, spec_songs_payload(songs_json@)) {
            (Ok(kept), Ok(songs)) => kept.deep_view() == spec_filter_friendly(songs),
            (Err(e), Err(g)) => e@ == g,
            _ => false,
        },
{
    match parse_songs(songs_json) {
        Ok(songs) => Ok(filter_songs(&songs)),
        Err(e) => Err(e),
    }
}

/// What the filter returns is a subsequence of its input, in the input's
/// order.
pub proof fn lemma_filter_friendly_subsequence(songs: Seq<SongView>)
    ensures
        is_subsequence(spec_filter_friendly(songs), songs),
    decreases songs.len(),
{
    if songs.len() == 0 {
        reveal(Seq::filter);
    } else {
        let d = songs.drop_last();
        let x = songs.last();
        lemma_filter_friendly_subsequence(d);
        assert(songs =~= d.push(x));
        lemma_filter_friendly_step(d, x);
        if spec_creator_friendly(x) {
            assert(spec_filter_friendly(songs) == spec_filter_friendly(d).push(x));
            assert(spec_filter_friendly(d).push(x).drop_last() =~= spec_filter_friendly(d));
            assert(songs.drop_last() =~= d);
        } else {
            lemma_subseq_extend(spec_filter_friendly(d), d, x);
        }
    }
}

} // verus!
