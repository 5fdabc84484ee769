use vstd::prelude::*;
use vstd::utf8::encode_utf8;

use crate::form::{append_query_param, form_encode, form_value, form_value_spec};
use crate::json::{
    find_matching_json, json_objects_from, json_string_field, json_string_field_spec,
    json_usize_field, json_usize_field_spec, lemma_json_objects_count, lemma_matching_json_after,
    matching_json, JsonObjects,
};
use crate::numbers::opt_usize;
use crate::text::{contains, contains_chars, find, find_chars, str_chars, string_from};

verus! {

pub open spec fn opt_string_view(o: Option<String>) -> Option<Seq<char>> {
    match o {
        Some(s) => Some(s@),
        None => None,
    }
}

// ---------------------------------------------------------------------------
// Format lists of a watch page or player response.

/// The body of the array that follows the first `key` (a key ending in
/// `:[`), without its brackets.
pub open spec fn array_payload_spec(page: Seq<char>, key: Seq<char>) -> Option<Seq<char>> {
    match find(page, key) {
        None => None,
        Some(i) => {
            let start = i + key.len() - 1;
            match matching_json(page, start, '[', ']') {
                None => None,
                Some(end) => Some(page.subrange(start + 1, end)),
            }
        },
    }
}

fn array_payload<'a>(page: &'a [char], key: &str) -> (res: Option<&'a [char]>)
    requires
        key@.len() > 0,
    ensures
        match res {
            Some(r) => array_payload_spec(page@, key@) == Some(r@),
            None => array_payload_spec(page@, key@) is None,
        },
        res matches Some(r) ==> r@.len() <= page@.len(),
{
    let _n = page.len();
    let key_chars = str_chars(key);
    let found = match find_chars(page, key_chars.as_slice()) {
        Some(i) => i,
        None => {
            return None;
        },
    };
    let start = found + key_chars.len() - 1;
    match find_matching_json(page, start, '[', ']') {
        Some(end) => Some(&page[start + 1..end]),
        None => None,
    }
}

pub open spec fn formats_key() -> Seq<char> {
    "\"formats\":["@
}

pub open spec fn adaptive_formats_key() -> Seq<char> {
    "\"adaptiveFormats\":["@
}

/// The body of the `formats` array of a page.
pub fn youtube_formats_payload<'a>(page: &'a [char]) -> (res: Option<&'a [char]>)
    ensures
        match res {
            Some(r) => array_payload_spec(page@, formats_key()) == Some(r@),
            None => array_payload_spec(page@, formats_key()) is None,
        },
        res matches Some(r) ==> r@.len() <= page@.len(),
{
    proof {
        reveal_strlit("\"formats\":[");
    }
    array_payload(page, "\"formats\":[")
}

/// The body of the `adaptiveFormats` array of a page.
pub fn youtube_adaptive_formats_payload<'a>(page: &'a [char]) -> (res: Option<&'a [char]>)
    ensures
        match res {
            Some(r) => array_payload_spec(page@, adaptive_formats_key()) == Some(r@),
            None => array_payload_spec(page@, adaptive_formats_key()) is None,
        },
        res matches Some(r) ==> r@.len() <= page@.len(),
{
    proof {
        reveal_strlit("\"adaptiveFormats\":[");
    }
    array_payload(page, "\"adaptiveFormats\":[")
}

// ---------------------------------------------------------------------------
// Stream URLs.

/// `url` with `name=value` added to its query, the value form-encoded.
pub open spec fn with_query_param(url: Seq<char>, name: Seq<char>, value: Seq<char>) -> Seq<char> {
    url + (if contains(url, seq!['?']) {
        seq!['&']
    } else {
        seq!['?']
    }) + name + seq!['='] + form_encode(encode_utf8(value))
}

/// The cipher of a format: its `signatureCipher`, or else its `cipher`.
pub open spec fn format_cipher(object: Seq<char>) -> Option<Seq<char>> {
    match json_string_field_spec(object, "signatureCipher"@) {
        Some(c) => Some(c),
        None => json_string_field_spec(object, "cipher"@),
    }
}

/// The signature in a cipher: its `sig`, or else its `signature`.
pub open spec fn cipher_signature(cipher: Seq<char>) -> Option<Seq<char>> {
    match form_value_spec(cipher, "sig"@) {
        Some(s) => Some(s),
        None => form_value_spec(cipher, "signature"@),
    }
}

/// The URL a format can be fetched from: its `url`; or the `url` of its
/// cipher with the cipher's signature added under the name `sp` gives
/// (`signature` by default); or that `url` as it is when the cipher holds
/// no scrambled signature `s`. `None` when a scrambled signature would have
/// to be solved.
pub open spec fn format_url_spec(object: Seq<char>) -> Option<Seq<char>> {
    match json_string_field_spec(object, "url"@) {
        Some(u) => Some(u),
        None => match format_cipher(object) {
            None => None,
            Some(c) => match form_value_spec(c, "url"@) {
                None => None,
                Some(url) => match cipher_signature(c) {
                    Some(sig) => {
                        let name = match form_value_spec(c, "sp"@) {
                            Some(n) => n,
                            None => "signature"@,
                        };
                        Some(with_query_param(url, name, sig))
                    },
                    None => if form_value_spec(c, "s"@) is Some {
                        None
                    } else {
                        Some(url)
                    },
                },
            },
        },
    }
}

fn format_cipher_of(object: &[char]) -> (res: Option<String>)
    ensures
        opt_string_view(res) == format_cipher(object@),
{
    match json_string_field(object, "signatureCipher") {
        Some(c) => Some(c),
        None => json_string_field(object, "cipher"),
    }
}

fn cipher_signature_of(cipher: &str) -> (res: Option<String>)
    ensures
        opt_string_view(res) == cipher_signature(cipher@),
{
    match form_value(cipher, "sig") {
        Some(s) => Some(s),
        None => form_value(cipher, "signature"),
    }
}

/// The URL the format object `object` can be fetched from.
pub fn youtube_format_url(object: &[char]) -> (res: Option<String>)
    ensures
        opt_string_view(res) == format_url_spec(object@),
{
    if let Some(url) = json_string_field(object, "url") {
        return Some(url);
    }
    let cipher = match format_cipher_of(object) {
        Some(c) => c,
        None => {
            return None;
        },
    };
    let mut url = match form_value(cipher.as_str(), "url") {
        Some(u) => u,
        None => {
            return None;
        },
    };
    if let Some(sig) = cipher_signature_of(cipher.as_str()) {
        let sig_name = match form_value(cipher.as_str(), "sp") {
            Some(n) => n,
            None => string_from("signature"),
        };
        append_query_param(&mut url, sig_name.as_str(), sig.as_str());
        return Some(url);
    }
    if form_value(cipher.as_str(), "s").is_some() {
        return None;
    }
    Some(url)
}

// ---------------------------------------------------------------------------
// Choosing streams.

/// An MP4 stream of H.264 video without audio.
pub open spec fn is_h264_video_only(mime: Seq<char>) -> bool {
    contains(mime, "video/mp4"@) && contains(mime, "avc1"@) && !contains(mime, "mp4a"@)
}

/// An MP4 stream of AAC audio.
pub open spec fn is_aac_audio(mime: Seq<char>) -> bool {
    contains(mime, "audio/mp4"@) && contains(mime, "mp4a"@)
}

/// An MP4 stream with video and AAC audio together.
pub open spec fn is_progressive_mp4(mime: Seq<char>) -> bool {
    contains(mime, "video/mp4"@) && contains(mime, "mp4a"@)
}

fn mime_has(mime: &[char], part: &str) -> (res: bool)
    ensures
        res == contains(mime@, part@),
{
    let p = str_chars(part);
    contains_chars(mime, p.as_slice())
}

/// The height or bitrate of a chosen stream.
pub open spec fn rank_of(o: Option<(Seq<char>, nat)>) -> nat {
    match o {
        Some(p) => p.1,
        None => 0,
    }
}

pub open spec fn usize_or_zero(o: Option<nat>) -> nat {
    match o {
        Some(v) => v,
        None => 0,
    }
}

/// A format's audio bitrate: its `averageBitrate`, or else its `bitrate`, or 0.
pub open spec fn audio_bitrate(object: Seq<char>) -> nat {
    match json_usize_field_spec(object, "averageBitrate"@) {
        Some(v) => v,
        None => usize_or_zero(json_usize_field_spec(object, "bitrate"@)),
    }
}

/// The best video and audio streams seen so far, each with its height or
/// bitrate.
pub type DashBest = (Option<(Seq<char>, nat)>, Option<(Seq<char>, nat)>);

/// One format object of the adaptive list: a fetchable H.264 video taller
/// than the best so far (or the first one) becomes the best video; a
/// fetchable AAC audio of higher bitrate (or the first) the best audio.
pub open spec fn dash_step(best: DashBest, object: Seq<char>) -> DashBest {
    match json_string_field_spec(object, "mimeType"@) {
        None => best,
        Some(mime) => if is_h264_video_only(mime) {
            match format_url_spec(object) {
                None => best,
                Some(url) => {
                    let h = usize_or_zero(json_usize_field_spec(object, "height"@));
                    if best.0 is None || h > rank_of(best.0) {
                        (Some((url, h)), best.1)
                    } else {
                        best
                    }
                },
            }
        } else if is_aac_audio(mime) {
            match format_url_spec(object) {
                None => best,
                Some(url) => {
                    let b = audio_bitrate(object);
                    if best.1 is None || b > rank_of(best.1) {
                        (best.0, Some((url, b)))
                    } else {
                        best
                    }
                },
            }
        } else {
            best
        },
    }
}

pub open spec fn dash_fold(objects: Seq<Seq<char>>) -> DashBest
    decreases objects.len(),
{
    if objects.len() == 0 {
        (None, None)
    } else {
        dash_step(dash_fold(objects.drop_last()), objects.last())
    }
}

/// A video stream and an audio stream to play together.
pub struct YoutubeDashSelection {
    pub video_url: String,
    pub audio_url: String,
    pub video_height: usize,
}

/// The DASH pair a page offers: the tallest H.264 video and the AAC audio of
/// highest bitrate among the fetchable adaptive formats (the first of equals),
/// with the video's height.
pub open spec fn dash_selection_spec(page: Seq<char>) -> Option<(Seq<char>, Seq<char>, nat)> {
    match array_payload_spec(page, adaptive_formats_key()) {
        None => None,
        Some(formats) => {
            let best = dash_fold(json_objects_from(formats, 0));
            match (best.0, best.1) {
                (Some(v), Some(a)) => Some((v.0, a.0, v.1)),
                _ => None,
            }
        },
    }
}

fn audio_bitrate_of(object: &[char]) -> (res: usize)
    ensures
        res == audio_bitrate(object@),
{
    match json_usize_field(object, "averageBitrate") {
        Some(v) => v,
        None => match json_usize_field(object, "bitrate") {
            Some(v) => v,
            None => 0,
        },
    }
}

/// The DASH video and audio streams to play from `page`.
pub fn select_youtube_dash_mp4(page: &[char]) -> (res: Option<YoutubeDashSelection>)
    ensures
        match res {
            Some(s) => dash_selection_spec(page@) == Some((s.video_url@, s.audio_url@, s.video_height as nat)),
            None => dash_selection_spec(page@) is None,
        },
{
    let formats = match youtube_adaptive_formats_payload(page) {
        Some(f) => f,
        None => {
            return None;
        },
    };
    let ghost all = json_objects_from(formats@, 0);
    let mut objects = JsonObjects::new(formats);
    let mut best_video_url: Option<String> = None;
    let mut best_video_height: usize = 0;
    let mut best_audio_url: Option<String> = None;
    let mut best_audio_bitrate: usize = 0;
    let ghost mut seen: int = 0;
    loop
        invariant_except_break
            objects.remaining() == all.skip(seen),
        invariant
            0 <= seen <= all.len(),
            ({
                let b = dash_fold(all.take(seen));
                &&& (b.0 is None <==> best_video_url is None)
                &&& (best_video_url matches Some(u) ==> b.0 == Some((u@, best_video_height as nat)))
                &&& (b.1 is None <==> best_audio_url is None)
                &&& (best_audio_url matches Some(u) ==> b.1 == Some((u@, best_audio_bitrate as nat)))
            }),
        ensures
            seen == all.len(),
        decreases all.len() - seen,
    {
        let ghost before = dash_fold(all.take(seen));
        let object = match objects.next_object() {
            Some(o) => o,
            None => {
                assert(all.skip(seen).len() == 0);
                assert(all.take(seen) == all);
                break;
            },
        };
        proof {
            assert(all.skip(seen)[0] == all[seen]);
            assert(all.skip(seen).drop_first() == all.skip(seen + 1));
            assert(all.take(seen + 1).drop_last() == all.take(seen));
            seen = seen + 1;
        }
        let mime_opt = json_string_field(object, "mimeType");
        let mime = match mime_opt {
            Some(m) => str_chars(m.as_str()),
            None => {
                continue;
            },
        };
        if mime_has(mime.as_slice(), "video/mp4") && mime_has(mime.as_slice(), "avc1") && !mime_has(
            mime.as_slice(),
            "mp4a",
        ) {
            let url = match youtube_format_url(object) {
                Some(u) => u,
                None => {
                    continue;
                },
            };
            let height = match json_usize_field(object, "height") {
                Some(h) => h,
                None => 0,
            };
            if best_video_url.is_none() || height > best_video_height {
                best_video_height = height;
                best_video_url = Some(url);
            }
        } else if mime_has(mime.as_slice(), "audio/mp4") && mime_has(mime.as_slice(), "mp4a") {
            let url = match youtube_format_url(object) {
                Some(u) => u,
                None => {
                    continue;
                },
            };
            let bitrate = audio_bitrate_of(object);
            if best_audio_url.is_none() || bitrate > best_audio_bitrate {
                best_audio_bitrate = bitrate;
                best_audio_url = Some(url);
            }
        }
    }
    assert(all.take(seen) == all);
    match (best_video_url, best_audio_url) {
        (Some(video_url), Some(audio_url)) => Some(
            YoutubeDashSelection { video_url, audio_url, video_height: best_video_height },
        ),
        _ => None,
    }
}

/// The best progressive stream seen so far, with its height.
pub open spec fn progressive_step(best: Option<(Seq<char>, nat)>, object: Seq<char>) -> Option<(Seq<char>, nat)> {
    match json_string_field_spec(object, "mimeType"@) {
        None => best,
        Some(mime) => if !is_progressive_mp4(mime) {
            best
        } else {
            match format_url_spec(object) {
                None => best,
                Some(url) => {
                    let h = usize_or_zero(json_usize_field_spec(object, "height"@));
                    if best is None || h > rank_of(best) {
                        Some((url, h))
                    } else {
                        best
                    }
                },
            }
        },
    }
}

pub open spec fn progressive_fold(objects: Seq<Seq<char>>) -> Option<(Seq<char>, nat)>
    decreases objects.len(),
{
    if objects.len() == 0 {
        None
    } else {
        progressive_step(progressive_fold(objects.drop_last()), objects.last())
    }
}

/// The URL of the tallest fetchable progressive MP4 of a page's `formats`
/// (the first of equals).
pub open spec fn progressive_selection_spec(page: Seq<char>) -> Option<Seq<char>> {
    match array_payload_spec(page, formats_key()) {
        None => None,
        Some(formats) => match progressive_fold(json_objects_from(formats, 0)) {
            Some(b) => Some(b.0),
            None => None,
        },
    }
}

/// The URL of the progressive MP4 stream to play from `page`.
pub fn select_youtube_progressive_mp4(page: &[char]) -> (res: Option<String>)
    ensures
        opt_string_view(res) == progressive_selection_spec(page@),
{
    let formats = match youtube_formats_payload(page) {
        Some(f) => f,
        None => {
            return None;
        },
    };
    let ghost all = json_objects_from(formats@, 0);
    let mut objects = JsonObjects::new(formats);
    let mut best_url: Option<String> = None;
    let mut best_height: usize = 0;
    let ghost mut seen: int = 0;
    loop
        invariant_except_break
            objects.remaining() == all.skip(seen),
        invariant
            0 <= seen <= all.len(),
            ({
                let b = progressive_fold(all.take(seen));
                &&& (b is None <==> best_url is None)
                &&& (best_url matches Some(u) ==> b == Some((u@, best_height as nat)))
            }),
        ensures
            seen == all.len(),
        decreases all.len() - seen,
    {
        let object = match objects.next_object() {
            Some(o) => o,
            None => {
                assert(all.skip(seen).len() == 0);
                assert(all.take(seen) == all);
                break;
            },
        };
        proof {
            assert(all.skip(seen)[0] == all[seen]);
            assert(all.skip(seen).drop_first() == all.skip(seen + 1));
            assert(all.take(seen + 1).drop_last() == all.take(seen));
            seen = seen + 1;
        }
        let mime = match json_string_field(object, "mimeType") {
            Some(m) => str_chars(m.as_str()),
            None => {
                continue;
            },
        };
        if !mime_has(mime.as_slice(), "video/mp4") || !mime_has(mime.as_slice(), "mp4a") {
            continue;
        }
        let url = match youtube_format_url(object) {
            Some(u) => u,
            None => {
                continue;
            },
        };
        let height = match json_usize_field(object, "height") {
            Some(h) => h,
            None => 0,
        };
        if best_url.is_none() || height > best_height {
            best_height = height;
            best_url = Some(url);
        }
    }
    best_url
}

} // verus!

verus! {

// ---------------------------------------------------------------------------
// Counting the formats a player response offers.

/// How many formats of each kind a player response lists.
pub struct YoutubeFormatStats {
    pub total: usize,
    pub progressive_mp4: usize,
    pub h264_video_only: usize,
    pub aac_audio_only: usize,
    pub direct_url: usize,
    pub signature_url: usize,
    pub cipher_signature: usize,
    pub dash_direct: usize,
    pub dash_sig: usize,
    pub dash_cipher_s: usize,
}

/// The counts of a player response's formats, as numbers.
pub struct FormatStatsView {
    pub total: nat,
    pub progressive_mp4: nat,
    pub h264_video_only: nat,
    pub aac_audio_only: nat,
    pub direct_url: nat,
    pub signature_url: nat,
    pub cipher_signature: nat,
    pub dash_direct: nat,
    pub dash_sig: nat,
    pub dash_cipher_s: nat,
}

impl View for YoutubeFormatStats {
    type V = FormatStatsView;

    open spec fn view(&self) -> FormatStatsView {
        FormatStatsView {
            total: self.total as nat,
            progressive_mp4: self.progressive_mp4 as nat,
            h264_video_only: self.h264_video_only as nat,
            aac_audio_only: self.aac_audio_only as nat,
            direct_url: self.direct_url as nat,
            signature_url: self.signature_url as nat,
            cipher_signature: self.cipher_signature as nat,
            dash_direct: self.dash_direct as nat,
            dash_sig: self.dash_sig as nat,
            dash_cipher_s: self.dash_cipher_s as nat,
        }
    }
}

pub open spec fn zero_stats() -> FormatStatsView {
    FormatStatsView {
        total: 0,
        progressive_mp4: 0,
        h264_video_only: 0,
        aac_audio_only: 0,
        direct_url: 0,
        signature_url: 0,
        cipher_signature: 0,
        dash_direct: 0,
        dash_sig: 0,
        dash_cipher_s: 0,
    }
}

/// Every count is at most `bound`.
pub open spec fn stats_within(st: FormatStatsView, bound: int) -> bool {
    &&& st.total <= bound
    &&& st.progressive_mp4 <= bound
    &&& st.h264_video_only <= bound
    &&& st.aac_audio_only <= bound
    &&& st.direct_url <= bound
    &&& st.signature_url <= bound
    &&& st.cipher_signature <= bound
    &&& st.dash_direct <= bound
    &&& st.dash_sig <= bound
    &&& st.dash_cipher_s <= bound
}

/// Counting how a DASH format can be fetched: by direct URL, by a cipher
/// with a plain signature, or by one with a scrambled signature.
pub open spec fn dash_url_step(st: FormatStatsView, object: Seq<char>) -> FormatStatsView {
    if json_string_field_spec(object, "url"@) is Some {
        FormatStatsView { dash_direct: st.dash_direct + 1, ..st }
    } else {
        match format_cipher(object) {
            Some(c) => if cipher_signature(c) is Some {
                FormatStatsView { dash_sig: st.dash_sig + 1, ..st }
            } else if form_value_spec(c, "s"@) is Some {
                FormatStatsView { dash_cipher_s: st.dash_cipher_s + 1, ..st }
            } else {
                st
            },
            None => st,
        }
    }
}

/// Counting one format object.
pub open spec fn stats_step(st: FormatStatsView, object: Seq<char>) -> FormatStatsView {
    let mime = match json_string_field_spec(object, "mimeType"@) {
        Some(m) => m,
        None => seq![],
    };
    let s0 = FormatStatsView { total: st.total + 1, ..st };
    let s1 = if is_h264_video_only(mime) {
        dash_url_step(FormatStatsView { h264_video_only: s0.h264_video_only + 1, ..s0 }, object)
    } else {
        s0
    };
    let s2 = if is_aac_audio(mime) {
        dash_url_step(FormatStatsView { aac_audio_only: s1.aac_audio_only + 1, ..s1 }, object)
    } else {
        s1
    };
    if !is_progressive_mp4(mime) {
        s2
    } else {
        let s3 = FormatStatsView { progressive_mp4: s2.progressive_mp4 + 1, ..s2 };
        if json_string_field_spec(object, "url"@) is Some {
            FormatStatsView { direct_url: s3.direct_url + 1, ..s3 }
        } else {
            match format_cipher(object) {
                Some(c) => if cipher_signature(c) is Some {
                    FormatStatsView { signature_url: s3.signature_url + 1, ..s3 }
                } else if form_value_spec(c, "s"@) is Some {
                    FormatStatsView { cipher_signature: s3.cipher_signature + 1, ..s3 }
                } else {
                    s3
                },
                None => s3,
            }
        }
    }
}

pub open spec fn stats_fold(st: FormatStatsView, objects: Seq<Seq<char>>) -> FormatStatsView
    decreases objects.len(),
{
    if objects.len() == 0 {
        st
    } else {
        stats_step(stats_fold(st, objects.drop_last()), objects.last())
    }
}

/// The counts for all formats and adaptive formats of a player response.
pub open spec fn format_stats_spec(payload: Seq<char>) -> FormatStatsView {
    let s1 = match array_payload_spec(payload, formats_key()) {
        Some(f) => stats_fold(zero_stats(), json_objects_from(f, 0)),
        None => zero_stats(),
    };
    match array_payload_spec(payload, adaptive_formats_key()) {
        Some(f) => stats_fold(s1, json_objects_from(f, 0)),
        None => s1,
    }
}

/// Counts how the DASH format `object` can be fetched.
pub fn collect_youtube_dash_url_stats(object: &[char], stats: &mut YoutubeFormatStats)
    requires
        stats_within(old(stats)@, usize::MAX - 1),
    ensures
        final(stats)@ == dash_url_step(old(stats)@, object@),
{
    if json_string_field(object, "url").is_some() {
        stats.dash_direct += 1;
        return;
    }
    if let Some(cipher) = format_cipher_of(object) {
        if cipher_signature_of(cipher.as_str()).is_some() {
            stats.dash_sig += 1;
        } else if form_value(cipher.as_str(), "s").is_some() {
            stats.dash_cipher_s += 1;
        }
    }
}

/// Counts the format `object`.
pub fn collect_youtube_format_stats(object: &[char], stats: &mut YoutubeFormatStats)
    requires
        stats_within(old(stats)@, usize::MAX - 2),
    ensures
        final(stats)@ == stats_step(old(stats)@, object@),
{
    stats.total += 1;
    let mime = match json_string_field(object, "mimeType") {
        Some(m) => str_chars(m.as_str()),
        None => Vec::new(),
    };
    let is_progressive = mime_has(mime.as_slice(), "video/mp4") && mime_has(mime.as_slice(), "mp4a");
    if mime_has(mime.as_slice(), "video/mp4") && mime_has(mime.as_slice(), "avc1") && !mime_has(
        mime.as_slice(),
        "mp4a",
    ) {
        stats.h264_video_only += 1;
        collect_youtube_dash_url_stats(object, stats);
    }
    if mime_has(mime.as_slice(), "audio/mp4") && mime_has(mime.as_slice(), "mp4a") {
        stats.aac_audio_only += 1;
        collect_youtube_dash_url_stats(object, stats);
    }
    if !is_progressive {
        return;
    }
    stats.progressive_mp4 += 1;
    if json_string_field(object, "url").is_some() {
        stats.direct_url += 1;
        return;
    }
    if let Some(cipher) = format_cipher_of(object) {
        if cipher_signature_of(cipher.as_str()).is_some() {
            stats.signature_url += 1;
        } else if form_value(cipher.as_str(), "s").is_some() {
            stats.cipher_signature += 1;
        }
    }
}

proof fn lemma_stats_step_bound(st: FormatStatsView, object: Seq<char>, bound: int)
    requires
        stats_within(st, bound),
    ensures
        stats_within(stats_step(st, object), bound + 2),
{
}

fn count_objects(formats: &[char], stats: &mut YoutubeFormatStats, Ghost(bound): Ghost<int>)
    requires
        stats_within(old(stats)@, bound),
        bound + 2 * (formats@.len() / 2) + 2 <= usize::MAX,
    ensures
        final(stats)@ == stats_fold(old(stats)@, json_objects_from(formats@, 0)),
        stats_within(final(stats)@, bound + 2 * json_objects_from(formats@, 0).len()),
{
    let ghost all = json_objects_from(formats@, 0);
    let ghost start = stats@;
    proof {
        lemma_json_objects_count(formats@, 0);
    }
    let mut objects = JsonObjects::new(formats);
    let ghost mut seen: int = 0;
    loop
        invariant_except_break
            objects.remaining() == all.skip(seen),
        invariant
            0 <= seen <= all.len(),
            2 * all.len() <= formats@.len(),
            bound + 2 * (formats@.len() / 2) + 2 <= usize::MAX,
            stats@ == stats_fold(start, all.take(seen)),
            stats_within(stats@, bound + 2 * seen),
        ensures
            seen == all.len(),
        decreases all.len() - seen,
    {
        let object = match objects.next_object() {
            Some(o) => o,
            None => {
                assert(all.skip(seen).len() == 0);
                break;
            },
        };
        proof {
            assert(all.skip(seen)[0] == all[seen]);
            assert(all.skip(seen).drop_first() == all.skip(seen + 1));
            assert(all.take(seen + 1).drop_last() == all.take(seen));
            lemma_stats_step_bound(stats@, object@, bound + 2 * seen);
        }
        collect_youtube_format_stats(object, stats);
        proof {
            seen = seen + 1;
        }
    }
    assert(all.take(seen) == all);
}

/// The counts of the formats a player response lists.
pub fn youtube_format_stats(payload: &[char]) -> (res: YoutubeFormatStats)
    requires
        payload@.len() <= usize::MAX / 4,
    ensures
        res@ == format_stats_spec(payload@),
{
    let mut stats = YoutubeFormatStats {
        total: 0,
        progressive_mp4: 0,
        h264_video_only: 0,
        aac_audio_only: 0,
        direct_url: 0,
        signature_url: 0,
        cipher_signature: 0,
        dash_direct: 0,
        dash_sig: 0,
        dash_cipher_s: 0,
    };
    let ghost mut bound: int = 0;
    if let Some(formats) = youtube_formats_payload(payload) {
        proof {
            lemma_json_objects_count(formats@, 0);
        }
        count_objects(formats, &mut stats, Ghost(0));
        proof {
            bound = (2 * json_objects_from(formats@, 0).len()) as int;
        }
    }
    if let Some(adaptive) = youtube_adaptive_formats_payload(payload) {
        count_objects(adaptive, &mut stats, Ghost(bound));
    }
    stats
}

} // verus!

verus! {

// ---------------------------------------------------------------------------
// Values read from a watch page or player response.

/// Why a player response cannot be played: its `reason`, or else its `status`.
pub open spec fn playability_reason_spec(payload: Seq<char>) -> Option<Seq<char>> {
    match json_string_field_spec(payload, "reason"@) {
        Some(r) => Some(r),
        None => json_string_field_spec(payload, "status"@),
    }
}

/// Why the player response `payload` cannot be played, if it says.
pub fn youtube_playability_reason(payload: &[char]) -> (res: Option<String>)
    ensures
        opt_string_view(res) == playability_reason_spec(payload@),
{
    match json_string_field(payload, "reason") {
        Some(r) => Some(r),
        None => json_string_field(payload, "status"),
    }
}

/// The InnerTube API key a watch page carries.
pub fn youtube_innertube_api_key(page: &[char]) -> (res: Option<String>)
    ensures
        opt_string_view(res) == json_string_field_spec(page@, "INNERTUBE_API_KEY"@),
{
    json_string_field(page, "INNERTUBE_API_KEY")
}

/// The InnerTube client version a watch page carries.
pub fn youtube_innertube_client_version(page: &[char]) -> (res: Option<String>)
    ensures
        opt_string_view(res) == json_string_field_spec(page@, "INNERTUBE_CLIENT_VERSION"@),
{
    json_string_field(page, "INNERTUBE_CLIENT_VERSION")
}

/// The visitor data of a watch page: `VISITOR_DATA`, or else `visitorData`.
pub open spec fn visitor_data_spec(page: Seq<char>) -> Option<Seq<char>> {
    match json_string_field_spec(page, "VISITOR_DATA"@) {
        Some(v) => Some(v),
        None => json_string_field_spec(page, "visitorData"@),
    }
}

/// The visitor data a watch page carries.
pub fn youtube_visitor_data(page: &[char]) -> (res: Option<String>)
    ensures
        opt_string_view(res) == visitor_data_spec(page@),
{
    match json_string_field(page, "VISITOR_DATA") {
        Some(v) => Some(v),
        None => json_string_field(page, "visitorData"),
    }
}

/// The API key used when a watch page carries none.
pub open spec fn fallback_api_key_spec() -> Seq<char> {
    "AI"@ + "za"@ + "Sy"@ + "AO"@ + "_FJ2SlqU8Q4STEHLGCilw"@ + "_Y9_11qcW8"@
}

/// The API key used when a watch page carries none.
pub fn fallback_youtube_innertube_api_key() -> (res: String)
    ensures
        res@ == fallback_api_key_spec(),
{
    let mut key = String::new();
    crate::text::push_str(&mut key, "AI");
    crate::text::push_str(&mut key, "za");
    crate::text::push_str(&mut key, "Sy");
    crate::text::push_str(&mut key, "AO");
    crate::text::push_str(&mut key, "_FJ2SlqU8Q4STEHLGCilw");
    crate::text::push_str(&mut key, "_Y9_11qcW8");
    key
}

// ---------------------------------------------------------------------------
// Player API clients.

/// The device family a player API client claims to be.
#[derive(Clone, Copy, PartialEq, Eq)]
pub enum YoutubeClientPlatform {
    Web,
    Android,
    AndroidVr,
    Ios,
}

/// A player API client: its name and version, its numeric id, the user
/// agent it sends, and its platform.
pub struct YoutubeClientSpec<'a> {
    pub label: &'static str,
    pub client_name: &'static str,
    pub client_version: &'a str,
    pub client_id: u32,
    pub user_agent: &'static str,
    pub platform: YoutubeClientPlatform,
}

/// A client's fields as text: label, name, version, id, user agent, platform.
pub open spec fn client_is(
    c: YoutubeClientSpec,
    label: Seq<char>,
    name: Seq<char>,
    version: Seq<char>,
    id: u32,
    user_agent: Seq<char>,
    platform: YoutubeClientPlatform,
) -> bool {
    &&& c.label@ == label
    &&& c.client_name@ == name
    &&& c.client_version@ == version
    &&& c.client_id == id
    &&& c.user_agent@ == user_agent
    &&& c.platform == platform
}

/// The web client's fields.
pub open spec fn web_client(c: YoutubeClientSpec, version: Seq<char>) -> bool {
    client_is(
        c,
        "web"@,
        "WEB"@,
        version,
        1,
        "Mozilla/5.0 (X11; Scarlet) AppleWebKit/537.36 (KHTML, like Gecko) Chrome/125.0 Safari/537.36"@,
        YoutubeClientPlatform::Web,
    )
}

/// The mweb client's fields.
pub open spec fn mweb_client(c: YoutubeClientSpec) -> bool {
    client_is(
        c,
        "mweb"@,
        "MWEB"@,
        "2.20260115.01.00"@,
        2,
        "Mozilla/5.0 (iPad; CPU OS 16_7_10 like Mac OS X) AppleWebKit/605.1.15 (KHTML, like Gecko) Version/16.6 Mobile/15E148 Safari/604.1,gzip(gfe)"@,
        YoutubeClientPlatform::Web,
    )
}

/// The android client's fields.
pub open spec fn android_client(c: YoutubeClientSpec) -> bool {
    client_is(
        c,
        "android"@,
        "ANDROID"@,
        "21.02.35"@,
        3,
        "com.google.android.youtube/21.02.35 (Linux; U; Android 11) gzip"@,
        YoutubeClientPlatform::Android,
    )
}

/// The android_vr client's fields.
pub open spec fn android_vr_client(c: YoutubeClientSpec) -> bool {
    client_is(
        c,
        "android_vr"@,
        "ANDROID_VR"@,
        "1.65.10"@,
        28,
        "com.google.android.apps.youtube.vr.oculus/1.65.10 (Linux; U; Android 12L; eureka-user Build/SQ3A.220605.009.A1) gzip"@,
        YoutubeClientPlatform::AndroidVr,
    )
}

/// The ios client's fields.
pub open spec fn ios_client(c: YoutubeClientSpec) -> bool {
    client_is(
        c,
        "ios"@,
        "IOS"@,
        "21.02.3"@,
        5,
        "com.google.ios.youtube/21.02.3 (iPhone16,2; U; CPU iOS 18_3_2 like Mac OS X;)"@,
        YoutubeClientPlatform::Ios,
    )
}

impl<'a> YoutubeClientSpec<'a> {
    /// The desktop web client, with the version the watch page gave.
    pub fn web(client_version: &'a str) -> (res: Self)
        ensures
            web_client(res, client_version@),
    {
        YoutubeClientSpec {
            label: "web",
            client_name: "WEB",
            client_version,
            client_id: 1,
            user_agent: "Mozilla/5.0 (X11; Scarlet) AppleWebKit/537.36 (KHTML, like Gecko) Chrome/125.0 Safari/537.36",
            platform: YoutubeClientPlatform::Web,
        }
    }

    /// The mobile web client.
    pub fn mweb() -> (res: Self)
        ensures
            mweb_client(res),
    {
        YoutubeClientSpec {
            label: "mweb",
            client_name: "MWEB",
            client_version: "2.20260115.01.00",
            client_id: 2,
            user_agent: "Mozilla/5.0 (iPad; CPU OS 16_7_10 like Mac OS X) AppleWebKit/605.1.15 (KHTML, like Gecko) Version/16.6 Mobile/15E148 Safari/604.1,gzip(gfe)",
            platform: YoutubeClientPlatform::Web,
        }
    }

    /// The Android app client.
    pub fn android() -> (res: Self)
        ensures
            android_client(res),
    {
        YoutubeClientSpec {
            label: "android",
            client_name: "ANDROID",
            client_version: "21.02.35",
            client_id: 3,
            user_agent: "com.google.android.youtube/21.02.35 (Linux; U; Android 11) gzip",
            platform: YoutubeClientPlatform::Android,
        }
    }

    /// The Android VR app client.
    pub fn android_vr() -> (res: Self)
        ensures
            android_vr_client(res),
    {
        YoutubeClientSpec {
            label: "android_vr",
            client_name: "ANDROID_VR",
            client_version: "1.65.10",
            client_id: 28,
            user_agent: "com.google.android.apps.youtube.vr.oculus/1.65.10 (Linux; U; Android 12L; eureka-user Build/SQ3A.220605.009.A1) gzip",
            platform: YoutubeClientPlatform::AndroidVr,
        }
    }

    /// The iOS app client.
    pub fn ios() -> (res: Self)
        ensures
            ios_client(res),
    {
        YoutubeClientSpec {
            label: "ios",
            client_name: "IOS",
            client_version: "21.02.3",
            client_id: 5,
            user_agent: "com.google.ios.youtube/21.02.3 (iPhone16,2; U; CPU iOS 18_3_2 like Mac OS X;)",
            platform: YoutubeClientPlatform::Ios,
        }
    }
}

/// The device fields a platform adds to the client context.
pub open spec fn platform_context(p: YoutubeClientPlatform) -> Seq<char> {
    match p {
        YoutubeClientPlatform::Web => seq![],
        YoutubeClientPlatform::Android => ",\"androidSdkVersion\":30,\"userAgent\":\"com.google.android.youtube/21.02.35 (Linux; U; Android 11) gzip\",\"osName\":\"Android\",\"osVersion\":\"11\""@,
        YoutubeClientPlatform::AndroidVr => ",\"deviceMake\":\"Oculus\",\"deviceModel\":\"Quest 3\",\"androidSdkVersion\":32,\"userAgent\":\"com.google.android.apps.youtube.vr.oculus/1.65.10 (Linux; U; Android 12L; eureka-user Build/SQ3A.220605.009.A1) gzip\",\"osName\":\"Android\",\"osVersion\":\"12L\""@,
        YoutubeClientPlatform::Ios => ",\"deviceMake\":\"Apple\",\"deviceModel\":\"iPhone16,2\",\"userAgent\":\"com.google.ios.youtube/21.02.3 (iPhone16,2; U; CPU iOS 18_3_2 like Mac OS X;)\",\"osName\":\"iPhone\",\"osVersion\":\"18.3.2.22D82\""@,
    }
}

pub open spec fn opt_str_view(o: Option<&str>) -> Option<Seq<char>> {
    match o {
        Some(s) => Some(s@),
        None => None,
    }
}

/// The JSON body of a player API request: the client context (name and
/// version as given, `hl` en, `gl` US, the platform's device fields, the
/// escaped visitor data if any), the escaped video id, and the fixed playback
/// settings.
pub open spec fn player_request_body_spec(
    video_id: Seq<char>,
    name: Seq<char>,
    version: Seq<char>,
    platform: YoutubeClientPlatform,
    visitor_data: Option<Seq<char>>,
) -> Seq<char> {
    "{\"context\":{\"client\":{\"clientName\":\""@ + name + "\",\"clientVersion\":\""@ + version
        + "\",\"hl\":\"en\",\"gl\":\"US\",\"utcOffsetMinutes\":0"@ + platform_context(platform)
        + match visitor_data {
        Some(v) => ",\"visitorData\":\""@ + crate::json::json_escape(v) + seq!['"'],
        None => seq![],
    } + "}},"@ + "\"videoId\":\""@ + crate::json::json_escape(video_id)
        + "\",\"playbackContext\":{\"contentPlaybackContext\":{\"html5Preference\":\"HTML5_PREF_WANTS\"}},\"contentCheckOk\":true,\"racyCheckOk\":true}"@
}

/// The JSON body of the player API request for `video_id` from `client`.
pub fn youtube_player_request_body(
    video_id: &str,
    client: &YoutubeClientSpec<'_>,
    visitor_data: Option<&str>,
) -> (res: String)
    ensures
        res@ == player_request_body_spec(
            video_id@,
            client.client_name@,
            client.client_version@,
            client.platform,
            opt_str_view(visitor_data),
        ),
{
    let mut body = string_from("{\"context\":{\"client\":{\"clientName\":\"");
    crate::text::push_str(&mut body, client.client_name);
    crate::text::push_str(&mut body, "\",\"clientVersion\":\"");
    crate::text::push_str(&mut body, client.client_version);
    crate::text::push_str(&mut body, "\",\"hl\":\"en\",\"gl\":\"US\",\"utcOffsetMinutes\":0");
    match client.platform {
        YoutubeClientPlatform::Web => {
            assert(body@ + Seq::<char>::empty() == body@);
        },
        YoutubeClientPlatform::Android => {
            crate::text::push_str(
                &mut body,
                ",\"androidSdkVersion\":30,\"userAgent\":\"com.google.android.youtube/21.02.35 (Linux; U; Android 11) gzip\",\"osName\":\"Android\",\"osVersion\":\"11\"",
            );
        },
        YoutubeClientPlatform::AndroidVr => {
            crate::text::push_str(
                &mut body,
                ",\"deviceMake\":\"Oculus\",\"deviceModel\":\"Quest 3\",\"androidSdkVersion\":32,\"userAgent\":\"com.google.android.apps.youtube.vr.oculus/1.65.10 (Linux; U; Android 12L; eureka-user Build/SQ3A.220605.009.A1) gzip\",\"osName\":\"Android\",\"osVersion\":\"12L\"",
            );
        },
        YoutubeClientPlatform::Ios => {
            crate::text::push_str(
                &mut body,
                ",\"deviceMake\":\"Apple\",\"deviceModel\":\"iPhone16,2\",\"userAgent\":\"com.google.ios.youtube/21.02.3 (iPhone16,2; U; CPU iOS 18_3_2 like Mac OS X;)\",\"osName\":\"iPhone\",\"osVersion\":\"18.3.2.22D82\"",
            );
        },
    }
    let ghost before_visitor = body@;
    if let Some(visitor_data) = visitor_data {
        crate::text::push_str(&mut body, ",\"visitorData\":\"");
        crate::json::push_json_escaped(&mut body, visitor_data);
        crate::text::push_char(&mut body, '"');
    } else {
        assert(body@ + Seq::<char>::empty() == body@);
    }
    crate::text::push_str(&mut body, "}},");
    crate::text::push_str(&mut body, "\"videoId\":\"");
    crate::json::push_json_escaped(&mut body, video_id);
    crate::text::push_str(
        &mut body,
        "\",\"playbackContext\":{\"contentPlaybackContext\":{\"html5Preference\":\"HTML5_PREF_WANTS\"}},\"contentCheckOk\":true,\"racyCheckOk\":true}",
    );
    body
}

/// The player API endpoint with `api_key`.
pub open spec fn player_api_url_spec(api_key: Seq<char>) -> Seq<char> {
    "https://www.youtube.com/youtubei/v1/player?key="@ + api_key + "&prettyPrint=false"@
}

/// The player API endpoint with `api_key`.
pub fn youtube_player_api_url(api_key: &str) -> (res: String)
    ensures
        res@ == player_api_url_spec(api_key@),
{
    let mut url = string_from("https://www.youtube.com/youtubei/v1/player?key=");
    crate::text::push_str(&mut url, api_key);
    crate::text::push_str(&mut url, "&prettyPrint=false");
    url
}

/// The extra request headers of a player API call: origin and referer, the
/// client's id and version, and the visitor id when there is one.
pub open spec fn player_headers_spec(
    video_id: Seq<char>,
    client_id: u32,
    version: Seq<char>,
    visitor_data: Option<Seq<char>>,
) -> Seq<char> {
    "Origin: https://www.youtube.com\r\nReferer: https://www.youtube.com/watch?v="@ + video_id
        + "\r\nX-YouTube-Client-Name: "@ + crate::numbers::decimal(client_id as nat)
        + "\r\nX-YouTube-Client-Version: "@ + version + "\r\n"@ + match visitor_data {
        Some(v) => "X-Goog-Visitor-Id: "@ + v + "\r\n"@,
        None => seq![],
    }
}

/// The extra request headers of the player API call for `video_id` from `client`.
pub fn youtube_player_extra_headers(
    video_id: &str,
    client: &YoutubeClientSpec<'_>,
    visitor_data: Option<&str>,
) -> (res: String)
    ensures
        res@ == player_headers_spec(
            video_id@,
            client.client_id,
            client.client_version@,
            opt_str_view(visitor_data),
        ),
{
    let mut headers = string_from(
        "Origin: https://www.youtube.com\r\nReferer: https://www.youtube.com/watch?v=",
    );
    crate::text::push_str(&mut headers, video_id);
    crate::text::push_str(&mut headers, "\r\nX-YouTube-Client-Name: ");
    crate::numbers::push_decimal(&mut headers, client.client_id as usize);
    crate::text::push_str(&mut headers, "\r\nX-YouTube-Client-Version: ");
    crate::text::push_str(&mut headers, client.client_version);
    crate::text::push_str(&mut headers, "\r\n");
    if let Some(visitor_data) = visitor_data {
        crate::text::push_str(&mut headers, "X-Goog-Visitor-Id: ");
        crate::text::push_str(&mut headers, visitor_data);
        crate::text::push_str(&mut headers, "\r\n");
    } else {
        assert(headers@ + Seq::<char>::empty() == headers@);
    }
    headers
}

// ---------------------------------------------------------------------------
// Choosing what to play.

/// The streams to download: a video URL, an audio URL when the audio comes
/// apart, and the user agent and extra headers to fetch them with.
pub struct MediaSelection {
    pub video_url: String,
    pub audio_url: Option<String>,
    pub user_agent: &'static str,
    pub extra_headers: &'static str,
}

/// The extra headers sent when fetching YouTube media.
pub open spec fn media_extra_headers_spec() -> Seq<char> {
    "Accept-Language: en-US,en;q=0.9\r\nRange: bytes=0-\r\nReferer: https://www.youtube.com/\r\n"@
}

impl YoutubeDashSelection {
    /// The selection that downloads this video and audio pair.
    pub fn into_selection(self, user_agent: &'static str, extra_headers: &'static str) -> (res: MediaSelection)
        ensures
            res.video_url@ == self.video_url@,
            (res.audio_url matches Some(a) && a@ == self.audio_url@),
            res.user_agent == user_agent,
            res.extra_headers == extra_headers,
    {
        MediaSelection {
            video_url: self.video_url,
            audio_url: Some(self.audio_url),
            user_agent,
            extra_headers,
        }
    }
}

/// What a player response offers: a DASH pair, a progressive stream, or
/// nothing playable.
pub enum YoutubeClientMedia {
    Dash(YoutubeDashSelection),
    Progressive(String),
    NoStream,
}

/// What the player response `payload` offers, DASH first.
pub fn classify_player_payload(payload: &[char]) -> (res: YoutubeClientMedia)
    ensures
        match res {
            YoutubeClientMedia::Dash(s) => dash_selection_spec(payload@) == Some(
                (s.video_url@, s.audio_url@, s.video_height as nat),
            ),
            YoutubeClientMedia::Progressive(url) => dash_selection_spec(payload@) is None
                && progressive_selection_spec(payload@) == Some(url@),
            YoutubeClientMedia::NoStream => dash_selection_spec(payload@) is None
                && progressive_selection_spec(payload@) is None,
        },
{
    if let Some(media) = select_youtube_dash_mp4(payload) {
        return YoutubeClientMedia::Dash(media);
    }
    if let Some(url) = select_youtube_progressive_mp4(payload) {
        return YoutubeClientMedia::Progressive(url);
    }
    YoutubeClientMedia::NoStream
}

/// Trying the player API clients one by one: the message of the last failure
/// and the first progressive stream offered, kept as a fallback.
pub struct PlayerApiSearch {
    last_error: String,
    progressive_fallback: Option<MediaSelection>,
}

impl PlayerApiSearch {
    pub closed spec fn last_error(&self) -> Seq<char> {
        self.last_error@
    }

    pub closed spec fn fallback(&self) -> Option<(Seq<char>, &'static str)> {
        match &self.progressive_fallback {
            Some(m) => Some((m.video_url@, m.user_agent)),
            None => None,
        }
    }

    pub closed spec fn fallback_well_formed(&self) -> bool {
        match &self.progressive_fallback {
            Some(m) => m.audio_url is None && m.extra_headers@ == media_extra_headers_spec(),
            None => true,
        }
    }

    /// A search that has tried no client yet.
    pub fn new() -> (res: Self)
        ensures
            res.last_error() == "no YouTube player clients tried"@,
            res.fallback() is None,
            res.fallback_well_formed(),
    {
        PlayerApiSearch {
            last_error: string_from("no YouTube player clients tried"),
            progressive_fallback: None,
        }
    }

    /// Takes in what `client` gave: a DASH pair ends the search with it
    /// (`Some`); a progressive stream is kept if it is the first; anything
    /// else only updates the last failure.
    pub fn on_client_result(
        &mut self,
        client: &YoutubeClientSpec<'_>,
        outcome: Result<YoutubeClientMedia, String>,
    ) -> (res: Option<MediaSelection>)
        requires
            old(self).fallback_well_formed(),
        ensures
            final(self).fallback_well_formed(),
            match outcome {
                Ok(YoutubeClientMedia::Dash(d)) => res matches Some(m) && m.video_url@ == d.video_url@
                    && (m.audio_url matches Some(a) && a@ == d.audio_url@) && m.user_agent
                    == client.user_agent && m.extra_headers@ == media_extra_headers_spec()
                    && final(self).fallback() == old(self).fallback() && final(self).last_error()
                    == old(self).last_error(),
                Ok(YoutubeClientMedia::Progressive(url)) => res is None && final(self).fallback() == (
                    match old(self).fallback() {
                        Some(f) => Some(f),
                        None => Some((url@, client.user_agent)),
                    }) && final(self).last_error() == client.label@ + " returned only progressive MP4"@,
                Ok(YoutubeClientMedia::NoStream) => res is None && final(self).fallback() == old(self).fallback()
                    && final(self).last_error() == client.label@ + " returned no direct MP4 streams"@,
                Err(e) => res is None && final(self).fallback() == old(self).fallback()
                    && final(self).last_error() == e@,
            },
    {
        let extra: &'static str = "Accept-Language: en-US,en;q=0.9\r\nRange: bytes=0-\r\nReferer: https://www.youtube.com/\r\n";
        match outcome {
            Ok(YoutubeClientMedia::Dash(media)) => {
                return Some(media.into_selection(client.user_agent, extra));
            },
            Ok(YoutubeClientMedia::Progressive(url)) => {
                if self.progressive_fallback.is_none() {
                    self.progressive_fallback = Some(
                        MediaSelection {
                            video_url: url,
                            audio_url: None,
                            user_agent: client.user_agent,
                            extra_headers: extra,
                        },
                    );
                }
                let mut message = string_from(client.label);
                crate::text::push_str(&mut message, " returned only progressive MP4");
                self.last_error = message;
            },
            Ok(YoutubeClientMedia::NoStream) => {
                let mut message = string_from(client.label);
                crate::text::push_str(&mut message, " returned no direct MP4 streams");
                self.last_error = message;
            },
            Err(error) => {
                self.last_error = error;
            },
        }
        None
    }

    /// How the search ends when no client gave a DASH pair: the progressive
    /// fallback, or the last failure.
    pub fn finish(self) -> (res: Result<MediaSelection, String>)
        requires
            self.fallback_well_formed(),
        ensures
            match res {
                Ok(m) => self.fallback() == Some((m.video_url@, m.user_agent)) && m.audio_url is None
                    && m.extra_headers@ == media_extra_headers_spec(),
                Err(e) => self.fallback() is None && e@ == self.last_error(),
            },
    {
        match self.progressive_fallback {
            Some(m) => Ok(m),
            None => Err(self.last_error),
        }
    }
}

// ---------------------------------------------------------------------------
// Choosing the media of a video.

/// The user agent sent when no client asks for another.
pub open spec fn default_user_agent_spec() -> Seq<char> {
    "Mozilla/5.0 Scarlet-yt/0.1"@
}

/// The web client version used when the watch page names none.
pub open spec fn web_client_version_spec() -> Seq<char> {
    "2.20260114.08.00"@
}

/// The player API clients to try, in order: Android VR, web (with the
/// version the watch page gave), mobile web, Android, iOS.
pub fn player_clients<'a>(client_version: &'a str) -> (res: Vec<YoutubeClientSpec<'a>>)
    ensures
        res@.len() == 5,
        android_vr_client(res@[0]),
        web_client(res@[1], client_version@),
        mweb_client(res@[2]),
        android_client(res@[3]),
        ios_client(res@[4]),
{
    let mut clients: Vec<YoutubeClientSpec<'a>> = Vec::new();
    clients.push(YoutubeClientSpec::android_vr());
    clients.push(YoutubeClientSpec::web(client_version));
    clients.push(YoutubeClientSpec::mweb());
    clients.push(YoutubeClientSpec::android());
    clients.push(YoutubeClientSpec::ios());
    clients
}

/// The watch page of the video `video_id`, past the age and content checks.
pub fn youtube_watch_page_url(video_id: &str) -> (res: String)
    ensures
        res@ == "https://www.youtube.com/watch?v="@ + video_id@ + "&bpctr=9999999999&has_verified=1"@,
{
    let mut url = string_from("https://www.youtube.com/watch?v=");
    crate::text::push_str(&mut url, video_id);
    crate::text::push_str(&mut url, "&bpctr=9999999999&has_verified=1");
    url
}

/// What a watch page leads to: its DASH pair, or a search of the player API
/// with the key, client version and visitor data it gives.
pub enum WatchPagePlan {
    Dash { media: MediaSelection, video_height: usize },
    PlayerApi { api_key: String, client_version: String, visitor_data: Option<String> },
}

/// The value of `o`, or `default` when there is none.
pub open spec fn text_or(o: Option<Seq<char>>, default: Seq<char>) -> Seq<char> {
    match o {
        Some(t) => t,
        None => default,
    }
}

/// What the watch page `page` leads to: its DASH pair when it has one, else
/// the player API, with the page's API key (or the built-in one), client
/// version (or the default web one) and visitor data.
pub fn plan_from_watch_page(page: &[char]) -> (res: WatchPagePlan)
    ensures
        match res {
            WatchPagePlan::Dash { media: m, video_height } => dash_selection_spec(page@) matches Some(
                (v, a, h),
            ) && m.video_url@ == v && (m.audio_url matches Some(x) && x@ == a) && video_height == h
                && m.user_agent@ == default_user_agent_spec() && m.extra_headers@
                == media_extra_headers_spec(),
            WatchPagePlan::PlayerApi { api_key, client_version, visitor_data } => {
                &&& dash_selection_spec(page@) is None
                &&& api_key@ == text_or(
                    json_string_field_spec(page@, "INNERTUBE_API_KEY"@),
                    fallback_api_key_spec(),
                )
                &&& client_version@ == text_or(
                    json_string_field_spec(page@, "INNERTUBE_CLIENT_VERSION"@),
                    web_client_version_spec(),
                )
                &&& opt_string_view(visitor_data) == visitor_data_spec(page@)
            },
        },
{
    let extra: &'static str = "Accept-Language: en-US,en;q=0.9\r\nRange: bytes=0-\r\nReferer: https://www.youtube.com/\r\n";
    if let Some(media) = select_youtube_dash_mp4(page) {
        let video_height = media.video_height;
        return WatchPagePlan::Dash {
            media: media.into_selection("Mozilla/5.0 Scarlet-yt/0.1", extra),
            video_height,
        };
    }
    let api_key = match youtube_innertube_api_key(page) {
        Some(k) => k,
        None => fallback_youtube_innertube_api_key(),
    };
    let client_version = match youtube_innertube_client_version(page) {
        Some(v) => v,
        None => string_from("2.20260114.08.00"),
    };
    let visitor_data = youtube_visitor_data(page);
    WatchPagePlan::PlayerApi { api_key, client_version, visitor_data }
}

/// The media once the player API search ended: its result, or when it
/// failed, the progressive stream of the watch page `page`, else its error.
pub fn media_after_player_api(api: Result<MediaSelection, String>, page: &[char]) -> (res: Result<
    MediaSelection,
    String,
>)
    ensures
        match api {
            Ok(m) => res == Ok::<MediaSelection, String>(m),
            Err(e) => match progressive_selection_spec(page@) {
                Some(u) => res matches Ok(m) && m.video_url@ == u && m.audio_url is None
                    && m.user_agent@ == default_user_agent_spec() && m.extra_headers@
                    == media_extra_headers_spec(),
                None => res matches Err(x) && x@ == e@,
            },
        },
{
    match api {
        Ok(media) => Ok(media),
        Err(error) => match select_youtube_progressive_mp4(page) {
            Some(url) => Ok(
                MediaSelection {
                    video_url: url,
                    audio_url: None,
                    user_agent: "Mozilla/5.0 Scarlet-yt/0.1",
                    extra_headers: "Accept-Language: en-US,en;q=0.9\r\nRange: bytes=0-\r\nReferer: https://www.youtube.com/\r\n",
                },
            ),
            None => Err(error),
        },
    }
}

} // verus!

verus! {

// ---------------------------------------------------------------------------
// Answers from YouTube.

/// Whether an answer from YouTube is a success (a 2xx status), or the
/// error that names what was asked (`what`) and the status it got.
pub open spec fn youtube_status_spec(what: Seq<char>, status: u16) -> Result<(), Seq<char>> {
    if 200 <= status < 300 {
        Ok(())
    } else {
        Err(what + " HTTP status "@ + crate::numbers::decimal(status as nat))
    }
}

/// `Ok` for a 2xx answer to the request `what`, else the error naming it and
/// its status.
pub fn youtube_status(what: &str, status: u16) -> (res: Result<(), String>)
    ensures
        match res {
            Ok(()) => youtube_status_spec(what@, status) is Ok,
            Err(e) => youtube_status_spec(what@, status) == Err::<(), Seq<char>>(e@),
        },
{
    if status >= 200 && status < 300 {
        return Ok(());
    }
    let mut message = string_from(what);
    crate::text::push_str(&mut message, " HTTP status ");
    crate::numbers::push_decimal(&mut message, status as usize);
    Err(message)
}

/// The name of a player API request from `label`'s client, as errors give
/// it.
pub fn player_api_request_name(label: &str) -> (res: String)
    ensures
        res@ == "YouTube "@ + label@ + " player API"@,
{
    let mut name = string_from("YouTube ");
    crate::text::push_str(&mut name, label);
    crate::text::push_str(&mut name, " player API");
    name
}

} // verus!

verus! {

// ---------------------------------------------------------------------------
// Reading the player request body back.

/// The end of a JSON key named with last letter `c`, followed by the start
/// of a string value: `c":"`, at index `k` of `s`.
pub open spec fn key_end_at(s: Seq<char>, c: char, k: int) -> bool {
    &&& 0 <= k
    &&& k + 4 <= s.len()
    &&& s[k] == c
    &&& s[k + 1] == '"'
    &&& s[k + 2] == ':'
    &&& s[k + 3] == '"'
}

pub open spec fn no_key_end(s: Seq<char>, c: char) -> bool {
    forall|k: int| !#[trigger] key_end_at(s, c, k)
}

/// A text in which every quote follows a backslash.
pub open spec fn quotes_escaped(y: Seq<char>) -> bool {
    forall|m: int| 0 <= m < y.len() && #[trigger] y[m] == '"' ==> m > 0 && y[m - 1] == '\\'
}

/// A text that holds no quote and no backslash.
pub open spec fn plain_json_text(y: Seq<char>) -> bool {
    forall|m: int| 0 <= m < y.len() ==> #[trigger] y[m] != '"' && y[m] != '\\'
}

/// Whether `q` ends with `":"`.
pub open spec fn ends_with_key_sep(q: Seq<char>) -> bool {
    &&& q.len() >= 3
    &&& q[q.len() - 3] == '"'
    &&& q[q.len() - 2] == ':'
    &&& q[q.len() - 1] == '"'
}

/// No `c":"` runs across the join of `p` and `s`.
pub open spec fn key_end_not_across(p: Seq<char>, s: Seq<char>, c: char) -> bool {
    &&& !(p.len() >= 1 && s.len() >= 3 && p[p.len() - 1] == c && s[0] == '"' && s[1] == ':' && s[2] == '"')
    &&& !(p.len() >= 2 && s.len() >= 2 && p[p.len() - 2] == c && p[p.len() - 1] == '"' && s[0] == ':'
        && s[1] == '"')
    &&& !(p.len() >= 3 && s.len() >= 1 && p[p.len() - 3] == c && p[p.len() - 2] == '"' && p[p.len()
        - 1] == ':' && s[0] == '"')
}

proof fn lemma_key_end_concat(p: Seq<char>, s: Seq<char>, c: char)
    requires
        no_key_end(p, c),
        no_key_end(s, c),
        key_end_not_across(p, s, c),
    ensures
        no_key_end(p + s, c),
{
    let t = p + s;
    assert forall|k: int| !#[trigger] key_end_at(t, c, k) by {
        if key_end_at(t, c, k) {
            if k + 4 <= p.len() {
                assert(t[k] == p[k] && t[k + 1] == p[k + 1] && t[k + 2] == p[k + 2] && t[k + 3] == p[k + 3]);
                assert(key_end_at(p, c, k));
            } else if k >= p.len() {
                let j = k - p.len();
                assert(t[k] == s[j] && t[k + 1] == s[j + 1] && t[k + 2] == s[j + 2] && t[k + 3] == s[j + 3]);
                assert(key_end_at(s, c, j));
            } else if k + 1 == p.len() {
                assert(t[k] == p[p.len() - 1] && t[k + 1] == s[0] && t[k + 2] == s[1] && t[k + 3] == s[2]);
            } else if k + 2 == p.len() {
                assert(t[k] == p[p.len() - 2] && t[k + 1] == p[p.len() - 1] && t[k + 2] == s[0] && t[k + 3] == s[1]);
            } else {
                assert(t[k] == p[p.len() - 3] && t[k + 1] == p[p.len() - 2] && t[k + 2] == p[p.len() - 1] && t[k + 3] == s[0]);
            }
        }
    }
}

/// After any text, a text whose quotes are escaped starts no `c":"` and
/// holds none.
proof fn lemma_escaped_part(p: Seq<char>, y: Seq<char>, c: char)
    requires
        quotes_escaped(y),
        no_key_end(p, c),
        c != '\\',
    ensures
        no_key_end(p + y, c),
{
    assert forall|k: int| !#[trigger] key_end_at(y, c, k) by {
        if key_end_at(y, c, k) {
            assert(y[k + 1] == '"');
        }
    }
    if y.len() >= 1 && y[0] == '"' {
        assert(y[0] == '"');
    }
    if y.len() >= 2 && y[1] == '"' {
        assert(y[1] == '"');
    }
    lemma_key_end_concat(p, y, c);
}

/// A text ending in `":"` followed by a text whose quotes are escaped does
/// not end in `c":`.
proof fn lemma_no_key_start_after(q: Seq<char>, y: Seq<char>, c: char)
    requires
        ends_with_key_sep(q),
        quotes_escaped(y),
        c != ':',
        c != '"',
        c != '\\',
    ensures
        !((q + y).len() >= 3 && (q + y)[(q + y).len() - 3] == c && (q + y)[(q + y).len() - 2] == '"'
            && (q + y)[(q + y).len() - 1] == ':'),
{
    let t = q + y;
    let n = t.len();
    if y.len() == 0 {
        assert(t[n - 3] == q[q.len() - 3]);
    } else if y.len() == 1 {
        assert(t[n - 3] == q[q.len() - 2]);
    } else if y.len() == 2 {
        assert(t[n - 3] == q[q.len() - 1]);
    } else {
        assert(t[n - 2] == y[y.len() - 2]);
        assert(t[n - 3] == y[y.len() - 3]);
        if t[n - 2] == '"' {
            assert(y[y.len() - 2] == '"');
            assert(y[y.len() - 3] == '\\');
        }
    }
}

/// The last three characters of a join whose second part has three.
proof fn lemma_ends_with_key_sep(p: Seq<char>, l: Seq<char>)
    requires
        ends_with_key_sep(l),
    ensures
        ends_with_key_sep(p + l),
{
    let t = p + l;
    assert(t[t.len() - 3] == l[l.len() - 3]);
    assert(t[t.len() - 2] == l[l.len() - 2]);
    assert(t[t.len() - 1] == l[l.len() - 1]);
}

proof fn lemma_json_escape_quotes(x: Seq<char>)
    ensures
        quotes_escaped(crate::json::json_escape(x)),
    decreases x.len(),
{
    if x.len() > 0 {
        lemma_json_escape_quotes(x.drop_last());
        let a = crate::json::json_escape(x.drop_last());
        let c = x.last();
        let e = crate::json::json_escape_char(c);
        if (c as u32) < 0x20 && c != '\n' && c != '\r' && c != '\t' && c != '\x08' && c != '\x0C' {
            let v = c as u32;
            assert(v / 16 < 16 && v % 16 < 16);
            assert(e[4] != '"' && e[5] != '"');
        }
        assert(quotes_escaped(e));
        let t = a + e;
        assert forall|m: int| 0 <= m < t.len() && #[trigger] t[m] == '"' implies m > 0 && t[m - 1] == '\\' by {
            if m < a.len() {
                assert(t[m] == a[m]);
                assert(t[m - 1] == a[m - 1]);
            } else {
                let j = m - a.len();
                assert(t[m] == e[j]);
                assert(e[j] == '"');
                assert(t[m - 1] == e[j - 1]);
            }
        }
    }
}

} // verus!

verus! {

pub open spec fn body_open() -> Seq<char> {
    "{\"context\":{\"client\":{\"clientName\":\""@
}

pub open spec fn body_version_key() -> Seq<char> {
    "\",\"clientVersion\":\""@
}

pub open spec fn body_locale() -> Seq<char> {
    "\",\"hl\":\"en\",\"gl\":\"US\",\"utcOffsetMinutes\":0"@
}

pub open spec fn body_visitor_key() -> Seq<char> {
    ",\"visitorData\":\""@
}

pub open spec fn body_context_close() -> Seq<char> {
    "}},"@
}

pub open spec fn body_video_key() -> Seq<char> {
    "\"videoId\":\""@
}

pub open spec fn body_tail() -> Seq<char> {
    "\",\"playbackContext\":{\"contentPlaybackContext\":{\"html5Preference\":\"HTML5_PREF_WANTS\"}},\"contentCheckOk\":true,\"racyCheckOk\":true}"@
}

/// The literal parts of a player request body hold no `c":"` for the
/// keys read back, and begin and end as the joins need.
proof fn lemma_body_literals(c: char)
    requires
        c == 'd' || c == 'a',
    ensures
        no_key_end(body_open(), c),
        no_key_end(body_version_key(), c),
        no_key_end(body_locale(), c),
        c == 'd' ==> no_key_end(body_visitor_key(), c),
        no_key_end(body_context_close(), c),
        no_key_end(body_video_key().take(10), c),
        no_key_end(body_visitor_key().take(15), c),
        c == 'a' ==> no_key_end(body_video_key(), c),
        no_key_end(body_tail(), c),
        forall|p: YoutubeClientPlatform| no_key_end(#[trigger] platform_context(p), c),
        forall|p: YoutubeClientPlatform|
            (#[trigger] platform_context(p)).len() == 0 || platform_context(p)[0] == ',',
        ends_with_key_sep(body_open()),
        ends_with_key_sep(body_version_key()),
        ends_with_key_sep(body_visitor_key()),
        ends_with_key_sep(body_video_key()),
        body_version_key().len() >= 2 && body_version_key()[0] == '"' && body_version_key()[1] == ',',
        body_locale().len() >= 2 && body_locale()[0] == '"' && body_locale()[1] == ',',
        body_visitor_key()[0] == ',',
        body_visitor_key().len() == 16,
        body_visitor_key().skip(1) == crate::json::string_field_pattern("visitorData"@),
        body_context_close().len() == 3 && body_context_close()[0] == '}' && body_context_close()[2] == ',',
        body_video_key().len() == 11 && body_video_key()[0] == '"' && body_video_key()[1] == 'v',
        body_video_key() == crate::json::string_field_pattern("videoId"@),
        body_tail().len() >= 2 && body_tail()[0] == '"' && body_tail()[1] == ',',
{
    reveal_strlit("{\"context\":{\"client\":{\"clientName\":\"");
    reveal_strlit("\",\"clientVersion\":\"");
    reveal_strlit("\",\"hl\":\"en\",\"gl\":\"US\",\"utcOffsetMinutes\":0");
    reveal_strlit(",\"visitorData\":\"");
    reveal_strlit("}},");
    reveal_strlit("\"videoId\":\"");
    reveal_strlit("\",\"playbackContext\":{\"contentPlaybackContext\":{\"html5Preference\":\"HTML5_PREF_WANTS\"}},\"contentCheckOk\":true,\"racyCheckOk\":true}");
    reveal_strlit(",\"androidSdkVersion\":30,\"userAgent\":\"com.google.android.youtube/21.02.35 (Linux; U; Android 11) gzip\",\"osName\":\"Android\",\"osVersion\":\"11\"");
    reveal_strlit(",\"deviceMake\":\"Oculus\",\"deviceModel\":\"Quest 3\",\"androidSdkVersion\":32,\"userAgent\":\"com.google.android.apps.youtube.vr.oculus/1.65.10 (Linux; U; Android 12L; eureka-user Build/SQ3A.220605.009.A1) gzip\",\"osName\":\"Android\",\"osVersion\":\"12L\"");
    reveal_strlit(",\"deviceMake\":\"Apple\",\"deviceModel\":\"iPhone16,2\",\"userAgent\":\"com.google.ios.youtube/21.02.3 (iPhone16,2; U; CPU iOS 18_3_2 like Mac OS X;)\",\"osName\":\"iPhone\",\"osVersion\":\"18.3.2.22D82\"");
    reveal_strlit("visitorData");
    reveal_strlit("videoId");
    assert forall|k: int| !#[trigger] key_end_at(body_open(), c, k) by {}
    assert forall|k: int| !#[trigger] key_end_at(body_version_key(), c, k) by {}
    assert forall|k: int| !#[trigger] key_end_at(body_locale(), c, k) by {}
    if c == 'd' {
        assert forall|k: int| !#[trigger] key_end_at(body_visitor_key(), c, k) by {}
    }
    assert forall|k: int| !#[trigger] key_end_at(body_context_close(), c, k) by {}
    assert forall|k: int| !#[trigger] key_end_at(body_video_key().take(10), c, k) by {}
    assert forall|k: int| !#[trigger] key_end_at(body_visitor_key().take(15), c, k) by {}
    if c == 'a' {
        assert forall|k: int| !#[trigger] key_end_at(body_video_key(), c, k) by {}
    }
    assert forall|k: int| !#[trigger] key_end_at(body_tail(), c, k) by {}
    assert forall|p: YoutubeClientPlatform, k: int| !#[trigger] key_end_at(platform_context(p), c, k) by {}
    assert(body_visitor_key().skip(1) =~= crate::json::string_field_pattern("visitorData"@));
    assert(body_video_key() =~= crate::json::string_field_pattern("videoId"@));
}

} // verus!

verus! {

pub open spec fn body_head(name: Seq<char>, version: Seq<char>, platform: YoutubeClientPlatform) -> Seq<char> {
    body_open() + name + body_version_key() + version + body_locale() + platform_context(platform)
}

pub open spec fn body_visitor_part(visitor_data: Option<Seq<char>>) -> Seq<char> {
    match visitor_data {
        Some(v) => body_visitor_key() + crate::json::json_escape(v) + seq!['"'],
        None => seq![],
    }
}

proof fn lemma_head_keys(name: Seq<char>, version: Seq<char>, platform: YoutubeClientPlatform, c: char)
    requires
        plain_json_text(name),
        plain_json_text(version),
        c == 'd' || c == 'a',
    ensures
        no_key_end(body_head(name, version, platform), c),
{
    lemma_body_literals(c);
    let x1 = body_open();
    let x2 = x1 + name;
    lemma_escaped_part(x1, name, c);
    let l2 = body_version_key();
    lemma_no_key_start_after(x1, name, c);
    lemma_key_end_concat(x2, l2, c);
    let x3 = x2 + l2;
    lemma_escaped_part(x3, version, c);
    let x4 = x3 + version;
    lemma_ends_with_key_sep(x2, l2);
    lemma_no_key_start_after(x3, version, c);
    let l3 = body_locale();
    lemma_key_end_concat(x4, l3, c);
    let x5 = x4 + l3;
    let ctx = platform_context(platform);
    assert(ctx.len() == 0 || ctx[0] == ',');
    lemma_key_end_concat(x5, ctx, c);
}

proof fn lemma_key_end_shows_match(b: Seq<char>, a: Seq<char>, p: Seq<char>, c: char, j: int, at: int)
    requires
        a.len() <= b.len(),
        forall|i: int| 0 <= i < a.len() ==> a[i] == b[i],
        no_key_end(a, c),
        0 <= at,
        at + 4 <= p.len(),
        p[at] == c,
        p[at + 1] == '"',
        p[at + 2] == ':',
        p[at + 3] == '"',
        0 <= j,
    ensures
        j + at + 4 <= a.len() ==> !crate::text::matches_at(b, p, j),
{
    if j + at + 4 <= a.len() && crate::text::matches_at(b, p, j) {
        let w = b.subrange(j, j + p.len());
        assert(w == p);
        assert(w[at] == b[j + at] && w[at + 1] == b[j + at + 1] && w[at + 2] == b[j + at + 2] && w[at + 3] == b[j + at + 3]);
        assert(a[j + at] == b[j + at]);
        assert(a[j + at + 1] == b[j + at + 1]);
        assert(a[j + at + 2] == b[j + at + 2]);
        assert(a[j + at + 3] == b[j + at + 3]);
        assert(key_end_at(a, c, j + at));
    }
}

proof fn lemma_video_key_prefix(
    name: Seq<char>,
    version: Seq<char>,
    platform: YoutubeClientPlatform,
    visitor_data: Option<Seq<char>>,
)
    requires
        plain_json_text(name),
        plain_json_text(version),
    ensures
        no_key_end(
            body_head(name, version, platform) + body_visitor_part(visitor_data) + body_context_close()
                + body_video_key().take(10),
            'd',
        ),
{
    lemma_body_literals('d');
    let head = body_head(name, version, platform);
    let vpart = body_visitor_part(visitor_data);
    let close = body_context_close();
    lemma_head_keys(name, version, platform, 'd');
    let x7 = head + vpart;
    match visitor_data {
        Some(v) => {
            let vk = body_visitor_key();
            let ev = crate::json::json_escape(v);
            lemma_json_escape_quotes(v);
            lemma_key_end_concat(head, vk, 'd');
            let y1 = head + vk;
            lemma_escaped_part(y1, ev, 'd');
            let y2 = y1 + ev;
            lemma_ends_with_key_sep(head, vk);
            lemma_no_key_start_after(y1, ev, 'd');
            assert(no_key_end(seq!['"'], 'd'));
            lemma_key_end_concat(y2, seq!['"'], 'd');
            assert(x7 == y2 + seq!['"']);
        },
        None => {
            assert(x7 == head);
        },
    }
    lemma_key_end_concat(x7, close, 'd');
    let pre = x7 + close;
    assert(pre[pre.len() - 3] == close[0]);
    let vk10 = body_video_key().take(10);
    assert(vk10[0] == '"' && vk10[1] == 'v');
    lemma_key_end_concat(pre, vk10, 'd');
}

proof fn lemma_body_shape(
    video_id: Seq<char>,
    name: Seq<char>,
    version: Seq<char>,
    platform: YoutubeClientPlatform,
    visitor_data: Option<Seq<char>>,
)
    ensures
        player_request_body_spec(video_id, name, version, platform, visitor_data) == body_head(
            name,
            version,
            platform,
        ) + body_visitor_part(visitor_data) + body_context_close() + body_video_key()
            + crate::json::json_escape(video_id) + body_tail(),
{
}

proof fn lemma_video_key_and_tail()
    ensures
        body_video_key() == crate::json::string_field_pattern("videoId"@),
        body_tail().len() > 0 && body_tail()[0] == '"',
        body_tail().last() == '}',
        body_open().len() > 0 && body_open()[0] == '{',
{
    reveal_strlit("{\"context\":{\"client\":{\"clientName\":\"");
    reveal_strlit("\"videoId\":\"");
    reveal_strlit("videoId");
    reveal_strlit("\",\"playbackContext\":{\"contentPlaybackContext\":{\"html5Preference\":\"HTML5_PREF_WANTS\"}},\"contentCheckOk\":true,\"racyCheckOk\":true}");
    assert(body_video_key() =~= crate::json::string_field_pattern("videoId"@));
}

/// A text whose prefix `a` holds no `c":"` has its first `p` (which ends
/// in `c":"`) at `at` when it has one there and `a` reaches just short of
/// its end.
proof fn lemma_first_match(b: Seq<char>, a: Seq<char>, p: Seq<char>, c: char, at: int)
    requires
        p.len() >= 4,
        p[p.len() - 4] == c,
        p[p.len() - 3] == '"',
        p[p.len() - 2] == ':',
        p[p.len() - 1] == '"',
        a.len() <= b.len(),
        forall|i: int| 0 <= i < a.len() ==> a[i] == b[i],
        no_key_end(a, c),
        0 <= at,
        at + p.len() - 1 <= a.len(),
        crate::text::matches_at(b, p, at),
    ensures
        crate::text::find(b, p) == Some(at),
{
    assert forall|j: int| 0 <= j < at implies !crate::text::matches_at(b, p, j) by {
        lemma_key_end_shows_match(b, a, p, c, j, p.len() - 4);
    }
    crate::url::lemma_find_from_first(b, p, 0);
}

/// Where the first `"name":"` of a text is the one before an escaped
/// string, the field reads back as that string.
proof fn lemma_first_field(
    pre: Seq<char>,
    name: Seq<char>,
    x: Seq<char>,
    rest: Seq<char>,
    c: char,
)
    requires
        name.len() > 0,
        name.last() == c,
        no_key_end(pre + crate::json::string_field_pattern(name).drop_last(), c),
    ensures
        crate::json::json_string_field_spec(
            pre + crate::json::string_field_pattern(name) + crate::json::json_escape(x) + seq!['"']
                + rest,
            name,
        ) == Some(x),
{
    let p = crate::json::string_field_pattern(name);
    let n = p.len() as int;
    assert(p[n - 4] == c && p[n - 3] == '"' && p[n - 2] == ':' && p[n - 1] == '"');
    let e = crate::json::json_escape(x) + seq!['"'] + rest;
    let b = pre + p + crate::json::json_escape(x) + seq!['"'] + rest;
    assert(b =~= pre + p + e);
    let a = pre + p.drop_last();
    assert forall|i: int| 0 <= i < a.len() implies a[i] == b[i] by {
        if i < pre.len() {
            assert(a[i] == pre[i]);
            assert(b[i] == pre[i]);
        } else {
            assert(a[i] == p[i - pre.len()]);
            assert(b[i] == p[i - pre.len()]);
        }
    }
    let at = pre.len() as int;
    assert(b.subrange(at, at + n) =~= p);
    lemma_first_match(b, a, p, c, at);
    assert(b.skip(at + n) =~= e);
    crate::json::lemma_json_string_roundtrip(x, rest);
}

proof fn lemma_request_body_video_id(
    video_id: Seq<char>,
    name: Seq<char>,
    version: Seq<char>,
    platform: YoutubeClientPlatform,
    visitor_data: Option<Seq<char>>,
)
    requires
        plain_json_text(name),
        plain_json_text(version),
    ensures
        crate::json::json_string_field_spec(
            player_request_body_spec(video_id, name, version, platform, visitor_data),
            "videoId"@,
        ) == Some(video_id),
{
    lemma_video_key_and_tail();
    reveal_strlit("videoId");
    let pre = body_head(name, version, platform) + body_visitor_part(visitor_data) + body_context_close();
    let tail = body_tail();
    lemma_body_shape(video_id, name, version, platform, visitor_data);
    lemma_video_key_prefix(name, version, platform, visitor_data);
    assert(body_video_key().take(10) == body_video_key().drop_last());
    assert(tail == seq!['"'] + tail.drop_first());
    assert(player_request_body_spec(video_id, name, version, platform, visitor_data) == pre
        + body_video_key() + crate::json::json_escape(video_id) + seq!['"'] + tail.drop_first());
    lemma_first_field(pre, "videoId"@, video_id, tail.drop_first(), 'd');
}

#[verifier::rlimit(60)]
proof fn lemma_request_body_visitor_data(
    video_id: Seq<char>,
    name: Seq<char>,
    version: Seq<char>,
    platform: YoutubeClientPlatform,
    visitor_data: Option<Seq<char>>,
)
    requires
        plain_json_text(name),
        plain_json_text(version),
    ensures
        crate::json::json_string_field_spec(
            player_request_body_spec(video_id, name, version, platform, visitor_data),
            "visitorData"@,
        ) == visitor_data,
{
    lemma_body_literals('a');
    let head = body_head(name, version, platform);
    let close = body_context_close();
    let vkey = body_video_key();
    let esc = crate::json::json_escape(video_id);
    let tail = body_tail();
    let b = player_request_body_spec(video_id, name, version, platform, visitor_data);
    lemma_head_keys(name, version, platform, 'a');
    let pw = crate::json::string_field_pattern("visitorData"@);
    reveal_strlit("visitorData");
    assert(pw.len() == 15 && pw[11] == 'a' && pw[12] == '"' && pw[13] == ':' && pw[14] == '"');
    match visitor_data {
        Some(v) => {
            let vk = body_visitor_key();
            let ev = crate::json::json_escape(v);
            let vk15 = vk.take(15);
            lemma_key_end_concat(head, vk15, 'a');
            let a3 = head + vk15;
            assert(b == head + vk + ev + seq!['"'] + close + vkey + esc + tail);
            assert forall|i: int| 0 <= i < a3.len() implies a3[i] == b[i] by {
                if i < head.len() {
                    assert(a3[i] == head[i]);
                    assert(b[i] == head[i]);
                } else {
                    assert(a3[i] == vk[i - head.len()]);
                    assert(b[i] == vk[i - head.len()]);
                }
            }
            let pos = head.len() as int + 1;
            assert forall|j: int| 0 <= j < pos implies !crate::text::matches_at(b, pw, j) by {
                lemma_key_end_shows_match(b, a3, pw, 'a', j, 11);
            }
            assert(b.subrange(pos, pos + 15) =~= pw) by {
                assert forall|i: int| 0 <= i < 15 implies b.subrange(pos, pos + 15)[i] == pw[i] by {
                    assert(b[pos + i] == vk[i + 1]);
                    assert(vk.skip(1)[i] == vk[i + 1]);
                }
            }
            assert(crate::text::matches_at(b, pw, pos));
            crate::url::lemma_find_from_first(b, pw, 0);
            assert(crate::text::find(b, pw) == Some(pos));
            assert(b.skip(pos + 15) =~= ev + seq!['"'] + (close + vkey + esc + tail));
            crate::json::lemma_json_string_roundtrip(v, close + vkey + esc + tail);
        },
        None => {
            assert(b == head + close + vkey + esc + tail);
            lemma_json_escape_quotes(video_id);
            lemma_key_end_concat(head, close, 'a');
            let z1 = head + close;
            assert(z1[z1.len() - 3] == close[0]);
            lemma_key_end_concat(z1, vkey, 'a');
            let z2 = z1 + vkey;
            lemma_escaped_part(z2, esc, 'a');
            let z3 = z2 + esc;
            lemma_ends_with_key_sep(z1, vkey);
            lemma_no_key_start_after(z2, esc, 'a');
            lemma_key_end_concat(z3, tail, 'a');
            assert forall|j: int| 0 <= j implies !crate::text::matches_at(b, pw, j) by {
                lemma_key_end_shows_match(b, b, pw, 'a', j, 11);
            }
            crate::url::lemma_find_from_first(b, pw, 0);
        },
    }
}

/// The body of a player API request reads back: its `videoId` field is the
/// video id, its `visitorData` field the visitor data (no such field when
/// there is none), and the brace that closes its first `{` is its last
/// character, whatever the video id and visitor data hold, for a client
/// whose name and version hold no quote and no backslash.
pub proof fn lemma_request_body_fields(
    video_id: Seq<char>,
    name: Seq<char>,
    version: Seq<char>,
    platform: YoutubeClientPlatform,
    visitor_data: Option<Seq<char>>,
)
    requires
        plain_json_text(name),
        plain_json_text(version),
    ensures
        crate::json::json_string_field_spec(
            player_request_body_spec(video_id, name, version, platform, visitor_data),
            "videoId"@,
        ) == Some(video_id),
        crate::json::json_string_field_spec(
            player_request_body_spec(video_id, name, version, platform, visitor_data),
            "visitorData"@,
        ) == visitor_data,
        crate::json::matching_json(
            player_request_body_spec(video_id, name, version, platform, visitor_data),
            0,
            '{',
            '}',
        ) == Some(
            (player_request_body_spec(video_id, name, version, platform, visitor_data).len() - 1) as int,
        ),
{
    lemma_request_body_video_id(video_id, name, version, platform, visitor_data);
    lemma_request_body_visitor_data(video_id, name, version, platform, visitor_data);
    lemma_request_body_braces(video_id, name, version, platform, visitor_data);
}

} // verus!

verus! {

/// One character of the bracket scan of `json_scan`, from a state (depth,
/// inside a string, after a backslash) that has not ended it; `None` when
/// the character is a closing brace that ends the scan (or ends it empty).
pub open spec fn scan_char(st: (int, bool, bool), c: char) -> Option<(int, bool, bool)> {
    let (depth, in_string, escaped) = st;
    if in_string {
        if escaped {
            Some((depth, true, false))
        } else if c == '\\' {
            Some((depth, true, true))
        } else if c == '"' {
            Some((depth, false, false))
        } else {
            Some((depth, true, false))
        }
    } else if c == '"' {
        Some((depth, true, false))
    } else if c == '{' {
        Some((depth + 1, false, false))
    } else if c == '}' {
        if depth <= 1 {
            None
        } else {
            Some((depth - 1, false, false))
        }
    } else {
        Some((depth, false, false))
    }
}

/// The bracket scan over `seg` from index `k`, when it does not end there.
pub open spec fn scan_run(seg: Seq<char>, k: int, st: (int, bool, bool)) -> Option<(int, bool, bool)>
    decreases seg.len() - k,
{
    if k < 0 || k >= seg.len() {
        Some(st)
    } else {
        match scan_char(st, seg[k]) {
            Some(n) => scan_run(seg, k + 1, n),
            None => None,
        }
    }
}

proof fn lemma_scan_run_shift(p: Seq<char>, k: int, st: (int, bool, bool))
    requires
        0 <= k,
        p.len() > 0,
    ensures
        scan_run(p, k + 1, st) == scan_run(p.drop_first(), k, st),
    decreases p.len() - k,
{
    if k + 1 < p.len() {
        assert(p[k + 1] == p.drop_first()[k]);
        match scan_char(st, p[k + 1]) {
            Some(n) => lemma_scan_run_shift(p, k + 1, n),
            None => {},
        }
    }
}

proof fn lemma_scan_concat(a: Seq<char>, b: Seq<char>, st: (int, bool, bool))
    ensures
        scan_run(a + b, 0, st) == match scan_run(a, 0, st) {
            Some(x) => scan_run(b, 0, x),
            None => None,
        },
    decreases a.len(),
{
    if a.len() == 0 {
        assert(a + b == b);
    } else {
        let t = a + b;
        assert(t[0] == a[0]);
        match scan_char(st, a[0]) {
            Some(n) => {
                lemma_scan_run_shift(t, 0, n);
                lemma_scan_run_shift(a, 0, n);
                assert(t.drop_first() == a.drop_first() + b);
                lemma_scan_concat(a.drop_first(), b, n);
            },
            None => {},
        }
    }
}

proof fn lemma_json_scan_run(s: Seq<char>, i: int, j: int, st: (int, bool, bool), st2: (int, bool, bool))
    requires
        0 <= i <= j <= s.len(),
        scan_run(s.subrange(i, j), 0, st) == Some(st2),
    ensures
        crate::json::json_scan(s, i, '{', '}', st.0, st.1, st.2) == crate::json::json_scan(
            s,
            j,
            '{',
            '}',
            st2.0,
            st2.1,
            st2.2,
        ),
    decreases j - i,
{
    if i < j {
        let p = s.subrange(i, j);
        assert(p[0] == s[i]);
        let n = scan_char(st, s[i])->Some_0;
        lemma_scan_run_shift(p, 0, n);
        assert(p.drop_first() == s.subrange(i + 1, j));
        lemma_json_scan_run(s, i + 1, j, n, st2);
    }
}

proof fn lemma_scan_plain(y: Seq<char>, d: int)
    requires
        plain_json_text(y),
    ensures
        scan_run(y, 0, (d, true, false)) == Some((d, true, false)),
    decreases y.len(),
{
    if y.len() > 0 {
        assert(y[0] != '"' && y[0] != '\\');
        lemma_scan_run_shift(y, 0, (d, true, false));
        assert forall|m: int| 0 <= m < y.drop_first().len() implies #[trigger] y.drop_first()[m] != '"'
            && y.drop_first()[m] != '\\' by {
            assert(y.drop_first()[m] == y[m + 1]);
        }
        lemma_scan_plain(y.drop_first(), d);
    }
}

proof fn lemma_scan_escaped(x: Seq<char>, d: int)
    ensures
        scan_run(crate::json::json_escape(x), 0, (d, true, false)) == Some((d, true, false)),
    decreases x.len(),
{
    if x.len() > 0 {
        let c = x[0];
        let rest = x.drop_first();
        assert(x == seq![c] + rest);
        crate::json::lemma_json_escape_concat(seq![c], rest);
        assert(seq![c].drop_last() == Seq::<char>::empty());
        assert(crate::json::json_escape(Seq::<char>::empty()) == Seq::<char>::empty());
        assert(Seq::<char>::empty() + crate::json::json_escape_char(c) == crate::json::json_escape_char(c));
        assert(crate::json::json_escape(seq![c]) == crate::json::json_escape_char(c));
        let e = crate::json::json_escape_char(c);
        lemma_scan_concat(e, crate::json::json_escape(rest), (d, true, false));
        reveal_with_fuel(scan_run, 7);
        if (c as u32) < 0x20 && c != '\n' && c != '\r' && c != '\t' && c != '\x08' && c != '\x0C' && c != '"' && c != '\\' {
            let v = c as u32;
            assert(v / 16 < 16 && v % 16 < 16);
            assert(e[4] != '"' && e[5] != '"' && e[4] != '\\' && e[5] != '\\');
        }
        assert(scan_run(e, 0, (d, true, false)) == Some((d, true, false)));
        lemma_scan_escaped(rest, d);
    }
}

} // verus!

verus! {

proof fn lemma_scan_body_open()
    ensures
        scan_run(body_open(), 0, (0int, false, false)) == Some((3int, true, false)),
{
    reveal_strlit("{\"context\":{\"client\":{\"clientName\":\"");
    reveal_with_fuel(scan_run, 33);
    let l = body_open();
    assert(l.len() == 36);
    let c0 = l.subrange(0, 32);
    assert(scan_run(c0, 0, (0int, false, false)) == Some((3int, true, false)));
    let c1 = l.subrange(32, 36);
    assert(scan_run(c1, 0, (3int, true, false)) == Some((3int, true, false)));
    lemma_scan_concat(c0, c1, (0int, false, false));
    assert(l =~= (c0 + c1));
}

proof fn lemma_scan_body_version_key()
    ensures
        scan_run(body_version_key(), 0, (3int, true, false)) == Some((3int, true, false)),
{
    reveal_strlit("\",\"clientVersion\":\"");
    reveal_with_fuel(scan_run, 33);
    let l = body_version_key();
    assert(l.len() == 19);
    let c0 = l.subrange(0, 19);
    assert(scan_run(c0, 0, (3int, true, false)) == Some((3int, true, false)));
    assert(l =~= c0);
}

proof fn lemma_scan_body_locale()
    ensures
        scan_run(body_locale(), 0, (3int, true, false)) == Some((3int, false, false)),
{
    reveal_strlit("\",\"hl\":\"en\",\"gl\":\"US\",\"utcOffsetMinutes\":0");
    reveal_with_fuel(scan_run, 33);
    let l = body_locale();
    assert(l.len() == 42);
    let c0 = l.subrange(0, 32);
    assert(scan_run(c0, 0, (3int, true, false)) == Some((3int, true, false)));
    let c1 = l.subrange(32, 42);
    assert(scan_run(c1, 0, (3int, true, false)) == Some((3int, false, false)));
    lemma_scan_concat(c0, c1, (3int, true, false));
    assert(l =~= (c0 + c1));
}

proof fn lemma_scan_context_android()
    ensures
        scan_run(platform_context(YoutubeClientPlatform::Android), 0, (3int, false, false)) == Some((3int, false, false)),
{
    reveal_strlit(",\"androidSdkVersion\":30,\"userAgent\":\"com.google.android.youtube/21.02.35 (Linux; U; Android 11) gzip\",\"osName\":\"Android\",\"osVersion\":\"11\"");
    reveal_with_fuel(scan_run, 33);
    let l = platform_context(YoutubeClientPlatform::Android);
    assert(l.len() == 137);
    let c0 = l.subrange(0, 32);
    assert(scan_run(c0, 0, (3int, false, false)) == Some((3int, true, false)));
    let c1 = l.subrange(32, 64);
    assert(scan_run(c1, 0, (3int, true, false)) == Some((3int, true, false)));
    let c2 = l.subrange(64, 96);
    assert(scan_run(c2, 0, (3int, true, false)) == Some((3int, true, false)));
    let c3 = l.subrange(96, 128);
    assert(scan_run(c3, 0, (3int, true, false)) == Some((3int, true, false)));
    let c4 = l.subrange(128, 137);
    assert(scan_run(c4, 0, (3int, true, false)) == Some((3int, false, false)));
    lemma_scan_concat(c0, c1, (3int, false, false));
    lemma_scan_concat((c0 + c1), c2, (3int, false, false));
    lemma_scan_concat(((c0 + c1) + c2), c3, (3int, false, false));
    lemma_scan_concat((((c0 + c1) + c2) + c3), c4, (3int, false, false));
    assert(l =~= ((((c0 + c1) + c2) + c3) + c4));
}

proof fn lemma_scan_context_androidvr()
    ensures
        scan_run(platform_context(YoutubeClientPlatform::AndroidVr), 0, (3int, false, false)) == Some((3int, false, false)),
{
    reveal_strlit(",\"deviceMake\":\"Oculus\",\"deviceModel\":\"Quest 3\",\"androidSdkVersion\":32,\"userAgent\":\"com.google.android.apps.youtube.vr.oculus/1.65.10 (Linux; U; Android 12L; eureka-user Build/SQ3A.220605.009.A1) gzip\",\"osName\":\"Android\",\"osVersion\":\"12L\"");
    reveal_with_fuel(scan_run, 33);
    let l = platform_context(YoutubeClientPlatform::AndroidVr);
    assert(l.len() == 237);
    let c0 = l.subrange(0, 32);
    assert(scan_run(c0, 0, (3int, false, false)) == Some((3int, true, false)));
    let c1 = l.subrange(32, 64);
    assert(scan_run(c1, 0, (3int, true, false)) == Some((3int, true, false)));
    let c2 = l.subrange(64, 96);
    assert(scan_run(c2, 0, (3int, true, false)) == Some((3int, true, false)));
    let c3 = l.subrange(96, 128);
    assert(scan_run(c3, 0, (3int, true, false)) == Some((3int, true, false)));
    let c4 = l.subrange(128, 160);
    assert(scan_run(c4, 0, (3int, true, false)) == Some((3int, true, false)));
    let c5 = l.subrange(160, 192);
    assert(scan_run(c5, 0, (3int, true, false)) == Some((3int, true, false)));
    let c6 = l.subrange(192, 224);
    assert(scan_run(c6, 0, (3int, true, false)) == Some((3int, true, false)));
    let c7 = l.subrange(224, 237);
    assert(scan_run(c7, 0, (3int, true, false)) == Some((3int, false, false)));
    lemma_scan_concat(c0, c1, (3int, false, false));
    lemma_scan_concat((c0 + c1), c2, (3int, false, false));
    lemma_scan_concat(((c0 + c1) + c2), c3, (3int, false, false));
    lemma_scan_concat((((c0 + c1) + c2) + c3), c4, (3int, false, false));
    lemma_scan_concat(((((c0 + c1) + c2) + c3) + c4), c5, (3int, false, false));
    lemma_scan_concat((((((c0 + c1) + c2) + c3) + c4) + c5), c6, (3int, false, false));
    lemma_scan_concat(((((((c0 + c1) + c2) + c3) + c4) + c5) + c6), c7, (3int, false, false));
    assert(l =~= (((((((c0 + c1) + c2) + c3) + c4) + c5) + c6) + c7));
}

proof fn lemma_scan_context_ios()
    ensures
        scan_run(platform_context(YoutubeClientPlatform::Ios), 0, (3int, false, false)) == Some((3int, false, false)),
{
    reveal_strlit(",\"deviceMake\":\"Apple\",\"deviceModel\":\"iPhone16,2\",\"userAgent\":\"com.google.ios.youtube/21.02.3 (iPhone16,2; U; CPU iOS 18_3_2 like Mac OS X;)\",\"osName\":\"iPhone\",\"osVersion\":\"18.3.2.22D82\"");
    reveal_with_fuel(scan_run, 33);
    let l = platform_context(YoutubeClientPlatform::Ios);
    assert(l.len() == 185);
    let c0 = l.subrange(0, 32);
    assert(scan_run(c0, 0, (3int, false, false)) == Some((3int, true, false)));
    let c1 = l.subrange(32, 64);
    assert(scan_run(c1, 0, (3int, true, false)) == Some((3int, true, false)));
    let c2 = l.subrange(64, 96);
    assert(scan_run(c2, 0, (3int, true, false)) == Some((3int, true, false)));
    let c3 = l.subrange(96, 128);
    assert(scan_run(c3, 0, (3int, true, false)) == Some((3int, true, false)));
    let c4 = l.subrange(128, 160);
    assert(scan_run(c4, 0, (3int, true, false)) == Some((3int, true, false)));
    let c5 = l.subrange(160, 185);
    assert(scan_run(c5, 0, (3int, true, false)) == Some((3int, false, false)));
    lemma_scan_concat(c0, c1, (3int, false, false));
    lemma_scan_concat((c0 + c1), c2, (3int, false, false));
    lemma_scan_concat(((c0 + c1) + c2), c3, (3int, false, false));
    lemma_scan_concat((((c0 + c1) + c2) + c3), c4, (3int, false, false));
    lemma_scan_concat(((((c0 + c1) + c2) + c3) + c4), c5, (3int, false, false));
    assert(l =~= (((((c0 + c1) + c2) + c3) + c4) + c5));
}

proof fn lemma_scan_body_visitor_key()
    ensures
        scan_run(body_visitor_key(), 0, (3int, false, false)) == Some((3int, true, false)),
{
    reveal_strlit(",\"visitorData\":\"");
    reveal_with_fuel(scan_run, 33);
    let l = body_visitor_key();
    assert(l.len() == 16);
    let c0 = l.subrange(0, 16);
    assert(scan_run(c0, 0, (3int, false, false)) == Some((3int, true, false)));
    assert(l =~= c0);
}

proof fn lemma_scan_body_context_close()
    ensures
        scan_run(body_context_close(), 0, (3int, false, false)) == Some((1int, false, false)),
{
    reveal_strlit("}},");
    reveal_with_fuel(scan_run, 33);
    let l = body_context_close();
    assert(l.len() == 3);
    let c0 = l.subrange(0, 3);
    assert(scan_run(c0, 0, (3int, false, false)) == Some((1int, false, false)));
    assert(l =~= c0);
}

proof fn lemma_scan_body_video_key()
    ensures
        scan_run(body_video_key(), 0, (1int, false, false)) == Some((1int, true, false)),
{
    reveal_strlit("\"videoId\":\"");
    reveal_with_fuel(scan_run, 33);
    let l = body_video_key();
    assert(l.len() == 11);
    let c0 = l.subrange(0, 11);
    assert(scan_run(c0, 0, (1int, false, false)) == Some((1int, true, false)));
    assert(l =~= c0);
}

proof fn lemma_scan_body_tail()
    ensures
        scan_run(body_tail().drop_last(), 0, (1int, true, false)) == Some((1int, false, false)),
{
    reveal_strlit("\",\"playbackContext\":{\"contentPlaybackContext\":{\"html5Preference\":\"HTML5_PREF_WANTS\"}},\"contentCheckOk\":true,\"racyCheckOk\":true}");
    reveal_with_fuel(scan_run, 33);
    let l = body_tail().drop_last();
    assert(l.len() == 126);
    let c0 = l.subrange(0, 32);
    assert(scan_run(c0, 0, (1int, true, false)) == Some((2int, true, false)));
    let c1 = l.subrange(32, 64);
    assert(scan_run(c1, 0, (2int, true, false)) == Some((3int, false, false)));
    let c2 = l.subrange(64, 96);
    assert(scan_run(c2, 0, (3int, false, false)) == Some((1int, true, false)));
    let c3 = l.subrange(96, 126);
    assert(scan_run(c3, 0, (1int, true, false)) == Some((1int, false, false)));
    lemma_scan_concat(c0, c1, (1int, true, false));
    lemma_scan_concat((c0 + c1), c2, (1int, true, false));
    lemma_scan_concat(((c0 + c1) + c2), c3, (1int, true, false));
    assert(l =~= (((c0 + c1) + c2) + c3));
}

} // verus!

verus! {

proof fn lemma_scan_then(a: Seq<char>, b: Seq<char>, st: (int, bool, bool), mid: (int, bool, bool), end: (int, bool, bool))
    requires
        scan_run(a, 0, st) == Some(mid),
        scan_run(b, 0, mid) == Some(end),
    ensures
        scan_run(a + b, 0, st) == Some(end),
{
    lemma_scan_concat(a, b, st);
}

proof fn lemma_scan_body_head(name: Seq<char>, version: Seq<char>, platform: YoutubeClientPlatform)
    requires
        plain_json_text(name),
        plain_json_text(version),
    ensures
        scan_run(body_head(name, version, platform), 0, (0int, false, false)) == Some((3int, false, false)),
{
    let st0 = (0int, false, false);
    let ins = (3int, true, false);
    let out = (3int, false, false);
    lemma_scan_body_open();
    lemma_scan_plain(name, 3);
    lemma_scan_then(body_open(), name, st0, ins, ins);
    let x2 = body_open() + name;
    lemma_scan_body_version_key();
    lemma_scan_then(x2, body_version_key(), st0, ins, ins);
    let x3 = x2 + body_version_key();
    lemma_scan_plain(version, 3);
    lemma_scan_then(x3, version, st0, ins, ins);
    let x4 = x3 + version;
    lemma_scan_body_locale();
    lemma_scan_then(x4, body_locale(), st0, ins, out);
    let x5 = x4 + body_locale();
    let ctx = platform_context(platform);
    match platform {
        YoutubeClientPlatform::Web => {
            assert(scan_run(ctx, 0, out) == Some(out));
        },
        YoutubeClientPlatform::Android => {
            lemma_scan_context_android();
        },
        YoutubeClientPlatform::AndroidVr => {
            lemma_scan_context_androidvr();
        },
        YoutubeClientPlatform::Ios => {
            lemma_scan_context_ios();
        },
    }
    lemma_scan_then(x5, ctx, st0, out, out);
}

proof fn lemma_scan_visitor_part(visitor_data: Option<Seq<char>>)
    ensures
        scan_run(body_visitor_part(visitor_data), 0, (3int, false, false)) == Some((3int, false, false)),
{
    let ins = (3int, true, false);
    let out = (3int, false, false);
    match visitor_data {
        Some(v) => {
            lemma_scan_body_visitor_key();
            lemma_scan_escaped(v, 3);
            lemma_scan_then(body_visitor_key(), crate::json::json_escape(v), out, ins, ins);
            reveal_with_fuel(scan_run, 2);
            assert(scan_run(seq!['"'], 0, ins) == Some(out));
            lemma_scan_then(body_visitor_key() + crate::json::json_escape(v), seq!['"'], out, ins, out);
        },
        None => {},
    }
}

/// The outer braces of a player API request body match.
proof fn lemma_request_body_braces(
    video_id: Seq<char>,
    name: Seq<char>,
    version: Seq<char>,
    platform: YoutubeClientPlatform,
    visitor_data: Option<Seq<char>>,
)
    requires
        plain_json_text(name),
        plain_json_text(version),
    ensures
        crate::json::matching_json(
            player_request_body_spec(video_id, name, version, platform, visitor_data),
            0,
            '{',
            '}',
        ) == Some(
            (player_request_body_spec(video_id, name, version, platform, visitor_data).len() - 1) as int,
        ),
{
    let st0 = (0int, false, false);
    let out3 = (3int, false, false);
    let out1 = (1int, false, false);
    let ins1 = (1int, true, false);
    lemma_body_shape(video_id, name, version, platform, visitor_data);
    lemma_video_key_and_tail();
    let b = player_request_body_spec(video_id, name, version, platform, visitor_data);
    let head = body_head(name, version, platform);
    let tail = body_tail();
    let t0 = tail.drop_last();
    lemma_scan_body_head(name, version, platform);
    lemma_scan_visitor_part(visitor_data);
    lemma_scan_then(head, body_visitor_part(visitor_data), st0, out3, out3);
    let y1 = head + body_visitor_part(visitor_data);
    lemma_scan_body_context_close();
    lemma_scan_then(y1, body_context_close(), st0, out3, out1);
    let y2 = y1 + body_context_close();
    lemma_scan_body_video_key();
    lemma_scan_then(y2, body_video_key(), st0, out1, ins1);
    let y3 = y2 + body_video_key();
    lemma_scan_escaped(video_id, 1);
    lemma_scan_then(y3, crate::json::json_escape(video_id), st0, ins1, ins1);
    let y4 = y3 + crate::json::json_escape(video_id);
    lemma_scan_body_tail();
    lemma_scan_then(y4, t0, st0, ins1, out1);
    let y5 = y4 + t0;
    assert(b == y4 + tail);
    assert(tail == t0 + seq!['}']);
    assert(b =~= y5 + seq!['}']);
    let n = b.len() as int;
    assert(b.subrange(0, n - 1) =~= y5);
    lemma_json_scan_run(b, 0, n - 1, st0, out1);
    assert(b[n - 1] == '}');
    assert(b[0] == body_open()[0]);
}

} // verus!

verus! {

// ---------------------------------------------------------------------------
// What the stream choices pick.

/// A format with an H.264 video-only MP4 mime type and a URL it can be
/// fetched from.
pub open spec fn fetchable_video(o: Seq<char>) -> bool {
    &&& json_string_field_spec(o, "mimeType"@) matches Some(m) && is_h264_video_only(m)
    &&& format_url_spec(o) is Some
}

/// A format with an AAC audio MP4 mime type and a URL it can be fetched
/// from.
pub open spec fn fetchable_aac(o: Seq<char>) -> bool {
    &&& json_string_field_spec(o, "mimeType"@) matches Some(m) && is_aac_audio(m)
    &&& format_url_spec(o) is Some
}

/// A format with a progressive (video and AAC audio) MP4 mime type and a URL
/// it can be fetched from.
pub open spec fn fetchable_progressive(o: Seq<char>) -> bool {
    &&& json_string_field_spec(o, "mimeType"@) matches Some(m) && is_progressive_mp4(m)
    &&& format_url_spec(o) is Some
}

/// A format's height, 0 when it gives none.
pub open spec fn format_height(o: Seq<char>) -> nat {
    usize_or_zero(json_usize_field_spec(o, "height"@))
}

/// The format at `i` is the first of `os` that `ok` admits with rank `r`:
/// every earlier admitted format ranks lower.
pub open spec fn first_with_rank(
    os: Seq<Seq<char>>,
    ok: spec_fn(Seq<char>) -> bool,
    rank: spec_fn(Seq<char>) -> nat,
    i: int,
    r: nat,
) -> bool {
    forall|j: int| 0 <= j < i && #[trigger] ok(os[j]) ==> rank(os[j]) < r
}

/// `(url, r)` is the URL of a format of `os` that `ok` admits, whose rank
/// `rank` is `r` and at least that of every format `ok` admits; it is the
/// first such format.
pub open spec fn best_of(
    os: Seq<Seq<char>>,
    ok: spec_fn(Seq<char>) -> bool,
    rank: spec_fn(Seq<char>) -> nat,
    url: Seq<char>,
    r: nat,
) -> bool {
    &&& exists|i: int|
        0 <= i < os.len() && #[trigger] ok(os[i]) && format_url_spec(os[i]) == Some(url) && rank(
            os[i],
        ) == r && first_with_rank(os, ok, rank, i, r)
    &&& forall|j: int| 0 <= j < os.len() && #[trigger] ok(os[j]) ==> rank(os[j]) <= r
}

/// `url` is the URL of a format of `os` that `ok` admits and whose rank is
/// at least that of every format `ok` admits, the first such format.
pub open spec fn is_best_url(
    os: Seq<Seq<char>>,
    ok: spec_fn(Seq<char>) -> bool,
    rank: spec_fn(Seq<char>) -> nat,
    url: Seq<char>,
) -> bool {
    exists|i: int|
        0 <= i < os.len() && #[trigger] ok(os[i]) && format_url_spec(os[i]) == Some(url) && (forall|
            j: int,
        | 0 <= j < os.len() && #[trigger] ok(os[j]) ==> rank(os[j]) <= rank(os[i])) && first_with_rank(
            os,
            ok,
            rank,
            i,
            rank(os[i]),
        )
}

proof fn lemma_best_url(
    os: Seq<Seq<char>>,
    ok: spec_fn(Seq<char>) -> bool,
    rank: spec_fn(Seq<char>) -> nat,
    url: Seq<char>,
    r: nat,
)
    requires
        best_of(os, ok, rank, url, r),
    ensures
        is_best_url(os, ok, rank, url),
{
    let i = choose|i: int|
        0 <= i < os.len() && #[trigger] ok(os[i]) && format_url_spec(os[i]) == Some(url) && rank(os[i]) == r
            && first_with_rank(os, ok, rank, i, r);
    assert(0 <= i < os.len() && ok(os[i]) && format_url_spec(os[i]) == Some(url));
}

pub open spec fn none_admitted(os: Seq<Seq<char>>, ok: spec_fn(Seq<char>) -> bool) -> bool {
    forall|j: int| 0 <= j < os.len() ==> !#[trigger] ok(os[j])
}

pub open spec fn fold_agrees(
    os: Seq<Seq<char>>,
    b: Option<(Seq<char>, nat)>,
    ok: spec_fn(Seq<char>) -> bool,
    rank: spec_fn(Seq<char>) -> nat,
) -> bool {
    match b {
        None => none_admitted(os, ok),
        Some(p) => best_of(os, ok, rank, p.0, p.1),
    }
}

proof fn lemma_best_new(
    os: Seq<Seq<char>>,
    o: Seq<char>,
    ok: spec_fn(Seq<char>) -> bool,
    rank: spec_fn(Seq<char>) -> nat,
)
    requires
        ok(o),
        format_url_spec(o) is Some,
        forall|j: int| 0 <= j < os.len() && #[trigger] ok(os[j]) ==> rank(os[j]) < rank(o),
    ensures
        best_of(os.push(o), ok, rank, format_url_spec(o)->0, rank(o)),
{
    let t = os.push(o);
    let n = os.len() as int;
    assert(t[n] == o);
    assert forall|j: int| 0 <= j < n && #[trigger] ok(t[j]) implies rank(t[j]) < rank(o) by {
        assert(t[j] == os[j]);
    }
    assert(first_with_rank(t, ok, rank, n, rank(o)));
    assert forall|j: int| 0 <= j < t.len() && #[trigger] ok(t[j]) implies rank(t[j]) <= rank(o) by {
        if j < n {
            assert(t[j] == os[j]);
        }
    }
}

proof fn lemma_best_keep(
    os: Seq<Seq<char>>,
    o: Seq<char>,
    ok: spec_fn(Seq<char>) -> bool,
    rank: spec_fn(Seq<char>) -> nat,
    url: Seq<char>,
    r: nat,
)
    requires
        best_of(os, ok, rank, url, r),
        ok(o) ==> rank(o) <= r,
    ensures
        best_of(os.push(o), ok, rank, url, r),
{
    let t = os.push(o);
    let n = os.len() as int;
    let i = choose|i: int|
        0 <= i < os.len() && #[trigger] ok(os[i]) && format_url_spec(os[i]) == Some(url) && rank(os[i]) == r
            && first_with_rank(os, ok, rank, i, r);
    assert(t[i] == os[i]);
    assert(ok(t[i]));
    assert forall|j: int| 0 <= j < i && #[trigger] ok(t[j]) implies rank(t[j]) < r by {
        assert(t[j] == os[j]);
    }
    assert(first_with_rank(t, ok, rank, i, r));
    assert forall|j: int| 0 <= j < t.len() && #[trigger] ok(t[j]) implies rank(t[j]) <= r by {
        if j < n {
            assert(t[j] == os[j]);
        } else {
            assert(t[j] == o);
        }
    }
}

proof fn lemma_none_keep(os: Seq<Seq<char>>, o: Seq<char>, ok: spec_fn(Seq<char>) -> bool)
    requires
        none_admitted(os, ok),
        !ok(o),
    ensures
        none_admitted(os.push(o), ok),
{
    let t = os.push(o);
    assert forall|j: int| 0 <= j < t.len() implies !#[trigger] ok(t[j]) by {
        if j < os.len() {
            assert(t[j] == os[j]);
        } else {
            assert(t[j] == o);
        }
    }
}

/// Taking one more format into a best-so-far keeps it the best.
proof fn lemma_best_step(
    os: Seq<Seq<char>>,
    o: Seq<char>,
    b: Option<(Seq<char>, nat)>,
    b2: Option<(Seq<char>, nat)>,
    ok: spec_fn(Seq<char>) -> bool,
    rank: spec_fn(Seq<char>) -> nat,
)
    requires
        fold_agrees(os, b, ok, rank),
        ok(o) ==> format_url_spec(o) is Some,
        !ok(o) ==> b2 == b,
        ok(o) ==> (if b is None || rank(o) > rank_of(b) {
            b2 == Some((format_url_spec(o)->0, rank(o)))
        } else {
            b2 == b
        }),
    ensures
        fold_agrees(os.push(o), b2, ok, rank),
{
    match b {
        None => {
            if ok(o) {
                assert forall|j: int| 0 <= j < os.len() && #[trigger] ok(os[j]) implies rank(os[j]) < rank(o) by {}
                lemma_best_new(os, o, ok, rank);
            } else {
                lemma_none_keep(os, o, ok);
            }
        },
        Some(p) => {
            if ok(o) && rank(o) > p.1 {
                assert forall|j: int| 0 <= j < os.len() && #[trigger] ok(os[j]) implies rank(os[j]) < rank(o) by {}
                lemma_best_new(os, o, ok, rank);
            } else {
                lemma_best_keep(os, o, ok, rank, p.0, p.1);
            }
        },
    }
}

proof fn lemma_dash_fold_best(os: Seq<Seq<char>>)
    ensures
        fold_agrees(os, dash_fold(os).0, |o: Seq<char>| fetchable_video(o), |o: Seq<char>| format_height(o)),
        fold_agrees(os, dash_fold(os).1, |o: Seq<char>| fetchable_aac(o), |o: Seq<char>| audio_bitrate(o)),
    decreases os.len(),
{
    let okv = |o: Seq<char>| fetchable_video(o);
    let rv = |o: Seq<char>| format_height(o);
    let oka = |o: Seq<char>| fetchable_aac(o);
    let ra = |o: Seq<char>| audio_bitrate(o);
    if os.len() == 0 {
        assert(none_admitted(os, okv));
        assert(none_admitted(os, oka));
    } else {
        let p = os.drop_last();
        let o = os.last();
        lemma_dash_fold_best(p);
        assert(p.push(o) == os);
        let b = dash_fold(p);
        let b2 = dash_fold(os);
        assert(b2 == dash_step(b, o));
        reveal_strlit("video/mp4");
        reveal_strlit("audio/mp4");
        reveal_strlit("mp4a");
        lemma_best_step(p, o, b.0, b2.0, okv, rv);
        lemma_best_step(p, o, b.1, b2.1, oka, ra);
    }
}

/// The DASH pair a page offers is the tallest fetchable H.264 video and the
/// fetchable AAC audio of highest bitrate (its `averageBitrate`, else its
/// `bitrate`, else 0) among the formats of its `adaptiveFormats` array (each
/// the first of equals), with the video's height; there is none only when
/// one of the two kinds is missing there.
pub proof fn lemma_dash_pair_is_best(page: Seq<char>)
    ensures
        match array_payload_spec(page, adaptive_formats_key()) {
            None => dash_selection_spec(page) is None,
            Some(f) => {
                let os = json_objects_from(f, 0);
                match dash_selection_spec(page) {
                    Some(sel) => best_of(os, |o: Seq<char>| fetchable_video(o), |o: Seq<char>| format_height(o), sel.0, sel.2)
                        && is_best_url(os, |o: Seq<char>| fetchable_aac(o), |o: Seq<char>| audio_bitrate(o), sel.1),
                    None => none_admitted(os, |o: Seq<char>| fetchable_video(o))
                        || none_admitted(os, |o: Seq<char>| fetchable_aac(o)),
                }
            },
        },
{
    if let Some(f) = array_payload_spec(page, adaptive_formats_key()) {
        let os = json_objects_from(f, 0);
        lemma_dash_fold_best(os);
        let b = dash_fold(os);
        if let (Some(v), Some(a)) = (b.0, b.1) {
            lemma_best_url(os, |o: Seq<char>| fetchable_aac(o), |o: Seq<char>| audio_bitrate(o), a.0, a.1);
        }
    }
}

proof fn lemma_progressive_fold_best(os: Seq<Seq<char>>)
    ensures
        fold_agrees(os, progressive_fold(os), |o: Seq<char>| fetchable_progressive(o), |o: Seq<char>| format_height(o)),
    decreases os.len(),
{
    let ok = |o: Seq<char>| fetchable_progressive(o);
    let r = |o: Seq<char>| format_height(o);
    if os.len() == 0 {
        assert(none_admitted(os, ok));
    } else {
        let p = os.drop_last();
        let o = os.last();
        lemma_progressive_fold_best(p);
        assert(p.push(o) == os);
        lemma_best_step(p, o, progressive_fold(p), progressive_fold(os), ok, r);
    }
}

/// The progressive stream a page offers is the tallest fetchable progressive
/// MP4 among the formats of its `formats` array (the first of equals); there
/// is none only when no such format is there.
pub proof fn lemma_progressive_is_tallest(page: Seq<char>)
    ensures
        match array_payload_spec(page, formats_key()) {
            None => progressive_selection_spec(page) is None,
            Some(f) => {
                let os = json_objects_from(f, 0);
                match progressive_selection_spec(page) {
                    Some(url) => is_best_url(os, |o: Seq<char>| fetchable_progressive(o), |o: Seq<char>| format_height(o), url),
                    None => none_admitted(os, |o: Seq<char>| fetchable_progressive(o)),
                }
            },
        },
{
    if let Some(f) = array_payload_spec(page, formats_key()) {
        let os = json_objects_from(f, 0);
        lemma_progressive_fold_best(os);
        if let Some(b) = progressive_fold(os) {
            lemma_best_url(os, |o: Seq<char>| fetchable_progressive(o), |o: Seq<char>| format_height(o), b.0, b.1);
        }
    }
}

} // verus!
