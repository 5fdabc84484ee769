use vstd::prelude::*;
use vstd::utf8::encode_utf8;

use crate::form::{form_encode, push_form_encoded};
use crate::json::{
    find_matching_json, json_object_field, json_object_field_spec, json_string_field,
    json_string_field_spec, lemma_matching_json_after,
    matching_json, renderer_text_spec, skip_ascii_whitespace, youtube_renderer_text,
};
use crate::text::{find_chars_from, find_from, push_str, str_chars, string_from};

verus! {

/// A search hit read from a YouTube results page.
pub struct YoutubeSearchResult {
    pub video_id: String,
    pub title: String,
    pub channel: Option<String>,
    pub duration: Option<String>,
    pub thumbnail_url: Option<String>,
}

/// A search hit of a results page, as text.
pub struct PageResultView {
    pub video_id: Seq<char>,
    pub title: Seq<char>,
    pub channel: Option<Seq<char>>,
    pub duration: Option<Seq<char>>,
    pub thumbnail_url: Option<Seq<char>>,
}

pub open spec fn opt_string_view(o: Option<String>) -> Option<Seq<char>> {
    match o {
        Some(s) => Some(s@),
        None => None,
    }
}

impl View for YoutubeSearchResult {
    type V = PageResultView;

    open spec fn view(&self) -> PageResultView {
        PageResultView {
            video_id: self.video_id@,
            title: self.title@,
            channel: opt_string_view(self.channel),
            duration: opt_string_view(self.duration),
            thumbnail_url: opt_string_view(self.thumbnail_url),
        }
    }
}

pub open spec fn page_results_view(v: Seq<YoutubeSearchResult>) -> Seq<PageResultView> {
    v.map_values(|r: YoutubeSearchResult| r@)
}

impl YoutubeSearchResult {
    /// The watch page of this video.
    pub fn watch_url(&self) -> (res: String)
        ensures
            res@ == crate::tsv::watch_url_prefix() + self.video_id@,
    {
        let mut out = String::new();
        push_str(&mut out, "https://www.youtube.com/watch?v=");
        push_str(&mut out, self.video_id.as_str());
        out
    }

    /// The same hit in the form the TSV file of search results holds.
    pub fn into_tsv_result(self) -> (res: crate::tsv::YoutubeSearchResult)
        ensures
            res.video_id@ == self.video_id@,
            res.title@ == self.title@,
            opt_string_view(res.channel) == opt_string_view(self.channel),
            opt_string_view(res.duration) == opt_string_view(self.duration),
            opt_string_view(res.thumbnail_url) == opt_string_view(self.thumbnail_url),
    {
        crate::tsv::YoutubeSearchResult {
            video_id: self.video_id,
            title: self.title,
            channel: self.channel,
            duration: self.duration,
            thumbnail_url: self.thumbnail_url,
        }
    }
}

/// The thumbnail of a video renderer: the first `url` of its `thumbnail`
/// object.
pub open spec fn thumbnail_spec(object: Seq<char>) -> Option<Seq<char>> {
    match json_object_field_spec(object, "thumbnail"@) {
        Some(t) => json_string_field_spec(t, "url"@),
        None => None,
    }
}

/// The channel of a video renderer: its `ownerText`, or else its
/// `longBylineText`, or else its `shortBylineText`.
pub open spec fn channel_spec(object: Seq<char>) -> Option<Seq<char>> {
    match renderer_text_spec(object, "ownerText"@) {
        Some(c) => Some(c),
        None => match renderer_text_spec(object, "longBylineText"@) {
            Some(c) => Some(c),
            None => renderer_text_spec(object, "shortBylineText"@),
        },
    }
}

/// The search hit a video renderer object describes: it needs a `videoId`
/// and a title.
pub open spec fn page_result_spec(object: Seq<char>) -> Option<PageResultView> {
    match json_string_field_spec(object, "videoId"@) {
        None => None,
        Some(id) => match renderer_text_spec(object, "title"@) {
            None => None,
            Some(title) => Some(
                PageResultView {
                    video_id: id,
                    title,
                    channel: channel_spec(object),
                    duration: renderer_text_spec(object, "lengthText"@),
                    thumbnail_url: thumbnail_spec(object),
                },
            ),
        },
    }
}

/// The search hit the video renderer `object` describes.
pub fn parse_youtube_search_result(object: &[char]) -> (res: Option<YoutubeSearchResult>)
    ensures
        match res {
            Some(r) => page_result_spec(object@) == Some(r@),
            None => page_result_spec(object@) is None,
        },
{
    let video_id = match json_string_field(object, "videoId") {
        Some(v) => v,
        None => {
            return None;
        },
    };
    let title = match youtube_renderer_text(object, "title") {
        Some(t) => t,
        None => {
            return None;
        },
    };
    let channel = match youtube_renderer_text(object, "ownerText") {
        Some(c) => Some(c),
        None => match youtube_renderer_text(object, "longBylineText") {
            Some(c) => Some(c),
            None => youtube_renderer_text(object, "shortBylineText"),
        },
    };
    let duration = youtube_renderer_text(object, "lengthText");
    let thumbnail_url = match json_object_field(object, "thumbnail") {
        Some(t) => json_string_field(t, "url"),
        None => None,
    };
    Some(YoutubeSearchResult { video_id, title, channel, duration, thumbnail_url })
}

/// The most hits read from one results page.
pub const MAX_PAGE_RESULTS: usize = 20;

pub open spec fn video_renderer_key() -> Seq<char> {
    "\"videoRenderer\":"@
}

/// Whether a hit with this video id is among `acc`.
pub open spec fn has_video(acc: Seq<PageResultView>, id: Seq<char>) -> bool {
    exists|k: int| 0 <= k < acc.len() && (#[trigger] acc[k]).video_id == id
}

/// Skipping white space never moves back.
pub proof fn lemma_skip_ascii_whitespace(s: Seq<char>, i: int)
    ensures
        i <= skip_ascii_whitespace(s, i),
    decreases s.len() - i,
{
    if 0 <= i < s.len() && crate::text::is_ascii_whitespace(s[i]) {
        lemma_skip_ascii_whitespace(s, i + 1);
    }
}

/// Reading a results page from `offset` on, the hits so far being `acc`:
/// each `"videoRenderer":` object in turn, its hit added unless its video is
/// already there, until twenty hits or no further complete object.
pub open spec fn search_scan(page: Seq<char>, offset: int, acc: Seq<PageResultView>) -> Seq<PageResultView>
    decreases page.len() - offset,
{
    if acc.len() >= MAX_PAGE_RESULTS {
        acc
    } else {
        match find_from(page, video_renderer_key(), offset) {
            None => acc,
            Some(f) => {
                let os = skip_ascii_whitespace(page, f + video_renderer_key().len());
                match matching_json(page, os, '{', '}') {
                    None => acc,
                    Some(e) => {
                        let next = match page_result_spec(page.subrange(os, e + 1)) {
                            Some(r) => if has_video(acc, r.video_id) {
                                acc
                            } else {
                                acc.push(r)
                            },
                            None => acc,
                        };
                        proof {
                            crate::text::lemma_find_from_found(page, video_renderer_key(), offset);
                            lemma_skip_ascii_whitespace(page, f + video_renderer_key().len());
                            lemma_matching_json_after(page, os);
                        }
                        search_scan(page, e + 1, next)
                    },
                }
            },
        }
    }
}

/// The hits of a YouTube results page.
pub open spec fn page_results_spec(page: Seq<char>) -> Seq<PageResultView> {
    search_scan(page, 0, seq![])
}

/// No two hits share a video id.
pub open spec fn distinct_videos(rs: Seq<PageResultView>) -> bool {
    forall|i: int, j: int| 0 <= i < j < rs.len() ==> (#[trigger] rs[i]).video_id != (#[trigger] rs[j]).video_id
}

fn has_video_id(results: &Vec<YoutubeSearchResult>, id: &String) -> (res: bool)
    ensures
        res == has_video(page_results_view(results@), id@),
{
    let mut k: usize = 0;
    while k < results.len()
        invariant
            k <= results.len(),
            forall|j: int| 0 <= j < k ==> (#[trigger] results@[j]).video_id@ != id@,
        decreases results.len() - k,
    {
        if results[k].video_id == *id {
            assert(page_results_view(results@)[k as int].video_id == id@);
            return true;
        }
        k += 1;
    }
    proof {
        let v = page_results_view(results@);
        assert forall|j: int| 0 <= j < v.len() implies (#[trigger] v[j]).video_id != id@ by {
            assert(v[j] == results@[j]@);
        }
    }
    false
}

/// The hits of the YouTube results page `page`: at most twenty, no video twice.
pub fn parse_youtube_search_results(page: &str) -> (res: Vec<YoutubeSearchResult>)
    ensures
        page_results_view(res@) == page_results_spec(page@),
        res@.len() <= MAX_PAGE_RESULTS,
        distinct_videos(page_results_view(res@)),
{
    let chars = str_chars(page);
    let text = chars.as_slice();
    let _n = text.len();
    let pattern = str_chars("\"videoRenderer\":");
    proof {
        reveal_strlit("\"videoRenderer\":");
    }
    let mut results: Vec<YoutubeSearchResult> = Vec::new();
    let mut offset: usize = 0;
    assert(page_results_view(results@) =~= Seq::<PageResultView>::empty());
    while results.len() < MAX_PAGE_RESULTS
        invariant
            text@ == page@,
            text@.len() == _n,
            pattern@ == video_renderer_key(),
            offset <= text@.len() + 1,
            results@.len() <= MAX_PAGE_RESULTS,
            distinct_videos(page_results_view(results@)),
            page_results_spec(page@) == search_scan(page@, offset as int, page_results_view(results@)),
        decreases text@.len() + 1 - offset,
    {
        let found = match find_chars_from(text, pattern.as_slice(), offset) {
            Some(f) => f,
            None => {
                return results;
            },
        };
        assert(found + pattern@.len() <= text@.len());
        assert(text@.len() == _n);
        let mut object_start = found + pattern.len();
        proof {
            lemma_skip_ascii_whitespace(page@, object_start as int);
        }
        while object_start < text.len() && (text[object_start] == ' ' || text[object_start] == '\t'
            || text[object_start] == '\n' || text[object_start] == '\x0C' || text[object_start]
            == '\r')
            invariant
                found + pattern@.len() <= object_start <= text@.len(),
                skip_ascii_whitespace(text@, found + pattern@.len()) == skip_ascii_whitespace(
                    text@,
                    object_start as int,
                ),
            decreases text.len() - object_start,
        {
            object_start += 1;
        }
        proof {
            lemma_matching_json_after(text@, object_start as int);
        }
        let object_end = match find_matching_json(text, object_start, '{', '}') {
            Some(e) => e,
            None => {
                return results;
            },
        };
        let object = &text[object_start..object_end + 1];
        let ghost acc = page_results_view(results@);
        if let Some(result) = parse_youtube_search_result(object) {
            if !has_video_id(&results, &result.video_id) {
                results.push(result);
                proof {
                    let v = page_results_view(results@);
                    assert(v =~= acc.push(result@));
                    assert forall|i: int, j: int| 0 <= i < j < v.len() implies (#[trigger] v[i]).video_id
                        != (#[trigger] v[j]).video_id by {
                        if j == v.len() - 1 {
                            assert(v[i] == acc[i]);
                        } else {
                            assert(v[i] == acc[i]);
                            assert(v[j] == acc[j]);
                        }
                    }
                }
            }
        }
        offset = object_end + 1;
    }
    results
}

/// The results page URL for `query`.
pub open spec fn search_url_spec(query: Seq<char>) -> Seq<char> {
    "https://www.youtube.com/results?search_query="@ + form_encode(encode_utf8(query))
}

/// The results page URL for `query`.
pub fn youtube_search_url(query: &str) -> (res: String)
    ensures
        res@ == search_url_spec(query@),
{
    let mut url = string_from("https://www.youtube.com/results?search_query=");
    push_form_encoded(&mut url, query);
    url
}

} // verus!

verus! {

// ---------------------------------------------------------------------------
// Which hits a page gives.

/// The `"videoRenderer":` objects of a page from `offset` on, in order,
/// until one is not a complete object.
pub open spec fn renderer_objects(page: Seq<char>, offset: int) -> Seq<Seq<char>>
    decreases page.len() - offset,
{
    match find_from(page, video_renderer_key(), offset) {
        None => seq![],
        Some(f) => {
            let os = skip_ascii_whitespace(page, f + video_renderer_key().len());
            match matching_json(page, os, '{', '}') {
                None => seq![],
                Some(e) => {
                    proof {
                        crate::text::lemma_find_from_found(page, video_renderer_key(), offset);
                        lemma_skip_ascii_whitespace(page, f + video_renderer_key().len());
                        lemma_matching_json_after(page, os);
                    }
                    seq![page.subrange(os, e + 1)] + renderer_objects(page, e + 1)
                },
            }
        },
    }
}

/// The object `o` is a hit for the video `id`.
pub open spec fn parsed_id(o: Seq<char>, id: Seq<char>) -> bool {
    page_result_spec(o) matches Some(r) && r.video_id == id
}

/// The object at `i` of `os` gives the hit `x`, and no earlier object is a
/// hit for the same video: `x` is that video's first hit.
pub open spec fn first_hit_at(os: Seq<Seq<char>>, i: int, x: PageResultView) -> bool {
    &&& 0 <= i < os.len()
    &&& page_result_spec(os[i]) == Some(x)
    &&& forall|j: int| 0 <= j < i ==> !parsed_id(#[trigger] os[j], x.video_id)
}

/// Some object of `os` is the first hit `x` of its video.
pub open spec fn has_first_hit(os: Seq<Seq<char>>, x: PageResultView) -> bool {
    exists|i: int| #[trigger] first_hit_at(os, i, x)
}

/// What the hits `acc` are to the objects `os`: each the first hit of its
/// video, in the order of those objects, and while there are fewer than
/// twenty, every video of the objects among them.
pub open spec fn first_hits(os: Seq<Seq<char>>, acc: Seq<PageResultView>) -> bool {
    &&& forall|k: int| 0 <= k < acc.len() ==> #[trigger] has_first_hit(os, acc[k])
    &&& forall|k1: int, k2: int, i1: int, i2: int|
        0 <= k1 < k2 < acc.len() && #[trigger] first_hit_at(os, i1, acc[k1]) && #[trigger] first_hit_at(
            os,
            i2,
            acc[k2],
        ) ==> i1 < i2
    &&& acc.len() < MAX_PAGE_RESULTS ==> forall|i: int|
        0 <= i < os.len() ==> (page_result_spec(#[trigger] os[i]) matches Some(r) ==> has_video(
            acc,
            r.video_id,
        ))
}

proof fn lemma_first_hit_unique(os: Seq<Seq<char>>, i1: int, i2: int, x: PageResultView, y: PageResultView)
    requires
        first_hit_at(os, i1, x),
        first_hit_at(os, i2, y),
        x.video_id == y.video_id,
    ensures
        i1 == i2,
{
    if i1 < i2 {
        assert(parsed_id(os[i1], y.video_id));
    } else if i2 < i1 {
        assert(parsed_id(os[i2], x.video_id));
    }
}

proof fn lemma_first_hit_extend(p: Seq<Seq<char>>, q: Seq<Seq<char>>, i: int, x: PageResultView)
    requires
        first_hit_at(p, i, x),
        p.len() <= q.len(),
        forall|j: int| 0 <= j < p.len() ==> q[j] == p[j],
    ensures
        first_hit_at(q, i, x),
{
    assert(q[i] == p[i]);
    assert forall|j: int| 0 <= j < i implies !parsed_id(#[trigger] q[j], x.video_id) by {
        assert(q[j] == p[j]);
    }
}

/// Each hit of `acc` keeps its first object, and the hits their order, in
/// any longer `q` that begins with `p`.
proof fn lemma_first_hits_order_extend(p: Seq<Seq<char>>, q: Seq<Seq<char>>, acc: Seq<PageResultView>)
    requires
        first_hits(p, acc),
        p.len() <= q.len(),
        forall|j: int| 0 <= j < p.len() ==> q[j] == p[j],
    ensures
        forall|k: int| 0 <= k < acc.len() ==> #[trigger] has_first_hit(q, acc[k]),
        forall|k: int, i: int| 0 <= k < acc.len() && #[trigger] first_hit_at(q, i, acc[k]) ==> i < p.len(),
        forall|k1: int, k2: int, i1: int, i2: int|
            0 <= k1 < k2 < acc.len() && #[trigger] first_hit_at(q, i1, acc[k1]) && #[trigger] first_hit_at(
                q,
                i2,
                acc[k2],
            ) ==> i1 < i2,
{
    assert forall|k: int| 0 <= k < acc.len() implies #[trigger] has_first_hit(q, acc[k]) by {
        assert(has_first_hit(p, acc[k]));
        let i = choose|i: int| #[trigger] first_hit_at(p, i, acc[k]);
        lemma_first_hit_extend(p, q, i, acc[k]);
    }
    assert forall|k: int, i: int| 0 <= k < acc.len() && #[trigger] first_hit_at(q, i, acc[k]) implies i < p.len() by {
        assert(has_first_hit(p, acc[k]));
        let j = choose|i: int| #[trigger] first_hit_at(p, i, acc[k]);
        lemma_first_hit_extend(p, q, j, acc[k]);
        lemma_first_hit_unique(q, i, j, acc[k], acc[k]);
    }
    assert forall|k1: int, k2: int, i1: int, i2: int|
        0 <= k1 < k2 < acc.len() && #[trigger] first_hit_at(q, i1, acc[k1]) && #[trigger] first_hit_at(
            q,
            i2,
            acc[k2],
        ) implies i1 < i2 by {
        assert(has_first_hit(p, acc[k1]));
        assert(has_first_hit(p, acc[k2]));
        let j1 = choose|i: int| #[trigger] first_hit_at(p, i, acc[k1]);
        let j2 = choose|i: int| #[trigger] first_hit_at(p, i, acc[k2]);
        lemma_first_hit_extend(p, q, j1, acc[k1]);
        lemma_first_hit_extend(p, q, j2, acc[k2]);
        lemma_first_hit_unique(q, i1, j1, acc[k1], acc[k1]);
        lemma_first_hit_unique(q, i2, j2, acc[k2], acc[k2]);
        assert(first_hit_at(p, j1, acc[k1]) && first_hit_at(p, j2, acc[k2]));
    }
}

/// The hits `acc` keep what they are to `p` in any longer `q` whose objects
/// add no new video while they are fewer than twenty.
proof fn lemma_first_hits_extend(p: Seq<Seq<char>>, q: Seq<Seq<char>>, acc: Seq<PageResultView>)
    requires
        first_hits(p, acc),
        p.len() <= q.len(),
        forall|j: int| 0 <= j < p.len() ==> q[j] == p[j],
        acc.len() < MAX_PAGE_RESULTS ==> forall|i: int|
            p.len() <= i < q.len() ==> (page_result_spec(#[trigger] q[i]) matches Some(r) ==> has_video(
                acc,
                r.video_id,
            )),
    ensures
        first_hits(q, acc),
{
    lemma_first_hits_order_extend(p, q, acc);
    if acc.len() < MAX_PAGE_RESULTS {
        assert forall|i: int| 0 <= i < q.len() implies (page_result_spec(#[trigger] q[i]) matches Some(r)
            ==> has_video(acc, r.video_id)) by {
            if i < p.len() {
                assert(q[i] == p[i]);
            }
        }
    }
}

/// A hit for a video not yet among `acc` (fewer than twenty), from the next
/// object, is that video's first hit.
proof fn lemma_first_hits_push(p: Seq<Seq<char>>, obj: Seq<char>, acc: Seq<PageResultView>, r: PageResultView)
    requires
        first_hits(p, acc),
        acc.len() < MAX_PAGE_RESULTS,
        page_result_spec(obj) == Some(r),
        !has_video(acc, r.video_id),
    ensures
        first_hits(p.push(obj), acc.push(r)),
{
    let q = p.push(obj);
    let n = p.len() as int;
    let a2 = acc.push(r);
    assert(q[n] == obj);
    assert forall|j: int| 0 <= j < n implies !parsed_id(#[trigger] q[j], r.video_id) by {
        assert(q[j] == p[j]);
        if parsed_id(p[j], r.video_id) {
            assert(page_result_spec(p[j]) matches Some(r2) && has_video(acc, r2.video_id));
        }
    }
    assert(first_hit_at(q, n, r));
    assert forall|j: int| 0 <= j < p.len() implies q[j] == p[j] by {}
    lemma_first_hits_order_extend(p, q, acc);
    assert forall|k: int| 0 <= k < a2.len() implies #[trigger] has_first_hit(q, a2[k]) by {
        if k < acc.len() {
            assert(a2[k] == acc[k]);
            assert(has_first_hit(q, acc[k]));
        } else {
            assert(a2[k] == r);
        }
    }
    assert forall|k1: int, k2: int, i1: int, i2: int|
        0 <= k1 < k2 < a2.len() && #[trigger] first_hit_at(q, i1, a2[k1]) && #[trigger] first_hit_at(
            q,
            i2,
            a2[k2],
        ) implies i1 < i2 by {
        assert(a2[k1] == acc[k1]);
        if k2 < acc.len() {
            assert(a2[k2] == acc[k2]);
        } else {
            assert(a2[k2] == r);
            lemma_first_hit_unique(q, i2, n, r, r);
            assert(first_hit_at(q, i1, acc[k1]));
            assert(i1 < p.len());
        }
    }
    if a2.len() < MAX_PAGE_RESULTS {
        assert forall|i: int| 0 <= i < q.len() implies (page_result_spec(#[trigger] q[i]) matches Some(r3)
            ==> has_video(a2, r3.video_id)) by {
            if let Some(r3) = page_result_spec(q[i]) {
                if i < n {
                    assert(q[i] == p[i]);
                    assert(has_video(acc, r3.video_id));
                    let k = choose|k: int| 0 <= k < acc.len() && (#[trigger] acc[k]).video_id == r3.video_id;
                    assert(a2[k] == acc[k]);
                } else {
                    assert(a2[n - n + acc.len()] == r);
                }
            }
        }
    }
}

proof fn lemma_scan_hits(page: Seq<char>, offset: int, acc: Seq<PageResultView>, p: Seq<Seq<char>>)
    requires
        first_hits(p, acc),
    ensures
        first_hits(p + renderer_objects(page, offset), search_scan(page, offset, acc)),
    decreases page.len() - offset,
{
    let s = search_scan(page, offset, acc);
    let q = p + renderer_objects(page, offset);
    assert forall|j: int| 0 <= j < p.len() implies q[j] == p[j] by {}
    if acc.len() >= MAX_PAGE_RESULTS {
        lemma_first_hits_extend(p, q, acc);
        return;
    }
    match find_from(page, video_renderer_key(), offset) {
        None => {
            assert(q == p);
        },
        Some(f) => {
            let o = skip_ascii_whitespace(page, f + video_renderer_key().len());
            match matching_json(page, o, '{', '}') {
                None => {
                    assert(q == p);
                },
                Some(e) => {
                    crate::text::lemma_find_from_found(page, video_renderer_key(), offset);
                    lemma_skip_ascii_whitespace(page, f + video_renderer_key().len());
                    lemma_matching_json_after(page, o);
                    let obj = page.subrange(o, e + 1);
                    let next = match page_result_spec(obj) {
                        Some(r) => if has_video(acc, r.video_id) {
                            acc
                        } else {
                            acc.push(r)
                        },
                        None => acc,
                    };
                    let rest = renderer_objects(page, e + 1);
                    let p2 = p.push(obj);
                    assert(s == search_scan(page, e + 1, next));
                    assert(q =~= p2 + rest);
                    match page_result_spec(obj) {
                        Some(r) => {
                            if has_video(acc, r.video_id) {
                                assert forall|j: int| 0 <= j < p.len() implies p2[j] == p[j] by {}
                                assert(p2[p.len() as int] == obj);
                                lemma_first_hits_extend(p, p2, acc);
                            } else {
                                lemma_first_hits_push(p, obj, acc, r);
                            }
                        },
                        None => {
                            assert forall|j: int| 0 <= j < p.len() implies p2[j] == p[j] by {}
                            assert(p2[p.len() as int] == obj);
                            lemma_first_hits_extend(p, p2, acc);
                        },
                    }
                    lemma_scan_hits(page, e + 1, next, p2);
                },
            }
        },
    }
}

/// The hits of a results page are, in order, the first hits of the videos
/// of its `"videoRenderer":` objects: each hit is the hit of the first
/// object for its video, hits come in the order of those objects, and while
/// there are fewer than twenty, every object whose hit can be read has its
/// video among them (a video seen again is skipped, not the end of the
/// page).
pub proof fn lemma_search_hits_complete(page: Seq<char>)
    ensures
        first_hits(renderer_objects(page, 0), page_results_spec(page)),
{
    let p = Seq::<Seq<char>>::empty();
    assert(first_hits(p, Seq::<PageResultView>::empty()));
    lemma_scan_hits(page, 0, seq![], p);
    assert(p + renderer_objects(page, 0) =~= renderer_objects(page, 0));
}

} // verus!
