use vstd::prelude::*;

use crate::cli::{join_terms, strings_view};
use crate::numbers::{decimal, push_decimal};
use crate::text::{
    chars_eq, chars_to_string, push_char, push_chars, push_str, str_chars, string_from, trim,
    trim_chars,
};

verus! {

// ---------------------------------------------------------------------------
// Pages of search results.

/// How many results one page of the result list shows.
pub const PAGE_SIZE: usize = 8;

/// The number of pages `len` results fill; an empty list still has one page.
pub open spec fn page_count_spec(len: nat) -> nat {
    if len == 0 {
        1
    } else {
        ((len + 7) / 8) as nat
    }
}

/// The number of pages `len` results fill.
pub fn page_count(len: usize) -> (res: usize)
    ensures
        res == page_count_spec(len as nat),
        res >= 1,
{
    if len == 0 {
        1
    } else if len % PAGE_SIZE == 0 {
        len / PAGE_SIZE
    } else {
        len / PAGE_SIZE + 1
    }
}

/// The last page index of a list of `len` results.
pub open spec fn last_page(len: nat) -> nat {
    (page_count_spec(len) - 1) as nat
}

/// `a + b`, stopping at `usize::MAX`.
pub open spec fn sat_add(a: int, b: int) -> int {
    if a + b > usize::MAX {
        usize::MAX as int
    } else {
        a + b
    }
}

/// `a * b`, stopping at `usize::MAX`.
pub open spec fn sat_mul(a: int, b: int) -> int {
    if a * b > usize::MAX {
        usize::MAX as int
    } else {
        a * b
    }
}

pub open spec fn min_int(a: int, b: int) -> int {
    if a <= b {
        a
    } else {
        b
    }
}

fn saturating_times_page(page: usize) -> (res: usize)
    ensures
        res == sat_mul(page as int, PAGE_SIZE as int),
{
    if page > usize::MAX / PAGE_SIZE {
        usize::MAX
    } else {
        page * PAGE_SIZE
    }
}

/// What a move of the selection leads to.
#[derive(PartialEq, Eq, Structural, Debug, Clone, Copy)]
pub enum SelectionMove {
    /// The list is empty: selection and page go back to the start.
    Reset,
    /// The selection is at the end and more results can be fetched: fetch
    /// them, then show `target_page`.
    LoadMore { target_page: usize },
    /// Select `selected`, on page `page`.
    MoveTo { selected: usize, page: usize },
}

/// Where moving the selection of a list of `len` results by `delta` rows
/// leads: the selection stays in the list, and a move down past its end asks
/// for more results when there are more.
pub open spec fn move_selection_spec(
    len: nat,
    selected: nat,
    page: nat,
    delta: int,
    has_more: bool,
) -> SelectionMove {
    if len == 0 {
        SelectionMove::Reset
    } else {
        let current = min_int(selected as int, len - 1);
        let next = if delta < 0 {
            if current + delta < 0 {
                0
            } else {
                current + delta
            }
        } else {
            min_int(current + delta, len - 1)
        };
        if delta > 0 && next == current && has_more {
            SelectionMove::LoadMore { target_page: sat_add(page as int, 1) as usize }
        } else {
            SelectionMove::MoveTo { selected: next as usize, page: (next / 8) as usize }
        }
    }
}

/// Where moving the selection of a list of `len` results by `delta` rows leads.
pub fn move_selection(len: usize, selected: usize, page: usize, delta: isize, has_more: bool) -> (res:
    SelectionMove)
    ensures
        res == move_selection_spec(len as nat, selected as nat, page as nat, delta as int, has_more),
{
    if len == 0 {
        return SelectionMove::Reset;
    }
    let current = if selected < len - 1 {
        selected
    } else {
        len - 1
    };
    let next: usize = if delta < 0 {
        let back: usize = (-(delta + 1)) as usize;
        if current > back {
            current - back - 1
        } else {
            0
        }
    } else {
        let forward = delta as usize;
        if forward >= len - 1 - current {
            len - 1
        } else {
            current + forward
        }
    };
    if delta > 0 && next == current && has_more {
        let target = if page == usize::MAX {
            usize::MAX
        } else {
            page + 1
        };
        return SelectionMove::LoadMore { target_page: target };
    }
    SelectionMove::MoveTo { selected: next, page: next / PAGE_SIZE }
}

/// What turning to the next page leads to.
#[derive(PartialEq, Eq, Structural, Debug, Clone, Copy)]
pub enum PageTurn {
    /// The next page is past the results fetched so far: fetch more, then
    /// show `target_page`.
    LoadMore { target_page: usize },
    /// Nothing to show and nothing more to fetch.
    Stay,
    /// Show `page`, with its first result selected.
    Show { page: usize, selected: usize },
}

/// Where turning from `page` to the next page of `len` results leads.
pub open spec fn next_page_spec(len: nat, page: nat, has_more: bool) -> PageTurn {
    let next = sat_add(page as int, 1);
    if sat_mul(next, 8) >= len {
        if has_more {
            PageTurn::LoadMore { target_page: next as usize }
        } else {
            PageTurn::Stay
        }
    } else {
        PageTurn::Show { page: next as usize, selected: (next * 8) as usize }
    }
}

/// Where turning from `page` to the next page of `len` results leads, when
/// more results may still be fetched.
pub fn next_page(len: usize, page: usize, has_more: bool) -> (res: PageTurn)
    ensures
        res == next_page_spec(len as nat, page as nat, has_more),
{
    let next = if page == usize::MAX {
        usize::MAX
    } else {
        page + 1
    };
    if saturating_times_page(next) >= len {
        if has_more {
            PageTurn::LoadMore { target_page: next }
        } else {
            PageTurn::Stay
        }
    } else {
        PageTurn::Show { page: next, selected: next * PAGE_SIZE }
    }
}

/// The page shown after turning forward from `page` in a list of `len`
/// results that is complete: the next page, but never past the last; and
/// its first result selected, when there is one.
pub open spec fn next_page_bounded_spec(len: nat, page: nat) -> (nat, Option<nat>) {
    let next = min_int(sat_add(page as int, 1), last_page(len) as int) as nat;
    (next, if len > 0 {
        Some(min_int((next * 8) as int, len - 1) as nat)
    } else {
        None
    })
}

/// The page and selection after turning forward in a complete list.
pub fn next_page_bounded(len: usize, page: usize) -> (res: (usize, Option<usize>))
    ensures
        (res.0 as nat, match res.1 {
            Some(s) => Some(s as nat),
            None => None,
        }) == next_page_bounded_spec(len as nat, page as nat),
{
    let pages = page_count(len);
    let after = if page == usize::MAX {
        usize::MAX
    } else {
        page + 1
    };
    let next = if after < pages - 1 {
        after
    } else {
        pages - 1
    };
    if len == 0 {
        return (next, None);
    }
    assert(next * 8 < len + 8) by (nonlinear_arith)
        requires
            next <= pages - 1,
            pages == (len + 7) / 8,
            len > 0,
    ;
    let first = next * PAGE_SIZE;
    let selected = if first < len - 1 {
        first
    } else {
        len - 1
    };
    (next, Some(selected))
}

/// The page before `page` (the first page stays) and the first result on it.
pub open spec fn previous_page_spec(page: nat) -> (nat, nat) {
    let previous: nat = if page == 0 {
        0
    } else {
        (page - 1) as nat
    };
    (previous, previous * 8)
}

/// The page and selection after turning back from `page`.
pub fn previous_page(page: usize) -> (res: (usize, usize))
    requires
        page > 0 ==> (page - 1) * 8 <= usize::MAX,
    ensures
        (res.0 as nat, res.1 as nat) == previous_page_spec(page as nat),
{
    let previous = if page == 0 {
        0
    } else {
        page - 1
    };
    (previous, previous * PAGE_SIZE)
}

/// The page shown once more results have come in, the list now holding `len`
/// results: the page asked for (at most the last), else the current one; and
/// the first result on it selected, when there is one.
pub open spec fn page_after_more_spec(target_page: Option<nat>, current_page: nat, len: nat) -> (
    nat,
    Option<nat>,
) {
    let shown: nat = match target_page {
        Some(t) => min_int(t as int, last_page(len) as int) as nat,
        None => current_page,
    };
    (shown, if len > 0 {
        Some(min_int(sat_mul(shown as int, 8), len - 1) as nat)
    } else {
        None
    })
}

/// The page and selection once more results have come in.
pub fn page_after_more(target_page: Option<usize>, current_page: usize, len: usize) -> (res: (
    usize,
    Option<usize>,
))
    ensures
        (res.0 as nat, match res.1 {
            Some(s) => Some(s as nat),
            None => None,
        }) == page_after_more_spec(
            match target_page {
                Some(t) => Some(t as nat),
                None => None,
            },
            current_page as nat,
            len as nat,
        ),
{
    let shown = match target_page {
        Some(t) => {
            let last = page_count(len) - 1;
            if t < last {
                t
            } else {
                last
            }
        },
        None => current_page,
    };
    if len == 0 {
        return (shown, None);
    }
    let first = saturating_times_page(shown);
    let selected = if first < len - 1 {
        first
    } else {
        len - 1
    };
    (shown, Some(selected))
}

/// The result indices page `page` of a list of `len` results shows, from
/// `start` up to `end`.
pub open spec fn visible_range_spec(page: nat, len: nat) -> (nat, nat) {
    let start = sat_mul(page as int, 8);
    (start as nat, min_int(sat_add(start, 8), len as int) as nat)
}

/// The result indices page `page` of a list of `len` results shows.
pub fn visible_range(page: usize, len: usize) -> (res: (usize, usize))
    ensures
        (res.0 as nat, res.1 as nat) == visible_range_spec(page as nat, len as nat),
{
    let start = saturating_times_page(page);
    let stop = if start > usize::MAX - PAGE_SIZE {
        usize::MAX
    } else {
        start + PAGE_SIZE
    };
    let end = if stop < len {
        stop
    } else {
        len
    };
    (start, end)
}

/// The number after `generation`, stopping at the largest.
pub fn next_generation(generation: u64) -> (res: u64)
    ensures
        res == (if generation == u64::MAX {
            u64::MAX as int
        } else {
            generation + 1
        }),
{
    if generation == u64::MAX {
        u64::MAX
    } else {
        generation + 1
    }
}

// ---------------------------------------------------------------------------
// Text shown in the window.

/// `input` cut to its first `max_chars` characters, with `...` added when
/// something was cut.
pub open spec fn compact_text_spec(input: Seq<char>, max_chars: nat) -> Seq<char> {
    if input.len() > max_chars {
        input.take(max_chars as int) + "..."@
    } else {
        input
    }
}

/// `input` cut to its first `max_chars` characters.
pub fn compact_text(input: &str, max_chars: usize) -> (res: String)
    ensures
        res@ == compact_text_spec(input@, max_chars as nat),
{
    let chars = str_chars(input);
    if chars.len() > max_chars {
        let mut out = String::new();
        push_chars(&mut out, &chars.as_slice()[0..max_chars]);
        assert(chars@.subrange(0, max_chars as int) == input@.take(max_chars as int));
        push_str(&mut out, "...");
        out
    } else {
        string_from(input)
    }
}

/// Lines joined into one text, a newline between each two.
pub open spec fn join_lines_spec(lines: Seq<Seq<char>>) -> Seq<char>
    decreases lines.len(),
{
    if lines.len() == 0 {
        seq![]
    } else if lines.len() == 1 {
        lines[0]
    } else {
        join_lines_spec(lines.drop_last()) + seq!['\n'] + lines.last()
    }
}

/// The lines joined by newlines.
pub fn join_lines(lines: &[String]) -> (res: String)
    ensures
        res@ == join_lines_spec(strings_view(lines@)),
{
    let ghost lv = strings_view(lines@);
    let mut out = String::new();
    let mut i: usize = 0;
    while i < lines.len()
        invariant
            i <= lines.len(),
            lv == strings_view(lines@),
            out@ == join_lines_spec(lv.take(i as int)),
        decreases lines.len() - i,
    {
        assert(lv.take(i + 1).drop_last() == lv.take(i as int));
        assert(lv.take(i + 1).last() == lines@[i as int]@);
        if i > 0 {
            push_char(&mut out, '\n');
        }
        push_str(&mut out, lines[i].as_str());
        proof {
            if i == 0 {
                assert(Seq::<char>::empty() + lines@[0]@ == lines@[0]@);
            }
        }
        i += 1;
    }
    assert(lv.take(lines.len() as int) == lv);
    out
}

/// The query the window opens with: the command line words after the
/// program name, joined by spaces.
pub fn initial_query(args: &[String]) -> (res: String)
    ensures
        args@.len() == 0 ==> res@ == Seq::<char>::empty(),
        args@.len() > 0 ==> res@ == join_terms(strings_view(args@).skip(1)),
{
    let ghost av = strings_view(args@);
    let mut out = String::new();
    if args.len() == 0 {
        return out;
    }
    let ghost tv = av.skip(1);
    let mut i: usize = 1;
    while i < args.len()
        invariant
            1 <= i <= args.len(),
            av == strings_view(args@),
            tv == av.skip(1),
            out@ == join_terms(tv.take(i - 1)),
        decreases args.len() - i,
    {
        assert(tv.take(i as int).drop_last() == tv.take(i - 1));
        assert(tv.take(i as int).last() == args@[i as int]@);
        if !crate::tsv::string_is_empty(&out) {
            push_char(&mut out, ' ');
        }
        push_str(&mut out, args[i].as_str());
        proof {
            if join_terms(tv.take(i - 1)).len() == 0 {
                assert(Seq::<char>::empty() + args@[i as int]@ == args@[i as int]@);
            }
        }
        i += 1;
    }
    assert(tv.take(args.len() - 1) == tv);
    out
}

// ---------------------------------------------------------------------------
// Thumbnails.

/// Where the thumbnail of one result stands.
#[derive(PartialEq, Eq, Structural, Debug, Clone, Copy)]
pub enum ThumbnailStatus {
    NotRequested,
    Loading,
    Ready,
    Failed,
}

/// The indices from `lo` up to `hi` of the results whose thumbnail was not
/// asked for yet and has a URL, in order.
pub open spec fn thumbnail_requests(
    statuses: Seq<ThumbnailStatus>,
    has_url: Seq<bool>,
    lo: int,
    hi: int,
) -> Seq<usize>
    decreases hi - lo,
{
    if hi <= lo {
        seq![]
    } else {
        let before = thumbnail_requests(statuses, has_url, lo, hi - 1);
        if statuses[hi - 1] == ThumbnailStatus::NotRequested && has_url[hi - 1] {
            before.push((hi - 1) as usize)
        } else {
            before
        }
    }
}

/// The status of result `i` once the thumbnails of the indices from `lo` up
/// to `hi` are asked for: one not asked for yet starts loading when it has a
/// URL and fails when it has none.
pub open spec fn planned_status(
    statuses: Seq<ThumbnailStatus>,
    has_url: Seq<bool>,
    lo: int,
    hi: int,
    i: int,
) -> ThumbnailStatus {
    if lo <= i < hi && statuses[i] == ThumbnailStatus::NotRequested {
        if has_url[i] {
            ThumbnailStatus::Loading
        } else {
            ThumbnailStatus::Failed
        }
    } else {
        statuses[i]
    }
}

/// Asks for the thumbnails of the results that page `page` shows: returns the
/// indices to fetch, in order, and marks them loading and those without a URL
/// failed. When there is nothing to fetch, the statuses stay as they were.
pub fn plan_thumbnails(statuses: &mut Vec<ThumbnailStatus>, has_url: &[bool], page: usize) -> (res:
    Vec<usize>)
    requires
        old(statuses)@.len() == has_url@.len(),
    ensures
        ({
            let (lo, hi) = visible_range_spec(page as nat, has_url@.len());
            &&& res@ == thumbnail_requests(old(statuses)@, has_url@, lo as int, hi as int)
            &&& final(statuses)@.len() == old(statuses)@.len()
            &&& res@.len() == 0 ==> final(statuses)@ == old(statuses)@
            &&& res@.len() > 0 ==> forall|i: int|
                0 <= i < old(statuses)@.len() ==> #[trigger] final(statuses)@[i] == planned_status(
                    old(statuses)@,
                    has_url@,
                    lo as int,
                    hi as int,
                    i,
                )
        }),
{
    let ghost initial = statuses@;
    let (start, end) = visible_range(page, has_url.len());
    let mut planned = statuses.clone();
    assert(planned@ == initial);
    let mut requests: Vec<usize> = Vec::new();
    let mut i = start;
    if i > end {
        i = end;
    }
    let ghost lo = start as int;
    assert(thumbnail_requests(initial, has_url@, lo, i as int) == Seq::<usize>::empty());
    while i < end
        invariant
            end <= has_url@.len(),
            initial.len() == has_url@.len(),
            planned@.len() == initial.len(),
            lo <= i <= end || (i == end && end < lo),
            requests@ == thumbnail_requests(initial, has_url@, lo, i as int),
            forall|k: int|
                0 <= k < initial.len() ==> #[trigger] planned@[k] == planned_status(
                    initial,
                    has_url@,
                    lo,
                    i as int,
                    k,
                ),
        decreases end - i,
    {
        if planned[i] == ThumbnailStatus::NotRequested {
            if has_url[i] {
                planned.set(i, ThumbnailStatus::Loading);
                requests.push(i);
            } else {
                planned.set(i, ThumbnailStatus::Failed);
            }
        }
        i += 1;
    }
    if requests.len() > 0 {
        *statuses = planned;
    }
    requests
}

// ---------------------------------------------------------------------------
// The details pane.

/// What is known of one video beyond its search hit.
#[derive(Clone)]
pub struct GuiVideoDetails {
    pub video_id: String,
    pub title: Option<String>,
    pub author: Option<String>,
    pub description: Option<String>,
    pub thumbnail_url: Option<String>,
}

/// Where the details of the selected video stand.
#[derive(Clone)]
pub enum DetailState {
    Empty,
    Loading { video_id: String },
    Ready(GuiVideoDetails),
    Failed { video_id: String, message: String },
}

impl Default for DetailState {
    /// Nothing selected yet.
    fn default() -> (res: Self)
        ensures
            res is Empty,
    {
        DetailState::Empty
    }
}

/// The video a details state is about, if any.
pub open spec fn detail_video_id(state: DetailState) -> Option<Seq<char>> {
    match state {
        DetailState::Empty => None,
        DetailState::Loading { video_id } => Some(video_id@),
        DetailState::Ready(details) => Some(details.video_id@),
        DetailState::Failed { video_id, .. } => Some(video_id@),
    }
}

fn same_text(a: &String, b: &str) -> (res: bool)
    ensures
        res == (a@ == b@),
{
    let x = str_chars(a.as_str());
    let y = str_chars(b);
    chars_eq(x.as_slice(), y.as_slice())
}

/// Whether `state` is about the video `video_id` (loading, shown or failed).
pub fn detail_state_matches_video(state: &DetailState, video_id: &str) -> (res: bool)
    ensures
        res == (detail_video_id(*state) == Some(video_id@)),
{
    match state {
        DetailState::Loading { video_id: current } => same_text(current, video_id),
        DetailState::Failed { video_id: current, .. } => same_text(current, video_id),
        DetailState::Ready(details) => same_text(&details.video_id, video_id),
        DetailState::Empty => false,
    }
}

/// The state after the details of `video_id` came back: only a request that
/// is still the one being waited for changes it; `None` leaves it as it is.
pub fn details_finished(
    current: &DetailState,
    video_id: String,
    result: Result<GuiVideoDetails, String>,
) -> (res: Option<DetailState>)
    ensures
        (current matches DetailState::Loading { video_id: id } && id@ == video_id@) ==> match result {
            Ok(d) => res == Some(DetailState::Ready(d)),
            Err(m) => res == Some(DetailState::Failed { video_id: video_id, message: m }),
        },
        !(current matches DetailState::Loading { video_id: id } && id@ == video_id@) ==> res is None,
{
    let waiting = match current {
        DetailState::Loading { video_id: id } => same_text(id, video_id.as_str()),
        _ => false,
    };
    if !waiting {
        return None;
    }
    match result {
        Ok(details) => Some(DetailState::Ready(details)),
        Err(message) => Some(DetailState::Failed { video_id, message }),
    }
}

/// What the details pane needs once the selection moved.
#[derive(PartialEq, Eq, Structural, Debug, Clone, Copy)]
pub enum DetailsRequest {
    /// Nothing is selected: empty the pane.
    Clear,
    /// The pane already is about the selection, or is empty with nothing
    /// selected.
    Keep,
    /// Fetch the details of the selection.
    Fetch,
}

/// What the details pane needs for the selection `selected_video_id`.
pub open spec fn details_request_spec(selected_video_id: Option<Seq<char>>, state: DetailState) -> DetailsRequest {
    match selected_video_id {
        None => if state is Empty {
            DetailsRequest::Keep
        } else {
            DetailsRequest::Clear
        },
        Some(id) => if detail_video_id(state) == Some(id) {
            DetailsRequest::Keep
        } else {
            DetailsRequest::Fetch
        },
    }
}

/// What the details pane needs for the selection `selected_video_id`.
pub fn details_request(selected_video_id: Option<&str>, state: &DetailState) -> (res: DetailsRequest)
    ensures
        res == details_request_spec(
            match selected_video_id {
                Some(id) => Some(id@),
                None => None,
            },
            *state,
        ),
{
    match selected_video_id {
        None => match state {
            DetailState::Empty => DetailsRequest::Keep,
            _ => DetailsRequest::Clear,
        },
        Some(id) => if detail_state_matches_video(state, id) {
            DetailsRequest::Keep
        } else {
            DetailsRequest::Fetch
        },
    }
}

/// The description part of the details pane: a video description still to
/// be wrapped to the pane's width, or a message shown as it is.
pub enum PaneDescription {
    Wrap(String),
    Text(String),
}

/// The description part of the pane: whether it is to be wrapped, and its text.
pub open spec fn pane_description_view(d: PaneDescription) -> (bool, Seq<char>) {
    match d {
        PaneDescription::Wrap(t) => (true, t@),
        PaneDescription::Text(t) => (false, t@),
    }
}

/// The title, channel and description the details pane shows for the
/// selected video `selected`, given the title and channel of its search hit.
pub open spec fn detail_pane_spec(
    state: DetailState,
    selected: Seq<char>,
    base_title: Seq<char>,
    base_channel: Seq<char>,
) -> (Seq<char>, Seq<char>, (bool, Seq<char>)) {
    match state {
        DetailState::Ready(d) if d.video_id@ == selected => (
            match d.title {
                Some(t) => compact_text_spec(t@, 90),
                None => base_title,
            },
            match d.author {
                Some(a) => compact_text_spec(a@, 46),
                None => base_channel,
            },
            match d.description {
                Some(x) if trim(x@).len() > 0 => (true, trim(x@)),
                _ => (false, "No description."@),
            },
        ),
        DetailState::Loading { video_id } if video_id@ == selected => (
            base_title,
            base_channel,
            (false, "Loading details..."@),
        ),
        DetailState::Failed { video_id, message } if video_id@ == selected => (
            base_title,
            base_channel,
            (false, "Details failed: "@ + compact_text_spec(message@, 180)),
        ),
        _ => (base_title, base_channel, (false, if selected == "-"@ {
            "Search and select a result."@
        } else {
            "Loading details..."@
        })),
    }
}

fn fallback_pane_text(selected_video_id: &str) -> (res: String)
    ensures
        res@ == (if selected_video_id@ == "-"@ {
            "Search and select a result."@
        } else {
            "Loading details..."@
        }),
{
    let sel = str_chars(selected_video_id);
    let dash = str_chars("-");
    if chars_eq(sel.as_slice(), dash.as_slice()) {
        string_from("Search and select a result.")
    } else {
        string_from("Loading details...")
    }
}

fn compact_or(text: &Option<String>, max_chars: usize, base: String) -> (res: String)
    ensures
        res@ == match *text {
            Some(t) => compact_text_spec(t@, max_chars as nat),
            None => base@,
        },
{
    match text {
        Some(t) => compact_text(t.as_str(), max_chars),
        None => base,
    }
}

/// The title, channel and description the details pane shows for the
/// selected video.
pub fn detail_pane_text(
    state: &DetailState,
    selected_video_id: &str,
    base_title: String,
    base_channel: String,
) -> (res: (String, String, PaneDescription))
    ensures
        (res.0@, res.1@, pane_description_view(res.2)) == detail_pane_spec(
            *state,
            selected_video_id@,
            base_title@,
            base_channel@,
        ),
{
    match state {
        DetailState::Ready(d) => {
            if same_text(&d.video_id, selected_video_id) {
                let title = compact_or(&d.title, 90, base_title);
                let channel = compact_or(&d.author, 46, base_channel);
                let description = match &d.description {
                    Some(x) => {
                        let chars = str_chars(x.as_str());
                        let trimmed = trim_chars(chars.as_slice());
                        if trimmed.len() > 0 {
                            PaneDescription::Wrap(chars_to_string(trimmed.as_slice()))
                        } else {
                            PaneDescription::Text(string_from("No description."))
                        }
                    },
                    None => PaneDescription::Text(string_from("No description.")),
                };
                return (title, channel, description);
            }
        },
        DetailState::Loading { video_id } => {
            if same_text(video_id, selected_video_id) {
                return (base_title, base_channel, PaneDescription::Text(string_from("Loading details...")));
            }
        },
        DetailState::Failed { video_id, message } => {
            if same_text(video_id, selected_video_id) {
                let mut text = string_from("Details failed: ");
                let short = compact_text(message.as_str(), 180);
                push_str(&mut text, short.as_str());
                return (base_title, base_channel, PaneDescription::Text(text));
            }
        },
        DetailState::Empty => {},
    }
    let text = fallback_pane_text(selected_video_id);
    (base_title, base_channel, PaneDescription::Text(text))
}

// ---------------------------------------------------------------------------
// Keys in the result list.

/// The keys the result list reacts to.
#[derive(PartialEq, Eq, Structural, Debug, Clone, Copy)]
pub enum ListKey {
    Tab,
    Enter,
    Down,
    Up,
    PageDown,
    Right,
    PageUp,
    Left,
    Escape,
    Other,
}

/// What a key pressed in the result list does.
#[derive(PartialEq, Eq, Structural, Debug, Clone, Copy)]
pub enum ListAction {
    /// Move the focus out of the list.
    LeaveList,
    /// Play the selected video.
    PlaySelected,
    /// Move the selection by this many rows.
    MoveSelection(isize),
    NextPage,
    PreviousPage,
    /// Close the program.
    Exit,
    /// The key is not the list's.
    Ignore,
}

/// What `key` does in the result list.
pub open spec fn list_key_spec(key: ListKey) -> ListAction {
    match key {
        ListKey::Tab => ListAction::LeaveList,
        ListKey::Enter => ListAction::PlaySelected,
        ListKey::Down => ListAction::MoveSelection(1isize),
        ListKey::Up => ListAction::MoveSelection(-1isize),
        ListKey::PageDown | ListKey::Right => ListAction::NextPage,
        ListKey::PageUp | ListKey::Left => ListAction::PreviousPage,
        ListKey::Escape => ListAction::Exit,
        ListKey::Other => ListAction::Ignore,
    }
}

/// What `key` does in the result list.
pub fn list_key_action(key: ListKey) -> (res: ListAction)
    ensures
        res == list_key_spec(key),
{
    match key {
        ListKey::Tab => ListAction::LeaveList,
        ListKey::Enter => ListAction::PlaySelected,
        ListKey::Down => ListAction::MoveSelection(1),
        ListKey::Up => ListAction::MoveSelection(-1),
        ListKey::PageDown | ListKey::Right => ListAction::NextPage,
        ListKey::PageUp | ListKey::Left => ListAction::PreviousPage,
        ListKey::Escape => ListAction::Exit,
        ListKey::Other => ListAction::Ignore,
    }
}

// ---------------------------------------------------------------------------
// Status line.

/// The status once a search brought `count` results, more being available
/// when `has_more` holds.
pub fn search_loaded_message(count: usize, has_more: bool) -> (res: String)
    ensures
        res@ == "Loaded "@ + decimal(count as nat) + " search results"@ + (if has_more {
            " so far"@
        } else {
            ""@
        }) + "."@,
{
    let mut out = string_from("Loaded ");
    push_decimal(&mut out, count);
    push_str(&mut out, " search results");
    if has_more {
        push_str(&mut out, " so far");
    } else {
        push_str(&mut out, "");
    }
    push_str(&mut out, ".");
    out
}

/// The status once `added` more results came in, the list now holding
/// `total`, a `+` telling that there are more still.
pub fn more_loaded_message(added: usize, total: usize, has_more: bool) -> (res: String)
    ensures
        res@ == "Loaded "@ + decimal(added as nat) + " more results ("@ + decimal(total as nat)
            + " total"@ + (if has_more {
            "+"@
        } else {
            ""@
        }) + ")."@,
{
    let mut out = string_from("Loaded ");
    push_decimal(&mut out, added);
    push_str(&mut out, " more results (");
    push_decimal(&mut out, total);
    push_str(&mut out, " total");
    if has_more {
        push_str(&mut out, "+");
    } else {
        push_str(&mut out, "");
    }
    push_str(&mut out, ").");
    out
}

/// The status while the thumbnails of page `page` (counted from zero) load.
pub fn thumbnails_loading_message(page: usize) -> (res: String)
    requires
        page < usize::MAX,
    ensures
        res@ == "Loading thumbnails for page "@ + decimal(page as nat + 1) + "."@,
{
    let mut out = string_from("Loading thumbnails for page ");
    push_decimal(&mut out, page + 1);
    push_str(&mut out, ".");
    out
}

/// `prefix` followed by `text`.
pub fn prefixed_message(prefix: &str, text: &str) -> (res: String)
    ensures
        res@ == prefix@ + text@,
{
    let mut out = string_from(prefix);
    push_str(&mut out, text);
    out
}

// ---------------------------------------------------------------------------
// Laws of paging.

/// A move of the selection in a non-empty list lands on a result of the
/// list, on the page that shows it, which is one of the list's pages.
pub proof fn lemma_move_selection_in_list(len: nat, selected: nat, page: nat, delta: int, has_more: bool)
    requires
        len > 0,
        len <= usize::MAX,
    ensures
        move_selection_spec(len, selected, page, delta, has_more) matches SelectionMove::MoveTo {
            selected: s,
            page: p,
        } ==> s < len && p == s / 8 && p < page_count_spec(len),
{
}

/// Turning to the next page and then back returns to the page one started
/// from.
pub proof fn lemma_next_then_previous_page(len: nat, page: nat, has_more: bool)
    requires
        len <= usize::MAX,
        page <= usize::MAX,
    ensures
        next_page_spec(len, page, has_more) matches PageTurn::Show { page: q, selected: s } ==> (
        previous_page_spec(q as nat) == (page, page * 8) && s < len && q < page_count_spec(len)),
{
}

/// The page shown once more results came in is one of the list's pages when
/// a page was asked for, and the selection is a result of the list.
pub proof fn lemma_page_after_more_in_list(target_page: Option<nat>, current_page: nat, len: nat)
    requires
        len <= usize::MAX,
    ensures
        ({
            let (shown, selected) = page_after_more_spec(target_page, current_page, len);
            &&& target_page is Some ==> shown < page_count_spec(len)
            &&& len > 0 ==> (selected matches Some(s) && s < len)
            &&& len == 0 ==> selected is None
        }),
{
}

// ---------------------------------------------------------------------------
// Searching and playing.

/// The query a search runs: the text typed, white space trimmed; `None`
/// when nothing is left.
pub fn search_query_text(query: &str) -> (res: Option<String>)
    ensures
        match res {
            Some(q) => q@ == trim(query@) && q@.len() > 0,
            None => trim(query@).len() == 0,
        },
{
    let chars = str_chars(query);
    let trimmed = trim_chars(chars.as_slice());
    if trimmed.len() == 0 {
        None
    } else {
        Some(chars_to_string(trimmed.as_slice()))
    }
}

/// Whether more results may be asked for: there are more, and none are on
/// their way already.
pub fn can_load_more(loading_more: bool, has_more: bool) -> (res: bool)
    ensures
        res == (!loading_more && has_more),
{
    !loading_more && has_more
}

/// The watch page of the video `video_id`.
pub fn video_watch_url(video_id: &str) -> (res: String)
    ensures
        res@ == "https://www.youtube.com/watch?v="@ + video_id@,
{
    let mut out = string_from("https://www.youtube.com/watch?v=");
    push_str(&mut out, video_id);
    out
}

// ---------------------------------------------------------------------------
// Text of the result list.

/// The index of the result that slot `slot` of page `page` shows.
pub fn row_position(page: usize, slot: usize) -> (res: usize)
    ensures
        res == sat_add(sat_mul(page as int, 8), slot as int),
{
    let first = saturating_times_page(page);
    if first > usize::MAX - slot {
        usize::MAX
    } else {
        first + slot
    }
}

/// The text of one row of the list: its number, its title cut to 58
/// characters, its channel and its duration (with placeholders).
pub struct RowText {
    pub index: String,
    pub title: String,
    pub channel: String,
    pub duration: String,
}

fn text_or(o: Option<&str>, default: &str) -> (res: String)
    ensures
        res@ == match o {
            Some(t) => t@,
            None => default@,
        },
{
    match o {
        Some(t) => string_from(t),
        None => string_from(default),
    }
}

/// The text of the row for result `index` (counted from zero).
pub fn row_text(index: usize, title: &str, channel: Option<&str>, duration: Option<&str>) -> (res:
    RowText)
    requires
        index < usize::MAX,
    ensures
        res.index@ == decimal(index as nat + 1),
        res.title@ == compact_text_spec(title@, 58),
        res.channel@ == match channel {
            Some(c) => c@,
            None => "unknown channel"@,
        },
        res.duration@ == match duration {
            Some(d) => d@,
            None => "--:--"@,
        },
{
    let mut number = String::new();
    push_decimal(&mut number, index + 1);
    RowText {
        index: number,
        title: compact_text(title, 58),
        channel: text_or(channel, "unknown channel"),
        duration: text_or(duration, "--:--"),
    }
}

/// What the details pane starts from for the selected hit (title, channel,
/// duration, video id), or its placeholders when nothing is selected.
pub fn selection_summary(selected: Option<(&str, Option<&str>, Option<&str>, &str)>) -> (res: (
    String,
    String,
    String,
    String,
))
    ensures
        match selected {
            Some((title, channel, duration, id)) => {
                &&& res.0@ == compact_text_spec(title@, 90)
                &&& res.1@ == match channel {
                    Some(c) => compact_text_spec(c@, 46),
                    None => "unknown channel"@,
                }
                &&& res.2@ == match duration {
                    Some(d) => d@,
                    None => "--:--"@,
                }
                &&& res.3@ == id@
            },
            None => {
                &&& res.0@ == "No video selected"@
                &&& res.1@ == "Search and select a result."@
                &&& res.2@ == "--:--"@
                &&& res.3@ == "-"@
            },
        },
{
    match selected {
        Some((title, channel, duration, id)) => (
            compact_text(title, 90),
            match channel {
                Some(c) => compact_text(c, 46),
                None => string_from("unknown channel"),
            },
            text_or(duration, "--:--"),
            string_from(id),
        ),
        None => (
            string_from("No video selected"),
            string_from("Search and select a result."),
            string_from("--:--"),
            string_from("-"),
        ),
    }
}

/// The labels above the list: how many results (a `+` when more can come),
/// which page of how many, and which result is selected (counted from one;
/// zero when the list is empty).
pub fn list_labels(len: usize, page: usize, selected: usize, has_more: bool) -> (res: (
    String,
    String,
    String,
))
    requires
        page < usize::MAX,
    ensures
        res.0@ == decimal(len as nat) + " results"@ + (if has_more {
            "+"@
        } else {
            ""@
        }),
        res.1@ == "page "@ + decimal(page as nat + 1) + "/"@ + decimal(page_count_spec(len as nat)),
        res.2@ == "selected "@ + decimal(
            if len == 0 {
                0
            } else {
                sat_add(selected as int, 1) as nat
            },
        ),
{
    let mut results = String::new();
    push_decimal(&mut results, len);
    push_str(&mut results, " results");
    if has_more {
        push_str(&mut results, "+");
    } else {
        push_str(&mut results, "");
    }
    let mut pages = string_from("page ");
    push_decimal(&mut pages, page + 1);
    push_str(&mut pages, "/");
    push_decimal(&mut pages, page_count(len));
    let mut chosen = string_from("selected ");
    let shown: usize = if len == 0 {
        0
    } else if selected == usize::MAX {
        usize::MAX
    } else {
        selected + 1
    };
    push_decimal(&mut chosen, shown);
    (results, pages, chosen)
}

} // verus!

verus! {

// ---------------------------------------------------------------------------
// The result list as search replies come in.

/// Where the result list stands: the selected row, the page shown, whether
/// more results can be fetched, and whether a fetch of more is under way.
#[derive(Clone, Copy, PartialEq, Eq, Structural, Debug)]
pub struct ListState {
    pub selected: usize,
    pub page: usize,
    pub has_more: bool,
    pub loading_more: bool,
}

/// How a search request ended: with `count` results in all and whether the
/// search can go on, or with an error.
#[derive(Clone, Copy, PartialEq, Eq, Structural, Debug)]
pub enum SearchReply {
    Loaded { count: usize, has_more: bool },
    Failed,
}

/// The list once the first page of a search has answered: a reply to an
/// older search (`generation` is not `current`) changes nothing; otherwise
/// the first row of the first page is selected, no fetch is under way, and
/// more can be fetched only after a successful reply that says so.
pub open spec fn list_after_search_spec(
    generation: u64,
    current: u64,
    reply: SearchReply,
) -> Option<ListState> {
    if generation != current {
        None
    } else {
        Some(
            ListState {
                selected: 0,
                page: 0,
                has_more: match reply {
                    SearchReply::Loaded { has_more, .. } => has_more,
                    SearchReply::Failed => false,
                },
                loading_more: false,
            },
        )
    }
}

/// The list once the first page of a search has answered; `None` when the
/// reply belongs to an older search and is dropped.
pub fn list_after_search(generation: u64, current: u64, reply: SearchReply) -> (res: Option<ListState>)
    ensures
        res == list_after_search_spec(generation, current, reply),
{
    if generation != current {
        return None;
    }
    let has_more = match reply {
        SearchReply::Loaded { has_more, .. } => has_more,
        SearchReply::Failed => false,
    };
    Some(ListState { selected: 0, page: 0, has_more, loading_more: false })
}

/// The list once a request for more results has answered: a reply to an
/// older search changes nothing; otherwise the fetch is over, and on success
/// the list now holds `count` results: the page goes where
/// `page_after_more` says, with its first row selected when there is one.
/// A failed fetch leaves the selection, the page and `has_more` as they were.
pub open spec fn list_after_more_spec(
    state: ListState,
    generation: u64,
    current: u64,
    target_page: Option<nat>,
    reply: SearchReply,
) -> Option<ListState> {
    if generation != current {
        None
    } else {
        match reply {
            SearchReply::Failed => Some(ListState { loading_more: false, ..state }),
            SearchReply::Loaded { count, has_more } => {
                let (page, selected) = page_after_more_spec(target_page, state.page as nat, count as nat);
                Some(
                    ListState {
                        selected: match selected {
                            Some(s) => s as usize,
                            None => state.selected,
                        },
                        page: page as usize,
                        has_more,
                        loading_more: false,
                    },
                )
            },
        }
    }
}

/// The list once a request for more results has answered; `None` when the
/// reply belongs to an older search and is dropped.
pub fn list_after_more(
    state: ListState,
    generation: u64,
    current: u64,
    target_page: Option<usize>,
    reply: SearchReply,
) -> (res: Option<ListState>)
    ensures
        res == list_after_more_spec(
            state,
            generation,
            current,
            match target_page {
                Some(t) => Some(t as nat),
                None => None,
            },
            reply,
        ),
{
    if generation != current {
        return None;
    }
    match reply {
        SearchReply::Failed => Some(ListState { loading_more: false, ..state }),
        SearchReply::Loaded { count, has_more } => {
            let (page, selected) = page_after_more(target_page, state.page, count);
            let selected = match selected {
                Some(s) => s,
                None => state.selected,
            };
            Some(ListState { selected, page, has_more, loading_more: false })
        },
    }
}

} // verus!

verus! {

// ---------------------------------------------------------------------------
// Wrapping a video's description for the details pane.

/// How many characters of a description the details pane takes in.
pub const DESCRIPTION_MAX_CHARS: usize = 900;

/// How many lines of a description the details pane shows.
pub const DESCRIPTION_MAX_LINES: usize = 24;

/// A text that holds no line feed and no carriage return.
pub open spec fn no_line_break(s: Seq<char>) -> bool {
    forall|k: int| 0 <= k < s.len() ==> s[k] != '\n' && s[k] != '\r'
}

/// Whether the width test `fits` accepts the text `line`.
pub open spec fn accepts<F: Fn(&str) -> bool>(fits: F, line: Seq<char>) -> bool {
    exists|s: &str| s@ == line && #[trigger] call_ensures(fits, (s,), true)
}

/// A width test: it can be asked of any text, and it gives the same answer
/// for the same text (it never both accepts and refuses one).
pub open spec fn is_width_test<F: Fn(&str) -> bool>(fits: F) -> bool {
    &&& forall|s: &str| call_requires(fits, (s,))
    &&& forall|s: &str| #[trigger] call_ensures(fits, (s,), false) ==> !accepts(fits, s@)
}

/// A line of a wrapped description: it holds no line break, and it is empty,
/// a single character, the bare ellipsis `...`, or a line the width test
/// accepts.
pub open spec fn description_line<F: Fn(&str) -> bool>(fits: F, line: Seq<char>) -> bool {
    &&& no_line_break(line)
    &&& (line.len() <= 1 || line == "..."@ || accepts(fits, line))
}

/// Whether a text holds a character that is not white space.
pub open spec fn has_text(s: Seq<char>) -> bool {
    exists|k: int| 0 <= k < s.len() && !crate::text::is_whitespace(#[trigger] s[k])
}

/// `s` without its carriage returns.
pub open spec fn drop_cr(s: Seq<char>) -> Seq<char>
    decreases s.len(),
{
    if s.len() == 0 {
        seq![]
    } else if s.last() == '\r' {
        drop_cr(s.drop_last())
    } else {
        drop_cr(s.drop_last()).push(s.last())
    }
}

/// The lines made so far, the line being filled, the characters of words
/// taken so far, and whether something was left out.
pub struct WrapState {
    pub lines: Seq<Seq<char>>,
    pub current: Seq<char>,
    pub consumed: nat,
    pub truncated: bool,
}

/// No more words are taken once the character budget or the lines are used
/// up.
pub open spec fn wrap_stopped(st: WrapState) -> bool {
    st.consumed >= DESCRIPTION_MAX_CHARS || st.lines.len() >= DESCRIPTION_MAX_LINES
}

/// One character of a word too wide for a line: it goes on the line being
/// filled when that line is empty or the width test accepts it there, and
/// starts a new line otherwise.
pub open spec fn wrap_char<F: Fn(&str) -> bool>(
    fits: F,
    lines: Seq<Seq<char>>,
    current: Seq<char>,
    ch: char,
) -> (Seq<Seq<char>>, Seq<char>) {
    if current.len() == 0 {
        (lines, seq![ch])
    } else if accepts(fits, current.push(ch)) {
        (lines, current.push(ch))
    } else {
        (lines.push(current), seq![ch])
    }
}

/// The characters of `word` put on lines one by one, until all lines are
/// used.
pub open spec fn wrap_chars<F: Fn(&str) -> bool>(
    fits: F,
    lines: Seq<Seq<char>>,
    current: Seq<char>,
    word: Seq<char>,
) -> (Seq<Seq<char>>, Seq<char>)
    decreases word.len(),
{
    if word.len() == 0 || lines.len() >= DESCRIPTION_MAX_LINES {
        (lines, current)
    } else {
        let next = wrap_char(fits, lines, current, word[0]);
        wrap_chars(fits, next.0, next.1, word.drop_first())
    }
}

/// One word taken: cut to what is left of the character budget, then put
/// after a space on the line being filled when the width test accepts that,
/// else on lines of its own, broken where it must be.
pub open spec fn wrap_word<F: Fn(&str) -> bool>(fits: F, st: WrapState, word: Seq<char>) -> WrapState {
    let w = compact_text_spec(word, (DESCRIPTION_MAX_CHARS - st.consumed) as nat);
    let consumed = st.consumed + w.len();
    let candidate = if st.current.len() == 0 {
        w
    } else {
        st.current + seq![' '] + w
    };
    if accepts(fits, candidate) {
        WrapState { current: candidate, consumed, ..st }
    } else {
        let base = if st.current.len() == 0 {
            st.lines
        } else {
            st.lines.push(st.current)
        };
        let r = wrap_chars(fits, base, seq![], w);
        WrapState { lines: r.0, current: r.1, consumed, truncated: st.truncated }
    }
}

/// The words of a paragraph taken in turn; once the budget or the lines are
/// used up, the rest is left out.
pub open spec fn wrap_words<F: Fn(&str) -> bool>(
    fits: F,
    st: WrapState,
    ws: Seq<Seq<char>>,
) -> WrapState
    decreases ws.len(),
{
    if ws.len() == 0 {
        st
    } else if wrap_stopped(st) {
        WrapState { truncated: true, ..st }
    } else {
        wrap_words(fits, wrap_word(fits, st, ws[0]), ws.drop_first())
    }
}

/// One paragraph: a blank one is an empty line (none before the first
/// line); otherwise its words, trimmed, fill lines, the last one kept while
/// there is room.
pub open spec fn wrap_paragraph<F: Fn(&str) -> bool>(fits: F, st: WrapState, para: Seq<char>) -> WrapState {
    let t = trim(para);
    if t.len() == 0 {
        if st.lines.len() > 0 {
            WrapState { lines: st.lines.push(seq![]), ..st }
        } else {
            st
        }
    } else {
        let r = wrap_words(fits, WrapState { current: seq![], ..st }, crate::text::words(t));
        if r.current.len() > 0 && r.lines.len() < DESCRIPTION_MAX_LINES {
            WrapState { lines: r.lines.push(r.current), current: seq![], ..r }
        } else {
            WrapState { current: seq![], ..r }
        }
    }
}

/// The paragraphs taken in turn; once the budget or the lines are used up,
/// the rest is left out.
pub open spec fn wrap_paragraphs<F: Fn(&str) -> bool>(
    fits: F,
    st: WrapState,
    ps: Seq<Seq<char>>,
) -> WrapState
    decreases ps.len(),
{
    if ps.len() == 0 {
        st
    } else if wrap_stopped(st) {
        WrapState { truncated: true, ..st }
    } else {
        wrap_paragraphs(fits, wrap_paragraph(fits, st, ps[0]), ps.drop_first())
    }
}

/// `line` with `...` after its first `n` characters, for the largest `n` the
/// width test accepts; the bare `...` when it accepts none.
pub open spec fn ellipsis_from<F: Fn(&str) -> bool>(fits: F, line: Seq<char>, n: nat) -> Seq<char>
    decreases n,
{
    if n == 0 {
        "..."@
    } else if accepts(fits, line.take(n as int) + "..."@) {
        line.take(n as int) + "..."@
    } else {
        ellipsis_from(fits, line, (n - 1) as nat)
    }
}

pub open spec fn empty_wrap() -> WrapState {
    WrapState { lines: seq![], current: seq![], consumed: 0, truncated: false }
}

/// The lines of a description laid out for the details pane: carriage
/// returns dropped, the text split into paragraphs at line feeds, each
/// paragraph wrapped in turn, and when something was left out, `...` put
/// after the last line (or as the only line).
pub open spec fn wrap_lines_spec<F: Fn(&str) -> bool>(fits: F, input: Seq<char>) -> Seq<Seq<char>> {
    let st = wrap_paragraphs(fits, empty_wrap(), crate::text::split_char(drop_cr(input), '\n'));
    if st.truncated {
        if st.lines.len() > 0 {
            st.lines.update(
                st.lines.len() - 1,
                ellipsis_from(fits, st.lines.last(), st.lines.last().len()),
            )
        } else {
            seq!["..."@]
        }
    } else {
        st.lines
    }
}

/// A description laid out for the details pane: its lines joined by line
/// feeds.
pub open spec fn wrap_description_spec<F: Fn(&str) -> bool>(fits: F, input: Seq<char>) -> Seq<char> {
    join_lines_spec(wrap_lines_spec(fits, input))
}

// ---------------------------------------------------------------------------
// Lemmas on the pieces.

proof fn lemma_words_run_no_whitespace(s: Seq<char>)
    ensures
        forall|i: int, k: int|
            0 <= i < crate::text::words_run(s).0.len() && 0 <= k
                < crate::text::words_run(s).0[i].len() ==> !crate::text::is_whitespace(
                #[trigger] crate::text::words_run(s).0[i][k],
            ),
        forall|i: int| 0 <= i < crate::text::words_run(s).0.len() ==> (#[trigger] crate::text::words_run(s).0[i]).len() > 0,
        forall|k: int|
            0 <= k < crate::text::words_run(s).1.len() ==> !crate::text::is_whitespace(
                #[trigger] crate::text::words_run(s).1[k],
            ),
        has_text(s) ==> crate::text::words_run(s).0.len() > 0 || crate::text::words_run(s).1.len() > 0,
    decreases s.len(),
{
    if s.len() > 0 {
        let p = s.drop_last();
        lemma_words_run_no_whitespace(p);
        let prev = crate::text::words_run(p);
        let c = s.last();
        if has_text(s) && !has_text(p) {
            let k = choose|k: int| 0 <= k < s.len() && !crate::text::is_whitespace(#[trigger] s[k]);
            if k < p.len() {
                assert(p[k] == s[k]);
            }
        }
        if has_text(p) {
            let k = choose|k: int| 0 <= k < p.len() && !crate::text::is_whitespace(#[trigger] p[k]);
            assert(s[k] == p[k]);
        }
        if crate::text::is_whitespace(c) {
            if prev.1.len() > 0 {
                let ws = prev.0.push(prev.1);
                assert forall|i: int, k: int| 0 <= i < ws.len() && 0 <= k < ws[i].len() implies !crate::text::is_whitespace(
                    #[trigger] ws[i][k],
                ) by {
                    if i < prev.0.len() {
                        assert(ws[i] == prev.0[i]);
                    } else {
                        assert(ws[i] == prev.1);
                    }
                }
                assert forall|i: int| 0 <= i < ws.len() implies (#[trigger] ws[i]).len() > 0 by {
                    if i < prev.0.len() {
                        assert(ws[i] == prev.0[i]);
                    }
                }
            }
        } else {
            let w = prev.1.push(c);
            assert forall|k: int| 0 <= k < w.len() implies !crate::text::is_whitespace(#[trigger] w[k]) by {
                if k < prev.1.len() {
                    assert(w[k] == prev.1[k]);
                }
            }
        }
    }
}

/// The words of a text are not empty and hold no white space, and a text
/// with a character that is not white space has a word.
proof fn lemma_words_shape(s: Seq<char>)
    ensures
        forall|i: int, k: int|
            0 <= i < crate::text::words(s).len() && 0 <= k < crate::text::words(s)[i].len()
                ==> !crate::text::is_whitespace(#[trigger] crate::text::words(s)[i][k]),
        forall|i: int| 0 <= i < crate::text::words(s).len() ==> (#[trigger] crate::text::words(s)[i]).len() > 0,
        has_text(s) ==> crate::text::words(s).len() > 0,
{
    lemma_words_run_no_whitespace(s);
    let r = crate::text::words_run(s);
    if r.1.len() > 0 {
        let ws = r.0.push(r.1);
        assert forall|i: int, k: int| 0 <= i < ws.len() && 0 <= k < ws[i].len() implies !crate::text::is_whitespace(
            #[trigger] ws[i][k],
        ) by {
            if i < r.0.len() {
                assert(ws[i] == r.0[i]);
            }
        }
        assert forall|i: int| 0 <= i < ws.len() implies (#[trigger] ws[i]).len() > 0 by {
            if i < r.0.len() {
                assert(ws[i] == r.0[i]);
            }
        }
    }
}

proof fn lemma_trim_start_text(s: Seq<char>)
    ensures
        has_text(crate::text::trim_start(s)) == has_text(s),
        crate::text::trim_start(s).len() > 0 ==> !crate::text::is_whitespace(crate::text::trim_start(s)[0]),
    decreases s.len(),
{
    if s.len() > 0 && crate::text::is_whitespace(s[0]) {
        let r = s.drop_first();
        lemma_trim_start_text(r);
        if has_text(s) {
            let k = choose|k: int| 0 <= k < s.len() && !crate::text::is_whitespace(#[trigger] s[k]);
            assert(r[k - 1] == s[k]);
        }
        if has_text(r) {
            let k = choose|k: int| 0 <= k < r.len() && !crate::text::is_whitespace(#[trigger] r[k]);
            assert(s[k + 1] == r[k]);
        }
    }
}

proof fn lemma_trim_end_text(s: Seq<char>)
    ensures
        has_text(crate::text::trim_end(s)) == has_text(s),
        crate::text::trim_end(s).len() > 0 ==> !crate::text::is_whitespace(
            crate::text::trim_end(s).last(),
        ),
    decreases s.len(),
{
    if s.len() > 0 && crate::text::is_whitespace(s.last()) {
        let r = s.drop_last();
        lemma_trim_end_text(r);
        if has_text(s) {
            let k = choose|k: int| 0 <= k < s.len() && !crate::text::is_whitespace(#[trigger] s[k]);
            assert(k < r.len());
            assert(r[k] == s[k]);
        }
        if has_text(r) {
            let k = choose|k: int| 0 <= k < r.len() && !crate::text::is_whitespace(#[trigger] r[k]);
            assert(s[k] == r[k]);
        }
    }
}

/// A text trims to nothing exactly when it is all white space.
proof fn lemma_trim_empty(s: Seq<char>)
    ensures
        (trim(s).len() > 0) == has_text(s),
{
    lemma_trim_start_text(s);
    let t = crate::text::trim_start(s);
    lemma_trim_end_text(t);
    let u = crate::text::trim_end(t);
    if u.len() > 0 {
        assert(!crate::text::is_whitespace(u[u.len() - 1]));
    }
}

proof fn lemma_drop_cr_text(s: Seq<char>)
    ensures
        has_text(drop_cr(s)) == has_text(s),
    decreases s.len(),
{
    if s.len() > 0 {
        let p = s.drop_last();
        lemma_drop_cr_text(p);
        let d = drop_cr(p);
        if has_text(s) {
            let k = choose|k: int| 0 <= k < s.len() && !crate::text::is_whitespace(#[trigger] s[k]);
            if k < p.len() {
                assert(p[k] == s[k]);
                if s.last() != '\r' {
                    let k2 = choose|k: int| 0 <= k < d.len() && !crate::text::is_whitespace(#[trigger] d[k]);
                    assert(d.push(s.last())[k2] == d[k2]);
                }
            } else {
                assert(s.last() != '\r');
                assert(d.push(s.last())[d.len() as int] == s.last());
            }
        }
        if has_text(drop_cr(s)) {
            let e = drop_cr(s);
            let k = choose|k: int| 0 <= k < e.len() && !crate::text::is_whitespace(#[trigger] e[k]);
            if s.last() != '\r' && k == d.len() {
                assert(s[s.len() - 1] == s.last());
            } else {
                assert(e[k] == d[k]);
                let k2 = choose|k: int| 0 <= k < p.len() && !crate::text::is_whitespace(#[trigger] p[k]);
                assert(s[k2] == p[k2]);
            }
        }
    }
}

proof fn lemma_split_run_text(s: Seq<char>)
    ensures
        has_text(s) == ((exists|q: int|
            0 <= q < crate::text::split_run((seq![], seq![]), s, '\n').0.len() && has_text(
                #[trigger] crate::text::split_run((seq![], seq![]), s, '\n').0[q],
            )) || has_text(crate::text::split_run((seq![], seq![]), s, '\n').1)),
    decreases s.len(),
{
    let init = (Seq::<Seq<char>>::empty(), Seq::<char>::empty());
    if s.len() > 0 {
        let p = s.drop_last();
        let c = s.last();
        lemma_split_run_text(p);
        let prev = crate::text::split_run(init, p, '\n');
        let now = crate::text::split_run(init, s, '\n');
        // A character of `s` is one of `p` or its last one.
        assert(has_text(s) == (has_text(p) || !crate::text::is_whitespace(c))) by {
            if has_text(s) {
                let k = choose|k: int| 0 <= k < s.len() && !crate::text::is_whitespace(#[trigger] s[k]);
                if k < p.len() {
                    assert(p[k] == s[k]);
                }
            }
            if has_text(p) {
                let k = choose|k: int| 0 <= k < p.len() && !crate::text::is_whitespace(#[trigger] p[k]);
                assert(s[k] == p[k]);
            }
            assert(s[s.len() - 1] == c);
        }
        if c == '\n' {
            assert(crate::text::is_whitespace(c));
            assert(now.0 == prev.0.push(prev.1));
            assert(!has_text(now.1));
            if has_text(prev.1) {
                assert(now.0[prev.0.len() as int] == prev.1);
            }
            if exists|q: int| 0 <= q < prev.0.len() && has_text(#[trigger] prev.0[q]) {
                let q = choose|q: int| 0 <= q < prev.0.len() && has_text(#[trigger] prev.0[q]);
                assert(now.0[q] == prev.0[q]);
            }
            if exists|q: int| 0 <= q < now.0.len() && has_text(#[trigger] now.0[q]) {
                let q = choose|q: int| 0 <= q < now.0.len() && has_text(#[trigger] now.0[q]);
                if q < prev.0.len() {
                    assert(now.0[q] == prev.0[q]);
                }
            }
        } else {
            assert(now == (prev.0, prev.1.push(c)));
            let cur = prev.1.push(c);
            assert(has_text(cur) == (has_text(prev.1) || !crate::text::is_whitespace(c))) by {
                if has_text(cur) {
                    let k = choose|k: int| 0 <= k < cur.len() && !crate::text::is_whitespace(#[trigger] cur[k]);
                    if k < prev.1.len() {
                        assert(prev.1[k] == cur[k]);
                    }
                }
                if has_text(prev.1) {
                    let k = choose|k: int| 0 <= k < prev.1.len() && !crate::text::is_whitespace(#[trigger] prev.1[k]);
                    assert(cur[k] == prev.1[k]);
                }
                assert(cur[prev.1.len() as int] == c);
            }
        }
    }
}

/// A text has a character that is not white space exactly when one of its
/// line-feed separated paragraphs has.
proof fn lemma_paragraphs_text(s: Seq<char>)
    ensures
        has_text(s) == exists|q: int|
            0 <= q < crate::text::split_char(s, '\n').len() && has_text(
                #[trigger] crate::text::split_char(s, '\n')[q],
            ),
{
    lemma_split_run_text(s);
    let r = crate::text::split_run((seq![], seq![]), s, '\n');
    let ps = crate::text::split_char(s, '\n');
    assert(ps == r.0.push(r.1));
    if exists|q: int| 0 <= q < r.0.len() && has_text(#[trigger] r.0[q]) {
        let q = choose|q: int| 0 <= q < r.0.len() && has_text(#[trigger] r.0[q]);
        assert(ps[q] == r.0[q]);
    }
    if has_text(r.1) {
        assert(ps[r.0.len() as int] == r.1);
    }
    if exists|q: int| 0 <= q < ps.len() && has_text(#[trigger] ps[q]) {
        let q = choose|q: int| 0 <= q < ps.len() && has_text(#[trigger] ps[q]);
        if q < r.0.len() {
            assert(ps[q] == r.0[q]);
        }
    }
}

/// Joined lines begin with the first line, when it is not empty.
proof fn lemma_join_first(ls: Seq<Seq<char>>)
    requires
        ls.len() > 0,
        ls[0].len() > 0,
    ensures
        join_lines_spec(ls).len() > 0,
        join_lines_spec(ls)[0] == ls[0][0],
    decreases ls.len(),
{
    if ls.len() > 1 {
        let p = ls.drop_last();
        assert(p[0] == ls[0]);
        lemma_join_first(p);
        let j = join_lines_spec(p);
        assert((j + seq!['\n'] + ls.last())[0] == j[0]);
    }
}

proof fn lemma_concat_no_break(a: Seq<char>, b: Seq<char>)
    requires
        no_line_break(a),
        no_line_break(b),
    ensures
        no_line_break(a + b),
{
    assert forall|k: int| 0 <= k < (a + b).len() implies (a + b)[k] != '\n' && (a + b)[k] != '\r' by {
        if k < a.len() {
            assert((a + b)[k] == a[k]);
        } else {
            assert((a + b)[k] == b[k - a.len()]);
        }
    }
}

proof fn lemma_compact_shape(w: Seq<char>, max: nat)
    requires
        no_line_break(w),
    ensures
        no_line_break(compact_text_spec(w, max)),
        compact_text_spec(w, max).len() <= max + 3,
        compact_text_spec(w, max).len() <= w.len() + 3,
        w.len() > 0 ==> compact_text_spec(w, max).len() > 0,
{
    reveal_strlit("...");
    assert("..."@ == seq!['.', '.', '.']);
    if w.len() > max {
        assert(no_line_break(w.take(max as int))) by {
            assert forall|k: int| 0 <= k < w.take(max as int).len() implies w.take(max as int)[k] != '\n'
                && w.take(max as int)[k] != '\r' by {
                assert(w.take(max as int)[k] == w[k]);
            }
        }
        lemma_concat_no_break(w.take(max as int), "..."@);
    }
}

} // verus!

verus! {

// ---------------------------------------------------------------------------
// Wrapping, in code.

pub open spec fn lines_view(lines: Seq<String>) -> Seq<Seq<char>> {
    strings_view(lines)
}

/// The lines of a description that the pane can show so far: no more than
/// it has room for, each a description line, the first one not empty.
pub open spec fn good_lines<F: Fn(&str) -> bool>(fits: F, lines: Seq<Seq<char>>) -> bool {
    &&& lines.len() <= DESCRIPTION_MAX_LINES
    &&& forall|i: int| 0 <= i < lines.len() ==> description_line(fits, #[trigger] lines[i])
    &&& (lines.len() > 0 ==> lines[0].len() > 0)
}

proof fn lemma_push_good<F: Fn(&str) -> bool>(fits: F, lines: Seq<Seq<char>>, line: Seq<char>)
    requires
        good_lines(fits, lines),
        lines.len() < DESCRIPTION_MAX_LINES,
        description_line(fits, line),
        lines.len() == 0 ==> line.len() > 0,
    ensures
        good_lines(fits, lines.push(line)),
{
    assert forall|i: int| 0 <= i < lines.push(line).len() implies description_line(fits, #[trigger] lines.push(line)[i]) by {
        if i < lines.len() {
            assert(lines.push(line)[i] == lines[i]);
        }
    }
}

fn push_string(lines: &mut Vec<String>, line: String)
    ensures
        lines_view(final(lines)@) == lines_view(old(lines)@).push(line@),
        final(lines)@.len() == old(lines)@.len() + 1,
{
    let ghost before = lines_view(lines@);
    lines.push(line);
    assert(lines_view(lines@) =~= before.push(line@));
}

/// `line` with `...` put after it, cut from the end one character at a time
/// until the width test accepts it; the bare `...` when nothing is left.
fn append_ellipsis<F: Fn(&str) -> bool>(line: &String, fits: &F) -> (res: String)
    requires
        is_width_test(*fits),
        no_line_break(line@),
    ensures
        res@ == ellipsis_from(*fits, line@, line@.len()),
        description_line(*fits, res@),
        res@.len() > 0,
{
    proof {
        reveal_strlit("...");
        assert("..."@ == seq!['.', '.', '.']);
    }
    let chars = str_chars(line.as_str());
    let mut n: usize = chars.len();
    while n > 0
        invariant
            n <= chars.len(),
            chars@ == line@,
            no_line_break(line@),
            is_width_test(*fits),
            ellipsis_from(*fits, line@, line@.len()) == ellipsis_from(*fits, line@, n as nat),
            "..."@ == seq!['.', '.', '.'],
        decreases n,
    {
        let mut candidate = String::new();
        push_chars(&mut candidate, &chars.as_slice()[0..n]);
        push_str(&mut candidate, "...");
        assert(chars@.subrange(0, n as int) == line@.take(n as int));
        assert(candidate@ == line@.take(n as int) + "..."@);
        let s = candidate.as_str();
        let ok = fits(s);
        if ok {
            assert(accepts(*fits, candidate@));
            assert(no_line_break(candidate@)) by {
                assert forall|k: int| 0 <= k < candidate@.len() implies candidate@[k] != '\n'
                    && candidate@[k] != '\r' by {
                    if k < n {
                        assert(candidate@[k] == line@[k]);
                    } else {
                        assert(candidate@[k] == "..."@[k - n]);
                    }
                }
            }
            return candidate;
        }
        assert(!accepts(*fits, s@));
        n -= 1;
    }
    string_from("...")
}

/// Puts the characters of `word` on lines as `wrap_chars` says.
fn push_wrapped_word<F: Fn(&str) -> bool>(
    lines: &mut Vec<String>,
    current: &mut String,
    word: &[char],
    fits: &F,
)
    requires
        is_width_test(*fits),
        good_lines(*fits, lines_view(old(lines)@)),
        description_line(*fits, old(current)@),
        lines_view(old(lines)@).len() == 0 ==> old(current)@.len() == 0,
        no_line_break(word@),
    ensures
        (lines_view(final(lines)@), final(current)@) == wrap_chars(
            *fits,
            lines_view(old(lines)@),
            old(current)@,
            word@,
        ),
        good_lines(*fits, lines_view(final(lines)@)),
        description_line(*fits, final(current)@),
        lines_view(final(lines)@).len() == 0 ==> final(current)@.len() == 0 || word@.len() > 0,
        lines_view(old(lines)@).len() > 0 || word@.len() > 0 ==> lines_view(final(lines)@).len() > 0
            || final(current)@.len() > 0,
{
    let ghost target = wrap_chars(*fits, lines_view(lines@), current@, word@);
    assert(target == wrap_chars(*fits, lines_view(old(lines)@), old(current)@, word@));
    let mut i: usize = 0;
    assert(word@.skip(0) == word@);
    while i < word.len()
        invariant
            i <= word.len(),
            is_width_test(*fits),
            target == wrap_chars(*fits, lines_view(lines@), current@, word@.skip(i as int)),
            target == wrap_chars(*fits, lines_view(old(lines)@), old(current)@, word@),
            good_lines(*fits, lines_view(lines@)),
            description_line(*fits, current@),
            lines_view(lines@).len() == 0 ==> current@.len() == 0 || i > 0,
            i > 0 ==> lines_view(lines@).len() > 0 || current@.len() > 0,
            no_line_break(word@),
        decreases word.len() - i,
    {
        if lines.len() >= DESCRIPTION_MAX_LINES {
            assert(target == (lines_view(lines@), current@));
            assert(target == wrap_chars(*fits, lines_view(old(lines)@), old(current)@, word@));
            return;
        }
        let ch = word[i];
        assert(ch != '\n' && ch != '\r');
        let ghost rest = word@.skip(i as int);
        assert(rest[0] == ch);
        assert(rest.drop_first() == word@.skip(i + 1));
        let mut candidate = string_from(current.as_str());
        push_char(&mut candidate, ch);
        proof {
            lemma_concat_no_break(current@, seq![ch]);
            assert(candidate@ == current@.push(ch));
        }
        if current.as_str().is_empty() {
            push_char(current, ch);
            assert(current@ == seq![ch]);
        } else {
            let s = candidate.as_str();
            if fits(s) {
                assert(accepts(*fits, candidate@));
                *current = candidate;
            } else {
                assert(!accepts(*fits, s@));
                let full = string_from(current.as_str());
                proof {
                    lemma_push_good(*fits, lines_view(lines@), full@);
                }
                push_string(lines, full);
                *current = String::new();
                push_char(current, ch);
                assert(current@ == seq![ch]);
            }
        }
        i += 1;
    }
    assert(word@.skip(word.len() as int) =~= Seq::<char>::empty());
}

pub open spec fn state_of(lines: Seq<String>, current: Seq<char>, consumed: usize, truncated: bool) -> WrapState {
    WrapState { lines: lines_view(lines), current, consumed: consumed as nat, truncated }
}

/// One word taken, as `wrap_word` says.
fn take_word<F: Fn(&str) -> bool>(
    lines: &mut Vec<String>,
    current: &mut String,
    consumed: &mut usize,
    word: &[char],
    fits: &F,
    truncated: bool,
)
    requires
        is_width_test(*fits),
        *old(consumed) < DESCRIPTION_MAX_CHARS,
        lines_view(old(lines)@).len() < DESCRIPTION_MAX_LINES,
        good_lines(*fits, lines_view(old(lines)@)),
        description_line(*fits, old(current)@),
        lines_view(old(lines)@).len() == 0 ==> old(current)@.len() == 0 || *old(consumed) > 0,
        no_line_break(word@),
        word@.len() > 0,
    ensures
        state_of(final(lines)@, final(current)@, *final(consumed), truncated) == wrap_word(
            *fits,
            state_of(old(lines)@, old(current)@, *old(consumed), truncated),
            word@,
        ),
        good_lines(*fits, lines_view(final(lines)@)),
        description_line(*fits, final(current)@),
        lines_view(final(lines)@).len() > 0 || final(current)@.len() > 0,
        *final(consumed) > 0,
{
    let ghost st = state_of(lines@, current@, *consumed, truncated);
    let remaining = DESCRIPTION_MAX_CHARS - *consumed;
    let word_text = chars_to_string(word);
    let w = compact_text(word_text.as_str(), remaining);
    proof {
        lemma_compact_shape(word_text@, remaining as nat);
    }
    let w_chars = str_chars(w.as_str());
    assert(word_text@ == word@);
    assert(w@ == compact_text_spec(word@, (DESCRIPTION_MAX_CHARS - st.consumed) as nat));
    assert(w_chars@ == w@);
    *consumed = *consumed + w_chars.len();
    let candidate = if current.as_str().is_empty() {
        string_from(w.as_str())
    } else {
        let mut joined = string_from(current.as_str());
        push_char(&mut joined, ' ');
        push_str(&mut joined, w.as_str());
        proof {
            lemma_concat_no_break(current@, seq![' ']);
            lemma_concat_no_break(current@ + seq![' '], w@);
        }
        joined
    };
    assert(no_line_break(candidate@));
    let s = candidate.as_str();
    assert(candidate@ == (if st.current.len() == 0 {
        w@
    } else {
        st.current + seq![' '] + w@
    }));
    if fits(s) {
        assert(accepts(*fits, candidate@));
        *current = candidate;
        assert(state_of(lines@, current@, *consumed, truncated) == wrap_word(*fits, st, word@));
        return;
    }
    assert(!accepts(*fits, s@));
    let ghost base = if st.current.len() == 0 {
        st.lines
    } else {
        st.lines.push(st.current)
    };
    if !current.as_str().is_empty() {
        let full = string_from(current.as_str());
        proof {
            lemma_push_good(*fits, lines_view(lines@), full@);
        }
        push_string(lines, full);
        *current = String::new();
    }
    assert(current@ == Seq::<char>::empty());
    assert(lines_view(lines@) == base);
    push_wrapped_word(lines, current, w_chars.as_slice(), fits);
    assert(state_of(lines@, current@, *consumed, truncated) == wrap_word(*fits, st, word@));
}

/// One paragraph taken, as `wrap_paragraph` says.
fn take_paragraph<F: Fn(&str) -> bool>(
    lines: &mut Vec<String>,
    consumed: &mut usize,
    truncated: &mut bool,
    para: &[char],
    fits: &F,
)
    requires
        is_width_test(*fits),
        !wrap_stopped(state_of(old(lines)@, seq![], *old(consumed), *old(truncated))),
        good_lines(*fits, lines_view(old(lines)@)),
        lines_view(old(lines)@).len() == 0 ==> *old(consumed) == 0 && !*old(truncated),
    ensures
        state_of(final(lines)@, seq![], *final(consumed), *final(truncated)) == wrap_paragraph(
            *fits,
            state_of(old(lines)@, seq![], *old(consumed), *old(truncated)),
            para@,
        ),
        good_lines(*fits, lines_view(final(lines)@)),
        has_text(para@) ==> lines_view(final(lines)@).len() > 0,
        !has_text(para@) ==> (lines_view(final(lines)@).len() == 0 <==> lines_view(old(lines)@).len()
            == 0) && *final(consumed) == *old(consumed) && *final(truncated) == *old(truncated),
{
    let ghost st0 = state_of(lines@, seq![], *consumed, *truncated);
    let t = trim_chars(para);
    proof {
        lemma_trim_empty(para@);
        lemma_trim_start_text(para@);
        lemma_trim_end_text(crate::text::trim_start(para@));
        lemma_words_shape(t@);
    }
    if t.len() == 0 {
        if lines.len() > 0 {
            proof {
                lemma_push_good(*fits, lines_view(lines@), seq![]);
            }
            push_string(lines, String::new());
        }
        return;
    }
    let ws = crate::text::split_whitespace(t.as_slice());
    let ghost wv = crate::text::vecs_view(ws@);
    let ghost target = wrap_words(*fits, st0, wv);
    let mut current = String::new();
    let mut w: usize = 0;
    assert(wv.skip(0) == wv);
    while w < ws.len()
        invariant
            w <= ws.len(),
            wv == crate::text::vecs_view(ws@),
            wv == crate::text::words(t@),
            forall|i: int, k: int|
                0 <= i < wv.len() && 0 <= k < wv[i].len() ==> !crate::text::is_whitespace(
                    #[trigger] wv[i][k],
                ),
            forall|i: int| 0 <= i < wv.len() ==> (#[trigger] wv[i]).len() > 0,
            wv.len() > 0,
            is_width_test(*fits),
            target == wrap_words(*fits, state_of(lines@, current@, *consumed, *truncated), wv.skip(w as int)),
            good_lines(*fits, lines_view(lines@)),
            description_line(*fits, current@),
            lines_view(lines@).len() == 0 ==> current@.len() == 0 || *consumed > 0,
            w > 0 ==> lines_view(lines@).len() > 0 || current@.len() > 0,
            w == 0 ==> *consumed < DESCRIPTION_MAX_CHARS && lines_view(lines@).len() < DESCRIPTION_MAX_LINES,
        ensures
            target == state_of(lines@, current@, *consumed, *truncated),
            good_lines(*fits, lines_view(lines@)),
            description_line(*fits, current@),
            lines_view(lines@).len() > 0 || current@.len() > 0,
        decreases ws.len() - w,
    {
        let ghost rest = wv.skip(w as int);
        assert(rest[0] == wv[w as int]);
        assert(rest.drop_first() == wv.skip(w + 1));
        if *consumed >= DESCRIPTION_MAX_CHARS || lines.len() >= DESCRIPTION_MAX_LINES {
            *truncated = true;
            break;
        }
        let piece = ws[w].as_slice();
        assert(piece@ == wv[w as int]);
        assert(no_line_break(piece@)) by {
            assert forall|k: int| 0 <= k < piece@.len() implies piece@[k] != '\n' && piece@[k] != '\r' by {
                assert(!crate::text::is_whitespace(wv[w as int][k]));
            }
        }
        take_word(lines, &mut current, consumed, piece, fits, *truncated);
        w += 1;
    }
    if !current.as_str().is_empty() && lines.len() < DESCRIPTION_MAX_LINES {
        proof {
            lemma_push_good(*fits, lines_view(lines@), current@);
        }
        push_string(lines, current);
    }
}

/// A video description laid out for the details pane, with the width test
/// `fits` (see `wrap_description_spec`): at most `DESCRIPTION_MAX_LINES`
/// description lines joined by line feeds; empty exactly when the
/// description is blank, and never beginning with a line feed.
pub fn wrap_description_text<F: Fn(&str) -> bool>(input: &str, fits: F) -> (res: String)
    requires
        is_width_test(fits),
    ensures
        res@ == wrap_description_spec(fits, input@),
        wrap_lines_spec(fits, input@).len() <= DESCRIPTION_MAX_LINES,
        forall|i: int|
            0 <= i < wrap_lines_spec(fits, input@).len() ==> description_line(
                fits,
                #[trigger] wrap_lines_spec(fits, input@)[i],
            ),
        (trim(input@).len() == 0) == (res@.len() == 0),
        res@.len() == 0 || res@[0] != '\n',
{
    let chars = str_chars(input);
    let mut kept: Vec<char> = Vec::new();
    let mut c: usize = 0;
    assert(chars@.take(0) =~= Seq::<char>::empty());
    while c < chars.len()
        invariant
            c <= chars.len(),
            chars@ == input@,
            kept@ == drop_cr(chars@.take(c as int)),
        decreases chars.len() - c,
    {
        assert(chars@.take(c + 1).drop_last() == chars@.take(c as int));
        assert(chars@.take(c + 1).last() == chars@[c as int]);
        if chars[c] != '\r' {
            kept.push(chars[c]);
        }
        c += 1;
    }
    assert(chars@.take(chars.len() as int) == input@);
    let paragraphs = crate::text::split_chars(kept.as_slice(), '\n');
    let ghost ps = crate::text::vecs_view(paragraphs@);
    let ghost target = wrap_paragraphs(fits, empty_wrap(), ps);
    let mut lines: Vec<String> = Vec::new();
    let mut truncated = false;
    let mut consumed: usize = 0;
    let mut p: usize = 0;
    assert(ps.skip(0) == ps);
    assert(state_of(lines@, seq![], consumed, truncated) == empty_wrap()) by {
        assert(lines_view(lines@) =~= Seq::<Seq<char>>::empty());
    }
    while p < paragraphs.len()
        invariant
            p <= paragraphs.len(),
            ps == crate::text::vecs_view(paragraphs@),
            ps == crate::text::split_char(drop_cr(input@), '\n'),
            is_width_test(fits),
            target == wrap_paragraphs(fits, state_of(lines@, seq![], consumed, truncated), ps.skip(p as int)),
            good_lines(fits, lines_view(lines@)),
            lines_view(lines@).len() == 0 ==> consumed == 0 && !truncated,
            (lines_view(lines@).len() > 0) == exists|q: int| 0 <= q < p && has_text(#[trigger] ps[q]),
        ensures
            target == state_of(lines@, seq![], consumed, truncated),
            good_lines(fits, lines_view(lines@)),
            lines_view(lines@).len() == 0 ==> !truncated,
            (lines_view(lines@).len() > 0) == exists|q: int| 0 <= q < ps.len() && has_text(#[trigger] ps[q]),
        decreases paragraphs.len() - p,
    {
        let ghost rest = ps.skip(p as int);
        assert(rest[0] == ps[p as int]);
        assert(rest.drop_first() == ps.skip(p + 1));
        if consumed >= DESCRIPTION_MAX_CHARS || lines.len() >= DESCRIPTION_MAX_LINES {
            truncated = true;
            proof {
                let q = choose|q: int| 0 <= q < p && has_text(#[trigger] ps[q]);
                assert(0 <= q < ps.len() && has_text(ps[q]));
            }
            break;
        }
        let piece = paragraphs[p].as_slice();
        assert(piece@ == ps[p as int]);
        take_paragraph(&mut lines, &mut consumed, &mut truncated, piece, &fits);
        proof {
            assert forall|q: int| 0 <= q < p + 1 && has_text(#[trigger] ps[q]) implies lines_view(lines@).len() > 0 by {
                if q == p {
                } else {
                }
            }
            if exists|q: int| 0 <= q < p + 1 && has_text(#[trigger] ps[q]) {
            } else {
                assert(!has_text(ps[p as int]));
            }
            if !has_text(ps[p as int]) && exists|q: int| 0 <= q < p + 1 && has_text(#[trigger] ps[q]) {
                let q = choose|q: int| 0 <= q < p + 1 && has_text(#[trigger] ps[q]);
                assert(q < p);
            }
        }
        p += 1;
    }
    let ghost st = state_of(lines@, seq![], consumed, truncated);
    assert(st == target);
    if truncated {
        if lines.len() > 0 {
            let last_index = lines.len() - 1;
            assert(lines_view(lines@)[last_index as int] == lines@[last_index as int]@);
            assert(lines_view(lines@).last() == lines@[last_index as int]@);
            let last = append_ellipsis(&lines[last_index], &fits);
            let ghost before = lines_view(lines@);
            lines.set(last_index, last);
            proof {
                assert(lines_view(lines@) =~= before.update(last_index as int, last@));
                assert forall|i: int| 0 <= i < lines_view(lines@).len() implies description_line(
                    fits,
                    #[trigger] lines_view(lines@)[i],
                ) by {
                    if i != last_index {
                        assert(lines_view(lines@)[i] == before[i]);
                    }
                }
            }
        } else {
            proof {
                reveal_strlit("...");
                assert("..."@ == seq!['.', '.', '.']);
                lemma_push_good(fits, lines_view(lines@), "..."@);
            }
            push_string(&mut lines, string_from("..."));
            assert(lines_view(lines@) =~= seq!["..."@]);
        }
    }
    let ghost ls = lines_view(lines@);
    assert(ls == wrap_lines_spec(fits, input@));
    let res = join_lines(lines.as_slice());
    proof {
        lemma_drop_cr_text(input@);
        lemma_paragraphs_text(drop_cr(input@));
        lemma_trim_empty(input@);
        if ls.len() > 0 {
            lemma_join_first(ls);
            assert(description_line(fits, ls[0]));
            assert(ls[0][0] != '\n');
        } else {
            assert(res@ == Seq::<char>::empty());
        }
    }
    res
}

} // verus!
