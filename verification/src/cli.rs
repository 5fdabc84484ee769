use vstd::prelude::*;
use vstd::utf8::{decode_utf8, encode_utf8, is_char_boundary};

use crate::numbers::{decimal, decimal_value_at_most, parse_usize, push_decimal};
use crate::text::contains;
use crate::text::{
    chars_eq, push_char, push_chars, push_str, rfind_char, rfind_char_in, starts_with,
    starts_with_chars, str_chars, string_from,
};

verus! {

pub open spec fn strings_view(v: Seq<String>) -> Seq<Seq<char>> {
    v.map_values(|s: String| s@)
}

fn str_eq(s: &String, lit: &str) -> (res: bool)
    ensures
        res == (s@ == lit@),
{
    let a = str_chars(s.as_str());
    let b = str_chars(lit);
    chars_eq(a.as_slice(), b.as_slice())
}

fn clone_string(s: &String) -> (res: String)
    ensures
        res@ == s@,
{
    s.clone()
}

// ---------------------------------------------------------------------------
// Command line.

/// The options of a download: where to save it, whether to print response
/// heads, whether to play it, whether the player loops, the player window's
/// title, and the words that name what to fetch.
pub struct CliOptions {
    pub output: Option<String>,
    pub print_headers: bool,
    pub play: bool,
    pub loop_playback: bool,
    pub title: Option<String>,
    pub positional: Vec<String>,
}

/// What the command line asks for: the usage text; a download; a search
/// whose hits are written as TSV to `path`; or the thumbnails a manifest
/// lists.
pub enum CliCommand {
    Usage,
    Run(CliOptions),
    SearchResults { path: String, terms: Vec<String> },
    ThumbnailBatch { manifest: String },
}

/// The options read so far from a command line.
pub struct CliView {
    pub output: Option<Seq<char>>,
    pub print_headers: bool,
    pub play: bool,
    pub loop_playback: bool,
    pub title: Option<Seq<char>>,
    pub search_results: Option<Seq<char>>,
    pub thumbnail_batch: Option<Seq<char>>,
    pub positional: Seq<Seq<char>>,
}

/// What a command line asks for, as text.
pub enum CliCommandView {
    Usage,
    Run {
        output: Option<Seq<char>>,
        print_headers: bool,
        play: bool,
        loop_playback: bool,
        title: Option<Seq<char>>,
        positional: Seq<Seq<char>>,
    },
    SearchResults { path: Seq<char>, terms: Seq<Seq<char>> },
    ThumbnailBatch { manifest: Seq<char> },
}

/// No option read yet: play, do not loop, no title, no output file.
pub open spec fn initial_cli() -> CliView {
    CliView {
        output: None,
        print_headers: false,
        play: true,
        loop_playback: false,
        title: None,
        search_results: None,
        thumbnail_batch: None,
        positional: seq![],
    }
}

/// Reading the arguments from index `i` on, with the options read so far;
/// `Ok(None)` asks for the usage text. An option that takes a value and is
/// the last argument is refused.
pub open spec fn cli_scan(args: Seq<Seq<char>>, i: int, st: CliView) -> Result<Option<CliView>, Seq<char>>
    decreases args.len() - i,
{
    if i < 0 || i >= args.len() {
        Ok(Some(st))
    } else {
        let a = args[i];
        if a == "-o"@ || a == "--output"@ {
            if i + 1 >= args.len() {
                Err("--output requires a path"@)
            } else {
                cli_scan(args, i + 2, CliView { output: Some(args[i + 1]), ..st })
            }
        } else if a == "--title"@ {
            if i + 1 >= args.len() {
                Err("--title requires a title"@)
            } else {
                cli_scan(args, i + 2, CliView { title: Some(args[i + 1]), ..st })
            }
        } else if a == "--search-results"@ {
            if i + 1 >= args.len() {
                Err("--search-results requires a path"@)
            } else {
                cli_scan(args, i + 2, CliView { search_results: Some(args[i + 1]), ..st })
            }
        } else if a == "--thumbnail-batch"@ {
            if i + 1 >= args.len() {
                Err("--thumbnail-batch requires a path"@)
            } else {
                cli_scan(args, i + 2, CliView { thumbnail_batch: Some(args[i + 1]), ..st })
            }
        } else if a == "--headers"@ {
            cli_scan(args, i + 1, CliView { print_headers: true, ..st })
        } else if a == "--no-play"@ {
            cli_scan(args, i + 1, CliView { play: false, ..st })
        } else if a == "--loop"@ {
            cli_scan(args, i + 1, CliView { loop_playback: true, ..st })
        } else if a == "-h"@ || a == "--help"@ {
            Ok(None)
        } else {
            cli_scan(args, i + 1, CliView { positional: st.positional.push(a), ..st })
        }
    }
}

/// The command the options read from a whole command line give: a thumbnail
/// manifest first, then a search whose hits go to a file, else a download.
pub open spec fn cli_command(v: CliView) -> CliCommandView {
    match v.thumbnail_batch {
        Some(m) => CliCommandView::ThumbnailBatch { manifest: m },
        None => match v.search_results {
            Some(p) => CliCommandView::SearchResults { path: p, terms: v.positional },
            None => CliCommandView::Run {
                output: v.output,
                print_headers: v.print_headers,
                play: v.play,
                loop_playback: v.loop_playback,
                title: v.title,
                positional: v.positional,
            },
        },
    }
}

/// What the command line `args` (program name first) asks for.
pub open spec fn cli_spec(args: Seq<Seq<char>>) -> Result<CliCommandView, Seq<char>> {
    if args.len() < 2 {
        Ok(CliCommandView::Usage)
    } else {
        match cli_scan(args, 1, initial_cli()) {
            Err(e) => Err(e),
            Ok(None) => Ok(CliCommandView::Usage),
            Ok(Some(v)) => Ok(cli_command(v)),
        }
    }
}

pub open spec fn opt_string_view(o: Option<String>) -> Option<Seq<char>> {
    match o {
        Some(s) => Some(s@),
        None => None,
    }
}

pub open spec fn cli_command_view(c: CliCommand) -> CliCommandView {
    match c {
        CliCommand::Usage => CliCommandView::Usage,
        CliCommand::Run(o) => CliCommandView::Run {
            output: opt_string_view(o.output),
            print_headers: o.print_headers,
            play: o.play,
            loop_playback: o.loop_playback,
            title: opt_string_view(o.title),
            positional: strings_view(o.positional@),
        },
        CliCommand::SearchResults { path, terms } => CliCommandView::SearchResults {
            path: path@,
            terms: strings_view(terms@),
        },
        CliCommand::ThumbnailBatch { manifest } => CliCommandView::ThumbnailBatch {
            manifest: manifest@,
        },
    }
}

pub open spec fn cli_result_view(r: Result<CliCommand, String>) -> Result<CliCommandView, Seq<char>> {
    match r {
        Ok(c) => Ok(cli_command_view(c)),
        Err(e) => Err(e@),
    }
}

/// The value after the option at `i`, or the error naming what is missing.
fn option_value(args: &[String], i: usize, missing: &str) -> (res: Result<String, String>)
    requires
        i < args@.len(),
    ensures
        i + 1 < args@.len() ==> (res matches Ok(v) && v@ == args@[i + 1]@),
        i + 1 >= args@.len() ==> (res matches Err(e) && e@ == missing@),
{
    if args.len() - i <= 1 {
        return Err(string_from(missing));
    }
    Ok(clone_string(&args[i + 1]))
}

/// What the command line `args` (program name first) asks for.
pub fn parse_cli_args(args: &[String]) -> (res: Result<CliCommand, String>)
    ensures
        cli_result_view(res) == cli_spec(strings_view(args@)),
{
    if args.len() < 2 {
        return Ok(CliCommand::Usage);
    }
    let ghost av = strings_view(args@);
    let mut output: Option<String> = None;
    let mut print_headers = false;
    let mut play = true;
    let mut loop_playback = false;
    let mut title: Option<String> = None;
    let mut search_results: Option<String> = None;
    let mut thumbnail_batch: Option<String> = None;
    let mut positional: Vec<String> = Vec::new();
    let mut i: usize = 1;
    assert(strings_view(positional@) =~= Seq::<Seq<char>>::empty());
    while i < args.len()
        invariant
            1 <= i <= args.len() + 1,
            av == strings_view(args@),
            av.len() >= 2,
            cli_spec(av) == match cli_scan(
                av,
                i as int,
                CliView {
                    output: opt_string_view(output),
                    print_headers,
                    play,
                    loop_playback,
                    title: opt_string_view(title),
                    search_results: opt_string_view(search_results),
                    thumbnail_batch: opt_string_view(thumbnail_batch),
                    positional: strings_view(positional@),
                },
            ) {
                Err(e) => Err(e),
                Ok(None) => Ok(CliCommandView::Usage),
                Ok(Some(v)) => Ok(cli_command(v)),
            },
        decreases args.len() + 1 - i,
    {
        let a = &args[i];
        assert(av[i as int] == a@);
        if i + 1 < args.len() {
            assert(av[i + 1] == args@[i + 1]@);
        }
        if str_eq(a, "-o") || str_eq(a, "--output") {
            output = Some(option_value(args, i, "--output requires a path")?);
            i += 2;
        } else if str_eq(a, "--title") {
            title = Some(option_value(args, i, "--title requires a title")?);
            i += 2;
        } else if str_eq(a, "--search-results") {
            search_results = Some(option_value(args, i, "--search-results requires a path")?);
            i += 2;
        } else if str_eq(a, "--thumbnail-batch") {
            thumbnail_batch = Some(option_value(args, i, "--thumbnail-batch requires a path")?);
            i += 2;
        } else if str_eq(a, "--headers") {
            print_headers = true;
            i += 1;
        } else if str_eq(a, "--no-play") {
            play = false;
            i += 1;
        } else if str_eq(a, "--loop") {
            loop_playback = true;
            i += 1;
        } else if str_eq(a, "-h") || str_eq(a, "--help") {
            return Ok(CliCommand::Usage);
        } else {
            let ghost before = strings_view(positional@);
            positional.push(clone_string(a));
            assert(strings_view(positional@) =~= before.push(a@));
            i += 1;
        }
    }
    match thumbnail_batch {
        Some(manifest) => Ok(CliCommand::ThumbnailBatch { manifest }),
        None => match search_results {
            Some(path) => Ok(CliCommand::SearchResults { path, terms: positional }),
            None => Ok(
                CliCommand::Run(
                    CliOptions { output, print_headers, play, loop_playback, title, positional },
                ),
            ),
        },
    }
}

/// Words joined by single spaces (a space only once the text so far is not
/// empty).
pub open spec fn join_terms(terms: Seq<Seq<char>>) -> Seq<char>
    decreases terms.len(),
{
    if terms.len() == 0 {
        seq![]
    } else {
        let prev = join_terms(terms.drop_last());
        if prev.len() > 0 {
            prev + seq![' '] + terms.last()
        } else {
            terms.last()
        }
    }
}

pub open spec fn string_result_view(r: Result<String, String>) -> Result<Seq<char>, Seq<char>> {
    match r {
        Ok(s) => Ok(s@),
        Err(e) => Err(e@),
    }
}

/// The search words joined by spaces.
pub fn join_query_terms(terms: &[String]) -> (res: Result<String, String>)
    ensures
        string_result_view(res) == (if terms@.len() == 0 {
            Err("missing search query"@)
        } else {
            Ok(join_terms(strings_view(terms@)))
        }),
{
    if terms.len() == 0 {
        return Err(string_from("missing search query"));
    }
    let ghost tv = strings_view(terms@);
    let mut out = String::new();
    let mut i: usize = 0;
    while i < terms.len()
        invariant
            i <= terms.len(),
            tv == strings_view(terms@),
            out@ == join_terms(tv.take(i as int)),
        decreases terms.len() - i,
    {
        assert(tv.take(i + 1).drop_last() == tv.take(i as int));
        assert(tv.take(i + 1).last() == terms@[i as int]@);
        let term = &terms[i];
        if !crate::tsv::string_is_empty(&out) {
            push_char(&mut out, ' ');
        }
        push_str(&mut out, term.as_str());
        proof {
            if join_terms(tv.take(i as int)).len() == 0 {
                assert(Seq::<char>::empty() + term@ == term@);
            }
        }
        i += 1;
    }
    assert(tv.take(terms.len() as int) == tv);
    Ok(out)
}

/// What to fetch, from the positional words: the words after `search`, or all
/// of them, joined by spaces.
pub open spec fn input_spec(positional: Seq<Seq<char>>) -> Result<Seq<char>, Seq<char>> {
    if positional.len() == 0 {
        Err("missing URL or search query"@)
    } else if positional[0] == "search"@ {
        if positional.len() == 1 {
            Err("missing search query"@)
        } else {
            Ok(join_terms(positional.skip(1)))
        }
    } else {
        Ok(join_terms(positional))
    }
}

/// What to fetch, from the positional words of the command line.
pub fn parse_input_or_search_query(positional: &[String]) -> (res: Result<String, String>)
    ensures
        string_result_view(res) == input_spec(strings_view(positional@)),
{
    if positional.len() == 0 {
        return Err(string_from("missing URL or search query"));
    }
    assert(strings_view(positional@)[0] == positional@[0]@);
    if str_eq(&positional[0], "search") {
        let rest = &positional[1..positional.len()];
        assert(strings_view(rest@) =~= strings_view(positional@).skip(1));
        return join_query_terms(rest);
    }
    join_query_terms(positional)
}

// ---------------------------------------------------------------------------
// Paths and messages.

/// Whether a download failed because the player closed its end of the stream.
pub fn is_media_stream_closed_by_player(error: &str) -> (res: bool)
    ensures
        res == (starts_with(error@, "media stream write failed"@) || starts_with(
            error@,
            "media stream short write"@,
        )),
{
    let e = str_chars(error);
    let a = str_chars("media stream write failed");
    let b = str_chars("media stream short write");
    starts_with_chars(e.as_slice(), a.as_slice()) || starts_with_chars(e.as_slice(), b.as_slice())
}

/// The last component of a path: the text after its last `/`.
pub open spec fn basename_spec(path: Seq<char>) -> Seq<char> {
    match rfind_char(path, '/') {
        Some(i) => path.skip(i + 1),
        None => path,
    }
}

/// The last component of `path`.
pub fn path_basename(path: &str) -> (res: String)
    ensures
        res@ == basename_spec(path@),
{
    let chars = str_chars(path);
    let _n = chars.len();
    match rfind_char_in(chars.as_slice(), '/') {
        Some(i) => {
            let tail = &chars.as_slice()[i + 1..chars.len()];
            assert(tail@ == chars@.skip(i + 1));
            crate::text::chars_to_string(tail)
        },
        None => string_from(path),
    }
}

/// `/tmp/scarlet-yt-<pid>-<kind>-<basename>` and the given suffix.
pub open spec fn stream_path_spec(path: Seq<char>, kind: Seq<char>, pid: nat, suffix: Seq<char>) -> Seq<char> {
    "/tmp/scarlet-yt-"@ + decimal(pid) + seq!['-'] + kind + seq!['-'] + basename_spec(path) + suffix
}

fn stream_path(path: &str, kind: &str, pid: usize, suffix: &str) -> (res: String)
    ensures
        res@ == stream_path_spec(path@, kind@, pid as nat, suffix@),
{
    let mut out = string_from("/tmp/scarlet-yt-");
    push_decimal(&mut out, pid);
    push_char(&mut out, '-');
    push_str(&mut out, kind);
    push_char(&mut out, '-');
    let base = path_basename(path);
    push_str(&mut out, base.as_str());
    push_str(&mut out, suffix);
    out
}

/// The local socket a stream of `kind` for `path` goes through, in process `pid`.
pub fn stream_socket_path(path: &str, kind: &str, pid: usize) -> (res: String)
    ensures
        res@ == stream_path_spec(path@, kind@, pid as nat, ".sock"@),
{
    stream_path(path, kind, pid, ".sock")
}

/// The temporary file a stream of `kind` for `path` is saved to, in process `pid`.
pub fn stream_file_path(path: &str, kind: &str, pid: usize) -> (res: String)
    ensures
        res@ == stream_path_spec(path@, kind@, pid as nat, seq![]),
{
    let r = stream_path(path, kind, pid, "");
    proof {
        reveal_strlit("");
    }
    r
}

/// The audio file that goes with a video file: its extension replaced by `.m4a`
/// (added when it has none).
pub open spec fn audio_output_spec(video_output: Seq<char>) -> Seq<char> {
    match rfind_char(video_output, '.') {
        Some(i) => video_output.take(i) + ".m4a"@,
        None => video_output + ".m4a"@,
    }
}

/// The audio file that goes with the video file `video_output`.
pub fn derive_audio_output_path(video_output: &str) -> (res: String)
    ensures
        res@ == audio_output_spec(video_output@),
{
    let chars = str_chars(video_output);
    let mut out = String::new();
    match rfind_char_in(chars.as_slice(), '.') {
        Some(dot) => {
            push_chars(&mut out, &chars.as_slice()[0..dot]);
            assert(chars@.subrange(0, dot as int) == chars@.take(dot as int));
        },
        None => {
            push_chars(&mut out, chars.as_slice());
        },
    }
    push_str(&mut out, ".m4a");
    out
}

/// The default file a YouTube video is saved to.
pub fn youtube_output_path(video_id: &str) -> (res: String)
    ensures
        res@ == "/root/media/youtube-"@ + video_id@ + ".mp4"@,
{
    let mut out = string_from("/root/media/youtube-");
    push_str(&mut out, video_id);
    push_str(&mut out, ".mp4");
    out
}

/// The longest path shown in full, in bytes.
pub const DISPLAY_PATH_MAX: usize = 160;

/// A path as shown in the log: whole up to 160 bytes, else its first 160
/// bytes and `...`.
pub open spec fn display_path_spec(path: Seq<char>) -> Seq<char> {
    let b = encode_utf8(path);
    if b.len() <= DISPLAY_PATH_MAX {
        path
    } else {
        decode_utf8(b.take(DISPLAY_PATH_MAX as int)) + "..."@
    }
}

/// The path as shown in the log.
pub fn display_path(path: &str) -> (res: String)
    requires
        encode_utf8(path@).len() > DISPLAY_PATH_MAX ==> is_char_boundary(
            encode_utf8(path@),
            DISPLAY_PATH_MAX as int,
        ),
    ensures
        res@ == display_path_spec(path@),
{
    let bytes = path.as_bytes();
    if bytes.len() <= DISPLAY_PATH_MAX {
        return string_from(path);
    }
    let (head, _tail) = path.split_at(DISPLAY_PATH_MAX);
    proof {
        vstd::utf8::encode_utf8_decode_utf8(head@);
    }
    let mut out = string_from(head);
    push_str(&mut out, "...");
    out
}

/// Which search hit the answer to the selection prompt picks (its index), or
/// why none: there is nothing to pick from no hits; otherwise empty picks
/// the first, `q` or `Q` cancels, else a number from 1 to the number of hits
/// shown (at most ten).
pub open spec fn selection_spec(choice: Seq<char>, count: nat) -> Result<nat, Seq<char>> {
    if count == 0 {
        Err(no_results_message())
    } else if choice.len() == 0 {
        Ok(0)
    } else if choice == "q"@ || choice == "Q"@ {
        Err("selection canceled"@)
    } else {
        match decimal_value_at_most(choice, usize::MAX as int) {
            None => Err("invalid selection"@),
            Some(index) => if index == 0 || index > (if count < 10 {
                count
            } else {
                10
            }) {
                Err("selection out of range"@)
            } else {
                Ok((index - 1) as nat)
            },
        }
    }
}

pub open spec fn index_result_view(r: Result<usize, String>) -> Result<nat, Seq<char>> {
    match r {
        Ok(i) => Ok(i as nat),
        Err(e) => Err(e@),
    }
}

pub open spec fn no_results_message() -> Seq<char> {
    "no YouTube search results found"@
}

/// Whether a search gave hits to pick from: the error that ends the
/// selection when it gave none.
pub fn require_search_results(count: usize) -> (res: Result<(), String>)
    ensures
        count == 0 ==> (res matches Err(e) && e@ == no_results_message()),
        count > 0 ==> res is Ok,
{
    if count == 0 {
        return Err(string_from("no YouTube search results found"));
    }
    Ok(())
}

/// Which of `count` search hits the answer `choice` picks.
pub fn selection_index(choice: &str, count: usize) -> (res: Result<usize, String>)
    ensures
        index_result_view(res) == selection_spec(choice@, count as nat),
{
    if count == 0 {
        return Err(string_from("no YouTube search results found"));
    }
    let c = str_chars(choice);
    if c.len() == 0 {
        return Ok(0);
    }
    let q = str_chars("q");
    let upper_q = str_chars("Q");
    if chars_eq(c.as_slice(), q.as_slice()) || chars_eq(c.as_slice(), upper_q.as_slice()) {
        return Err(string_from("selection canceled"));
    }
    let index = match parse_usize(choice) {
        Some(i) => i,
        None => {
            return Err(string_from("invalid selection"));
        },
    };
    let shown = if count < 10 {
        count
    } else {
        10
    };
    if index == 0 || index > shown {
        return Err(string_from("selection out of range"));
    }
    Ok(index - 1)
}

/// The decimal form of a signed number.
pub open spec fn signed_decimal(n: int) -> Seq<char> {
    if n < 0 {
        seq!['-'] + decimal((-n) as nat)
    } else {
        decimal(n as nat)
    }
}

/// How a stream-and-play run ends, from the download's result and the
/// player's exit status: a download cut off because a player that exited
/// cleanly closed the stream is a success.
pub open spec fn stream_outcome_spec(download: Result<(), Seq<char>>, status: i32) -> Result<(), Seq<char>> {
    match download {
        Err(e) => if status == 0 && (starts_with(e, "media stream write failed"@) || starts_with(
            e,
            "media stream short write"@,
        )) {
            Ok(())
        } else {
            Err(e)
        },
        Ok(()) => if status != 0 {
            Err("video_player exited with status "@ + signed_decimal(status as int))
        } else {
            Ok(())
        },
    }
}

pub open spec fn unit_result_view(r: Result<(), String>) -> Result<(), Seq<char>> {
    match r {
        Ok(()) => Ok(()),
        Err(e) => Err(e@),
    }
}

/// How a stream-and-play run ends.
pub fn media_stream_outcome(download: Result<(), String>, status: i32) -> (res: Result<(), String>)
    ensures
        unit_result_view(res) == stream_outcome_spec(unit_result_view(download), status),
{
    match download {
        Err(error) => {
            let e = error.as_str();
            assert(e@ == error@);
            let closed = is_media_stream_closed_by_player(e);
            if status == 0 && closed {
                Ok(())
            } else {
                Err(error)
            }
        },
        Ok(()) => {
            if status != 0 {
                let mut message = string_from("video_player exited with status ");
                if status < 0 {
                    push_char(&mut message, '-');
                    let magnitude: usize = if status == i32::MIN {
                        2147483648
                    } else {
                        (-status) as usize
                    };
                    push_decimal(&mut message, magnitude);
                    assert(message@ =~= "video_player exited with status "@ + signed_decimal(
                        status as int,
                    ));
                } else {
                    push_decimal(&mut message, status as usize);
                }
                Err(message)
            } else {
                Ok(())
            }
        },
    }
}

// ---------------------------------------------------------------------------
// What a run does.

/// Whether the input is a search query rather than a URL: it names neither
/// a YouTube address nor a scheme.
pub fn needs_search(input: &str) -> (res: bool)
    ensures
        res == !(contains(input@, "youtube.com/"@) || contains(input@, "youtu.be/"@) || contains(
            input@,
            "://"@,
        )),
{
    !crate::url::is_youtube_url(input) && !crate::url::looks_like_url(input)
}

/// Where the download is saved: the path given, else the default file of
/// the YouTube video, else `/tmp/yt.mp4`.
pub open spec fn output_path_spec(output: Option<Seq<char>>, youtube_id: Option<Seq<char>>) -> Seq<char> {
    match output {
        Some(o) => o,
        None => match youtube_id {
            Some(id) => "/root/media/youtube-"@ + id + ".mp4"@,
            None => "/tmp/yt.mp4"@,
        },
    }
}

/// Where the download is saved.
pub fn choose_output_path(output: Option<String>, youtube_id: Option<&str>) -> (res: String)
    ensures
        res@ == output_path_spec(
            opt_string_view(output),
            match youtube_id {
                Some(id) => Some(id@),
                None => None,
            },
        ),
{
    match output {
        Some(o) => o,
        None => match youtube_id {
            Some(id) => youtube_output_path(id),
            None => string_from("/tmp/yt.mp4"),
        },
    }
}

/// How the media is fetched.
#[derive(PartialEq, Eq, Structural, Debug, Clone, Copy)]
pub enum DownloadMode {
    /// Fetch the audio, then stream the video to the player as it comes.
    StreamAndPlay,
    /// Fetch video and audio side by side into files.
    FetchPair,
    /// Fetch the one stream into a file.
    FetchOne,
}

/// How the media is fetched: a separate audio stream is streamed to the
/// player when playing, else both go to files.
pub open spec fn download_mode_spec(play: bool, has_audio: bool) -> DownloadMode {
    if has_audio {
        if play {
            DownloadMode::StreamAndPlay
        } else {
            DownloadMode::FetchPair
        }
    } else {
        DownloadMode::FetchOne
    }
}

/// How the media is fetched.
pub fn download_mode(play: bool, has_audio: bool) -> (res: DownloadMode)
    ensures
        res == download_mode_spec(play, has_audio),
{
    if has_audio {
        if play {
            DownloadMode::StreamAndPlay
        } else {
            DownloadMode::FetchPair
        }
    } else {
        DownloadMode::FetchOne
    }
}

fn push_arg(args: &mut Vec<String>, arg: &str)
    ensures
        strings_view(final(args)@) == strings_view(old(args)@).push(arg@),
{
    let ghost before = strings_view(args@);
    args.push(string_from(arg));
    assert(strings_view(args@) =~= before.push(arg@));
}

/// The player options a run asks for: `--loop`, and `--title` with the
/// window title.
pub open spec fn player_options_spec(title: Option<Seq<char>>, loop_playback: bool) -> Seq<Seq<char>> {
    (if loop_playback {
        seq!["--loop"@]
    } else {
        seq![]
    }) + match title {
        Some(t) => seq!["--title"@, t],
        None => seq![],
    }
}

pub open spec fn opt_str_view(o: Option<&str>) -> Option<Seq<char>> {
    match o {
        Some(t) => Some(t@),
        None => None,
    }
}

fn push_player_options(args: &mut Vec<String>, title: Option<&str>, loop_playback: bool)
    ensures
        strings_view(final(args)@) == strings_view(old(args)@) + player_options_spec(
            opt_str_view(title),
            loop_playback,
        ),
{
    let ghost before = strings_view(args@);
    if loop_playback {
        push_arg(args, "--loop");
    }
    if let Some(t) = title {
        push_arg(args, "--title");
        push_arg(args, t);
    }
    assert(strings_view(args@) =~= before + player_options_spec(opt_str_view(title), loop_playback));
}

/// The player's command line for the downloaded files.
pub open spec fn player_args_spec(
    output: Seq<char>,
    audio: Option<Seq<char>>,
    title: Option<Seq<char>>,
    loop_playback: bool,
) -> Seq<Seq<char>> {
    seq!["video_player"@, "--hwdc"@] + player_options_spec(title, loop_playback) + match audio {
        Some(a) => seq![output, "--audio"@, a],
        None => seq![output],
    }
}

/// The player's command line for the downloaded files.
pub fn player_args(output: &str, audio: Option<&str>, title: Option<&str>, loop_playback: bool) -> (res:
    Vec<String>)
    ensures
        strings_view(res@) == player_args_spec(
            output@,
            opt_str_view(audio),
            opt_str_view(title),
            loop_playback,
        ),
{
    let mut args: Vec<String> = Vec::new();
    assert(strings_view(args@) =~= Seq::<Seq<char>>::empty());
    push_arg(&mut args, "video_player");
    push_arg(&mut args, "--hwdc");
    push_player_options(&mut args, title, loop_playback);
    push_arg(&mut args, output);
    if let Some(a) = audio {
        push_arg(&mut args, "--audio");
        push_arg(&mut args, a);
    }
    assert(strings_view(args@) =~= player_args_spec(
        output@,
        opt_str_view(audio),
        opt_str_view(title),
        loop_playback,
    ));
    args
}

/// The player's command line when the video comes through a socket.
pub open spec fn stream_player_args_spec(
    socket: Seq<char>,
    audio: Seq<char>,
    video_output: Seq<char>,
    title: Option<Seq<char>>,
    loop_playback: bool,
) -> Seq<Seq<char>> {
    seq!["video_player"@, "--hwdc"@, "--stream"@] + player_options_spec(title, loop_playback) + seq![
        "--stream-socket"@,
        socket,
        "--audio"@,
        audio,
        video_output,
    ]
}

/// The player's command line when the video comes through a socket.
pub fn stream_player_args(
    socket: &str,
    audio: &str,
    video_output: &str,
    title: Option<&str>,
    loop_playback: bool,
) -> (res: Vec<String>)
    ensures
        strings_view(res@) == stream_player_args_spec(
            socket@,
            audio@,
            video_output@,
            opt_str_view(title),
            loop_playback,
        ),
{
    let mut args: Vec<String> = Vec::new();
    assert(strings_view(args@) =~= Seq::<Seq<char>>::empty());
    push_arg(&mut args, "video_player");
    push_arg(&mut args, "--hwdc");
    push_arg(&mut args, "--stream");
    push_player_options(&mut args, title, loop_playback);
    push_arg(&mut args, "--stream-socket");
    push_arg(&mut args, socket);
    push_arg(&mut args, "--audio");
    push_arg(&mut args, audio);
    push_arg(&mut args, video_output);
    assert(strings_view(args@) =~= stream_player_args_spec(
        socket@,
        audio@,
        video_output@,
        opt_str_view(title),
        loop_playback,
    ));
    args
}

/// One line of the list of search hits: its number, title, duration and
/// channel, with placeholders for what is unknown.
pub open spec fn search_line_spec(
    index: nat,
    title: Seq<char>,
    duration: Option<Seq<char>>,
    channel: Option<Seq<char>>,
) -> Seq<char> {
    "["@ + decimal(index + 1) + "] "@ + title + " ["@ + text_or_default(duration, "--:--"@) + "] - "@
        + text_or_default(channel, "unknown"@)
}

pub open spec fn text_or_default(o: Option<Seq<char>>, default: Seq<char>) -> Seq<char> {
    match o {
        Some(t) => t,
        None => default,
    }
}

fn push_opt_or(out: &mut String, o: &Option<String>, default: &str)
    ensures
        final(out)@ == old(out)@ + text_or_default(opt_string_view(*o), default@),
{
    match o {
        Some(t) => push_str(out, t.as_str()),
        None => push_str(out, default),
    }
}

/// The line that lists search hit `index` (counted from zero).
pub fn search_result_line(index: usize, result: &crate::search::YoutubeSearchResult) -> (res: String)
    requires
        index < usize::MAX,
    ensures
        res@ == search_line_spec(
            index as nat,
            result.title@,
            opt_string_view(result.duration),
            opt_string_view(result.channel),
        ),
{
    let mut out = string_from("[");
    push_decimal(&mut out, index + 1);
    push_str(&mut out, "] ");
    push_str(&mut out, result.title.as_str());
    push_str(&mut out, " [");
    push_opt_or(&mut out, &result.duration, "--:--");
    push_str(&mut out, "] - ");
    push_opt_or(&mut out, &result.channel, "unknown");
    out
}

/// The characters whose codes are the bytes, one for one.
pub open spec fn latin1(bytes: Seq<u8>) -> Seq<char> {
    bytes.map_values(|b: u8| b as char)
}

/// The index of the first line break (`\n` or `\r`) in `bytes`, if any.
pub open spec fn first_line_break(bytes: Seq<u8>) -> Option<nat>
    decreases bytes.len(),
{
    if bytes.len() == 0 {
        None
    } else if bytes[0] == 10 || bytes[0] == 13 {
        Some(0)
    } else {
        match first_line_break(bytes.drop_first()) {
            Some(i) => Some(i + 1),
            None => None,
        }
    }
}

/// Takes in bytes read for the answer to a prompt: each byte up to the first
/// line break is added to `line` as the character of that code; at a line
/// break the answer, trimmed, is ready.
pub fn feed_prompt_line(line: &mut String, bytes: &[u8]) -> (res: Option<String>)
    ensures
        match first_line_break(bytes@) {
            Some(k) => res matches Some(answer) && answer@ == crate::text::trim(
                old(line)@ + latin1(bytes@.take(k as int)),
            ) && final(line)@ == old(line)@ + latin1(bytes@.take(k as int)),
            None => res is None && final(line)@ == old(line)@ + latin1(bytes@),
        },
{
    let ghost start = line@;
    assert(start == old(line)@);
    let mut i: usize = 0;
    while i < bytes.len()
        invariant
            i <= bytes.len(),
            start == old(line)@,
            line@ == start + latin1(bytes@.take(i as int)),
            forall|j: int| 0 <= j < i ==> bytes@[j] != 10 && bytes@[j] != 13,
        decreases bytes.len() - i,
    {
        let b = bytes[i];
        if b == 10 || b == 13 {
            proof {
                lemma_first_line_break_at(bytes@, i as nat);
            }
            let text = line.as_str();
            assert(text@ == line@);
            let chars = str_chars(text);
            let trimmed = crate::text::trim_chars(chars.as_slice());
            let answer = crate::text::chars_to_string(trimmed.as_slice());
            assert(answer@ == crate::text::trim(start + latin1(bytes@.take(i as int))));
            return Some(answer);
        }
        push_char(line, b as char);
        assert(latin1(bytes@.take(i + 1)) =~= latin1(bytes@.take(i as int)).push(b as char));
        i += 1;
    }
    proof {
        lemma_no_line_break(bytes@);
        assert(bytes@.take(bytes.len() as int) == bytes@);
    }
    None
}

proof fn lemma_first_line_break_at(bytes: Seq<u8>, i: nat)
    requires
        i < bytes.len(),
        bytes[i as int] == 10 || bytes[i as int] == 13,
        forall|j: int| 0 <= j < i ==> bytes[j] != 10 && bytes[j] != 13,
    ensures
        first_line_break(bytes) == Some(i),
    decreases i,
{
    if i > 0 {
        lemma_first_line_break_at(bytes.drop_first(), (i - 1) as nat);
    }
}

proof fn lemma_no_line_break(bytes: Seq<u8>)
    requires
        forall|j: int| 0 <= j < bytes.len() ==> bytes[j] != 10 && bytes[j] != 13,
    ensures
        first_line_break(bytes) is None,
    decreases bytes.len(),
{
    if bytes.len() > 0 {
        lemma_no_line_break(bytes.drop_first());
    }
}

/// How a download of a pair of streams ends, from what each side reported
/// (`None` when it never finished): the video's failure first, then the
/// audio's.
pub open spec fn pair_outcome_spec(
    video: Option<Result<(), Seq<char>>>,
    audio: Option<Result<(), Seq<char>>>,
) -> Result<(), Seq<char>> {
    match video {
        None => Err("video download did not finish"@),
        Some(Err(e)) => Err(e),
        Some(Ok(())) => match audio {
            None => Err("audio download did not finish"@),
            Some(Err(e)) => Err(e),
            Some(Ok(())) => Ok(()),
        },
    }
}

pub open spec fn opt_unit_result_view(r: Option<Result<(), String>>) -> Option<Result<(), Seq<char>>> {
    match r {
        Some(x) => Some(unit_result_view(x)),
        None => None,
    }
}

/// How a download of a pair of streams ends.
pub fn pair_download_outcome(video: Option<Result<(), String>>, audio: Option<Result<(), String>>) -> (res:
    Result<(), String>)
    ensures
        unit_result_view(res) == pair_outcome_spec(opt_unit_result_view(video), opt_unit_result_view(audio)),
{
    match video {
        None => Err(string_from("video download did not finish")),
        Some(Err(e)) => Err(e),
        Some(Ok(())) => match audio {
            None => Err(string_from("audio download did not finish")),
            Some(Err(e)) => Err(e),
            Some(Ok(())) => Ok(()),
        },
    }
}

/// What one side of a pair download reports: its download's result, unless
/// it succeeded and creating its completion marker then failed.
pub fn download_with_marker(download: Result<(), String>, marker: Option<Result<(), String>>) -> (res:
    Result<(), String>)
    ensures
        unit_result_view(res) == match (unit_result_view(download), opt_unit_result_view(marker)) {
            (Ok(()), Some(Err(e))) => Err(e),
            (d, _) => d,
        },
{
    match download {
        Ok(()) => match marker {
            Some(Err(e)) => Err(e),
            _ => Ok(()),
        },
        Err(e) => Err(e),
    }
}

// ---------------------------------------------------------------------------
// Thumbnail manifests.

/// One line of a thumbnail manifest: a URL, a tab, and the file to save it
/// to, neither empty.
pub open spec fn manifest_entry(line: Seq<char>) -> Option<(Seq<char>, Seq<char>)> {
    match crate::text::index_of(line, '\t') {
        Some(i) => if i > 0 && i + 1 < line.len() {
            Some((line.take(i), line.skip(i + 1)))
        } else {
            None
        },
        None => None,
    }
}

/// The downloads the manifest lines `ls` ask for; empty lines are skipped,
/// and the first line that is not an entry is refused.
pub open spec fn manifest_from(ls: Seq<Seq<char>>) -> Result<Seq<(Seq<char>, Seq<char>)>, Seq<char>>
    decreases ls.len(),
{
    if ls.len() == 0 {
        Ok(seq![])
    } else {
        match manifest_from(ls.drop_last()) {
            Err(e) => Err(e),
            Ok(acc) => {
                let l = ls.last();
                if l.len() == 0 {
                    Ok(acc)
                } else {
                    match manifest_entry(l) {
                        Some(e) => Ok(acc.push(e)),
                        None => Err("invalid thumbnail manifest line"@),
                    }
                }
            },
        }
    }
}

pub open spec fn entries_view(v: Seq<(String, String)>) -> Seq<(Seq<char>, Seq<char>)> {
    v.map_values(|e: (String, String)| (e.0@, e.1@))
}

/// The downloads a thumbnail manifest asks for, each a URL and the file to
/// save it to.
pub fn parse_thumbnail_manifest(text: &str) -> (res: Result<Vec<(String, String)>, String>)
    ensures
        match res {
            Ok(v) => manifest_from(crate::text::lines(text@)) == Ok::<
                Seq<(Seq<char>, Seq<char>)>,
                Seq<char>,
            >(entries_view(v@)),
            Err(e) => manifest_from(crate::text::lines(text@)) == Err::<
                Seq<(Seq<char>, Seq<char>)>,
                Seq<char>,
            >(e@),
        },
{
    let chars = str_chars(text);
    let ls = crate::text::lines_chars(chars.as_slice());
    let ghost lv = crate::text::vecs_view(ls@);
    let mut out: Vec<(String, String)> = Vec::new();
    let mut k: usize = 0;
    assert(lv.take(0) =~= Seq::<Seq<char>>::empty());
    assert(entries_view(out@) =~= Seq::<(Seq<char>, Seq<char>)>::empty());
    while k < ls.len()
        invariant
            k <= ls.len(),
            lv == crate::text::vecs_view(ls@),
            lv == crate::text::lines(text@),
            manifest_from(lv.take(k as int)) == Ok::<Seq<(Seq<char>, Seq<char>)>, Seq<char>>(
                entries_view(out@),
            ),
        decreases ls.len() - k,
    {
        let line = ls[k].as_slice();
        let _n = line.len();
        assert(line@ == lv[k as int]);
        assert(lv.take(k + 1).drop_last() =~= lv.take(k as int));
        assert(lv.take(k + 1).last() == line@);
        if line.len() > 0 {
            proof {
                crate::text::lemma_index_of_bound(line@, '\t');
            }
            let entry = match crate::text::find_char(line, '\t') {
                Some(i) => {
                    if i > 0 && i + 1 < line.len() {
                        assert(line@.subrange(0, i as int) == line@.take(i as int));
                        assert(line@.subrange(i + 1, line@.len() as int) == line@.skip(i + 1));
                        Some(
                            (
                                crate::text::chars_to_string(&line[0..i]),
                                crate::text::chars_to_string(&line[i + 1..line.len()]),
                            ),
                        )
                    } else {
                        None
                    }
                },
                None => None,
            };
            match entry {
                Some(e) => {
                    let ghost before = entries_view(out@);
                    out.push(e);
                    assert(entries_view(out@) =~= before.push((e.0@, e.1@)));
                },
                None => {
                    proof {
                        lemma_manifest_error_stays(lv, (k + 1) as int);
                    }
                    return Err(string_from("invalid thumbnail manifest line"));
                },
            }
        }
        k += 1;
    }
    assert(lv.take(ls.len() as int) =~= lv);
    Ok(out)
}

/// Once a prefix of the lines is refused, the whole manifest is.
proof fn lemma_manifest_error_stays(ls: Seq<Seq<char>>, k: int)
    requires
        0 <= k <= ls.len(),
        manifest_from(ls.take(k)) is Err,
    ensures
        manifest_from(ls) == manifest_from(ls.take(k)),
    decreases ls.len() - k,
{
    if k < ls.len() {
        assert(ls.take(k + 1).drop_last() =~= ls.take(k));
        lemma_manifest_error_stays(ls, k + 1);
    } else {
        assert(ls.take(k) =~= ls);
    }
}

} // verus!
