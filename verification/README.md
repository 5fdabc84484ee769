# scarlet_youtube

A YouTube client for the Scarlet operating system: the `yt` command, which
finds a video, picks its streams and plays them, and the `yt-gui` window,
which searches and browses results.

```
yt [options] URL
yt [options] search QUERY
yt [options] QUERY

Options:
  -o, --output <path>        Save response body
  --headers                  Print response headers
  --no-play                  Download only
  --loop                     Loop playback
  --title <title>            Set the player window title
  --search-results <path>    Write the search hits for QUERY as TSV and exit
  --thumbnail-batch <path>   Fetch the thumbnails a manifest lists and exit
  -h, --help                 Show help
```

A thumbnail manifest holds one `URL<TAB>file` line per image; empty lines
are skipped. When both `--thumbnail-batch` and `--search-results` are given,
the manifest is fetched.

The decisions of both programs live in a library whose functions carry
contracts proved with Verus:

| module       | what it holds |
|--------------|---------------|
| `tsv`        | search hits as tab-separated lines, written and read back |
| `text`, `numbers` | character and number helpers the other modules share |
| `json`       | the JSON scanning a YouTube page needs: strings, fields, objects |
| `form`       | form (percent) encoding and decoding, query parameters |
| `url`        | URL parts, redirects, YouTube video ids |
| `http`       | request texts, response heads, chunked bodies, redirects |
| `stream`     | a response taken in record by record, its body streamed out |
| `transfer`   | writing a buffer out in full, the response size limit |
| `dns`        | A queries and the replies to them |
| `youtube`    | stream selection, player API clients and requests |
| `search`     | hits on a results page |
| `cli`        | the command line, paths, the selection prompt, outcomes |
| `gui`        | paging, the details pane, thumbnails, the status line |

`app/` holds the programs themselves: sockets, TLS (rustls), files, the
terminal, child processes and the window, each step handing plain values to
the library and acting on what it returns.
