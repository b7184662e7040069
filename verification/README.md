# fdm

A segmented download manager. Files are fetched over several connections at
once, survive a crash or a reboot, and are sorted by type when they are done. A
browser extension, a command line and a window share one download list.

`src/` is the library: every rule the program follows, stated as contracts and
proved with Verus. `app/` is the program around it, which reads and writes files,
sockets and clocks and asks the library what to do.

| module | what it decides |
| --- | --- |
| `plan`, `download`, `probe`, `state` | segments and splits, resuming, what a response may be used for, retries, the end of a download |
| `writer`, `lock`, `scratch`, `naming` | where bytes, locks, partial data and finished files go |
| `categorize`, `config`, `digest`, `progress`, `error` | file types, settings, digests of files, how numbers are shown, what went wrong |
| `manager`, `model`, `store`, `media` | the download list, its rows, what is saved of it, downloads through a media tool |
| `headers`, `header_list`, `link`, `text` | headers, addresses and text |
| `pipe`, `frame`, `wire`, `session`, `client` | the local protocol between the list's owner and its clients |
| `framing`, `protocol`, `host` | the browser's side: messages, and the job behind each download |
| `cli`, `desktop` | the command line and the window |

Statements about the library as a whole are the public proof functions whose
names begin with `law_`. What is taken on trust of other crates stands in
`text`, `link`, `headers`, `digest` and `protocol`, next to the calls.
