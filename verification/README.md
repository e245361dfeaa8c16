# ggv

A visualizer for Git histories. It reads a repository, condenses its history to the commits that
branches, tags and merges make interesting, writes the result as a Graphviz DOT file, and serves
the drawn graph to a browser together with diffs, logs and AI summaries of ranges of commits.

The library in `src/` is written in Verus: its functions carry contracts, and the contracts are
proved, but for what the library has from elsewhere. That is trusted, and it is little:
`String::push`, `char::is_alphanumeric` beyond ASCII (`charset::std_alphanumeric`), the Markdown
renderer of `pulldown_cmark` (`markdown::markdown_to_html`), and the system clock
(`utils::unix_seconds`), of which nothing is claimed.

The program in `app/` is ordinary Rust around the library. It reads the repository through `git2`,
runs `git`, `dot` and `gia`, and talks to the network.

## Layout

| Modules | What they hold |
|---------|----------------|
| `text`, `search`, `lines`, `number`, `names`, `template` | Texts: searching, splitting, numbers, ordered sets of names, templates |
| `escape`, `percent`, `charset`, `markdown` | What texts look like in HTML, DOT, JSON, URLs and Markdown, and which names are valid |
| `filter`, `theme`, `palette`, `config`, `utils` | Options, colors and file names |
| `history`, `snapshot`, `nodes`, `traverse`, `condensed` | A repository's commits and refs, and the condensed graph |
| `commit_node`, `edge`, `graph`, `graphviz` | The DOT file and the interactive image |
| `query`, `http`, `prompt`, `job`, `range`, `summary` | Requests, responses, and what is asked of `git` and the AI tool |
| `cards`, `pages`, `html_page`, `diff_page`, `server`, `server_laws` | The pages, the server, and what holds of every request |

The server never acts by itself. `server::handle_connection` is a function from a request and the
answers so far to the next piece of outside work, or to the reply; `app/web.rs` does the work and
calls it again.

The viewer for diffs, `diff2html.min.js` and `diff2html.min.css`, is read from a directory
`assets` beside the program.
