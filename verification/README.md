# tjipe_showcase

A touch screen showcase for achievements: videos, images and slides that are
uploaded, described, listed with posters, and deleted, and a portal window for
web pages.

The library in `src/` holds the rules and is verified with Verus. It does no
input or output: it is handed what was found on disk and says what is to be
done. The program in `app/` reads, writes and opens windows.

| Module | What it decides |
| --- | --- |
| `text` | trimming, ASCII lower case, decimal numbers |
| `names` | the parts of a file name, clean names for uploads, names that are free |
| `media` | kinds of media, their folders, extensions and MIME types |
| `meta` | the store of descriptions by file name |
| `json` | the file that keeps the descriptions |
| `poster` | which poster belongs to a video, what is saved and removed |
| `poster_job` | the steps that make a poster with ffmpeg or QuickLook |
| `order` | stable sorting |
| `listing` | the list of media, newest first |
| `achievements` | uploading, describing and deleting |
| `portal` | addresses of the portal window |
| `setup` | preparing the resource folder at the start |
| `copying` | the walk that copies a folder |

Each public function states in its contract what it returns, over the spec
functions beside it. Properties that span several functions are public proof
functions, for instance `achievements::uploaded_file_is_listed`,
`json::records_survive_file`, `poster::no_poster_after_removal` and
`copying::walk_copies_the_folder`.

A few items are trusted, each with its claim in a doc comment: `String::push`
(`text`), `Path::file_name` (`names`), `serde_json::from_str` and
`serde_json::to_string_pretty` (`json`) and `url::Url::parse` (`portal`).
