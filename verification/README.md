# eso_addon_path

Finds the folders where The Elder Scrolls Online looks for AddOns: under
the documents folder and OneDrive on Windows, under the documents folder and
CrossOver bottles on macOS, and inside Steam's Proton prefixes, `$WINEPREFIX`
and the Lutris prefix on Linux. Each folder found gets a status (how much of
`Documents/Elder Scrolls Online/live/AddOns` exists), and the list is ranked
and freed of folders that name the same place.

The library (`src/`) is written in Verus and verified. It never touches the
file system: detection runs against the answers recorded in an `FsAnswers`
and, where one is missing, returns the question (`FsQuery`). The caller
answers it and runs detection again. `app/` does this against the real disk
and reads the environment.

Paths are strings read in the syntax of the machine they belong to
(`PathStyle`): on Unix only `/` separates; on Windows `\` and `/` both do,
paths may start with a drive or share prefix, and joining writes `\`. `app/`
passes the style of the machine it was built for. A detected folder
(`AddonPathCandidate`) carries the style its path is read in, and two of them
are equal when their paths name the same place. The library works on UTF-8
strings, so `app/` hands it folder names that are not valid UTF-8 with their
invalid parts replaced.

- `src/types.rs`: sources, statuses, their labels and priorities.
- `src/pathsyntax.rs`: path syntax on Unix and Windows: components, joining,
  parents, and when two paths name the same place.
- `src/paths.rs`: the folder layout under documents, Steam and Wine prefixes.
- `src/vdf.rs`: reading `libraryfolders.vdf`.
- `src/fs.rs`: questions and recorded answers.
- `src/detect.rs`: classification and collection of candidates.
- `src/asks.rs`: the finite set of questions detection can ask.
- `src/rank.rs`: ranking and removing repeated places.
- `src/onboard.rs`: the decisions of the first-run screen.
