# cache-manager

Directory-based cache and artifact path management, verified with Verus: cache
roots, groups and entries, discovery of `<crate-root>/.cache`, eviction by age,
count and size, and groups of one process and of each of its threads.

## Layout

- `src/` is the library. It computes on plain values and is verified throughout.
  Paths are POSIX paths, held as bytes, with the component rules of std's paths on
  Unix; drive letters and backslashes have no meaning. What needs the disk or the clock is a state machine (`disk`): it names its
  next request, is handed the answer, and goes on until it has an outcome.
  - `path`, `path_order`, `path_laws`: joining, comparing and parents of paths.
  - `time`, `entries`, `evict`, `evict_laws`: which files a policy evicts.
  - `scan`, `select`, `report`, `ensure`, `touch`, `machine`, `scan_laws`,
    `task_laws`: the operations on a group, and what holds of whole runs of them.
  - `constants`, `discovery`, `discovery_laws`, `root`, `group`, `layout_laws`,
    `project`: where a cache lies.
  - `naming`, `process`, `threads`: groups of a process and of its threads.
- `app/` performs the requests on a Unix machine and offers the same operations
  with std's paths, times and errors.
- `tests/` runs the library, mostly on a disk held in memory.

## What is not proved

One call is trusted: `directories::ProjectDirs::from`, in `project`. Nothing is
claimed of the directory that it names. What the operating system answers to a
request is taken as it comes: the contracts hold for every answer.
