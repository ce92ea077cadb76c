# MacDeDup

MacDeDup reclaims disk space used by duplicate files without removing any of them: each
duplicate is replaced by an APFS clone that shares its data with one kept copy and keeps its own
name, permissions, owner, times, extended attributes and flags.

The decisions are made by a library whose behaviour is stated in contracts and proved with
Verus. A thin program around it walks directories, reads files, performs the replacements and
draws the screens.

## The library (`src/`)

- `types` — files, groups of duplicates, and the messages that the stages exchange
- `path`, `order` — paths as bytes: components, names, and the order of paths
- `sort` — a stable merge sort
- `scanner` — what is excluded, and the steps of a scan
- `funnel` — from files to groups of duplicates: by size, by a quick digest, by a full digest
- `hashing` — BLAKE3 digests
- `replace` — the replacement of one file, step by step
- `xattrs` — giving one file the extended attributes of another
- `reclaim` — going through the selected groups
- `cli` — what the plain-text mode prints
- `tui`, `scenes` — the screens of the interactive mode, their keys and their texts
- `text`, `rounding` — texts for people, and the rounding of floating-point quotients in integers

What holds across several functions is stated as proof functions whose names start with `law_`.
Those about what a scan comes to stand in `walk_laws`, those about the stages in `funnel_laws`,
those about a replacement and its effect on the files in `replace_laws`, those about the reports
of a reclamation in `reclaim_laws`; the others stand in the module that they speak of.

## The program (`app/`)

```
MacDeDup <PATH> [PATH ...]           # interactive
MacDeDup --no-tui <PATH> [PATH ...]  # plain text output
MacDeDup --dry-run <PATH>            # preview savings without modifying anything
MacDeDup --scan-library <PATH>       # include ~/Library in the scan
MacDeDup --min-size <BYTES> <PATH>   # skip files smaller than this (default: 1)
```
