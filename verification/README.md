# androkit

A toolkit for project-aware Android command-line tools: ADB operations, APK
and manifest reading, Gradle wrapper handling and static Gradle project
discovery. It never prints, colors or prompts; every function returns data.

## Layout

- `src/` is the verified library. It decides what to run and reads what
  came back: the arguments of every `adb` and Gradle invocation, the parsing
  of `adb`, `aapt`, `df` and `/proc/meminfo` output, manifest scanning,
  build-script scanning (modules, build types, flavors, variants,
  `applicationId`), project assembly, and the discovery-cache signature.
  Each public function states its result exactly in its contract, over
  specification functions on `Seq<char>`; the laws of the library (variant
  counts, build-type order, sortedness of package lists and signatures,
  distinctness of module and block names) are public proof functions.
- `app/` runs the commands, reads and writes files, unpacks archives, keeps
  the on-disk cache and converts sizes to floating point. It holds the
  serde-serializable copies of the data types.
- `tests/` exercises the library on concrete inputs.
