# soredowe

A package manager front end for Arch Linux: repository packages (libalpm and
the pacman command line, with a privileged helper), the AUR, Flatpak and
AppImages, behind one window state and one job executor.

The decisions of the program are a Verus library whose functions carry
`requires`/`ensures` contracts proved by Verus; the program around it performs
the I/O.

## Layout

- `src/`: the verified library.
  - `model.rs`: packages, jobs, events, errors and settings.
  - `text.rs`: the text model (lines, trimming, UTF-8 lengths, numbers).
  - `sorting.rs`: the stable sort of result lists and its laws.
  - `ui.rs`: the window state, its filters, and `Store::dispatch`, which turns
    an action into the new state and the jobs to send.
  - `executor.rs`: how a job is planned onto the backends.
  - `srcinfo.rs`, `build_order.rs`: `.SRCINFO` and PKGBUILD reading, and the
    build order of an AUR batch (an order exists exactly when the result is `Ok`).
  - `aur.rs`: AUR requests and replies, updates, VCS checks, build logs.
  - `pacman.rs`, `helper.rs`, `alpm.rs`: pacman command lines and output,
    the helper's JSON protocol and command line, `pacman.conf`, cache cleaning.
  - `pacman_db.rs`: the package databases' `desc` records (local folders and
    sync archives), keyed by name, and the searches, details and upgrades
    built from them.
  - `appstream.rs`, `flatpak.rs`, `appimage.rs`: the AppStream catalogue (read
    from XML or gzip bytes),
    Flatpak refs and update batches, AppImage files.
- `tests/`: tests of the library on concrete values.
- `app/`: the programs (`main`, the backends' I/O, the executor thread, the
  privileged helper), unverified.
