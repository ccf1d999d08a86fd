# UCI Grabber

UCI Grabber installs complete, zero-argument UCI chess engine packages from signed catalogs and
from strict, data-only recipes. Every installation is a standard portable UCI engine: its path can
be copied into any compatible chess GUI, or handed to FishEye for its own review.

## Layout

- `src/` is the library, verified with Verus: the rules for recipes and catalogs, the verification of
  signatures, safe unpacking within fixed limits, package snapshots, the registry of installed
  engines, the steps of an installation, the UCI dialogue, and what the application shows.
- `app/` is the program around it: files, network, processes, JSON and windows. The same program is
  the command line, the window and the Maia3 launcher; the name that it is started by decides.
- `tests/` runs the library on concrete values.

## What is proved

Each function states what it returns for every input, each error with the inputs that it comes for;
where the clock or the machine decides, it states what holds either way.
Public proof functions state what holds across functions, among it:

- a catalog is read only once its exact bytes have passed the check of their signature;
- accepted recipes obey every rule of the format;
- whatever an archive names lies below the directory that it is unpacked into, nothing is written
  twice, and the limits on bytes and entries hold throughout;
- a link of a tar archive becomes a copy of a regular file of the same archive, or is refused;
- a download that is accepted has the announced size and digest, however it arrives in pieces;
- a personalized launcher accepts the package that it was made for and no other snapshot;
- an installation goes through its steps in order, and an interrupted one is removed;
- an engine is accepted only if it answered every command of the dialogue.

What the library has from `base64`, `jiff`, `ring`, `sha2`, `url` and std stands behind small
functions whose contracts are taken on trust; the comment above each says what it claims.
