# intel_ma

Inspect and deblob the management firmware in a flash image: the Intel
ME/TXE/CSME (analysis, partition and module removal, relocation, truncation,
soft-disable, descriptor hardening, RSA signature check), the AMD PSP
directories, the FIT and Boot Guard, vendor locks, the GbE region and the
UEFI BIOS region (volumes, files, sections, option ROMs).

The library in `src/` is written in Verus: each public function carries a
`requires`/`ensures` contract over spec functions, and the laws of the
library are proof functions: region read-after-write and overlapping
moves, the checksum that the `$FPT` rewrite stores (the header it leaves in
the buffer sums to zero), FLREG encoding, the soft-disable bit and the ME
master's access masks after `clean -S`/`-d`, and the file count of a BIOS
walk.

Two limits are the library's own:

- The BIOS walk expands compressed payloads nested at most 64 deep
  (`bios::MAX_EXPANSIONS`). Every verified loop and recursion needs a bound
  that shrinks, and a decompressed payload can be larger than the data it
  came from, so the count of nested expansions is that bound; firmware in the
  wild nests a few levels.
- Offsets built from the images' 32-bit fields are proved free of overflow
  against a buffer length at least 2^40 below `usize::MAX`, so the image
  functions (`analyze`, `clean`, the BIOS walk) run on 64-bit targets only.

- `src/cleaner.rs` - `analyze` and `clean`, the stage-by-stage specification of a cleaning run
- `src/partitions.rs`, `src/modules.rs` - partition removal and FTPR module removal/relocation
- `src/fpt.rs`, `src/manifest.rs`, `src/descriptor.rs`, `src/region.rs` - image structures
- `src/bios.rs`, `src/fit.rs`, `src/locks.rs`, `src/amd.rs`, `src/gbe.rs`, `src/mei.rs` - the other regions
- `src/crypto.rs`, `src/text.rs`, `src/fmt.rs` - trusted calls into `md-5`, `sha2`, `num-bigint` and std, and text rendering
- `app/` - the command-line program (file and sysfs I/O, decompression via `efi-compress`)
- `tests/` - tests on synthetic images
