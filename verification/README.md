# gos_kernel

The verified core of a small graph-structured x86-64 kernel, written in
Verus: every function in `src/` carries a `requires`/`ensures` contract that
Verus proves.

- `supervisor` (with `queue`, `sched`, `teardown`, `restart`, `ipc`, `abi`):
  module lifecycle, isolated domains, instances and ready lanes, resource
  claims with preemption and revocation, heap grants with quotas, and
  capability/endpoint IPC; each module's init/start/stop entry calls are
  counted as the lifecycle makes them.
- `boot`: the checks made before the built-in plugins load (ABI versions,
  permissions, imports, load order) and the dependency/mount edges their
  manifests add to the graph.
- `cypher` (with `text`, `rows`, `answers`, `detail`): the query shell's
  parser, plans, the console text and rows it prints, and its
  execution/fault counters.
- `fb`, `fb/aa_text`, `assets`: the framebuffer back-buffer, text, the
  keystroke ring, font atlases.
- `desktop`, `desk_ui`, `desk_draw`: the 3-D desktop's input state and
  every flat panel it draws, stated as ordered paint layers.
- `fat32` (with `walk`): the parameter block, FAT entries, 8.3 slots, and
  `lookup`, `read` and `read_dir` as step machines that name each sector
  they need next.
- `ai`, `chat`, `cuda_host`, `cpuid`, `ime`, `mouse`, `vfs`,
  `heap_verify`, `trap`, `task`, `ring3`, `protocol`, `bytebuf`: the plugins'
  state machines and byte formats.

`app/` holds what cannot be verified: port I/O (serial, PCI, PS/2, CPUID,
the settings disk), the loops that feed sectors to the FAT32 walks, and the
floating-point renderer (camera, projection, shading, picking, rounded
translucent panels).  `tests/` exercises the library on concrete values.
