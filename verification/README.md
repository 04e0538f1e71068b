# lmu_shared_memory

Reads the shared memory that the racing simulator LMU publishes: the player's
pedals, the weather and the timing standings.

Enable LMU's **Settings > Gameplay > Enable Plugins** option and restart the game
before connecting. The packed offsets are based on LMU's
`Support\SharedMemoryInterface` layout.

- `src/` is the library, verified with Verus. It reads a mapping through the
  `Memory` trait, decides when what it reads is new, and makes the reports.
  Floating-point numbers are held by their bits, and what is computed from them is
  computed, and proved, on whole numbers.
- `app/` holds what belongs to the operating system: the mapping, its lock and the
  source's window, on Windows. Its readers report with the machine's own floating-point
  numbers.
- `tests/` runs the library.

Licensed under the MIT license.
