# Screenshotter

Takes screenshots of a Wayland desktop (Sway or Hyprland) and files them by the application that
they show.

`src/` is the library: geometry, picture composition, the selection state machine, naming and
filing. Every function in it has a contract that Verus proves, except for the few calls into other
crates, whose contracts are stated next to them.

`app/` is the program around it: the command line, the configuration file, the connections to the
compositor, and everything that touches files and processes.

## The library

| Module | What it holds |
| --- | --- |
| `coord`, `util`, `pixels` | Exact logical coordinates, regions and monitors, and how logical space and a monitor's pixels correspond |
| `geometry` | Regions as text |
| `img` | Laying out the screenshots of several monitors and combining them |
| `ipc` | The windows that the compositor shows, in the order in which they have to be tried |
| `wayland` | Captures, highlights, the magnifier, and the selection from the compositor's events to what was selected |
| `process` | Which process runs in a window |
| `name`, `path`, `stamp` | Names of applications, paths and times |
| `overrides`, `app` | How applications are named differently, and where their screenshots go |
| `command`, `config`, `selection` | What can be asked for and configured |
| `text` | Searching, splitting and trimming text, and numbers as text |

Logical coordinates are fractions rather than floating point numbers: a monitor's pixel edges lie
at multiples of `logical / physical`, and with exact edges a drag captures exactly the pixels from
the first to the last.
