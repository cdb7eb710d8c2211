# unpalm

Palm rejection for touchpads: a touch that starts in an exclusion zone is kept from the desktop
until the finger leaves the surface.

`src/` is the library. All of it is verified with Verus, but for the bodies of two functions that
call other crates and whose contracts are believed: `destructure` in `touch` (evdev) and
`errno_from_raw` in `session` (nix).

- `geometry`, `polygon`, `polygon_laws`: polygons, what they hold and what is suspicious about them.
- `percent`, `text`, `parse`, `parse_laws`: polygons as the command line writes them.
- `zones`: the exclusion zones that margins, polygons and defaults stand for.
- `touch`, `touch_laws`: which events of a touchpad pass.
- `pattern`, `device`: which device is filtered.
- `session`, `session_laws`: what happens next when a device is polled, lost and found again.

`app/` is the program: command line, devices, signals and floating point.
`tests/` runs the library.
