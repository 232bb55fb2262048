# nekors

A cat that chases the cursor across a Wayland desktop, with its behaviour stated
and proved in Verus.

* **Drawing** is a fullscreen layer-shell overlay per monitor. The program sets an
  *empty input region* on each, so that clicks pass through to whatever is beneath.
  That is between the program and the compositor: nothing here proves it.
* **The cursor position** is pushed in from outside over D-Bus by a small KWin
  script. Because it no longer comes from `wl_pointer`, the input region can stay
  empty - and that is what makes a fullscreen overlay harmless.

`src/` is the library. It is verified, except that it takes the outside world on
trust: three wrappers (`since_epoch` and `in_local_zone` in `clock`, `cast_slice` in
`bytes`) and the contracts of `SystemTime::now`, `Duration::subsec_nanos` and
`jiff::Zoned::hour` are believed as they stand.

| Module | Role |
| --- | --- |
| `neko`, `state`, `chase` | The animal: its states, its timers, its steps. |
| `habits` | What the animal can be relied on to do. |
| `xbm`, `sheet` | Reading bitmaps and putting sheets of sprites together. |
| `sprite`, `canvas`, `bytes` | Drawing 1-bit sprites into pixel buffers. |
| `screen`, `overlay` | One output's buffers; the layout of all outputs. |
| `monitors`, `frames` | What holds across monitors, and of every frame drawn. |
| `cursor`, `cli`, `clock`, `layer` | What comes in from outside. |
| `session` | The main loop's decisions, and what holds of every frame. |
| `contact` | All frames of a sheet in one picture. |
| `double`, `significant`, `length` | Floating-point numbers, and how their results are rounded. |
| `rounding`, `wide`, `text` | Whole numbers, wide products, text. |

`app/` is the program around it: the Wayland client, the D-Bus server, the
command line and the bitmap files, and a small one that draws a contact sheet. It
looks for the bitmaps in `/usr/share/nekors/bitmaps`, or wherever `NEKORS_BITMAPS`
points, with one folder of `.xbm` files for each animal: `neko` and `dog`.

Fractional quantities - the speed, the sleepiness and the monitors' scales - are
64-bit floating-point numbers. The library holds them by their bits and computes with
them in whole numbers, rounding where floating-point arithmetic rounds.
